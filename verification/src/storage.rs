//! A type store of its own for the types that a module exposes.
//!
//! Importing a variable copies what it stands for, and all that this
//! refers to, from the module's store into the storage. The storage keeps
//! track of the entry that it made for each entry of the source, so that
//! what is shared in the source is shared in the copy, and a type that
//! contains itself is copied once.

use vstd::prelude::*;
use crate::subs::{
    Content, ContentView, FlatType, FlatTypeView, SlotView, Subs, SubsView, Variable,
};

verus! {

/// A store of copies, and for each variable of the source the variable
/// that was made for it.
#[derive(Debug, PartialEq, Eq)]
pub struct StorageSubs {
    pub subs: Subs,
    pub copies: Vec<Option<Variable>>,
}

/// The copy that was made for the source's variable `var`, if any.
pub open spec fn copy_at(copies: Seq<Option<Variable>>, var: Variable) -> Option<Variable> {
    if var.0 < copies.len() {
        copies[var.0 as int]
    } else {
        None
    }
}

/// The content that the entry of the root with the number `root` holds.
pub open spec fn held(source: SubsView, root: int) -> ContentView {
    match source.slots[root] {
        SlotView::Root(content) => content,
        SlotView::Redirect(_) => ContentView::Error,
    }
}

/// The copy of what the source's variable `var` stands for.
pub open spec fn translated_var(var: Variable, source: SubsView, copies: Seq<Option<Variable>>) -> Variable {
    match copy_at(copies, source.root_of(var)) {
        Some(copy) => copy,
        None => var,
    }
}

/// The copies of what the source's variables `parts` stand for.
pub open spec fn translated_parts(
    parts: Seq<Variable>,
    source: SubsView,
    copies: Seq<Option<Variable>>,
) -> Seq<Variable> {
    Seq::new(parts.len(), |i: int| translated_var(parts[i], source, copies))
}

/// The content of the source with each variable replaced by the copy of
/// what it stands for.
pub open spec fn translated(content: ContentView, source: SubsView, copies: Seq<Option<Variable>>) -> ContentView {
    match content {
        ContentView::Structure(FlatTypeView::Apply { module_name, name, args }) => {
            ContentView::Structure(
                FlatTypeView::Apply {
                    module_name,
                    name,
                    args: translated_parts(args, source, copies),
                },
            )
        },
        ContentView::Structure(FlatTypeView::Func(args, ret)) => ContentView::Structure(
            FlatTypeView::Func(
                translated_parts(args, source, copies),
                translated_var(ret, source, copies),
            ),
        ),
        ContentView::Alias(symbol, args, actual) => ContentView::Alias(
            symbol,
            translated_parts(args, source, copies),
            translated_var(actual, source, copies),
        ),
        other => other,
    }
}

/// The number of roots among the first `n` variables of the source that no
/// copy was made for.
pub open spec fn unmapped_below(source: SubsView, copies: Seq<Option<Variable>>, n: int) -> nat
    decreases n,
{
    if n <= 0 {
        0
    } else {
        unmapped_below(source, copies, n - 1) + if source.slots[n - 1] is Root && !(n - 1
            < copies.len() && copies[n - 1] is Some) {
            1nat
        } else {
            0nat
        }
    }
}

/// Whether the copies are entries of `dest`, one for one root of the
/// source, no two for the same, and `dest` holds nothing else.
pub open spec fn sound(dest: SubsView, copies: Seq<Option<Variable>>, source: SubsView) -> bool {
    &&& dest.wf()
    &&& forall|d: int| 0 <= d < dest.size() ==> #[trigger] dest.slots[d] is Root
    &&& copies.len() <= source.size()
    &&& forall|r: int|
        0 <= r < copies.len() ==> (#[trigger] copies[r] matches Some(copy) ==> source.slots[r] is Root
            && copy.0 < dest.size())
    &&& forall|r1: int, r2: int|
        0 <= r1 < copies.len() && 0 <= r2 < copies.len() && r1 != r2 && (
        #[trigger] copies[r1]) is Some && (#[trigger] copies[r2]) is Some ==> copies[r1] != copies[r2]
    &&& dest.size() + unmapped_below(source, copies, source.size()) <= source.size()
}

/// Whether a copy was made for everything that the root with the number
/// `root` refers to.
pub open spec fn closed_at(copies: Seq<Option<Variable>>, source: SubsView, root: int) -> bool {
    forall|i: int|
        0 <= i < held(source, root).parts().len() ==> copy_at(
            copies,
            source.root_of(#[trigger] held(source, root).parts()[i]),
        ) is Some
}

/// Whether the copy of the root with the number `root` holds the root's
/// content, translated.
pub open spec fn faithful_at(
    dest: SubsView,
    copies: Seq<Option<Variable>>,
    source: SubsView,
    root: int,
) -> bool {
    copies[root] matches Some(copy) ==> dest.slots[copy.0 as int] == SlotView::Root(
        translated(held(source, root), source, copies),
    )
}

/// Whether `dest` is a copy of the part of the source that copies were
/// made for: nothing is missing that a copied entry refers to, and every
/// copy holds what the entry it was made for holds, translated.
pub open spec fn mirrors(dest: SubsView, copies: Seq<Option<Variable>>, source: SubsView) -> bool {
    &&& sound(dest, copies, source)
    &&& forall|r: int|
        0 <= r < copies.len() && (#[trigger] copies[r]) is Some ==> closed_at(copies, source, r)
            && faithful_at(dest, copies, source, r)
}

/// Whether `later` has every copy that `earlier` has.
pub open spec fn extends(earlier: Seq<Option<Variable>>, later: Seq<Option<Variable>>) -> bool {
    &&& earlier.len() <= later.len()
    &&& forall|r: int| 0 <= r < earlier.len() && (#[trigger] earlier[r]) is Some ==> later[r] == earlier[r]
}

/// Whether the entry `to` is reached from what `from` stands for by going
/// `steps` times from a content to one of the variables it refers to.
pub open spec fn reaches(source: SubsView, from: Variable, to: Variable, steps: nat) -> bool
    decreases steps,
{
    if steps == 0 {
        source.has(from) && source.root_of(from) == to
    } else {
        source.has(from) && exists|i: int|
            0 <= i < source.content_of(from).parts().len() && reaches(
                source,
                #[trigger] source.content_of(from).parts()[i],
                to,
                (steps - 1) as nat,
            )
    }
}

/// Whether the entry `to` is part of what `from` stands for: the entry of
/// `from` itself, or one that it refers to, directly or not.
pub open spec fn reachable(source: SubsView, from: Variable, to: Variable) -> bool {
    exists|steps: nat| #[trigger] reaches(source, from, to, steps)
}

/// Whether every copy that `later` has and `earlier` lacks is a variable
/// from `size` on, made for an entry that is part of what `from` stands for.
pub open spec fn only_new(
    earlier: Seq<Option<Variable>>,
    later: Seq<Option<Variable>>,
    size: int,
    source: SubsView,
    from: Variable,
) -> bool {
    forall|r: int|
        0 <= r < later.len() && (#[trigger] later[r]) is Some && copy_at(
            earlier,
            Variable(r as u32),
        ) is None ==> later[r]->Some_0.0 >= size && reachable(source, from, Variable(r as u32))
}

/// What is reached in some steps reaches, in one step more, what it
/// refers to.
proof fn lemma_reaches_part(source: SubsView, from: Variable, to: Variable, steps: nat, i: int)
    requires
        source.wf(),
        reaches(source, from, to, steps),
        source.is_root(to),
        0 <= i < held(source, to.0 as int).parts().len(),
    ensures
        reaches(source, from, source.root_of(held(source, to.0 as int).parts()[i]), steps + 1),
    decreases steps,
{
    let part = held(source, to.0 as int).parts()[i];
    let target = source.root_of(part);
    if steps == 0 {
        assert(source.content_of(from) == held(source, to.0 as int));
        assert(held(source, to.0 as int).within(source.size()));
        assert(source.has(part));
        assert(reaches(source, part, target, 0));
        assert(reaches(source, source.content_of(from).parts()[i], target, 0));
    } else {
        let j = choose|j: int|
            0 <= j < source.content_of(from).parts().len() && reaches(
                source,
                #[trigger] source.content_of(from).parts()[j],
                to,
                (steps - 1) as nat,
            );
        lemma_reaches_part(source, source.content_of(from).parts()[j], to, (steps - 1) as nat, i);
        assert(reaches(source, source.content_of(from).parts()[j], target, steps));
    }
}

/// What is reached from the root of a variable is reached from the variable.
proof fn lemma_reaches_from_root(source: SubsView, var: Variable, to: Variable, steps: nat)
    requires
        source.redirects_down(),
        source.has(var),
        reaches(source, source.root_of(var), to, steps),
    ensures
        reaches(source, var, to, steps),
{
    source.lemma_root(var);
    assert(source.content_of(var) == source.content_of(source.root_of(var)));
    if steps > 0 {
        let root = source.root_of(var);
        let j = choose|j: int|
            0 <= j < source.content_of(root).parts().len() && reaches(
                source,
                #[trigger] source.content_of(root).parts()[j],
                to,
                (steps - 1) as nat,
            );
        assert(reaches(source, source.content_of(var).parts()[j], to, (steps - 1) as nat));
    }
}

/// Whether a copy was made, or is about to be made, for everything that
/// the root with the number `root` refers to.
pub open spec fn pending_at(
    copies: Seq<Option<Variable>>,
    source: SubsView,
    work: Seq<Variable>,
    root: int,
) -> bool {
    forall|i: int|
        0 <= i < held(source, root).parts().len() ==> {
            let part = source.root_of(#[trigger] held(source, root).parts()[i]);
            copy_at(copies, part) is Some || work.contains(part)
        }
}

/// No more roots lack a copy than there are variables.
proof fn lemma_unmapped_bound(source: SubsView, copies: Seq<Option<Variable>>, n: int)
    requires
        0 <= n,
    ensures
        unmapped_below(source, copies, n) <= n,
    decreases n,
{
    if n > 0 {
        lemma_unmapped_bound(source, copies, n - 1);
    }
}

/// Room for copies that none was made for changes nothing.
proof fn lemma_unmapped_padded(source: SubsView, copies: Seq<Option<Variable>>, n: int)
    ensures
        unmapped_below(source, copies.push(None), n) == unmapped_below(source, copies, n),
    decreases n,
{
    if n > 0 {
        lemma_unmapped_padded(source, copies, n - 1);
    }
}

/// A copy for a root that had none leaves one root fewer without a copy.
proof fn lemma_unmapped_set(
    source: SubsView,
    copies: Seq<Option<Variable>>,
    n: int,
    root: int,
    copy: Variable,
)
    requires
        0 <= root < copies.len(),
        source.slots[root] is Root,
        copies[root] is None,
        0 <= n,
    ensures
        unmapped_below(source, copies.update(root, Some(copy)), n) + (if root < n {
            1int
        } else {
            0int
        }) == unmapped_below(source, copies, n),
    decreases n,
{
    if n > 0 {
        lemma_unmapped_set(source, copies, n - 1, root, copy);
    }
}

/// A root without a copy counts.
proof fn lemma_unmapped_positive(source: SubsView, copies: Seq<Option<Variable>>, n: int, root: int)
    requires
        0 <= root < n,
        source.slots[root] is Root,
        copy_at(copies, Variable(root as u32)) is None,
        root <= u32::MAX,
    ensures
        unmapped_below(source, copies, n) >= 1,
    decreases n,
{
    if root < n - 1 {
        lemma_unmapped_positive(source, copies, n - 1, root);
    }
}

impl StorageSubs {
    /// Whether the storage is a copy of a part of `source`.
    pub open spec fn mirrors(&self, source: SubsView) -> bool {
        mirrors(self.subs@, self.copies@, source)
    }

    /// The copy that was made for what the source's variable `var` stands
    /// for, if any.
    pub open spec fn copy_of(&self, source: SubsView, var: Variable) -> Option<Variable> {
        copy_at(self.copies@, source.root_of(var))
    }

    /// An empty storage. It is a copy of no part of any store.
    pub fn new(subs: Subs) -> (storage: StorageSubs)
        requires
            subs@.size() == 0,
            subs.wf(),
        ensures
            storage.subs == subs,
            storage.copies@.len() == 0,
            forall|source: SubsView| #[trigger] storage.mirrors(source),
    {
        let storage = StorageSubs { subs, copies: Vec::new() };
        proof {
            assert forall|source: SubsView| #[trigger] storage.mirrors(source) by {
                lemma_unmapped_bound(source, storage.copies@, source.size());
            }
        }
        storage
    }

    /// The copy of a content of the source.
    fn translate(&self, content: &Content, source: &Subs) -> (copy: Content)
        requires
            source.wf(),
            content@.within(source.size()),
            self.copies@.len() == source.size(),
            forall|i: int|
                0 <= i < content@.parts().len() ==> copy_at(
                    self.copies@,
                    source@.root_of(#[trigger] content@.parts()[i]),
                ) is Some,
        ensures
            copy@ == translated(content@, source@, self.copies@),
    {
        match content {
            Content::Structure(FlatType::Apply { module_name, name, args }) => {
                proof {
                    assert(content@.parts() =~= args@);
                }
                Content::Structure(
                    FlatType::Apply {
                        module_name: module_name.clone(),
                        name: name.clone(),
                        args: self.translate_parts(args, source),
                    },
                )
            },
            Content::Structure(FlatType::Func(args, ret)) => {
                proof {
                    assert(content@.parts() =~= args@.push(*ret));
                    assert forall|i: int| 0 <= i < args@.len() implies copy_at(
                        self.copies@,
                        source@.root_of(#[trigger] args@[i]),
                    ) is Some && args@[i].0 < source.size() by {
                        assert(content@.parts()[i] == args@[i]);
                    }
                    assert(content@.parts()[args@.len() as int] == *ret);
                }
                Content::Structure(
                    FlatType::Func(self.translate_parts(args, source), self.translate_var(*ret, source)),
                )
            },
            Content::Alias(symbol, args, actual) => {
                proof {
                    assert(content@.parts() =~= args@.push(*actual));
                    assert forall|i: int| 0 <= i < args@.len() implies copy_at(
                        self.copies@,
                        source@.root_of(#[trigger] args@[i]),
                    ) is Some && args@[i].0 < source.size() by {
                        assert(content@.parts()[i] == args@[i]);
                    }
                    assert(content@.parts()[args@.len() as int] == *actual);
                }
                Content::Alias(
                    *symbol,
                    self.translate_parts(args, source),
                    self.translate_var(*actual, source),
                )
            },
            other => other.duplicate(),
        }
    }

    /// The copy of what a variable of the source stands for.
    fn translate_var(&self, var: Variable, source: &Subs) -> (copy: Variable)
        requires
            source.wf(),
            source.has(var),
            self.copies@.len() == source.size(),
            copy_at(self.copies@, source@.root_of(var)) is Some,
        ensures
            copy == translated_var(var, source@, self.copies@),
    {
        let root = source.root(var);
        match self.copies[root.0 as usize] {
            Some(copy) => copy,
            None => var,
        }
    }

    /// The copies of what variables of the source stand for.
    fn translate_parts(&self, parts: &Vec<Variable>, source: &Subs) -> (copies: Vec<Variable>)
        requires
            source.wf(),
            self.copies@.len() == source.size(),
            forall|i: int|
                0 <= i < parts@.len() ==> copy_at(self.copies@, source@.root_of(#[trigger] parts@[i]))
                    is Some && parts@[i].0 < source.size(),
        ensures
            copies@ == translated_parts(parts@, source@, self.copies@),
    {
        let mut copies: Vec<Variable> = Vec::new();
        let mut i: usize = 0;
        while i < parts.len()
            invariant
                i <= parts@.len(),
                source.wf(),
                self.copies@.len() == source.size(),
                forall|i: int|
                    0 <= i < parts@.len() ==> copy_at(
                        self.copies@,
                        source@.root_of(#[trigger] parts@[i]),
                    ) is Some && parts@[i].0 < source.size(),
                copies@ == translated_parts(parts@, source@, self.copies@).subrange(0, i as int),
            decreases parts.len() - i,
        {
            let copy = self.translate_var(parts[i], source);
            copies.push(copy);
            proof {
                assert(copies@ =~= translated_parts(parts@, source@, self.copies@).subrange(
                    0,
                    i + 1,
                ));
            }
            i += 1;
        }
        proof {
            assert(copies@ =~= translated_parts(parts@, source@, self.copies@));
        }
        copies
    }

    /// Copies what `var` stands for in `source`, and all that it refers to,
    /// into the storage, and yields the copy. Entries that were copied
    /// before are not copied again: what is shared in the source is shared
    /// in the storage.
    pub fn import_variable_from(&mut self, source: &Subs, var: Variable) -> (copy: Variable)
        requires
            source.wf(),
            source.has(var),
            old(self).mirrors(source@),
        ensures
            final(self).mirrors(source@),
            extends(old(self).copies@, final(self).copies@),
            final(self).copy_of(source@, var) == Some(copy),
            only_new(
                old(self).copies@,
                final(self).copies@,
                old(self).subs.size(),
                source@,
                var,
            ),
    {
        self.make_room(source);
        let root = source.root(var);
        let ghost room = self.copies@;
        self.reserve(source, root);
        let ghost reserved = self.copies@;
        self.fill(source);
        proof {
            source@.lemma_root(var);
            assert forall|r: int|
                0 <= r < self.copies@.len() && (#[trigger] self.copies@[r]) is Some && copy_at(
                    old(self).copies@,
                    Variable(r as u32),
                ) is None implies self.copies@[r]->Some_0.0 >= old(self).subs.size() && reachable(
                source@,
                var,
                Variable(r as u32),
            ) by {
                assert(copy_at(room, Variable(r as u32)) == copy_at(
                    old(self).copies@,
                    Variable(r as u32),
                ));
                assert(reserved[r] is Some);
                assert(reachable(source@, root, Variable(r as u32)));
                let steps = choose|steps: nat| #[trigger] reaches(source@, root, Variable(r as u32), steps);
                lemma_reaches_from_root(source@, var, Variable(r as u32), steps);
            }
        }
        self.translate_var(var, source)
    }

    /// Makes an entry for `root` and for every root that it refers to,
    /// directly or not, unless it has one. The new entries hold nothing
    /// yet.
    fn reserve(&mut self, source: &Subs, root: Variable)
        requires
            source.wf(),
            source@.is_root(root),
            old(self).copies@.len() == source.size(),
            old(self).mirrors(source@),
        ensures
            sound(final(self).subs@, final(self).copies@, source@),
            final(self).copies@.len() == source.size(),
            extends(old(self).copies@, final(self).copies@),
            copy_at(final(self).copies@, root) is Some,
            forall|r: int|
                0 <= r < final(self).copies@.len() && (#[trigger] final(self).copies@[r]) is Some
                    ==> closed_at(final(self).copies@, source@, r),
            only_new(
                old(self).copies@,
                final(self).copies@,
                old(self).subs.size(),
                source@,
                root,
            ),
    {
        let mut work: Vec<Variable> = Vec::new();
        work.push(root);
        proof {
            assert(work@[0] == root);
            source@.lemma_root(root);
            assert(reaches(source@, root, root, 0));
            assert forall|r: int| 0 <= r < self.copies@.len() && (
            #[trigger] self.copies@[r]) is Some implies pending_at(
                self.copies@,
                source@,
                work@,
                r,
            ) by {
                assert(closed_at(self.copies@, source@, r));
            }
        }
        while work.len() > 0
            invariant
                source.wf(),
                self.copies@.len() == source.size(),
                sound(self.subs@, self.copies@, source@),
                extends(old(self).copies@, self.copies@),
                forall|i: int| 0 <= i < work@.len() ==> source@.is_root(#[trigger] work@[i]),
                forall|r: int|
                    0 <= r < self.copies@.len() && (#[trigger] self.copies@[r]) is Some
                        ==> pending_at(self.copies@, source@, work@, r),
                copy_at(self.copies@, root) is Some || work@.contains(root),
                forall|i: int| 0 <= i < work@.len() ==> reachable(source@, root, #[trigger] work@[i]),
                old(self).subs.size() <= self.subs.size(),
                only_new(
                    old(self).copies@,
                    self.copies@,
                    old(self).subs.size(),
                    source@,
                    root,
                ),
            decreases unmapped_below(source@, self.copies@, source.size()), work@.len(),
        {
            let ghost before_work = work@;
            let ghost before_copies = self.copies@;
            let ghost before_dest = self.subs@;
            let current = work.pop().unwrap();
            let ghost rest = work@;
            proof {
                assert(rest =~= before_work.drop_last());
                assert(source@.is_root(before_work[before_work.len() - 1]));
                assert(reachable(source@, root, before_work[before_work.len() - 1]));
                assert forall|i: int| 0 <= i < rest.len() implies reachable(
                    source@,
                    root,
                    #[trigger] rest[i],
                ) by {
                    assert(rest[i] == before_work[i]);
                }
                assert forall|x: Variable| before_work.contains(x) implies x == current
                    || rest.contains(x) by {
                    let i = choose|i: int| 0 <= i < before_work.len() && before_work[i] == x;
                    if i < rest.len() {
                        assert(rest[i] == x);
                    }
                }
            }
            let known = match self.copies[current.0 as usize] {
                Some(_) => true,
                None => false,
            };
            if !known {
                proof {
                    lemma_unmapped_positive(
                        source@,
                        before_copies,
                        source.size(),
                        current.0 as int,
                    );
                }
                match self.subs.fresh(Content::FlexVar(None)) {
                    Some(copy) => {
                        self.copies.set(current.0 as usize, Some(copy));
                        let content = source.get_without_compacting(current);
                        let parts = content.parts();
                        proof {
                            source@.lemma_root(current);
                            assert(content@ == held(source@, current.0 as int));
                            assert(held(source@, current.0 as int).within(source.size()));
                            lemma_unmapped_set(
                                source@,
                                before_copies,
                                source.size(),
                                current.0 as int,
                                copy,
                            );
                            assert(self.copies@ =~= before_copies.update(
                                current.0 as int,
                                Some(copy),
                            ));
                            assert forall|d: int| 0 <= d < self.subs@.size() implies (
                            #[trigger] self.subs@.slots[d]) is Root by {
                                if d < before_dest.size() {
                                    assert(before_dest.slots[d] is Root);
                                }
                            }
                            assert forall|r: int| 0 <= r < self.copies@.len() implies (
                            #[trigger] self.copies@[r] matches Some(made) ==> source@.slots[r] is Root
                                && made.0 < self.subs@.size()) by {
                                if r != current.0 {
                                    assert(self.copies@[r] == before_copies[r]);
                                }
                            }
                            assert forall|r1: int, r2: int|
                                0 <= r1 < self.copies@.len() && 0 <= r2 < self.copies@.len() && r1
                                    != r2 && (#[trigger] self.copies@[r1]) is Some && (
                                #[trigger] self.copies@[r2]) is Some implies self.copies@[r1]
                                != self.copies@[r2] by {
                                if r1 != current.0 {
                                    assert(self.copies@[r1] == before_copies[r1]);
                                }
                                if r2 != current.0 {
                                    assert(self.copies@[r2] == before_copies[r2]);
                                }
                            }
                            assert forall|r: int| 0 <= r < old(self).copies@.len() && (
                            #[trigger] old(self).copies@[r]) is Some implies self.copies@[r] == old(
                                self,
                            ).copies@[r] by {
                                assert(before_copies[r] == old(self).copies@[r]);
                            }
                            assert forall|r: int|
                                0 <= r < self.copies@.len() && (#[trigger] self.copies@[r]) is Some
                                    && copy_at(old(self).copies@, Variable(r as u32))
                                    is None implies self.copies@[r]->Some_0.0 >= old(
                                self,
                            ).subs.size() && reachable(source@, root, Variable(r as u32)) by {
                                if r != current.0 {
                                    assert(self.copies@[r] == before_copies[r]);
                                } else {
                                    assert(Variable(r as u32) == current);
                                }
                            }
                        }
                        let mut k: usize = 0;
                        while k < parts.len()
                            invariant
                                k <= parts@.len(),
                                source.wf(),
                                parts@ == held(source@, current.0 as int).parts(),
                                held(source@, current.0 as int).within(source.size()),
                                work@.len() == rest.len() + k,
                                forall|i: int| 0 <= i < rest.len() ==> work@[i] == rest[i],
                                forall|i: int|
                                    0 <= i < k ==> #[trigger] work@[rest.len() + i]
                                        == source@.root_of(parts@[i]),
                                forall|i: int|
                                    0 <= i < work@.len() ==> source@.is_root(#[trigger] work@[i]),
                                source@.is_root(current),
                                reachable(source@, root, current),
                                forall|i: int|
                                    0 <= i < work@.len() ==> reachable(
                                        source@,
                                        root,
                                        #[trigger] work@[i],
                                    ),
                            decreases parts.len() - k,
                        {
                            let part = parts[k];
                            let ghost pushed = work@;
                            proof {
                                assert(held(source@, current.0 as int).parts()[k as int].0
                                    < source.size());
                            }
                            let part_root = source.root(part);
                            work.push(part_root);
                            proof {
                                let steps = choose|steps: nat| #[trigger] reaches(source@, root, current, steps);
                                lemma_reaches_part(source@, root, current, steps, k as int);
                                assert(reaches(source@, root, part_root, steps + 1));
                                assert forall|i: int| 0 <= i < work@.len() implies reachable(
                                    source@,
                                    root,
                                    #[trigger] work@[i],
                                ) by {
                                    if i < pushed.len() {
                                        assert(work@[i] == pushed[i]);
                                    }
                                }
                            }
                            k += 1;
                        }
                        proof {
                            assert forall|x: Variable| rest.contains(x) implies work@.contains(
                                x,
                            ) by {
                                let i = choose|i: int| 0 <= i < rest.len() && rest[i] == x;
                                assert(work@[i] == x);
                            }
                            assert forall|r: int| 0 <= r < self.copies@.len() && (
                            #[trigger] self.copies@[r]) is Some implies pending_at(
                                self.copies@,
                                source@,
                                work@,
                                r,
                            ) by {
                                assert forall|i: int|
                                    0 <= i < held(source@, r).parts().len() implies ({
                                    let part = source@.root_of(
                                        #[trigger] held(source@, r).parts()[i],
                                    );
                                    copy_at(self.copies@, part) is Some || work@.contains(part)
                                }) by {
                                    let part = source@.root_of(held(source@, r).parts()[i]);
                                    if r == current.0 {
                                        assert(work@[rest.len() + i] == part);
                                    } else {
                                        assert(before_copies[r] is Some);
                                        assert(pending_at(before_copies, source@, before_work, r));
                                        if copy_at(before_copies, part) is Some {
                                            assert(copy_at(self.copies@, part) is Some);
                                        } else {
                                            assert(before_work.contains(part));
                                        }
                                    }
                                }
                            }
                        }
                    },
                    None => {},
                }
            } else {
                proof {
                    assert forall|r: int| 0 <= r < self.copies@.len() && (
                    #[trigger] self.copies@[r]) is Some implies pending_at(
                        self.copies@,
                        source@,
                        work@,
                        r,
                    ) by {
                        assert(pending_at(before_copies, source@, before_work, r));
                        assert forall|i: int|
                            0 <= i < held(source@, r).parts().len() implies ({
                            let part = source@.root_of(#[trigger] held(source@, r).parts()[i]);
                            copy_at(self.copies@, part) is Some || work@.contains(part)
                        }) by {
                            let part = source@.root_of(held(source@, r).parts()[i]);
                            if !(copy_at(before_copies, part) is Some) {
                                assert(before_work.contains(part));
                            }
                        }
                    }
                }
            }
        }
        proof {
            assert forall|r: int| 0 <= r < self.copies@.len() && (
            #[trigger] self.copies@[r]) is Some implies closed_at(self.copies@, source@, r) by {
                assert(pending_at(self.copies@, source@, work@, r));
                assert forall|i: int| 0 <= i < held(source@, r).parts().len() implies copy_at(
                    self.copies@,
                    source@.root_of(#[trigger] held(source@, r).parts()[i]),
                ) is Some by {
                    let part = source@.root_of(held(source@, r).parts()[i]);
                    assert(!work@.contains(part));
                }
            }
        }
    }

    /// Gives every copy the content of the entry it was made for,
    /// translated.
    fn fill(&mut self, source: &Subs)
        requires
            source.wf(),
            old(self).copies@.len() == source.size(),
            sound(old(self).subs@, old(self).copies@, source@),
            forall|r: int|
                0 <= r < old(self).copies@.len() && (#[trigger] old(self).copies@[r]) is Some
                    ==> closed_at(old(self).copies@, source@, r),
        ensures
            final(self).copies@ == old(self).copies@,
            final(self).mirrors(source@),
    {
        let mut r: usize = 0;
        while r < self.copies.len()
            invariant
                r <= self.copies@.len(),
                source.wf(),
                self.copies@ == old(self).copies@,
                self.copies@.len() == source.size(),
                sound(self.subs@, self.copies@, source@),
                forall|q: int|
                    0 <= q < self.copies@.len() && (#[trigger] self.copies@[q]) is Some
                        ==> closed_at(self.copies@, source@, q),
                forall|q: int|
                    0 <= q < r && (#[trigger] self.copies@[q]) is Some ==> faithful_at(
                        self.subs@,
                        self.copies@,
                        source@,
                        q,
                    ),
            decreases self.copies@.len() - r,
        {
            let ghost before = self.subs@;
            match self.copies[r] {
                Some(copy) => {
                    let root = Variable(r as u32);
                    proof {
                        source@.lemma_root(root);
                        assert(closed_at(self.copies@, source@, r as int));
                        assert(source@.slots[r as int] is Root);
                    }
                    let content = source.get_without_compacting(root);
                    proof {
                        assert(content@ == held(source@, r as int));
                        assert(content@.within(source.size()));
                    }
                    let translation = self.translate(&content, source);
                    proof {
                        lemma_translated_within(
                            content@,
                            source@,
                            self.copies@,
                            self.subs@.size(),
                        );
                        before.lemma_root(copy);
                        assert(before.slots[copy.0 as int] is Root);
                        before.lemma_with_content(copy, translation@, copy);
                    }
                    self.subs.set_content(copy, translation);
                    proof {
                        let after = self.subs@;
                        assert forall|d: int| 0 <= d < after.size() implies (
                        #[trigger] after.slots[d]) is Root by {
                            if d != copy.0 {
                                assert(after.slots[d] == before.slots[d]);
                                assert(before.slots[d] is Root);
                            }
                        }
                        assert forall|q: int| 0 <= q < r + 1 && (
                        #[trigger] self.copies@[q]) is Some implies faithful_at(
                            after,
                            self.copies@,
                            source@,
                            q,
                        ) by {
                            if q < r {
                                assert(faithful_at(before, self.copies@, source@, q));
                                assert(self.copies@[q] != self.copies@[r as int]);
                                let other = self.copies@[q]->Some_0;
                                assert(after.slots[other.0 as int] == before.slots[other.0 as int]);
                            }
                        }
                    }
                },
                None => {},
            }
            r += 1;
        }
    }

    /// Makes room for a copy of every variable of the source.
    fn make_room(&mut self, source: &Subs)
        requires
            old(self).mirrors(source@),
        ensures
            final(self).subs == old(self).subs,
            final(self).copies@.len() == source.size(),
            extends(old(self).copies@, final(self).copies@),
            forall|var: Variable| #[trigger]
                copy_at(final(self).copies@, var) == copy_at(old(self).copies@, var),
            final(self).mirrors(source@),
    {
        while self.copies.len() < source.len()
            invariant
                self.subs == old(self).subs,
                old(self).copies@.len() <= self.copies@.len() <= source.size(),
                extends(old(self).copies@, self.copies@),
                forall|var: Variable| #[trigger]
                    copy_at(self.copies@, var) == copy_at(old(self).copies@, var),
                self.mirrors(source@),
            decreases source.size() - self.copies@.len(),
        {
            let ghost before = self.copies@;
            self.copies.push(None);
            proof {
                lemma_unmapped_padded(source@, before, source@.size());
                assert forall|var: Variable| #[trigger]
                    copy_at(self.copies@, var) == copy_at(before, var) by {}
                assert forall|r: int| 0 <= r < self.copies@.len() && (
                #[trigger] self.copies@[r]) is Some implies closed_at(self.copies@, source@, r)
                    && faithful_at(self.subs@, self.copies@, source@, r) by {
                    assert(before[r] is Some);
                    assert(closed_at(before, source@, r));
                    assert forall|i: int| 0 <= i < held(source@, r).parts().len() implies copy_at(
                        self.copies@,
                        source@.root_of(#[trigger] held(source@, r).parts()[i]),
                    ) is Some by {
                        assert(copy_at(before, source@.root_of(held(source@, r).parts()[i])) is Some);
                    }
                    assert(translated(held(source@, r), source@, self.copies@) == translated(
                        held(source@, r),
                        source@,
                        before,
                    )) by {
                        lemma_translated_same(held(source@, r), source@, before, self.copies@);
                    }
                }
            }
        }
    }
}

/// Where every variable that a content refers to has a copy among the
/// first `bound` variables, the translated content refers to those only.
proof fn lemma_translated_within(
    content: ContentView,
    source: SubsView,
    copies: Seq<Option<Variable>>,
    bound: int,
)
    requires
        forall|i: int|
            0 <= i < content.parts().len() ==> (copy_at(
                copies,
                source.root_of(#[trigger] content.parts()[i]),
            ) matches Some(copy) && copy.0 < bound),
    ensures
        translated(content, source, copies).within(bound),
{
    let result = translated(content, source, copies);
    assert(result.parts().len() == content.parts().len()) by {
        match content {
            ContentView::Structure(FlatTypeView::Apply { module_name, name, args }) => {},
            ContentView::Structure(FlatTypeView::Func(args, ret)) => {},
            ContentView::Alias(symbol, args, actual) => {},
            _ => {},
        }
    }
    assert forall|i: int| 0 <= i < result.parts().len() implies (#[trigger] result.parts()[i]).0
        < bound by {
        assert(result.parts()[i] == translated_var(content.parts()[i], source, copies)) by {
            match content {
                ContentView::Structure(FlatTypeView::Apply { module_name, name, args }) => {},
                ContentView::Structure(FlatTypeView::Func(args, ret)) => {},
                ContentView::Alias(symbol, args, actual) => {},
                _ => {},
            }
        }
    }
}

/// Translating under copies that agree on what the content refers to gives
/// the same.
proof fn lemma_translated_same(
    content: ContentView,
    source: SubsView,
    first: Seq<Option<Variable>>,
    second: Seq<Option<Variable>>,
)
    requires
        forall|i: int|
            0 <= i < content.parts().len() ==> copy_at(
                first,
                source.root_of(#[trigger] content.parts()[i]),
            ) == copy_at(second, source.root_of(content.parts()[i])),
    ensures
        translated(content, source, first) == translated(content, source, second),
{
    match content {
        ContentView::Structure(FlatTypeView::Apply { module_name, name, args }) => {
            assert(content.parts() =~= args);
            assert forall|i: int| 0 <= i < args.len() implies translated_var(
                args[i],
                source,
                first,
            ) == translated_var(args[i], source, second) by {
                assert(content.parts()[i] == args[i]);
            }
            assert(translated_parts(args, source, first) =~= translated_parts(args, source, second));
        },
        ContentView::Structure(FlatTypeView::Func(args, ret)) => {
            assert(content.parts() =~= args.push(ret));
            assert forall|i: int| 0 <= i < args.len() implies translated_var(
                args[i],
                source,
                first,
            ) == translated_var(args[i], source, second) by {
                assert(content.parts()[i] == args[i]);
            }
            assert(content.parts()[args.len() as int] == ret);
            assert(translated_parts(args, source, first) =~= translated_parts(args, source, second));
        },
        ContentView::Alias(symbol, args, actual) => {
            assert(content.parts() =~= args.push(actual));
            assert forall|i: int| 0 <= i < args.len() implies translated_var(
                args[i],
                source,
                first,
            ) == translated_var(args[i], source, second) by {
                assert(content.parts()[i] == args[i]);
            }
            assert(content.parts()[args.len() as int] == actual);
            assert(translated_parts(args, source, first) =~= translated_parts(args, source, second));
        },
        _ => {},
    }
}

} // verus!
