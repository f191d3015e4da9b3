//! The type store: what each type variable stands for.
//!
//! Variables are handles into the store. Variables that were unified share
//! one entry: all but one of them redirect to it, always to a variable with
//! a smaller number, so that following redirections ends.

use vstd::prelude::*;
use crate::symbol::Symbol;
use crate::text::{copy_of, same_text};

verus! {

/// A type variable: a handle into a [`Subs`].
#[derive(Debug, Clone, Copy, PartialEq, Eq, Hash, Structural)]
pub struct Variable(pub u32);

/// The structure of a type, one level deep: its parts are variables.
#[derive(Debug, PartialEq, Eq)]
pub enum FlatType {
    /// A named type applied to arguments.
    Apply { module_name: String, name: String, args: Vec<Variable> },
    /// A function from arguments to a result.
    Func(Vec<Variable>, Variable),
    /// The record without fields.
    EmptyRecord,
}

/// What a type variable stands for.
#[derive(Debug, PartialEq, Eq)]
pub enum Content {
    /// A variable that may still become anything, with the name it was
    /// written with, if any.
    FlexVar(Option<String>),
    /// A variable that stands for itself only: the user named it, or wrote `*`.
    RigidVar(String),
    /// A type with structure.
    Structure(FlatType),
    /// A named alias applied to arguments, and the variable of the type it
    /// stands for.
    Alias(Symbol, Vec<Variable>, Variable),
    /// The type of something that failed to check.
    Error,
}

/// The mathematical content of a [`FlatType`].
pub enum FlatTypeView {
    Apply { module_name: Seq<char>, name: Seq<char>, args: Seq<Variable> },
    Func(Seq<Variable>, Variable),
    EmptyRecord,
}

/// The mathematical content of a [`Content`].
pub enum ContentView {
    FlexVar(Option<Seq<char>>),
    RigidVar(Seq<char>),
    Structure(FlatTypeView),
    Alias(Symbol, Seq<Variable>, Variable),
    Error,
}

impl View for FlatType {
    type V = FlatTypeView;

    open spec fn view(&self) -> FlatTypeView {
        match self {
            FlatType::Apply { module_name, name, args } => FlatTypeView::Apply {
                module_name: module_name@,
                name: name@,
                args: args@,
            },
            FlatType::Func(args, ret) => FlatTypeView::Func(args@, *ret),
            FlatType::EmptyRecord => FlatTypeView::EmptyRecord,
        }
    }
}

impl View for Content {
    type V = ContentView;

    open spec fn view(&self) -> ContentView {
        match self {
            Content::FlexVar(Some(name)) => ContentView::FlexVar(Some(name@)),
            Content::FlexVar(None) => ContentView::FlexVar(None),
            Content::RigidVar(name) => ContentView::RigidVar(name@),
            Content::Structure(flat_type) => ContentView::Structure(flat_type@),
            Content::Alias(symbol, args, actual) => ContentView::Alias(*symbol, args@, *actual),
            Content::Error => ContentView::Error,
        }
    }
}

impl FlatTypeView {
    /// The variables that the type is made of, in order.
    pub open spec fn parts(self) -> Seq<Variable> {
        match self {
            FlatTypeView::Apply { args, .. } => args,
            FlatTypeView::Func(args, ret) => args.push(ret),
            FlatTypeView::EmptyRecord => Seq::empty(),
        }
    }
}

impl FlatTypeView {
    /// Whether two types are built alike: the same named type with as many
    /// arguments, functions of as many arguments, or both the empty record.
    pub open spec fn same_head(self, other: FlatTypeView) -> bool {
        match (self, other) {
            (
                FlatTypeView::Apply { module_name, name, args },
                FlatTypeView::Apply { module_name: other_module, name: other_name, args: other_args },
            ) => module_name == other_module && name == other_name && args.len() == other_args.len(),
            (FlatTypeView::Func(args, _), FlatTypeView::Func(other_args, _)) => args.len()
                == other_args.len(),
            (FlatTypeView::EmptyRecord, FlatTypeView::EmptyRecord) => true,
            _ => false,
        }
    }
}

impl ContentView {
    /// The variables that the content refers to, in order.
    pub open spec fn parts(self) -> Seq<Variable> {
        match self {
            ContentView::Structure(flat_type) => flat_type.parts(),
            ContentView::Alias(_, args, actual) => args.push(actual),
            _ => Seq::empty(),
        }
    }

    /// Whether every variable that the content refers to is below `bound`.
    pub open spec fn within(self, bound: int) -> bool {
        forall|i: int| 0 <= i < self.parts().len() ==> (#[trigger] self.parts()[i]).0 < bound
    }
}

impl FlatType {
    /// The variables that the type is made of, in order.
    pub fn parts(&self) -> (parts: Vec<Variable>)
        ensures
            parts@ == self@.parts(),
    {
        match self {
            FlatType::Apply { args, .. } => copy_of(args),
            FlatType::Func(args, ret) => {
                let mut parts = copy_of(args);
                parts.push(*ret);
                parts
            },
            FlatType::EmptyRecord => {
                let parts: Vec<Variable> = Vec::new();
                proof {
                    assert(parts@ =~= self@.parts());
                }
                parts
            },
        }
    }

    /// Whether two types are built alike.
    pub fn same_head(&self, other: &FlatType) -> (same: bool)
        ensures
            same == self@.same_head(other@),
    {
        match (self, other) {
            (
                FlatType::Apply { module_name, name, args },
                FlatType::Apply { module_name: other_module, name: other_name, args: other_args },
            ) => same_text(module_name.as_str(), other_module.as_str()) && same_text(
                name.as_str(),
                other_name.as_str(),
            ) && args.len() == other_args.len(),
            (FlatType::Func(args, _), FlatType::Func(other_args, _)) => args.len()
                == other_args.len(),
            (FlatType::EmptyRecord, FlatType::EmptyRecord) => true,
            _ => false,
        }
    }

    /// A copy of the type.
    pub fn duplicate(&self) -> (copy: FlatType)
        ensures
            copy@ == self@,
    {
        match self {
            FlatType::Apply { module_name, name, args } => FlatType::Apply {
                module_name: module_name.clone(),
                name: name.clone(),
                args: copy_of(args),
            },
            FlatType::Func(args, ret) => FlatType::Func(copy_of(args), *ret),
            FlatType::EmptyRecord => FlatType::EmptyRecord,
        }
    }
}

impl Content {
    /// The variables that the content refers to, in order.
    pub fn parts(&self) -> (parts: Vec<Variable>)
        ensures
            parts@ == self@.parts(),
    {
        match self {
            Content::Structure(flat_type) => flat_type.parts(),
            Content::Alias(_, args, actual) => {
                let mut parts = copy_of(args);
                parts.push(*actual);
                parts
            },
            _ => {
                let parts: Vec<Variable> = Vec::new();
                proof {
                    assert(parts@ =~= self@.parts());
                }
                parts
            },
        }
    }

    /// A copy of the content.
    pub fn duplicate(&self) -> (copy: Content)
        ensures
            copy@ == self@,
    {
        match self {
            Content::FlexVar(Some(name)) => Content::FlexVar(Some(name.clone())),
            Content::FlexVar(None) => Content::FlexVar(None),
            Content::RigidVar(name) => Content::RigidVar(name.clone()),
            Content::Structure(flat_type) => Content::Structure(flat_type.duplicate()),
            Content::Alias(symbol, args, actual) => Content::Alias(*symbol, copy_of(args), *actual),
            Content::Error => Content::Error,
        }
    }
}

/// One entry of the store.
#[derive(Debug, PartialEq, Eq)]
pub enum Slot {
    /// The variable stands for this content.
    Root(Content),
    /// The variable was unified with another and stands for what that one
    /// stands for.
    Redirect(Variable),
}

/// The type store.
#[derive(Debug, PartialEq, Eq)]
pub struct Subs {
    pub slots: Vec<Slot>,
}

/// The mathematical content of a [`Slot`].
pub enum SlotView {
    Root(ContentView),
    Redirect(Variable),
}

/// The mathematical content of a [`Subs`]: one entry for each variable.
pub struct SubsView {
    pub slots: Seq<SlotView>,
}

impl View for Slot {
    type V = SlotView;

    open spec fn view(&self) -> SlotView {
        match self {
            Slot::Root(content) => SlotView::Root(content@),
            Slot::Redirect(target) => SlotView::Redirect(*target),
        }
    }
}

impl View for Subs {
    type V = SubsView;

    open spec fn view(&self) -> SubsView {
        SubsView { slots: Seq::new(self.slots@.len(), |i: int| self.slots@[i]@) }
    }
}

impl SubsView {
    /// The number of variables in the store.
    pub open spec fn size(self) -> int {
        self.slots.len() as int
    }

    /// Whether `var` is a variable of this store.
    pub open spec fn has(self, var: Variable) -> bool {
        var.0 < self.size()
    }

    /// Every redirection leads to a variable with a smaller number.
    pub open spec fn redirects_down(self) -> bool {
        forall|i: int|
            0 <= i < self.size() ==> (#[trigger] self.slots[i] matches SlotView::Redirect(target)
                ==> target.0 < i)
    }

    /// Every content refers to variables of this store only.
    pub open spec fn closed(self) -> bool {
        forall|i: int|
            0 <= i < self.size() ==> (#[trigger] self.slots[i] matches SlotView::Root(content)
                ==> content.within(self.size()))
    }

    /// The store is well formed: redirections lead downwards, contents refer
    /// to the store's own variables, and the variables can be numbered.
    pub open spec fn wf(self) -> bool {
        &&& self.size() <= u32::MAX
        &&& self.redirects_down()
        &&& self.closed()
    }

    /// Whether `var` is a variable of the store that holds a content.
    pub open spec fn is_root(self, var: Variable) -> bool {
        self.has(var) && self.slots[var.0 as int] is Root
    }

    /// The variable whose entry holds what `var` stands for.
    pub open spec fn root_of(self, var: Variable) -> Variable
        decreases var.0,
    {
        if self.has(var) {
            match self.slots[var.0 as int] {
                SlotView::Redirect(target) => if target.0 < var.0 {
                    self.root_of(target)
                } else {
                    var
                },
                SlotView::Root(_) => var,
            }
        } else {
            var
        }
    }

    /// What `var` stands for.
    pub open spec fn content_of(self, var: Variable) -> ContentView {
        if self.has(var) {
            match self.slots[self.root_of(var).0 as int] {
                SlotView::Root(content) => content,
                SlotView::Redirect(_) => ContentView::Error,
            }
        } else {
            ContentView::Error
        }
    }

    /// The number of contents among the first `n` entries.
    pub open spec fn roots_below(self, n: int) -> nat
        decreases n,
    {
        if n <= 0 {
            0
        } else {
            self.roots_below(n - 1) + if self.slots[n - 1] is Root {
                1nat
            } else {
                0nat
            }
        }
    }

    /// The number of contents in the store: of variables that stand for
    /// themselves.
    pub open spec fn root_count(self) -> nat {
        self.roots_below(self.size())
    }

    /// The store in which the entry of `root` holds `content`.
    pub open spec fn with_content(self, root: Variable, content: ContentView) -> SubsView {
        SubsView { slots: self.slots.update(root.0 as int, SlotView::Root(content)) }
    }

    /// Of two variables, the one with the smaller number.
    pub open spec fn kept(left: Variable, right: Variable) -> Variable {
        if left.0 < right.0 {
            left
        } else {
            right
        }
    }

    /// Of two variables, the one with the greater number.
    pub open spec fn given_up(left: Variable, right: Variable) -> Variable {
        if left.0 < right.0 {
            right
        } else {
            left
        }
    }

    /// The store in which the roots `left` and `right` are one: the one
    /// with the greater number redirects to the other, which holds
    /// `content`.
    pub open spec fn merged(self, left: Variable, right: Variable, content: ContentView) -> SubsView {
        let keep = Self::kept(left, right);
        let gone = Self::given_up(left, right);
        SubsView {
            slots: self.slots.update(gone.0 as int, SlotView::Redirect(keep)).update(
                keep.0 as int,
                SlotView::Root(content),
            ),
        }
    }

    /// The root of a variable is a variable of the store, not above it, and
    /// holds a content.
    pub proof fn lemma_root(self, var: Variable)
        requires
            self.redirects_down(),
            self.has(var),
        ensures
            self.is_root(self.root_of(var)),
            self.root_of(var).0 <= var.0,
            self.root_of(self.root_of(var)) == self.root_of(var),
            self.is_root(var) <==> self.root_of(var) == var,
        decreases var.0,
    {
        match self.slots[var.0 as int] {
            SlotView::Redirect(target) => {
                self.lemma_root(target);
            },
            SlotView::Root(_) => {},
        }
    }

    /// Changing one entry changes the number of contents by what the entry
    /// was and what it becomes.
    pub proof fn lemma_roots_below_update(self, n: int, at: int, slot: SlotView)
        requires
            0 <= at < self.size(),
            0 <= n <= self.size(),
        ensures
            (SubsView { slots: self.slots.update(at, slot) }).roots_below(n) == self.roots_below(n)
                + (if at < n && slot is Root {
                1int
            } else {
                0int
            }) - (if at < n && self.slots[at] is Root {
                1int
            } else {
                0int
            }),
        decreases n,
    {
        if n > 0 {
            self.lemma_roots_below_update(n - 1, at, slot);
        }
    }

    /// Giving a root a new content keeps every variable's root, and changes
    /// what a variable stands for only where that root is its root.
    pub proof fn lemma_with_content(self, root: Variable, content: ContentView, var: Variable)
        requires
            self.redirects_down(),
            self.is_root(root),
        ensures
            self.with_content(root, content).redirects_down(),
            self.with_content(root, content).size() == self.size(),
            self.with_content(root, content).root_of(var) == self.root_of(var),
            self.with_content(root, content).content_of(var) == if self.has(var) && self.root_of(var)
                == root {
                content
            } else {
                self.content_of(var)
            },
            self.with_content(root, content).root_count() == self.root_count(),
        decreases var.0,
    {
        let after = self.with_content(root, content);
        self.lemma_roots_below_update(self.size(), root.0 as int, SlotView::Root(content));
        if self.has(var) {
            self.lemma_root(var);
            match self.slots[var.0 as int] {
                SlotView::Redirect(target) => {
                    self.lemma_with_content(root, content, target);
                },
                SlotView::Root(_) => {},
            }
        }
    }

    /// Merging two roots moves the variables of the one given up to the one
    /// kept; both classes then stand for the new content, and every other
    /// variable stands for what it stood for. One content fewer is left.
    pub proof fn lemma_merged(self, left: Variable, right: Variable, content: ContentView, var: Variable)
        requires
            self.redirects_down(),
            self.is_root(left),
            self.is_root(right),
            left != right,
        ensures
            self.merged(left, right, content).redirects_down(),
            self.merged(left, right, content).size() == self.size(),
            self.merged(left, right, content).root_of(var) == if self.has(var) && self.root_of(var)
                == Self::given_up(left, right) {
                Self::kept(left, right)
            } else {
                self.root_of(var)
            },
            self.merged(left, right, content).content_of(var) == if self.has(var) && (self.root_of(
                var,
            ) == left || self.root_of(var) == right) {
                content
            } else {
                self.content_of(var)
            },
            self.merged(left, right, content).root_count() + 1 == self.root_count(),
        decreases var.0,
    {
        let keep = Self::kept(left, right);
        let gone = Self::given_up(left, right);
        let after = self.merged(left, right, content);
        let middle = SubsView { slots: self.slots.update(gone.0 as int, SlotView::Redirect(keep)) };
        self.lemma_roots_below_update(self.size(), gone.0 as int, SlotView::Redirect(keep));
        middle.lemma_roots_below_update(self.size(), keep.0 as int, SlotView::Root(content));
        assert(keep.0 < gone.0);
        if self.has(var) {
            self.lemma_root(var);
            match self.slots[var.0 as int] {
                SlotView::Redirect(target) => {
                    self.lemma_merged(left, right, content, target);
                },
                SlotView::Root(_) => {
                    if var == gone {
                        assert(after.root_of(keep) == keep);
                    }
                },
            }
        }
    }

    /// Redirecting a variable straight to its root keeps every variable's
    /// root and what it stands for.
    pub proof fn lemma_shortened(self, from: Variable, var: Variable)
        requires
            self.redirects_down(),
            self.has(from),
            !self.is_root(from),
        ensures
            ({
                let after = SubsView {
                    slots: self.slots.update(
                        from.0 as int,
                        SlotView::Redirect(self.root_of(from)),
                    ),
                };
                &&& after.redirects_down()
                &&& after.size() == self.size()
                &&& after.root_of(var) == self.root_of(var)
                &&& after.content_of(var) == self.content_of(var)
                &&& after.closed() == self.closed()
            }),
        decreases var.0,
    {
        let root = self.root_of(from);
        let after = SubsView { slots: self.slots.update(from.0 as int, SlotView::Redirect(root)) };
        self.lemma_root(from);
        assert(root.0 < from.0);
        if self.has(var) {
            self.lemma_root(var);
            match self.slots[var.0 as int] {
                SlotView::Redirect(target) => {
                    self.lemma_shortened(from, target);
                    if var == from {
                        self.lemma_shortened(from, root);
                    }
                },
                SlotView::Root(_) => {},
            }
        }
        assert(after.closed() == self.closed()) by {
            if self.closed() {
                assert forall|i: int| 0 <= i < after.size() implies (
                #[trigger] after.slots[i] matches SlotView::Root(content) ==> content.within(
                    after.size(),
                )) by {
                    if i != from.0 {
                        assert(after.slots[i] == self.slots[i]);
                    }
                }
            }
            if after.closed() {
                assert forall|i: int| 0 <= i < self.size() implies (
                #[trigger] self.slots[i] matches SlotView::Root(content) ==> content.within(
                    self.size(),
                )) by {
                    if i != from.0 {
                        assert(after.slots[i] == self.slots[i]);
                    }
                }
            }
        }
    }
}

impl Subs {
    /// The number of variables in the store.
    pub open spec fn size(&self) -> int {
        self@.size()
    }

    /// Whether `var` is a variable of this store.
    pub open spec fn has(&self, var: Variable) -> bool {
        self@.has(var)
    }

    /// Every redirection leads to a variable with a smaller number.
    pub open spec fn redirects_down(&self) -> bool {
        self@.redirects_down()
    }

    /// The store is well formed.
    pub open spec fn wf(&self) -> bool {
        self@.wf()
    }

    /// The variable whose entry holds what `var` stands for.
    pub open spec fn root_of(&self, var: Variable) -> Variable {
        self@.root_of(var)
    }

    /// What `var` stands for.
    pub open spec fn content_of(&self, var: Variable) -> ContentView {
        self@.content_of(var)
    }

    /// An empty store.
    pub fn new() -> (subs: Subs)
        ensures
            subs@.slots == Seq::<SlotView>::empty(),
            subs.wf(),
    {
        let subs = Subs { slots: Vec::new() };
        proof {
            assert(subs@.slots =~= Seq::<SlotView>::empty());
        }
        subs
    }

    /// Whether the store is well formed.
    pub fn check(&self) -> (fine: bool)
        ensures
            fine == self.wf(),
    {
        let n = self.slots.len();
        if n > 0xffff_ffff {
            return false;
        }
        let mut i: usize = 0;
        while i < n
            invariant
                i <= n,
                n == self@.size(),
                n <= u32::MAX,
                forall|j: int|
                    0 <= j < i ==> (#[trigger] self@.slots[j] matches SlotView::Redirect(target)
                        ==> target.0 < j),
                forall|j: int|
                    0 <= j < i ==> (#[trigger] self@.slots[j] matches SlotView::Root(content)
                        ==> content.within(n as int)),
            decreases n - i,
        {
            match &self.slots[i] {
                Slot::Redirect(target) => {
                    if target.0 as usize >= i {
                        assert(self@.slots[i as int] == SlotView::Redirect(*target));
                        return false;
                    }
                },
                Slot::Root(content) => {
                    let parts = content.parts();
                    assert(self@.slots[i as int] == SlotView::Root(content@));
                    let mut k: usize = 0;
                    while k < parts.len()
                        invariant
                            k <= parts@.len(),
                            i < n,
                            n == self@.size(),
                            parts@ == content@.parts(),
                            self@.slots[i as int] == SlotView::Root(content@),
                            forall|j: int| 0 <= j < k ==> (#[trigger] parts@[j]).0 < n,
                        decreases parts.len() - k,
                    {
                        if parts[k].0 as usize >= n {
                            assert(content@.parts()[k as int].0 >= n);
                            return false;
                        }
                        k += 1;
                    }
                },
            }
            i += 1;
        }
        true
    }

    /// The number of variables in the store.
    pub fn len(&self) -> (n: usize)
        ensures
            n == self.size(),
    {
        self.slots.len()
    }

    /// Whether `var` is a variable of this store.
    pub fn contains(&self, var: Variable) -> (found: bool)
        ensures
            found == self.has(var),
    {
        (var.0 as usize) < self.slots.len()
    }

    /// Adds a variable that stands for `content`, which may refer to the
    /// variables of the store and to the new variable itself. Yields `None`,
    /// and leaves the store as it was, when the store is full.
    pub fn fresh(&mut self, content: Content) -> (var: Option<Variable>)
        requires
            old(self).wf(),
            content@.within(old(self).size() + 1),
        ensures
            final(self).wf(),
            match var {
                Some(var) => {
                    &&& old(self).size() < u32::MAX
                    &&& var.0 == old(self).size()
                    &&& final(self)@.slots == old(self)@.slots.push(SlotView::Root(content@))
                },
                None => old(self).size() == u32::MAX && final(self)@ == old(self)@,
            },
    {
        let n = self.slots.len();
        if n < 0xffff_ffff {
            self.slots.push(Slot::Root(content));
            proof {
                assert(self@.slots =~= old(self)@.slots.push(SlotView::Root(content@)));
                assert forall|i: int| 0 <= i < self@.size() implies (
                #[trigger] self@.slots[i] matches SlotView::Root(held) ==> held.within(
                    self@.size(),
                )) by {
                    if i < n {
                        assert(self@.slots[i] == old(self)@.slots[i]);
                    }
                }
            }
            Some(Variable(n as u32))
        } else {
            None
        }
    }

    /// The variable whose entry holds what `var` stands for.
    pub fn root(&self, var: Variable) -> (root: Variable)
        requires
            self.redirects_down(),
            self.has(var),
        ensures
            root == self.root_of(var),
            self@.is_root(root),
    {
        let mut current = var;
        loop
            invariant
                self.redirects_down(),
                self.has(current),
                self.root_of(current) == self.root_of(var),
            decreases current.0,
        {
            proof {
                self@.lemma_root(current);
            }
            match &self.slots[current.0 as usize] {
                Slot::Redirect(target) => {
                    current = *target;
                },
                Slot::Root(_) => {
                    return current;
                },
            }
        }
    }

    /// Whether two variables stand for the same entry.
    pub fn equivalent(&self, left: Variable, right: Variable) -> (same: bool)
        requires
            self.redirects_down(),
            self.has(left),
            self.has(right),
        ensures
            same == (self.root_of(left) == self.root_of(right)),
    {
        let a = self.root(left);
        let b = self.root(right);
        a.0 == b.0
    }

    /// What `var` stands for. The store is left as it is: no redirection is
    /// shortened.
    pub fn get_without_compacting(&self, var: Variable) -> (content: Content)
        requires
            self.redirects_down(),
            self.has(var),
        ensures
            content@ == self.content_of(var),
    {
        let root = self.root(var);
        match &self.slots[root.0 as usize] {
            Slot::Root(content) => content.duplicate(),
            Slot::Redirect(_) => Content::Error,
        }
    }

    /// What `var` stands for. On the way, every variable between `var` and
    /// its root is redirected straight to the root; no variable stands for
    /// anything else than before.
    pub fn get(&mut self, var: Variable) -> (content: Content)
        requires
            old(self).wf(),
            old(self).has(var),
        ensures
            content@ == old(self).content_of(var),
            final(self).wf(),
            final(self).size() == old(self).size(),
            forall|other: Variable| #[trigger]
                final(self)@.root_of(other) == old(self)@.root_of(other),
            forall|other: Variable| #[trigger]
                final(self)@.content_of(other) == old(self)@.content_of(other),
            final(self)@.root_count() == old(self)@.root_count(),
    {
        let root = self.root(var);
        let mut current = var;
        while current.0 != root.0
            invariant
                self.wf(),
                self.size() == old(self).size(),
                self.has(current),
                self.root_of(current) == root,
                root == old(self).root_of(var),
                forall|other: Variable| #[trigger]
                    self@.root_of(other) == old(self)@.root_of(other),
                forall|other: Variable| #[trigger]
                    self@.content_of(other) == old(self)@.content_of(other),
                self@.root_count() == old(self)@.root_count(),
            decreases current.0,
        {
            let ghost before = self@;
            proof {
                before.lemma_root(current);
            }
            let next = match &self.slots[current.0 as usize] {
                Slot::Redirect(target) => *target,
                Slot::Root(_) => current,
            };
            self.slots.set(current.0 as usize, Slot::Redirect(root));
            proof {
                let after = SubsView {
                    slots: before.slots.update(current.0 as int, SlotView::Redirect(root)),
                };
                assert(self@.slots =~= after.slots);
                assert(self@ == after);
                before.lemma_roots_below_update(
                    before.size(),
                    current.0 as int,
                    SlotView::Redirect(root),
                );
                assert forall|other: Variable| #[trigger]
                    self@.root_of(other) == old(self)@.root_of(other) by {
                    before.lemma_shortened(current, other);
                }
                assert forall|other: Variable| #[trigger]
                    self@.content_of(other) == old(self)@.content_of(other) by {
                    before.lemma_shortened(current, other);
                }
                before.lemma_shortened(current, next);
            }
            current = next;
        }
        self.get_without_compacting(var)
    }

    /// Makes the root of `var` stand for `content`, and with it every
    /// variable that shares that root.
    pub fn set_content(&mut self, var: Variable, content: Content)
        requires
            old(self).wf(),
            old(self).has(var),
            content@.within(old(self).size()),
        ensures
            final(self)@ == old(self)@.with_content(old(self).root_of(var), content@),
            final(self).wf(),
            final(self).size() == old(self).size(),
    {
        let root = self.root(var);
        let ghost before = self@;
        self.slots.set(root.0 as usize, Slot::Root(content));
        proof {
            let after = before.with_content(root, content@);
            assert(self@.slots =~= after.slots);
            before.lemma_with_content(root, content@, var);
            assert forall|i: int| 0 <= i < after.size() implies (
            #[trigger] after.slots[i] matches SlotView::Root(held) ==> held.within(
                after.size(),
            )) by {
                if i != root.0 {
                    assert(after.slots[i] == before.slots[i]);
                }
            }
        }
    }

    /// Makes `var` a rigid variable named `name`.
    pub fn rigid_var(&mut self, var: Variable, name: String)
        requires
            old(self).wf(),
            old(self).has(var),
        ensures
            final(self)@ == old(self)@.with_content(
                old(self).root_of(var),
                ContentView::RigidVar(name@),
            ),
            final(self).wf(),
            final(self).size() == old(self).size(),
            final(self).content_of(var) == ContentView::RigidVar(name@),
    {
        proof {
            self@.lemma_root(var);
            self@.lemma_with_content(self.root_of(var), ContentView::RigidVar(name@), var);
        }
        self.set_content(var, Content::RigidVar(name));
    }

    /// Makes the roots `left` and `right` one root that stands for `content`.
    pub fn union(&mut self, left: Variable, right: Variable, content: Content)
        requires
            old(self).wf(),
            old(self)@.is_root(left),
            old(self)@.is_root(right),
            left != right,
            content@.within(old(self).size()),
        ensures
            final(self)@ == old(self)@.merged(left, right, content@),
            final(self).wf(),
            final(self).size() == old(self).size(),
            final(self)@.root_count() + 1 == old(self)@.root_count(),
    {
        let ghost before = self@;
        let (keep, gone) = if left.0 < right.0 {
            (left, right)
        } else {
            (right, left)
        };
        self.slots.set(gone.0 as usize, Slot::Redirect(keep));
        self.slots.set(keep.0 as usize, Slot::Root(content));
        proof {
            let after = before.merged(left, right, content@);
            assert(self@.slots =~= after.slots);
            before.lemma_merged(left, right, content@, left);
            assert forall|i: int| 0 <= i < after.size() implies (
            #[trigger] after.slots[i] matches SlotView::Root(held) ==> held.within(
                after.size(),
            )) by {
                if i != keep.0 && i != gone.0 {
                    assert(after.slots[i] == before.slots[i]);
                }
            }
        }
    }
}

} // verus!
