//! What holds of the solver whatever it is asked.

use vstd::prelude::*;
use crate::constraint::Equation;
use crate::region::Region;
use crate::solve::module::{
    exposed_types, made_rigid, registered, with_named, with_wildcards, RigidVariables, WILDCARD,
};
use crate::solve::solved_types::solved;
use crate::storage::{copy_at, held, mirrors, translated, translated_var};
use crate::symbol::Symbol;
use crate::solve::{
    drain, expand, lemma_expand, lemma_marked, lemma_root_content, lemma_step, marked, reported,
    solve_all, solve_one, step, workable, TypeError,
};
use crate::subs::{ContentView, SubsView, Variable};

verus! {

/// Whether `after` has the variables of `before` and every variable that
/// was rigid in `before` still stands for the same.
pub open spec fn keeps_rigid(before: SubsView, after: SubsView) -> bool {
    &&& after.size() == before.size()
    &&& forall|var: Variable|
        (#[trigger] before.content_of(var)) is RigidVar ==> after.content_of(var)
            == before.content_of(var)
}

/// A variable stands for what its root stands for.
proof fn lemma_content_of_root(subs: SubsView, var: Variable)
    requires
        subs.redirects_down(),
        subs.has(var),
    ensures
        subs.content_of(var) == subs.content_of(subs.root_of(var)),
        subs.has(subs.root_of(var)),
{
    subs.lemma_root(var);
}

/// A step of unification never changes a rigid variable.
pub proof fn lemma_step_keeps_rigid(subs: SubsView, work: Seq<(Variable, Variable)>, region: Region)
    requires
        workable(subs, work),
        work.len() > 0,
    ensures
        keeps_rigid(subs, step(subs, work.last().0, work.last().1, region).subs),
{
    let left = work.last().0;
    let right = work.last().1;
    let next = step(subs, left, right, region);
    let a = expand(subs, left, subs.size() as nat);
    let b = expand(subs, right, subs.size() as nat);
    let ca = subs.content_of(a);
    let cb = subs.content_of(b);
    lemma_expand(subs, left, subs.size() as nat);
    lemma_expand(subs, right, subs.size() as nat);
    lemma_root_content(subs, a);
    lemma_root_content(subs, b);
    lemma_step(subs, work, region);
    assert forall|var: Variable| (#[trigger] subs.content_of(var)) is RigidVar implies next.subs.content_of(
        var,
    ) == subs.content_of(var) by {
        if subs.has(var) {
            lemma_content_of_root(subs, var);
            if a == b {
            } else if ca is FlexVar && cb is FlexVar {
                subs.lemma_merged(
                    a,
                    b,
                    ContentView::FlexVar(crate::solve::flex_name(ca->FlexVar_0, cb->FlexVar_0)),
                    var,
                );
            } else if ca is FlexVar {
                subs.lemma_merged(a, b, cb, var);
            } else if cb is FlexVar {
                subs.lemma_merged(a, b, ca, var);
            } else if ca is Error || cb is Error {
            } else if ca is Structure && cb is Structure && (ca->Structure_0).same_head(
                cb->Structure_0,
            ) {
                subs.lemma_merged(a, b, ca, var);
            } else {
                lemma_marked(subs, a, var);
                lemma_marked(subs, a, b);
                lemma_marked(marked(subs, a), b, var);
            }
        }
    }
}

/// Solving the equations on a stack never changes a rigid variable, and
/// leaves the store well formed.
pub proof fn lemma_drain_keeps_rigid(
    subs: SubsView,
    work: Seq<(Variable, Variable)>,
    region: Region,
    problems: Seq<TypeError>,
)
    requires
        workable(subs, work),
    ensures
        keeps_rigid(subs, drain(subs, work, region, problems).0),
        drain(subs, work, region, problems).0.wf(),
    decreases subs.root_count(), work.len(),
{
    if work.len() > 0 {
        let next = step(subs, work.last().0, work.last().1, region);
        lemma_step(subs, work, region);
        lemma_step_keeps_rigid(subs, work, region);
        lemma_drain_keeps_rigid(
            next.subs,
            work.drop_last() + next.pushed,
            region,
            reported(problems, next.problem),
        );
    }
}

/// Solving equations never changes a rigid variable, and leaves the store
/// well formed.
pub proof fn lemma_solve_keeps_rigid(
    subs: SubsView,
    equations: Seq<Equation>,
    problems: Seq<TypeError>,
)
    requires
        subs.wf(),
    ensures
        keeps_rigid(subs, solve_all(subs, equations, problems).0),
        solve_all(subs, equations, problems).0.wf(),
    decreases equations.len(),
{
    if equations.len() > 0 {
        let first = equations[0];
        let (next, found) = solve_one(subs, first, problems);
        if subs.has(first.left) && subs.has(first.right) {
            lemma_drain_keeps_rigid(subs, seq![(first.left, first.right)], first.region, problems);
        }
        lemma_solve_keeps_rigid(next, equations.drop_first(), found);
    }
}

/// Making a variable rigid gives its entry the name and leaves every
/// variable with its root; a variable with another root stands for what it
/// stood for.
proof fn lemma_made_rigid(subs: SubsView, var: Variable, name: Seq<char>, other: Variable)
    requires
        subs.wf(),
        subs.has(var),
    ensures
        made_rigid(subs, var, name).wf(),
        made_rigid(subs, var, name).size() == subs.size(),
        made_rigid(subs, var, name).root_of(other) == subs.root_of(other),
        made_rigid(subs, var, name).content_of(other) == if subs.has(other) && subs.root_of(other)
            == subs.root_of(var) {
            ContentView::RigidVar(name)
        } else {
            subs.content_of(other)
        },
{
    let root = subs.root_of(var);
    let after = made_rigid(subs, var, name);
    subs.lemma_root(var);
    subs.lemma_with_content(root, ContentView::RigidVar(name), other);
    assert(ContentView::RigidVar(name).parts() =~= Seq::<Variable>::empty());
    assert forall|i: int| 0 <= i < after.size() implies (
    #[trigger] after.slots[i] matches crate::subs::SlotView::Root(held) ==> held.within(
        after.size(),
    )) by {
        if i != root.0 {
            assert(after.slots[i] == subs.slots[i]);
        }
    }
}

/// Registering named variables leaves every variable with its root, and a
/// variable whose root none of them shares with what it stood for.
proof fn lemma_with_named(
    subs: SubsView,
    named: Seq<(Variable, String)>,
    count: int,
    other: Variable,
)
    requires
        subs.wf(),
        0 <= count <= named.len(),
        forall|k: int| 0 <= k < named.len() ==> subs.has((#[trigger] named[k]).0),
    ensures
        with_named(subs, named, count).wf(),
        with_named(subs, named, count).size() == subs.size(),
        with_named(subs, named, count).root_of(other) == subs.root_of(other),
        (forall|k: int| 0 <= k < count ==> subs.root_of((#[trigger] named[k]).0) != subs.root_of(other))
            ==> with_named(subs, named, count).content_of(other) == subs.content_of(other),
    decreases count,
{
    if count > 0 {
        let before = with_named(subs, named, count - 1);
        let var = named[count - 1].0;
        lemma_with_named(subs, named, count - 1, other);
        lemma_with_named(subs, named, count - 1, var);
        lemma_made_rigid(before, var, named[count - 1].1@, other);
    }
}

/// Registering wildcards leaves every variable with its root, and a
/// variable whose root none of them shares with what it stood for.
proof fn lemma_with_wildcards(subs: SubsView, wildcards: Seq<Variable>, count: int, other: Variable)
    requires
        subs.wf(),
        0 <= count <= wildcards.len(),
        forall|k: int| 0 <= k < wildcards.len() ==> subs.has(#[trigger] wildcards[k]),
    ensures
        with_wildcards(subs, wildcards, count).wf(),
        with_wildcards(subs, wildcards, count).size() == subs.size(),
        with_wildcards(subs, wildcards, count).root_of(other) == subs.root_of(other),
        (forall|k: int| 0 <= k < count ==> subs.root_of(#[trigger] wildcards[k]) != subs.root_of(other))
            ==> with_wildcards(subs, wildcards, count).content_of(other) == subs.content_of(other),
    decreases count,
{
    if count > 0 {
        let before = with_wildcards(subs, wildcards, count - 1);
        let var = wildcards[count - 1];
        lemma_with_wildcards(subs, wildcards, count - 1, other);
        lemma_with_wildcards(subs, wildcards, count - 1, var);
        lemma_made_rigid(before, var, WILDCARD@, other);
    }
}

/// Once the first `count` named variables are registered, the one at `i`
/// is rigid under its name, if none of the others shares its entry.
proof fn lemma_named_registered(subs: SubsView, named: Seq<(Variable, String)>, count: int, i: int)
    requires
        subs.wf(),
        0 <= i < count <= named.len(),
        forall|k: int| 0 <= k < named.len() ==> subs.has((#[trigger] named[k]).0),
        forall|k: int|
            0 <= k < named.len() && k != i ==> subs.root_of((#[trigger] named[k]).0)
                != subs.root_of(named[i].0),
    ensures
        with_named(subs, named, count).content_of(named[i].0) == ContentView::RigidVar(named[i].1@),
    decreases count,
{
    let before = with_named(subs, named, count - 1);
    let var = named[count - 1].0;
    lemma_with_named(subs, named, count - 1, var);
    lemma_with_named(subs, named, count - 1, named[i].0);
    lemma_made_rigid(before, var, named[count - 1].1@, named[i].0);
    if i < count - 1 {
        lemma_named_registered(subs, named, count - 1, i);
    }
}

/// Once the first `count` wildcards are registered, the one at `j` is
/// rigid under the name `*`.
proof fn lemma_wildcard_registered(subs: SubsView, wildcards: Seq<Variable>, count: int, j: int)
    requires
        subs.wf(),
        0 <= j < count <= wildcards.len(),
        forall|k: int| 0 <= k < wildcards.len() ==> subs.has(#[trigger] wildcards[k]),
    ensures
        with_wildcards(subs, wildcards, count).content_of(wildcards[j]) == ContentView::RigidVar(
            WILDCARD@,
        ),
    decreases count,
{
    let before = with_wildcards(subs, wildcards, count - 1);
    let var = wildcards[count - 1];
    lemma_with_wildcards(subs, wildcards, count - 1, var);
    lemma_with_wildcards(subs, wildcards, count - 1, wildcards[j]);
    lemma_made_rigid(before, var, WILDCARD@, wildcards[j]);
    if j < count - 1 {
        lemma_wildcard_registered(subs, wildcards, count - 1, j);
    }
}

/// After solving, a named rigid variable stands for the rigid variable of
/// its name, whatever the constraint was, provided that no other rigid
/// variable shares its entry in the store that was handed in.
pub proof fn law_named_rigid_after_solve(
    subs: SubsView,
    rigid: &RigidVariables,
    equations: Seq<Equation>,
    i: int,
)
    requires
        subs.wf(),
        rigid.within(subs),
        0 <= i < rigid.named@.len(),
        forall|k: int|
            0 <= k < rigid.named@.len() && k != i ==> subs.root_of((#[trigger] rigid.named@[k]).0)
                != subs.root_of(rigid.named@[i].0),
        forall|k: int|
            0 <= k < rigid.wildcards@.len() ==> subs.root_of(#[trigger] rigid.wildcards@[k])
                != subs.root_of(rigid.named@[i].0),
    ensures
        solve_all(registered(subs, rigid), equations, Seq::empty()).0.content_of(rigid.named@[i].0)
            == ContentView::RigidVar(rigid.named@[i].1@),
{
    let named = rigid.named@;
    let wildcards = rigid.wildcards@;
    let var = named[i].0;
    let first = with_named(subs, named, named.len() as int);
    lemma_named_registered(subs, named, named.len() as int, i);
    lemma_with_named(subs, named, named.len() as int, var);
    assert forall|k: int| 0 <= k < wildcards.len() implies first.has(#[trigger] wildcards[k])
        && first.root_of(wildcards[k]) != first.root_of(var) by {
        lemma_with_named(subs, named, named.len() as int, wildcards[k]);
    }
    lemma_with_wildcards(first, wildcards, wildcards.len() as int, var);
    lemma_solve_keeps_rigid(registered(subs, rigid), equations, Seq::empty());
}

/// After solving, a wildcard stands for the rigid variable named `*`,
/// whatever the constraint was.
pub proof fn law_wildcard_rigid_after_solve(
    subs: SubsView,
    rigid: &RigidVariables,
    equations: Seq<Equation>,
    j: int,
)
    requires
        subs.wf(),
        rigid.within(subs),
        0 <= j < rigid.wildcards@.len(),
    ensures
        solve_all(registered(subs, rigid), equations, Seq::empty()).0.content_of(
            rigid.wildcards@[j],
        ) == ContentView::RigidVar(WILDCARD@),
{
    let named = rigid.named@;
    let wildcards = rigid.wildcards@;
    let first = with_named(subs, named, named.len() as int);
    lemma_with_named(subs, named, named.len() as int, wildcards[j]);
    assert forall|k: int| 0 <= k < wildcards.len() implies first.has(#[trigger] wildcards[k]) by {
        lemma_with_named(subs, named, named.len() as int, wildcards[k]);
    }
    lemma_wildcard_registered(first, wildcards, wildcards.len() as int, j);
    lemma_with_wildcards(first, wildcards, wildcards.len() as int, wildcards[j]);
    lemma_solve_keeps_rigid(registered(subs, rigid), equations, Seq::empty());
}

/// The exposed types have an entry for a symbol exactly when the symbol is
/// exposed.
pub proof fn law_exposed_types_keys(
    subs: SubsView,
    exposed: Seq<(Symbol, Variable)>,
    count: int,
    key: u64,
)
    requires
        0 <= count <= exposed.len(),
    ensures
        exposed_types(subs, exposed, count).contains_key(key) <==> exists|i: int|
            0 <= i < count && (#[trigger] exposed[i]).0.0 == key,
        exposed_types(subs, exposed, count).dom().finite(),
    decreases count,
{
    if count > 0 {
        law_exposed_types_keys(subs, exposed, count - 1, key);
        if exposed[count - 1].0.0 == key {
        } else if exposed_types(subs, exposed, count).contains_key(key) {
            let i = choose|i: int| 0 <= i < count - 1 && (#[trigger] exposed[i]).0.0 == key;
            assert(exposed[i].0.0 == key);
        }
    }
}

/// Where no symbol is exposed twice, the exposed types have one entry for
/// each exposed symbol: as many entries as symbols, and under each symbol
/// the tree of its variable.
pub proof fn law_exposed_types_entries(subs: SubsView, exposed: Seq<(Symbol, Variable)>, count: int)
    requires
        0 <= count <= exposed.len(),
        forall|i: int, j: int|
            0 <= i < j < exposed.len() ==> (#[trigger] exposed[i]).0 != (#[trigger] exposed[j]).0,
    ensures
        exposed_types(subs, exposed, count).dom().finite(),
        exposed_types(subs, exposed, count).dom().len() == count,
        forall|i: int|
            0 <= i < count ==> exposed_types(subs, exposed, count)[(#[trigger] exposed[i]).0.0]
                == solved(subs, exposed[i].1, Seq::empty(), subs.size() as nat),
    decreases count,
{
    if count > 0 {
        let last = exposed[count - 1];
        law_exposed_types_entries(subs, exposed, count - 1);
        law_exposed_types_keys(subs, exposed, count - 1, last.0.0);
        if exposed_types(subs, exposed, count - 1).contains_key(last.0.0) {
            let i = choose|i: int| 0 <= i < count - 1 && (#[trigger] exposed[i]).0.0 == last.0.0;
            assert(exposed[i].0 == exposed[count - 1].0);
        }
        assert forall|i: int| 0 <= i < count implies exposed_types(subs, exposed, count)[(
        #[trigger] exposed[i]).0.0] == solved(
            subs,
            exposed[i].1,
            Seq::empty(),
            subs.size() as nat,
        ) by {
            if i < count - 1 {
                assert(exposed[i].0 != exposed[count - 1].0);
            }
        }
    }
}

/// A storage that mirrors a store preserves sharing: two variables of the
/// store that were copied have the same copy exactly when they stand for
/// the same entry, and the copy of a variable holds what the variable
/// stands for, with every part replaced by its copy.
pub proof fn law_storage_preserves_sharing(
    dest: SubsView,
    copies: Seq<Option<Variable>>,
    source: SubsView,
    left: Variable,
    right: Variable,
)
    requires
        source.wf(),
        mirrors(dest, copies, source),
        source.has(left),
        source.has(right),
        copy_at(copies, source.root_of(left)) is Some,
        copy_at(copies, source.root_of(right)) is Some,
    ensures
        source.root_of(left) == source.root_of(right) <==> translated_var(left, source, copies)
            == translated_var(right, source, copies),
        dest.content_of(translated_var(left, source, copies)) == translated(
            source.content_of(left),
            source,
            copies,
        ),
        forall|i: int|
            0 <= i < source.content_of(left).parts().len() ==> copy_at(
                copies,
                source.root_of(#[trigger] source.content_of(left).parts()[i]),
            ) is Some,
{
    let a = source.root_of(left);
    let b = source.root_of(right);
    source.lemma_root(left);
    source.lemma_root(right);
    assert(copies[a.0 as int] is Some);
    assert(copies[b.0 as int] is Some);
    let copy = translated_var(left, source, copies);
    assert(dest.slots[copy.0 as int] is Root);
    dest.lemma_root(copy);
    assert(crate::storage::faithful_at(dest, copies, source, a.0 as int));
    assert(crate::storage::closed_at(copies, source, a.0 as int));
    assert(source.content_of(left) == held(source, a.0 as int));
}

} // verus!
