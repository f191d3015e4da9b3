//! The constraint solver: first-order unification over the type store.
//!
//! An equation between two variables is solved by merging their entries.
//! Aliases are looked through. A flexible variable takes on whatever it
//! meets; two structures that are built alike become one entry and their
//! parts are equated in turn. Anything else is a mismatch: it is reported,
//! and the entries are set to the error type, so that nothing that follows
//! reports the same mistake again. A rigid variable is never changed.
//!
//! Of two entries that become one, the one with the smaller number stays,
//! and of two structures it keeps the content of the left. The entries are
//! merged before their parts are looked at, so a type that contains itself
//! is walked once and no further.

pub mod module;
pub mod laws;
pub mod solved_types;

use vstd::prelude::*;
use crate::constraint::{equations_of, Constraint, Constraints, Equation};
use crate::region::Region;
use crate::subs::{Content, ContentView, Subs, SubsView, Variable};
use crate::symbol::Symbol;

verus! {

/// A mistake in the types of a module.
#[derive(Debug, Clone, Copy, PartialEq, Eq, Structural)]
pub enum TypeError {
    /// The two variables were to stand for one type and cannot.
    Mismatch { region: Region, left: Variable, right: Variable },
    /// An equation names a variable that is not in the type store.
    UnknownVariable { region: Region, variable: Variable },
}

/// The definition of a type alias: its parameters and the variable of the
/// type it stands for.
#[derive(Debug, PartialEq, Eq)]
pub struct Alias {
    pub symbol: Symbol,
    pub vars: Vec<Variable>,
    pub actual: Variable,
}

/// The aliases that a module defines.
#[derive(Debug, PartialEq, Eq)]
pub struct Aliases {
    pub entries: Vec<Alias>,
}

/// What the solver knows besides the type store.
#[derive(Debug, PartialEq, Eq)]
pub struct Env {
    pub vars_by_symbol: Vec<(Symbol, Variable)>,
    pub aliases: Aliases,
}

/// The root that `var` stands for once aliases are looked through: the root
/// of `var`, or, where that is an alias, what the variable of its actual
/// type stands for. At most `fuel` aliases are looked through.
pub open spec fn expand(subs: SubsView, var: Variable, fuel: nat) -> Variable
    decreases fuel,
{
    if fuel > 0 {
        match subs.content_of(var) {
            ContentView::Alias(_, _, actual) => if subs.has(actual) {
                expand(subs, actual, (fuel - 1) as nat)
            } else {
                subs.root_of(var)
            },
            _ => subs.root_of(var),
        }
    } else {
        subs.root_of(var)
    }
}

/// The pairs of the parts of two types, last parts first: in the order in
/// which they come off a stack they are pushed on.
pub open spec fn pairs_reversed(left: Seq<Variable>, right: Seq<Variable>) -> Seq<
    (Variable, Variable),
> {
    Seq::new(
        left.len(),
        |i: int| (left[left.len() - 1 - i], right[left.len() - 1 - i]),
    )
}

/// The store in which `root` stands for the error type, unless it is rigid.
pub open spec fn marked(subs: SubsView, root: Variable) -> SubsView {
    if subs.content_of(root) is RigidVar {
        subs
    } else {
        subs.with_content(root, ContentView::Error)
    }
}

/// What solving one equation does, apart from the equations it leads to.
pub struct Step {
    /// The store afterwards.
    pub subs: SubsView,
    /// The equations between parts that are to be solved next, last first.
    pub pushed: Seq<(Variable, Variable)>,
    /// The mistake that was found, if any.
    pub problem: Option<TypeError>,
}

/// The name that two flexible variables have once they are one: the first
/// name there is.
pub open spec fn flex_name(left: Option<Seq<char>>, right: Option<Seq<char>>) -> Option<Seq<char>> {
    if left is Some {
        left
    } else {
        right
    }
}

/// One step of unification: `left` and `right` are to stand for one type.
pub open spec fn step(subs: SubsView, left: Variable, right: Variable, region: Region) -> Step {
    let a = expand(subs, left, subs.size() as nat);
    let b = expand(subs, right, subs.size() as nat);
    let ca = subs.content_of(a);
    let cb = subs.content_of(b);
    if a == b {
        Step { subs, pushed: Seq::empty(), problem: None }
    } else if ca is FlexVar && cb is FlexVar {
        Step {
            subs: subs.merged(a, b, ContentView::FlexVar(flex_name(ca->FlexVar_0, cb->FlexVar_0))),
            pushed: Seq::empty(),
            problem: None,
        }
    } else if ca is FlexVar {
        Step { subs: subs.merged(a, b, cb), pushed: Seq::empty(), problem: None }
    } else if cb is FlexVar {
        Step { subs: subs.merged(a, b, ca), pushed: Seq::empty(), problem: None }
    } else if ca is Error || cb is Error {
        Step { subs, pushed: Seq::empty(), problem: None }
    } else if ca is Structure && cb is Structure && (ca->Structure_0).same_head(cb->Structure_0) {
        Step {
            subs: subs.merged(a, b, ca),
            pushed: pairs_reversed((ca->Structure_0).parts(), (cb->Structure_0).parts()),
            problem: None,
        }
    } else {
        Step {
            subs: marked(marked(subs, a), b),
            pushed: Seq::empty(),
            problem: Some(TypeError::Mismatch { region, left, right }),
        }
    }
}

/// Whether the store is well formed and every variable in `work` is one of
/// its variables.
pub open spec fn workable(subs: SubsView, work: Seq<(Variable, Variable)>) -> bool {
    &&& subs.wf()
    &&& forall|i: int| 0 <= i < work.len() ==> subs.has((#[trigger] work[i]).0) && subs.has(work[i].1)
}

/// The problems with one more, if there is one more.
pub open spec fn reported(problems: Seq<TypeError>, problem: Option<TypeError>) -> Seq<TypeError> {
    match problem {
        Some(problem) => problems.push(problem),
        None => problems,
    }
}

/// The store and the problems once every equation on the stack `work`, the
/// last first, and every equation that these lead to, is solved.
pub open spec fn drain(
    subs: SubsView,
    work: Seq<(Variable, Variable)>,
    region: Region,
    problems: Seq<TypeError>,
) -> (SubsView, Seq<TypeError>)
    decreases subs.root_count(), work.len(),
    when workable(subs, work)
{
    if work.len() == 0 {
        (subs, problems)
    } else {
        let next = step(subs, work.last().0, work.last().1, region);
        proof {
            lemma_step(subs, work, region);
        }
        drain(
            next.subs,
            work.drop_last() + next.pushed,
            region,
            reported(problems, next.problem),
        )
    }
}

/// Looking through aliases ends at a root of the store.
pub proof fn lemma_expand(subs: SubsView, var: Variable, fuel: nat)
    requires
        subs.redirects_down(),
        subs.has(var),
    ensures
        subs.is_root(expand(subs, var, fuel)),
    decreases fuel,
{
    subs.lemma_root(var);
    if fuel > 0 {
        match subs.content_of(var) {
            ContentView::Alias(_, _, actual) => {
                if subs.has(actual) {
                    lemma_expand(subs, actual, (fuel - 1) as nat);
                }
            },
            _ => {},
        }
    }
}

/// Merging two roots under a content that refers to the store's variables
/// leaves the store well formed.
pub proof fn lemma_merged_wf(subs: SubsView, left: Variable, right: Variable, content: ContentView)
    requires
        subs.wf(),
        subs.is_root(left),
        subs.is_root(right),
        left != right,
        content.within(subs.size()),
    ensures
        subs.merged(left, right, content).wf(),
        subs.merged(left, right, content).size() == subs.size(),
        subs.merged(left, right, content).root_count() + 1 == subs.root_count(),
{
    let after = subs.merged(left, right, content);
    subs.lemma_merged(left, right, content, left);
    assert forall|i: int| 0 <= i < after.size() implies (
    #[trigger] after.slots[i] matches crate::subs::SlotView::Root(held) ==> held.within(
        after.size(),
    )) by {
        if i != left.0 && i != right.0 {
            assert(after.slots[i] == subs.slots[i]);
        }
    }
}

/// Setting a root to the error type, unless it is rigid, leaves the store
/// well formed, with the same roots.
pub proof fn lemma_marked(subs: SubsView, root: Variable, var: Variable)
    requires
        subs.wf(),
        subs.is_root(root),
    ensures
        marked(subs, root).wf(),
        marked(subs, root).size() == subs.size(),
        marked(subs, root).root_count() == subs.root_count(),
        marked(subs, root).root_of(var) == subs.root_of(var),
        marked(subs, root).is_root(var) == subs.is_root(var),
        marked(subs, root).content_of(var) == if subs.has(var) && subs.root_of(var) == root && !(
        subs.content_of(root) is RigidVar) {
            ContentView::Error
        } else {
            subs.content_of(var)
        },
{
    let after = marked(subs, root);
    subs.lemma_with_content(root, ContentView::Error, var);
    subs.lemma_root(root);
    if !(subs.content_of(root) is RigidVar) {
        assert forall|i: int| 0 <= i < after.size() implies (
        #[trigger] after.slots[i] matches crate::subs::SlotView::Root(held) ==> held.within(
            after.size(),
        )) by {
            if i != root.0 {
                assert(after.slots[i] == subs.slots[i]);
            }
        }
    }
}

/// The content of a root of a well-formed store refers to the store's
/// variables.
pub proof fn lemma_root_content(subs: SubsView, root: Variable)
    requires
        subs.wf(),
        subs.is_root(root),
    ensures
        subs.content_of(root).within(subs.size()),
        subs.root_of(root) == root,
{
    subs.lemma_root(root);
    assert(subs.slots[root.0 as int] is Root);
}

/// A step of unification leaves the store well formed and the stack
/// workable, and either merges two roots or leads to no further equations.
pub proof fn lemma_step(subs: SubsView, work: Seq<(Variable, Variable)>, region: Region)
    requires
        workable(subs, work),
        work.len() > 0,
    ensures
        ({
            let next = step(subs, work.last().0, work.last().1, region);
            &&& workable(next.subs, work.drop_last() + next.pushed)
            &&& next.subs.size() == subs.size()
            &&& next.subs.root_count() < subs.root_count() || (next.subs.root_count()
                == subs.root_count() && next.pushed.len() == 0)
        }),
{
    let left = work.last().0;
    let right = work.last().1;
    let next = step(subs, left, right, region);
    let a = expand(subs, left, subs.size() as nat);
    let b = expand(subs, right, subs.size() as nat);
    let ca = subs.content_of(a);
    let cb = subs.content_of(b);
    lemma_expand(subs, left, subs.size() as nat);
    lemma_expand(subs, right, subs.size() as nat);
    lemma_root_content(subs, a);
    lemma_root_content(subs, b);
    let rest = work.drop_last();
    if a == b {
    } else if ca is FlexVar && cb is FlexVar {
        let content = ContentView::FlexVar(flex_name(ca->FlexVar_0, cb->FlexVar_0));
        assert(content.parts() =~= Seq::<Variable>::empty());
        lemma_merged_wf(subs, a, b, content);
    } else if ca is FlexVar {
        lemma_merged_wf(subs, a, b, cb);
    } else if cb is FlexVar {
        lemma_merged_wf(subs, a, b, ca);
    } else if ca is Error || cb is Error {
    } else if ca is Structure && cb is Structure && (ca->Structure_0).same_head(cb->Structure_0) {
        lemma_merged_wf(subs, a, b, ca);
        let pa = (ca->Structure_0).parts();
        let pb = (cb->Structure_0).parts();
        assert(pa.len() == pb.len());
        assert forall|i: int| 0 <= i < next.pushed.len() implies subs.has(
            (#[trigger] next.pushed[i]).0,
        ) && subs.has(next.pushed[i].1) by {
            assert(ca.parts()[pa.len() - 1 - i].0 < subs.size());
            assert(cb.parts()[pa.len() - 1 - i].0 < subs.size());
        }
    } else {
        lemma_marked(subs, a, b);
        lemma_marked(marked(subs, a), b, b);
    }
    assert forall|i: int| 0 <= i < (rest + next.pushed).len() implies next.subs.has(
        (#[trigger] (rest + next.pushed)[i]).0,
    ) && next.subs.has((rest + next.pushed)[i].1) by {
        if i < rest.len() {
            assert((rest + next.pushed)[i] == work[i]);
        } else {
            assert((rest + next.pushed)[i] == next.pushed[i - rest.len()]);
        }
    }
}

/// The store and the problems once one equation is solved. An equation that
/// names a variable that the store lacks is reported and changes nothing.
pub open spec fn solve_one(subs: SubsView, equation: Equation, problems: Seq<TypeError>) -> (
    SubsView,
    Seq<TypeError>,
) {
    if !subs.has(equation.left) {
        (
            subs,
            problems.push(
                TypeError::UnknownVariable { region: equation.region, variable: equation.left },
            ),
        )
    } else if !subs.has(equation.right) {
        (
            subs,
            problems.push(
                TypeError::UnknownVariable { region: equation.region, variable: equation.right },
            ),
        )
    } else {
        drain(subs, seq![(equation.left, equation.right)], equation.region, problems)
    }
}

/// The store and the problems once the equations are solved, in order.
pub open spec fn solve_all(subs: SubsView, equations: Seq<Equation>, problems: Seq<TypeError>) -> (
    SubsView,
    Seq<TypeError>,
)
    decreases equations.len(),
{
    if equations.len() == 0 {
        (subs, problems)
    } else {
        let (next, found) = solve_one(subs, equations[0], problems);
        solve_all(next, equations.drop_first(), found)
    }
}

/// The root that `var` stands for once aliases are looked through.
pub fn resolve(subs: &Subs, var: Variable) -> (root: Variable)
    requires
        subs.wf(),
        subs.has(var),
    ensures
        root == expand(subs@, var, subs.size() as nat),
        subs@.is_root(root),
{
    let mut current = var;
    let mut fuel: usize = subs.len();
    loop
        invariant
            subs.wf(),
            subs.has(current),
            expand(subs@, current, fuel as nat) == expand(subs@, var, subs.size() as nat),
        decreases fuel,
    {
        let root = subs.root(current);
        proof {
            subs@.lemma_root(current);
        }
        if fuel == 0 {
            return root;
        }
        match &subs.slots[root.0 as usize] {
            crate::subs::Slot::Root(Content::Alias(_, _, actual)) => {
                if subs.contains(*actual) {
                    current = *actual;
                    fuel = fuel - 1;
                } else {
                    return root;
                }
            },
            _ => {
                return root;
            },
        }
    }
}

/// Sets the root `root` to the error type, unless it is rigid.
fn mark(subs: &mut Subs, root: Variable)
    requires
        old(subs).wf(),
        old(subs)@.is_root(root),
    ensures
        final(subs)@ == marked(old(subs)@, root),
        final(subs).wf(),
{
    proof {
        lemma_marked(subs@, root, root);
        subs@.lemma_root(root);
    }
    let rigid = match &subs.slots[root.0 as usize] {
        crate::subs::Slot::Root(Content::RigidVar(_)) => true,
        _ => false,
    };
    if !rigid {
        proof {
            assert(ContentView::Error.parts() =~= Seq::<Variable>::empty());
        }
        subs.set_content(root, Content::Error);
    }
}

/// Makes `left` and `right` stand for one type, as far as they can, and
/// reports where they cannot.
pub fn unify(
    subs: &mut Subs,
    problems: &mut Vec<TypeError>,
    left: Variable,
    right: Variable,
    region: Region,
)
    requires
        old(subs).wf(),
        old(subs).has(left),
        old(subs).has(right),
    ensures
        (final(subs)@, final(problems)@) == drain(
            old(subs)@,
            seq![(left, right)],
            region,
            old(problems)@,
        ),
        final(subs).wf(),
        final(subs).size() == old(subs).size(),
{
    let mut work: Vec<(Variable, Variable)> = Vec::new();
    work.push((left, right));
    proof {
        assert(work@ =~= seq![(left, right)]);
    }
    while work.len() > 0
        invariant
            workable(subs@, work@),
            subs.size() == old(subs).size(),
            drain(subs@, work@, region, problems@) == drain(
                old(subs)@,
                seq![(left, right)],
                region,
                old(problems)@,
            ),
        decreases subs@.root_count(), work@.len(),
    {
        let ghost before = subs@;
        let ghost pending = work@;
        let ghost found = problems@;
        let ghost next = step(before, pending.last().0, pending.last().1, region);
        proof {
            lemma_step(before, pending, region);
        }
        let (l, r) = work.pop().unwrap();
        let a = resolve(subs, l);
        let b = resolve(subs, r);
        proof {
            lemma_root_content(before, a);
            lemma_root_content(before, b);
        }
        if a.0 != b.0 {
            let ca = subs.get_without_compacting(a);
            let cb = subs.get_without_compacting(b);
            match (ca, cb) {
                (Content::FlexVar(name), Content::FlexVar(other)) => {
                    let content = match name {
                        Some(name) => Content::FlexVar(Some(name)),
                        None => Content::FlexVar(other),
                    };
                    proof {
                        assert(content@.parts() =~= Seq::<Variable>::empty());
                    }
                    subs.union(a, b, content);
                },
                (Content::FlexVar(_), cb) => {
                    subs.union(a, b, cb);
                },
                (ca, Content::FlexVar(_)) => {
                    subs.union(a, b, ca);
                },
                (Content::Error, _) => {},
                (_, Content::Error) => {},
                (Content::Structure(fa), Content::Structure(fb)) => {
                    if fa.same_head(&fb) {
                        let pa = fa.parts();
                        let pb = fb.parts();
                        subs.union(a, b, Content::Structure(fa));
                        let mut i: usize = pa.len();
                        while i > 0
                            invariant
                                i <= pa@.len(),
                                pa@.len() == pb@.len(),
                                work@ == pending.drop_last() + pairs_reversed(pa@, pb@).subrange(
                                    0,
                                    pa@.len() - i,
                                ),
                            decreases i,
                        {
                            i = i - 1;
                            work.push((pa[i], pb[i]));
                            proof {
                                assert(work@ =~= pending.drop_last() + pairs_reversed(
                                    pa@,
                                    pb@,
                                ).subrange(0, pa@.len() - i));
                            }
                        }
                        proof {
                            assert(work@ =~= pending.drop_last() + pairs_reversed(pa@, pb@));
                        }
                    } else {
                        mark(subs, a);
                        proof {
                            lemma_marked(before, a, b);
                        }
                        mark(subs, b);
                        problems.push(TypeError::Mismatch { region, left: l, right: r });
                    }
                },
                _ => {
                    mark(subs, a);
                    proof {
                        lemma_marked(before, a, b);
                    }
                    mark(subs, b);
                    problems.push(TypeError::Mismatch { region, left: l, right: r });
                },
            }
        }
        proof {
            assert(work@ =~= pending.drop_last() + next.pushed);
            assert(subs@ == next.subs);
            assert(problems@ == reported(found, next.problem));
        }
    }
}

/// Solves the equations in order.
pub fn solve_equations(subs: &mut Subs, problems: &mut Vec<TypeError>, equations: &Vec<Equation>)
    requires
        old(subs).wf(),
    ensures
        (final(subs)@, final(problems)@) == solve_all(old(subs)@, equations@, old(problems)@),
        final(subs).wf(),
        final(subs).size() == old(subs).size(),
{
    let mut i: usize = 0;
    proof {
        assert(equations@.skip(0) =~= equations@);
    }
    while i < equations.len()
        invariant
            i <= equations@.len(),
            subs.wf(),
            subs.size() == old(subs).size(),
            solve_all(subs@, equations@.skip(i as int), problems@) == solve_all(
                old(subs)@,
                equations@,
                old(problems)@,
            ),
        decreases equations.len() - i,
    {
        let equation = equations[i];
        proof {
            assert(equations@.skip(i as int)[0] == equation);
            assert(equations@.skip(i as int).drop_first() =~= equations@.skip(i + 1));
        }
        if !subs.contains(equation.left) {
            problems.push(
                TypeError::UnknownVariable { region: equation.region, variable: equation.left },
            );
        } else if !subs.contains(equation.right) {
            problems.push(
                TypeError::UnknownVariable { region: equation.region, variable: equation.right },
            );
        } else {
            unify(subs, problems, equation.left, equation.right, equation.region);
        }
        i += 1;
    }
}

/// Solves `constraint` over the type store: walks it in order and solves
/// each equation it asks for. Mistakes are added to `problems`; none stops
/// the walk.
pub fn run(
    constraints: &Constraints,
    env: Env,
    problems: &mut Vec<TypeError>,
    subs: Subs,
    constraint: &Constraint,
) -> (result: (crate::solve::module::Solved<Subs>, Env))
    requires
        subs.wf(),
    ensures
        (result.0.0@, final(problems)@) == solve_all(
            subs@,
            equations_of(constraints.nodes@, *constraint, constraints.nodes@.len() as int),
            old(problems)@,
        ),
        result.0.0.wf(),
        result.0.0.size() == subs.size(),
        result.1 == env,
{
    let mut subs = subs;
    let equations = constraints.equations(*constraint);
    solve_equations(&mut subs, problems, &equations);
    (crate::solve::module::Solved(subs), env)
}

} // verus!
