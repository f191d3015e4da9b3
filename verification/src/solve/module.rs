//! Solving a module and taking out the types it exposes.

use vstd::prelude::*;
use vstd::string::*;
use std::collections::HashMap;
use crate::solve::solved_types::{solved, SolvedType, SolvedTypeView};
use crate::storage::{copy_at, reachable, StorageSubs};
use crate::constraint::{equations_of, Constraint, Constraints};
use crate::solve::{run, solve_all, Aliases, Env, TypeError};
use crate::subs::{ContentView, Subs, SubsView, Variable};
use crate::symbol::Symbol;

verus! {

/// A value that the solver is done with.
#[derive(Debug, PartialEq, Eq)]
pub struct Solved<T>(pub T);

impl<T> Solved<T> {
    /// The value.
    pub fn inner(&self) -> (value: &T)
        ensures
            *value == self.0,
    {
        &self.0
    }

    /// The value, to be changed in place.
    pub fn inner_mut(&mut self) -> (value: &mut T)
        ensures
            *value == old(self).0,
            final(self).0 == *final(value),
    {
        &mut self.0
    }

    /// The value, given up by the wrapper.
    pub fn into_inner(self) -> (value: T)
        ensures
            value == self.0,
    {
        self.0
    }
}

/// What is known of a module once its types are solved.
#[derive(Debug)]
pub struct SolvedModule {
    /// The mistakes in the module's types.
    pub problems: Vec<TypeError>,
    /// All aliases with their definitions. Those that are not exposed are
    /// among them, because an exposed alias may be defined by one that is
    /// not.
    pub aliases: Aliases,
    /// The exposed symbols, each with its variable in the module's store.
    pub exposed_vars_by_symbol: Vec<(Symbol, Variable)>,
    /// The exposed symbols, each with its variable in `storage_subs`: what
    /// another module that imports this one reads.
    pub stored_vars_by_symbol: Vec<(Symbol, Variable)>,
    /// The copy of the exposed types.
    pub storage_subs: StorageSubs,
}

/// The name that a wildcard is rendered with.
pub const WILDCARD: &'static str = "*";

/// The type variables that the source fixes: those it names, each with its
/// name, and those it writes as a wildcard.
#[derive(Debug, PartialEq, Eq)]
pub struct RigidVariables {
    pub named: Vec<(Variable, String)>,
    pub wildcards: Vec<Variable>,
}

impl RigidVariables {
    /// Whether every variable is a variable of `subs`.
    pub open spec fn within(&self, subs: SubsView) -> bool {
        &&& forall|i: int| 0 <= i < self.named@.len() ==> subs.has((#[trigger] self.named@[i]).0)
        &&& forall|i: int| 0 <= i < self.wildcards@.len() ==> subs.has(#[trigger] self.wildcards@[i])
    }

    /// Whether every variable is a variable of `subs`.
    pub fn check(&self, subs: &Subs) -> (fine: bool)
        ensures
            fine == self.within(subs@),
    {
        let mut i: usize = 0;
        while i < self.named.len()
            invariant
                i <= self.named@.len(),
                forall|j: int| 0 <= j < i ==> subs@.has((#[trigger] self.named@[j]).0),
            decreases self.named.len() - i,
        {
            if !subs.contains(self.named[i].0) {
                return false;
            }
            i += 1;
        }
        let mut k: usize = 0;
        while k < self.wildcards.len()
            invariant
                k <= self.wildcards@.len(),
                forall|j: int| 0 <= j < self.named@.len() ==> subs@.has((#[trigger] self.named@[j]).0),
                forall|j: int| 0 <= j < k ==> subs@.has(#[trigger] self.wildcards@[j]),
            decreases self.wildcards.len() - k,
        {
            if !subs.contains(self.wildcards[k]) {
                return false;
            }
            k += 1;
        }
        true
    }
}

/// The store in which `var` is a rigid variable named `name`.
pub open spec fn made_rigid(subs: SubsView, var: Variable, name: Seq<char>) -> SubsView {
    subs.with_content(subs.root_of(var), ContentView::RigidVar(name))
}

/// The store in which the first `count` of the named variables are rigid
/// under their names, the later entries over the earlier.
pub open spec fn with_named(subs: SubsView, named: Seq<(Variable, String)>, count: int) -> SubsView
    decreases count,
{
    if count <= 0 {
        subs
    } else {
        made_rigid(with_named(subs, named, count - 1), named[count - 1].0, named[count - 1].1@)
    }
}

/// The store in which the first `count` of the wildcards are rigid under
/// the name `*`.
pub open spec fn with_wildcards(subs: SubsView, wildcards: Seq<Variable>, count: int) -> SubsView
    decreases count,
{
    if count <= 0 {
        subs
    } else {
        made_rigid(with_wildcards(subs, wildcards, count - 1), wildcards[count - 1], WILDCARD@)
    }
}

/// The store in which all the rigid variables are registered: the named
/// ones first, then the wildcards.
pub open spec fn registered(subs: SubsView, rigid: &RigidVariables) -> SubsView {
    with_wildcards(
        with_named(subs, rigid.named@, rigid.named@.len() as int),
        rigid.wildcards@,
        rigid.wildcards@.len() as int,
    )
}

/// Registers the rigid variables in the type store, then solves the
/// constraint over it. Yields the store, the solver's environment with the
/// aliases, and the mistakes that were found, in the order in which they
/// were found.
pub fn run_solve(
    constraints: &Constraints,
    constraint: Constraint,
    rigid_variables: RigidVariables,
    subs: Subs,
    aliases: Aliases,
) -> (result: (Solved<Subs>, Env, Vec<TypeError>))
    requires
        subs.wf(),
        rigid_variables.within(subs@),
    ensures
        (result.0.0@, result.2@) == solve_all(
            registered(subs@, &rigid_variables),
            equations_of(constraints.nodes@, constraint, constraints.nodes@.len() as int),
            Seq::empty(),
        ),
        result.0.0.wf(),
        result.0.0.size() == subs.size(),
        result.1.vars_by_symbol@.len() == 0,
        result.1.aliases == aliases,
{
    let mut subs = subs;
    let env = Env { vars_by_symbol: Vec::new(), aliases };
    let ghost start = subs@;

    let mut i: usize = 0;
    while i < rigid_variables.named.len()
        invariant
            i <= rigid_variables.named@.len(),
            rigid_variables.within(start),
            subs.wf(),
            subs.size() == start.size(),
            subs@ == with_named(start, rigid_variables.named@, i as int),
        decreases rigid_variables.named.len() - i,
    {
        let var = rigid_variables.named[i].0;
        let name = rigid_variables.named[i].1.clone();
        subs.rigid_var(var, name);
        i += 1;
    }
    let ghost named = subs@;

    let mut j: usize = 0;
    while j < rigid_variables.wildcards.len()
        invariant
            j <= rigid_variables.wildcards@.len(),
            rigid_variables.within(start),
            subs.wf(),
            subs.size() == start.size(),
            subs@ == with_wildcards(named, rigid_variables.wildcards@, j as int),
        decreases rigid_variables.wildcards.len() - j,
    {
        let var = rigid_variables.wildcards[j];
        subs.rigid_var(var, WILDCARD.to_owned());
        j += 1;
    }

    // The module is constrained; now its types are checked.
    let mut problems: Vec<TypeError> = Vec::new();
    let (solved_subs, solved_env) = run(constraints, env, &mut problems, subs, &constraint);
    (solved_subs, solved_env, problems)
}

/// The trees of the types that the first `count` entries of `exposed`
/// name, by the number of the symbol. Where a symbol is exposed twice, the
/// later entry stands.
pub open spec fn exposed_types(subs: SubsView, exposed: Seq<(Symbol, Variable)>, count: int) -> Map<
    u64,
    SolvedTypeView,
>
    decreases count,
{
    if count <= 0 {
        Map::empty()
    } else {
        exposed_types(subs, exposed, count - 1).insert(
            exposed[count - 1].0.0,
            solved(subs, exposed[count - 1].1, Seq::empty(), subs.size() as nat),
        )
    }
}

/// Whether `types` holds exactly the trees of `trees`, under the same keys.
pub open spec fn holds_trees(types: Map<u64, SolvedType>, trees: Map<u64, SolvedTypeView>) -> bool {
    &&& types.dom() == trees.dom()
    &&& forall|key: u64| #[trigger] types.contains_key(key) ==> types[key].model() == trees[key]
}

/// Writes out the type of every exposed symbol as a tree that does not
/// depend on the type store, so that another module can put it into a store
/// of its own. The result has one entry for each exposed symbol, under the
/// symbol's number.
pub fn make_solved_types(solved_subs: &Solved<Subs>, exposed_vars_by_symbol: &[(Symbol, Variable)]) -> (solved_types:
    HashMap<u64, SolvedType>)
    requires
        solved_subs.0.wf(),
    ensures
        holds_trees(
            solved_types@,
            exposed_types(
                solved_subs.0@,
                exposed_vars_by_symbol@,
                exposed_vars_by_symbol@.len() as int,
            ),
        ),
{
    broadcast use vstd::std_specs::hash::group_hash_axioms;

    let mut solved_types: HashMap<u64, SolvedType> = HashMap::new();
    let subs = solved_subs.inner();
    let mut i: usize = 0;
    proof {
        assert(solved_types@.dom() =~= exposed_types(subs@, exposed_vars_by_symbol@, 0).dom());
    }
    while i < exposed_vars_by_symbol.len()
        invariant
            i <= exposed_vars_by_symbol@.len(),
            subs.wf(),
            *subs == solved_subs.0,
            holds_trees(solved_types@, exposed_types(subs@, exposed_vars_by_symbol@, i as int)),
        decreases exposed_vars_by_symbol.len() - i,
    {
        let symbol = exposed_vars_by_symbol[i].0;
        let var = exposed_vars_by_symbol[i].1;
        let solved_type = SolvedType::new(subs, var);
        let ghost before = solved_types@;
        solved_types.insert(symbol.0, solved_type);
        proof {
            let trees = exposed_types(subs@, exposed_vars_by_symbol@, i + 1);
            assert(solved_types@.dom() =~= trees.dom());
        }
        i += 1;
    }
    solved_types
}

/// Whether every copy was made for an entry that is part of what one of the
/// first `count` exposed variables stands for.
pub open spec fn copied_for(
    copies: Seq<Option<Variable>>,
    source: SubsView,
    exposed: Seq<(Symbol, Variable)>,
    count: int,
) -> bool {
    forall|r: int|
        0 <= r < copies.len() && (#[trigger] copies[r]) is Some ==> exists|k: int|
            0 <= k < count && reachable(source, (#[trigger] exposed[k]).1, Variable(r as u32))
}

/// Copies the types of the exposed symbols into a storage of their own,
/// and yields the storage and, for each exposed symbol in order, its
/// variable there. The module's store is left as it is.
pub fn exposed_types_storage_subs(
    solved_subs: &mut Solved<Subs>,
    exposed_vars_by_symbol: &[(Symbol, Variable)],
) -> (result: (StorageSubs, Vec<(Symbol, Variable)>))
    requires
        old(solved_subs).0.wf(),
        forall|i: int|
            0 <= i < exposed_vars_by_symbol@.len() ==> old(solved_subs).0.has(
                (#[trigger] exposed_vars_by_symbol@[i]).1,
            ),
    ensures
        final(solved_subs).0@ == old(solved_subs).0@,
        result.0.mirrors(old(solved_subs).0@),
        result.1@.len() == exposed_vars_by_symbol@.len(),
        forall|i: int|
            0 <= i < exposed_vars_by_symbol@.len() ==> (#[trigger] result.1@[i]).0
                == exposed_vars_by_symbol@[i].0 && result.0.copy_of(
                old(solved_subs).0@,
                exposed_vars_by_symbol@[i].1,
            ) == Some(result.1@[i].1),
        copied_for(
            result.0.copies@,
            old(solved_subs).0@,
            exposed_vars_by_symbol@,
            exposed_vars_by_symbol@.len() as int,
        ),
{
    let subs = solved_subs.inner();
    let mut storage_subs = StorageSubs::new(Subs::new());
    let mut stored_vars_by_symbol: Vec<(Symbol, Variable)> = Vec::new();
    let mut i: usize = 0;
    while i < exposed_vars_by_symbol.len()
        invariant
            i <= exposed_vars_by_symbol@.len(),
            *subs == old(solved_subs).0,
            subs.wf(),
            forall|i: int|
                0 <= i < exposed_vars_by_symbol@.len() ==> subs.has(
                    (#[trigger] exposed_vars_by_symbol@[i]).1,
                ),
            storage_subs.mirrors(subs@),
            stored_vars_by_symbol@.len() == i,
            forall|k: int|
                0 <= k < i ==> (#[trigger] stored_vars_by_symbol@[k]).0
                    == exposed_vars_by_symbol@[k].0 && storage_subs.copy_of(
                    subs@,
                    exposed_vars_by_symbol@[k].1,
                ) == Some(stored_vars_by_symbol@[k].1),
            copied_for(storage_subs.copies@, subs@, exposed_vars_by_symbol@, i as int),
        decreases exposed_vars_by_symbol.len() - i,
    {
        let symbol = exposed_vars_by_symbol[i].0;
        let var = exposed_vars_by_symbol[i].1;
        let ghost before = storage_subs.copies@;
        let ghost stored = stored_vars_by_symbol@;
        let new_var = storage_subs.import_variable_from(subs, var);
        stored_vars_by_symbol.push((symbol, new_var));
        proof {
            assert forall|k: int| 0 <= k < i + 1 implies (#[trigger] stored_vars_by_symbol@[k]).0
                == exposed_vars_by_symbol@[k].0 && storage_subs.copy_of(
                subs@,
                exposed_vars_by_symbol@[k].1,
            ) == Some(stored_vars_by_symbol@[k].1) by {
                if k < i {
                    assert(stored_vars_by_symbol@[k] == stored[k]);
                    let root = subs@.root_of(exposed_vars_by_symbol@[k].1);
                    assert(copy_at(before, root) is Some);
                    assert(before[root.0 as int] is Some);
                }
            }
            assert forall|r: int|
                0 <= r < storage_subs.copies@.len() && (
                #[trigger] storage_subs.copies@[r]) is Some implies exists|k: int|
                0 <= k < i + 1 && reachable(
                    subs@,
                    (#[trigger] exposed_vars_by_symbol@[k]).1,
                    Variable(r as u32),
                ) by {
                if copy_at(before, Variable(r as u32)) is None {
                    assert(reachable(subs@, exposed_vars_by_symbol@[i as int].1, Variable(r as u32)));
                } else {
                    assert(before[r] is Some);
                    let k = choose|k: int|
                        0 <= k < i && reachable(
                            subs@,
                            (#[trigger] exposed_vars_by_symbol@[k]).1,
                            Variable(r as u32),
                        );
                    assert(reachable(subs@, exposed_vars_by_symbol@[k].1, Variable(r as u32)));
                }
            }
        }
        i += 1;
    }
    (storage_subs, stored_vars_by_symbol)
}

} // verus!
