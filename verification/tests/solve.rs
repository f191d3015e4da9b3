use roc_core::constraint::{Constraint, Constraints, Equation};
use roc_core::region::Region;
use roc_core::solve::module::{
    exposed_types_storage_subs, make_solved_types, run_solve, RigidVariables, Solved, SolvedModule,
};
use roc_core::solve::solved_types::SolvedType;
use roc_core::solve::{resolve, run, solve_equations, unify, Alias, Aliases, Env, TypeError};
use roc_core::storage::StorageSubs;
use roc_core::subs::{Content, FlatType, Slot, Subs, Variable};
use roc_core::symbol::Symbol;

fn region(line: u32) -> Region {
    Region { start_line: line, start_col: 0, end_line: line, end_col: 1 }
}

fn apply(module_name: &str, name: &str, args: Vec<Variable>) -> Content {
    Content::Structure(FlatType::Apply {
        module_name: module_name.to_string(),
        name: name.to_string(),
        args,
    })
}

fn func(args: Vec<Variable>, ret: Variable) -> Content {
    Content::Structure(FlatType::Func(args, ret))
}

fn flex() -> Content {
    Content::FlexVar(None)
}

fn rigid(name: &str) -> Content {
    Content::RigidVar(name.to_string())
}

fn no_aliases() -> Aliases {
    Aliases { entries: Vec::new() }
}

fn no_rigids() -> RigidVariables {
    RigidVariables { named: Vec::new(), wildcards: Vec::new() }
}

fn store(contents: Vec<Content>) -> (Subs, Vec<Variable>) {
    let mut subs = Subs::new();
    let vars = contents.into_iter().map(|content| subs.fresh(content).unwrap()).collect();
    (subs, vars)
}

fn solve(subs: Subs, equations: &[(Variable, Variable)]) -> (Subs, Vec<TypeError>) {
    let mut constraints = Constraints::new();
    for (line, (left, right)) in equations.iter().enumerate() {
        constraints.push(Constraint::Eq(*left, *right, region(line as u32))).unwrap();
    }
    let root = Constraint::And { start: 0, len: equations.len() };
    let (solved, _, problems) = run_solve(&constraints, root, no_rigids(), subs, no_aliases());
    (solved.into_inner(), problems)
}

#[test]
fn fresh_variables_are_numbered_in_order() {
    let mut subs = Subs::new();
    assert_eq!(subs.len(), 0);
    assert_eq!(subs.fresh(flex()), Some(Variable(0)));
    assert_eq!(subs.fresh(rigid("a")), Some(Variable(1)));
    assert_eq!(subs.len(), 2);
    assert!(subs.contains(Variable(1)));
    assert!(!subs.contains(Variable(2)));
    assert_eq!(subs.get_without_compacting(Variable(1)), rigid("a"));
}

#[test]
fn union_redirects_the_greater_to_the_smaller() {
    let (mut subs, v) = store(vec![flex(), flex(), flex()]);
    subs.union(v[2], v[0], rigid("x"));
    assert_eq!(subs.slots[2], Slot::Redirect(v[0]));
    assert_eq!(subs.root(v[2]), v[0]);
    assert!(subs.equivalent(v[0], v[2]));
    assert!(!subs.equivalent(v[0], v[1]));
    assert_eq!(subs.get_without_compacting(v[2]), rigid("x"));
    assert_eq!(subs.get_without_compacting(v[0]), rigid("x"));
    assert_eq!(subs.get_without_compacting(v[1]), flex());
}

#[test]
fn get_without_compacting_leaves_the_chain() {
    let (mut subs, v) = store(vec![rigid("a"), flex(), flex()]);
    subs.union(v[1], v[2], flex());
    subs.union(v[0], v[1], rigid("a"));
    let before = subs.slots.iter().map(|slot| format!("{:?}", slot)).collect::<Vec<_>>();
    assert_eq!(subs.slots[2], Slot::Redirect(v[1]));
    assert_eq!(subs.get_without_compacting(v[2]), rigid("a"));
    let after = subs.slots.iter().map(|slot| format!("{:?}", slot)).collect::<Vec<_>>();
    assert_eq!(before, after);
}

#[test]
fn get_shortens_the_chain() {
    let (mut subs, v) = store(vec![rigid("a"), flex(), flex()]);
    subs.union(v[1], v[2], flex());
    subs.union(v[0], v[1], rigid("a"));
    assert_eq!(subs.slots[2], Slot::Redirect(v[1]));
    assert_eq!(subs.get(v[2]), rigid("a"));
    assert_eq!(subs.slots[2], Slot::Redirect(v[0]));
    assert_eq!(subs.slots[1], Slot::Redirect(v[0]));
    assert_eq!(subs.get(v[1]), rigid("a"));
    assert_eq!(subs.get(v[0]), rigid("a"));
}

#[test]
fn rigid_var_names_the_whole_class() {
    let (mut subs, v) = store(vec![flex(), flex(), flex()]);
    subs.union(v[0], v[1], flex());
    subs.rigid_var(v[1], "t".to_string());
    assert_eq!(subs.get_without_compacting(v[0]), rigid("t"));
    assert_eq!(subs.get_without_compacting(v[1]), rigid("t"));
    assert_eq!(subs.get_without_compacting(v[2]), flex());
    subs.set_content(v[2], Content::Error);
    assert_eq!(subs.get_without_compacting(v[2]), Content::Error);
}

#[test]
fn contents_list_their_parts() {
    let (a, b, c) = (Variable(1), Variable(2), Variable(3));
    assert_eq!(apply("List", "List", vec![a, b]).parts(), vec![a, b]);
    assert_eq!(func(vec![a, b], c).parts(), vec![a, b, c]);
    assert_eq!(Content::Alias(Symbol(1), vec![a], b).parts(), vec![a, b]);
    assert!(flex().parts().is_empty());
    assert!(Content::Structure(FlatType::EmptyRecord).parts().is_empty());
    let copy = func(vec![a], b).duplicate();
    assert_eq!(copy, func(vec![a], b));
}

#[test]
fn heads_compare_names_and_arity() {
    let head = |content: Content| match content {
        Content::Structure(flat_type) => flat_type,
        _ => unreachable!(),
    };
    let list = |args| head(apply("List", "List", args));
    assert!(list(vec![Variable(0)]).same_head(&list(vec![Variable(5)])));
    assert!(!list(vec![Variable(0)]).same_head(&list(vec![])));
    assert!(!list(vec![]).same_head(&head(apply("List", "Set", vec![]))));
    assert!(!list(vec![]).same_head(&head(apply("Set", "List", vec![]))));
    assert!(head(func(vec![Variable(0)], Variable(1))).same_head(&head(func(vec![Variable(2)], Variable(3)))));
    assert!(!head(func(vec![], Variable(1))).same_head(&head(func(vec![Variable(2)], Variable(3)))));
    assert!(FlatType::EmptyRecord.same_head(&FlatType::EmptyRecord));
    assert!(!FlatType::EmptyRecord.same_head(&list(vec![])));
}

#[test]
fn constraints_flatten_in_order() {
    let mut constraints = Constraints::new();
    let eq = |n: u32| Constraint::Eq(Variable(n), Variable(n + 1), region(n));
    let equation = |n: u32| Equation { left: Variable(n), right: Variable(n + 1), region: region(n) };
    assert_eq!(constraints.push(eq(0)), Some(0));
    assert_eq!(constraints.push(Constraint::True), Some(1));
    assert_eq!(constraints.push(eq(2)), Some(2));
    assert_eq!(constraints.push(Constraint::And { start: 0, len: 3 }), Some(3));
    assert_eq!(constraints.push(eq(4)), Some(4));
    assert_eq!(constraints.push(Constraint::And { start: 3, len: 2 }), Some(5));
    // A conjunction cannot refer to itself or beyond.
    assert_eq!(constraints.push(Constraint::And { start: 5, len: 2 }), None);
    assert_eq!(constraints.push(Constraint::And { start: usize::MAX, len: 2 }), None);
    assert_eq!(constraints.nodes.len(), 6);
    assert_eq!(constraints.equations(Constraint::True), vec![]);
    assert_eq!(constraints.equations(eq(7)), vec![equation(7)]);
    assert_eq!(
        constraints.equations(Constraint::And { start: 3, len: 3 }),
        vec![equation(0), equation(2), equation(4), equation(0), equation(2), equation(4)]
    );
    assert_eq!(
        constraints.equations(Constraint::And { start: 5, len: 1 }),
        vec![equation(0), equation(2), equation(4)]
    );
    // Out of the array: nothing is asked.
    assert_eq!(constraints.equations(Constraint::And { start: 5, len: 2 }), vec![]);
}

#[test]
fn flex_takes_on_what_it_meets() {
    let (subs, v) = store(vec![flex(), apply("Str", "Str", vec![])]);
    let (subs, problems) = solve(subs, &[(v[0], v[1])]);
    assert!(problems.is_empty());
    assert_eq!(subs.get_without_compacting(v[0]), apply("Str", "Str", vec![]));
    assert!(subs.equivalent(v[0], v[1]));
    let (subs, v) = store(vec![apply("Str", "Str", vec![]), flex()]);
    let (subs, problems) = solve(subs, &[(v[0], v[1])]);
    assert!(problems.is_empty());
    assert_eq!(subs.get_without_compacting(v[1]), apply("Str", "Str", vec![]));
}

#[test]
fn two_flex_variables_keep_the_first_name() {
    let named = |name: &str| Content::FlexVar(Some(name.to_string()));
    let (subs, v) = store(vec![flex(), named("b")]);
    let (subs, _) = solve(subs, &[(v[0], v[1])]);
    assert_eq!(subs.get_without_compacting(v[0]), named("b"));
    let (subs, v) = store(vec![named("a"), named("b")]);
    let (subs, _) = solve(subs, &[(v[1], v[0])]);
    assert_eq!(subs.get_without_compacting(v[0]), named("b"));
    assert_eq!(subs.get_without_compacting(v[1]), named("b"));
}

#[test]
fn structures_unify_part_by_part() {
    // List a = List Str, so a = Str
    let (subs, v) = store(vec![flex(), apply("Str", "Str", vec![])]);
    let mut subs = subs;
    let left = subs.fresh(apply("List", "List", vec![v[0]])).unwrap();
    let right = subs.fresh(apply("List", "List", vec![v[1]])).unwrap();
    let (subs, problems) = solve(subs, &[(left, right)]);
    assert!(problems.is_empty());
    assert!(subs.equivalent(left, right));
    assert!(subs.equivalent(v[0], v[1]));
    assert_eq!(subs.get_without_compacting(v[0]), apply("Str", "Str", vec![]));
}

#[test]
fn functions_unify_arguments_and_result() {
    let (mut subs, v) = store(vec![
        flex(),
        flex(),
        apply("Str", "Str", vec![]),
        apply("Int", "Integer", vec![]),
    ]);
    let left = subs.fresh(func(vec![v[0]], v[3])).unwrap();
    let right = subs.fresh(func(vec![v[2]], v[1])).unwrap();
    let (subs, problems) = solve(subs, &[(left, right)]);
    assert!(problems.is_empty());
    assert_eq!(subs.get_without_compacting(v[0]), apply("Str", "Str", vec![]));
    assert_eq!(subs.get_without_compacting(v[1]), apply("Int", "Integer", vec![]));
}

#[test]
fn mismatch_is_reported_and_marked() {
    let (subs, v) = store(vec![
        apply("Str", "Str", vec![]),
        apply("Int", "Integer", vec![]),
        flex(),
    ]);
    let (subs, problems) = solve(subs, &[(v[0], v[1]), (v[2], v[0]), (v[0], v[1])]);
    assert_eq!(
        problems,
        vec![TypeError::Mismatch { region: region(0), left: v[0], right: v[1] }]
    );
    assert_eq!(subs.get_without_compacting(v[0]), Content::Error);
    assert_eq!(subs.get_without_compacting(v[1]), Content::Error);
    // What meets the error type afterwards takes it on and reports nothing.
    assert_eq!(subs.get_without_compacting(v[2]), Content::Error);
}

#[test]
fn mismatch_does_not_stop_the_solver() {
    let (subs, v) = store(vec![
        apply("Str", "Str", vec![]),
        apply("Int", "Integer", vec![]),
        flex(),
        apply("Bool", "Bool", vec![]),
        func(vec![], Variable(0)),
    ]);
    let (subs, problems) = solve(subs, &[(v[0], v[1]), (v[2], v[3]), (v[3], v[4])]);
    assert_eq!(
        problems,
        vec![
            TypeError::Mismatch { region: region(0), left: v[0], right: v[1] },
            TypeError::Mismatch { region: region(2), left: v[3], right: v[4] },
        ]
    );
    assert!(subs.equivalent(v[2], v[3]));
}

#[test]
fn arity_mismatch_is_a_mismatch() {
    let (mut subs, v) = store(vec![flex()]);
    let one = subs.fresh(apply("Pair", "Pair", vec![v[0]])).unwrap();
    let two = subs.fresh(apply("Pair", "Pair", vec![v[0], v[0]])).unwrap();
    let (subs, problems) = solve(subs, &[(one, two)]);
    assert_eq!(problems.len(), 1);
    assert_eq!(subs.get_without_compacting(one), Content::Error);
    assert_eq!(subs.get_without_compacting(v[0]), flex());
}

#[test]
fn rigid_unifies_with_flex_only() {
    let (subs, v) = store(vec![rigid("a"), flex(), apply("Str", "Str", vec![]), rigid("b")]);
    let (subs, problems) = solve(subs, &[(v[0], v[1]), (v[0], v[2]), (v[3], v[0]), (v[0], v[0])]);
    assert_eq!(
        problems,
        vec![
            TypeError::Mismatch { region: region(1), left: v[0], right: v[2] },
            TypeError::Mismatch { region: region(2), left: v[3], right: v[0] },
        ]
    );
    assert_eq!(subs.get_without_compacting(v[0]), rigid("a"));
    assert_eq!(subs.get_without_compacting(v[1]), rigid("a"));
    assert_eq!(subs.get_without_compacting(v[2]), Content::Error);
    assert_eq!(subs.get_without_compacting(v[3]), rigid("b"));
}

#[test]
fn aliases_are_looked_through() {
    let (mut subs, v) = store(vec![apply("Str", "Str", vec![]), flex()]);
    let name = subs.fresh(Content::Alias(Symbol(7), vec![], v[0])).unwrap();
    let again = subs.fresh(Content::Alias(Symbol(8), vec![], name)).unwrap();
    assert_eq!(resolve(&subs, again), v[0]);
    assert_eq!(resolve(&subs, v[1]), v[1]);
    let (subs, problems) = solve(subs, &[(again, v[1])]);
    assert!(problems.is_empty());
    assert_eq!(subs.get_without_compacting(v[1]), apply("Str", "Str", vec![]));
    assert_eq!(subs.get_without_compacting(again), Content::Alias(Symbol(8), vec![], name));
}

#[test]
fn alias_of_itself_is_a_mismatch_with_anything_else() {
    let mut subs = Subs::new();
    let knot = subs.fresh(Content::Alias(Symbol(1), vec![], Variable(0))).unwrap();
    let text = subs.fresh(apply("Str", "Str", vec![])).unwrap();
    assert_eq!(resolve(&subs, knot), knot);
    let (subs, problems) = solve(subs, &[(knot, text)]);
    assert_eq!(problems.len(), 1);
    assert_eq!(subs.get_without_compacting(text), Content::Error);
}

#[test]
fn recursive_types_are_walked_once() {
    // a = List a and b = List b
    let mut subs = Subs::new();
    let a = subs.fresh(apply("List", "List", vec![Variable(0)])).unwrap();
    let b = subs.fresh(apply("List", "List", vec![Variable(1)])).unwrap();
    let (subs, problems) = solve(subs, &[(a, b), (b, a)]);
    assert!(problems.is_empty());
    assert!(subs.equivalent(a, b));
    assert_eq!(subs.get_without_compacting(b), apply("List", "List", vec![a]));
}

#[test]
fn unknown_variables_are_reported() {
    let (subs, v) = store(vec![flex()]);
    let (subs, problems) = solve(subs, &[(Variable(5), v[0]), (v[0], Variable(6))]);
    assert_eq!(
        problems,
        vec![
            TypeError::UnknownVariable { region: region(0), variable: Variable(5) },
            TypeError::UnknownVariable { region: region(1), variable: Variable(6) },
        ]
    );
    assert_eq!(subs.get_without_compacting(v[0]), flex());
}

#[test]
fn unify_appends_to_the_problems() {
    let (mut subs, v) = store(vec![rigid("a"), rigid("b")]);
    let earlier = TypeError::UnknownVariable { region: region(9), variable: Variable(9) };
    let mut problems = vec![earlier];
    unify(&mut subs, &mut problems, v[0], v[1], region(3));
    assert_eq!(
        problems,
        vec![earlier, TypeError::Mismatch { region: region(3), left: v[0], right: v[1] }]
    );
    let equations = vec![Equation { left: v[1], right: v[0], region: region(4) }];
    solve_equations(&mut subs, &mut problems, &equations);
    assert_eq!(problems.len(), 3);
}

#[test]
fn run_hands_the_env_back() {
    let (subs, v) = store(vec![flex(), rigid("a")]);
    let constraints = Constraints::new();
    let alias = Alias { symbol: Symbol(3), vars: vec![v[0]], actual: v[1] };
    let env = Env {
        vars_by_symbol: vec![(Symbol(1), v[0])],
        aliases: Aliases { entries: vec![alias] },
    };
    let mut problems = Vec::new();
    let root = Constraint::Eq(v[0], v[1], region(0));
    let (solved, env) = run(&constraints, env, &mut problems, subs, &root);
    assert!(problems.is_empty());
    assert_eq!(env.vars_by_symbol, vec![(Symbol(1), v[0])]);
    assert_eq!(env.aliases.entries.len(), 1);
    assert_eq!(solved.inner().get_without_compacting(v[0]), rigid("a"));
}

#[test]
fn rigids_and_an_empty_constraint() {
    let (subs, v) = store(vec![flex(), flex()]);
    let rigids = RigidVariables { named: vec![(v[0], "a".to_string())], wildcards: vec![v[1]] };
    let constraints = Constraints::new();
    let aliases = Aliases {
        entries: vec![Alias { symbol: Symbol(4), vars: vec![], actual: v[0] }],
    };
    let (solved, env, problems) = run_solve(&constraints, Constraint::True, rigids, subs, aliases);
    let mut subs = solved.into_inner();
    assert_eq!(subs.get(v[0]), rigid("a"));
    assert_eq!(subs.get(v[1]), rigid("*"));
    assert!(problems.is_empty());
    assert!(env.vars_by_symbol.is_empty());
    assert_eq!(env.aliases.entries.len(), 1);
}

#[test]
fn rigids_survive_the_constraints() {
    let (subs, v) = store(vec![flex(), flex(), flex(), apply("Str", "Str", vec![]), flex()]);
    let rigids = RigidVariables {
        named: vec![(v[0], "a".to_string()), (v[1], "b".to_string())],
        wildcards: vec![v[2]],
    };
    let mut constraints = Constraints::new();
    constraints.push(Constraint::Eq(v[0], v[3], region(0))).unwrap();
    constraints.push(Constraint::Eq(v[1], v[0], region(1))).unwrap();
    constraints.push(Constraint::Eq(v[4], v[2], region(2))).unwrap();
    constraints.push(Constraint::Eq(v[2], v[1], region(3))).unwrap();
    let root = Constraint::And { start: 0, len: 4 };
    let (solved, _, problems) = run_solve(&constraints, root, rigids, subs, no_aliases());
    let subs = solved.into_inner();
    assert_eq!(subs.get_without_compacting(v[0]), rigid("a"));
    assert_eq!(subs.get_without_compacting(v[1]), rigid("b"));
    assert_eq!(subs.get_without_compacting(v[2]), rigid("*"));
    assert_eq!(subs.get_without_compacting(v[4]), rigid("*"));
    assert_eq!(problems.len(), 3);
}

#[test]
fn a_variable_named_twice_keeps_the_later_name() {
    let (subs, v) = store(vec![flex()]);
    let rigids = RigidVariables {
        named: vec![(v[0], "a".to_string()), (v[0], "b".to_string())],
        wildcards: vec![],
    };
    let (solved, _, _) = run_solve(&Constraints::new(), Constraint::True, rigids, subs, no_aliases());
    assert_eq!(solved.inner().get_without_compacting(v[0]), rigid("b"));
}

#[test]
fn solved_wraps_a_value() {
    let mut solved = Solved(5u8);
    assert_eq!(*solved.inner(), 5);
    *solved.inner_mut() = 6;
    assert_eq!(solved.into_inner(), 6);
}

#[test]
fn solved_types_are_trees() {
    let (mut subs, v) = store(vec![apply("Str", "Str", vec![]), flex(), rigid("a")]);
    let list = subs.fresh(apply("List", "List", vec![v[0]])).unwrap();
    let function = subs.fresh(func(vec![list, v[1]], v[2])).unwrap();
    let alias = subs.fresh(Content::Alias(Symbol(3), vec![v[2]], function)).unwrap();
    let text = || SolvedType::Apply {
        module_name: "Str".to_string(),
        name: "Str".to_string(),
        args: vec![],
    };
    let list_of_text = || SolvedType::Apply {
        module_name: "List".to_string(),
        name: "List".to_string(),
        args: vec![text()],
    };
    let function_tree = || {
        SolvedType::Func(
            vec![list_of_text(), SolvedType::Flex(v[1])],
            Box::new(SolvedType::Rigid("a".to_string())),
        )
    };
    assert_eq!(SolvedType::new(&subs, v[0]), text());
    assert_eq!(SolvedType::new(&subs, function), function_tree());
    assert_eq!(
        SolvedType::new(&subs, alias),
        SolvedType::Alias(
            Symbol(3),
            vec![SolvedType::Rigid("a".to_string())],
            Box::new(function_tree())
        )
    );
    assert_eq!(SolvedType::new(&subs, Variable(99)), SolvedType::Error);
    subs.set_content(v[0], Content::Error);
    assert_eq!(SolvedType::new(&subs, v[0]), SolvedType::Error);
    subs.set_content(v[0], Content::Structure(FlatType::EmptyRecord));
    assert_eq!(SolvedType::new(&subs, v[0]), SolvedType::EmptyRecord);
}

#[test]
fn solved_type_of_a_recursive_type_is_cut() {
    // a = List a
    let mut subs = Subs::new();
    let a = subs.fresh(apply("List", "List", vec![Variable(0)])).unwrap();
    let b = subs.fresh(flex()).unwrap();
    subs.union(a, b, apply("List", "List", vec![b]));
    assert_eq!(
        SolvedType::new(&subs, b),
        SolvedType::Apply {
            module_name: "List".to_string(),
            name: "List".to_string(),
            args: vec![SolvedType::Recursion(a)],
        }
    );
}

#[test]
fn solved_types_have_one_entry_per_symbol() {
    let (subs, v) = store(vec![apply("Str", "Str", vec![]), rigid("a"), flex()]);
    let solved = Solved(subs);
    let exposed = vec![(Symbol(10), v[0]), (Symbol(11), v[1]), (Symbol(12), v[2])];
    let types = make_solved_types(&solved, &exposed);
    assert_eq!(types.len(), 3);
    assert_eq!(types[&11], SolvedType::Rigid("a".to_string()));
    assert_eq!(types[&12], SolvedType::Flex(v[2]));
    assert_eq!(types[&10], SolvedType::new(solved.inner(), v[0]));
    assert!(make_solved_types(&solved, &[]).is_empty());
    // A symbol that is exposed twice has one entry, the later one.
    let twice = vec![(Symbol(10), v[0]), (Symbol(10), v[1])];
    let types = make_solved_types(&solved, &twice);
    assert_eq!(types.len(), 1);
    assert_eq!(types[&10], SolvedType::Rigid("a".to_string()));
}

#[test]
fn import_copies_what_is_reachable() {
    let (mut source, v) = store(vec![apply("Str", "Str", vec![]), flex(), rigid("a")]);
    let list = source.fresh(apply("List", "List", vec![v[0]])).unwrap();
    let function = source.fresh(func(vec![list, v[0]], v[2])).unwrap();
    let mut storage = StorageSubs::new(Subs::new());
    let copy = storage.import_variable_from(&source, function);
    let dest = &storage.subs;
    // The function, the list, the text and the rigid: the flex is not reached.
    assert_eq!(dest.len(), 4);
    match dest.get_without_compacting(copy) {
        Content::Structure(FlatType::Func(args, ret)) => {
            assert_eq!(dest.get_without_compacting(ret), rigid("a"));
            assert_eq!(dest.get_without_compacting(args[1]), apply("Str", "Str", vec![]));
            // The text is shared between the list and the function.
            assert_eq!(dest.get_without_compacting(args[0]), apply("List", "List", vec![args[1]]));
        }
        other => panic!("not a function: {:?}", other),
    }
    assert_eq!(storage.copies[v[1].0 as usize], None);
    assert_eq!(storage.copies[function.0 as usize], Some(copy));
}

#[test]
fn import_follows_redirections() {
    let (mut source, v) = store(vec![flex(), flex(), flex()]);
    source.union(v[0], v[2], apply("Str", "Str", vec![]));
    let list = source.fresh(apply("List", "List", vec![v[2]])).unwrap();
    let mut storage = StorageSubs::new(Subs::new());
    let copy = storage.import_variable_from(&source, list);
    let again = storage.import_variable_from(&source, v[2]);
    let direct = storage.import_variable_from(&source, v[0]);
    assert_eq!(again, direct);
    assert_eq!(storage.subs.len(), 2);
    assert_eq!(storage.subs.get_without_compacting(copy), apply("List", "List", vec![again]));
    assert_eq!(storage.subs.get_without_compacting(again), apply("Str", "Str", vec![]));
}

#[test]
fn import_copies_a_recursive_type_once() {
    let mut source = Subs::new();
    let a = source.fresh(apply("List", "List", vec![Variable(0)])).unwrap();
    let mut storage = StorageSubs::new(Subs::new());
    let copy = storage.import_variable_from(&source, a);
    assert_eq!(storage.subs.len(), 1);
    assert_eq!(storage.subs.get_without_compacting(copy), apply("List", "List", vec![copy]));
}

#[test]
fn exposed_types_share_what_the_source_shares() {
    let (mut source, v) = store(vec![apply("Str", "Str", vec![]), flex()]);
    let pair = source.fresh(apply("Pair", "Pair", vec![v[0], v[1]])).unwrap();
    let list = source.fresh(apply("List", "List", vec![pair])).unwrap();
    let other = source.fresh(func(vec![pair], v[0])).unwrap();
    let mut solved = Solved(source);
    let exposed = vec![(Symbol(1), list), (Symbol(2), other), (Symbol(3), list)];
    let (storage, stored) = exposed_types_storage_subs(&mut solved, &exposed);
    assert_eq!(stored.len(), 3);
    assert_eq!(stored[0].0, Symbol(1));
    assert_eq!(stored[1].0, Symbol(2));
    assert_eq!(stored[2], (Symbol(3), stored[0].1));
    let dest = &storage.subs;
    assert_eq!(dest.len(), 5);
    let pair_of_list = match dest.get_without_compacting(stored[0].1) {
        Content::Structure(FlatType::Apply { args, .. }) => args[0],
        other => panic!("not a list: {:?}", other),
    };
    let (pair_of_func, ret) = match dest.get_without_compacting(stored[1].1) {
        Content::Structure(FlatType::Func(args, ret)) => (args[0], ret),
        other => panic!("not a function: {:?}", other),
    };
    assert_eq!(pair_of_list, pair_of_func);
    match dest.get_without_compacting(pair_of_list) {
        Content::Structure(FlatType::Apply { name, args, .. }) => {
            assert_eq!(name, "Pair");
            assert_eq!(args[0], ret);
            assert_eq!(dest.get_without_compacting(args[1]), flex());
        }
        other => panic!("not a pair: {:?}", other),
    }
    // The source is as it was.
    assert_eq!(solved.inner().len(), 5);
    assert_eq!(solved.inner().get_without_compacting(v[1]), flex());
}

#[test]
fn solved_module_holds_what_a_module_exports() {
    let (subs, v) = store(vec![flex(), flex()]);
    let rigids = RigidVariables { named: vec![(v[0], "a".to_string())], wildcards: vec![] };
    let mut constraints = Constraints::new();
    constraints.push(Constraint::Eq(v[1], v[0], region(0))).unwrap();
    let root = Constraint::And { start: 0, len: 1 };
    let (mut solved, env, problems) = run_solve(&constraints, root, rigids, subs, no_aliases());
    let exposed = vec![(Symbol(1), v[1])];
    let (storage_subs, stored_vars_by_symbol) = exposed_types_storage_subs(&mut solved, &exposed);
    let module = SolvedModule {
        problems,
        aliases: env.aliases,
        exposed_vars_by_symbol: exposed,
        stored_vars_by_symbol,
        storage_subs,
    };
    assert!(module.problems.is_empty());
    let (symbol, var) = module.stored_vars_by_symbol[0];
    assert_eq!(symbol, Symbol(1));
    assert_eq!(module.storage_subs.subs.get_without_compacting(var), rigid("a"));
}

#[test]
fn check_tells_a_well_formed_store() {
    let (mut subs, v) = store(vec![flex(), flex(), apply("List", "List", vec![Variable(0)])]);
    assert!(subs.check());
    subs.union(v[0], v[1], flex());
    assert!(subs.check());
    assert!(Subs::new().check());
    // A redirection that does not lead downwards.
    let mut up = Subs::new();
    up.slots.push(Slot::Redirect(Variable(1)));
    up.slots.push(Slot::Root(flex()));
    assert!(!up.check());
    let mut knot = Subs::new();
    knot.slots.push(Slot::Redirect(Variable(0)));
    assert!(!knot.check());
    // A content that refers to a variable that is not there.
    let mut open = Subs::new();
    open.slots.push(Slot::Root(func(vec![Variable(0)], Variable(1))));
    assert!(!open.check());
    open.slots.push(Slot::Root(flex()));
    assert!(open.check());
}

#[test]
fn check_tells_whether_the_rigids_are_in_the_store() {
    let (subs, v) = store(vec![flex(), flex()]);
    let rigids = |named: Vec<Variable>, wildcards: Vec<Variable>| RigidVariables {
        named: named.into_iter().map(|var| (var, "a".to_string())).collect(),
        wildcards,
    };
    assert!(rigids(vec![], vec![]).check(&subs));
    assert!(rigids(vec![v[0]], vec![v[1], v[0]]).check(&subs));
    assert!(!rigids(vec![v[0], Variable(2)], vec![]).check(&subs));
    assert!(!rigids(vec![v[0]], vec![v[1], Variable(9)]).check(&subs));
}

#[test]
fn import_makes_new_variables_for_what_is_new_only() {
    let (mut source, v) = store(vec![apply("Str", "Str", vec![]), flex(), rigid("a")]);
    let left = source.fresh(apply("List", "List", vec![v[0]])).unwrap();
    let right = source.fresh(func(vec![v[0]], v[2])).unwrap();
    let mut storage = StorageSubs::new(Subs::new());
    let first = storage.import_variable_from(&source, left);
    assert_eq!(storage.subs.len(), 2);
    let copies = storage.copies.clone();
    let second = storage.import_variable_from(&source, right);
    // The text was copied before: only the function and the rigid are new.
    assert_eq!(storage.subs.len(), 4);
    assert!(second.0 >= 2);
    for (place, copy) in copies.iter().enumerate() {
        if copy.is_some() {
            assert_eq!(storage.copies[place], *copy);
        }
    }
    assert_eq!(storage.copies[v[1].0 as usize], None);
    assert_eq!(storage.subs.get_without_compacting(first), {
        let text = storage.copies[v[0].0 as usize].unwrap();
        apply("List", "List", vec![text])
    });
    assert!(storage.subs.check());
}
