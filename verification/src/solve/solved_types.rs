//! Types written out as trees, free of the store they were solved in.

use vstd::prelude::*;
use vstd::string::*;
use crate::subs::{Content, ContentView, FlatType, FlatTypeView, Subs, SubsView, Variable};
use crate::symbol::Symbol;

verus! {

/// A type as a tree. A type that contains itself is cut where it comes
/// back to a variable that it is being written out for.
#[derive(Debug, PartialEq, Eq)]
pub enum SolvedType {
    /// A variable that may still become anything, named by its entry.
    Flex(Variable),
    /// A rigid variable, by its name.
    Rigid(String),
    /// A named type applied to arguments.
    Apply { module_name: String, name: String, args: Vec<SolvedType> },
    /// A function from arguments to a result.
    Func(Vec<SolvedType>, Box<SolvedType>),
    /// The record without fields.
    EmptyRecord,
    /// An alias applied to arguments, and the type it stands for.
    Alias(Symbol, Vec<SolvedType>, Box<SolvedType>),
    /// The type that is being written out for this entry, once more.
    Recursion(Variable),
    /// The type of something that failed to check.
    Error,
}

/// The mathematical content of a [`SolvedType`].
pub enum SolvedTypeView {
    Flex(Variable),
    Rigid(Seq<char>),
    Apply { module_name: Seq<char>, name: Seq<char>, args: Seq<SolvedTypeView> },
    Func(Seq<SolvedTypeView>, Box<SolvedTypeView>),
    EmptyRecord,
    Alias(Symbol, Seq<SolvedTypeView>, Box<SolvedTypeView>),
    Recursion(Variable),
    Error,
}

impl SolvedType {
    /// The tree that this value holds.
    pub open spec fn model(&self) -> SolvedTypeView
        decreases self,
    {
        match self {
            SolvedType::Flex(var) => SolvedTypeView::Flex(*var),
            SolvedType::Rigid(name) => SolvedTypeView::Rigid(name@),
            SolvedType::Apply { module_name, name, args } => SolvedTypeView::Apply {
                module_name: module_name@,
                name: name@,
                args: Seq::new(
                    args@.len(),
                    |i: int|
                        if 0 <= i < args@.len() {
                            args@[i].model()
                        } else {
                            SolvedTypeView::Error
                        },
                ),
            },
            SolvedType::Func(args, ret) => SolvedTypeView::Func(
                Seq::new(
                    args@.len(),
                    |i: int|
                        if 0 <= i < args@.len() {
                            args@[i].model()
                        } else {
                            SolvedTypeView::Error
                        },
                ),
                Box::new(ret.model()),
            ),
            SolvedType::EmptyRecord => SolvedTypeView::EmptyRecord,
            SolvedType::Alias(symbol, args, actual) => SolvedTypeView::Alias(
                *symbol,
                Seq::new(
                    args@.len(),
                    |i: int|
                        if 0 <= i < args@.len() {
                            args@[i].model()
                        } else {
                            SolvedTypeView::Error
                        },
                ),
                Box::new(actual.model()),
            ),
            SolvedType::Recursion(var) => SolvedTypeView::Recursion(*var),
            SolvedType::Error => SolvedTypeView::Error,
        }
    }
}

impl View for SolvedType {
    type V = SolvedTypeView;

    open spec fn view(&self) -> SolvedTypeView {
        self.model()
    }
}

/// The trees of a row of values.
pub open spec fn models(items: Seq<SolvedType>) -> Seq<SolvedTypeView> {
    Seq::new(items.len(), |i: int| items[i].model())
}

/// The tree of a value, by the trees of its parts.
pub proof fn lemma_model(tree: &SolvedType)
    ensures
        tree.model() == match tree {
            SolvedType::Flex(var) => SolvedTypeView::Flex(*var),
            SolvedType::Rigid(name) => SolvedTypeView::Rigid(name@),
            SolvedType::Apply { module_name, name, args } => SolvedTypeView::Apply {
                module_name: module_name@,
                name: name@,
                args: models(args@),
            },
            SolvedType::Func(args, ret) => SolvedTypeView::Func(
                models(args@),
                Box::new(ret.model()),
            ),
            SolvedType::EmptyRecord => SolvedTypeView::EmptyRecord,
            SolvedType::Alias(symbol, args, actual) => SolvedTypeView::Alias(
                *symbol,
                models(args@),
                Box::new(actual.model()),
            ),
            SolvedType::Recursion(var) => SolvedTypeView::Recursion(*var),
            SolvedType::Error => SolvedTypeView::Error,
        },
{
    match tree {
        SolvedType::Apply { module_name, name, args } => {
            assert(tree.model()->Apply_args =~= models(args@));
        },
        SolvedType::Func(args, ret) => {
            assert(tree.model()->Func_0 =~= models(args@));
        },
        SolvedType::Alias(symbol, args, actual) => {
            assert(tree.model()->Alias_1 =~= models(args@));
        },
        _ => {},
    }
}

/// The type that `var` stands for in `subs`, as a tree. `path` holds the
/// entries that the tree is being written out for, from the outermost in:
/// where the type comes back to one of them, the tree has `Recursion`. No
/// branch of the tree is deeper than `fuel`; below that it has `Error`.
pub open spec fn solved(subs: SubsView, var: Variable, path: Seq<Variable>, fuel: nat) -> SolvedTypeView
    decreases fuel, 0nat,
{
    let root = subs.root_of(var);
    if !subs.has(var) {
        SolvedTypeView::Error
    } else if path.contains(root) {
        SolvedTypeView::Recursion(root)
    } else if fuel == 0 {
        SolvedTypeView::Error
    } else {
        let inner = path.push(root);
        let less = (fuel - 1) as nat;
        match subs.content_of(var) {
            ContentView::FlexVar(_) => SolvedTypeView::Flex(root),
            ContentView::RigidVar(name) => SolvedTypeView::Rigid(name),
            ContentView::Structure(FlatTypeView::Apply { module_name, name, args }) => {
                SolvedTypeView::Apply {
                    module_name,
                    name,
                    args: solved_parts(subs, args, inner, less),
                }
            },
            ContentView::Structure(FlatTypeView::Func(args, ret)) => SolvedTypeView::Func(
                solved_parts(subs, args, inner, less),
                Box::new(solved(subs, ret, inner, less)),
            ),
            ContentView::Structure(FlatTypeView::EmptyRecord) => SolvedTypeView::EmptyRecord,
            ContentView::Alias(symbol, args, actual) => SolvedTypeView::Alias(
                symbol,
                solved_parts(subs, args, inner, less),
                Box::new(solved(subs, actual, inner, less)),
            ),
            ContentView::Error => SolvedTypeView::Error,
        }
    }
}

/// The types that the variables of `parts` stand for, as trees, in order.
pub open spec fn solved_parts(subs: SubsView, parts: Seq<Variable>, path: Seq<Variable>, fuel: nat) -> Seq<
    SolvedTypeView,
>
    decreases fuel, 1 + parts.len(),
{
    if parts.len() == 0 {
        Seq::empty()
    } else {
        solved_parts(subs, parts.drop_last(), path, fuel).push(
            solved(subs, parts.last(), path, fuel),
        )
    }
}

/// Whether `root` is in `path`.
fn on_path(path: &Vec<Variable>, root: Variable) -> (found: bool)
    ensures
        found == path@.contains(root),
{
    let mut i: usize = 0;
    while i < path.len()
        invariant
            i <= path@.len(),
            forall|j: int| 0 <= j < i ==> path@[j] != root,
        decreases path.len() - i,
    {
        if path[i].0 == root.0 {
            return true;
        }
        i += 1;
    }
    false
}

impl SolvedType {
    /// The type that `var` stands for in `subs`, written out as a tree.
    pub fn new(subs: &Subs, var: Variable) -> (solved_type: SolvedType)
        requires
            subs.wf(),
        ensures
            solved_type.model() == solved(subs@, var, Seq::empty(), subs.size() as nat),
    {
        let mut path: Vec<Variable> = Vec::new();
        write_out(subs, var, &mut path, subs.len())
    }
}

/// Writes out the type that `var` stands for, below the entries of `path`.
fn write_out(subs: &Subs, var: Variable, path: &mut Vec<Variable>, fuel: usize) -> (solved_type:
    SolvedType)
    requires
        subs.wf(),
    ensures
        solved_type.model() == solved(subs@, var, old(path)@, fuel as nat),
        final(path)@ == old(path)@,
    decreases fuel, 0nat,
{
    if !subs.contains(var) {
        return SolvedType::Error;
    }
    let root = subs.root(var);
    if on_path(path, root) {
        return SolvedType::Recursion(root);
    }
    if fuel == 0 {
        return SolvedType::Error;
    }
    let content = subs.get_without_compacting(var);
    proof {
        subs@.lemma_root(var);
    }
    path.push(root);
    let solved_type = match content {
        Content::FlexVar(_) => SolvedType::Flex(root),
        Content::RigidVar(name) => SolvedType::Rigid(name),
        Content::Structure(FlatType::Apply { module_name, name, args }) => {
            let args = write_out_parts(subs, &args, path, fuel - 1);
            SolvedType::Apply { module_name, name, args }
        },
        Content::Structure(FlatType::Func(args, ret)) => {
            let args = write_out_parts(subs, &args, path, fuel - 1);
            let ret = write_out(subs, ret, path, fuel - 1);
            SolvedType::Func(args, Box::new(ret))
        },
        Content::Structure(FlatType::EmptyRecord) => SolvedType::EmptyRecord,
        Content::Alias(symbol, args, actual) => {
            let args = write_out_parts(subs, &args, path, fuel - 1);
            let actual = write_out(subs, actual, path, fuel - 1);
            SolvedType::Alias(symbol, args, Box::new(actual))
        },
        Content::Error => SolvedType::Error,
    };
    path.pop();
    proof {
        assert(path@ =~= old(path)@);
        lemma_model(&solved_type);
    }
    solved_type
}

/// Writes out the types that the variables of `parts` stand for.
fn write_out_parts(subs: &Subs, parts: &Vec<Variable>, path: &mut Vec<Variable>, fuel: usize) -> (trees:
    Vec<SolvedType>)
    requires
        subs.wf(),
    ensures
        models(trees@) == solved_parts(subs@, parts@, old(path)@, fuel as nat),
        trees@.len() == parts@.len(),
        final(path)@ == old(path)@,
    decreases fuel, 1 + parts@.len(),
{
    let mut trees: Vec<SolvedType> = Vec::new();
    let mut i: usize = 0;
    proof {
        assert(models(trees@) =~= solved_parts(
            subs@,
            parts@.subrange(0, 0),
            old(path)@,
            fuel as nat,
        ));
    }
    while i < parts.len()
        invariant
            subs.wf(),
            i <= parts@.len(),
            trees@.len() == i,
            path@ == old(path)@,
            models(trees@) == solved_parts(
                subs@,
                parts@.subrange(0, i as int),
                old(path)@,
                fuel as nat,
            ),
        decreases parts.len() - i,
    {
        let ghost before = trees@;
        let tree = write_out(subs, parts[i], path, fuel);
        trees.push(tree);
        proof {
            let prefix = parts@.subrange(0, i + 1);
            assert(prefix.drop_last() =~= parts@.subrange(0, i as int));
            assert(prefix.last() == parts@[i as int]);
            assert(models(trees@) =~= models(before).push(tree.model()));
        }
        i += 1;
    }
    proof {
        assert(parts@.subrange(0, parts@.len() as int) =~= parts@);
    }
    trees
}

} // verus!
