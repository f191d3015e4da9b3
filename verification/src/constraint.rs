//! Constraints between type variables, stored as one array.
//!
//! A conjunction names a run of the array as its parts. The parts of a
//! conjunction that is stored in the array lie before it, so that walking
//! a constraint ends.

use vstd::prelude::*;
use crate::region::Region;
use crate::subs::Variable;

verus! {

/// One constraint.
#[derive(Debug, Clone, Copy, PartialEq, Eq, Structural)]
pub enum Constraint {
    /// Nothing is asked.
    True,
    /// The two variables stand for the same type; the region is where the
    /// source asks for it.
    Eq(Variable, Variable, Region),
    /// All of the `len` constraints that start at `start` in the array.
    And { start: usize, len: usize },
}

/// An equation between two variables, with the region that asks for it.
#[derive(Debug, Clone, Copy, PartialEq, Eq, Structural)]
pub struct Equation {
    pub left: Variable,
    pub right: Variable,
    pub region: Region,
}

/// The array that conjunctions refer to.
#[derive(Debug, PartialEq, Eq)]
pub struct Constraints {
    pub nodes: Vec<Constraint>,
}

/// Whether the parts of `constraint` lie in the first `bound` entries.
pub open spec fn fits(constraint: Constraint, bound: int) -> bool {
    match constraint {
        Constraint::And { start, len } => start + len <= bound,
        _ => true,
    }
}

/// The equations that `constraint` asks for, in order, where it may refer to
/// the first `bound` entries of `nodes`. A conjunction that refers beyond
/// them asks for nothing.
pub open spec fn equations_of(nodes: Seq<Constraint>, constraint: Constraint, bound: int) -> Seq<
    Equation,
>
    decreases bound, 1int, 0int,
{
    match constraint {
        Constraint::True => Seq::empty(),
        Constraint::Eq(left, right, region) => seq![Equation { left, right, region }],
        Constraint::And { start, len } => if start + len <= bound && bound <= nodes.len() {
            equations_in(nodes, start as int, len as int, bound)
        } else {
            Seq::empty()
        },
    }
}

/// The equations that the `len` entries from `start` ask for, in order.
pub open spec fn equations_in(nodes: Seq<Constraint>, start: int, len: int, bound: int) -> Seq<
    Equation,
>
    decreases bound, 0int, len,
{
    if len <= 0 || start < 0 || start + len > bound {
        Seq::empty()
    } else {
        equations_in(nodes, start, len - 1, bound) + equations_of(
            nodes,
            nodes[start + len - 1],
            start + len - 1,
        )
    }
}

impl Constraints {
    /// Every conjunction in the array refers to entries before itself.
    pub open spec fn wf(&self) -> bool {
        forall|i: int| 0 <= i < self.nodes@.len() ==> fits(#[trigger] self.nodes@[i], i)
    }

    /// An empty array.
    pub fn new() -> (constraints: Constraints)
        ensures
            constraints.nodes@.len() == 0,
            constraints.wf(),
    {
        Constraints { nodes: Vec::new() }
    }

    /// Stores `constraint` and yields its place. Yields `None`, and stores
    /// nothing, where `constraint` is a conjunction that refers beyond the
    /// entries that are there.
    pub fn push(&mut self, constraint: Constraint) -> (place: Option<usize>)
        requires
            old(self).wf(),
        ensures
            final(self).wf(),
            match place {
                Some(place) => {
                    &&& fits(constraint, old(self).nodes@.len() as int)
                    &&& place == old(self).nodes@.len()
                    &&& final(self).nodes@ == old(self).nodes@.push(constraint)
                },
                None => !fits(constraint, old(self).nodes@.len() as int) && final(self).nodes@
                    == old(self).nodes@,
            },
    {
        let place = self.nodes.len();
        let fits = match constraint {
            Constraint::And { start, len } => start <= place && len <= place - start,
            _ => true,
        };
        if fits {
            self.nodes.push(constraint);
            Some(place)
        } else {
            None
        }
    }

    /// The equations that `constraint` asks for, in order.
    pub fn equations(&self, constraint: Constraint) -> (equations: Vec<Equation>)
        ensures
            equations@ == equations_of(self.nodes@, constraint, self.nodes@.len() as int),
    {
        let mut equations: Vec<Equation> = Vec::new();
        self.collect(constraint, self.nodes.len(), &mut equations);
        equations
    }

    /// Appends the equations that `constraint` asks for.
    fn collect(&self, constraint: Constraint, bound: usize, equations: &mut Vec<Equation>)
        requires
            bound <= self.nodes@.len(),
        ensures
            final(equations)@ == old(equations)@ + equations_of(
                self.nodes@,
                constraint,
                bound as int,
            ),
        decreases bound,
    {
        match constraint {
            Constraint::True => {
                proof {
                    assert(equations@ =~= old(equations)@ + Seq::<Equation>::empty());
                }
            },
            Constraint::Eq(left, right, region) => {
                equations.push(Equation { left, right, region });
                proof {
                    assert(equations@ =~= old(equations)@ + seq![Equation { left, right, region }]);
                }
            },
            Constraint::And { start, len } => {
                if start <= bound && len <= bound - start {
                    let mut i: usize = 0;
                    while i < len
                        invariant
                            i <= len,
                            start + len <= bound <= self.nodes@.len(),
                            equations@ == old(equations)@ + equations_in(
                                self.nodes@,
                                start as int,
                                i as int,
                                bound as int,
                            ),
                        decreases len - i,
                    {
                        let ghost before = equations@;
                        self.collect(self.nodes[start + i], start + i, equations);
                        proof {
                            assert(equations@ =~= old(equations)@ + equations_in(
                                self.nodes@,
                                start as int,
                                i + 1,
                                bound as int,
                            ));
                        }
                        i += 1;
                    }
                } else {
                    proof {
                        assert(equations@ =~= old(equations)@ + Seq::<Equation>::empty());
                    }
                }
            },
        }
    }
}

} // verus!
