//! Environments: the chain of scopes that hold the variables at run time.

use vstd::prelude::*;
use vstd::string::StringExecFns;
use crate::error_reporter::{runtime_report, ErrorReporter};
use crate::table::Table;
use crate::text::join3;
use crate::token::{Token, TokenView};
use crate::value::Value;

verus! {

/// One scope: its variables, and the handle of the scope around it. The
/// scopes of a run live in one vector; a handle is an index into it, and the
/// scope around a scope has a smaller handle.
pub struct Environment {
    pub values: Table<Value>,
    pub enclosing: Option<usize>,
}

/// For each scope, the handle of the scope around it.
pub open spec fn parents(environments: Seq<Environment>) -> Seq<Option<usize>> {
    Seq::new(environments.len(), |i: int| environments[i].enclosing)
}

/// Whether every scope lies inside a scope with a smaller handle.
pub open spec fn chained(parents: Seq<Option<usize>>) -> bool {
    forall|i: int| 0 <= i < parents.len() ==> ((#[trigger] parents[i]) matches Some(p) ==> p < i)
}

/// The number of scopes around a scope.
pub open spec fn ancestors(parents: Seq<Option<usize>>, at: int) -> nat
    decreases at,
{
    if 0 <= at < parents.len() {
        match parents[at] {
            Some(p) => if p < at {
                1 + ancestors(parents, p as int)
            } else {
                0
            },
            None => 0,
        }
    } else {
        0
    }
}

/// The scope that lies `distance` scopes outward of a scope.
pub open spec fn ancestor(parents: Seq<Option<usize>>, at: int, distance: nat) -> int
    decreases distance,
{
    if distance == 0 || !(0 <= at < parents.len()) {
        at
    } else {
        match parents[at] {
            Some(p) => ancestor(parents, p as int, (distance - 1) as nat),
            None => at,
        }
    }
}

/// The outermost scope around a scope: the global scope of its chain.
pub open spec fn outermost(parents: Seq<Option<usize>>, at: int) -> int
    decreases at,
{
    if 0 <= at < parents.len() {
        match parents[at] {
            Some(p) => if p < at {
                outermost(parents, p as int)
            } else {
                at
            },
            None => at,
        }
    } else {
        at
    }
}

/// The nearest scope, from a scope outward, that holds a name.
pub open spec fn holder(environments: Seq<Environment>, at: int, name: Seq<char>) -> Option<int>
    decreases at,
{
    if 0 <= at < environments.len() {
        if environments[at].values.map().dom().contains(name) {
            Some(at)
        } else {
            match environments[at].enclosing {
                Some(p) => if p < at {
                    holder(environments, p as int, name)
                } else {
                    None
                },
                None => None,
            }
        }
    } else {
        None
    }
}

/// The value of a name as seen from a scope: that of the nearest scope,
/// from it outward, that holds the name.
pub open spec fn lookup(environments: Seq<Environment>, at: int, name: Seq<char>) -> Option<Value> {
    match holder(environments, at, name) {
        Some(h) => Some(environments[h].values.map()[name]),
        None => None,
    }
}

/// The scope from which a reference with a given depth is looked up: the
/// scope at that distance, or the outermost scope where there is no depth.
pub open spec fn start_of(parents: Seq<Option<usize>>, at: int, distance: Option<usize>) -> int {
    match distance {
        Some(d) => ancestor(parents, at, d as nat),
        None => outermost(parents, at),
    }
}

/// The message for a name that no scope holds.
pub open spec fn undefined_variable(name: TokenView) -> Seq<char> {
    "Undefined variable '"@ + name.lexeme + "'."@
}

/// The scopes after a name has been given a value in one of them.
pub open spec fn with_value(
    environments: Seq<Environment>,
    at: int,
    name: Seq<char>,
    value: Value,
    after: Seq<Environment>,
) -> bool {
    &&& after.len() == environments.len()
    &&& forall|i: int| 0 <= i < after.len() && i != at ==> after[i] == environments[i]
    &&& after[at].enclosing == environments[at].enclosing
    &&& after[at].values.map() == environments[at].values.map().insert(name, value)
}

/// The scope at a distance is a scope, and as many scopes fewer lie around
/// it.
pub proof fn lemma_ancestor(parents: Seq<Option<usize>>, at: int, distance: nat)
    requires
        chained(parents),
        0 <= at < parents.len(),
        distance <= ancestors(parents, at),
    ensures
        0 <= ancestor(parents, at, distance) <= at,
        ancestors(parents, ancestor(parents, at, distance)) == ancestors(parents, at) - distance,
    decreases distance,
{
    if distance > 0 {
        match parents[at] {
            Some(p) => {
                lemma_ancestor(parents, p as int, (distance - 1) as nat);
            },
            None => {},
        }
    }
}

/// The outermost scope around a scope is a scope with none around it.
pub proof fn lemma_outermost(parents: Seq<Option<usize>>, at: int)
    requires
        chained(parents),
        0 <= at < parents.len(),
    ensures
        0 <= outermost(parents, at) <= at,
        parents[outermost(parents, at)] is None,
    decreases at,
{
    match parents[at] {
        Some(p) => {
            lemma_outermost(parents, p as int);
        },
        None => {},
    }
}

/// The scope that holds a name is a scope that holds it.
pub proof fn lemma_holder(environments: Seq<Environment>, at: int, name: Seq<char>)
    ensures
        holder(environments, at, name) matches Some(h) ==> 0 <= h <= at && h < environments.len()
            && environments[h].values.map().dom().contains(name),
    decreases at,
{
    if 0 <= at < environments.len() && !environments[at].values.map().dom().contains(name) {
        match environments[at].enclosing {
            Some(p) => {
                if p < at {
                    lemma_holder(environments, p as int, name);
                }
            },
            None => {},
        }
    }
}

/// The number of scopes around a scope depends only on the scopes up to it.
pub proof fn lemma_ancestors_prefix(
    before: Seq<Option<usize>>,
    after: Seq<Option<usize>>,
    at: int,
)
    requires
        before.len() <= after.len(),
        forall|i: int| 0 <= i < before.len() ==> before[i] == after[i],
        0 <= at < before.len(),
    ensures
        ancestors(after, at) == ancestors(before, at),
    decreases at,
{
    match before[at] {
        Some(p) => {
            if p < at {
                lemma_ancestors_prefix(before, after, p as int);
            }
        },
        None => {},
    }
}

impl Environment {
    /// A scope with no variable and no scope around it.
    pub fn new() -> (environment: Environment)
        ensures
            environment.values.map() == Map::<Seq<char>, Value>::empty(),
            environment.enclosing is None,
    {
        Environment { values: Table::new(), enclosing: None }
    }

    /// A scope with no variable, inside the scope with the given handle.
    pub fn with_enclosing_scope(enclosing: usize) -> (environment: Environment)
        ensures
            environment.values.map() == Map::<Seq<char>, Value>::empty(),
            environment.enclosing == Some(enclosing),
    {
        Environment { values: Table::new(), enclosing: Some(enclosing) }
    }

    /// Gives a name a value in this scope, whether or not it had one.
    pub fn define(&mut self, name: String, value: Value)
        ensures
            final(self).values.map() == old(self).values.map().insert(name@, value),
            final(self).enclosing == old(self).enclosing,
    {
        self.values.insert(name, value);
    }

    fn find(environments: &Vec<Environment>, at: usize, name: &String) -> (found: Option<usize>)
        requires
            at < environments@.len(),
        ensures
            match found {
                Some(h) => holder(environments@, at as int, name@) == Some(h as int),
                None => holder(environments@, at as int, name@) is None,
            },
    {
        let mut current: usize = at;
        loop
            invariant
                current < environments@.len(),
                holder(environments@, at as int, name@) == holder(
                    environments@,
                    current as int,
                    name@,
                ),
            decreases current,
        {
            if environments[current].values.contains_key(name) {
                return Some(current);
            }
            match environments[current].enclosing {
                Some(p) => {
                    if p < current {
                        current = p;
                    } else {
                        return None;
                    }
                },
                None => {
                    return None;
                },
            }
        }
    }

    fn undefined(name: &Token, reporter: &mut ErrorReporter)
        ensures
            final(reporter)@ == old(reporter)@.with(
                runtime_report(name@, undefined_variable(name@)),
            ),
    {
        let message = join3("Undefined variable '", name.lexeme(), "'.");
        reporter.runtime_error_on_token(name, message.as_str());
    }

    /// The value of a name as seen from the scope `at`. Where no scope on
    /// the way outward holds it, the error is reported.
    pub fn get(
        environments: &Vec<Environment>,
        at: usize,
        name: &Token,
        reporter: &mut ErrorReporter,
    ) -> (value: Option<Value>)
        requires
            at < environments@.len(),
        ensures
            value == lookup(environments@, at as int, name@.lexeme),
            final(reporter)@ == (if value is Some {
                old(reporter)@
            } else {
                old(reporter)@.with(runtime_report(name@, undefined_variable(name@)))
            }),
    {
        match Self::find(environments, at, name.name()) {
            Some(h) => {
                proof {
                    lemma_holder(environments@, at as int, name@.lexeme);
                }
                let found = environments[h].values.get(name.name());
                match found {
                    Some(v) => Some(v.duplicate()),
                    None => None,
                }
            },
            None => {
                Self::undefined(name, reporter);
                None
            },
        }
    }

    /// Gives a name a new value in the nearest scope, from `at` outward, that
    /// holds it. Where none does, the error is reported and nothing changes.
    pub fn assign(
        environments: &mut Vec<Environment>,
        at: usize,
        name: Token,
        value: Value,
        reporter: &mut ErrorReporter,
    ) -> (done: Option<()>)
        requires
            at < old(environments)@.len(),
        ensures
            match holder(old(environments)@, at as int, name@.lexeme) {
                Some(h) => done is Some && with_value(
                    old(environments)@,
                    h,
                    name@.lexeme,
                    value,
                    final(environments)@,
                ) && final(reporter)@ == old(reporter)@,
                None => {
                    &&& done is None
                    &&& final(environments)@ == old(environments)@
                    &&& final(reporter)@ == old(reporter)@.with(
                        runtime_report(name@, undefined_variable(name@)),
                    )
                },
            },
    {
        match Self::find(environments, at, name.name()) {
            Some(h) => {
                proof {
                    lemma_holder(environments@, at as int, name@.lexeme);
                }
                let slot: &mut Environment = &mut environments[h];
                slot.define(name.name().clone(), value);
                Some(())
            },
            None => {
                Self::undefined(&name, reporter);
                None
            },
        }
    }

    /// The value of a name, looked up from the scope at the given distance
    /// of `at`, or from the outermost scope where no distance is given.
    pub fn get_at(
        environments: &Vec<Environment>,
        at: usize,
        distance: Option<usize>,
        name: &Token,
        reporter: &mut ErrorReporter,
    ) -> (value: Option<Value>)
        requires
            at < environments@.len(),
            chained(parents(environments@)),
            distance matches Some(d) ==> d <= ancestors(parents(environments@), at as int),
        ensures
            value == lookup(
                environments@,
                start_of(parents(environments@), at as int, distance),
                name@.lexeme,
            ),
            final(reporter)@ == (if value is Some {
                old(reporter)@
            } else {
                old(reporter)@.with(runtime_report(name@, undefined_variable(name@)))
            }),
    {
        let start = Self::start(environments, at, distance);
        Self::get(environments, start, name, reporter)
    }

    /// The handle of the scope from which a reference is looked up.
    pub fn start(environments: &Vec<Environment>, at: usize, distance: Option<usize>) -> (start:
        usize)
        requires
            at < environments@.len(),
            chained(parents(environments@)),
            distance matches Some(d) ==> d <= ancestors(parents(environments@), at as int),
        ensures
            start == start_of(parents(environments@), at as int, distance),
            start <= at,
    {
        let ghost links = parents(environments@);
        match distance {
            Some(d) => {
                let mut current: usize = at;
                let mut left: usize = d;
                while left > 0
                    invariant
                        links == parents(environments@),
                        chained(links),
                        current < environments@.len(),
                        current <= at,
                        left <= ancestors(links, current as int),
                        ancestor(links, at as int, d as nat) == ancestor(
                            links,
                            current as int,
                            left as nat,
                        ),
                    decreases left,
                {
                    assert(links[current as int] == environments@[current as int].enclosing);
                    match environments[current].enclosing {
                        Some(p) => {
                            current = p;
                            left -= 1;
                        },
                        None => {
                            left = 0;
                        },
                    }
                }
                current
            },
            None => Self::get_global(environments, at),
        }
    }

    fn get_global(environments: &Vec<Environment>, at: usize) -> (start: usize)
        requires
            at < environments@.len(),
        ensures
            start == outermost(parents(environments@), at as int),
            start <= at,
    {
        let ghost links = parents(environments@);
        let mut current: usize = at;
        loop
            invariant
                links == parents(environments@),
                current < environments@.len(),
                current <= at,
                outermost(links, at as int) == outermost(links, current as int),
            decreases current,
        {
            assert(links[current as int] == environments@[current as int].enclosing);
            match environments[current].enclosing {
                Some(p) => {
                    if p < current {
                        current = p;
                    } else {
                        return current;
                    }
                },
                None => {
                    return current;
                },
            }
        }
    }

    /// Gives a name a new value, starting from the scope at the given
    /// distance of `at`, or from the outermost scope where no distance is
    /// given.
    pub fn assign_at(
        environments: &mut Vec<Environment>,
        at: usize,
        distance: Option<usize>,
        name: Token,
        value: Value,
        reporter: &mut ErrorReporter,
    ) -> (done: Option<()>)
        requires
            at < old(environments)@.len(),
            chained(parents(old(environments)@)),
            distance matches Some(d) ==> d <= ancestors(parents(old(environments)@), at as int),
        ensures
            match holder(
                old(environments)@,
                start_of(parents(old(environments)@), at as int, distance),
                name@.lexeme,
            ) {
                Some(h) => done is Some && with_value(
                    old(environments)@,
                    h,
                    name@.lexeme,
                    value,
                    final(environments)@,
                ) && final(reporter)@ == old(reporter)@,
                None => {
                    &&& done is None
                    &&& final(environments)@ == old(environments)@
                    &&& final(reporter)@ == old(reporter)@.with(
                        runtime_report(name@, undefined_variable(name@)),
                    )
                },
            },
    {
        let start = Self::start(environments, at, distance);
        Self::assign(environments, start, name, value, reporter)
    }

    /// Gives a name a new value in the outermost scope around `at`.
    pub fn assign_global(
        environments: &mut Vec<Environment>,
        at: usize,
        name: Token,
        value: Value,
        reporter: &mut ErrorReporter,
    ) -> (done: Option<()>)
        requires
            at < old(environments)@.len(),
        ensures
            match holder(
                old(environments)@,
                outermost(parents(old(environments)@), at as int),
                name@.lexeme,
            ) {
                Some(h) => done is Some && with_value(
                    old(environments)@,
                    h,
                    name@.lexeme,
                    value,
                    final(environments)@,
                ) && final(reporter)@ == old(reporter)@,
                None => {
                    &&& done is None
                    &&& final(environments)@ == old(environments)@
                    &&& final(reporter)@ == old(reporter)@.with(
                        runtime_report(name@, undefined_variable(name@)),
                    )
                },
            },
    {
        let start = Self::get_global(environments, at);
        Self::assign(environments, start, name, value, reporter)
    }
}

} // verus!
