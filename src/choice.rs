use vstd::prelude::*;

use crate::condition::Condition;
use crate::state::{State, StateView};

verus! {

/// One alternative: guarded by a condition, or unconditional.
#[derive(Debug)]
pub enum Choice<T> {
    Conditional { when: Condition, result: T },
    Simple(T),
}

/// An ordered list of alternatives; the first that applies wins.
#[derive(Debug)]
pub enum Choices<T> {
    Single(Choice<T>),
    Many(Vec<Choice<T>>),
}

impl<T> Choice<T> {
    /// The payload if the guard holds.
    pub open spec fn spec_resolve(&self, s: StateView) -> Option<T> {
        match self {
            Choice::Conditional { when, result } => if when.holds(s) {
                Some(*result)
            } else {
                None
            },
            Choice::Simple(result) => Some(*result),
        }
    }

    pub fn resolve(&self, state: &State) -> (r: Option<&T>)
        ensures
            match r {
                Some(v) => self.spec_resolve(state@) == Some(*v),
                None => self.spec_resolve(state@) is None,
            },
    {
        match self {
            Choice::Conditional { when, result } => {
                if when.matches(state) {
                    Some(result)
                } else {
                    None
                }
            },
            Choice::Simple(result) => Some(result),
        }
    }
}

/// The payload of the first alternative of the list that applies.
pub open spec fn first_match<T>(cs: Seq<Choice<T>>, s: StateView) -> Option<T>
    decreases cs.len(),
{
    if cs.len() == 0 {
        None
    } else {
        match cs[0].spec_resolve(s) {
            Some(v) => Some(v),
            None => first_match(cs.subrange(1, cs.len() as int), s),
        }
    }
}

impl<T> Choices<T> {
    /// The alternatives in order.
    pub open spec fn alternatives(&self) -> Seq<Choice<T>> {
        match self {
            Choices::Single(c) => seq![*c],
            Choices::Many(cs) => cs@,
        }
    }

    pub open spec fn spec_resolve(&self, s: StateView) -> Option<T> {
        first_match(self.alternatives(), s)
    }

    /// Resolves the alternatives in declared order and yields the payload of
    /// the first that applies; none if the list is exhausted.
    pub fn resolve(&self, state: &State) -> (r: Option<&T>)
        ensures
            match r {
                Some(v) => self.spec_resolve(state@) == Some(*v),
                None => self.spec_resolve(state@) is None,
            },
    {
        match self {
            Choices::Single(choice) => {
                let r = choice.resolve(state);
                proof {
                    let cs = self.alternatives();
                    assert(cs[0] == *choice);
                    assert(cs.subrange(1, 1).len() == 0);
                    assert(first_match(cs.subrange(1, 1), state@) is None);
                }
                r
            },
            Choices::Many(choices) => {
                let ghost cs = choices@;
                let mut i: usize = 0;
                assert(cs.subrange(0, cs.len() as int) =~= cs);
                while i < choices.len()
                    invariant
                        i <= cs.len(),
                        cs == choices@,
                        cs == self.alternatives(),
                        first_match(cs, state@) == first_match(
                            cs.subrange(i as int, cs.len() as int),
                            state@,
                        ),
                    decreases cs.len() - i,
                {
                    let ghost rest = cs.subrange(i as int, cs.len() as int);
                    assert(rest[0] == cs[i as int]);
                    assert(rest.subrange(1, rest.len() as int) =~= cs.subrange(
                        i + 1,
                        cs.len() as int,
                    ));
                    if let Some(result) = choices[i].resolve(state) {
                        return Some(result);
                    }
                    i = i + 1;
                }
                assert(cs.subrange(i as int, cs.len() as int).len() == 0);
                None
            },
        }
    }
}

/// When two alternatives both apply, resolution yields the earlier one:
/// the first applicable alternative in list order wins, never a later one.
pub proof fn lemma_first_applicable_wins<T>(cs: Seq<Choice<T>>, s: StateView, i: int, j: int)
    requires
        0 <= i < j < cs.len(),
        cs[i].spec_resolve(s) is Some,
        cs[j].spec_resolve(s) is Some,
        forall|k: int| 0 <= k < i ==> (#[trigger] cs[k].spec_resolve(s)) is None,
    ensures
        first_match(cs, s) == cs[i].spec_resolve(s),
    decreases i,
{
    if i > 0 {
        let rest = cs.subrange(1, cs.len() as int);
        assert forall|k: int| 0 <= k < i - 1 implies (#[trigger] rest[k].spec_resolve(s)) is None by {
            assert(rest[k] == cs[k + 1]);
        }
        assert(cs[0].spec_resolve(s) is None);
        lemma_first_applicable_wins(rest, s, i - 1, j - 1);
    }
}

} // verus!
