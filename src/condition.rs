use vstd::prelude::*;

use crate::params::{BoolParam, FloatParam, StringParam};
use crate::state::{State, StateView};

verus! {

/// Comparison operators available for every type.
#[derive(PartialEq, Eq, Structural, Clone, Copy, Debug)]
pub enum GeneralComparison {
    Equal,
    NotEqual,
}

/// Comparison operators for numbers.
#[derive(PartialEq, Eq, Structural, Clone, Copy, Debug)]
pub enum NumericComparison {
    Equal,
    NotEqual,
    LessThan,
    LessThanEqual,
    GreaterThan,
    GreaterThanEqual,
}

/// A boolean predicate over the state.
#[derive(Debug)]
pub enum Condition {
    Any { any: Vec<Condition>, invert: bool },
    All { all: Vec<Condition>, invert: bool },
    NumericComparison { parameter: FloatParam, comparison: NumericComparison, value: Option<i64> },
    BoolComparison { parameter: BoolParam, comparison: GeneralComparison, value: Option<bool> },
    StringComparison { parameter: StringParam, comparison: GeneralComparison, value: Option<String> },
}

impl GeneralComparison {
    /// The comparison written as `==` or `!=`.
    pub fn parse(s: &str) -> (r: Option<GeneralComparison>)
        ensures
            r == (if s@ == seq!['=', '='] {
                Some(GeneralComparison::Equal)
            } else if s@ == seq!['!', '='] {
                Some(GeneralComparison::NotEqual)
            } else {
                None::<GeneralComparison>
            }),
    {
        if s.unicode_len() != 2 {
            return None;
        }
        let a = s.get_char(0);
        let b = s.get_char(1);
        if b != '=' {
            assert(s@ != seq!['=', '=']);
            assert(s@ != seq!['!', '=']);
            return None;
        }
        if a == '=' {
            assert(s@ =~= seq!['=', '=']);
            Some(GeneralComparison::Equal)
        } else if a == '!' {
            assert(s@ =~= seq!['!', '=']);
            Some(GeneralComparison::NotEqual)
        } else {
            assert(s@ != seq!['=', '=']);
            assert(s@ != seq!['!', '=']);
            None
        }
    }
}

/// The operator that `s` spells, if any.
pub open spec fn numeric_comparison_of(s: Seq<char>) -> Option<NumericComparison> {
    if s == seq!['=', '='] {
        Some(NumericComparison::Equal)
    } else if s == seq!['!', '='] {
        Some(NumericComparison::NotEqual)
    } else if s == seq!['<'] {
        Some(NumericComparison::LessThan)
    } else if s == seq!['<', '='] {
        Some(NumericComparison::LessThanEqual)
    } else if s == seq!['>'] {
        Some(NumericComparison::GreaterThan)
    } else if s == seq!['>', '='] {
        Some(NumericComparison::GreaterThanEqual)
    } else {
        None
    }
}

impl NumericComparison {
    /// The comparison written as `==`, `!=`, `<`, `<=`, `>` or `>=`.
    pub fn parse(s: &str) -> (r: Option<NumericComparison>)
        ensures
            r == numeric_comparison_of(s@),
    {
        let n = s.unicode_len();
        if n == 1 {
            let a = s.get_char(0);
            if a == '<' {
                assert(s@ =~= seq!['<']);
                return Some(NumericComparison::LessThan);
            } else if a == '>' {
                assert(s@ =~= seq!['>']);
                return Some(NumericComparison::GreaterThan);
            }
            assert(s@ != seq!['<'] && s@ != seq!['>']);
            return None;
        } else if n == 2 {
            let a = s.get_char(0);
            let b = s.get_char(1);
            if b == '=' {
                if a == '=' {
                    assert(s@ =~= seq!['=', '=']);
                    return Some(NumericComparison::Equal);
                } else if a == '!' {
                    assert(s@ =~= seq!['!', '=']);
                    return Some(NumericComparison::NotEqual);
                } else if a == '<' {
                    assert(s@ =~= seq!['<', '=']);
                    return Some(NumericComparison::LessThanEqual);
                } else if a == '>' {
                    assert(s@ =~= seq!['>', '=']);
                    return Some(NumericComparison::GreaterThanEqual);
                }
            }
            assert(s@[0] == a && s@[1] == b);
            return None;
        }
        None
    }
}

/// A numeric comparison where either side may be absent: equality compares
/// the optional values, ordering against an absent side is false.
pub open spec fn numeric_holds(c: NumericComparison, lhs: Option<i64>, rhs: Option<i64>) -> bool {
    match (lhs, rhs) {
        (Some(a), Some(b)) => match c {
            NumericComparison::Equal => a == b,
            NumericComparison::NotEqual => a != b,
            NumericComparison::LessThan => a < b,
            NumericComparison::LessThanEqual => a <= b,
            NumericComparison::GreaterThan => a > b,
            NumericComparison::GreaterThanEqual => a >= b,
        },
        (None, None) => c == NumericComparison::Equal,
        _ => c == NumericComparison::NotEqual,
    }
}

pub open spec fn general_holds<T>(c: GeneralComparison, lhs: Option<T>, rhs: Option<T>) -> bool {
    match c {
        GeneralComparison::Equal => lhs == rhs,
        GeneralComparison::NotEqual => lhs != rhs,
    }
}

pub open spec fn opt_float(s: StateView, p: FloatParam) -> Option<i64> {
    if s.floats.contains_key(p) { Some(s.floats[p]) } else { None }
}

pub open spec fn opt_bool(s: StateView, p: BoolParam) -> Option<bool> {
    if s.bools.contains_key(p) { Some(s.bools[p]) } else { None }
}

pub open spec fn opt_string(s: StateView, p: StringParam) -> Option<Seq<char>> {
    if s.strings.contains_key(p@) { Some(s.strings[p@]) } else { None }
}

pub open spec fn opt_view(v: Option<String>) -> Option<Seq<char>> {
    match v {
        Some(x) => Some(x@),
        None => None,
    }
}

/// Whether some condition of the list holds.
pub open spec fn any_holds(cs: Seq<Condition>, s: StateView) -> bool
    decreases cs,
{
    if cs.len() == 0 {
        false
    } else {
        cs[0].holds(s) || any_holds(cs.subrange(1, cs.len() as int), s)
    }
}

/// Whether every condition of the list holds.
pub open spec fn all_hold(cs: Seq<Condition>, s: StateView) -> bool
    decreases cs,
{
    if cs.len() == 0 {
        true
    } else {
        cs[0].holds(s) && all_hold(cs.subrange(1, cs.len() as int), s)
    }
}

impl Condition {
    /// Whether the condition holds of the state. `invert` negates the
    /// aggregate result of `Any` and `All`.
    pub open spec fn holds(&self, s: StateView) -> bool
        decreases self,
    {
        match self {
            Condition::Any { any, invert } => any_holds(any@, s) != *invert,
            Condition::All { all, invert } => all_hold(all@, s) != *invert,
            Condition::NumericComparison { parameter, comparison, value } => numeric_holds(
                *comparison,
                opt_float(s, *parameter),
                *value,
            ),
            Condition::BoolComparison { parameter, comparison, value } => general_holds(
                *comparison,
                opt_bool(s, *parameter),
                *value,
            ),
            Condition::StringComparison { parameter, comparison, value } => general_holds(
                *comparison,
                opt_string(s, *parameter),
                opt_view(*value),
            ),
        }
    }

    /// Evaluates the condition against the state, depth first, stopping as
    /// soon as the aggregate result is known.
    #[verifier::loop_isolation(false)]
    pub fn matches(&self, state: &State) -> (r: bool)
        ensures
            r == self.holds(state@),
        decreases self,
    {
        match self {
            Condition::Any { any, invert } => {
                let mut i: usize = 0;
                assert(any@.subrange(0, any@.len() as int) =~= any@);
                while i < any.len()
                    invariant
                        i <= any@.len(),
                        any_holds(any@, state@) == any_holds(
                            any@.subrange(i as int, any@.len() as int),
                            state@,
                        ),
                    decreases any@.len() - i,
                {
                    let ghost rest = any@.subrange(i as int, any@.len() as int);
                    proof {
                        assert(decreases_to!(*self => self->any));
                        assert(decreases_to!(self->any => any@));
                        assert(decreases_to!(any@ => any@[i as int]));
                        assert(rest[0] == any@[i as int]);
                        assert(rest.subrange(1, rest.len() as int) =~= any@.subrange(
                            i + 1,
                            any@.len() as int,
                        ));
                    }
                    if any[i].matches(state) {
                        return !*invert;
                    }
                    i = i + 1;
                }
                assert(any@.subrange(i as int, any@.len() as int).len() == 0);
                *invert
            },
            Condition::All { all, invert } => {
                let mut i: usize = 0;
                assert(all@.subrange(0, all@.len() as int) =~= all@);
                while i < all.len()
                    invariant
                        i <= all@.len(),
                        all_hold(all@, state@) == all_hold(
                            all@.subrange(i as int, all@.len() as int),
                            state@,
                        ),
                    decreases all@.len() - i,
                {
                    let ghost rest = all@.subrange(i as int, all@.len() as int);
                    proof {
                        assert(decreases_to!(*self => self->all));
                        assert(decreases_to!(self->all => all@));
                        assert(decreases_to!(all@ => all@[i as int]));
                        assert(rest[0] == all@[i as int]);
                        assert(rest.subrange(1, rest.len() as int) =~= all@.subrange(
                            i + 1,
                            all@.len() as int,
                        ));
                    }
                    if !all[i].matches(state) {
                        return *invert;
                    }
                    i = i + 1;
                }
                assert(all@.subrange(i as int, all@.len() as int).len() == 0);
                !*invert
            },
            Condition::NumericComparison { parameter, comparison, value } => {
                let current = state.float(*parameter);
                match (current, value) {
                    (Some(a), Some(b)) => match comparison {
                        NumericComparison::Equal => a == *b,
                        NumericComparison::NotEqual => a != *b,
                        NumericComparison::LessThan => a < *b,
                        NumericComparison::LessThanEqual => a <= *b,
                        NumericComparison::GreaterThan => a > *b,
                        NumericComparison::GreaterThanEqual => a >= *b,
                    },
                    (None, None) => *comparison == NumericComparison::Equal,
                    _ => *comparison == NumericComparison::NotEqual,
                }
            },
            Condition::BoolComparison { parameter, comparison, value } => {
                let current = state.bool(*parameter);
                let same = match (current, value) {
                    (Some(a), Some(b)) => a == *b,
                    (None, None) => true,
                    _ => false,
                };
                match comparison {
                    GeneralComparison::Equal => same,
                    GeneralComparison::NotEqual => !same,
                }
            },
            Condition::StringComparison { parameter, comparison, value } => {
                let current = state.string(parameter);
                let same = match (current, value) {
                    (Some(a), Some(b)) => a.eq(b),
                    (None, None) => true,
                    _ => false,
                };
                match comparison {
                    GeneralComparison::Equal => same,
                    GeneralComparison::NotEqual => !same,
                }
            },
        }
    }
}

/// An `Any` with a single child and `invert` set is the negation of that
/// child, on every state.
pub proof fn lemma_inverted_any_negates(c: Condition, v: Vec<Condition>, s: StateView)
    requires
        v@ == seq![c],
    ensures
        (Condition::Any { any: v, invert: true }).holds(s) == !c.holds(s),
{
    assert(v@.subrange(1, 1).len() == 0);
    assert(!any_holds(v@.subrange(1, 1), s));
    assert(any_holds(v@, s) == c.holds(s));
}

} // verus!

