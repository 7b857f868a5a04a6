use vstd::prelude::*;

use crate::assoc::{lemma_absent, lemma_last_entry, lemma_push, lemma_without_key, map_of, without_key};
use crate::params::{BoolParam, FloatParam, Param, StringKey, StringParam};

verus! {

/// A value as exchanged with the remote application. Numbers are kept in
/// millionths (see `UNIT`).
#[derive(PartialEq, Eq, Debug)]
pub enum Value {
    String(String),
    Float(i64),
    Boolean(bool),
}

impl Clone for Value {
    fn clone(&self) -> (r: Self)
        ensures
            r == *self,
    {
        match self {
            Value::String(s) => Value::String(s.clone()),
            Value::Float(f) => Value::Float(*f),
            Value::Boolean(b) => Value::Boolean(*b),
        }
    }
}

/// One entry of a batch update: a parameter with its new value, or `None`
/// to retract it.
#[derive(PartialEq, Eq, Debug)]
#[allow(inconsistent_fields)]
pub enum StateValue {
    Float { parameter: FloatParam, value: Option<i64> },
    String { parameter: StringParam, value: Option<String> },
    Bool { parameter: BoolParam, value: Option<bool> },
}

/// The current value of every known parameter; an absent parameter is unknown.
#[derive(Debug)]
pub struct State {
    floats: Vec<(FloatParam, i64)>,
    bools: Vec<(BoolParam, bool)>,
    strings: Vec<(StringParam, String)>,
}

/// The batch entry for a parameter and a value of the remote application;
/// none when the value's type is not the parameter's.
pub open spec fn typed_entry(param: Param, value: Option<Value>) -> Option<StateValue> {
    match (param, value) {
        (Param::Float(p), None) => Some(StateValue::Float { parameter: p, value: None }),
        (Param::Float(p), Some(Value::Float(x))) => Some(StateValue::Float { parameter: p, value: Some(x) }),
        (Param::Bool(p), None) => Some(StateValue::Bool { parameter: p, value: None }),
        (Param::Bool(p), Some(Value::Boolean(x))) => Some(StateValue::Bool { parameter: p, value: Some(x) }),
        (Param::String(p), None) => Some(StateValue::String { parameter: p, value: None }),
        (Param::String(p), Some(Value::String(x))) => Some(StateValue::String { parameter: p, value: Some(x) }),
        _ => None,
    }
}

impl StateValue {
    /// Types a value pushed by the remote application by the parameter it
    /// is for; a value of another type is refused.
    pub fn typed(param: Param, value: Option<Value>) -> (r: Option<StateValue>)
        ensures
            r == typed_entry(param, value),
    {
        match (param, value) {
            (Param::Float(p), None) => Some(StateValue::Float { parameter: p, value: None }),
            (Param::Float(p), Some(Value::Float(x))) => Some(StateValue::Float { parameter: p, value: Some(x) }),
            (Param::Bool(p), None) => Some(StateValue::Bool { parameter: p, value: None }),
            (Param::Bool(p), Some(Value::Boolean(x))) => Some(StateValue::Bool { parameter: p, value: Some(x) }),
            (Param::String(p), None) => Some(StateValue::String { parameter: p, value: None }),
            (Param::String(p), Some(Value::String(x))) => Some(StateValue::String { parameter: p, value: Some(x) }),
            _ => None,
        }
    }
}

/// The three typed maps that a `State` stands for.
pub struct StateView {
    pub floats: Map<FloatParam, i64>,
    pub bools: Map<BoolParam, bool>,
    pub strings: Map<StringKey, Seq<char>>,
}

pub open spec fn string_entries(s: Seq<(StringParam, String)>) -> Seq<(StringKey, Seq<char>)> {
    s.map_values(|e: (StringParam, String)| (e.0@, e.1@))
}

impl View for State {
    type V = StateView;

    closed spec fn view(&self) -> StateView {
        StateView {
            floats: map_of(self.floats@),
            bools: map_of(self.bools@),
            strings: map_of(string_entries(self.strings@)),
        }
    }
}

pub open spec fn empty_view() -> StateView {
    StateView { floats: Map::empty(), bools: Map::empty(), strings: Map::empty() }
}

/// The effect of one batch entry on the maps.
pub open spec fn apply_value(v: StateView, sv: StateValue) -> StateView {
    match sv {
        StateValue::Float { parameter, value } => StateView {
            floats: match value {
                Some(x) => v.floats.insert(parameter, x),
                None => v.floats.remove(parameter),
            },
            ..v
        },
        StateValue::Bool { parameter, value } => StateView {
            bools: match value {
                Some(x) => v.bools.insert(parameter, x),
                None => v.bools.remove(parameter),
            },
            ..v
        },
        StateValue::String { parameter, value } => StateView {
            strings: match value {
                Some(x) => v.strings.insert(parameter@, x@),
                None => v.strings.remove(parameter@),
            },
            ..v
        },
    }
}

/// The effect of a whole batch, applied in order.
pub open spec fn apply_values(v: StateView, values: Seq<StateValue>) -> StateView
    decreases values.len(),
{
    if values.len() == 0 {
        v
    } else {
        apply_value(apply_values(v, values.drop_last()), values.last())
    }
}

impl State {
    pub fn new() -> (r: State)
        ensures
            r@ == empty_view(),
    {
        State { floats: Vec::new(), bools: Vec::new(), strings: Vec::new() }
    }

    /// Forgets every value.
    pub fn clear(&mut self)
        ensures
            final(self)@ == empty_view(),
    {
        self.floats = Vec::new();
        self.bools = Vec::new();
        self.strings = Vec::new();
    }

    pub fn float(&self, p: FloatParam) -> (r: Option<i64>)
        ensures
            r == (if self@.floats.contains_key(p) { Some(self@.floats[p]) } else { None::<i64> }),
    {
        let mut i = self.floats.len();
        while i > 0
            invariant
                i <= self.floats@.len(),
                forall|l: int| i <= l < self.floats@.len() ==> self.floats@[l].0 != p,
            decreases i,
        {
            if self.floats[i - 1].0 == p {
                proof {
                    lemma_last_entry(self.floats@, i - 1);
                }
                return Some(self.floats[i - 1].1);
            }
            i = i - 1;
        }
        proof {
            lemma_absent(self.floats@, p);
        }
        None
    }

    pub fn bool(&self, p: BoolParam) -> (r: Option<bool>)
        ensures
            r == (if self@.bools.contains_key(p) { Some(self@.bools[p]) } else { None::<bool> }),
    {
        let mut i = self.bools.len();
        while i > 0
            invariant
                i <= self.bools@.len(),
                forall|l: int| i <= l < self.bools@.len() ==> self.bools@[l].0 != p,
            decreases i,
        {
            if self.bools[i - 1].0 == p {
                proof {
                    lemma_last_entry(self.bools@, i - 1);
                }
                return Some(self.bools[i - 1].1);
            }
            i = i - 1;
        }
        proof {
            lemma_absent(self.bools@, p);
        }
        None
    }

    pub fn string(&self, p: &StringParam) -> (r: Option<&String>)
        ensures
            match r {
                Some(s) => self@.strings.contains_key(p@) && self@.strings[p@] == s@,
                None => !self@.strings.contains_key(p@),
            },
    {
        let ghost e = string_entries(self.strings@);
        let mut i = self.strings.len();
        while i > 0
            invariant
                i <= self.strings@.len(),
                e == string_entries(self.strings@),
                forall|l: int| i <= l < e.len() ==> e[l].0 != p@,
            decreases i,
        {
            if self.strings[i - 1].0.same(p) {
                proof {
                    lemma_last_entry(e, i - 1);
                }
                return Some(&self.strings[i - 1].1);
            }
            i = i - 1;
        }
        proof {
            lemma_absent(e, p@);
        }
        None
    }

    pub fn set_float(&mut self, p: FloatParam, value: Option<i64>)
        ensures
            final(self)@ == apply_value(old(self)@, StateValue::Float { parameter: p, value }),
    {
        let ghost s = self.floats@;
        let mut kept: Vec<(FloatParam, i64)> = Vec::new();
        let mut i: usize = 0;
        while i < self.floats.len()
            invariant
                i <= s.len(),
                self.floats@ == s,
                kept@ == without_key(s.take(i as int), p),
            decreases s.len() - i,
        {
            assert(s.take(i + 1).drop_last() =~= s.take(i as int));
            if self.floats[i].0 != p {
                kept.push(self.floats[i]);
            }
            i = i + 1;
        }
        assert(s.take(s.len() as int) =~= s);
        proof {
            lemma_without_key(s, p);
        }
        if let Some(x) = value {
            proof {
                lemma_push(kept@, (p, x));
                assert(map_of(s).remove(p).insert(p, x) =~= map_of(s).insert(p, x));
            }
            kept.push((p, x));
        }
        self.floats = kept;
    }

    pub fn set_bool(&mut self, p: BoolParam, value: Option<bool>)
        ensures
            final(self)@ == apply_value(old(self)@, StateValue::Bool { parameter: p, value }),
    {
        let ghost s = self.bools@;
        let mut kept: Vec<(BoolParam, bool)> = Vec::new();
        let mut i: usize = 0;
        while i < self.bools.len()
            invariant
                i <= s.len(),
                self.bools@ == s,
                kept@ == without_key(s.take(i as int), p),
            decreases s.len() - i,
        {
            assert(s.take(i + 1).drop_last() =~= s.take(i as int));
            if self.bools[i].0 != p {
                kept.push(self.bools[i]);
            }
            i = i + 1;
        }
        assert(s.take(s.len() as int) =~= s);
        proof {
            lemma_without_key(s, p);
        }
        if let Some(x) = value {
            proof {
                lemma_push(kept@, (p, x));
                assert(map_of(s).remove(p).insert(p, x) =~= map_of(s).insert(p, x));
            }
            kept.push((p, x));
        }
        self.bools = kept;
    }

    pub fn set_string(&mut self, p: StringParam, value: Option<String>)
        ensures
            final(self)@ == apply_value(old(self)@, StateValue::String { parameter: p, value }),
    {
        let ghost s = self.strings@;
        let ghost e = string_entries(s);
        let mut kept: Vec<(StringParam, String)> = Vec::new();
        let mut i: usize = 0;
        while i < self.strings.len()
            invariant
                i <= s.len(),
                self.strings@ == s,
                e == string_entries(s),
                string_entries(kept@) == without_key(e.take(i as int), p@),
            decreases s.len() - i,
        {
            assert(e.take(i + 1).drop_last() =~= e.take(i as int));
            if !self.strings[i].0.same(&p) {
                let entry = (self.strings[i].0.clone(), self.strings[i].1.clone());
                let ghost before = kept@;
                kept.push(entry);
                assert(string_entries(kept@) =~= string_entries(before).push(e[i as int]));
            }
            i = i + 1;
        }
        assert(e.take(s.len() as int) =~= e);
        proof {
            lemma_without_key(e, p@);
        }
        if let Some(x) = value {
            let ghost before = kept@;
            let ghost k = p@;
            let ghost xv = x@;
            kept.push((p, x));
            proof {
                assert(string_entries(kept@) =~= string_entries(before).push((k, xv)));
                lemma_push(string_entries(before), (k, xv));
                assert(map_of(e).remove(k).insert(k, xv) =~= map_of(e).insert(k, xv));
            }
        }
        self.strings = kept;
    }

    /// An independent copy of the state.
    pub fn copy(&self) -> (r: State)
        ensures
            r@ == self@,
    {
        let mut floats: Vec<(FloatParam, i64)> = Vec::new();
        let mut bools: Vec<(BoolParam, bool)> = Vec::new();
        let mut strings: Vec<(StringParam, String)> = Vec::new();
        let mut i: usize = 0;
        while i < self.floats.len()
            invariant
                i <= self.floats@.len(),
                floats@ == self.floats@.take(i as int),
            decreases self.floats@.len() - i,
        {
            assert(self.floats@.take(i + 1) =~= self.floats@.take(i as int).push(self.floats@[i as int]));
            floats.push(self.floats[i]);
            i = i + 1;
        }
        i = 0;
        while i < self.bools.len()
            invariant
                i <= self.bools@.len(),
                bools@ == self.bools@.take(i as int),
            decreases self.bools@.len() - i,
        {
            assert(self.bools@.take(i + 1) =~= self.bools@.take(i as int).push(self.bools@[i as int]));
            bools.push(self.bools[i]);
            i = i + 1;
        }
        i = 0;
        while i < self.strings.len()
            invariant
                i <= self.strings@.len(),
                strings@ == self.strings@.take(i as int),
            decreases self.strings@.len() - i,
        {
            assert(self.strings@.take(i + 1) =~= self.strings@.take(i as int).push(self.strings@[i as int]));
            strings.push((self.strings[i].0.clone(), self.strings[i].1.clone()));
            i = i + 1;
        }
        assert(self.floats@.take(self.floats@.len() as int) =~= self.floats@);
        assert(self.bools@.take(self.bools@.len() as int) =~= self.bools@);
        assert(self.strings@.take(self.strings@.len() as int) =~= self.strings@);
        State { floats, bools, strings }
    }

    /// Applies one batch entry.
    pub fn apply(&mut self, value: &StateValue)
        ensures
            final(self)@ == apply_value(old(self)@, *value),
    {
        match value {
            StateValue::Float { parameter, value } => self.set_float(*parameter, *value),
            StateValue::Bool { parameter, value } => self.set_bool(*parameter, *value),
            StateValue::String { parameter, value } => {
                let v = match value {
                    Some(s) => Some(s.clone()),
                    None => None,
                };
                self.set_string(parameter.clone(), v);
            },
        }
    }

    /// Applies a batch of updates in order.
    pub fn update(&mut self, values: &Vec<StateValue>)
        ensures
            final(self)@ == apply_values(old(self)@, values@),
    {
        let ghost start = self@;
        let mut i: usize = 0;
        while i < values.len()
            invariant
                i <= values@.len(),
                self@ == apply_values(start, values@.take(i as int)),
            decreases values@.len() - i,
        {
            assert(values@.take(i + 1).drop_last() =~= values@.take(i as int));
            self.apply(&values[i]);
            i = i + 1;
        }
        assert(values@.take(values@.len() as int) =~= values@);
    }
}

} // verus!
