use vstd::prelude::*;

use crate::assoc::{lemma_absent, lemma_last_entry, map_of};
use crate::midi::{
    control_change_bytes, control_change_message, note_off_bytes, note_off_message, note_on_bytes,
    note_on_message,
};
use crate::UNIT;

verus! {

/// The normalized value that a raw hardware value in `[min, max]` stands for,
/// rounded down; raw values outside the range are clamped.
pub open spec fn normalized_of(min: int, max: int, raw: int) -> int {
    if raw <= min {
        0
    } else if raw >= max {
        UNIT as int
    } else {
        (raw - min) * UNIT / (max - min)
    }
}

/// The raw hardware value nearest to a normalized value, clamped to
/// `[min, max]`.
pub open spec fn raw_of(min: int, max: int, v: int) -> int {
    if v >= UNIT {
        max
    } else if v <= 0 {
        min
    } else {
        (v * (max - min) + UNIT / 2) / (UNIT as int) + min
    }
}

/// A continuous (rotary or slider) layer of a control: where it listens and
/// what range of raw values it takes, with the value last written to it.
#[derive(Clone, Copy, Debug, PartialEq, Eq, Structural)]
pub struct ContinuousLayer {
    pub channel: u8,
    pub control: u8,
    pub min: u8,
    pub max: u8,
    pub state: u8,
}

proof fn lemma_rounded_in_range(v: int, r: int)
    requires
        0 < v < UNIT,
        0 <= r <= 255,
    ensures
        0 <= (v * r + UNIT / 2) / (UNIT as int) <= r,
{
    assert(v * r <= 999_999 * r) by (nonlinear_arith)
        requires
            v <= 999_999,
            r >= 0,
    ;
    assert(v * r >= 0) by (nonlinear_arith)
        requires
            v >= 0,
            r >= 0,
    ;
}

impl ContinuousLayer {
    pub open spec fn wf(&self) -> bool {
        self.channel < 16 && self.min <= self.max
    }

    /// A layer on a channel in `0..16` with raw range `[min, max]`; none when
    /// the channel or the range is malformed. Nothing has been written yet,
    /// which counts as the raw value 0.
    pub fn new(channel: u8, control: u8, min: u8, max: u8) -> (r: Option<ContinuousLayer>)
        ensures
            match r {
                Some(l) => channel < 16 && min <= max && l.wf() && l.channel == channel
                    && l.control == control && l.min == min && l.max == max && l.state == 0,
                None => !(channel < 16 && min <= max),
            },
    {
        if channel < 16 && min <= max {
            Some(ContinuousLayer { channel, control, min, max, state: 0 })
        } else {
            None
        }
    }

    /// The normalized value of a raw hardware value.
    pub fn value_from_state(&self, state: u8) -> (r: i64)
        requires
            self.wf(),
        ensures
            r == normalized_of(self.min as int, self.max as int, state as int),
            0 <= r <= UNIT,
    {
        if state <= self.min {
            0
        } else if state >= self.max {
            UNIT
        } else {
            let range = (self.max - self.min) as i64;
            let k = (state - self.min) as i64;
            assert(k * UNIT <= 255 * UNIT);
            proof {
                let n = (k * UNIT) as int;
                let q = n / (range as int);
                vstd::arithmetic::div_mod::lemma_fundamental_div_mod(n, range as int);
                assert(0 <= q < UNIT) by (nonlinear_arith)
                    requires
                        n == (range as int) * q + n % (range as int),
                        0 <= n % (range as int) < range,
                        n == k * 1_000_000,
                        0 < k < range,
                ;
            }
            k * UNIT / range
        }
    }

    /// The raw hardware value for a normalized value: the range is mapped
    /// linearly, rounded to nearest and clamped at the bounds.
    pub fn state_from_value(&self, value: i64) -> (r: u8)
        requires
            self.wf(),
        ensures
            r == raw_of(self.min as int, self.max as int, value as int),
            self.min <= r <= self.max,
    {
        if value >= UNIT {
            self.max
        } else if value <= 0 {
            self.min
        } else {
            let range = (self.max - self.min) as i64;
            proof {
                lemma_rounded_in_range(value as int, range as int);
            }
            assert(value * range <= 999_999 * 255) by (nonlinear_arith)
                requires
                    0 < value < 1_000_000,
                    0 <= range <= 255,
            ;
            let q = (value * range + UNIT / 2) / UNIT;
            q as u8 + self.min
        }
    }

    /// Records the raw value that the hardware now shows.
    pub fn set_value(&mut self, state: u8)
        ensures
            *final(self) == (ContinuousLayer { state, ..*old(self) }),
    {
        self.state = state;
    }

    /// The message that brings the hardware to `state`, unless it already
    /// shows it and `force` is not set. The layer remembers what was sent.
    pub fn update(&mut self, state: u8, force: bool) -> (r: Option<Vec<u8>>)
        requires
            old(self).wf(),
        ensures
            if force || old(self).state != state {
                &&& *final(self) == (ContinuousLayer { state, ..*old(self) })
                &&& r matches Some(m) && m@ == control_change_message(
                    old(self).channel,
                    old(self).control,
                    state,
                )
            } else {
                *final(self) == *old(self) && r is None
            },
    {
        if !force && self.state == state {
            return None;
        }
        let message = control_change_bytes(self.channel, self.control, state);
        self.state = state;
        Some(message)
    }
}

/// A normalized value sent to the hardware and read back lands within one
/// raw step of where it started: the error times the raw range is at most
/// `UNIT`.
pub proof fn lemma_value_round_trip(min: int, max: int, v: int)
    requires
        0 <= min < max <= 255,
        0 <= v <= UNIT,
    ensures
        min <= raw_of(min, max, v) <= max,
        (normalized_of(min, max, raw_of(min, max, v)) - v) * (max - min) <= UNIT,
        (v - normalized_of(min, max, raw_of(min, max, v))) * (max - min) <= UNIT,
{
    let r = max - min;
    if v == 0 {
        assert(raw_of(min, max, v) == min);
    } else if v == UNIT {
        assert(raw_of(min, max, v) == max);
    } else {
        lemma_rounded_in_range(v, r);
        let n = v * r + UNIT / 2;
        let k = n / (UNIT as int);
        assert(k * UNIT <= n < k * UNIT + UNIT);
        assert(raw_of(min, max, v) == k + min);
        if k == 0 {
            assert(v * r < UNIT / 2);
            assert((0 - v) * r <= UNIT) by (nonlinear_arith)
                requires
                    v > 0,
                    r > 0,
            ;
            assert((v - 0) * r <= UNIT);
        } else if k == r {
            assert(normalized_of(min, max, k + min) == UNIT);
            assert((UNIT - v) * r == UNIT * r - v * r) by (nonlinear_arith);
            assert((v - UNIT) * r <= 0) by (nonlinear_arith)
                requires
                    v < UNIT,
                    r > 0,
            ;
            assert((UNIT - v) * r <= UNIT);
        } else {
            let w = (k * UNIT) / r;
            assert(normalized_of(min, max, k + min) == w);
            vstd::arithmetic::div_mod::lemma_fundamental_div_mod(k * UNIT, r);
            let m = (k * UNIT) % r;
            assert(k * UNIT == r * w + m && 0 <= m < r);
            assert((w - v) * r == r * w - v * r) by (nonlinear_arith);
            assert((v - w) * r == v * r - r * w) by (nonlinear_arith);
            assert((w - v) * r <= UNIT);
            assert((v - w) * r <= UNIT);
        }
    }
}

/// A raw hardware value read as normalized and sent back is the same raw
/// value.
pub proof fn lemma_state_round_trip(min: int, max: int, raw: int)
    requires
        0 <= min < max <= 255,
        min <= raw <= max,
    ensures
        0 <= normalized_of(min, max, raw) <= UNIT,
        raw_of(min, max, normalized_of(min, max, raw)) == raw,
{
    let r = max - min;
    let k = raw - min;
    if raw == min {
    } else if raw == max {
    } else {
        let v = (k * UNIT) / r;
        vstd::arithmetic::div_mod::lemma_fundamental_div_mod(k * UNIT, r);
        let m = (k * UNIT) % r;
        assert(k * UNIT == r * v + m && 0 <= m < r);
        assert(0 < v < UNIT) by (nonlinear_arith)
            requires
                k * UNIT == r * v + m,
                0 <= m < r,
                0 < k < r,
                r <= 255,
        ;
        assert(v * r == r * v) by (nonlinear_arith);
        let n = v * r + UNIT / 2;
        assert(k * UNIT < n < k * UNIT + UNIT);
        assert(n / (UNIT as int) == k);
    }
}

/// The wire channel (`0..16`) of a channel numbered `1..=16` in
/// configuration; none for any other number.
pub fn channel_from_config(v: u64) -> (r: Option<u8>)
    ensures
        match r {
            Some(c) => 1 <= v <= 16 && c == v - 1,
            None => !(1 <= v <= 16),
        },
{
    if 1 <= v && v <= 16 {
        Some((v - 1) as u8)
    } else {
        None
    }
}

/// The on/off state of a key layer.
#[derive(Clone, Copy, Debug, PartialEq, Eq, Structural)]
pub enum KeyState {
    Off,
    On,
}

impl From<bool> for KeyState {
    fn from(val: bool) -> (r: KeyState) {
        if val {
            KeyState::On
        } else {
            KeyState::Off
        }
    }
}

impl vstd::std_specs::convert::FromSpecImpl<bool> for KeyState {
    open spec fn obeys_from_spec() -> bool {
        true
    }

    open spec fn from_spec(v: bool) -> KeyState {
        if v {
            KeyState::On
        } else {
            KeyState::Off
        }
    }
}

impl Default for KeyState {
    fn default() -> (r: KeyState)
        ensures
            r == KeyState::Off,
    {
        KeyState::Off
    }
}

/// A discrete (button or key) layer: the note it plays and the velocities
/// that light it on or off, with the state last written to it.
#[derive(Clone, Copy, Debug, PartialEq, Eq, Structural)]
pub struct KeyLayer {
    pub channel: u8,
    pub note: u8,
    pub off: u8,
    pub on: u8,
    pub state: KeyState,
}

impl KeyLayer {
    pub open spec fn wf(&self) -> bool {
        self.channel < 16
    }

    /// A key layer on a channel in `0..16`, none otherwise; it starts off.
    pub fn new(channel: u8, note: u8, off: u8, on: u8) -> (r: Option<KeyLayer>)
        ensures
            match r {
                Some(l) => channel < 16 && l.wf() && l.channel == channel && l.note == note
                    && l.off == off && l.on == on && l.state == KeyState::Off,
                None => channel >= 16,
            },
    {
        if channel < 16 {
            Some(KeyLayer { channel, note, off, on, state: KeyState::Off })
        } else {
            None
        }
    }

    /// Records the state that the hardware now shows.
    pub fn set_value(&mut self, state: KeyState)
        ensures
            *final(self) == (KeyLayer { state, ..*old(self) }),
    {
        self.state = state;
    }

    /// The message that brings the hardware to `state`, unless it already
    /// shows it and `force` is not set. The layer remembers what was sent.
    pub fn update(&mut self, state: KeyState, force: bool) -> (r: Option<Vec<u8>>)
        requires
            old(self).wf(),
        ensures
            if force || old(self).state != state {
                &&& *final(self) == (KeyLayer { state, ..*old(self) })
                &&& r matches Some(m) && m@ == key_message(*old(self), state)
            } else {
                *final(self) == *old(self) && r is None
            },
    {
        if !force && self.state == state {
            return None;
        }
        let message = match state {
            KeyState::On => note_on_bytes(self.channel, self.note, self.on),
            KeyState::Off => note_off_bytes(self.channel, self.note, self.off),
        };
        self.state = state;
        Some(message)
    }
}

/// The message that shows `state` on a key layer.
pub open spec fn key_message(l: KeyLayer, state: KeyState) -> Seq<u8> {
    match state {
        KeyState::On => note_on_message(l.channel, l.note, l.on),
        KeyState::Off => note_off_message(l.channel, l.note, l.off),
    }
}

/// A continuous control with its named layers.
#[derive(Clone, Debug)]
pub struct ContinuousControl {
    pub name: String,
    pub layers: Vec<(String, ContinuousLayer)>,
}

/// A key control with its named layers.
#[derive(Clone, Debug)]
pub struct KeyControl {
    pub name: String,
    pub display: bool,
    pub layers: Vec<(String, KeyLayer)>,
}

/// A physical control of a device.
#[derive(Clone, Debug)]
pub enum Control {
    Continuous(ContinuousControl),
    Key(KeyControl),
}

/// One layer of a control, of either kind.
#[derive(Clone, Copy, Debug, PartialEq, Eq, Structural)]
pub enum LayerControl {
    Continuous(ContinuousLayer),
    Key(KeyLayer),
}

impl LayerControl {
    pub open spec fn wf(&self) -> bool {
        match self {
            LayerControl::Continuous(l) => l.wf(),
            LayerControl::Key(l) => l.wf(),
        }
    }
}

pub open spec fn named<V>(s: Seq<(String, V)>) -> Seq<(Seq<char>, V)> {
    s.map_values(|e: (String, V)| (e.0@, e.1))
}

/// The position of the entry named `name` that counts: the last one.
pub fn find_named<V>(v: &Vec<(String, V)>, name: &String) -> (r: Option<usize>)
    ensures
        match r {
            Some(i) => i < v@.len() && v@[i as int].0@ == name@ && map_of(named(v@)).contains_key(
                name@,
            ) && map_of(named(v@))[name@] == v@[i as int].1,
            None => !map_of(named(v@)).contains_key(name@),
        },
{
    let ghost e = named(v@);
    let mut i = v.len();
    while i > 0
        invariant
            i <= v@.len(),
            e == named(v@),
            forall|l: int| i <= l < e.len() ==> e[l].0 != name@,
        decreases i,
    {
        if v[i - 1].0.eq(name) {
            proof {
                lemma_last_entry(e, i - 1);
            }
            return Some(i - 1);
        }
        i = i - 1;
    }
    proof {
        lemma_absent(e, name@);
    }
    None
}

impl Control {
    pub open spec fn spec_name(&self) -> Seq<char> {
        match self {
            Control::Continuous(c) => c.name@,
            Control::Key(c) => c.name@,
        }
    }

    /// The layer of this control with the given name.
    pub open spec fn spec_layer(&self, name: Seq<char>) -> Option<LayerControl> {
        match self {
            Control::Continuous(c) => if map_of(named(c.layers@)).contains_key(name) {
                Some(LayerControl::Continuous(map_of(named(c.layers@))[name]))
            } else {
                None
            },
            Control::Key(c) => if map_of(named(c.layers@)).contains_key(name) {
                Some(LayerControl::Key(map_of(named(c.layers@))[name]))
            } else {
                None
            },
        }
    }

    pub fn name(&self) -> (r: &String)
        ensures
            r@ == self.spec_name(),
    {
        match self {
            Control::Continuous(control) => &control.name,
            Control::Key(control) => &control.name,
        }
    }

    pub fn layer(&self, layer: &String) -> (r: Option<LayerControl>)
        ensures
            r == self.spec_layer(layer@),
    {
        match self {
            Control::Continuous(control) => match find_named(&control.layers, layer) {
                Some(i) => Some(LayerControl::Continuous(control.layers[i].1)),
                None => None,
            },
            Control::Key(control) => match find_named(&control.layers, layer) {
                Some(i) => Some(LayerControl::Key(control.layers[i].1)),
                None => None,
            },
        }
    }
}

} // verus!
