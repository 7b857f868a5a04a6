use vstd::prelude::*;

use crate::choice::Choices;
use crate::controls::{key_message, raw_of, ContinuousLayer, KeyLayer, KeyState, LayerControl};
use crate::midi::control_change_message;
use crate::device::{Device, DeviceLayer};
use crate::profile::{
    ContinuousAction, ContinuousProfile, ContinuousSource, ControlProfile, KeyAction, KeyProfile,
    KeySource, Profile,
};
use crate::state::{State, StateView};

verus! {

/// What a layer should show: a raw value or a key state.
#[derive(PartialEq, Eq, Structural, Clone, Copy, Debug)]
pub enum LayerValue {
    Raw(u8),
    Key(KeyState),
}

/// One message for the hardware, with the layer it is for.
#[derive(PartialEq, Eq, Debug)]
pub struct HardwareWrite {
    pub device_id: String,
    pub control: String,
    pub layer: String,
    pub message: Vec<u8>,
}

/// A write as plain values: device id, control, layer and bytes.
pub open spec fn write_view(w: HardwareWrite) -> (Seq<char>, Seq<char>, Seq<char>, Seq<u8>) {
    (w.device_id@, w.control@, w.layer@, w.message@)
}

pub open spec fn writes_view(ws: Seq<HardwareWrite>) -> Seq<(Seq<char>, Seq<char>, Seq<char>, Seq<u8>)> {
    ws.map_values(|w: HardwareWrite| write_view(w))
}

/// Where a continuous layer's value comes from: the explicit value source,
/// else the parameter that its `onChange` writes.
pub open spec fn continuous_source(cp: ContinuousProfile, s: StateView) -> Option<ContinuousSource> {
    match cp.value_source {
        Some(src) => src.spec_resolve(s),
        None => match cp.on_change.spec_resolve(s) {
            Some(ContinuousAction::Parameter(p)) => Some(ContinuousSource::Parameter(p)),
            None => None,
        },
    }
}

/// The normalized value that drives a continuous layer; none when there is
/// no source or its parameter is unknown.
pub open spec fn continuous_value(cp: ContinuousProfile, s: StateView) -> Option<i64> {
    match continuous_source(cp, s) {
        Some(ContinuousSource::Constant(v)) => Some(v),
        Some(ContinuousSource::Parameter(p)) => if s.floats.contains_key(p) {
            Some(s.floats[p])
        } else {
            None
        },
        None => None,
    }
}

/// Where a key layer's light comes from: the explicit note source, else the
/// parameter that its `onPress` sets or toggles.
pub open spec fn key_source(kp: KeyProfile, s: StateView) -> Option<KeySource> {
    match kp.note_source {
        Some(src) => src.spec_resolve(s),
        None => match kp.on_press.spec_resolve(s) {
            Some(KeyAction::Parameter(p)) => Some(KeySource::Parameter(p)),
            Some(KeyAction::Toggle { toggle }) => Some(KeySource::Parameter(toggle)),
            _ => None,
        },
    }
}

/// Whether a key layer should be lit; an unknown parameter counts as off.
pub open spec fn key_value(kp: KeyProfile, s: StateView) -> Option<bool> {
    match key_source(kp, s) {
        Some(KeySource::Constant(b)) => Some(b),
        Some(KeySource::Parameter(p)) => Some(s.bools.contains_key(p) && s.bools[p]),
        Some(KeySource::InvertedParameter { parameter, invert }) => Some(
            s.bools.contains_key(parameter) && (s.bools[parameter] != invert),
        ),
        Some(KeySource::Condition { condition, invert }) => Some(condition.holds(s) != invert),
        None => None,
    }
}

pub open spec fn key_state_of(b: bool) -> KeyState {
    if b {
        KeyState::On
    } else {
        KeyState::Off
    }
}

/// What a layer should show under a profile: its binding's value, or the
/// idle state (minimum, off) when the layer is not bound with its own kind.
/// None means the layer is left as it is.
pub open spec fn target(p: Profile, s: StateView, d: Seq<char>, dl: DeviceLayer) -> Option<LayerValue> {
    match dl.hardware {
        LayerControl::Continuous(l) => match p.binding(d, dl.control@, dl.layer@) {
            Some(ControlProfile::Continuous(cp)) => match continuous_value(cp, s) {
                Some(v) => Some(LayerValue::Raw(raw_of(l.min as int, l.max as int, v as int) as u8)),
                None => None,
            },
            _ => Some(LayerValue::Raw(l.min)),
        },
        LayerControl::Key(_) => match p.binding(d, dl.control@, dl.layer@) {
            Some(ControlProfile::Key(kp)) => match key_value(kp, s) {
                Some(b) => Some(LayerValue::Key(key_state_of(b))),
                None => None,
            },
            _ => Some(LayerValue::Key(KeyState::Off)),
        },
    }
}

/// Whether the hardware was last sent this value.
pub open spec fn shows(hw: LayerControl, v: LayerValue) -> bool {
    match (hw, v) {
        (LayerControl::Continuous(l), LayerValue::Raw(x)) => l.state == x,
        (LayerControl::Key(l), LayerValue::Key(k)) => l.state == k,
        _ => false,
    }
}

/// The layer after sending it a value.
pub open spec fn written(hw: LayerControl, v: LayerValue) -> LayerControl {
    match (hw, v) {
        (LayerControl::Continuous(l), LayerValue::Raw(x)) => LayerControl::Continuous(
            ContinuousLayer { state: x, ..l },
        ),
        (LayerControl::Key(l), LayerValue::Key(k)) => LayerControl::Key(KeyLayer { state: k, ..l }),
        _ => hw,
    }
}

/// The bytes that send a value to the layer.
pub open spec fn message_for(hw: LayerControl, v: LayerValue) -> Seq<u8> {
    match (hw, v) {
        (LayerControl::Continuous(l), LayerValue::Raw(x)) => control_change_message(l.channel, l.control, x),
        (LayerControl::Key(l), LayerValue::Key(k)) => key_message(l, k),
        _ => seq![],
    }
}

/// Whether synchronizing the layer sends something: it has a target and
/// either `force` is set or the hardware does not show it yet.
pub open spec fn sends(p: Profile, s: StateView, d: Seq<char>, dl: DeviceLayer, force: bool) -> bool {
    match target(p, s, d, dl) {
        Some(v) => force || !shows(dl.hardware, v),
        None => false,
    }
}

/// The layer's hardware state after synchronizing.
pub open spec fn synced(p: Profile, s: StateView, d: Seq<char>, dl: DeviceLayer, force: bool) -> LayerControl {
    if sends(p, s, d, dl, force) {
        written(dl.hardware, target(p, s, d, dl)->0)
    } else {
        dl.hardware
    }
}

/// The writes for a device's layers, in order.
pub open spec fn layers_writes(p: Profile, s: StateView, d: Seq<char>, ls: Seq<DeviceLayer>, force: bool) -> Seq<
    (Seq<char>, Seq<char>, Seq<char>, Seq<u8>),
>
    decreases ls.len(),
{
    if ls.len() == 0 {
        seq![]
    } else {
        let dl = ls.last();
        let before = layers_writes(p, s, d, ls.drop_last(), force);
        if sends(p, s, d, dl, force) {
            before.push((d, dl.control@, dl.layer@, message_for(dl.hardware, target(p, s, d, dl)->0)))
        } else {
            before
        }
    }
}

/// The writes for all devices with an open output, in order.
pub open spec fn devices_writes(p: Profile, s: StateView, ds: Seq<Device>, force: bool) -> Seq<
    (Seq<char>, Seq<char>, Seq<char>, Seq<u8>),
>
    decreases ds.len(),
{
    if ds.len() == 0 {
        seq![]
    } else {
        let d = ds.last();
        let before = devices_writes(p, s, ds.drop_last(), force);
        if d.output {
            before + layers_writes(p, s, d.id@, d.layers@, force)
        } else {
            before
        }
    }
}

/// `after` is `before` with every layer synchronized.
pub open spec fn device_synced(p: Profile, s: StateView, before: Device, after: Device, force: bool) -> bool {
    &&& after.id == before.id
    &&& after.connected == before.connected
    &&& after.output == before.output
    &&& after.layers@.len() == before.layers@.len()
    &&& forall|k: int|
        0 <= k < before.layers@.len() ==> {
            &&& (#[trigger] after.layers@[k]).control == before.layers@[k].control
            &&& after.layers@[k].layer == before.layers@[k].layer
            &&& after.layers@[k].hardware == synced(p, s, before.id@, before.layers@[k], force)
        }
}

fn resolve_continuous_source(cp: &ContinuousProfile, state: &State) -> (r: Option<ContinuousSource>)
    ensures
        r == continuous_source(*cp, state@),
{
    match &cp.value_source {
        Some(source) => match source.resolve(state) {
            Some(src) => Some(*src),
            None => None,
        },
        None => match cp.on_change.resolve(state) {
            Some(ContinuousAction::Parameter(parameter)) => Some(ContinuousSource::Parameter(*parameter)),
            None => None,
        },
    }
}

/// Brings a bound continuous layer to the value its source gives.
pub fn perform_continuous_update(
    state: &State,
    layer: &mut ContinuousLayer,
    cp: &ContinuousProfile,
    force: bool,
) -> (r: Option<Vec<u8>>)
    requires
        old(layer).wf(),
    ensures
        match continuous_value(*cp, state@) {
            Some(v) => {
                let x = raw_of(old(layer).min as int, old(layer).max as int, v as int) as u8;
                if force || old(layer).state != x {
                    &&& *final(layer) == (ContinuousLayer { state: x, ..*old(layer) })
                    &&& r matches Some(m) && m@ == control_change_message(
                        old(layer).channel,
                        old(layer).control,
                        x,
                    )
                } else {
                    *final(layer) == *old(layer) && r is None
                }
            },
            None => *final(layer) == *old(layer) && r is None,
        },
{
    let source = resolve_continuous_source(cp, state);
    let value = match source {
        Some(ContinuousSource::Constant(value)) => value,
        Some(ContinuousSource::Parameter(parameter)) => match state.float(parameter) {
            Some(value) => value,
            None => return None,
        },
        None => return None,
    };
    let raw = layer.state_from_value(value);
    layer.update(raw, force)
}

/// Which source drives a key layer's light.
fn resolve_key_source<'a>(kp: &'a KeyProfile, state: &State) -> (r: Option<KeySourceRef<'a>>)
    ensures
        match key_source(*kp, state@) {
            Some(src) => r matches Some(x) && x.spec_source() == src,
            None => r is None,
        },
{
    match &kp.note_source {
        Some(source) => match source.resolve(state) {
            Some(src) => Some(KeySourceRef::Source(src)),
            None => None,
        },
        None => match kp.on_press.resolve(state) {
            Some(KeyAction::Parameter(parameter)) => Some(KeySourceRef::Parameter(*parameter)),
            Some(KeyAction::Toggle { toggle }) => Some(KeySourceRef::Parameter(*toggle)),
            _ => None,
        },
    }
}

/// A key source, either configured or inferred from a parameter.
pub enum KeySourceRef<'a> {
    Source(&'a KeySource),
    Parameter(crate::params::BoolParam),
}

impl<'a> KeySourceRef<'a> {
    pub open spec fn spec_source(&self) -> KeySource {
        match self {
            KeySourceRef::Source(s) => **s,
            KeySourceRef::Parameter(p) => KeySource::Parameter(*p),
        }
    }
}

/// Brings a bound key layer to the state its source gives.
pub fn perform_key_update(state: &State, layer: &mut KeyLayer, kp: &KeyProfile, force: bool) -> (r:
    Option<Vec<u8>>)
    requires
        old(layer).wf(),
    ensures
        match key_value(*kp, state@) {
            Some(b) => {
                let k = key_state_of(b);
                if force || old(layer).state != k {
                    &&& *final(layer) == (KeyLayer { state: k, ..*old(layer) })
                    &&& r matches Some(m) && m@ == key_message(*old(layer), k)
                } else {
                    *final(layer) == *old(layer) && r is None
                }
            },
            None => *final(layer) == *old(layer) && r is None,
        },
{
    let value = match resolve_key_source(kp, state) {
        Some(source) => match source {
            KeySourceRef::Parameter(parameter) => match state.bool(parameter) {
                Some(v) => v,
                None => false,
            },
            KeySourceRef::Source(KeySource::Parameter(parameter)) => match state.bool(*parameter) {
                Some(v) => v,
                None => false,
            },
            KeySourceRef::Source(KeySource::InvertedParameter { parameter, invert }) => match state.bool(
                *parameter,
            ) {
                Some(v) => v != *invert,
                None => false,
            },
            KeySourceRef::Source(KeySource::Constant(b)) => *b,
            KeySourceRef::Source(KeySource::Condition { condition, invert }) => condition.matches(state)
                != *invert,
        },
        None => return None,
    };
    let k = if value {
        KeyState::On
    } else {
        KeyState::Off
    };
    layer.update(k, force)
}

impl Profile {
    /// Synchronizes one hardware layer with this profile: bound layers take
    /// their source's value, unbound ones go idle (minimum, off). Nothing is
    /// sent when the hardware already shows the value, unless `force` is set.
    pub fn update_layer_control(
        &self,
        state: &State,
        device_id: &String,
        control: &String,
        layer: &String,
        hw: &mut LayerControl,
        force: bool,
    ) -> (r: Option<Vec<u8>>)
        requires
            old(hw).wf(),
        ensures
            ({
                let dl = DeviceLayer { control: *control, layer: *layer, hardware: *old(hw) };
                &&& *final(hw) == synced(*self, state@, device_id@, dl, force)
                &&& if sends(*self, state@, device_id@, dl, force) {
                    r matches Some(m) && m@ == message_for(
                        *old(hw),
                        target(*self, state@, device_id@, dl)->0,
                    )
                } else {
                    r is None
                }
            }),
            final(hw).wf(),
    {
        let binding = self.get_control_profile(device_id, control, layer);
        match *hw {
            LayerControl::Continuous(l) => {
                let mut l = l;
                let r = match binding {
                    Some(ControlProfile::Continuous(cp)) => perform_continuous_update(state, &mut l, cp, force),
                    _ => {
                        let min = l.min;
                        l.update(min, force)
                    },
                };
                *hw = LayerControl::Continuous(l);
                r
            },
            LayerControl::Key(l) => {
                let mut l = l;
                let r = match binding {
                    Some(ControlProfile::Key(kp)) => perform_key_update(state, &mut l, kp, force),
                    _ => l.update(KeyState::Off, force),
                };
                *hw = LayerControl::Key(l);
                r
            },
        }
    }
}

impl Device {
    /// Synchronizes every layer of this device with the profile and returns
    /// the messages to send, in layer order.
    pub fn sync(&mut self, profile: &Profile, state: &State, force: bool) -> (r: Vec<HardwareWrite>)
        requires
            old(self).wf(),
        ensures
            device_synced(*profile, state@, *old(self), *final(self), force),
            writes_view(r@) == layers_writes(*profile, state@, old(self).id@, old(self).layers@, force),
            final(self).wf(),
    {
        let ghost before = self.layers@;
        let mut writes: Vec<HardwareWrite> = Vec::new();
        let mut k: usize = 0;
        while k < self.layers.len()
            invariant
                k <= before.len(),
                self.layers@.len() == before.len(),
                self.id == old(self).id,
                self.connected == old(self).connected,
                self.output == old(self).output,
                before == old(self).layers@,
                old(self).wf(),
                forall|j: int|
                    k <= j < before.len() ==> #[trigger] self.layers@[j] == before[j],
                forall|j: int|
                    0 <= j < k ==> {
                        &&& (#[trigger] self.layers@[j]).control == before[j].control
                        &&& self.layers@[j].layer == before[j].layer
                        &&& self.layers@[j].hardware == synced(*profile, state@, self.id@, before[j], force)
                        &&& self.layers@[j].hardware.wf()
                    },
                writes_view(writes@) == layers_writes(*profile, state@, self.id@, before.take(k as int), force),
            decreases before.len() - k,
        {
            assert(before.take(k + 1).drop_last() =~= before.take(k as int));
            assert(before[k as int].hardware.wf());
            let mut hw = self.layers[k].hardware;
            let w = profile.update_layer_control(
                state,
                &self.id,
                &self.layers[k].control,
                &self.layers[k].layer,
                &mut hw,
                force,
            );
            self.layers[k].hardware = hw;
            if let Some(message) = w {
                let write = HardwareWrite {
                    device_id: self.id.clone(),
                    control: self.layers[k].control.clone(),
                    layer: self.layers[k].layer.clone(),
                    message,
                };
                let ghost old_writes = writes@;
                writes.push(write);
                assert(writes_view(writes@) =~= writes_view(old_writes).push(write_view(write)));
            }
            k = k + 1;
        }
        assert(before.take(before.len() as int) =~= before);
        writes
    }
}

impl Profile {
    /// Synchronizes every layer of every device that has an open output;
    /// devices without one are left as they are.
    pub fn update_devices(&self, devices: &mut Vec<Device>, state: &State, force: bool) -> (r: Vec<
        HardwareWrite,
    >)
        requires
            forall|i: int| 0 <= i < old(devices)@.len() ==> (#[trigger] old(devices)@[i]).wf(),
        ensures
            final(devices)@.len() == old(devices)@.len(),
            forall|i: int|
                0 <= i < old(devices)@.len() ==> if old(devices)@[i].output {
                    device_synced(*self, state@, old(devices)@[i], #[trigger] final(devices)@[i], force)
                } else {
                    final(devices)@[i] == old(devices)@[i]
                },
            forall|i: int| 0 <= i < final(devices)@.len() ==> (#[trigger] final(devices)@[i]).wf(),
            writes_view(r@) == devices_writes(*self, state@, old(devices)@, force),
    {
        let ghost before = devices@;
        let mut writes: Vec<HardwareWrite> = Vec::new();
        let mut i: usize = 0;
        while i < devices.len()
            invariant
                i <= before.len(),
                devices@.len() == before.len(),
                before == old(devices)@,
                forall|j: int| 0 <= j < before.len() ==> (#[trigger] before[j]).wf(),
                forall|j: int| i <= j < before.len() ==> #[trigger] devices@[j] == before[j],
                forall|j: int|
                    0 <= j < i ==> if before[j].output {
                        device_synced(*self, state@, before[j], #[trigger] devices@[j], force)
                    } else {
                        devices@[j] == before[j]
                    },
                forall|j: int| 0 <= j < i ==> (#[trigger] devices@[j]).wf(),
                writes_view(writes@) == devices_writes(*self, state@, before.take(i as int), force),
            decreases before.len() - i,
        {
            assert(before.take(i + 1).drop_last() =~= before.take(i as int));
            assert(before[i as int].wf());
            if devices[i].output {
                let mut more = devices[i].sync(self, state, force);
                let ghost old_writes = writes@;
                writes.append(&mut more);
                proof {
                    assert(writes_view(writes@) =~= writes_view(old_writes) + layers_writes(
                        *self,
                        state@,
                        before[i as int].id@,
                        before[i as int].layers@,
                        force,
                    ));
                }
            }
            i = i + 1;
        }
        assert(before.take(before.len() as int) =~= before);
        writes
    }
}

/// A layer that was just synchronized sends nothing on an unforced second
/// pass with the same state.
proof fn lemma_layer_settled(p: Profile, s: StateView, d: Seq<char>, dl: DeviceLayer, dl2: DeviceLayer, force: bool)
    requires
        dl2.control == dl.control,
        dl2.layer == dl.layer,
        dl2.hardware == synced(p, s, d, dl, force),
    ensures
        !sends(p, s, d, dl2, false),
{
}

proof fn lemma_layers_settled(
    p: Profile,
    s: StateView,
    d: Seq<char>,
    ls: Seq<DeviceLayer>,
    ls2: Seq<DeviceLayer>,
    force: bool,
)
    requires
        ls2.len() == ls.len(),
        forall|k: int|
            0 <= k < ls.len() ==> {
                &&& (#[trigger] ls2[k]).control == ls[k].control
                &&& ls2[k].layer == ls[k].layer
                &&& ls2[k].hardware == synced(p, s, d, ls[k], force)
            },
    ensures
        layers_writes(p, s, d, ls2, false) == Seq::<(Seq<char>, Seq<char>, Seq<char>, Seq<u8>)>::empty(),
    decreases ls.len(),
{
    if ls.len() > 0 {
        let n = ls.len() - 1;
        assert(ls2[n].control == ls[n].control);
        lemma_layer_settled(p, s, d, ls[n], ls2[n], force);
        lemma_layers_settled(p, s, d, ls.drop_last(), ls2.drop_last(), force);
    }
}

/// Idempotence: once every device has been synchronized with a profile and a
/// state (forced or not), synchronizing again with the same state and
/// without `force` writes nothing.
pub proof fn lemma_sync_idempotent(p: Profile, s: StateView, ds: Seq<Device>, ds2: Seq<Device>, force: bool)
    requires
        ds2.len() == ds.len(),
        forall|i: int|
            0 <= i < ds.len() ==> if ds[i].output {
                device_synced(p, s, ds[i], #[trigger] ds2[i], force)
            } else {
                ds2[i] == ds[i]
            },
    ensures
        devices_writes(p, s, ds2, false) == Seq::<(Seq<char>, Seq<char>, Seq<char>, Seq<u8>)>::empty(),
    decreases ds.len(),
{
    if ds.len() > 0 {
        let n = ds.len() - 1;
        let prev = ds2[n];
        if ds[n].output {
            assert(device_synced(p, s, ds[n], prev, force));
            lemma_layers_settled(p, s, ds[n].id@, ds[n].layers@, prev.layers@, force);
        } else {
            assert(prev == ds[n]);
        }
        assert forall|i: int| 0 <= i < n implies if ds.drop_last()[i].output {
            device_synced(p, s, ds.drop_last()[i], #[trigger] ds2.drop_last()[i], force)
        } else {
            ds2.drop_last()[i] == ds.drop_last()[i]
        } by {
            assert(ds.drop_last()[i] == ds[i]);
            assert(ds2.drop_last()[i] == ds2[i]);
        }
        lemma_sync_idempotent(p, s, ds.drop_last(), ds2.drop_last(), force);
        let before = devices_writes(p, s, ds2.drop_last(), false);
        if prev.output {
            assert(before + layers_writes(p, s, prev.id@, prev.layers@, false) =~= before);
        }
    }
}

/// A forced refresh writes a layer that has a value to show even when the
/// hardware already shows it, where an unforced one stays silent.
pub proof fn lemma_forced_refresh_writes(p: Profile, s: StateView, d: Seq<char>, dl: DeviceLayer, v: LayerValue)
    requires
        target(p, s, d, dl) == Some(v),
        shows(dl.hardware, v),
    ensures
        !sends(p, s, d, dl, false),
        sends(p, s, d, dl, true),
        layers_writes(p, s, d, seq![dl], true) == seq![
            (d, dl.control@, dl.layer@, message_for(dl.hardware, v)),
        ],
{
    let one = seq![dl];
    assert(one.drop_last() =~= Seq::<DeviceLayer>::empty());
    assert(one.last() == dl);
    let none = layers_writes(p, s, d, one.drop_last(), true);
    assert(none.len() == 0);
    assert(none.push((d, dl.control@, dl.layer@, message_for(dl.hardware, v))) =~= seq![
        (d, dl.control@, dl.layer@, message_for(dl.hardware, v)),
    ]);
}

proof fn lemma_forced_layer_written(p: Profile, s: StateView, d: Seq<char>, ls: Seq<DeviceLayer>, k: int)
    requires
        0 <= k < ls.len(),
        target(p, s, d, ls[k]) is Some,
    ensures
        layers_writes(p, s, d, ls, true).contains(
            (d, ls[k].control@, ls[k].layer@, message_for(ls[k].hardware, target(p, s, d, ls[k])->0)),
        ),
    decreases ls.len(),
{
    let w = (d, ls[k].control@, ls[k].layer@, message_for(ls[k].hardware, target(p, s, d, ls[k])->0));
    let before = layers_writes(p, s, d, ls.drop_last(), true);
    if k == ls.len() - 1 {
        assert(before.push(w)[before.len() as int] == w);
    } else {
        assert(ls.drop_last()[k] == ls[k]);
        lemma_forced_layer_written(p, s, d, ls.drop_last(), k);
        let j = choose|j: int| 0 <= j < before.len() && before[j] == w;
        if sends(p, s, d, ls.last(), true) {
            assert(before.push((d, ls.last().control@, ls.last().layer@, message_for(ls.last().hardware, target(p, s, d, ls.last())->0)))[j] == w);
        }
    }
}

/// A forced refresh writes every layer that has a value to show, on every
/// device with an open output, whatever the hardware was last sent.
pub proof fn lemma_forced_refresh_covers(p: Profile, s: StateView, ds: Seq<Device>, i: int, k: int)
    requires
        0 <= i < ds.len(),
        ds[i].output,
        0 <= k < ds[i].layers@.len(),
        target(p, s, ds[i].id@, ds[i].layers@[k]) is Some,
    ensures
        devices_writes(p, s, ds, true).contains(
            (
                ds[i].id@,
                ds[i].layers@[k].control@,
                ds[i].layers@[k].layer@,
                message_for(ds[i].layers@[k].hardware, target(p, s, ds[i].id@, ds[i].layers@[k])->0),
            ),
        ),
    decreases ds.len(),
{
    let dl = ds[i].layers@[k];
    let w = (ds[i].id@, dl.control@, dl.layer@, message_for(dl.hardware, target(p, s, ds[i].id@, dl)->0));
    let before = devices_writes(p, s, ds.drop_last(), true);
    if i == ds.len() - 1 {
        lemma_forced_layer_written(p, s, ds[i].id@, ds[i].layers@, k);
        let lw = layers_writes(p, s, ds[i].id@, ds[i].layers@, true);
        let j = choose|j: int| 0 <= j < lw.len() && lw[j] == w;
        assert((before + lw)[before.len() + j] == w);
    } else {
        assert(ds.drop_last()[i] == ds[i]);
        lemma_forced_refresh_covers(p, s, ds.drop_last(), i, k);
        let j = choose|j: int| 0 <= j < before.len() && before[j] == w;
        if ds.last().output {
            assert((before + layers_writes(p, s, ds.last().id@, ds.last().layers@, true))[j] == w);
        }
    }
}

/// The state a layer is put in when its device is opened: raw 0, or off.
pub open spec fn initial_value(hw: LayerControl) -> LayerValue {
    match hw {
        LayerControl::Continuous(_) => LayerValue::Raw(0),
        LayerControl::Key(_) => LayerValue::Key(KeyState::Off),
    }
}

/// The writes that put every layer of a device in its initial state.
pub open spec fn reset_writes(d: Seq<char>, ls: Seq<DeviceLayer>) -> Seq<(Seq<char>, Seq<char>, Seq<char>, Seq<u8>)> {
    ls.map_values(
        |dl: DeviceLayer| (d, dl.control@, dl.layer@, message_for(dl.hardware, initial_value(dl.hardware))),
    )
}

impl Device {
    /// Puts every layer in its initial state (raw 0, off), sending each one
    /// regardless of what was sent before.
    pub fn reset(&mut self) -> (r: Vec<HardwareWrite>)
        requires
            old(self).wf(),
        ensures
            final(self).wf(),
            final(self).id == old(self).id,
            final(self).connected == old(self).connected,
            final(self).output == old(self).output,
            final(self).layers@.len() == old(self).layers@.len(),
            forall|k: int|
                0 <= k < old(self).layers@.len() ==> {
                    &&& (#[trigger] final(self).layers@[k]).control == old(self).layers@[k].control
                    &&& final(self).layers@[k].layer == old(self).layers@[k].layer
                    &&& final(self).layers@[k].hardware == written(
                        old(self).layers@[k].hardware,
                        initial_value(old(self).layers@[k].hardware),
                    )
                },
            writes_view(r@) == reset_writes(old(self).id@, old(self).layers@),
    {
        let ghost before = self.layers@;
        let mut writes: Vec<HardwareWrite> = Vec::new();
        let mut k: usize = 0;
        while k < self.layers.len()
            invariant
                k <= before.len(),
                self.layers@.len() == before.len(),
                self.id == old(self).id,
                self.connected == old(self).connected,
                self.output == old(self).output,
                before == old(self).layers@,
                old(self).wf(),
                forall|j: int| k <= j < before.len() ==> #[trigger] self.layers@[j] == before[j],
                forall|j: int|
                    0 <= j < k ==> {
                        &&& (#[trigger] self.layers@[j]).control == before[j].control
                        &&& self.layers@[j].layer == before[j].layer
                        &&& self.layers@[j].hardware == written(before[j].hardware, initial_value(before[j].hardware))
                        &&& self.layers@[j].hardware.wf()
                    },
                writes_view(writes@) == reset_writes(self.id@, before.take(k as int)),
            decreases before.len() - k,
        {
            assert(before[k as int].hardware.wf());
            let message = match self.layers[k].hardware {
                LayerControl::Continuous(l) => {
                    let mut l = l;
                    let m = l.update(0, true);
                    self.layers[k].hardware = LayerControl::Continuous(l);
                    m
                },
                LayerControl::Key(l) => {
                    let mut l = l;
                    let m = l.update(KeyState::Off, true);
                    self.layers[k].hardware = LayerControl::Key(l);
                    m
                },
            };
            if let Some(message) = message {
                let write = HardwareWrite {
                    device_id: self.id.clone(),
                    control: self.layers[k].control.clone(),
                    layer: self.layers[k].layer.clone(),
                    message,
                };
                let ghost old_writes = writes@;
                writes.push(write);
                assert(writes_view(writes@) =~= writes_view(old_writes).push(write_view(write)));
            }
            assert(reset_writes(self.id@, before.take(k + 1)) =~= reset_writes(self.id@, before.take(k as int)).push(
                (
                    self.id@,
                    before[k as int].control@,
                    before[k as int].layer@,
                    message_for(before[k as int].hardware, initial_value(before[k as int].hardware)),
                ),
            ));
            k = k + 1;
        }
        assert(before.take(before.len() as int) =~= before);
        writes
    }
}

} // verus!
