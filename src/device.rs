use vstd::prelude::*;

use crate::controls::{normalized_of, ContinuousLayer, Control, KeyLayer, KeyState, LayerControl};
use crate::midi::{decode, midi_input_of, MidiInput};
use crate::ControlMessage;

verus! {

/// One addressable layer of a device: the control and layer names with the
/// hardware description and its last-sent state.
#[derive(Debug)]
pub struct DeviceLayer {
    pub control: String,
    pub layer: String,
    pub hardware: LayerControl,
}

/// A device as configured: its port name and its controls.
#[derive(Clone, Debug)]
pub struct DeviceConfig {
    pub port: String,
    pub controls: Vec<Control>,
}

/// A loaded device: whether its input and output ports are open, and every
/// layer of every control.
#[derive(Debug)]
pub struct Device {
    pub id: String,
    pub connected: bool,
    pub output: bool,
    pub layers: Vec<DeviceLayer>,
}

/// Whether a hardware layer answers to a decoded message.
pub open spec fn answers(hw: LayerControl, input: MidiInput) -> bool {
    match (hw, input) {
        (LayerControl::Continuous(l), MidiInput::ControlChange { channel, control, value }) => l.channel
            == channel && l.control == control,
        (LayerControl::Key(l), MidiInput::NoteOn { channel, key, velocity }) => l.channel == channel
            && l.note == key,
        (LayerControl::Key(l), MidiInput::NoteOff { channel, key, velocity }) => l.channel == channel
            && l.note == key,
        _ => false,
    }
}

/// `i` is the first layer of `s` that answers to `input`.
pub open spec fn first_answering(s: Seq<DeviceLayer>, input: MidiInput, i: int) -> bool {
    &&& 0 <= i < s.len()
    &&& answers(s[i].hardware, input)
    &&& forall|j: int| 0 <= j < i ==> !answers(#[trigger] s[j].hardware, input)
}

/// `m` is the event that `input` on layer `dl` of device `device_id` stands
/// for: a continuous change carries the reported raw value and the
/// normalized value it stands for, a note on or off the key state.
pub open spec fn is_event_of(m: ControlMessage, device_id: Seq<char>, dl: DeviceLayer, input: MidiInput) -> bool {
    match (m, input, dl.hardware) {
        (
            ControlMessage::ContinuousChange { device_id: d, control, layer, value, raw: r },
            MidiInput::ControlChange { value: raw, .. },
            LayerControl::Continuous(l),
        ) => d@ == device_id && control@ == dl.control@ && layer@ == dl.layer@ && value
            == normalized_of(l.min as int, l.max as int, raw as int) && r == raw,
        (
            ControlMessage::KeyChange { device_id: d, control, layer, state },
            MidiInput::NoteOn { .. },
            LayerControl::Key(_),
        ) => d@ == device_id && control@ == dl.control@ && layer@ == dl.layer@ && state
            == KeyState::On,
        (
            ControlMessage::KeyChange { device_id: d, control, layer, state },
            MidiInput::NoteOff { .. },
            LayerControl::Key(_),
        ) => d@ == device_id && control@ == dl.control@ && layer@ == dl.layer@ && state
            == KeyState::Off,
        _ => false,
    }
}

pub open spec fn layers_wf(s: Seq<DeviceLayer>) -> bool {
    forall|i: int| 0 <= i < s.len() ==> (#[trigger] s[i]).hardware.wf()
}

/// `i` is the last layer of `s` with these control and layer names.
pub open spec fn last_named(s: Seq<DeviceLayer>, control: Seq<char>, layer: Seq<char>, i: int) -> bool {
    &&& 0 <= i < s.len()
    &&& s[i].control@ == control && s[i].layer@ == layer
    &&& forall|j: int| i < j < s.len() ==> !(#[trigger] s[j].control@ == control && s[j].layer@ == layer)
}

/// `i` is the first device of `s` with this id.
pub open spec fn first_with_id(s: Seq<Device>, id: Seq<char>, i: int) -> bool {
    &&& 0 <= i < s.len()
    &&& s[i].id@ == id
    &&& forall|j: int| 0 <= j < i ==> (#[trigger] s[j].id@) != id
}

impl Device {
    pub open spec fn wf(&self) -> bool {
        layers_wf(self.layers@)
    }

    /// Turns a raw message received from this device into the event it
    /// stands for: the first layer that answers to it names the control and
    /// layer. Messages that no layer answers to are ignored.
    pub fn handle_message(device_id: &String, layers: &Vec<DeviceLayer>, message: &[u8]) -> (r: Option<
        ControlMessage,
    >)
        requires
            layers_wf(layers@),
        ensures
            match r {
                None => forall|i: int|
                    0 <= i < layers@.len() ==> !answers(
                        #[trigger] layers@[i].hardware,
                        midi_input_of(message@),
                    ),
                Some(m) => exists|i: int|
                    first_answering(layers@, midi_input_of(message@), i) && is_event_of(
                        m,
                        device_id@,
                        layers@[i],
                        midi_input_of(message@),
                    ),
            },
    {
        let input = decode(message);
        let mut i: usize = 0;
        while i < layers.len()
            invariant
                i <= layers@.len(),
                layers_wf(layers@),
                input == midi_input_of(message@),
                forall|j: int| 0 <= j < i ==> !answers(#[trigger] layers@[j].hardware, input),
            decreases layers@.len() - i,
        {
            let dl = &layers[i];
            let hit = match (&dl.hardware, &input) {
                (LayerControl::Continuous(l), MidiInput::ControlChange { channel, control, .. }) => l.channel
                    == *channel && l.control == *control,
                (LayerControl::Key(l), MidiInput::NoteOn { channel, key, .. }) => l.channel
                    == *channel && l.note == *key,
                (LayerControl::Key(l), MidiInput::NoteOff { channel, key, .. }) => l.channel
                    == *channel && l.note == *key,
                _ => false,
            };
            if hit {
                assert(layers@[i as int].hardware.wf());
                let m = match (&dl.hardware, &input) {
                    (LayerControl::Continuous(l), MidiInput::ControlChange { value, .. }) => {
                        ControlMessage::ContinuousChange {
                            device_id: device_id.clone(),
                            control: dl.control.clone(),
                            layer: dl.layer.clone(),
                            value: l.value_from_state(*value),
                            raw: *value,
                        }
                    },
                    (LayerControl::Key(_), MidiInput::NoteOn { .. }) => ControlMessage::KeyChange {
                        device_id: device_id.clone(),
                        control: dl.control.clone(),
                        layer: dl.layer.clone(),
                        state: KeyState::On,
                    },
                    _ => ControlMessage::KeyChange {
                        device_id: device_id.clone(),
                        control: dl.control.clone(),
                        layer: dl.layer.clone(),
                        state: KeyState::Off,
                    },
                };
                assert(first_answering(layers@, input, i as int));
                return Some(m);
            }
            i = i + 1;
        }
        None
    }

    /// The position of the layer with these control and layer names; the
    /// last definition counts.
    pub fn find_layer(&self, control: &String, layer: &String) -> (r: Option<usize>)
        ensures
            match r {
                Some(i) => last_named(self.layers@, control@, layer@, i as int),
                None => forall|j: int|
                    0 <= j < self.layers@.len() ==> !(#[trigger] self.layers@[j].control@
                        == control@ && self.layers@[j].layer@ == layer@),
            },
    {
        let mut i = self.layers.len();
        while i > 0
            invariant
                i <= self.layers@.len(),
                forall|j: int|
                    i <= j < self.layers@.len() ==> !(#[trigger] self.layers@[j].control@
                        == control@ && self.layers@[j].layer@ == layer@),
            decreases i,
        {
            let dl = &self.layers[i - 1];
            if dl.control.eq(control) && dl.layer.eq(layer) {
                return Some(i - 1);
            }
            i = i - 1;
        }
        None
    }
}

/// The position of the first device with this id.
pub fn find_device(devices: &Vec<Device>, id: &String) -> (r: Option<usize>)
    ensures
        match r {
            Some(i) => first_with_id(devices@, id@, i as int),
            None => forall|j: int| 0 <= j < devices@.len() ==> (#[trigger] devices@[j].id@) != id@,
        },
{
    let mut i: usize = 0;
    while i < devices.len()
        invariant
            i <= devices@.len(),
            forall|j: int| 0 <= j < i ==> (#[trigger] devices@[j].id@) != id@,
        decreases devices@.len() - i,
    {
        if devices[i].id.eq(id) {
            return Some(i);
        }
        i = i + 1;
    }
    None
}

/// The hardware layer addressed by device id, control and layer name.
pub fn get_layer_control(devices: &Vec<Device>, device: &String, control: &String, layer: &String) -> (r:
    Option<LayerControl>)
    ensures
        match r {
            Some(hw) => exists|i: int, k: int|
                first_with_id(devices@, device@, i) && last_named(devices@[i].layers@, control@, layer@, k)
                    && hw == devices@[i].layers@[k].hardware,
            None => forall|i: int|
                first_with_id(devices@, device@, i) ==> forall|k: int|
                    0 <= k < devices@[i].layers@.len() ==> !(
                    #[trigger] devices@[i].layers@[k].control@ == control@
                        && devices@[i].layers@[k].layer@ == layer@),
        },
{
    match find_device(devices, device) {
        Some(i) => match devices[i].find_layer(control, layer) {
            Some(k) => Some(devices[i].layers[k].hardware),
            None => None,
        },
        None => None,
    }
}

impl Control {
    pub open spec fn wf(&self) -> bool {
        match self {
            Control::Continuous(c) => forall|k: int| 0 <= k < c.layers@.len() ==> (#[trigger] c.layers@[k]).1.wf(),
            Control::Key(c) => forall|k: int| 0 <= k < c.layers@.len() ==> (#[trigger] c.layers@[k]).1.wf(),
        }
    }
}

/// A layer as plain values: control name, layer name and hardware.
pub open spec fn layer_view(dl: DeviceLayer) -> (Seq<char>, Seq<char>, LayerControl) {
    (dl.control@, dl.layer@, dl.hardware)
}

pub open spec fn layers_view(ls: Seq<DeviceLayer>) -> Seq<(Seq<char>, Seq<char>, LayerControl)> {
    ls.map_values(|dl: DeviceLayer| layer_view(dl))
}

/// The layers of one control, in order.
pub open spec fn control_layers(c: Control) -> Seq<(Seq<char>, Seq<char>, LayerControl)> {
    match c {
        Control::Continuous(cc) => cc.layers@.map_values(
            |e: (String, ContinuousLayer)| (cc.name@, e.0@, LayerControl::Continuous(e.1)),
        ),
        Control::Key(kc) => kc.layers@.map_values(
            |e: (String, KeyLayer)| (kc.name@, e.0@, LayerControl::Key(e.1)),
        ),
    }
}

/// The layers of all controls, control by control.
pub open spec fn all_layers(cs: Seq<Control>) -> Seq<(Seq<char>, Seq<char>, LayerControl)>
    decreases cs.len(),
{
    if cs.len() == 0 {
        seq![]
    } else {
        all_layers(cs.drop_last()) + control_layers(cs.last())
    }
}

impl Device {
    /// A device with the layers of every configured control, control by
    /// control; `connected` and `output` say which ports could be opened.
    pub fn new(id: String, config: &DeviceConfig, connected: bool, output: bool) -> (r: Device)
        requires
            forall|i: int| 0 <= i < config.controls@.len() ==> (#[trigger] config.controls@[i]).wf(),
        ensures
            r.wf(),
            r.id == id,
            r.connected == connected,
            r.output == output,
            layers_view(r.layers@) == all_layers(config.controls@),
    {
        let ghost cs = config.controls@;
        let mut layers: Vec<DeviceLayer> = Vec::new();
        let mut i: usize = 0;
        while i < config.controls.len()
            invariant
                i <= cs.len(),
                cs == config.controls@,
                forall|j: int| 0 <= j < cs.len() ==> (#[trigger] cs[j]).wf(),
                layers_wf(layers@),
                layers_view(layers@) == all_layers(cs.take(i as int)),
            decreases cs.len() - i,
        {
            assert(cs.take(i + 1).drop_last() =~= cs.take(i as int));
            assert(cs[i as int].wf());
            let ghost start = layers_view(layers@);
            match &config.controls[i] {
                Control::Continuous(cc) => {
                    let ghost ls = cc.layers@;
                    let mut k: usize = 0;
                    while k < cc.layers.len()
                        invariant
                            k <= ls.len(),
                            ls == cc.layers@,
                            forall|j: int| 0 <= j < ls.len() ==> (#[trigger] ls[j]).1.wf(),
                            layers_wf(layers@),
                            layers_view(layers@) == start + control_layers(config.controls@[i as int]).take(k as int),
                            config.controls@[i as int] == Control::Continuous(*cc),
                        decreases ls.len() - k,
                    {
                        let dl = DeviceLayer {
                            control: cc.name.clone(),
                            layer: cc.layers[k].0.clone(),
                            hardware: LayerControl::Continuous(cc.layers[k].1),
                        };
                        let ghost before = layers@;
                        layers.push(dl);
                        assert(layers_view(layers@) =~= layers_view(before).push(layer_view(dl)));
                        assert(control_layers(config.controls@[i as int]).take(k + 1) =~= control_layers(
                            config.controls@[i as int],
                        ).take(k as int).push(layer_view(dl)));
                        assert(ls[k as int].1.wf());
                        k = k + 1;
                    }
                    assert(control_layers(config.controls@[i as int]).take(ls.len() as int) =~= control_layers(
                        config.controls@[i as int],
                    ));
                },
                Control::Key(kc) => {
                    let ghost ls = kc.layers@;
                    let mut k: usize = 0;
                    while k < kc.layers.len()
                        invariant
                            k <= ls.len(),
                            ls == kc.layers@,
                            forall|j: int| 0 <= j < ls.len() ==> (#[trigger] ls[j]).1.wf(),
                            layers_wf(layers@),
                            layers_view(layers@) == start + control_layers(config.controls@[i as int]).take(k as int),
                            config.controls@[i as int] == Control::Key(*kc),
                        decreases ls.len() - k,
                    {
                        let dl = DeviceLayer {
                            control: kc.name.clone(),
                            layer: kc.layers[k].0.clone(),
                            hardware: LayerControl::Key(kc.layers[k].1),
                        };
                        let ghost before = layers@;
                        layers.push(dl);
                        assert(layers_view(layers@) =~= layers_view(before).push(layer_view(dl)));
                        assert(control_layers(config.controls@[i as int]).take(k + 1) =~= control_layers(
                            config.controls@[i as int],
                        ).take(k as int).push(layer_view(dl)));
                        assert(ls[k as int].1.wf());
                        k = k + 1;
                    }
                    assert(control_layers(config.controls@[i as int]).take(ls.len() as int) =~= control_layers(
                        config.controls@[i as int],
                    ));
                },
            }
            i = i + 1;
        }
        assert(cs.take(cs.len() as int) =~= cs);
        Device { id, connected, output, layers }
    }
}

} // verus!
