use midi_ctrl::action::{Action, LightroomAction, OutgoingMessage};
use midi_ctrl::choice::{Choice, Choices};
use midi_ctrl::condition::{Condition, GeneralComparison, NumericComparison};
use midi_ctrl::controller::{Controller, Effect};
use midi_ctrl::controls::{
    ContinuousControl, ContinuousLayer, Control, KeyControl, KeyLayer, KeyState, LayerControl,
};
use midi_ctrl::device::{get_layer_control, Device, DeviceConfig};
use midi_ctrl::params::{BoolParam, FloatParam, Param, StringParam};
use midi_ctrl::profile::{
    ContinuousAction, ContinuousProfile, ContinuousSource, ControlLayerInfo, ControlProfile, KeyAction,
    KeyProfile, KeySource, Profile, ProfileConfig, ProfileError,
};
use midi_ctrl::registry::Profiles;
use midi_ctrl::state::{State, StateValue, Value};
use midi_ctrl::ControlMessage;

fn s(x: &str) -> String {
    x.to_string()
}

fn pad_config() -> DeviceConfig {
    DeviceConfig {
        port: s("Pad MIDI 1"),
        controls: vec![
            Control::Continuous(ContinuousControl {
                name: s("fader1"),
                layers: vec![(s("main"), ContinuousLayer::new(0, 7, 0, 127).unwrap())],
            }),
            Control::Key(KeyControl {
                name: s("button1"),
                display: false,
                layers: vec![(s("main"), KeyLayer::new(0, 36, 0, 127).unwrap())],
            }),
        ],
    }
}

fn pad() -> Device {
    Device::new(s("pad"), &pad_config(), true, true)
}

fn info(device: &str, control: &str, layer: &str) -> ControlLayerInfo {
    ControlLayerInfo { device_id: s(device), control: s(control), layer: s(layer) }
}

fn fader_binding(p: FloatParam) -> ControlProfile {
    ControlProfile::Continuous(ContinuousProfile {
        info: info("pad", "fader1", "main"),
        on_change: Choices::Single(Choice::Simple(ContinuousAction::Parameter(p))),
        value_source: None,
    })
}

fn profile(id: &str, when: Option<Condition>, enter: Vec<Action>, leave: Vec<Action>) -> Profile {
    let devices = vec![pad()];
    ProfileConfig { name: None, when, enter, leave, controls: vec![fader_binding(FloatParam::Brightness)] }
        .into_profile(s(id), &devices)
        .unwrap()
}

fn bool_is(p: BoolParam, v: bool) -> Condition {
    Condition::BoolComparison { parameter: p, comparison: GeneralComparison::Equal, value: Some(v) }
}

#[test]
fn end_to_end_continuous_change_sends_set_value() {
    let registry = Profiles::new(vec![profile("default", None, vec![], vec![])]);
    let (mut controller, effects) = Controller::new(vec![pad()], registry);
    assert!(effects.is_empty());
    let out = controller
        .handle(ControlMessage::ContinuousChange {
            device_id: s("pad"),
            control: s("fader1"),
            layer: s("main"),
            value: 500_000,
            raw: 64,
        })
        .unwrap();
    assert_eq!(
        out,
        vec![Effect::Send(OutgoingMessage::SetValue {
            parameter: Param::Float(FloatParam::Brightness),
            value: Value::Float(500_000),
        })]
    );
    assert_eq!(controller.state.float(FloatParam::Brightness), None);
}

#[test]
fn state_change_selecting_profile_switches_and_announces() {
    let default = profile("default", None, vec![], vec![Action::LightroomAction(LightroomAction::Undo)]);
    let studio = profile("studio", None, vec![Action::LightroomAction(LightroomAction::NextPhoto)], vec![]);
    let registry = Profiles::new(vec![studio, default]);
    let (mut controller, _) = Controller::new(vec![pad()], registry);
    assert_eq!(controller.profiles.current_profile().unwrap().id, s("default"));
    let out = controller
        .handle(ControlMessage::StateChange {
            values: vec![StateValue::String { parameter: StringParam::Profile, value: Some(s("studio")) }],
        })
        .unwrap();
    assert_eq!(out[0], Effect::Send(OutgoingMessage::Action(LightroomAction::Undo)));
    assert_eq!(out[1], Effect::Send(OutgoingMessage::Action(LightroomAction::NextPhoto)));
    assert_eq!(out[2], Effect::Send(OutgoingMessage::Notification { message: s("Changed to profile studio") }));
    assert_eq!(out.len(), 4);
    assert!(matches!(&out[3], Effect::Write(w) if w.message == vec![0x80, 36, 0]));
    assert_eq!(controller.profiles.current_profile().unwrap().id, s("studio"));
    assert_eq!(controller.state.string(&StringParam::Profile), Some(&s("studio")));
}

#[test]
fn disabled_active_profile_gives_way_to_first_enabled() {
    let gray = bool_is(BoolParam::ConvertToGrayscale, true);
    let color = bool_is(BoolParam::ConvertToGrayscale, false);
    let a = profile("b_color", Some(color), vec![], vec![Action::LightroomAction(LightroomAction::Undo)]);
    let b = profile("a_gray", Some(gray), vec![Action::LightroomAction(LightroomAction::Redo)], vec![]);
    let registry = Profiles::new(vec![a, b]);
    let (mut controller, _) = Controller::new(vec![pad()], registry);
    assert!(controller.profiles.current_profile().is_none());
    controller
        .handle(ControlMessage::StateChange {
            values: vec![StateValue::Bool { parameter: BoolParam::ConvertToGrayscale, value: Some(false) }],
        })
        .unwrap();
    assert_eq!(controller.profiles.current_profile().unwrap().id, s("b_color"));
    let out = controller
        .handle(ControlMessage::StateChange {
            values: vec![StateValue::Bool { parameter: BoolParam::ConvertToGrayscale, value: Some(true) }],
        })
        .unwrap();
    assert_eq!(out[0], Effect::Send(OutgoingMessage::Action(LightroomAction::Undo)));
    assert_eq!(out[1], Effect::Send(OutgoingMessage::Action(LightroomAction::Redo)));
    assert_eq!(out[2], Effect::Send(OutgoingMessage::Notification { message: s("Changed to profile a_gray") }));
    assert_eq!(controller.profiles.current_profile().unwrap().id, s("a_gray"));
}

#[test]
fn active_profile_stays_while_enabled() {
    let any = Condition::Any { any: vec![], invert: true };
    let registry = Profiles::new(vec![profile("b", None, vec![], vec![]), profile("a", Some(any), vec![], vec![])]);
    let mut registry = registry;
    assert_eq!(registry.current_profile().unwrap().id, s("a"));
    let state = State::new();
    registry.set_profile(&s("b"), &state).unwrap();
    let next = registry.state_update(&state);
    assert_eq!(registry.profiles[next.unwrap()].id, s("b"));
}

#[test]
fn set_profile_refuses_disabled_or_unknown() {
    let never = Condition::Any { any: vec![], invert: false };
    let mut registry = Profiles::new(vec![profile("a", None, vec![], vec![]), profile("z", Some(never), vec![], vec![])]);
    let state = State::new();
    assert_eq!(registry.set_profile(&s("z"), &state), None);
    assert_eq!(registry.set_profile(&s("missing"), &state), None);
    assert_eq!(registry.current_profile().unwrap().id, s("a"));
}

#[test]
fn later_profile_with_same_id_replaces_earlier() {
    let first = profile("p", None, vec![], vec![]);
    let mut second = profile("p", None, vec![], vec![]);
    second.name = Some(s("Second"));
    let registry = Profiles::new(vec![first, second]);
    assert_eq!(registry.profiles.len(), 1);
    assert_eq!(registry.current_profile().unwrap().name(), s("Second"));
}

#[test]
fn no_enabled_profile_means_none_active() {
    let never = Condition::All { all: vec![], invert: true };
    let registry = Profiles::new(vec![profile("x", Some(never), vec![], vec![])]);
    assert!(registry.current_profile().is_none());
}

#[test]
fn sync_twice_writes_nothing_the_second_time() {
    let registry = Profiles::new(vec![profile("default", None, vec![], vec![])]);
    let (mut controller, _) = Controller::new(vec![pad()], registry);
    let mut state = State::new();
    state.set_float(FloatParam::Brightness, Some(1_000_000));
    let p = controller.profiles.current_profile().unwrap();
    let first = p.update_devices(&mut controller.devices, &state, false);
    assert_eq!(first.len(), 1);
    assert_eq!(first[0].message, vec![0xB0, 7, 127]);
    let second = p.update_devices(&mut controller.devices, &state, false);
    assert!(second.is_empty());
}

#[test]
fn forced_refresh_writes_unchanged_values() {
    let registry = Profiles::new(vec![profile("default", None, vec![], vec![])]);
    let (mut controller, _) = Controller::new(vec![pad()], registry);
    let mut state = State::new();
    state.set_float(FloatParam::Brightness, Some(0));
    let p = controller.profiles.current_profile().unwrap();
    let forced = p.update_devices(&mut controller.devices, &state, true);
    assert_eq!(forced.len(), 2);
    assert_eq!(forced[0].message, vec![0xB0, 7, 0]);
    assert_eq!(forced[1].message, vec![0x80, 36, 0]);
    let unforced = p.update_devices(&mut controller.devices, &state, false);
    assert!(unforced.is_empty());
}

#[test]
fn device_without_output_is_left_alone() {
    let registry = Profiles::new(vec![profile("default", None, vec![], vec![])]);
    let mut devices = vec![Device::new(s("pad"), &pad_config(), true, false)];
    let state = State::new();
    let p = registry.current_profile().unwrap();
    assert!(p.update_devices(&mut devices, &state, true).is_empty());
}

#[test]
fn refresh_action_resends_everything() {
    let refresh = Action::InternalAction(midi_ctrl::action::InternalAction::RefreshController);
    let registry = Profiles::new(vec![profile("default", None, vec![refresh], vec![])]);
    let (_, effects) = Controller::new(vec![pad()], registry);
    assert_eq!(effects.len(), 1);
    assert!(matches!(&effects[0], Effect::Write(w) if w.message == vec![0x80, 36, 0]));
}

#[test]
fn unknown_control_rejects_profile() {
    let devices = vec![pad()];
    let bad = ControlProfile::Continuous(ContinuousProfile {
        info: info("pad", "fader9", "main"),
        on_change: Choices::Single(Choice::Simple(ContinuousAction::Parameter(FloatParam::Exposure))),
        value_source: None,
    });
    let config = ProfileConfig { name: None, when: None, enter: vec![], leave: vec![], controls: vec![bad] };
    assert_eq!(
        config.into_profile(s("p"), &devices).unwrap_err(),
        ProfileError::UnknownControl(info("pad", "fader9", "main"))
    );
}

#[test]
fn kind_mismatch_rejects_profile() {
    let devices = vec![pad()];
    let bad = ControlProfile::Key(KeyProfile {
        info: info("pad", "fader1", "main"),
        on_press: Choices::Single(Choice::Simple(KeyAction::Parameter(BoolParam::EnableDetail))),
        on_release: None,
        note_source: None,
    });
    let config = ProfileConfig { name: None, when: None, enter: vec![], leave: vec![], controls: vec![bad] };
    assert_eq!(
        config.into_profile(s("p"), &devices).unwrap_err(),
        ProfileError::KindMismatch(info("pad", "fader1", "main"))
    );
}

#[test]
fn key_press_and_release_resolve_independently() {
    let devices = vec![pad()];
    let key = ControlProfile::Key(KeyProfile {
        info: info("pad", "button1", "main"),
        on_press: Choices::Single(Choice::Simple(KeyAction::Sequence {
            sequence: vec![
                KeyAction::Parameter(BoolParam::EnableDetail),
                KeyAction::Toggle { toggle: BoolParam::EnableEffects },
                KeyAction::Action(Action::LightroomAction(LightroomAction::NextPhoto)),
            ],
        })),
        on_release: None,
        note_source: None,
    });
    let config = ProfileConfig { name: None, when: None, enter: vec![], leave: vec![], controls: vec![key] };
    let p = config.into_profile(s("p"), &devices).unwrap();
    let mut state = State::new();
    state.set_bool(BoolParam::EnableEffects, Some(true));
    let press = p.key_actions(&state, &s("pad"), &s("button1"), &s("main"), KeyState::On).unwrap();
    assert_eq!(
        press,
        vec![
            Action::SetBoolParameter { parameter: BoolParam::EnableDetail, value: true },
            Action::SetBoolParameter { parameter: BoolParam::EnableEffects, value: false },
            Action::LightroomAction(LightroomAction::NextPhoto),
        ]
    );
    assert_eq!(p.key_actions(&state, &s("pad"), &s("button1"), &s("main"), KeyState::Off), None);
}

#[test]
fn midi_input_becomes_events() {
    let device = pad();
    let cc = Device::handle_message(&s("pad"), &device.layers, &[0xB0, 7, 127]).unwrap();
    assert_eq!(
        cc,
        ControlMessage::ContinuousChange {
            device_id: s("pad"),
            control: s("fader1"),
            layer: s("main"),
            value: 1_000_000,
            raw: 127,
        }
    );
    let on = Device::handle_message(&s("pad"), &device.layers, &[0x90, 36, 100]).unwrap();
    assert_eq!(
        on,
        ControlMessage::KeyChange { device_id: s("pad"), control: s("button1"), layer: s("main"), state: KeyState::On }
    );
    let off = Device::handle_message(&s("pad"), &device.layers, &[0x80, 36, 0]).unwrap();
    assert!(matches!(off, ControlMessage::KeyChange { state: KeyState::Off, .. }));
    assert_eq!(Device::handle_message(&s("pad"), &device.layers, &[0xB1, 7, 1]), None);
    assert_eq!(Device::handle_message(&s("pad"), &device.layers, &[0xF0, 0x7E, 0x00]), None);
    assert_eq!(Device::handle_message(&s("pad"), &device.layers, &[0xB0, 7]), None);
}

#[test]
fn device_reset_turns_everything_off() {
    let mut device = pad();
    let writes = device.reset();
    assert_eq!(writes.len(), 2);
    assert_eq!(writes[0].message, vec![0xB0, 7, 0]);
    assert_eq!(writes[1].message, vec![0x80, 36, 0]);
    assert_eq!(writes[1].control, s("button1"));
}

#[test]
fn layer_lookup_by_names() {
    let devices = vec![pad()];
    let found = get_layer_control(&devices, &s("pad"), &s("button1"), &s("main"));
    assert!(matches!(found, Some(LayerControl::Key(k)) if k.note == 36));
    assert_eq!(get_layer_control(&devices, &s("pad"), &s("button1"), &s("shift")), None);
    assert_eq!(get_layer_control(&devices, &s("other"), &s("button1"), &s("main")), None);
}

#[test]
fn numeric_condition_in_profile_gate() {
    let bright = Condition::NumericComparison {
        parameter: FloatParam::Exposure,
        comparison: NumericComparison::GreaterThan,
        value: Some(0),
    };
    let p = profile("p", Some(bright), vec![], vec![]);
    let mut state = State::new();
    assert!(!p.is_enabled(&state));
    state.set_float(FloatParam::Exposure, Some(1));
    assert!(p.is_enabled(&state));
}

fn key_binding(on_press: KeyAction, note_source: Option<Choices<KeySource>>) -> ControlProfile {
    ControlProfile::Key(KeyProfile {
        info: info("pad", "button1", "main"),
        on_press: Choices::Single(Choice::Simple(on_press)),
        on_release: None,
        note_source,
    })
}

fn light_for(binding: ControlProfile, state: &State) -> Vec<Vec<u8>> {
    let mut devices = vec![pad()];
    let config = ProfileConfig { name: None, when: None, enter: vec![], leave: vec![], controls: vec![binding] };
    let p = config.into_profile(s("p"), &devices).unwrap();
    p.update_devices(&mut devices, state, false).into_iter().map(|w| w.message).collect()
}

#[test]
fn key_light_follows_its_source() {
    let mut state = State::new();
    state.set_bool(BoolParam::EnableDetail, Some(true));
    let toggle = || KeyAction::Toggle { toggle: BoolParam::EnableDetail };
    assert_eq!(light_for(key_binding(toggle(), None), &state), vec![vec![0x90, 36, 127]]);
    let inverted = KeySource::InvertedParameter { parameter: BoolParam::EnableDetail, invert: true };
    assert!(light_for(key_binding(toggle(), Some(Choices::Single(Choice::Simple(inverted)))), &state).is_empty());
    let constant = KeySource::Constant(true);
    assert_eq!(
        light_for(key_binding(toggle(), Some(Choices::Single(Choice::Simple(constant)))), &state),
        vec![vec![0x90, 36, 127]]
    );
    let cond = KeySource::Condition { condition: bool_is(BoolParam::EnableDetail, true), invert: false };
    assert_eq!(
        light_for(key_binding(toggle(), Some(Choices::Single(Choice::Simple(cond)))), &state),
        vec![vec![0x90, 36, 127]]
    );
    let action = KeyAction::Action(Action::LightroomAction(LightroomAction::Undo));
    assert!(light_for(key_binding(action, None), &state).is_empty());
    let unknown = KeyAction::Parameter(BoolParam::EnableEffects);
    assert!(light_for(key_binding(unknown, None), &state).is_empty());
}

#[test]
fn continuous_value_source_takes_precedence() {
    let mut state = State::new();
    state.set_float(FloatParam::Brightness, Some(0));
    let binding = ControlProfile::Continuous(ContinuousProfile {
        info: info("pad", "fader1", "main"),
        on_change: Choices::Single(Choice::Simple(ContinuousAction::Parameter(FloatParam::Brightness))),
        value_source: Some(Choices::Single(Choice::Simple(ContinuousSource::Constant(500_000)))),
    });
    assert_eq!(light_for(binding, &state), vec![vec![0xB0, 7, 64]]);
}

#[test]
fn custom_string_action_sets_state_and_reselects() {
    let set_mode = Action::SetStringParameter { parameter: StringParam::Custom(s("mode")), value: s("edit") };
    let edit_only = Condition::StringComparison {
        parameter: StringParam::Custom(s("mode")),
        comparison: GeneralComparison::Equal,
        value: Some(s("edit")),
    };
    let not_edit = Condition::Any { any: vec![edit_only_copy()], invert: true };
    let a = profile("a_browse", Some(not_edit), vec![set_mode], vec![Action::LightroomAction(LightroomAction::Undo)]);
    let b = profile("b_edit", Some(edit_only), vec![Action::LightroomAction(LightroomAction::Redo)], vec![]);
    let (controller, effects) = Controller::new(vec![pad()], Profiles::new(vec![a, b]));
    assert_eq!(controller.state.string(&StringParam::Custom(s("mode"))), Some(&s("edit")));
    assert_eq!(controller.profiles.current_profile().unwrap().id, s("b_edit"));
    assert_eq!(effects[0], Effect::Send(OutgoingMessage::Action(LightroomAction::Undo)));
    assert_eq!(effects[1], Effect::Send(OutgoingMessage::Action(LightroomAction::Redo)));
    assert_eq!(effects[2], Effect::Send(OutgoingMessage::Notification { message: s("Changed to profile b_edit") }));
}

fn edit_only_copy() -> Condition {
    Condition::StringComparison {
        parameter: StringParam::Custom(s("mode")),
        comparison: GeneralComparison::Equal,
        value: Some(s("edit")),
    }
}

#[test]
fn selecting_the_active_profile_changes_nothing() {
    let registry = Profiles::new(vec![profile("default", None, vec![], vec![Action::LightroomAction(LightroomAction::Undo)])]);
    let (mut controller, _) = Controller::new(vec![pad()], registry);
    let out = controller
        .handle(ControlMessage::StateChange {
            values: vec![StateValue::String { parameter: StringParam::Profile, value: Some(s("default")) }],
        })
        .unwrap();
    assert!(out.is_empty());
    let out = controller
        .handle(ControlMessage::StateChange {
            values: vec![StateValue::String { parameter: StringParam::Profile, value: Some(s("missing")) }],
        })
        .unwrap();
    assert!(out.is_empty());
    assert_eq!(controller.profiles.current_profile().unwrap().id, s("default"));
}

#[test]
fn key_press_without_binding_resyncs_its_light() {
    let registry = Profiles::new(vec![profile("default", None, vec![], vec![])]);
    let (mut controller, _) = Controller::new(vec![pad()], registry);
    let out = controller
        .handle(ControlMessage::KeyChange {
            device_id: s("pad"),
            control: s("button1"),
            layer: s("main"),
            state: KeyState::On,
        })
        .unwrap();
    assert_eq!(out.len(), 1);
    assert!(matches!(&out[0], Effect::Write(w) if w.message == vec![0x80, 36, 0] && w.control == s("button1")));
}

#[test]
fn leave_actions_see_the_state_before_the_batch() {
    let refresh = Action::InternalAction(midi_ctrl::action::InternalAction::RefreshController);
    let gray = bool_is(BoolParam::ConvertToGrayscale, true);
    let color = bool_is(BoolParam::ConvertToGrayscale, false);
    let a = profile("b_color", Some(color), vec![], vec![refresh]);
    let b = profile("a_gray", Some(gray), vec![], vec![]);
    let (mut controller, _) = Controller::new(vec![pad()], Profiles::new(vec![a, b]));
    controller
        .handle(ControlMessage::StateChange {
            values: vec![
                StateValue::Bool { parameter: BoolParam::ConvertToGrayscale, value: Some(false) },
                StateValue::Float { parameter: FloatParam::Brightness, value: Some(0) },
            ],
        })
        .unwrap();
    let out = controller
        .handle(ControlMessage::StateChange {
            values: vec![
                StateValue::Bool { parameter: BoolParam::ConvertToGrayscale, value: Some(true) },
                StateValue::Float { parameter: FloatParam::Brightness, value: Some(1_000_000) },
            ],
        })
        .unwrap();
    assert!(matches!(&out[0], Effect::Write(w) if w.message == vec![0xB0, 7, 0]));
    assert_eq!(controller.state.float(FloatParam::Brightness), Some(1_000_000));
    assert_eq!(controller.profiles.current_profile().unwrap().id, s("a_gray"));
}

#[test]
fn reported_raw_value_is_recorded_exactly() {
    let registry = Profiles::new(vec![profile("default", None, vec![], vec![])]);
    let mut devices = vec![Device::new(s("pad"), &DeviceConfig {
        port: s("p"),
        controls: vec![Control::Continuous(ContinuousControl {
            name: s("fader1"),
            layers: vec![(s("main"), ContinuousLayer::new(0, 7, 10, 10).unwrap())],
        })],
    }, true, true)];
    let event = Device::handle_message(&s("pad"), &devices[0].layers, &[0xB0, 7, 3]).unwrap();
    assert!(matches!(event, ControlMessage::ContinuousChange { raw: 3, .. }));
    let (mut controller, _) = Controller::new(devices.drain(..).collect(), registry);
    controller.handle(event).unwrap();
    assert!(matches!(controller.devices[0].layers[0].hardware, LayerControl::Continuous(l) if l.state == 3));
}
