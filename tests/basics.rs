use midi_ctrl::action::{route, Action, InternalAction, LightroomAction, OutgoingMessage, Route};
use midi_ctrl::choice::{Choice, Choices};
use midi_ctrl::condition::{Condition, GeneralComparison, NumericComparison};
use midi_ctrl::controls::{ContinuousLayer, KeyLayer, KeyState};
use midi_ctrl::midi::{decode, MidiInput};
use midi_ctrl::params::{param_module, BoolParam, FloatParam, Module, Param, SerializedStringParam, StringParam};
use midi_ctrl::state::{State, StateValue, Value};
use midi_ctrl::UNIT;
use midi_ctrl::controls::channel_from_config;
use midi_ctrl::profile::includes_cycle;
use midi_ctrl::reconnect::{gives_up, Backoff};

fn s(x: &str) -> String {
    x.to_string()
}

fn exposure(c: NumericComparison, v: Option<i64>) -> Condition {
    Condition::NumericComparison { parameter: FloatParam::Exposure, comparison: c, value: v }
}

fn negated(c: Condition) -> Condition {
    Condition::Any { any: vec![c], invert: true }
}

#[test]
fn inverted_any_of_one_is_negation() {
    let mut state = State::new();
    state.set_float(FloatParam::Exposure, Some(5));
    let cases = vec![
        exposure(NumericComparison::Equal, Some(5)),
        exposure(NumericComparison::LessThan, Some(5)),
        exposure(NumericComparison::GreaterThanEqual, Some(9)),
        exposure(NumericComparison::NotEqual, None),
        Condition::All { all: vec![], invert: false },
    ];
    for c in cases {
        let direct = c.matches(&state);
        assert_eq!(negated(c).matches(&state), !direct);
    }
}

#[test]
fn absent_parameter_comparisons() {
    let state = State::new();
    assert!(exposure(NumericComparison::Equal, None).matches(&state));
    assert!(!exposure(NumericComparison::NotEqual, None).matches(&state));
    assert!(exposure(NumericComparison::NotEqual, Some(1)).matches(&state));
    assert!(!exposure(NumericComparison::LessThan, Some(1)).matches(&state));
    assert!(!exposure(NumericComparison::GreaterThanEqual, Some(1)).matches(&state));
    let mut set = State::new();
    set.set_float(FloatParam::Exposure, Some(3));
    assert!(!exposure(NumericComparison::Equal, None).matches(&set));
    assert!(exposure(NumericComparison::NotEqual, None).matches(&set));
    assert!(exposure(NumericComparison::LessThanEqual, Some(3)).matches(&set));
    assert!(!exposure(NumericComparison::GreaterThan, Some(3)).matches(&set));
}

#[test]
fn string_and_bool_comparisons() {
    let mut state = State::new();
    state.set_string(StringParam::Custom(s("mode")), Some(s("edit")));
    let mode = |v: Option<&str>, c| Condition::StringComparison {
        parameter: StringParam::Custom(s("mode")),
        comparison: c,
        value: v.map(s),
    };
    assert!(mode(Some("edit"), GeneralComparison::Equal).matches(&state));
    assert!(!mode(Some("view"), GeneralComparison::Equal).matches(&state));
    assert!(mode(None, GeneralComparison::NotEqual).matches(&state));
    let flag = Condition::BoolComparison {
        parameter: BoolParam::EnableDetail,
        comparison: GeneralComparison::Equal,
        value: None,
    };
    assert!(flag.matches(&state));
}

#[test]
fn all_and_any_with_invert() {
    let state = State::new();
    let t = || Condition::All { all: vec![], invert: false };
    let f = || Condition::Any { any: vec![], invert: false };
    assert!(Condition::Any { any: vec![f(), t()], invert: false }.matches(&state));
    assert!(!Condition::Any { any: vec![f(), t()], invert: true }.matches(&state));
    assert!(!Condition::All { all: vec![t(), f()], invert: false }.matches(&state));
    assert!(Condition::All { all: vec![t(), f()], invert: true }.matches(&state));
}

#[test]
fn comparison_operators_parse() {
    assert_eq!(NumericComparison::parse("<="), Some(NumericComparison::LessThanEqual));
    assert_eq!(NumericComparison::parse(">"), Some(NumericComparison::GreaterThan));
    assert_eq!(NumericComparison::parse("=<"), None);
    assert_eq!(GeneralComparison::parse("!="), Some(GeneralComparison::NotEqual));
    assert_eq!(GeneralComparison::parse("<"), None);
}

#[test]
fn first_applicable_choice_wins() {
    let state = State::new();
    let yes = || Condition::All { all: vec![], invert: false };
    let no = || Condition::Any { any: vec![], invert: false };
    let choices = Choices::Many(vec![
        Choice::Conditional { when: no(), result: 1u8 },
        Choice::Conditional { when: yes(), result: 2u8 },
        Choice::Conditional { when: yes(), result: 3u8 },
        Choice::Simple(4u8),
    ]);
    assert_eq!(choices.resolve(&state), Some(&2));
    let none: Choices<u8> = Choices::Many(vec![Choice::Conditional { when: no(), result: 1 }]);
    assert_eq!(none.resolve(&state), None);
    let empty: Choices<u8> = Choices::Many(vec![]);
    assert_eq!(empty.resolve(&state), None);
    assert_eq!(Choices::Single(Choice::Simple(7u8)).resolve(&state), Some(&7));
}

#[test]
fn batch_update_sets_and_retracts() {
    let mut state = State::new();
    state.update(&vec![
        StateValue::Float { parameter: FloatParam::Tint, value: Some(10) },
        StateValue::Bool { parameter: BoolParam::EnableToneCurve, value: Some(true) },
        StateValue::String { parameter: StringParam::WhiteBalance, value: Some(s("Auto")) },
        StateValue::Float { parameter: FloatParam::Tint, value: Some(20) },
    ]);
    assert_eq!(state.float(FloatParam::Tint), Some(20));
    assert_eq!(state.bool(BoolParam::EnableToneCurve), Some(true));
    assert_eq!(state.string(&StringParam::WhiteBalance), Some(&s("Auto")));
    state.update(&vec![StateValue::Float { parameter: FloatParam::Tint, value: None }]);
    assert_eq!(state.float(FloatParam::Tint), None);
    state.clear();
    assert_eq!(state.bool(BoolParam::EnableToneCurve), None);
    assert_eq!(state.string(&StringParam::WhiteBalance), None);
}

#[test]
fn routing_table() {
    assert_eq!(param_module(&Param::String(StringParam::Profile)), Module::Internal);
    assert_eq!(param_module(&Param::String(StringParam::Custom(s("x")))), Module::Internal);
    assert_eq!(param_module(&Param::String(StringParam::WhiteBalance)), Module::Lightroom);
    assert_eq!(param_module(&Param::Float(FloatParam::Contrast)), Module::Lightroom);
    assert_eq!(
        route(Action::SetBoolParameter { parameter: BoolParam::EnableDetail, value: true }),
        Route::Remote(OutgoingMessage::SetValue {
            parameter: Param::Bool(BoolParam::EnableDetail),
            value: Value::Boolean(true),
        })
    );
    let internal = Action::SetStringParameter { parameter: StringParam::Profile, value: s("a") };
    assert_eq!(route(internal.clone()), Route::Internal(internal));
    assert_eq!(
        route(Action::LightroomAction(LightroomAction::Redo)),
        Route::Remote(OutgoingMessage::Action(LightroomAction::Redo))
    );
    let refresh = Action::InternalAction(InternalAction::RefreshController);
    assert_eq!(route(refresh.clone()), Route::Internal(refresh));
}

#[test]
fn unknown_string_names_become_custom() {
    assert_eq!(SerializedStringParam::Custom(s("mine")).into_param(), StringParam::Custom(s("mine")));
    assert_eq!(SerializedStringParam::Param(StringParam::Profile).into_param(), StringParam::Profile);
}

#[test]
fn normalized_and_raw_values() {
    let layer = ContinuousLayer::new(0, 7, 10, 110).unwrap();
    assert_eq!(layer.value_from_state(10), 0);
    assert_eq!(layer.value_from_state(60), 500_000);
    assert_eq!(layer.value_from_state(110), UNIT);
    assert_eq!(layer.value_from_state(5), 0);
    assert_eq!(layer.value_from_state(200), UNIT);
    assert_eq!(layer.state_from_value(500_000), 60);
    assert_eq!(layer.state_from_value(-3), 10);
    assert_eq!(layer.state_from_value(2 * UNIT), 110);
    assert_eq!(layer.state_from_value(4_999), 10);
    assert_eq!(layer.state_from_value(5_000), 11);
    assert!(ContinuousLayer::new(0, 7, 20, 10).is_none());
    assert!(ContinuousLayer::new(16, 7, 0, 10).is_none());
}

#[test]
fn normalized_round_trip_within_one_step() {
    let layer = ContinuousLayer::new(0, 1, 0, 127).unwrap();
    for v in [0i64, 1, 3_937, 123_456, 500_000, 999_999, UNIT] {
        let back = layer.value_from_state(layer.state_from_value(v));
        assert!((back - v).abs() * 127 <= UNIT);
    }
    for raw in 0u8..=127 {
        assert_eq!(layer.state_from_value(layer.value_from_state(raw)), raw);
    }
}

#[test]
fn layer_updates_suppress_repeats() {
    let mut layer = ContinuousLayer::new(2, 20, 0, 127).unwrap();
    assert_eq!(layer.update(64, false), Some(vec![0xB2, 20, 64]));
    assert_eq!(layer.update(64, false), None);
    assert_eq!(layer.update(64, true), Some(vec![0xB2, 20, 64]));
    layer.set_value(3);
    assert_eq!(layer.state, 3);
    let mut key = KeyLayer::new(15, 60, 1, 100).unwrap();
    assert_eq!(key.update(KeyState::Off, false), None);
    assert_eq!(key.update(KeyState::On, false), Some(vec![0x9F, 60, 100]));
    assert_eq!(key.update(KeyState::Off, false), Some(vec![0x8F, 60, 1]));
    assert!(KeyLayer::new(16, 60, 0, 1).is_none());
}

#[test]
fn key_state_from_bool() {
    assert_eq!(KeyState::from(true), KeyState::On);
    assert_eq!(KeyState::from(false), KeyState::Off);
    assert_eq!(KeyState::default(), KeyState::Off);
}

#[test]
fn raw_messages_decode() {
    assert_eq!(decode(&[0x93, 60, 90]), MidiInput::NoteOn { channel: 3, key: 60, velocity: 90 });
    assert_eq!(decode(&[0x80, 61, 0]), MidiInput::NoteOff { channel: 0, key: 61, velocity: 0 });
    assert_eq!(decode(&[0xBA, 1, 2]), MidiInput::ControlChange { channel: 10, control: 1, value: 2 });
    assert_eq!(decode(&[0xE0, 1, 2]), MidiInput::Other);
    assert_eq!(decode(&[0x90, 1]), MidiInput::Other);
    assert_eq!(decode(&[0xF0, 0x41, 0x10, 0xF7]), MidiInput::Other);
}

#[test]
fn configured_channels_map_to_wire_channels() {
    assert_eq!(channel_from_config(1), Some(0));
    assert_eq!(channel_from_config(16), Some(15));
    assert_eq!(channel_from_config(0), None);
    assert_eq!(channel_from_config(17), None);
}

#[test]
fn include_cycles_are_detected() {
    let open = vec![s("/p/a.json"), s("/p/b.json")];
    assert!(includes_cycle(&open, &s("/p/a.json")));
    assert!(!includes_cycle(&open, &s("/p/c.json")));
    assert!(!includes_cycle(&vec![], &s("/p/a.json")));
}

#[test]
fn reconnect_backoff_schedule() {
    let mut b = Backoff::new();
    assert_eq!(b.next_delay(), 100);
    assert_eq!(b.next_delay(), 1000);
    assert_eq!(b.next_delay(), 1100);
    assert!(!gives_up(10_999));
    assert!(gives_up(11_000));
}

#[test]
fn pushed_values_are_typed_by_parameter() {
    assert_eq!(
        StateValue::typed(Param::Float(FloatParam::Tint), Some(Value::Float(3))),
        Some(StateValue::Float { parameter: FloatParam::Tint, value: Some(3) })
    );
    assert_eq!(StateValue::typed(Param::Float(FloatParam::Tint), Some(Value::Boolean(true))), None);
    assert_eq!(
        StateValue::typed(Param::String(StringParam::Custom(s("m"))), None),
        Some(StateValue::String { parameter: StringParam::Custom(s("m")), value: None })
    );
    assert_eq!(
        StateValue::typed(Param::Bool(BoolParam::EnableDetail), Some(Value::Boolean(false))),
        Some(StateValue::Bool { parameter: BoolParam::EnableDetail, value: Some(false) })
    );
}
