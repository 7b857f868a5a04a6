use vstd::prelude::*;

use crate::action::{copy_actions, Action};
use crate::choice::Choices;
use crate::condition::Condition;
use crate::controls::{KeyState, LayerControl};
use crate::device::{first_with_id, get_layer_control, last_named, Device};
use crate::params::{BoolParam, FloatParam};
use crate::state::{State, StateView};

verus! {

/// Identifies one hardware layer: device id, control name and layer name.
#[derive(PartialEq, Eq, Hash, Debug)]
pub struct ControlLayerInfo {
    pub device_id: String,
    pub control: String,
    pub layer: String,
}

impl Clone for ControlLayerInfo {
    fn clone(&self) -> (r: Self)
        ensures
            r == *self,
    {
        ControlLayerInfo {
            device_id: self.device_id.clone(),
            control: self.control.clone(),
            layer: self.layer.clone(),
        }
    }
}

impl ControlLayerInfo {
    pub open spec fn names(&self, d: Seq<char>, c: Seq<char>, l: Seq<char>) -> bool {
        self.device_id@ == d && self.control@ == c && self.layer@ == l
    }
}

/// What turning a continuous control does.
#[derive(PartialEq, Eq, Structural, Clone, Copy, Debug)]
pub enum ContinuousAction {
    /// Sets this parameter to the control's normalized value.
    Parameter(FloatParam),
}

/// What pressing or releasing a key does.
#[derive(Debug)]
pub enum KeyAction {
    /// Sets the parameter to whether the key is down.
    Parameter(BoolParam),
    /// Flips the parameter, if its value is known.
    Toggle { toggle: BoolParam },
    /// Performs a fixed action.
    Action(Action),
    /// Performs each of these in order.
    Sequence { sequence: Vec<KeyAction> },
}

/// Where a key's light takes its state from.
#[derive(Debug)]
pub enum KeySource {
    Parameter(BoolParam),
    InvertedParameter { parameter: BoolParam, invert: bool },
    Constant(bool),
    Condition { condition: Condition, invert: bool },
}

/// Where a continuous control's displayed value comes from.
#[derive(PartialEq, Eq, Structural, Clone, Copy, Debug)]
pub enum ContinuousSource {
    Parameter(FloatParam),
    Constant(i64),
}

/// The binding of a continuous layer.
#[derive(Debug)]
pub struct ContinuousProfile {
    pub info: ControlLayerInfo,
    pub on_change: Choices<ContinuousAction>,
    pub value_source: Option<Choices<ContinuousSource>>,
}

/// The binding of a key layer.
#[derive(Debug)]
pub struct KeyProfile {
    pub info: ControlLayerInfo,
    pub on_press: Choices<KeyAction>,
    pub on_release: Option<Choices<KeyAction>>,
    pub note_source: Option<Choices<KeySource>>,
}

/// The binding of one layer, of either kind.
#[derive(Debug)]
pub enum ControlProfile {
    Continuous(ContinuousProfile),
    Key(KeyProfile),
}

/// A profile as configured, before its bindings are checked against the
/// devices.
#[derive(Debug)]
pub struct ProfileConfig {
    pub name: Option<String>,
    pub when: Option<Condition>,
    pub enter: Vec<Action>,
    pub leave: Vec<Action>,
    pub controls: Vec<ControlProfile>,
}

/// A named rule set.
#[derive(Debug)]
pub struct Profile {
    pub id: String,
    pub name: Option<String>,
    pub when: Option<Condition>,
    pub enter: Vec<Action>,
    pub leave: Vec<Action>,
    pub controls: Vec<ControlProfile>,
}

/// Why a profile could not be loaded.
#[derive(PartialEq, Eq, Debug)]
pub enum ProfileError {
    /// A binding names a layer that no loaded device has.
    UnknownControl(ControlLayerInfo),
    /// A binding's kind differs from the kind of the layer it names.
    KindMismatch(ControlLayerInfo),
}

/// The actions a key action produces on a state, for a press or release.
pub open spec fn key_effects(ka: KeyAction, s: StateView, ks: KeyState) -> Seq<Action>
    decreases ka,
{
    match ka {
        KeyAction::Parameter(p) => seq![Action::SetBoolParameter { parameter: p, value: ks == KeyState::On }],
        KeyAction::Toggle { toggle } => if s.bools.contains_key(toggle) {
            seq![Action::SetBoolParameter { parameter: toggle, value: !s.bools[toggle] }]
        } else {
            seq![]
        },
        KeyAction::Action(a) => seq![a],
        KeyAction::Sequence { sequence } => sequence_effects(sequence@, s, ks),
    }
}

/// The actions of a list of key actions, concatenated in order.
pub open spec fn sequence_effects(kas: Seq<KeyAction>, s: StateView, ks: KeyState) -> Seq<Action>
    decreases kas,
{
    if kas.len() == 0 {
        seq![]
    } else {
        key_effects(kas[0], s, ks) + sequence_effects(kas.subrange(1, kas.len() as int), s, ks)
    }
}

impl ContinuousAction {
    pub fn actions(&self, _state: &State, value: i64) -> (r: Option<Vec<Action>>)
        ensures
            match self {
                ContinuousAction::Parameter(p) => r matches Some(v) && v@ == seq![
                    Action::SetFloatParameter { parameter: *p, value },
                ],
            },
    {
        match self {
            ContinuousAction::Parameter(parameter) => {
                let mut v: Vec<Action> = Vec::new();
                v.push(Action::SetFloatParameter { parameter: *parameter, value });
                Some(v)
            },
        }
    }
}

impl KeyAction {
    /// The actions this key action produces for a press or release.
    #[verifier::loop_isolation(false)]
    pub fn action(&self, state: &State, key_state: KeyState) -> (r: Vec<Action>)
        ensures
            r@ == key_effects(*self, state@, key_state),
        decreases self,
    {
        let mut actions: Vec<Action> = Vec::new();
        match self {
            KeyAction::Parameter(parameter) => {
                actions.push(
                    Action::SetBoolParameter {
                        parameter: *parameter,
                        value: key_state == KeyState::On,
                    },
                );
            },
            KeyAction::Toggle { toggle } => {
                if let Some(val) = state.bool(*toggle) {
                    actions.push(Action::SetBoolParameter { parameter: *toggle, value: !val });
                }
            },
            KeyAction::Action(action) => {
                actions.push(action.clone());
            },
            KeyAction::Sequence { sequence } => {
                let ghost all = sequence@;
                let mut i: usize = 0;
                assert(all.subrange(0, all.len() as int) =~= all);
                assert(actions@ =~= seq![]);
                while i < sequence.len()
                    invariant
                        i <= all.len(),
                        all == sequence@,
                        sequence_effects(all, state@, key_state) == actions@ + sequence_effects(
                            all.subrange(i as int, all.len() as int),
                            state@,
                            key_state,
                        ),
                    decreases all.len() - i,
                {
                    let ghost rest = all.subrange(i as int, all.len() as int);
                    proof {
                        assert(decreases_to!(all => all[i as int]));
                        assert(rest[0] == all[i as int]);
                        assert(rest.subrange(1, rest.len() as int) =~= all.subrange(
                            i + 1,
                            all.len() as int,
                        ));
                    }
                    let mut more = sequence[i].action(state, key_state);
                    let ghost before = actions@;
                    actions.append(&mut more);
                    assert(before + (key_effects(all[i as int], state@, key_state)
                        + sequence_effects(all.subrange(i + 1, all.len() as int), state@, key_state))
                        =~= actions@ + sequence_effects(all.subrange(i + 1, all.len() as int), state@, key_state));
                    i = i + 1;
                }
                assert(all.subrange(i as int, all.len() as int).len() == 0);
                assert(actions@ + seq![] =~= actions@);
            },
        }
        actions
    }
}

impl ContinuousProfile {
    /// The actions for turning the control to `value`: those of the first
    /// applicable `onChange` alternative.
    pub open spec fn spec_change_actions(&self, s: StateView, value: i64) -> Option<Seq<Action>> {
        match self.on_change.spec_resolve(s) {
            Some(ContinuousAction::Parameter(p)) => Some(
                seq![Action::SetFloatParameter { parameter: p, value }],
            ),
            None => None,
        }
    }

    pub fn change_action(&self, state: &State, value: i64) -> (r: Option<Vec<Action>>)
        ensures
            match r {
                Some(v) => self.spec_change_actions(state@, value) == Some(v@),
                None => self.spec_change_actions(state@, value) is None,
            },
    {
        match self.on_change.resolve(state) {
            Some(action) => action.actions(state, value),
            None => None,
        }
    }
}

impl KeyProfile {
    pub open spec fn spec_press_actions(&self, s: StateView) -> Option<Seq<Action>> {
        match self.on_press.spec_resolve(s) {
            Some(ka) => Some(key_effects(ka, s, KeyState::On)),
            None => None,
        }
    }

    pub open spec fn spec_release_actions(&self, s: StateView) -> Option<Seq<Action>> {
        match self.on_release {
            Some(choices) => match choices.spec_resolve(s) {
                Some(ka) => Some(key_effects(ka, s, KeyState::Off)),
                None => None,
            },
            None => None,
        }
    }

    pub fn press_actions(&self, state: &State) -> (r: Option<Vec<Action>>)
        ensures
            match r {
                Some(v) => self.spec_press_actions(state@) == Some(v@),
                None => self.spec_press_actions(state@) is None,
            },
    {
        match self.on_press.resolve(state) {
            Some(action) => Some(action.action(state, KeyState::On)),
            None => None,
        }
    }

    pub fn release_actions(&self, state: &State) -> (r: Option<Vec<Action>>)
        ensures
            match r {
                Some(v) => self.spec_release_actions(state@) == Some(v@),
                None => self.spec_release_actions(state@) is None,
            },
    {
        match &self.on_release {
            Some(choices) => match choices.resolve(state) {
                Some(action) => Some(action.action(state, KeyState::Off)),
                None => None,
            },
            None => None,
        }
    }
}

impl ControlProfile {
    pub open spec fn spec_info(&self) -> ControlLayerInfo {
        match self {
            ControlProfile::Continuous(p) => p.info,
            ControlProfile::Key(p) => p.info,
        }
    }

    pub fn info(&self) -> (r: &ControlLayerInfo)
        ensures
            *r == self.spec_info(),
    {
        match self {
            ControlProfile::Continuous(profile) => &profile.info,
            ControlProfile::Key(profile) => &profile.info,
        }
    }
}

/// The binding that counts for a layer: the last one that names it.
pub open spec fn binding_in(cs: Seq<ControlProfile>, d: Seq<char>, c: Seq<char>, l: Seq<char>) -> Option<
    ControlProfile,
>
    decreases cs.len(),
{
    if cs.len() == 0 {
        None
    } else if cs.last().spec_info().names(d, c, l) {
        Some(cs.last())
    } else {
        binding_in(cs.drop_last(), d, c, l)
    }
}

/// The hardware layer that device id, control and layer name address, if any.
pub open spec fn layer_at(devices: Seq<Device>, d: Seq<char>, c: Seq<char>, l: Seq<char>) -> Option<
    LayerControl,
> {
    if exists|i: int, k: int| first_with_id(devices, d, i) && last_named(devices[i].layers@, c, l, k) {
        let (i, k) = choose|i: int, k: int|
            first_with_id(devices, d, i) && last_named(devices[i].layers@, c, l, k);
        Some(devices[i].layers@[k].hardware)
    } else {
        None
    }
}

/// Whether a binding names an existing layer of its own kind.
pub open spec fn fits(devices: Seq<Device>, cp: ControlProfile) -> bool {
    let info = cp.spec_info();
    match (cp, layer_at(devices, info.device_id@, info.control@, info.layer@)) {
        (ControlProfile::Continuous(_), Some(LayerControl::Continuous(_))) => true,
        (ControlProfile::Key(_), Some(LayerControl::Key(_))) => true,
        _ => false,
    }
}

/// The error reported for a binding that does not fit.
pub open spec fn misfit_error(devices: Seq<Device>, cp: ControlProfile) -> ProfileError {
    let info = cp.spec_info();
    match layer_at(devices, info.device_id@, info.control@, info.layer@) {
        Some(_) => ProfileError::KindMismatch(info),
        None => ProfileError::UnknownControl(info),
    }
}

/// Looks up the layer that `info` names.
fn layer_for(devices: &Vec<Device>, info: &ControlLayerInfo) -> (r: Option<LayerControl>)
    ensures
        r == layer_at(devices@, info.device_id@, info.control@, info.layer@),
{
    let r = get_layer_control(devices, &info.device_id, &info.control, &info.layer);
    let ghost (d, c, l) = (info.device_id@, info.control@, info.layer@);
    proof {
        if exists|i: int, k: int| first_with_id(devices@, d, i) && last_named(devices@[i].layers@, c, l, k) {
            let (i, k) = choose|i: int, k: int|
                first_with_id(devices@, d, i) && last_named(devices@[i].layers@, c, l, k);
            if let Some(hw) = r {
                let (i2, k2) = choose|i2: int, k2: int|
                    first_with_id(devices@, d, i2) && last_named(devices@[i2].layers@, c, l, k2)
                        && hw == devices@[i2].layers@[k2].hardware;
                assert(i == i2) by {
                    if i < i2 {
                        assert(devices@[i].id@ == d);
                    } else if i2 < i {
                        assert(devices@[i2].id@ == d);
                    }
                }
                assert(k == k2) by {
                    if k < k2 {
                        assert(devices@[i].layers@[k2].control@ == c);
                    } else if k2 < k {
                        assert(devices@[i].layers@[k].control@ == c);
                    }
                }
            } else {
                assert(devices@[i].layers@[k].control@ == c && devices@[i].layers@[k].layer@ == l);
            }
        }
    }
    r
}

impl ProfileConfig {
    /// Checks every binding against the loaded devices and builds the
    /// profile; the first binding that names a missing layer, or a layer of
    /// the other kind, rejects the whole profile.
    pub fn into_profile(self, id: String, devices: &Vec<Device>) -> (r: Result<Profile, ProfileError>)
        ensures
            match r {
                Ok(p) => {
                    &&& forall|k: int|
                        0 <= k < self.controls@.len() ==> fits(devices@, #[trigger] self.controls@[k])
                    &&& p == (Profile {
                        id,
                        name: self.name,
                        when: self.when,
                        enter: self.enter,
                        leave: self.leave,
                        controls: self.controls,
                    })
                },
                Err(e) => exists|k: int|
                    0 <= k < self.controls@.len() && !fits(devices@, self.controls@[k]) && (forall|
                        j: int,
                    |
                        0 <= j < k ==> fits(devices@, #[trigger] self.controls@[j])) && e
                        == misfit_error(devices@, self.controls@[k]),
            },
    {
        let mut i: usize = 0;
        while i < self.controls.len()
            invariant
                i <= self.controls@.len(),
                forall|j: int| 0 <= j < i ==> fits(devices@, #[trigger] self.controls@[j]),
            decreases self.controls@.len() - i,
        {
            let cp = &self.controls[i];
            let info = cp.info();
            let layer = layer_for(devices, info);
            let ok = match (cp, &layer) {
                (ControlProfile::Continuous(_), Some(LayerControl::Continuous(_))) => true,
                (ControlProfile::Key(_), Some(LayerControl::Key(_))) => true,
                _ => false,
            };
            if !ok {
                let e = match layer {
                    Some(_) => ProfileError::KindMismatch(info.clone()),
                    None => ProfileError::UnknownControl(info.clone()),
                };
                return Err(e);
            }
            i = i + 1;
        }
        Ok(
            Profile {
                id,
                name: self.name,
                when: self.when,
                enter: self.enter,
                leave: self.leave,
                controls: self.controls,
            },
        )
    }
}

impl Profile {
    pub open spec fn spec_is_enabled(&self, s: StateView) -> bool {
        match self.when {
            Some(c) => c.holds(s),
            None => true,
        }
    }

    pub open spec fn binding(&self, d: Seq<char>, c: Seq<char>, l: Seq<char>) -> Option<ControlProfile> {
        binding_in(self.controls@, d, c, l)
    }

    /// The display name: the configured name, else the identifier.
    pub fn name(&self) -> (r: String)
        ensures
            r@ == match self.name {
                Some(n) => n@,
                None => self.id@,
            },
    {
        match &self.name {
            Some(name) => name.clone(),
            None => self.id.clone(),
        }
    }

    /// Whether the profile may be active: its `when` condition holds, or it
    /// has none.
    pub fn is_enabled(&self, state: &State) -> (r: bool)
        ensures
            r == self.spec_is_enabled(state@),
    {
        match &self.when {
            Some(condition) => condition.matches(state),
            None => true,
        }
    }

    /// The actions fired when the profile becomes active.
    pub fn enter_actions(&self) -> (r: Vec<Action>)
        ensures
            r@ == self.enter@,
    {
        copy_actions(&self.enter)
    }

    /// The actions fired when the profile stops being active.
    pub fn leave_actions(&self) -> (r: Vec<Action>)
        ensures
            r@ == self.leave@,
    {
        copy_actions(&self.leave)
    }

    /// The binding of a layer in this profile; the last definition counts.
    pub fn get_control_profile(&self, device_id: &String, control: &String, layer: &String) -> (r: Option<
        &ControlProfile,
    >)
        ensures
            match r {
                Some(cp) => self.binding(device_id@, control@, layer@) == Some(*cp),
                None => self.binding(device_id@, control@, layer@) is None,
            },
    {
        let ghost cs = self.controls@;
        let mut i = self.controls.len();
        assert(cs.take(cs.len() as int) =~= cs);
        while i > 0
            invariant
                i <= cs.len(),
                cs == self.controls@,
                binding_in(cs, device_id@, control@, layer@) == binding_in(
                    cs.take(i as int),
                    device_id@,
                    control@,
                    layer@,
                ),
            decreases i,
        {
            assert(cs.take(i as int).drop_last() =~= cs.take(i - 1));
            let info = self.controls[i - 1].info();
            if info.device_id.eq(device_id) && info.control.eq(control) && info.layer.eq(layer) {
                return Some(&self.controls[i - 1]);
            }
            i = i - 1;
        }
        None
    }

    pub open spec fn spec_continuous_actions(
        &self,
        s: StateView,
        d: Seq<char>,
        c: Seq<char>,
        l: Seq<char>,
        value: i64,
    ) -> Option<Seq<Action>> {
        match self.binding(d, c, l) {
            Some(ControlProfile::Continuous(cp)) => cp.spec_change_actions(s, value),
            _ => None,
        }
    }

    pub open spec fn spec_key_actions(
        &self,
        s: StateView,
        d: Seq<char>,
        c: Seq<char>,
        l: Seq<char>,
        ks: KeyState,
    ) -> Option<Seq<Action>> {
        match self.binding(d, c, l) {
            Some(ControlProfile::Key(kp)) => match ks {
                KeyState::On => kp.spec_press_actions(s),
                KeyState::Off => kp.spec_release_actions(s),
            },
            _ => None,
        }
    }

    /// The actions for a continuous layer moving to `value`; none when the
    /// layer is unbound, bound as a key, or no alternative applies.
    pub fn continuous_actions(
        &self,
        state: &State,
        device_id: &String,
        control: &String,
        layer: &String,
        value: i64,
    ) -> (r: Option<Vec<Action>>)
        ensures
            match r {
                Some(v) => self.spec_continuous_actions(state@, device_id@, control@, layer@, value)
                    == Some(v@),
                None => self.spec_continuous_actions(
                    state@,
                    device_id@,
                    control@,
                    layer@,
                    value,
                ) is None,
            },
    {
        match self.get_control_profile(device_id, control, layer) {
            Some(ControlProfile::Continuous(cp)) => cp.change_action(state, value),
            _ => None,
        }
    }

    /// The actions for a key layer being pressed or released; press and
    /// release resolve independently and may give nothing.
    pub fn key_actions(
        &self,
        state: &State,
        device_id: &String,
        control: &String,
        layer: &String,
        key_state: KeyState,
    ) -> (r: Option<Vec<Action>>)
        ensures
            match r {
                Some(v) => self.spec_key_actions(state@, device_id@, control@, layer@, key_state)
                    == Some(v@),
                None => self.spec_key_actions(
                    state@,
                    device_id@,
                    control@,
                    layer@,
                    key_state,
                ) is None,
            },
    {
        match self.get_control_profile(device_id, control, layer) {
            Some(ControlProfile::Key(kp)) => match key_state {
                KeyState::On => kp.press_actions(state),
                KeyState::Off => kp.release_actions(state),
            },
            _ => None,
        }
    }
}

/// Whether including `file` would close a cycle: it is one of the files
/// whose expansion is still in progress.
pub fn includes_cycle(open_files: &Vec<String>, file: &String) -> (r: bool)
    ensures
        r == exists|i: int| 0 <= i < open_files@.len() && (#[trigger] open_files@[i])@ == file@,
{
    let mut i: usize = 0;
    while i < open_files.len()
        invariant
            i <= open_files@.len(),
            forall|j: int| 0 <= j < i ==> (#[trigger] open_files@[j])@ != file@,
        decreases open_files@.len() - i,
    {
        if open_files[i].eq(file) {
            return true;
        }
        i = i + 1;
    }
    false
}

} // verus!
