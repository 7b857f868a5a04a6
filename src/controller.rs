use vstd::prelude::*;
use vstd::string::StringExecFns;

use crate::action::{route, route_of, Action, InternalAction, OutgoingMessage, Route};
use crate::controls::{raw_of, ContinuousLayer, KeyLayer, KeyState, LayerControl};
use crate::device::{find_device, first_with_id, last_named, Device};
use crate::params::StringParam;
use crate::profile::Profile;
use crate::registry::{as_index, is_least_enabled, lemma_switch_to_first_enabled, select, Profiles};
use crate::condition::opt_view;
use crate::state::{apply_value, empty_view, State, StateValue, StateView};
use crate::sync::{devices_writes, message_for, synced, target, write_view, writes_view, HardwareWrite};
use crate::ControlMessage;

verus! {

/// What the controller asks its surroundings to do.
#[derive(PartialEq, Eq, Debug)]
pub enum Effect {
    /// Send a message to the remote application.
    Send(OutgoingMessage),
    /// Write to a device.
    Write(HardwareWrite),
}

/// How deep actions may trigger further profile changes, whose enter and
/// leave actions may trigger more; deeper changes skip those actions.
pub const ACTION_DEPTH: u32 = 8;

/// The single owner of state, profiles and devices; it handles one event at
/// a time and reports the effects to carry out.
pub struct Controller {
    pub devices: Vec<Device>,
    pub profiles: Profiles,
    pub state: State,
}

/// The message that a remotely routed action becomes.
pub open spec fn remote_of(a: Action) -> Option<OutgoingMessage> {
    match route_of(a) {
        Route::Remote(m) => Some(m),
        Route::Internal(_) => None,
    }
}

/// Every action of the list is forwarded to the remote application.
pub open spec fn all_remote(acts: Seq<Action>) -> bool {
    forall|i: int| 0 <= i < acts.len() ==> (#[trigger] remote_of(acts[i])) is Some
}

/// The effects of a list of remotely routed actions: one message each, in
/// order.
pub open spec fn remote_effects(acts: Seq<Action>) -> Seq<Effect> {
    acts.map_values(|a: Action| Effect::Send(remote_of(a)->0))
}

/// The text announcing a profile change.
pub open spec fn change_text(p: Option<Profile>) -> Seq<char> {
    match p {
        Some(p) => "Changed to profile "@ + match p.name {
            Some(n) => n@,
            None => p.id@,
        },
        None => "Lost profile"@,
    }
}

/// The announcement of a profile change.
pub fn profile_notification(next: Option<&Profile>) -> (r: OutgoingMessage)
    ensures
        r matches OutgoingMessage::Notification { message } && message@ == change_text(
            match next {
                Some(p) => Some(*p),
                None => None,
            },
        ),
{
    match next {
        Some(p) => {
            let mut message = String::from_str("Changed to profile ");
            let name = p.name();
            message.append(name.as_str());
            OutgoingMessage::Notification { message }
        },
        None => OutgoingMessage::Notification { message: String::from_str("Lost profile") },
    }
}

/// The actions of a profile change, in the order they fire: the leave
/// actions of the previous profile, then the enter actions of the next.
pub open spec fn transition_actions(previous: Option<Profile>, next: Option<Profile>) -> Seq<Action> {
    (match previous {
        Some(p) => p.leave@,
        None => seq![],
    }) + (match next {
        Some(p) => p.enter@,
        None => seq![],
    })
}

/// `e` is the hardware write `w`.
pub open spec fn is_write_of(e: Effect, w: (Seq<char>, Seq<char>, Seq<char>, Seq<u8>)) -> bool {
    match e {
        Effect::Write(h) => write_view(h) == w,
        _ => false,
    }
}

/// `after` is `before` followed by one hardware write for each of `writes`.
pub open spec fn writes_appended(
    before: Seq<Effect>,
    after: Seq<Effect>,
    writes: Seq<(Seq<char>, Seq<char>, Seq<char>, Seq<u8>)>,
) -> bool {
    &&& after.len() == before.len() + writes.len()
    &&& after.take(before.len() as int) == before
    &&& forall|j: int|
        0 <= j < writes.len() ==> is_write_of(#[trigger] after[before.len() + j], writes[j])
}

/// A copy of a byte buffer.
fn copy_bytes(v: &Vec<u8>) -> (r: Vec<u8>)
    ensures
        r@ == v@,
{
    let mut r: Vec<u8> = Vec::new();
    let mut i: usize = 0;
    while i < v.len()
        invariant
            i <= v@.len(),
            r@ == v@.take(i as int),
        decreases v@.len() - i,
    {
        assert(v@.take(i + 1) =~= v@.take(i as int).push(v@[i as int]));
        r.push(v[i]);
        i = i + 1;
    }
    assert(v@.take(v@.len() as int) =~= v@);
    r
}

/// The profile at an optional position.
pub open spec fn profile_at(ps: Seq<Profile>, i: Option<usize>) -> Option<Profile> {
    match i {
        Some(i) => Some(ps[i as int]),
        None => None,
    }
}

/// `e` announces a profile change with this text.
pub open spec fn is_notice(e: Effect, text: Seq<char>) -> bool {
    match e {
        Effect::Send(OutgoingMessage::Notification { message }) => message@ == text,
        _ => false,
    }
}

/// After `before`, the effects of the transition's actions come first, in
/// order, then the announcement; hardware writes may follow.
pub open spec fn switch_announced(before: Seq<Effect>, after: Seq<Effect>, t: Seq<Action>, text: Seq<char>) -> bool {
    let prefix = before + remote_effects(t);
    &&& after.len() > prefix.len()
    &&& after.take(prefix.len() as int) == prefix
    &&& is_notice(after[prefix.len() as int], text)
}

/// An action that changes neither the state nor the active profile: one
/// forwarded to the remote application, or a hardware refresh.
pub open spec fn is_quiet(a: Action) -> bool {
    remote_of(a) is Some || a == Action::InternalAction(InternalAction::RefreshController)
}

pub open spec fn all_quiet(acts: Seq<Action>) -> bool {
    forall|i: int| 0 <= i < acts.len() ==> is_quiet(#[trigger] acts[i])
}

/// The messages for the remote application among some effects, in order.
pub open spec fn messages_of(es: Seq<Effect>) -> Seq<Effect>
    decreases es.len(),
{
    if es.len() == 0 {
        es
    } else if es.last() is Send {
        messages_of(es.drop_last()).push(es.last())
    } else {
        messages_of(es.drop_last())
    }
}

/// The messages that the remotely routed actions of a list become, in order.
pub open spec fn remote_sends(acts: Seq<Action>) -> Seq<Effect>
    decreases acts.len(),
{
    if acts.len() == 0 {
        seq![]
    } else {
        match remote_of(acts.last()) {
            Some(m) => remote_sends(acts.drop_last()).push(Effect::Send(m)),
            None => remote_sends(acts.drop_last()),
        }
    }
}

/// `after` is `before` with effects appended.
pub open spec fn extends(before: Seq<Effect>, after: Seq<Effect>) -> bool {
    after.len() >= before.len() && after.take(before.len() as int) == before
}

/// The effects appended to `before`.
pub open spec fn added(before: Seq<Effect>, after: Seq<Effect>) -> Seq<Effect> {
    after.subrange(before.len() as int, after.len() as int)
}

/// A profile change whose actions were carried out: among the appended
/// effects, the messages are those of the transition's actions in order
/// (the leave actions' before the enter actions'), then the announcement.
pub open spec fn switch_sent(before: Seq<Effect>, after: Seq<Effect>, t: Seq<Action>, text: Seq<char>) -> bool {
    let m = messages_of(added(before, after));
    &&& extends(before, after)
    &&& m.len() == remote_sends(t).len() + 1
    &&& m.take(remote_sends(t).len() as int) == remote_sends(t)
    &&& is_notice(m.last(), text)
}

/// The state with the active-profile entry set to the profile's id, or
/// removed.
pub open spec fn with_profile_entry(s: StateView, p: Option<Profile>) -> StateView {
    apply_value(
        s,
        StateValue::String {
            parameter: StringParam::Profile,
            value: match p {
                Some(p) => Some(p.id),
                None => None,
            },
        },
    )
}

proof fn lemma_messages_concat(a: Seq<Effect>, b: Seq<Effect>)
    ensures
        messages_of(a + b) == messages_of(a) + messages_of(b),
    decreases b.len(),
{
    if b.len() == 0 {
        assert(a + b =~= a);
        assert(messages_of(a) + messages_of(b) =~= messages_of(a));
    } else {
        lemma_messages_concat(a, b.drop_last());
        assert((a + b).drop_last() =~= a + b.drop_last());
        assert((a + b).last() == b.last());
        if b.last() is Send {
            assert(messages_of(a) + messages_of(b) =~= (messages_of(a) + messages_of(b.drop_last())).push(b.last()));
        }
    }
}

proof fn lemma_messages_of_writes(es: Seq<Effect>)
    requires
        forall|i: int| 0 <= i < es.len() ==> (#[trigger] es[i]) is Write,
    ensures
        messages_of(es) == Seq::<Effect>::empty(),
    decreases es.len(),
{
    if es.len() > 0 {
        assert(es.last() is Write);
        lemma_messages_of_writes(es.drop_last());
    }
}

/// Appending only writes keeps the messages as they were.
proof fn lemma_writes_keep_messages(before: Seq<Effect>, mid: Seq<Effect>, after: Seq<Effect>, w: Seq<(Seq<char>, Seq<char>, Seq<char>, Seq<u8>)>)
    requires
        extends(before, mid),
        writes_appended(mid, after, w),
    ensures
        extends(before, after),
        messages_of(added(before, after)) == messages_of(added(before, mid)),
{
    let tail = added(mid, after);
    assert forall|i: int| 0 <= i < tail.len() implies (#[trigger] tail[i]) is Write by {
        assert(tail[i] == after[mid.len() + i]);
        assert(is_write_of(after[mid.len() + i], w[i]));
    }
    lemma_messages_of_writes(tail);
    assert(added(before, after) =~= added(before, mid) + tail);
    lemma_messages_concat(added(before, mid), tail);
    assert(messages_of(added(before, mid)) + messages_of(tail) =~= messages_of(added(before, mid)));
    assert(after.take(before.len() as int) =~= mid.take(before.len() as int));
}

proof fn lemma_remote_sends_concat(a: Seq<Action>, b: Seq<Action>)
    ensures
        remote_sends(a + b) == remote_sends(a) + remote_sends(b),
    decreases b.len(),
{
    if b.len() == 0 {
        assert(a + b =~= a);
        assert(remote_sends(a) + remote_sends(b) =~= remote_sends(a));
    } else {
        lemma_remote_sends_concat(a, b.drop_last());
        assert((a + b).drop_last() =~= a + b.drop_last());
        assert((a + b).last() == b.last());
        if let Some(m) = remote_of(b.last()) {
            assert(remote_sends(a) + remote_sends(b) =~= (remote_sends(a) + remote_sends(b.drop_last())).push(
                Effect::Send(m),
            ));
        }
    }
}

/// The effects of a hardware refresh: every layer of every device with an
/// output is resent under the active profile; nothing else changes.
pub open spec fn refreshed(c0: Controller, o0: Seq<Effect>, c1: Controller, o1: Seq<Effect>) -> bool {
    &&& c1.state == c0.state
    &&& c1.profiles == c0.profiles
    &&& match c0.profiles.current {
        Some(c) => writes_appended(
            o0,
            o1,
            devices_writes(c0.profiles.profiles@[c as int], c0.state@, c0.devices@, true),
        ),
        None => o1 == o0 && c1.devices == c0.devices,
    }
}

/// The effects of re-evaluating the active profile on state `s`, starting
/// from `c0`'s profiles and devices: without a change, the hardware is
/// brought in line; with a change whose actions are quiet, the new profile
/// is active and recorded in the state, and the messages are the leave
/// actions', the enter actions', then the announcement.
pub open spec fn reselected(c0: Controller, s: StateView, depth: u32, o0: Seq<Effect>, c1: Controller, o1: Seq<Effect>) -> bool {
    let ps = c0.profiles.profiles@;
    let cur = c0.profiles.current;
    let sel = as_index(select(ps, cur, s));
    let t = transition_actions(profile_at(ps, cur), profile_at(ps, sel));
    &&& sel == cur ==> {
        &&& c1.state@ == s
        &&& c1.profiles == c0.profiles
        &&& match cur {
            Some(c) => writes_appended(o0, o1, devices_writes(ps[c as int], s, c0.devices@, false)),
            None => o1 == o0,
        }
    }
    &&& sel != cur && depth > 0 && all_quiet(t) ==> {
        &&& c1.profiles.current == sel
        &&& c1.profiles.profiles == c0.profiles.profiles
        &&& c1.state@ == with_profile_entry(s, profile_at(ps, sel))
        &&& switch_sent(o0, o1, t, change_text(profile_at(ps, sel)))
    }
    &&& sel != cur && depth == 0 ==> {
        &&& c1.profiles.current == sel
        &&& c1.profiles.profiles == c0.profiles.profiles
        &&& c1.state@ == with_profile_entry(s, profile_at(ps, sel))
        &&& switch_sent(o0, o1, seq![], change_text(profile_at(ps, sel)))
    }
}

/// The effects of an explicit request to activate the profile named `id`:
/// a request for the active profile, or for one that is unknown or
/// disabled, changes nothing; otherwise, with quiet actions, that profile
/// becomes active as in a change on re-evaluation.
pub open spec fn selected(c0: Controller, id: Seq<char>, depth: u32, o0: Seq<Effect>, c1: Controller, o1: Seq<Effect>) -> bool {
    let ps = c0.profiles.profiles@;
    let cur = c0.profiles.current;
    &&& (match cur {
        Some(c) => ps[c as int].id@ == id,
        None => false,
    }) ==> c1 == c0 && o1 == o0
    &&& (forall|i: int| 0 <= i < ps.len() && (#[trigger] ps[i]).id@ == id ==> !ps[i].spec_is_enabled(c0.state@))
        ==> c1 == c0 && o1 == o0
    &&& forall|i: int|
        0 <= i < ps.len() && (#[trigger] ps[i]).id@ == id && ps[i].spec_is_enabled(c0.state@) && cur != Some(
            i as usize,
        ) && depth > 0 && all_quiet(transition_actions(profile_at(ps, cur), Some(ps[i]))) ==> {
            &&& c1.profiles.current == Some(i as usize)
            &&& c1.profiles.profiles == c0.profiles.profiles
            &&& c1.state@ == with_profile_entry(c0.state@, Some(ps[i]))
            &&& switch_sent(o0, o1, transition_actions(profile_at(ps, cur), Some(ps[i])), change_text(Some(ps[i])))
        }
    &&& forall|i: int|
        0 <= i < ps.len() && (#[trigger] ps[i]).id@ == id && ps[i].spec_is_enabled(c0.state@) && cur != Some(
            i as usize,
        ) && depth == 0 ==> {
            &&& c1.profiles.current == Some(i as usize)
            &&& c1.profiles.profiles == c0.profiles.profiles
            &&& c1.state@ == with_profile_entry(c0.state@, Some(ps[i]))
            &&& switch_sent(o0, o1, seq![], change_text(Some(ps[i])))
        }
}

/// The effects of an internal action: selecting a profile, setting a
/// custom string and re-evaluating, or refreshing the hardware. Other
/// actions change nothing.
pub open spec fn applied(c0: Controller, a: Action, depth: u32, o0: Seq<Effect>, c1: Controller, o1: Seq<Effect>) -> bool {
    match a {
        Action::SetStringParameter { parameter: StringParam::Profile, value } => selected(c0, value@, depth, o0, c1, o1),
        Action::SetStringParameter { parameter: StringParam::Custom(name), value } => {
            let s = apply_value(c0.state@, StateValue::String { parameter: StringParam::Custom(name), value: Some(value) });
            reselected(c0, s, depth, o0, c1, o1)
        },
        Action::InternalAction(InternalAction::RefreshController) => refreshed(c0, o0, c1, o1),
        _ => c1 == c0 && o1 == o0,
    }
}

/// Messages of the leave actions, then of the enter actions, then the
/// announcement.
proof fn lemma_switch_sent(
    start: Seq<Effect>,
    after_leave: Seq<Effect>,
    after_enter: Seq<Effect>,
    end: Seq<Effect>,
    leave: Seq<Action>,
    enter: Seq<Action>,
    note: Effect,
    text: Seq<char>,
)
    requires
        extends(start, after_leave),
        messages_of(added(start, after_leave)) == remote_sends(leave),
        extends(after_leave, after_enter),
        messages_of(added(after_leave, after_enter)) == remote_sends(enter),
        end == after_enter.push(note),
        is_notice(note, text),
    ensures
        switch_sent(start, end, leave + enter, text),
{
    lemma_remote_sends_concat(leave, enter);
    let a = added(start, after_leave);
    let b = added(after_leave, after_enter);
    assert(added(start, end) =~= (a + b).push(note));
    lemma_messages_concat(a, b);
    assert((a + b).push(note).drop_last() =~= a + b);
    assert(note is Send);
    assert(end.take(start.len() as int) =~= after_leave.take(start.len() as int));
    let m = messages_of(added(start, end));
    assert(m == (remote_sends(leave) + remote_sends(enter)).push(note));
    assert(m.take(remote_sends(leave + enter).len() as int) =~= remote_sends(leave + enter));
}

/// The profile that a batch asks to activate: the last entry that sets the
/// active-profile parameter.
pub open spec fn request_of(values: Seq<StateValue>) -> Option<Seq<char>>
    decreases values.len(),
{
    if values.len() == 0 {
        None
    } else {
        match values.last() {
            StateValue::String { parameter: StringParam::Profile, value: Some(id) } => Some(id@),
            _ => request_of(values.drop_last()),
        }
    }
}

/// Re-evaluation on state `s`, followed by an explicit request for `id`.
pub open spec fn requested(c0: Controller, s: StateView, id: Seq<char>, o0: Seq<Effect>, c1: Controller, o1: Seq<Effect>) -> bool {
    exists|mid: Controller, om: Seq<Effect>|
        #[trigger] reselected(c0, s, ACTION_DEPTH, o0, mid, om) && selected(mid, id, ACTION_DEPTH, om, c1, o1)
}

/// The effects of a batch from the remote application: the batch, minus
/// the active-profile entries, is applied and the active profile is
/// re-evaluated; then a profile that the batch names is selected.
pub open spec fn state_change_done(c0: Controller, values: Seq<StateValue>, o0: Seq<Effect>, c1: Controller, o1: Seq<Effect>) -> bool {
    let s1 = apply_change(c0.state@, values);
    match request_of(values) {
        Some(id) => requested(c0, s1, id, o0, c1, o1),
        None => reselected(c0, s1, ACTION_DEPTH, o0, c1, o1),
    }
}

/// What a device reported for one of its layers: a raw value for a
/// continuous layer, or a key state.
pub enum Seen {
    Raw(u8),
    Key(KeyState),
}

/// The layer once it has recorded what the device reported; a report of
/// the other kind leaves it as it is.
pub open spec fn seen(hw: LayerControl, s: Seen) -> LayerControl {
    match (hw, s) {
        (LayerControl::Continuous(h), Seen::Raw(x)) => LayerControl::Continuous(ContinuousLayer { state: x, ..h }),
        (LayerControl::Key(h), Seen::Key(k)) => LayerControl::Key(KeyLayer { state: k, ..h }),
        _ => hw,
    }
}

/// `after` is `before` with the report recorded on the layer named `c`/`l`.
pub open spec fn device_noted(before: Device, after: Device, c: Seq<char>, l: Seq<char>, s: Seen) -> bool {
    &&& after.id == before.id
    &&& after.connected == before.connected
    &&& after.output == before.output
    &&& after.layers@.len() == before.layers@.len()
    &&& forall|k: int|
        0 <= k < before.layers@.len() ==> {
            &&& (#[trigger] after.layers@[k]).control == before.layers@[k].control
            &&& after.layers@[k].layer == before.layers@[k].layer
            &&& after.layers@[k].hardware == if last_named(before.layers@, c, l, k) {
                seen(before.layers@[k].hardware, s)
            } else {
                before.layers@[k].hardware
            }
        }
}

/// `c1` is `c0` with the report recorded on the addressed layer of the first
/// device with id `d`; state and profiles are untouched.
pub open spec fn noted(c0: Controller, c1: Controller, d: Seq<char>, c: Seq<char>, l: Seq<char>, s: Seen) -> bool {
    &&& c1.state == c0.state
    &&& c1.profiles == c0.profiles
    &&& c1.devices@.len() == c0.devices@.len()
    &&& forall|i: int|
        0 <= i < c0.devices@.len() ==> if first_with_id(c0.devices@, d, i) {
            device_noted(c0.devices@[i], #[trigger] c1.devices@[i], c, l, s)
        } else {
            c1.devices@[i] == c0.devices@[i]
        }
}

/// The effects of a hardware report whose binding resolved to `acts`: the
/// report is recorded, then the actions are carried out.
pub open spec fn acted(
    c0: Controller,
    d: Seq<char>,
    c: Seq<char>,
    l: Seq<char>,
    s: Seen,
    acts: Seq<Action>,
    o0: Seq<Effect>,
    c1: Controller,
    o1: Seq<Effect>,
) -> bool {
    &&& all_remote(acts) ==> noted(c0, c1, d, c, l, s) && o1 == o0 + remote_effects(acts)
    &&& all_quiet(acts) ==> {
        &&& c1.state == c0.state
        &&& c1.profiles == c0.profiles
        &&& extends(o0, o1)
        &&& messages_of(added(o0, o1)) == remote_sends(acts)
    }
    &&& acts.len() == 1 && remote_of(acts[0]) is None ==> exists|mid: Controller|
        #[trigger] noted(c0, mid, d, c, l, s) && applied(mid, acts[0], ACTION_DEPTH, o0, c1, o1)
    &&& exists|mid: Controller|
        #[trigger] noted(c0, mid, d, c, l, s) && performed(mid, acts, ACTION_DEPTH, o0, c1, o1)
}

/// The effects of a continuous control moving.
pub open spec fn continuous_done(
    c0: Controller,
    d: Seq<char>,
    c: Seq<char>,
    l: Seq<char>,
    value: i64,
    raw: u8,
    o0: Seq<Effect>,
    c1: Controller,
    o1: Seq<Effect>,
) -> bool {
    match c0.spec_continuous_actions(d, c, l, value) {
        Some(a) => acted(c0, d, c, l, Seen::Raw(raw), a, o0, c1, o1),
        None => noted(c0, c1, d, c, l, Seen::Raw(raw)) && o1 == o0,
    }
}

/// The effects of a key press or release: its actions, or when it resolves
/// to nothing, at most one write that brings that key's layer back in line.
pub open spec fn key_done(
    c0: Controller,
    d: Seq<char>,
    c: Seq<char>,
    l: Seq<char>,
    ks: KeyState,
    o0: Seq<Effect>,
    c1: Controller,
    o1: Seq<Effect>,
) -> bool {
    match c0.spec_key_actions(d, c, l, ks) {
        Some(a) => acted(c0, d, c, l, Seen::Key(ks), a, o0, c1, o1),
        None => exists|mid: Controller|
            #[trigger] noted(c0, mid, d, c, l, Seen::Key(ks)) && key_resynced(mid, d, c, l, o0, c1, o1),
    }
}

/// Layer `k` of device `i` is the layer addressed by `d`/`c`/`l`, on a device
/// with an open output.
pub open spec fn resync_target(ds: Seq<Device>, d: Seq<char>, c: Seq<char>, l: Seq<char>, i: int, k: int) -> bool {
    first_with_id(ds, d, i) && ds[i].output && last_named(ds[i].layers@, c, l, k)
}

/// `after` is `before` with the hardware of layer `k` of device `i` replaced.
pub open spec fn layer_replaced(before: Seq<Device>, after: Seq<Device>, i: int, k: int, hw: LayerControl) -> bool {
    &&& after.len() == before.len()
    &&& forall|j: int| 0 <= j < before.len() && j != i ==> #[trigger] after[j] == before[j]
    &&& after[i].id == before[i].id
    &&& after[i].connected == before[i].connected
    &&& after[i].output == before[i].output
    &&& after[i].layers@.len() == before[i].layers@.len()
    &&& forall|m: int| 0 <= m < before[i].layers@.len() && m != k ==> #[trigger] after[i].layers@[m] == before[i].layers@[m]
    &&& after[i].layers@[k].control == before[i].layers@[k].control
    &&& after[i].layers@[k].layer == before[i].layers@[k].layer
    &&& after[i].layers@[k].hardware == hw
}

/// After a key press or release that resolves to nothing: the addressed
/// layer, if it is on a device with an open output, is brought in line with
/// the active profile without forcing, writing only if it does not show its
/// value yet; nothing else changes.
pub open spec fn key_resynced(mid: Controller, d: Seq<char>, c: Seq<char>, l: Seq<char>, o0: Seq<Effect>, c1: Controller, o1: Seq<Effect>) -> bool {
    &&& c1.state == mid.state
    &&& c1.profiles == mid.profiles
    &&& match mid.profiles.current {
        Some(p) => if exists|i: int, k: int| resync_target(mid.devices@, d, c, l, i, k) {
            let (i, k) = choose|i: int, k: int| resync_target(mid.devices@, d, c, l, i, k);
            let dl = mid.devices@[i].layers@[k];
            let prof = mid.profiles.profiles@[p as int];
            &&& layer_replaced(mid.devices@, c1.devices@, i, k, synced(prof, mid.state@, d, dl, false))
            &&& if crate::sync::sends(prof, mid.state@, d, dl, false) {
                &&& o1.len() == o0.len() + 1
                &&& o1.take(o0.len() as int) == o0
                &&& is_write_of(o1.last(), (d, c, l, message_for(dl.hardware, target(prof, mid.state@, d, dl)->0)))
            } else {
                o1 == o0
            }
        } else {
            c1.devices == mid.devices && o1 == o0
        },
        None => c1.devices == mid.devices && o1 == o0,
    }
}

proof fn lemma_quiet_split(t: Seq<Action>, leave: Seq<Action>, enter: Seq<Action>)
    requires
        t == leave + enter,
    ensures
        all_quiet(t) ==> all_quiet(leave) && all_quiet(enter),
{
    if all_quiet(t) {
        assert forall|i: int| 0 <= i < leave.len() implies is_quiet(#[trigger] leave[i]) by {
            assert(t[i] == leave[i]);
        }
        assert forall|i: int| 0 <= i < enter.len() implies is_quiet(#[trigger] enter[i]) by {
            assert(t[leave.len() + i] == enter[i]);
        }
    }
}

/// Applies a batch to the state, leaving out the entries for the
/// active-profile parameter, and returns the profile the batch asks for.
fn apply_batch(state: &mut State, values: &Vec<StateValue>) -> (r: Option<String>)
    ensures
        final(state)@ == apply_change(old(state)@, values@),
        opt_view(r) == request_of(values@),
{
    let mut request: Option<String> = None;
    let mut i: usize = 0;
    let ghost start = state@;
    while i < values.len()
        invariant
            i <= values@.len(),
            start == old(state)@,
            state@ == apply_change(start, values@.take(i as int)),
            opt_view(request) == request_of(values@.take(i as int)),
        decreases values@.len() - i,
    {
        assert(values@.take(i + 1).drop_last() =~= values@.take(i as int));
        assert(values@.take(i + 1).last() == values@[i as int]);
        match &values[i] {
            StateValue::String { parameter: StringParam::Profile, value } => {
                assert(is_profile_entry(values@[i as int]));
                if let Some(id) = value {
                    request = Some(id.clone());
                }
            },
            other => {
                state.apply(other);
            },
        }
        i = i + 1;
    }
    assert(values@.take(values@.len() as int) =~= values@);
    request
}

/// The leave actions were carried out, in order, on the state as it was
/// before the change that disabled their profile: starting from `c`'s
/// state, devices and profiles, with the newly selected profile active.
pub open spec fn left_before_update(c: Controller, sel: Option<usize>, leave: Seq<Action>, o0: Seq<Effect>) -> bool {
    exists|c0: Controller, c1: Controller, o1: Seq<Effect>|
        #[trigger] performed(c0, leave, (ACTION_DEPTH - 1) as u32, o0, c1, o1) && c0.state == c.state && c0.devices
            == c.devices && c0.profiles.profiles == c.profiles.profiles && c0.profiles.current == sel
}

/// One action carried out: a remotely routed one becomes its message, an
/// internal one is applied.
pub open spec fn step_done(c0: Controller, a: Action, depth: u32, o0: Seq<Effect>, c1: Controller, o1: Seq<Effect>) -> bool {
    match remote_of(a) {
        Some(m) => c1 == c0 && o1 == o0.push(Effect::Send(m)),
        None => applied(c0, a, depth, o0, c1, o1),
    }
}

/// `cs` and `os` are the controllers and effects before and after each
/// action of `acts`, carried out one after the other from `c0` and `o0`.
pub open spec fn run_of(
    cs: Seq<Controller>,
    os: Seq<Seq<Effect>>,
    c0: Controller,
    acts: Seq<Action>,
    depth: u32,
    o0: Seq<Effect>,
) -> bool {
    &&& cs.len() == acts.len() + 1
    &&& os.len() == acts.len() + 1
    &&& cs[0] == c0
    &&& os[0] == o0
    &&& forall|j: int| 0 <= j < acts.len() ==> step_done(#[trigger] cs[j], acts[j], depth, os[j], cs[j + 1], os[j + 1])
}

/// The actions of `acts` were carried out in order, each on what the
/// previous one left, taking `c0` and `o0` to `c1` and `o1`.
pub open spec fn performed(c0: Controller, acts: Seq<Action>, depth: u32, o0: Seq<Effect>, c1: Controller, o1: Seq<Effect>) -> bool {
    exists|cs: Seq<Controller>, os: Seq<Seq<Effect>>|
        #[trigger] run_of(cs, os, c0, acts, depth, o0) && cs.last() == c1 && os.last() == o1
}

/// The leave actions of a profile, or none.
pub open spec fn leave_of(p: Option<Profile>) -> Seq<Action> {
    match p {
        Some(p) => p.leave@,
        None => seq![],
    }
}

/// The enter actions of a profile, or none.
pub open spec fn enter_of(p: Option<Profile>) -> Seq<Action> {
    match p {
        Some(p) => p.enter@,
        None => seq![],
    }
}

/// Entering `next`: the state records it as active, its enter actions are
/// carried out in order, then the change is announced.
pub open spec fn entered(c0: Controller, next: Option<Profile>, depth: u32, o0: Seq<Effect>, c1: Controller, o1: Seq<Effect>) -> bool {
    exists|cb: Controller|
        #[trigger] performed(cb, enter_of(next), (depth - 1) as u32, o0, c1, o1.drop_last()) && cb.state@
            == with_profile_entry(c0.state@, next) && cb.profiles == c0.profiles && cb.devices == c0.devices
            && o1.len() > 0 && is_notice(o1.last(), change_text(next))
}

/// A profile change: the leave actions of `prev` are carried out in order,
/// then `next` is entered.
pub open spec fn changed_over(
    c0: Controller,
    prev: Option<Profile>,
    next: Option<Profile>,
    depth: u32,
    o0: Seq<Effect>,
    c1: Controller,
    o1: Seq<Effect>,
) -> bool {
    exists|ca: Controller, oa: Seq<Effect>|
        #[trigger] performed(c0, leave_of(prev), (depth - 1) as u32, o0, ca, oa) && entered(ca, next, depth, oa, c1, o1)
}

/// The start of a controller over these profiles and devices: from an
/// empty state that records the active profile, its enter actions are
/// carried out in order.
pub open spec fn started(ps: Profiles, ds: Vec<Device>, c1: Controller, o1: Seq<Effect>) -> bool {
    match ps.current {
        Some(c) => exists|cb: Controller|
            #[trigger] performed(cb, ps.profiles@[c as int].enter@, ACTION_DEPTH, seq![], c1, o1) && cb.state@
                == with_profile_entry(empty_view(), Some(ps.profiles@[c as int])) && cb.profiles == ps
                && cb.devices == ds,
        None => true,
    }
}

/// A profile change made on re-evaluation, whatever its actions: from `c0`
/// with state `s` and the new profile active, the change is carried out
/// (leave actions, entry, enter actions, announcement), then every layer is
/// resent.
pub open spec fn reselected_via(c0: Controller, s: StateView, depth: u32, o0: Seq<Effect>, c1: Controller, o1: Seq<Effect>) -> bool {
    let ps = c0.profiles.profiles@;
    let cur = c0.profiles.current;
    let sel = as_index(select(ps, cur, s));
    sel != cur && depth > 0 ==> exists|cm: Controller, cx: Controller, ox: Seq<Effect>|
        #[trigger] changed_over(cm, profile_at(ps, cur), profile_at(ps, sel), depth, o0, cx, ox) && cm.state@ == s
            && cm.profiles.profiles == c0.profiles.profiles && cm.profiles.current == sel && cm.devices
            == c0.devices && refreshed(cx, ox, c1, o1)
}

/// An explicit request that activates profile `i`, whatever the actions:
/// from `c0` with `i` active, the change is carried out, then every layer is
/// resent.
pub open spec fn selected_via(c0: Controller, id: Seq<char>, depth: u32, o0: Seq<Effect>, c1: Controller, o1: Seq<Effect>) -> bool {
    let ps = c0.profiles.profiles@;
    let cur = c0.profiles.current;
    forall|i: int|
        0 <= i < ps.len() && (#[trigger] ps[i]).id@ == id && ps[i].spec_is_enabled(c0.state@) && cur != Some(
            i as usize,
        ) && depth > 0 ==> exists|cm: Controller, cx: Controller, ox: Seq<Effect>|
            #[trigger] changed_over(cm, profile_at(ps, cur), Some(ps[i]), depth, o0, cx, ox) && cm.state == c0.state
                && cm.profiles.profiles == c0.profiles.profiles && cm.profiles.current == Some(i as usize)
                && cm.devices == c0.devices && refreshed(cx, ox, c1, o1)
}

/// The state once a change from the remote application is applied: the
/// batch (without its active-profile entries), or a reset.
pub open spec fn after_change(s: StateView, values: Option<Seq<StateValue>>) -> StateView {
    match values {
        Some(v) => apply_change(s, v),
        None => empty_view(),
    }
}

/// After the leave actions: the change from the remote application is
/// applied to the state they left, then `next` is entered.
pub open spec fn entered_after_change(
    ca: Controller,
    values: Option<Seq<StateValue>>,
    next: Option<Profile>,
    oa: Seq<Effect>,
    cx: Controller,
    ox: Seq<Effect>,
) -> bool {
    exists|cb: Controller|
        #[trigger] entered(cb, next, ACTION_DEPTH, oa, cx, ox) && cb.state@ == after_change(ca.state@, values)
            && cb.profiles == ca.profiles && cb.devices == ca.devices
}

/// A profile change caused by a change from the remote application,
/// whatever its actions: with the new profile active, the leave actions
/// run on the state as it was, the change is applied, the new profile is
/// entered, and every layer is resent.
pub open spec fn switched_on_change(c0: Controller, values: Option<Seq<StateValue>>, o0: Seq<Effect>, c1: Controller, o1: Seq<Effect>) -> bool {
    let ps = c0.profiles.profiles@;
    let cur = c0.profiles.current;
    let sel = as_index(select(ps, cur, after_change(c0.state@, values)));
    sel != cur ==> exists|cm: Controller, ca: Controller, oa: Seq<Effect>|
        #[trigger] performed(cm, leave_of(profile_at(ps, cur)), (ACTION_DEPTH - 1) as u32, o0, ca, oa) && cm.state
            == c0.state && cm.devices == c0.devices && cm.profiles.profiles == c0.profiles.profiles
            && cm.profiles.current == sel && exists|cx: Controller, ox: Seq<Effect>|
            #[trigger] entered_after_change(ca, values, profile_at(ps, sel), oa, cx, ox) && refreshed(cx, ox, c1, o1)
}

/// A batch whose profile change, if any, is carried out whatever its
/// actions (`switched_on_change`), followed by the selection the batch asks
/// for, whatever its actions.
pub open spec fn changed_then_selected(c0: Controller, values: Seq<StateValue>, o0: Seq<Effect>, c1: Controller, o1: Seq<Effect>) -> bool {
    match request_of(values) {
        Some(id) => exists|mid: Controller, om: Seq<Effect>|
            #[trigger] switched_on_change(c0, Some(values), o0, mid, om) && selected_via(mid, id, ACTION_DEPTH, om, c1, o1),
        None => switched_on_change(c0, Some(values), o0, c1, o1),
    }
}

/// `out` is `prefix` followed by one notification with this text.
pub open spec fn effects_then_notice(out: Seq<Effect>, prefix: Seq<Effect>, text: Seq<char>) -> bool {
    &&& out.len() == prefix.len() + 1
    &&& out.take(prefix.len() as int) == prefix
    &&& out.last() matches Effect::Send(OutgoingMessage::Notification { message }) && message@ == text
}

impl Controller {
    pub open spec fn wf(&self) -> bool {
        &&& self.profiles.wf()
        &&& forall|i: int| 0 <= i < self.devices@.len() ==> (#[trigger] self.devices@[i]).wf()
    }

    /// The same profiles and devices, with possibly other runtime state.
    pub open spec fn same_setup(&self, other: &Controller) -> bool {
        &&& self.profiles.profiles == other.profiles.profiles
        &&& self.devices@.len() == other.devices@.len()
    }

    fn sync_devices(&mut self, force: bool, out: &mut Vec<Effect>)
        requires
            old(self).wf(),
        ensures
            final(self).wf(),
            final(self).same_setup(old(self)),
            final(self).profiles == old(self).profiles,
            final(self).state == old(self).state,
            match old(self).profiles.current {
                Some(c) => writes_appended(
                    old(out)@,
                    final(out)@,
                    devices_writes(old(self).profiles.profiles@[c as int], old(self).state@, old(self).devices@, force),
                ),
                None => final(out)@ == old(out)@ && final(self).devices == old(self).devices,
            },
    {
        if let Some(c) = self.profiles.current {
            let ghost start = out@;
            let writes = self.profiles.profiles[c].update_devices(&mut self.devices, &self.state, force);
            let ghost dw = writes_view(writes@);
            let mut i: usize = 0;
            while i < writes.len()
                invariant
                    i <= writes@.len(),
                    dw == writes_view(writes@),
                    self.wf(),
                    self.same_setup(old(self)),
                    self.profiles == old(self).profiles,
                    self.state == old(self).state,
                    out@.len() == start.len() + i,
                    out@.take(start.len() as int) == start,
                    forall|j: int|
                        0 <= j < i ==> is_write_of(#[trigger] out@[start.len() + j], dw[j]),
                decreases writes@.len() - i,
            {
                let w = HardwareWrite {
                    device_id: writes[i].device_id.clone(),
                    control: writes[i].control.clone(),
                    layer: writes[i].layer.clone(),
                    message: copy_bytes(&writes[i].message),
                };
                let ghost before = out@;
                out.push(Effect::Write(w));
                assert(out@.take(start.len() as int) =~= before.take(start.len() as int));
                assert forall|j: int| 0 <= j < i + 1 implies is_write_of(#[trigger] out@[start.len() + j], dw[j]) by {
                    if j < i {
                        assert(out@[start.len() + j] == before[start.len() + j]);
                    }
                }
                i = i + 1;
            }
        }
    }

    /// Carries out actions in order: remote ones become messages, internal
    /// ones are applied here.
    fn perform_actions(&mut self, actions: Vec<Action>, depth: u32, out: &mut Vec<Effect>)
        requires
            old(self).wf(),
        ensures
            final(self).wf(),
            final(self).same_setup(old(self)),
            all_remote(actions@) ==> *final(self) == *old(self) && final(out)@ == old(out)@
                + remote_effects(actions@),
            all_quiet(actions@) ==> {
                &&& final(self).state == old(self).state
                &&& final(self).profiles == old(self).profiles
                &&& extends(old(out)@, final(out)@)
                &&& messages_of(added(old(out)@, final(out)@)) == remote_sends(actions@)
            },
            actions@.len() == 1 && remote_of(actions@[0]) is None ==> applied(
                *old(self),
                actions@[0],
                depth,
                old(out)@,
                *final(self),
                final(out)@,
            ),
            performed(*old(self), actions@, depth, old(out)@, *final(self), final(out)@),
        decreases depth, 4u32,
    {
        let ghost start = out@;
        let ghost mut cs: Seq<Controller> = seq![*self];
        let ghost mut os: Seq<Seq<Effect>> = seq![out@];
        let mut i: usize = 0;
        assert(added(start, out@) =~= seq![]);
        assert(out@.take(start.len() as int) =~= start);
        while i < actions.len()
            invariant
                i <= actions@.len(),
                self.wf(),
                self.same_setup(old(self)),
                start == old(out)@,
                all_remote(actions@) ==> *self == *old(self) && out@ == old(out)@ + remote_effects(
                    actions@.take(i as int),
                ),
                all_quiet(actions@) ==> {
                    &&& self.state == old(self).state
                    &&& self.profiles == old(self).profiles
                    &&& extends(start, out@)
                    &&& messages_of(added(start, out@)) == remote_sends(actions@.take(i as int))
                },
                actions@.len() == 1 && remote_of(actions@[0]) is None ==> {
                    &&& i == 0 ==> *self == *old(self) && out@ == start
                    &&& i == 1 ==> applied(*old(self), actions@[0], depth, start, *self, out@)
                },
                run_of(cs, os, *old(self), actions@.take(i as int), depth, start),
                cs.last() == *self,
                os.last() == out@,
            decreases actions@.len() - i,
        {
            let action = actions[i].clone();
            let ghost before = out@;
            let ghost before_self = *self;
            assert(actions@.take(i + 1).drop_last() =~= actions@.take(i as int));
            assert(actions@.take(i + 1).last() == actions@[i as int]);
            match route(action) {
                Route::Remote(message) => {
                    out.push(Effect::Send(message));
                    proof {
                        if all_quiet(actions@) {
                            let x = Effect::Send(message);
                            assert(remote_of(actions@[i as int]) == Some(message));
                            assert(added(start, out@) =~= added(start, before).push(x));
                            assert(added(start, before).push(x).drop_last() =~= added(start, before));
                            assert(messages_of(added(start, out@)) == messages_of(added(start, before)).push(x));
                            assert(remote_sends(actions@.take(i + 1)) == remote_sends(actions@.take(i as int)).push(x));
                            assert(out@.take(start.len() as int) =~= before.take(start.len() as int));
                        }
                    }
                },
                Route::Internal(a) => {
                    self.apply_internal(a, depth, out);
                    proof {
                        if all_quiet(actions@) {
                            assert(is_quiet(actions@[i as int]));
                            assert(remote_of(actions@[i as int]) is None);
                            assert(remote_sends(actions@.take(i + 1)) == remote_sends(actions@.take(i as int)));
                            assert(a == Action::InternalAction(InternalAction::RefreshController));
                            match before_self.profiles.current {
                                Some(c) => {
                                    lemma_writes_keep_messages(
                                        start,
                                        before,
                                        out@,
                                        devices_writes(
                                            before_self.profiles.profiles@[c as int],
                                            before_self.state@,
                                            before_self.devices@,
                                            true,
                                        ),
                                    );
                                },
                                None => {},
                            }
                        }
                    }
                },
            }
            proof {
                let ghost prev_cs = cs;
                let ghost prev_os = os;
                cs = cs.push(*self);
                os = os.push(out@);
                assert forall|j: int| 0 <= j < i + 1 implies step_done(
                    #[trigger] cs[j],
                    actions@.take(i + 1)[j],
                    depth,
                    os[j],
                    cs[j + 1],
                    os[j + 1],
                ) by {
                    if j < i {
                        assert(cs[j] == prev_cs[j] && cs[j + 1] == prev_cs[j + 1]);
                        assert(os[j] == prev_os[j] && os[j + 1] == prev_os[j + 1]);
                        assert(actions@.take(i + 1)[j] == actions@.take(i as int)[j]);
                    } else {
                        assert(cs[j] == before_self && os[j] == before);
                    }
                }
                if all_remote(actions@) {
                    assert(remote_of(actions@[i as int]) is Some);
                    assert(remote_effects(actions@.take(i + 1)) =~= remote_effects(
                        actions@.take(i as int),
                    ).push(Effect::Send(remote_of(actions@[i as int])->0)));
                }
            }
            i = i + 1;
        }
        assert(actions@.take(actions@.len() as int) =~= actions@);
        assert(run_of(cs, os, *old(self), actions@, depth, start));
    }

    /// Applies an action that the routing table keeps inside: selecting a
    /// profile, setting a custom string, or refreshing the hardware.
    fn apply_internal(&mut self, action: Action, depth: u32, out: &mut Vec<Effect>)
        requires
            old(self).wf(),
        ensures
            final(self).wf(),
            final(self).same_setup(old(self)),
            applied(*old(self), action, depth, old(out)@, *final(self), final(out)@),
            match action {
                Action::SetStringParameter { parameter: StringParam::Profile, value } => selected_via(
                    *old(self),
                    value@,
                    depth,
                    old(out)@,
                    *final(self),
                    final(out)@,
                ),
                Action::SetStringParameter { parameter: StringParam::Custom(name), value } => reselected_via(
                    *old(self),
                    apply_value(
                        old(self).state@,
                        StateValue::String { parameter: StringParam::Custom(name), value: Some(value) },
                    ),
                    depth,
                    old(out)@,
                    *final(self),
                    final(out)@,
                ),
                _ => true,
            },
        decreases depth, 3u32,
    {
        match action {
            Action::SetStringParameter { parameter: StringParam::Profile, value } => {
                self.select_profile(&value, depth, out);
            },
            Action::SetStringParameter { parameter: StringParam::Custom(name), value } => {
                self.state.set_string(StringParam::Custom(name), Some(value));
                self.update_profile(depth, out);
            },
            Action::InternalAction(InternalAction::RefreshController) => {
                self.sync_devices(true, out);
            },
            _ => {},
        }
    }

    /// Explicitly selects a profile: an unknown or disabled one is refused
    /// and nothing changes; after a change every layer is resent.
    fn select_profile(&mut self, id: &String, depth: u32, out: &mut Vec<Effect>)
        requires
            old(self).wf(),
        ensures
            final(self).wf(),
            final(self).same_setup(old(self)),
            selected(*old(self), id@, depth, old(out)@, *final(self), final(out)@),
            selected_via(*old(self), id@, depth, old(out)@, *final(self), final(out)@),
        decreases depth, 2u32,
    {
        let ghost ps = self.profiles.profiles@;
        let ghost start = out@;
        let previous = self.profiles.current;
        if let Some(c) = previous {
            if self.profiles.profiles[c].id.eq(id) {
                return;
            }
        }
        let next = self.profiles.set_profile(id, &self.state);
        if let Some(n) = next {
            proof {
                assert forall|i: int| 0 <= i < ps.len() && (#[trigger] ps[i]).id@ == id@ implies i == n by {
                    if i != n {
                        assert(ps[n as int].id@ == ps[i].id@);
                    }
                }
            }
            let ghost cm = *self;
            self.profile_changed(previous, next, depth, out);
            let ghost mid = out@;
            let ghost mid_self = *self;
            self.sync_devices(true, out);
            proof {
                if depth > 0 {
                    assert(changed_over(cm, profile_at(ps, previous), Some(ps[n as int]), depth, start, mid_self, mid));
                    assert(refreshed(mid_self, mid, *self, out@));
                }
            }
            proof {
                let t = transition_actions(profile_at(ps, previous), Some(ps[n as int]));
                if depth == 0 || all_quiet(t) {
                    match mid_self.profiles.current {
                        Some(c) => {
                            lemma_writes_keep_messages(
                                start,
                                mid,
                                out@,
                                devices_writes(mid_self.profiles.profiles@[c as int], mid_self.state@, mid_self.devices@, true),
                            );
                        },
                        None => {},
                    }
                }
            }
        }
    }

    /// Re-evaluates the active profile after a state change and brings the
    /// hardware in line; after a profile change every layer is resent.
    fn update_profile(&mut self, depth: u32, out: &mut Vec<Effect>)
        requires
            old(self).wf(),
        ensures
            final(self).wf(),
            final(self).same_setup(old(self)),
            as_index(select(old(self).profiles.profiles@, old(self).profiles.current, old(self).state@))
                == old(self).profiles.current ==> {
                &&& final(self).state == old(self).state
                &&& final(self).profiles == old(self).profiles
                &&& match old(self).profiles.current {
                    Some(c) => writes_appended(
                        old(out)@,
                        final(out)@,
                        devices_writes(
                            old(self).profiles.profiles@[c as int],
                            old(self).state@,
                            old(self).devices@,
                            false,
                        ),
                    ),
                    None => final(out)@ == old(out)@,
                }
            },
            reselected(*old(self), old(self).state@, depth, old(out)@, *final(self), final(out)@),
            reselected_via(*old(self), old(self).state@, depth, old(out)@, *final(self), final(out)@),
        decreases depth, 2u32,
    {
        let ghost start = out@;
        let previous = self.profiles.current;
        let next = self.profiles.state_update(&self.state);
        let changed = previous != next;
        let ghost cm = *self;
        if changed {
            self.profile_changed(previous, next, depth, out);
        }
        let ghost mid = out@;
        let ghost mid_self = *self;
        self.sync_devices(changed, out);
        proof {
            if changed && depth > 0 {
                assert(changed_over(cm, profile_at(old(self).profiles.profiles@, previous), profile_at(old(self).profiles.profiles@, next), depth, start, mid_self, mid));
                assert(refreshed(mid_self, mid, *self, out@));
            }
        }
        proof {
            let ps = old(self).profiles.profiles@;
            let t = transition_actions(profile_at(ps, previous), profile_at(ps, next));
            if previous != next && (depth == 0 || all_quiet(t)) {
                match mid_self.profiles.current {
                    Some(c) => {
                        lemma_writes_keep_messages(
                            start,
                            mid,
                            out@,
                            devices_writes(mid_self.profiles.profiles@[c as int], mid_self.state@, mid_self.devices@, true),
                        );
                    },
                    None => {},
                }
            }
        }
    }

    /// Fires the leave actions of the profile that stops being active.
    fn leave_profile(&mut self, previous: Option<usize>, depth: u32, out: &mut Vec<Effect>)
        requires
            old(self).wf(),
            previous matches Some(p) ==> p < old(self).profiles.profiles@.len(),
        ensures
            final(self).wf(),
            final(self).same_setup(old(self)),
            ({
                let leave = match profile_at(old(self).profiles.profiles@, previous) {
                    Some(p) => p.leave@,
                    None => seq![],
                };
                &&& depth == 0 ==> *final(self) == *old(self) && final(out)@ == old(out)@
                &&& depth > 0 ==> performed(*old(self), leave, (depth - 1) as u32, old(out)@, *final(self), final(out)@)
                &&& depth > 0 && all_quiet(leave) ==> {
                    &&& final(self).state == old(self).state
                    &&& final(self).profiles == old(self).profiles
                    &&& extends(old(out)@, final(out)@)
                    &&& messages_of(added(old(out)@, final(out)@)) == remote_sends(leave)
                }
            }),
        decreases depth, 0u32,
    {
        let ghost start = out@;
        proof {
            assert(added(start, start) =~= seq![]);
            assert(start.take(start.len() as int) =~= start);
        }
        if let Some(p) = previous {
            let leave = self.profiles.profiles[p].leave_actions();
            if depth > 0 {
                self.perform_actions(leave, depth - 1, out);
            }
        } else {
            assert(run_of(seq![*self], seq![out@], *self, seq![], (depth - 1) as u32, out@));
        }
    }

    /// Records the new active profile in the state, fires its enter actions
    /// and announces the change.
    fn enter_profile(&mut self, next: Option<usize>, depth: u32, out: &mut Vec<Effect>)
        requires
            old(self).wf(),
            next matches Some(n) ==> n < old(self).profiles.profiles@.len(),
        ensures
            final(self).wf(),
            final(self).same_setup(old(self)),
            ({
                let next_p = profile_at(old(self).profiles.profiles@, next);
                let enter = match next_p {
                    Some(p) => p.enter@,
                    None => seq![],
                };
                &&& depth == 0 || all_quiet(enter) ==> {
                    &&& final(self).profiles == old(self).profiles
                    &&& final(self).state@ == with_profile_entry(old(self).state@, next_p)
                    &&& extends(old(out)@, final(out)@)
                    &&& final(out)@.len() > old(out)@.len()
                    &&& messages_of(added(old(out)@, final(out)@).drop_last()) == if depth == 0 {
                        seq![]
                    } else {
                        remote_sends(enter)
                    }
                    &&& added(old(out)@, final(out)@).drop_last() == added(old(out)@, final(out)@.drop_last())
                    &&& is_notice(final(out)@.last(), change_text(next_p))
                }
            }),
            depth > 0 ==> entered(*old(self), profile_at(old(self).profiles.profiles@, next), depth, old(out)@, *final(self), final(out)@),
        decreases depth, 0u32,
    {
        let ghost start = out@;
        proof {
            assert(added(start, start) =~= seq![]);
            assert(start.take(start.len() as int) =~= start);
        }
        match next {
            Some(n) => {
                let id = self.profiles.profiles[n].id.clone();
                self.state.set_string(StringParam::Profile, Some(id));
                let enter = self.profiles.profiles[n].enter_actions();
                let ghost cb = *self;
                if depth > 0 {
                    self.perform_actions(enter, depth - 1, out);
                }
                let ghost before = out@;
                let note = profile_notification(Some(&self.profiles.profiles[n]));
                out.push(Effect::Send(note));
                proof {
                    assert(out@.drop_last() =~= before);
                    if depth > 0 {
                        assert(performed(cb, enter_of(profile_at(old(self).profiles.profiles@, next)), (depth - 1) as u32, start, *self, out@.drop_last()));
                    }
                    if depth == 0 || all_quiet(self.profiles.profiles@[n as int].enter@) {
                        assert(before.len() >= start.len());
                        assert(added(start, out@).drop_last() =~= added(start, before));
                        assert(added(start, out@.drop_last()) =~= added(start, before));
                        assert(out@.take(start.len() as int) =~= before.take(start.len() as int));
                    }
                }
            },
            None => {
                self.state.set_string(StringParam::Profile, None);
                let ghost cb = *self;
                let note = profile_notification(None);
                out.push(Effect::Send(note));
                proof {
                    assert(out@.drop_last() =~= start);
                    assert(run_of(seq![cb], seq![start], cb, seq![], (depth - 1) as u32, start));
                    assert(performed(cb, enter_of(profile_at(old(self).profiles.profiles@, next)), (depth - 1) as u32, start, *self, out@.drop_last()));
                    assert(added(start, out@).drop_last() =~= seq![]);
                    assert(added(start, out@.drop_last()) =~= seq![]);
                    assert(out@.take(start.len() as int) =~= start);
                }
            },
        }
    }

    /// Fires the leave actions of the previous profile, records the new
    /// active profile in the state, fires the enter actions of the new one
    /// and announces the change.
    fn profile_changed(&mut self, previous: Option<usize>, next: Option<usize>, depth: u32, out: &mut Vec<Effect>)
        requires
            old(self).wf(),
            previous matches Some(p) ==> p < old(self).profiles.profiles@.len(),
            next matches Some(n) ==> n < old(self).profiles.profiles@.len(),
        ensures
            final(self).wf(),
            final(self).same_setup(old(self)),
            ({
                let ps = old(self).profiles.profiles@;
                let prev_p = profile_at(ps, previous);
                let next_p = profile_at(ps, next);
                &&& depth > 0 && all_quiet(transition_actions(prev_p, next_p)) ==> {
                    &&& final(self).profiles == old(self).profiles
                    &&& final(self).state@ == with_profile_entry(old(self).state@, next_p)
                    &&& switch_sent(old(out)@, final(out)@, transition_actions(prev_p, next_p), change_text(next_p))
                }
                &&& depth == 0 ==> {
                    &&& final(self).profiles == old(self).profiles
                    &&& final(self).state@ == with_profile_entry(old(self).state@, next_p)
                    &&& switch_sent(old(out)@, final(out)@, seq![], change_text(next_p))
                }
                &&& depth > 0 ==> changed_over(*old(self), prev_p, next_p, depth, old(out)@, *final(self), final(out)@)
            }),
        decreases depth, 1u32,
    {
        let ghost ps = self.profiles.profiles@;
        let ghost start = out@;
        let ghost prev_p = profile_at(ps, previous);
        let ghost next_p = profile_at(ps, next);
        let ghost leave_s = match prev_p {
            Some(p) => p.leave@,
            None => seq![],
        };
        let ghost enter_s = match next_p {
            Some(p) => p.enter@,
            None => seq![],
        };
        proof {
            let t = transition_actions(prev_p, next_p);
            assert(t =~= leave_s + enter_s);
            if all_quiet(t) {
                assert forall|i: int| 0 <= i < leave_s.len() implies is_quiet(#[trigger] leave_s[i]) by {
                    assert(t[i] == leave_s[i]);
                }
                assert forall|i: int| 0 <= i < enter_s.len() implies is_quiet(#[trigger] enter_s[i]) by {
                    assert(t[leave_s.len() + i] == enter_s[i]);
                }
            }
        }
        self.leave_profile(previous, depth, out);
        let ghost after_leave = out@;
        let ghost ca = *self;
        self.enter_profile(next, depth, out);
        proof {
            if depth > 0 {
                assert(performed(*old(self), leave_of(prev_p), (depth - 1) as u32, start, ca, after_leave));
                assert(entered(ca, next_p, depth, after_leave, *self, out@));
            }
            if depth == 0 || all_quiet(transition_actions(prev_p, next_p)) {
                let leave_q = if depth == 0 { seq![] } else { leave_s };
                let enter_q = if depth == 0 { seq![] } else { enter_s };
                if depth == 0 {
                    assert(added(start, start) =~= seq![]);
                    assert(start.take(start.len() as int) =~= start);
                }
                let e = out@.drop_last();
                assert(out@ == e.push(out@.last()));
                assert(e.take(after_leave.len() as int) =~= out@.take(after_leave.len() as int));
                lemma_switch_sent(start, after_leave, e, out@, leave_q, enter_q, out@.last(), change_text(next_p));
                assert(transition_actions(prev_p, next_p) =~= leave_s + enter_s);
                assert(Seq::<Action>::empty() + Seq::<Action>::empty() =~= Seq::<Action>::empty());
            }
        }
    }
}

/// Whether a batch entry names the active-profile parameter.
pub open spec fn is_profile_entry(sv: StateValue) -> bool {
    sv matches StateValue::String { parameter: StringParam::Profile, .. }
}

/// A batch applied to the state, leaving out entries for the active-profile
/// parameter, which the controller owns.
pub open spec fn apply_change(v: StateView, values: Seq<StateValue>) -> StateView
    decreases values.len(),
{
    if values.len() == 0 {
        v
    } else if is_profile_entry(values.last()) {
        apply_change(v, values.drop_last())
    } else {
        apply_value(apply_change(v, values.drop_last()), values.last())
    }
}

/// `r` carries exactly these effects.
pub open spec fn emits(r: Option<Vec<Effect>>, es: Seq<Effect>) -> bool {
    match r {
        Some(e) => e@ == es,
        None => false,
    }
}

impl Device {
    /// Records the raw value that a continuous layer reports.
    fn record_continuous(&mut self, control: &String, layer: &String, raw: u8)
        requires
            old(self).wf(),
        ensures
            final(self).wf(),
            device_noted(*old(self), *final(self), control@, layer@, Seen::Raw(raw)),
    {
        if let Some(k) = self.find_layer(control, layer) {
            assert(self.layers@[k as int].hardware.wf());
            if let LayerControl::Continuous(l) = self.layers[k].hardware {
                let mut l = l;
                l.set_value(raw);
                self.layers[k].hardware = LayerControl::Continuous(l);
            }
        }
    }

    /// Records the state that a key layer reports.
    fn record_key(&mut self, control: &String, layer: &String, state: KeyState)
        requires
            old(self).wf(),
        ensures
            final(self).wf(),
            device_noted(*old(self), *final(self), control@, layer@, Seen::Key(state)),
    {
        if let Some(k) = self.find_layer(control, layer) {
            assert(self.layers@[k as int].hardware.wf());
            if let LayerControl::Key(l) = self.layers[k].hardware {
                let mut l = l;
                l.set_value(state);
                self.layers[k].hardware = LayerControl::Key(l);
            }
        }
    }
}

impl Controller {
    /// The actions that the active profile gives for a continuous change.
    pub open spec fn spec_continuous_actions(
        &self,
        d: Seq<char>,
        c: Seq<char>,
        l: Seq<char>,
        value: i64,
    ) -> Option<Seq<Action>> {
        match self.profiles.current {
            Some(i) => self.profiles.profiles@[i as int].spec_continuous_actions(self.state@, d, c, l, value),
            None => None,
        }
    }

    /// The actions that the active profile gives for a key change.
    pub open spec fn spec_key_actions(&self, d: Seq<char>, c: Seq<char>, l: Seq<char>, ks: KeyState) -> Option<
        Seq<Action>,
    > {
        match self.profiles.current {
            Some(i) => self.profiles.profiles@[i as int].spec_key_actions(self.state@, d, c, l, ks),
            None => None,
        }
    }

    fn record_continuous(&mut self, device_id: &String, control: &String, layer: &String, raw: u8)
        requires
            old(self).wf(),
        ensures
            final(self).wf(),
            final(self).same_setup(old(self)),
            noted(*old(self), *final(self), device_id@, control@, layer@, Seen::Raw(raw)),
    {
        if let Some(d) = find_device(&self.devices, device_id) {
            assert(self.devices@[d as int].wf());
            self.devices[d].record_continuous(control, layer, raw);
        }
    }

    fn record_key(&mut self, device_id: &String, control: &String, layer: &String, state: KeyState)
        requires
            old(self).wf(),
        ensures
            final(self).wf(),
            final(self).same_setup(old(self)),
            noted(*old(self), *final(self), device_id@, control@, layer@, Seen::Key(state)),
    {
        if let Some(d) = find_device(&self.devices, device_id) {
            assert(self.devices@[d as int].wf());
            self.devices[d].record_key(control, layer, state);
        }
    }

    /// A continuous control moved: the raw value it reports is recorded on
    /// its layer, and its binding in the active profile resolves to actions,
    /// which are carried out.
    fn continuous_change(
        &mut self,
        device_id: &String,
        control: &String,
        layer: &String,
        value: i64,
        raw: u8,
        out: &mut Vec<Effect>,
    )
        requires
            old(self).wf(),
        ensures
            final(self).wf(),
            final(self).same_setup(old(self)),
            continuous_done(*old(self), device_id@, control@, layer@, value, raw, old(out)@, *final(self), final(out)@),
    {
        let ghost start = out@;
        self.record_continuous(device_id, control, layer, raw);
        let ghost mid = *self;
        if let Some(c) = self.profiles.current {
            if let Some(actions) = self.profiles.profiles[c].continuous_actions(
                &self.state,
                device_id,
                control,
                layer,
                value,
            ) {
                self.perform_actions(actions, ACTION_DEPTH, out);
                assert(noted(*old(self), mid, device_id@, control@, layer@, Seen::Raw(raw)));
            }
        }
    }

    /// A key was pressed or released: its binding in the active profile
    /// resolves to actions, which are carried out; when it resolves to
    /// nothing, the key's light is brought back in line.
    fn key_change(
        &mut self,
        device_id: &String,
        control: &String,
        layer: &String,
        key_state: KeyState,
        out: &mut Vec<Effect>,
    )
        requires
            old(self).wf(),
        ensures
            final(self).wf(),
            final(self).same_setup(old(self)),
            key_done(*old(self), device_id@, control@, layer@, key_state, old(out)@, *final(self), final(out)@),
    {
        let ghost start = out@;
        self.record_key(device_id, control, layer, key_state);
        let ghost mid = *self;
        assert(start.take(start.len() as int) =~= start);
        if let Some(c) = self.profiles.current {
            match self.profiles.profiles[c].key_actions(&self.state, device_id, control, layer, key_state) {
                Some(actions) => {
                    self.perform_actions(actions, ACTION_DEPTH, out);
                    assert(noted(*old(self), mid, device_id@, control@, layer@, Seen::Key(key_state)));
                },
                None => {
                    let ghost ds = self.devices@;
                    if let Some(d) = find_device(&self.devices, device_id) {
                        if self.devices[d].output {
                            if let Some(k) = self.devices[d].find_layer(control, layer) {
                                proof {
                                    assert(resync_target(ds, device_id@, control@, layer@, d as int, k as int));
                                    let (i2, k2) = choose|i2: int, k2: int| resync_target(ds, device_id@, control@, layer@, i2, k2);
                                    assert(i2 == d) by {
                                        if i2 < d {
                                            assert(ds[i2].id@ == device_id@);
                                        } else if d < i2 {
                                            assert(ds[d as int].id@ == device_id@);
                                        }
                                    }
                                    assert(k2 == k) by {
                                        if k2 < k {
                                            assert(ds[d as int].layers@[k as int].control@ == control@);
                                        } else if k < k2 {
                                            assert(ds[d as int].layers@[k2].control@ == control@);
                                        }
                                    }
                                }
                                assert(self.devices@[d as int].wf());
                                assert(self.devices@[d as int].layers@[k as int].hardware.wf());
                                let mut hw = self.devices[d].layers[k].hardware;
                                let w = self.profiles.profiles[c].update_layer_control(
                                    &self.state,
                                    device_id,
                                    control,
                                    layer,
                                    &mut hw,
                                    false,
                                );
                                self.devices[d].layers[k].hardware = hw;
                                if let Some(message) = w {
                                    out.push(
                                        Effect::Write(
                                            HardwareWrite {
                                                device_id: device_id.clone(),
                                                control: control.clone(),
                                                layer: layer.clone(),
                                                message,
                                            },
                                        ),
                                    );
                                    assert(out@.take(start.len() as int) =~= start);
                                }
                            }
                        }
                    }
                },
            }
        }
    }

    /// Applies a batch from the remote application and re-evaluates the
    /// active profile. When the batch disables the active profile, its leave
    /// actions fire on the state as it was before the batch. An entry for
    /// the active-profile parameter is a request to select that profile,
    /// made after the rest of the batch.
    fn update_state(&mut self, values: &Vec<StateValue>, out: &mut Vec<Effect>)
        requires
            old(self).wf(),
        ensures
            final(self).wf(),
            final(self).same_setup(old(self)),
            state_change_done(*old(self), values@, old(out)@, *final(self), final(out)@),
            changed_then_selected(*old(self), values@, old(out)@, *final(self), final(out)@),
            ({
                let ps = old(self).profiles.profiles@;
                let cur = old(self).profiles.current;
                let sel = as_index(select(ps, cur, apply_change(old(self).state@, values@)));
                let leave = match profile_at(ps, cur) {
                    Some(p) => p.leave@,
                    None => seq![],
                };
                sel != cur ==> left_before_update(
                    *old(self),
                    sel,
                    leave,
                    old(out)@,
                )
            }),
    {
        let ghost start = out@;
        let ghost ps = self.profiles.profiles@;
        let ghost s1 = apply_change(self.state@, values@);
        let mut staged = self.state.copy();
        let request = apply_batch(&mut staged, values);
        let previous = self.profiles.current;
        let next = self.profiles.state_update(&staged);
        let changed = previous != next;
        let ghost t = transition_actions(profile_at(ps, previous), profile_at(ps, next));
        let ghost leave_s = match profile_at(ps, previous) {
            Some(p) => p.leave@,
            None => seq![],
        };
        let ghost enter_s = match profile_at(ps, next) {
            Some(p) => p.enter@,
            None => seq![],
        };
        proof {
            lemma_quiet_split(t, leave_s, enter_s);
        }
        let ghost before_leave = *self;
        if changed {
            self.leave_profile(previous, ACTION_DEPTH, out);
        }
        let ghost after_leave = out@;
        let ghost leave_self = *self;
        let _ = apply_batch(&mut self.state, values);
        let ghost cb = *self;
        if changed {
            self.enter_profile(next, ACTION_DEPTH, out);
        }
        let ghost after_enter = out@;
        let ghost mid_self = *self;
        self.sync_devices(changed, out);
        proof {
            if changed {
                assert(entered(cb, profile_at(ps, next), ACTION_DEPTH, after_leave, mid_self, after_enter));
                assert(entered_after_change(leave_self, Some(values@), profile_at(ps, next), after_leave, mid_self, after_enter));
                assert(performed(before_leave, leave_of(profile_at(ps, previous)), (ACTION_DEPTH - 1) as u32, old(out)@, leave_self, after_leave));
                assert(refreshed(mid_self, after_enter, *self, out@));
            }
        }
        proof {
            if changed && all_quiet(t) {
                let e = after_enter.drop_last();
                assert(after_enter == e.push(after_enter.last()));
                assert(e.take(after_leave.len() as int) =~= after_enter.take(after_leave.len() as int));
                assert(added(after_leave, e) =~= added(after_leave, after_enter).drop_last());
                lemma_switch_sent(start, after_leave, e, after_enter, leave_s, enter_s, after_enter.last(), change_text(profile_at(ps, next)));
                match mid_self.profiles.current {
                    Some(c) => {
                        lemma_writes_keep_messages(
                            start,
                            after_enter,
                            out@,
                            devices_writes(mid_self.profiles.profiles@[c as int], mid_self.state@, mid_self.devices@, true),
                        );
                    },
                    None => {},
                }
            }
        }
        proof {
            if changed {
                assert(performed(before_leave, leave_s, (ACTION_DEPTH - 1) as u32, old(out)@, leave_self, after_leave));
                assert(left_before_update(*old(self), next, leave_s, old(out)@));
            }
        }
        let ghost mid = *self;
        let ghost om = out@;
        assert(switched_on_change(*old(self), Some(values@), old(out)@, mid, om));
        if let Some(id) = request {
            self.select_profile(&id, ACTION_DEPTH, out);
            assert(selected_via(mid, id@, ACTION_DEPTH, om, *self, out@));
            assert(reselected(*old(self), s1, ACTION_DEPTH, old(out)@, mid, om));
            assert(selected(mid, id@, ACTION_DEPTH, om, *self, out@));
        }
    }

    /// Forgets all state and re-evaluates the active profile; the leave
    /// actions of a profile that this disables still see the old state.
    fn reset_state(&mut self, out: &mut Vec<Effect>)
        requires
            old(self).wf(),
        ensures
            final(self).wf(),
            final(self).same_setup(old(self)),
            reselected(*old(self), empty_view(), ACTION_DEPTH, old(out)@, *final(self), final(out)@),
            switched_on_change(*old(self), None, old(out)@, *final(self), final(out)@),
            ({
                let ps = old(self).profiles.profiles@;
                let cur = old(self).profiles.current;
                let sel = as_index(select(ps, cur, empty_view()));
                let leave = match profile_at(ps, cur) {
                    Some(p) => p.leave@,
                    None => seq![],
                };
                sel != cur ==> left_before_update(
                    *old(self),
                    sel,
                    leave,
                    old(out)@,
                )
            }),
    {
        let ghost start = out@;
        let ghost ps = self.profiles.profiles@;
        let empty = State::new();
        let previous = self.profiles.current;
        let next = self.profiles.state_update(&empty);
        let changed = previous != next;
        let ghost t = transition_actions(profile_at(ps, previous), profile_at(ps, next));
        let ghost leave_s = match profile_at(ps, previous) {
            Some(p) => p.leave@,
            None => seq![],
        };
        let ghost enter_s = match profile_at(ps, next) {
            Some(p) => p.enter@,
            None => seq![],
        };
        proof {
            lemma_quiet_split(t, leave_s, enter_s);
        }
        let ghost before_leave = *self;
        if changed {
            self.leave_profile(previous, ACTION_DEPTH, out);
        }
        let ghost after_leave = out@;
        let ghost leave_self = *self;
        self.state.clear();
        let ghost cb = *self;
        if changed {
            self.enter_profile(next, ACTION_DEPTH, out);
        }
        let ghost after_enter = out@;
        let ghost mid_self = *self;
        self.sync_devices(changed, out);
        proof {
            if changed {
                assert(entered(cb, profile_at(ps, next), ACTION_DEPTH, after_leave, mid_self, after_enter));
                assert(entered_after_change(leave_self, None, profile_at(ps, next), after_leave, mid_self, after_enter));
                assert(performed(before_leave, leave_of(profile_at(ps, previous)), (ACTION_DEPTH - 1) as u32, old(out)@, leave_self, after_leave));
                assert(refreshed(mid_self, after_enter, *self, out@));
            }
        }
        proof {
            if changed && all_quiet(t) {
                let e = after_enter.drop_last();
                assert(after_enter == e.push(after_enter.last()));
                assert(e.take(after_leave.len() as int) =~= after_enter.take(after_leave.len() as int));
                assert(added(after_leave, e) =~= added(after_leave, after_enter).drop_last());
                lemma_switch_sent(start, after_leave, e, after_enter, leave_s, enter_s, after_enter.last(), change_text(profile_at(ps, next)));
                match mid_self.profiles.current {
                    Some(c) => {
                        lemma_writes_keep_messages(
                            start,
                            after_enter,
                            out@,
                            devices_writes(mid_self.profiles.profiles@[c as int], mid_self.state@, mid_self.devices@, true),
                        );
                    },
                    None => {},
                }
            }
            if changed {
                assert(performed(before_leave, leave_s, (ACTION_DEPTH - 1) as u32, old(out)@, leave_self, after_leave));
                assert(left_before_update(*old(self), next, leave_s, old(out)@));
            }
        }
    }

    /// Handles one event and returns the effects to carry out, in order;
    /// none once the remote application has disconnected. Profile changes
    /// set off by enter and leave actions nest at most `ACTION_DEPTH` deep;
    /// a change deeper than that is still made and announced, but its own
    /// enter and leave actions are skipped.
    pub fn handle(&mut self, message: ControlMessage) -> (r: Option<Vec<Effect>>)
        requires
            old(self).wf(),
        ensures
            final(self).wf(),
            final(self).same_setup(old(self)),
            (r is None) == (message is Disconnect),
            message is Disconnect ==> *final(self) == *old(self),
            match message {
                ControlMessage::ContinuousChange { device_id, control, layer, value, raw } => (r matches Some(e)
                    && continuous_done(*old(self), device_id@, control@, layer@, value, raw, seq![], *final(self), e@)),
                ControlMessage::KeyChange { device_id, control, layer, state } => (r matches Some(e) && key_done(
                    *old(self),
                    device_id@,
                    control@,
                    layer@,
                    state,
                    seq![],
                    *final(self),
                    e@,
                )),
                ControlMessage::StateChange { values } => {
                    let ps = old(self).profiles.profiles@;
                    let cur = old(self).profiles.current;
                    let sel = as_index(select(ps, cur, apply_change(old(self).state@, values@)));
                    let leave = match profile_at(ps, cur) {
                        Some(p) => p.leave@,
                        None => seq![],
                    };
                    &&& (r matches Some(e) && state_change_done(*old(self), values@, seq![], *final(self), e@)
                        && changed_then_selected(*old(self), values@, seq![], *final(self), e@))
                    &&& sel != cur ==> left_before_update(
                        *old(self),
                        sel,
                        leave,
                        seq![],
                    )
                },
                ControlMessage::Reset => {
                    let ps = old(self).profiles.profiles@;
                    let cur = old(self).profiles.current;
                    let sel = as_index(select(ps, cur, empty_view()));
                    let leave = match profile_at(ps, cur) {
                        Some(p) => p.leave@,
                        None => seq![],
                    };
                    &&& (r matches Some(e) && reselected(*old(self), empty_view(), ACTION_DEPTH, seq![], *final(self), e@)
                        && switched_on_change(*old(self), None, seq![], *final(self), e@))
                    &&& sel != cur ==> left_before_update(
                        *old(self),
                        sel,
                        leave,
                        seq![],
                    )
                },
                ControlMessage::Disconnect => true,
            },
    {
        let mut out: Vec<Effect> = Vec::new();
        match message {
            ControlMessage::Disconnect => {
                return None;
            },
            ControlMessage::Reset => {
                self.reset_state(&mut out);
            },
            ControlMessage::StateChange { values } => {
                self.update_state(&values, &mut out);
            },
            ControlMessage::ContinuousChange { device_id, control, layer, value, raw } => {
                self.continuous_change(&device_id, &control, &layer, value, raw, &mut out);
            },
            ControlMessage::KeyChange { device_id, control, layer, state } => {
                self.key_change(&device_id, &control, &layer, state, &mut out);
            },
        }
        Some(out)
    }

    /// A controller over loaded devices and profiles with an empty state.
    /// The active profile, if any, is recorded in the state and its enter
    /// actions are carried out; their effects are returned. As in `handle`,
    /// profile changes that these actions set off nest at most
    /// `ACTION_DEPTH` deep.
    pub fn new(devices: Vec<Device>, profiles: Profiles) -> (r: (Controller, Vec<Effect>))
        requires
            profiles.wf(),
            forall|i: int| 0 <= i < devices@.len() ==> (#[trigger] devices@[i]).wf(),
        ensures
            r.0.wf(),
            r.0.profiles.profiles == profiles.profiles,
            r.0.devices@.len() == devices@.len(),
            match profiles.current {
                Some(c) => all_remote(profiles.profiles@[c as int].enter@) ==> {
                    &&& r.0.profiles == profiles
                    &&& r.0.devices == devices
                    &&& r.0.state@ == apply_value(
                        empty_view(),
                        StateValue::String {
                            parameter: StringParam::Profile,
                            value: Some(profiles.profiles@[c as int].id),
                        },
                    )
                    &&& r.1@ == remote_effects(profiles.profiles@[c as int].enter@)
                },
                None => r.0.profiles == profiles && r.0.devices == devices && r.0.state@ == empty_view()
                    && r.1@.len() == 0,
            },
            started(profiles, devices, r.0, r.1@),
            match profiles.current {
                Some(c) => all_quiet(profiles.profiles@[c as int].enter@) ==> {
                    &&& r.0.profiles == profiles
                    &&& r.0.state@ == with_profile_entry(empty_view(), Some(profiles.profiles@[c as int]))
                    &&& messages_of(r.1@) == remote_sends(profiles.profiles@[c as int].enter@)
                },
                None => true,
            },
    {
        let ghost ps0 = profiles;
        let ghost ds0 = devices;
        let mut controller = Controller { devices, profiles, state: State::new() };
        let mut out: Vec<Effect> = Vec::new();
        if let Some(c) = controller.profiles.current {
            let id = controller.profiles.profiles[c].id.clone();
            controller.state.set_string(StringParam::Profile, Some(id));
            let enter = controller.profiles.profiles[c].enter_actions();
            let ghost cb = controller;
            controller.perform_actions(enter, ACTION_DEPTH, &mut out);
            assert(started(ps0, ds0, controller, out@));
            assert(added(Seq::<Effect>::empty(), out@) =~= out@);
            assert(Seq::<Effect>::empty() + remote_effects(controller.profiles.profiles@[c as int].enter@)
                =~= remote_effects(controller.profiles.profiles@[c as int].enter@));
        }
        assert(started(ps0, ds0, controller, out@));
        (controller, out)
    }
}

/// When the active profile `a` is disabled by a state change and `b` is the
/// first enabled profile in identifier order, `b` becomes active and the
/// actions fire in this order: all of `a`'s leave actions, then all of `b`'s
/// enter actions.
pub proof fn lemma_leave_before_enter(ps: Seq<Profile>, a: usize, b: usize, s: StateView)
    requires
        a < ps.len(),
        !ps[a as int].spec_is_enabled(s),
        is_least_enabled(ps, s, b as int),
    ensures
        as_index(select(ps, Some(a), s)) == Some(b),
        transition_actions(profile_at(ps, Some(a)), profile_at(ps, Some(b))) == ps[a as int].leave@
            + ps[b as int].enter@,
{
    lemma_switch_to_first_enabled(ps, a, b as int, s);
}

} // verus!
