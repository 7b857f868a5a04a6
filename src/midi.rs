use midi_control::MidiMessage;
use vstd::prelude::*;

verus! {

/// The channel messages that the engine reacts to, as plain values.
#[derive(PartialEq, Eq, Structural, Clone, Copy, Debug)]
pub enum MidiInput {
    NoteOn { channel: u8, key: u8, velocity: u8 },
    NoteOff { channel: u8, key: u8, velocity: u8 },
    ControlChange { channel: u8, control: u8, value: u8 },
    Other,
}

/// The status byte of a system exclusive message.
pub const SYSEX: u8 = 0xF0;

/// How a raw channel message reads: the high nibble of the status byte
/// gives the kind, the low nibble the channel.
pub open spec fn midi_input_of(data: Seq<u8>) -> MidiInput {
    if data.len() < 3 || data[0] >= 0xF0 {
        MidiInput::Other
    } else if data[0] / 16 == 8 {
        MidiInput::NoteOff { channel: data[0] % 16, key: data[1], velocity: data[2] }
    } else if data[0] / 16 == 9 {
        MidiInput::NoteOn { channel: data[0] % 16, key: data[1], velocity: data[2] }
    } else if data[0] / 16 == 11 {
        MidiInput::ControlChange { channel: data[0] % 16, control: data[1], value: data[2] }
    } else {
        MidiInput::Other
    }
}

pub open spec fn control_change_message(channel: u8, control: u8, value: u8) -> Seq<u8> {
    seq![(0xB0 + channel) as u8, control, value]
}

pub open spec fn note_on_message(channel: u8, note: u8, velocity: u8) -> Seq<u8> {
    seq![(0x90 + channel) as u8, note, velocity]
}

pub open spec fn note_off_message(channel: u8, note: u8, velocity: u8) -> Seq<u8> {
    seq![(0x80 + channel) as u8, note, velocity]
}

/// Relies on `MidiMessage::from(&[u8])` of midi_control: three bytes or more,
/// read by the status byte's kind and channel. A system exclusive status is
/// left out: that branch of the crate indexes past short buffers.
#[verifier::external_body]
fn decode_message(data: &[u8]) -> (r: MidiInput)
    requires
        data@.len() < 3 || data@[0] != SYSEX,
    ensures
        r == midi_input_of(data@),
{
    match MidiMessage::from(data) {
        MidiMessage::NoteOn(c, e) => MidiInput::NoteOn { channel: c as u8, key: e.key, velocity: e.value },
        MidiMessage::NoteOff(c, e) => MidiInput::NoteOff { channel: c as u8, key: e.key, velocity: e.value },
        MidiMessage::ControlChange(c, e) => MidiInput::ControlChange { channel: c as u8, control: e.control, value: e.value },
        _ => MidiInput::Other,
    }
}

/// Reads a raw message as received from a device.
pub fn decode(data: &[u8]) -> (r: MidiInput)
    ensures
        r == midi_input_of(data@),
{
    if data.len() >= 3 && data[0] == SYSEX {
        return MidiInput::Other;
    }
    decode_message(data)
}

/// Relies on midi_control's `control_change` and its conversion of a message
/// into the bytes to send.
#[verifier::external_body]
pub(crate) fn control_change_bytes(channel: u8, control: u8, value: u8) -> (r: Vec<u8>)
    requires
        channel < 16,
    ensures
        r@ == control_change_message(channel, control, value),
{
    let channel = midi_control::Channel::from(channel);
    midi_control::control_change(channel, control, value).into()
}

/// Relies on midi_control's `note_on` and its conversion of a message into
/// the bytes to send.
#[verifier::external_body]
pub(crate) fn note_on_bytes(channel: u8, note: u8, velocity: u8) -> (r: Vec<u8>)
    requires
        channel < 16,
    ensures
        r@ == note_on_message(channel, note, velocity),
{
    let channel = midi_control::Channel::from(channel);
    midi_control::note_on(channel, note, velocity).into()
}

/// Relies on midi_control's `note_off` and its conversion of a message into
/// the bytes to send.
#[verifier::external_body]
pub(crate) fn note_off_bytes(channel: u8, note: u8, velocity: u8) -> (r: Vec<u8>)
    requires
        channel < 16,
    ensures
        r@ == note_off_message(channel, note, velocity),
{
    let channel = midi_control::Channel::from(channel);
    midi_control::note_off(channel, note, velocity).into()
}

} // verus!
