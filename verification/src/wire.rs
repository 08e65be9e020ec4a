//! MIDI channel messages as they go over the wire.

use crate::patch::{Patch, PatchView, DATA_MAX};
use crate::zone::{channel_numbers, Zone, CHANNELS};
use vstd::prelude::*;

verus! {

/// Status byte of a Control Change on channel 0.
pub const CONTROL_CHANGE: u8 = 0xB0;

/// Status byte of a Program Change on channel 0.
pub const PROGRAM_CHANGE: u8 = 0xC0;

/// Controller number of Bank Select, most significant byte.
pub const BANK_SELECT_MSB: u8 = 0;

/// Controller number of Bank Select, least significant byte.
pub const BANK_SELECT_LSB: u8 = 32;

/// The bytes of a Control Change: the status byte with the channel in its
/// low nibble, then the controller number and the value.
pub open spec fn control_change_bytes(channel: nat, controller: nat, value: nat) -> Seq<u8> {
    seq![(CONTROL_CHANGE + channel) as u8, controller as u8, value as u8]
}

/// The bytes of a Program Change: the status byte with the channel in its
/// low nibble, then the program number.
pub open spec fn program_change_bytes(channel: nat, program: nat) -> Seq<u8> {
    seq![(PROGRAM_CHANGE + channel) as u8, program as u8]
}

/// Encodes a Control Change. `None` when the channel is above 15 or the
/// controller or the value above 127.
pub fn control_change(channel: u8, controller: u8, value: u8) -> (bytes: Option<Vec<u8>>)
    ensures
        bytes.is_some() <==> (channel < CHANNELS && controller <= DATA_MAX && value <= DATA_MAX),
        bytes matches Some(b) ==> {
            &&& b@ == control_change_bytes(channel as nat, controller as nat, value as nat)
            &&& b@[0] >> 4 == 0xB
            &&& b@[0] & 0x0F == channel
        },
{
    if channel < CHANNELS && controller <= DATA_MAX && value <= DATA_MAX {
        let status: u8 = CONTROL_CHANGE + channel;
        assert(status >> 4 == 0xB && status & 0x0F == channel) by (bit_vector)
            requires
                channel < 16,
                status == 0xB0 + channel,
        ;
        let mut bytes: Vec<u8> = Vec::new();
        bytes.push(status);
        bytes.push(controller);
        bytes.push(value);
        Some(bytes)
    } else {
        None
    }
}

/// Encodes a Program Change. `None` when the channel is above 15 or the
/// program above 127.
pub fn program_change(channel: u8, program: u8) -> (bytes: Option<Vec<u8>>)
    ensures
        bytes.is_some() <==> (channel < CHANNELS && program <= DATA_MAX),
        bytes matches Some(b) ==> {
            &&& b@ == program_change_bytes(channel as nat, program as nat)
            &&& b@[0] >> 4 == 0xC
            &&& b@[0] & 0x0F == channel
        },
{
    if channel < CHANNELS && program <= DATA_MAX {
        let status: u8 = PROGRAM_CHANGE + channel;
        assert(status >> 4 == 0xC && status & 0x0F == channel) by (bit_vector)
            requires
                channel < 16,
                status == 0xC0 + channel,
        ;
        let mut bytes: Vec<u8> = Vec::new();
        bytes.push(status);
        bytes.push(program);
        Some(bytes)
    } else {
        None
    }
}

/// The message at position `index` of the sequence that selects `patch`
/// on `channels`. Each channel gets three messages in a row: Bank Select
/// MSB, Bank Select LSB, Program Change.
pub open spec fn command_at(patch: PatchView, channels: Seq<nat>, index: int) -> Seq<u8> {
    let channel = channels[index / 3];
    if index % 3 == 0 {
        control_change_bytes(channel, BANK_SELECT_MSB as nat, patch.bank_msb)
    } else if index % 3 == 1 {
        control_change_bytes(channel, BANK_SELECT_LSB as nat, patch.bank_lsb)
    } else {
        program_change_bytes(channel, patch.program_change)
    }
}

/// The complete, ordered message sequence that selects `patch` on
/// `channels`: the three messages of the first channel, then those of the
/// second, and so on.
pub open spec fn commands_of(patch: PatchView, channels: Seq<nat>) -> Seq<Seq<u8>> {
    Seq::new(3 * channels.len(), |index: int| command_at(patch, channels, index))
}

/// The byte sequences of a list of messages.
pub open spec fn wire(messages: Seq<Vec<u8>>) -> Seq<Seq<u8>> {
    messages.map_values(|m: Vec<u8>| m@)
}

/// Builds the message sequence that selects `patch` in `zone`.
pub fn command_sequence(patch: &Patch, zone: Zone) -> (messages: Vec<Vec<u8>>)
    ensures
        wire(messages@) == commands_of(patch@, zone@.channels()),
        messages@.len() == 3 * zone@.channels().len(),
        messages@.len() >= 3,
{
    let channels = zone.channels();
    let program = patch.program_change();
    let msb = patch.bank_msb();
    let lsb = patch.bank_lsb();
    let mut messages: Vec<Vec<u8>> = Vec::new();
    let mut i: usize = 0;
    while i < channels.len()
        invariant
            i <= channels@.len(),
            channel_numbers(channels@) == zone@.channels(),
            forall|k: int| 0 <= k < channels@.len() ==> #[trigger] channels@[k] < CHANNELS,
            program == patch@.program_change,
            msb == patch@.bank_msb,
            lsb == patch@.bank_lsb,
            program <= DATA_MAX,
            msb <= DATA_MAX,
            lsb <= DATA_MAX,
            messages@.len() == 3 * i,
            forall|k: int|
                0 <= k < messages@.len() ==> (#[trigger] messages@[k])@ == command_at(
                    patch@,
                    zone@.channels(),
                    k,
                ),
        decreases channels@.len() - i,
    {
        let channel = channels[i];
        let select_msb = control_change(channel, BANK_SELECT_MSB, msb).unwrap();
        let select_lsb = control_change(channel, BANK_SELECT_LSB, lsb).unwrap();
        let change = program_change(channel, program).unwrap();
        messages.push(select_msb);
        messages.push(select_lsb);
        messages.push(change);
        i += 1;
    }
    messages
}

} // verus!
