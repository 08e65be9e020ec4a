//! The patch-switch protocol as a state machine.
//!
//! The machine decides; its caller owns the transport. The caller feeds
//! it events (the switch was asked for, a message went out, a message
//! could not be written) and carries out the action it answers with. One
//! machine serves one attempt: there are no retries, and a failed attempt
//! is never resumed.

use crate::patch::{Patch, PatchView};
use crate::wire::{
    command_sequence, commands_of, control_change_bytes, program_change_bytes, wire,
    BANK_SELECT_LSB, BANK_SELECT_MSB,
};
use crate::zone::{Zone, ZoneView};
use vstd::prelude::*;

verus! {

/// Why a patch switch failed.
#[derive(Clone, Copy, Debug, PartialEq, Eq, Structural)]
pub enum SwitchError {
    /// No transport was open; nothing was sent.
    NotConnected,
    /// The transport refused a message; the attempt was given up there.
    TransmitFailure,
}

/// Where one attempt stands.
#[derive(Clone, Copy, Debug, PartialEq, Eq, Structural)]
pub enum SwitchState {
    /// Nothing has been asked for yet.
    Idle,
    /// The message at this position of the command sequence has been
    /// handed out and its fate is awaited; all before it went out.
    Sending(usize),
    /// Every message went out.
    Done,
    /// The attempt is over and failed.
    Failed(SwitchError),
}

/// Which of a channel's three messages a position of the command
/// sequence holds.
#[derive(Clone, Copy, Debug, PartialEq, Eq, Structural)]
pub enum Stage {
    BankMsb,
    BankLsb,
    ProgramChange,
}

/// What the caller reports to the machine.
#[derive(Clone, Copy, Debug, PartialEq, Eq, Structural)]
pub enum SwitchEvent {
    /// The switch is asked for; `connected` says whether a transport is open.
    Begin { connected: bool },
    /// The message last handed out was written to the transport.
    Sent,
    /// The message last handed out could not be written.
    SendFailed,
}

/// What the machine asks of the caller.
#[derive(Debug, PartialEq, Eq)]
pub enum SwitchAction {
    /// Write these bytes to the transport, then report `Sent` or `SendFailed`.
    Transmit(Vec<u8>),
    /// The switch succeeded; the caller may now record it.
    Succeed,
    /// The switch failed; the caller must not record it.
    Fail(SwitchError),
    /// The event does not fit the state; nothing changed.
    Nothing,
}

/// Mathematical model of a [`SwitchAction`].
pub enum ActionView {
    Transmit(Seq<u8>),
    Succeed,
    Fail(SwitchError),
    Nothing,
}

impl View for SwitchAction {
    type V = ActionView;

    open spec fn view(&self) -> ActionView {
        match *self {
            SwitchAction::Transmit(bytes) => ActionView::Transmit(bytes@),
            SwitchAction::Succeed => ActionView::Succeed,
            SwitchAction::Fail(error) => ActionView::Fail(error),
            SwitchAction::Nothing => ActionView::Nothing,
        }
    }
}

/// Mathematical model of a [`PatchSwitch`]: the messages to send and
/// where the attempt stands.
pub struct SwitchView {
    pub commands: Seq<Seq<u8>>,
    pub state: SwitchState,
}

impl SwitchView {
    /// There is something to send, and a message in flight is one of the
    /// commands.
    pub open spec fn valid(self) -> bool {
        &&& self.commands.len() > 0
        &&& self.state matches SwitchState::Sending(at) ==> at < self.commands.len()
    }

    /// The state after `event`, and the action that answers it.
    pub open spec fn step(self, event: SwitchEvent) -> (SwitchView, ActionView) {
        match (self.state, event) {
            (SwitchState::Idle, SwitchEvent::Begin { connected }) => {
                if connected {
                    (self.at(SwitchState::Sending(0)), ActionView::Transmit(self.commands[0]))
                } else {
                    (
                        self.at(SwitchState::Failed(SwitchError::NotConnected)),
                        ActionView::Fail(SwitchError::NotConnected),
                    )
                }
            },
            (SwitchState::Sending(at), SwitchEvent::Sent) => {
                if at + 1 < self.commands.len() {
                    (
                        self.at(SwitchState::Sending((at + 1) as usize)),
                        ActionView::Transmit(self.commands[at + 1]),
                    )
                } else {
                    (self.at(SwitchState::Done), ActionView::Succeed)
                }
            },
            (SwitchState::Sending(_), SwitchEvent::SendFailed) => (
                self.at(SwitchState::Failed(SwitchError::TransmitFailure)),
                ActionView::Fail(SwitchError::TransmitFailure),
            ),
            _ => (self, ActionView::Nothing),
        }
    }

    /// The same commands in another state.
    pub open spec fn at(self, state: SwitchState) -> SwitchView {
        SwitchView { commands: self.commands, state }
    }

    /// How many messages are still to be handed out, at most.
    pub open spec fn messages_left(self) -> nat {
        match self.state {
            SwitchState::Idle => self.commands.len(),
            SwitchState::Sending(at) => (self.commands.len() - at - 1) as nat,
            _ => 0,
        }
    }

    /// A fresh attempt to select `patch` in `zone`.
    pub open spec fn idle(patch: PatchView, zone: ZoneView) -> SwitchView {
        SwitchView { commands: commands_of(patch, zone.channels()), state: SwitchState::Idle }
    }

    /// The state reached after `events`, one after the other, together
    /// with the messages handed out for transmission on the way.
    pub open spec fn run(self, events: Seq<SwitchEvent>) -> (SwitchView, Seq<Seq<u8>>)
        decreases events.len(),
    {
        if events.len() == 0 {
            (self, Seq::empty())
        } else {
            let (before, handed) = self.run(events.drop_last());
            let (after, action) = before.step(events.last());
            match action {
                ActionView::Transmit(bytes) => (after, handed.push(bytes)),
                _ => (after, handed),
            }
        }
    }
}

/// Of the messages handed out, those that were written to the transport:
/// all of them, but for the last while its fate is awaited or when it
/// failed.
pub open spec fn delivered(state: SwitchState, handed: Seq<Seq<u8>>) -> Seq<Seq<u8>> {
    match state {
        SwitchState::Sending(_) => handed.drop_last(),
        SwitchState::Failed(SwitchError::TransmitFailure) => handed.drop_last(),
        _ => handed,
    }
}

/// A switch is asked for with a transport open, and the first `sent`
/// messages are written.
pub open spec fn good_sends(sent: nat) -> Seq<SwitchEvent> {
    seq![SwitchEvent::Begin { connected: true }] + Seq::new(sent, |i: int| SwitchEvent::Sent)
}

/// The stage of the message at position `at` of a command sequence.
pub open spec fn stage_at(at: int) -> Stage {
    if at % 3 == 0 {
        Stage::BankMsb
    } else if at % 3 == 1 {
        Stage::BankLsb
    } else {
        Stage::ProgramChange
    }
}

/// One attempt to switch the instrument to a patch.
pub struct PatchSwitch {
    commands: Vec<Vec<u8>>,
    state: SwitchState,
}

impl View for PatchSwitch {
    type V = SwitchView;

    closed spec fn view(&self) -> SwitchView {
        SwitchView { commands: wire(self.commands@), state: self.state }
    }
}

impl PatchSwitch {
    #[verifier::type_invariant]
    spec fn inv(self) -> bool {
        self@.valid()
    }

    /// A fresh attempt to select `patch` in `zone`, in state `Idle`.
    pub fn new(patch: &Patch, zone: Zone) -> (machine: PatchSwitch)
        ensures
            machine@.commands == commands_of(patch@, zone@.channels()),
            machine@.state == SwitchState::Idle,
            machine@.valid(),
    {
        let commands = command_sequence(patch, zone);
        PatchSwitch { commands, state: SwitchState::Idle }
    }

    /// Where the attempt stands.
    pub fn state(&self) -> (state: SwitchState)
        ensures
            state == self@.state,
            self@.valid(),
    {
        proof {
            use_type_invariant(self);
        }
        self.state
    }

    /// Which of its channel's three messages is in flight, if one is.
    pub fn stage(&self) -> (stage: Option<Stage>)
        ensures
            stage == match self@.state {
                SwitchState::Sending(at) => Some(stage_at(at as int)),
                _ => None::<Stage>,
            },
    {
        match self.state {
            SwitchState::Sending(at) => {
                let place = at % 3;
                if place == 0 {
                    Some(Stage::BankMsb)
                } else if place == 1 {
                    Some(Stage::BankLsb)
                } else {
                    Some(Stage::ProgramChange)
                }
            },
            _ => None,
        }
    }

    /// The outcome, once the attempt is over.
    pub fn outcome(&self) -> (outcome: Option<Result<(), SwitchError>>)
        ensures
            outcome == match self@.state {
                SwitchState::Done => Some(Ok::<(), SwitchError>(())),
                SwitchState::Failed(error) => Some(Err::<(), SwitchError>(error)),
                _ => None::<Result<(), SwitchError>>,
            },
    {
        match self.state {
            SwitchState::Done => Some(Ok(())),
            SwitchState::Failed(error) => Some(Err(error)),
            _ => None,
        }
    }

    /// Takes one event and answers with the next action.
    pub fn step(&mut self, event: SwitchEvent) -> (action: SwitchAction)
        ensures
            (final(self)@, action@) == old(self)@.step(event),
            final(self)@.valid(),
    {
        proof {
            use_type_invariant(&*self);
        }
        match (self.state, event) {
            (SwitchState::Idle, SwitchEvent::Begin { connected }) => {
                if connected {
                    let bytes = self.commands[0].clone();
                    self.state = SwitchState::Sending(0);
                    SwitchAction::Transmit(bytes)
                } else {
                    self.state = SwitchState::Failed(SwitchError::NotConnected);
                    SwitchAction::Fail(SwitchError::NotConnected)
                }
            },
            (SwitchState::Sending(at), SwitchEvent::Sent) => {
                let total = self.commands.len();
                if at + 1 < total {
                    let bytes = self.commands[at + 1].clone();
                    self.state = SwitchState::Sending(at + 1);
                    SwitchAction::Transmit(bytes)
                } else {
                    self.state = SwitchState::Done;
                    SwitchAction::Succeed
                }
            },
            (SwitchState::Sending(_), SwitchEvent::SendFailed) => {
                self.state = SwitchState::Failed(SwitchError::TransmitFailure);
                SwitchAction::Fail(SwitchError::TransmitFailure)
            },
            _ => SwitchAction::Nothing,
        }
    }
}

/// Each message handed out brings the attempt nearer to its end, so a
/// caller that goes on only while it is given a message to write stops
/// after at most as many messages as there are commands.
pub proof fn lemma_transmit_is_progress(before: SwitchView, event: SwitchEvent)
    requires
        before.valid(),
        before.commands.len() <= usize::MAX,
    ensures
        before.step(event).0.valid(),
        before.step(event).1 is Transmit ==> before.step(event).0.messages_left()
            < before.messages_left(),
        !(before.step(event).1 is Transmit) ==> before.step(event).0.messages_left()
            <= before.messages_left(),
{
}

/// In the full range the command sequence is exactly three messages on
/// the first channel: Bank Select MSB, Bank Select LSB, Program Change.
pub proof fn lemma_full_range_commands(patch: PatchView)
    ensures
        commands_of(patch, ZoneView::full_range().channels()) == seq![
            control_change_bytes(0, BANK_SELECT_MSB as nat, patch.bank_msb),
            control_change_bytes(0, BANK_SELECT_LSB as nat, patch.bank_lsb),
            program_change_bytes(0, patch.program_change),
        ],
{
}

/// Every channel of a zone gets its three messages side by side and in
/// the mandatory order; the messages of two channels never interleave.
pub proof fn lemma_commands_by_channel(patch: PatchView, zone: ZoneView, place: int)
    requires
        0 <= place < zone.channels().len(),
    ensures
        commands_of(patch, zone.channels()).len() == 3 * zone.channels().len(),
        commands_of(patch, zone.channels())[3 * place] == control_change_bytes(
            zone.channels()[place],
            BANK_SELECT_MSB as nat,
            patch.bank_msb,
        ),
        commands_of(patch, zone.channels())[3 * place + 1] == control_change_bytes(
            zone.channels()[place],
            BANK_SELECT_LSB as nat,
            patch.bank_lsb,
        ),
        commands_of(patch, zone.channels())[3 * place + 2] == program_change_bytes(
            zone.channels()[place],
            patch.program_change,
        ),
{
}

/// Whatever the events, the machine hands out the commands in order and
/// without gaps: what it has handed out is always a prefix of the command
/// sequence, as long as the state says.
pub proof fn lemma_run_hands_out_prefix(patch: PatchView, zone: ZoneView, events: Seq<SwitchEvent>)
    requires
        patch.valid(),
        zone.valid(),
    ensures
        ({
            let start = SwitchView::idle(patch, zone);
            let (end, handed) = start.run(events);
            &&& end.commands == start.commands
            &&& end.valid()
            &&& handed.len() <= start.commands.len()
            &&& handed == start.commands.take(handed.len() as int)
            &&& match end.state {
                SwitchState::Idle => handed.len() == 0,
                SwitchState::Sending(at) => handed.len() == at + 1,
                SwitchState::Done => handed.len() == start.commands.len(),
                SwitchState::Failed(SwitchError::NotConnected) => handed.len() == 0,
                SwitchState::Failed(SwitchError::TransmitFailure) => handed.len() >= 1,
            }
        }),
    decreases events.len(),
{
    if events.len() > 0 {
        lemma_run_hands_out_prefix(patch, zone, events.drop_last());
    }
}

/// A switch that succeeded delivered exactly the command sequence, in
/// order: for each channel Bank Select MSB, Bank Select LSB, Program
/// Change.
pub proof fn lemma_success_delivers_all(
    patch: PatchView,
    zone: ZoneView,
    events: Seq<SwitchEvent>,
)
    requires
        patch.valid(),
        zone.valid(),
        SwitchView::idle(patch, zone).run(events).0.state == SwitchState::Done,
    ensures
        delivered(SwitchState::Done, SwitchView::idle(patch, zone).run(events).1) == commands_of(
            patch,
            zone.channels(),
        ),
{
    lemma_run_hands_out_prefix(patch, zone, events);
}

/// With a transport open and `sent` messages written, fewer than there
/// are commands, the machine awaits the fate of the next one.
pub proof fn lemma_good_sends(patch: PatchView, zone: ZoneView, sent: nat)
    requires
        patch.valid(),
        zone.valid(),
        sent < 3 * zone.channels().len(),
    ensures
        SwitchView::idle(patch, zone).run(good_sends(sent)) == (
            SwitchView::idle(patch, zone).at(SwitchState::Sending(sent as usize)),
            commands_of(patch, zone.channels()).take(sent as int + 1),
        ),
    decreases sent,
{
    let start = SwitchView::idle(patch, zone);
    let events = good_sends(sent);
    if sent == 0 {
        assert(start.run(events.drop_last()) == (start, Seq::<Seq<u8>>::empty()));
    } else {
        lemma_good_sends(patch, zone, (sent - 1) as nat);
        assert(events.drop_last() =~= good_sends((sent - 1) as nat));
    }
}

/// A successful switch in the full range delivered exactly three
/// messages, in this order: Control Change 0 with the bank MSB, Control
/// Change 32 with the bank LSB, Program Change with the program number.
pub proof fn lemma_full_range_success(patch: PatchView, events: Seq<SwitchEvent>)
    requires
        patch.valid(),
        SwitchView::idle(patch, ZoneView::full_range()).run(events).0.state == SwitchState::Done,
    ensures
        delivered(
            SwitchState::Done,
            SwitchView::idle(patch, ZoneView::full_range()).run(events).1,
        ) == seq![
            control_change_bytes(0, BANK_SELECT_MSB as nat, patch.bank_msb),
            control_change_bytes(0, BANK_SELECT_LSB as nat, patch.bank_lsb),
            program_change_bytes(0, patch.program_change),
        ],
{
    lemma_success_delivers_all(patch, ZoneView::full_range(), events);
}

/// With a transport open and every message written, the switch succeeds.
pub proof fn lemma_all_sent_succeeds(patch: PatchView, zone: ZoneView)
    requires
        patch.valid(),
        zone.valid(),
    ensures
        SwitchView::idle(patch, zone).run(good_sends(3 * zone.channels().len())) == (
            SwitchView::idle(patch, zone).at(SwitchState::Done),
            commands_of(patch, zone.channels()),
        ),
{
    let count = 3 * zone.channels().len();
    lemma_good_sends(patch, zone, (count - 1) as nat);
    assert(good_sends(count).drop_last() =~= good_sends((count - 1) as nat));
}

/// When the transport refuses the message after `sent` good ones, the
/// switch fails with `TransmitFailure`, and exactly the first `sent`
/// commands were delivered.
pub proof fn lemma_failed_send(patch: PatchView, zone: ZoneView, sent: nat)
    requires
        patch.valid(),
        zone.valid(),
        sent < 3 * zone.channels().len(),
    ensures
        ({
            let events = good_sends(sent).push(SwitchEvent::SendFailed);
            let (end, handed) = SwitchView::idle(patch, zone).run(events);
            &&& end.state == SwitchState::Failed(SwitchError::TransmitFailure)
            &&& delivered(end.state, handed) == commands_of(patch, zone.channels()).take(
                sent as int,
            )
        }),
{
    lemma_good_sends(patch, zone, sent);
    assert(good_sends(sent).push(SwitchEvent::SendFailed).drop_last() =~= good_sends(sent));
}

/// Without an open transport the switch fails with `NotConnected` and
/// nothing is handed out.
pub proof fn lemma_not_connected(patch: PatchView, zone: ZoneView)
    ensures
        SwitchView::idle(patch, zone).run(seq![SwitchEvent::Begin { connected: false }]) == (
            SwitchView::idle(patch, zone).at(SwitchState::Failed(SwitchError::NotConnected)),
            Seq::<Seq<u8>>::empty(),
        ),
{
    let start = SwitchView::idle(patch, zone);
    let events = seq![SwitchEvent::Begin { connected: false }];
    assert(start.run(events.drop_last()) == (start, Seq::<Seq<u8>>::empty()));
}

} // verus!
