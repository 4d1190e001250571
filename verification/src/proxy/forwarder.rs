//! Handing messages on from one stream to another without losing track of either end.

use vstd::prelude::*;

verus! {

/// Which way messages go.
#[derive(Debug, Clone, Copy, PartialEq, Eq, Structural)]
pub enum Direction {
    /// From the client to the upstream. The client may end its side and keep receiving, so the end
    /// of this direction does not end the other.
    ToUpstream,
    /// From the upstream to the client. An upstream's error is passed on; where the upstream's
    /// channel is shared, it is given up.
    ToClient { shared_channel: bool },
}

/// What the forwarder waits for.
#[derive(Debug, Clone, Copy, PartialEq, Eq, Structural)]
pub enum ForwarderState {
    /// A message.
    Reading,
    /// Room for the message that it holds.
    Reserving,
    /// Nothing: it has stopped.
    Stopped,
}

/// What a forwarder is told. Where several things happen at once, the earlier in this list comes
/// first.
#[derive(Debug, Clone, Copy, PartialEq, Eq, Structural)]
pub enum ForwarderEvent {
    /// The stream has been cancelled.
    Cancelled,
    /// Nobody takes messages any more.
    OutputClosed,
    /// A message has come.
    Message,
    /// The input has failed.
    InputFailed,
    /// The input has ended.
    InputEnded,
    /// There is room.
    Room,
    /// There will be no room any more.
    NoRoom,
}

/// What a forwarder does next.
#[derive(Debug, Clone, Copy, PartialEq, Eq, Structural)]
pub enum ForwarderAction {
    /// Hold the message, and wait for room.
    WaitForRoom,
    /// Hand the message over, and read on.
    SendAndRead,
    /// Pass the input's error on and stop, after giving the upstream's channel up where that is
    /// said.
    PassErrorAndStop { invalidate: bool },
    /// Stop; a message that is held is dropped.
    Stop,
}

/// Hands messages on in one direction.
#[derive(Debug, Clone, Copy, PartialEq, Eq, Structural)]
pub struct Forwarder {
    pub direction: Direction,
    pub state: ForwarderState,
}

/// The event can come in this state.
pub open spec fn can_come(state: ForwarderState, event: ForwarderEvent) -> bool {
    match state {
        ForwarderState::Reading => event != ForwarderEvent::Room && event != ForwarderEvent::NoRoom,
        ForwarderState::Reserving => event == ForwarderEvent::Room || event
            == ForwarderEvent::NoRoom || event == ForwarderEvent::Cancelled || event
            == ForwarderEvent::OutputClosed,
        ForwarderState::Stopped => false,
    }
}

/// What follows from an event.
pub open spec fn action_on(direction: Direction, event: ForwarderEvent) -> ForwarderAction {
    match event {
        ForwarderEvent::Message => ForwarderAction::WaitForRoom,
        ForwarderEvent::Room => ForwarderAction::SendAndRead,
        ForwarderEvent::InputFailed => match direction {
            Direction::ToUpstream => ForwarderAction::Stop,
            Direction::ToClient { shared_channel } => ForwarderAction::PassErrorAndStop {
                invalidate: shared_channel,
            },
        },
        _ => ForwarderAction::Stop,
    }
}

/// The state after an action.
pub open spec fn state_after(action: ForwarderAction) -> ForwarderState {
    match action {
        ForwarderAction::WaitForRoom => ForwarderState::Reserving,
        ForwarderAction::SendAndRead => ForwarderState::Reading,
        _ => ForwarderState::Stopped,
    }
}

impl Forwarder {
    /// A forwarder that has not read anything.
    pub fn new(direction: Direction) -> (f: Forwarder)
        ensures
            f == (Forwarder { direction, state: ForwarderState::Reading }),
    {
        Forwarder { direction, state: ForwarderState::Reading }
    }

    /// Takes an event, and says what to do.
    pub fn on_event(&mut self, event: ForwarderEvent) -> (action: ForwarderAction)
        requires
            can_come(old(self).state, event),
        ensures
            action == action_on(old(self).direction, event),
            final(self).direction == old(self).direction,
            final(self).state == state_after(action),
    {
        match event {
            ForwarderEvent::Message => {
                self.state = ForwarderState::Reserving;
                ForwarderAction::WaitForRoom
            },
            ForwarderEvent::Room => {
                self.state = ForwarderState::Reading;
                ForwarderAction::SendAndRead
            },
            ForwarderEvent::InputFailed => {
                self.state = ForwarderState::Stopped;
                match self.direction {
                    Direction::ToUpstream => ForwarderAction::Stop,
                    Direction::ToClient { shared_channel } => ForwarderAction::PassErrorAndStop {
                        invalidate: shared_channel,
                    },
                }
            },
            _ => {
                self.state = ForwarderState::Stopped;
                ForwarderAction::Stop
            },
        }
    }
}

/// The messages read and the messages handed over, after events.
pub open spec fn tally(direction: Direction, events: Seq<ForwarderEvent>) -> (
    ForwarderState,
    nat,
    nat,
)
    decreases events.len(),
{
    if events.len() == 0 {
        (ForwarderState::Reading, 0, 0)
    } else {
        let (state, read, sent) = tally(direction, events.drop_last());
        let event = events.last();
        if can_come(state, event) {
            let action = action_on(direction, event);
            (
                state_after(action),
                if event == ForwarderEvent::Message {
                    read + 1
                } else {
                    read
                },
                if action == ForwarderAction::SendAndRead {
                    sent + 1
                } else {
                    sent
                },
            )
        } else {
            (state, read, sent)
        }
    }
}

/// Every message is handed over before the next is read: while the forwarder reads, all that came
/// has been handed over; while it waits for room, all but one; and when it has stopped, at most one
/// was dropped.
pub proof fn law_at_most_one_message_is_held(direction: Direction, events: Seq<ForwarderEvent>)
    ensures
        ({
            let (state, read, sent) = tally(direction, events);
            match state {
                ForwarderState::Reading => sent == read,
                ForwarderState::Reserving => sent + 1 == read,
                ForwarderState::Stopped => sent <= read <= sent + 1,
            }
        }),
    decreases events.len(),
{
    if events.len() > 0 {
        law_at_most_one_message_is_held(direction, events.drop_last());
    }
}

/// A stream that is cancelled, or whose output is gone, stops the forwarder in whatever it waits
/// for.
pub proof fn law_cancel_always_stops(direction: Direction, state: ForwarderState)
    requires
        state != ForwarderState::Stopped,
    ensures
        can_come(state, ForwarderEvent::Cancelled),
        can_come(state, ForwarderEvent::OutputClosed),
        state_after(action_on(direction, ForwarderEvent::Cancelled)) == ForwarderState::Stopped,
        state_after(action_on(direction, ForwarderEvent::OutputClosed)) == ForwarderState::Stopped,
{
}

/// What comes of each event: a message is held until there is room and then handed over; only an
/// upstream's failure is passed on, and its channel is given up exactly where it is shared; all else stops
/// the forwarder without a word.
pub proof fn law_what_comes_of_an_event(direction: Direction, event: ForwarderEvent)
    ensures
        ({
            let action = action_on(direction, event);
            let to_client = direction is ToClient;
            &&& action == ForwarderAction::WaitForRoom <==> event == ForwarderEvent::Message
            &&& action == ForwarderAction::SendAndRead <==> event == ForwarderEvent::Room
            &&& action is PassErrorAndStop <==> event == ForwarderEvent::InputFailed && to_client
            &&& action is PassErrorAndStop ==> action->invalidate == direction->shared_channel
            &&& state_after(action) == ForwarderState::Reserving <==> event
                == ForwarderEvent::Message
            &&& state_after(action) == ForwarderState::Reading <==> event == ForwarderEvent::Room
        }),
{
}

/// While a forwarder reads, it hears of messages and of the end of its input; while it holds a message,
/// of room alone; of a cancelled stream and a closed output at any time; and when it has stopped, of
/// nothing.
pub proof fn law_what_a_forwarder_hears(state: ForwarderState, event: ForwarderEvent)
    ensures
        can_come(state, event) <==> match event {
            ForwarderEvent::Message => state == ForwarderState::Reading,
            ForwarderEvent::InputFailed => state == ForwarderState::Reading,
            ForwarderEvent::InputEnded => state == ForwarderState::Reading,
            ForwarderEvent::Room => state == ForwarderState::Reserving,
            ForwarderEvent::NoRoom => state == ForwarderState::Reserving,
            ForwarderEvent::Cancelled => state != ForwarderState::Stopped,
            ForwarderEvent::OutputClosed => state != ForwarderState::Stopped,
        },
{
}

} // verus!
