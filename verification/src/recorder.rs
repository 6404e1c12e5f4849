//! The recorder: a peer that writes every published message to a file, one
//! line each.
//!
//! Opening the file and writing to it are the caller's part. What is here
//! registers the recorder with the hub, looks into its channel, and says
//! what to do with what was found.

use crate::channel::{open, poll, Polled};
use crate::hub::{DistributionHub, PeerId};
use futures_channel::mpsc::UnboundedReceiver;
use vstd::prelude::*;
use vstd::string::StringExecFns;

verus! {

/// What the recorder does next.
#[derive(Debug, PartialEq, Eq)]
pub enum RecorderStep {
    /// Append this text to the file: a message and the newline that ends it.
    Append(String),
    /// Nothing has arrived: look again.
    Idle,
    /// The channel is closed: leave the hub and end.
    Stop,
}

/// The line that records `message`.
pub open spec fn line_of(message: Seq<char>) -> Seq<char> {
    message.push('\n')
}

/// Whether `step` is the recorder's answer to what one look into its channel
/// found: a message is written as one line, an empty channel is looked at
/// again, a closed one ends the recorder.
pub open spec fn answers(polled: Polled, step: RecorderStep) -> bool {
    match polled {
        Polled::Message(message) => step matches RecorderStep::Append(line) && line@ == line_of(
            message@,
        ),
        Polled::Empty => step is Idle,
        Polled::Closed => step is Stop,
    }
}

/// What the recorder does after one look into its channel: a message is
/// written as one line, an empty channel is looked at again, a closed one
/// ends the recorder.
pub fn react(polled: Polled) -> (step: RecorderStep)
    ensures
        answers(polled, step),
{
    match polled {
        Polled::Message(message) => {
            let mut line = message;
            proof {
                reveal_strlit("\n");
            }
            line.append("\n");
            proof {
                assert(line@ =~= line_of(message@));
            }
            RecorderStep::Append(line)
        },
        Polled::Empty => RecorderStep::Idle,
        Polled::Closed => RecorderStep::Stop,
    }
}

/// A recorder registered with a hub: its identity and the receiving end of
/// its channel.
pub struct Recorder {
    id: PeerId,
    inbox: UnboundedReceiver<String>,
}

impl Recorder {
    /// The identity under which the recorder is registered.
    pub closed spec fn peer(&self) -> PeerId {
        self.id
    }

    /// Opens a channel and registers its sending end with the hub under
    /// `id`. A peer that was registered under `id` is replaced.
    pub fn attach(hub: &mut DistributionHub, id: PeerId) -> (recorder: Recorder)
        ensures
            recorder.peer() == id,
            final(hub)@.contains_key(id),
            final(hub)@ == old(hub)@.insert(id, final(hub)@[id]),
    {
        let (sender, inbox) = open();
        hub.register(id, sender);
        Recorder { id, inbox }
    }

    /// The identity under which the recorder is registered.
    pub fn id(&self) -> (id: PeerId)
        ensures
            id == self.peer(),
    {
        self.id
    }

    /// Looks into the channel once, without waiting, and says what to do
    /// next. What is found is up to the publishers; the step is the answer
    /// to it: text to append is a message with the newline that ends it, and
    /// nothing but a closed channel stops the recorder.
    pub fn step(&mut self) -> (step: RecorderStep)
        ensures
            final(self).peer() == old(self).peer(),
            exists|polled: Polled| #[trigger] answers(polled, step),
    {
        let polled = poll(&mut self.inbox);
        let ghost found = polled;
        let step = react(polled);
        proof {
            assert(answers(found, step));
        }
        step
    }

    /// Takes the recorder out of the hub.
    pub fn detach(self, hub: &mut DistributionHub)
        ensures
            final(hub)@ == old(hub)@.remove(self.peer()),
    {
        let _ = hub.unregister(self.id);
    }
}

} // verus!
