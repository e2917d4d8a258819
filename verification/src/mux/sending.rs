//! When to send, when to take on messages, and when to wait.
//!
//! A round of segments is sent as long as anything waits on a channel. Messages that came
//! in meanwhile are taken on between two rounds, but not too many at a time, so that they
//! do not hold up those that are being sent. Where nothing waits, the task sleeps until
//! there is a message.
use crate::mux::egress;
use crate::mux::egress::{EgressTask, MAX_SDUS_PER_BATCH};
use crate::mux::segment::Direction;
use crate::mux::ChannelKey;
use vstd::prelude::*;

verus! {

/// What the task is about to do.
#[derive(Debug, Clone, Copy, PartialEq, Eq, Structural)]
pub enum SendingPhase {
    /// Send a round.
    Sending,
    /// Take on messages that came in during a round, at most so many.
    Collecting(usize),
    /// Wait for a message.
    Waiting,
    /// Take on messages that came in with one that was waited for.
    Draining,
    /// End, for no channel is left.
    Ended,
}

/// What came of it.
#[derive(Debug)]
pub enum SendingEvent {
    /// The round was written.
    Written,
    /// There was a message for a channel.
    Message(u16, Direction, Vec<u8>),
    /// There was no message.
    Empty,
    /// There will be no more messages.
    Closed,
}

/// What waits after an event.
pub open spec fn queued(s: Seq<egress::Waiting>, e: SendingEvent) -> Seq<egress::Waiting> {
    match e {
        SendingEvent::Message(protocol_id, direction, m) => egress::enqueued(
            s,
            ChannelKey { protocol_id, direction },
            m@,
        ),
        _ => s,
    }
}

/// Send if anything waits, else wait.
pub open spec fn send_or_wait(s: Seq<egress::Waiting>) -> SendingPhase {
    if s.len() == 0 {
        SendingPhase::Waiting
    } else {
        SendingPhase::Sending
    }
}

/// The phase after an event, where `s` waits behind it.
pub open spec fn next_phase(
    p: SendingPhase,
    e: SendingEvent,
    s: Seq<egress::Waiting>,
) -> SendingPhase {
    match p {
        SendingPhase::Sending => if e is Written {
            SendingPhase::Collecting(MAX_SDUS_PER_BATCH)
        } else {
            p
        },
        SendingPhase::Collecting(n) => if e is Message && n > 1 {
            SendingPhase::Collecting((n - 1) as usize)
        } else {
            send_or_wait(s)
        },
        SendingPhase::Waiting => match e {
            SendingEvent::Message(_, _, _) => SendingPhase::Draining,
            SendingEvent::Closed => SendingPhase::Ended,
            _ => p,
        },
        SendingPhase::Draining => if e is Message {
            p
        } else {
            send_or_wait(s)
        },
        SendingPhase::Ended => p,
    }
}

/// The queues of a connection, and what is about to be done about them.
#[derive(Debug)]
pub struct Sending {
    pub task: EgressTask,
    pub phase: SendingPhase,
}

impl Sending {
    /// Whether the queues are tidy, and nothing is in them where the task waits or has
    /// ended.
    pub open spec fn wf(&self) -> bool {
        &&& self.task.wf()
        &&& self.phase is Waiting || self.phase is Ended ==> self.task@.len() == 0
    }

    /// Starts with the given queues.
    pub fn new(task: EgressTask) -> (r: Sending)
        requires
            task.wf(),
        ensures
            r.wf(),
            r.task == task,
            r.phase == send_or_wait(task@),
    {
        let phase = if task.is_idle() {
            SendingPhase::Waiting
        } else {
            SendingPhase::Sending
        };
        Sending { task, phase }
    }

    fn send_or_wait(&mut self)
        ensures
            final(self).task == old(self).task,
            final(self).phase == send_or_wait(old(self).task@),
    {
        self.phase = if self.task.is_idle() {
            SendingPhase::Waiting
        } else {
            SendingPhase::Sending
        };
    }

    /// Goes on after an event. Once the task has ended nothing changes any more.
    pub fn step(&mut self, event: SendingEvent)
        requires
            old(self).wf(),
        ensures
            final(self).wf(),
            old(self).phase is Ended ==> *final(self) == *old(self),
            !(old(self).phase is Ended) ==> final(self).task@ == queued(old(self).task@, event),
            final(self).phase == next_phase(old(self).phase, event, final(self).task@),
            final(self).task.sdu_size == old(self).task.sdu_size,
            final(self).task.batch_size == old(self).task.batch_size,
    {
        if self.phase == SendingPhase::Ended {
            return;
        }
        let mut is_message: bool = false;
        let mut is_written: bool = false;
        let mut is_closed: bool = false;
        match event {
            SendingEvent::Message(protocol_id, direction, message) => {
                is_message = true;
                self.task.enqueue(protocol_id, direction, message);
            },
            SendingEvent::Written => {
                is_written = true;
            },
            SendingEvent::Closed => {
                is_closed = true;
            },
            SendingEvent::Empty => {},
        }
        match self.phase {
            SendingPhase::Sending => {
                if is_written {
                    self.phase = SendingPhase::Collecting(MAX_SDUS_PER_BATCH);
                }
            },
            SendingPhase::Collecting(n) => {
                if is_message && n > 1 {
                    self.phase = SendingPhase::Collecting(n - 1);
                } else {
                    self.send_or_wait();
                }
            },
            SendingPhase::Waiting => {
                if is_message {
                    self.phase = SendingPhase::Draining;
                } else if is_closed {
                    self.phase = SendingPhase::Ended;
                }
            },
            SendingPhase::Draining => {
                if !is_message {
                    self.send_or_wait();
                }
            },
            SendingPhase::Ended => {},
        }
    }

    /// The writes of a round, with the given time stamps.
    pub fn round(&mut self, times: &Vec<u32>) -> (r: Vec<Vec<u8>>)
        requires
            old(self).wf(),
            times@.len() >= old(self).task@.len(),
        ensures
            final(self).wf(),
            final(self).phase == old(self).phase,
            final(self).task@ == egress::after_round(old(self).task@, old(self).task.sdu_size),
            egress::messages_view(r@) == egress::round_writes(
                egress::round_sdus(old(self).task@, old(self).task.sdu_size, times@),
                old(self).task.batch_size,
            ),
            final(self).task.sdu_size == old(self).task.sdu_size,
            final(self).task.batch_size == old(self).task.batch_size,
    {
        self.task.round(times)
    }
}

/// The phase to which `k` messages in a row lead from `p`, while `s` waits.
pub open spec fn after_messages(
    p: SendingPhase,
    e: SendingEvent,
    s: Seq<egress::Waiting>,
    k: nat,
) -> SendingPhase
    decreases k,
{
    if k == 0 {
        p
    } else {
        next_phase(after_messages(p, e, s, (k - 1) as nat), e, s)
    }
}

/// However many messages come in, no more than `MAX_SDUS_PER_BATCH` of them are taken on
/// before the next round is sent.
pub proof fn lemma_messages_hold_up_no_round(e: SendingEvent, s: Seq<egress::Waiting>, k: nat)
    requires
        e is Message,
        s.len() > 0,
        k <= MAX_SDUS_PER_BATCH,
    ensures
        after_messages(SendingPhase::Collecting(MAX_SDUS_PER_BATCH), e, s, k) == if k
            < MAX_SDUS_PER_BATCH {
            SendingPhase::Collecting((MAX_SDUS_PER_BATCH - k) as usize)
        } else {
            SendingPhase::Sending
        },
    decreases k,
{
    if k > 0 {
        lemma_messages_hold_up_no_round(e, s, (k - 1) as nat);
    }
}

/// The task ends only where there will be no more messages and everything was sent.
pub proof fn lemma_ends_when_all_is_sent(b: Sending, e: SendingEvent, s: Seq<egress::Waiting>)
    requires
        b.wf(),
        !(b.phase is Ended),
        next_phase(b.phase, e, s) is Ended,
    ensures
        e is Closed,
        b.task@.len() == 0,
{
}

/// After a round the task takes on messages, one less each time, before it sends again; once
/// nothing more is there it sends what waits, and waits itself where nothing does. What it waited for is sent together with all that came with it. Only while it
/// waits does it end.
pub proof fn lemma_phases(e: SendingEvent, s: Seq<egress::Waiting>, n: usize)
    ensures
        ({
            let rest = if s.len() > 0 {
                SendingPhase::Sending
            } else {
                SendingPhase::Waiting
            };
            &&& next_phase(SendingPhase::Sending, SendingEvent::Written, s)
                == SendingPhase::Collecting(MAX_SDUS_PER_BATCH)
            &&& !(e is Message) ==> next_phase(SendingPhase::Collecting(n), e, s) == rest
            &&& e is Message && n > 1 ==> next_phase(SendingPhase::Collecting(n), e, s)
                == SendingPhase::Collecting((n - 1) as usize)
            &&& e is Message && n <= 1 ==> next_phase(SendingPhase::Collecting(n), e, s) == rest
            &&& e is Message ==> next_phase(SendingPhase::Waiting, e, s) == SendingPhase::Draining
                && next_phase(SendingPhase::Draining, e, s) == SendingPhase::Draining
            &&& e is Closed <==> next_phase(SendingPhase::Waiting, e, s) == SendingPhase::Ended
            &&& !(e is Message) ==> next_phase(SendingPhase::Draining, e, s) == rest
            &&& next_phase(SendingPhase::Ended, e, s) == SendingPhase::Ended
        }),
{
}

} // verus!
