//! Per-step decisions of the two polling loops.
//!
//! An inbound reader polls one connection for whole frames; `reader_step`
//! decides what one poll outcome means: deliver a decoded message to the
//! relay channel, idle, stop on disconnect, or abort on a malformed frame.
//!
//! The broadcast dispatcher drains the relay channel one message per
//! iteration; `broadcast_frame` builds the one frame that is then written
//! to every registered handle, and `Registry::prune` (in `registry`)
//! rebuilds the registry from the write results.

use crate::codec::{
    broadcast_frame, decode, frame_decodes, is_utf8, pad, zero_free, zero_prefix,
    lemma_round_trip, Message, MSG_SIZE,
};
use crate::registry::Registry;
use crate::relay::Relay;
use vstd::prelude::*;

verus! {

/// What one non-blocking read attempt on a connection produced.
pub enum ReadOutcome {
    /// A whole frame of `MSG_SIZE` bytes was read.
    Frame(Vec<u8>),
    /// No data yet; the connection is otherwise healthy.
    WouldBlock,
    /// The read failed for any other reason (peer closed, reset).
    Closed,
}

/// What the reader must do after one read attempt.
pub enum ReaderAction {
    /// Push the decoded message onto the relay channel, then keep polling.
    Deliver(Message),
    /// Nothing to do this iteration; keep polling.
    Idle,
    /// End this reader's loop gracefully; the connection is abandoned.
    Stop,
    /// The frame did not decode: terminate this reader abnormally.
    Abort,
}

/// Decides one iteration of an inbound reader's loop from the outcome of
/// its read attempt: a frame that decodes is delivered, a frame that does
/// not aborts the reader, a would-block read idles, and any other read
/// failure stops the reader.
pub fn reader_step(outcome: ReadOutcome) -> (action: ReaderAction)
    requires
        outcome matches ReadOutcome::Frame(f) ==> f@.len() == MSG_SIZE,
    ensures
        outcome matches ReadOutcome::Frame(f) ==> (if frame_decodes(f@) {
            action matches ReaderAction::Deliver(m) && m@ == zero_prefix(f@)
        } else {
            action is Abort
        }),
        outcome is WouldBlock ==> action is Idle,
        outcome is Closed ==> action is Stop,
{
    match outcome {
        ReadOutcome::Frame(frame) => match decode(&frame) {
            Ok(m) => ReaderAction::Deliver(m),
            Err(_) => ReaderAction::Abort,
        },
        ReadOutcome::WouldBlock => ReaderAction::Idle,
        ReadOutcome::Closed => ReaderAction::Stop,
    }
}

/// One drain step of the broadcast dispatcher: takes at most one message
/// off the relay channel and, when one was queued, returns the frame to
/// write and the handles to write it to — every handle registered at
/// broadcast time, in registration order.  The frame decodes back to
/// exactly the drained message.
pub fn dispatch_drain(registry: &Registry, relay: &mut Relay) -> (r: Option<(Vec<u8>, Vec<u64>)>)
    ensures
        old(relay)@.len() == 0 ==> r is None && final(relay)@ == old(relay)@,
        old(relay)@.len() > 0 ==> (r matches Some((frame, targets)) && final(relay)@ == old(
            relay,
        )@.skip(1) && frame@ == pad(old(relay)@[0]@) && frame@.len() == MSG_SIZE && frame_decodes(
            frame@,
        ) && zero_prefix(frame@) == old(relay)@[0]@ && targets@ == registry@),
{
    match relay.try_recv() {
        Some(msg) => {
            let frame = broadcast_frame(&msg);
            let handles = registry.handles();
            let mut targets: Vec<u64> = Vec::new();
            let mut i: usize = 0;
            while i < handles.len()
                invariant
                    i <= registry@.len(),
                    handles@ == registry@,
                    targets@ == registry@.take(i as int),
                decreases registry@.len() - i,
            {
                targets.push(handles[i]);
                i = i + 1;
                proof {
                    assert(targets@ =~= registry@.take(i as int));
                }
            }
            proof {
                assert(targets@ =~= registry@);
            }
            Some((frame, targets))
        },
        None => None,
    }
}

/// Fan-out law: the frame built for a message decodes back to exactly that
/// message.  The dispatcher writes one and the same frame to every handle
/// in the registry, so each peer still registered at broadcast time
/// receives the message unmodified.
pub proof fn lemma_fanout(msg: Seq<u8>)
    requires
        msg.len() < MSG_SIZE,
        zero_free(msg),
        is_utf8(msg),
    ensures
        pad(msg).len() == MSG_SIZE,
        frame_decodes(pad(msg)),
        zero_prefix(pad(msg)) == msg,
{
    lemma_round_trip(msg);
}

} // verus!
