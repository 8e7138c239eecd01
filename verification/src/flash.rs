//! Writing a firmware image to the MCU flash.
//!
//! The radio must be in bootloader mode. The transfer erases the MCU flash
//! and then writes the image chunk by chunk, in ascending order. It stops at
//! the first request that the radio does not acknowledge; nothing is sent
//! twice.

use crate::session::{Action, ActionView, Event, EventView, Outcome};
use crate::spi::FIRMWARE_SIZE;
use crate::uart::{
    acknowledged, command_eraseflash, command_writeflash, erase_frame, is_acknowledged,
    write_flash_frame, ACK_LENGTH, CHUNK_LENGTH,
};
use vstd::prelude::*;

verus! {

/// Number of requests of a complete firmware transfer: one erase and one
/// write for each of the 472 chunks.
pub const FLASH_REQUESTS: usize = 473;

/// Request number `k` of a firmware transfer: the erase first, then the
/// chunks of `image` in ascending order of their byte offset.
pub open spec fn flash_request(image: Seq<u8>, k: nat) -> Seq<u8> {
    if k == 0 {
        erase_frame()
    } else {
        write_flash_frame((k - 1) * CHUNK_LENGTH, image)
    }
}

/// A firmware transfer as a mathematical value.
pub struct FlashState {
    /// The firmware image.
    pub image: Seq<u8>,
    /// Number of requests handed out so far.
    pub issued: nat,
    /// How the transfer ended, once it has.
    pub outcome: Option<Outcome>,
}

/// The start of a firmware transfer: an image of the wrong size ends it at
/// once, before anything is sent; otherwise the erase request goes out.
pub open spec fn flash_start(image: Seq<u8>) -> (FlashState, ActionView) {
    if image.len() != FIRMWARE_SIZE {
        (
            FlashState { image, issued: 0, outcome: Some(Outcome::SizeMismatch) },
            ActionView::Finish(Outcome::SizeMismatch),
        )
    } else {
        (
            FlashState { image, issued: 1, outcome: None },
            ActionView::Send { frame: flash_request(image, 0), reply_len: ACK_LENGTH as nat },
        )
    }
}

/// One step of a firmware transfer.
///
/// A transfer that has ended stays as it is. A link error ends it. So does
/// an answer other than the acknowledgement byte: to the erase request as
/// `EraseRejected`, to a write as `WriteRejected`. An acknowledgement of the
/// last request completes the transfer; of any other, the next request goes
/// out.
pub open spec fn flash_step(s: FlashState, e: EventView) -> (FlashState, ActionView) {
    match s.outcome {
        Some(outcome) => (s, ActionView::Finish(outcome)),
        None => {
            let outcome = match e {
                EventView::LinkError => Some(Outcome::LinkFailed),
                EventView::Reply(response) => if !acknowledged(response) {
                    if s.issued <= 1 {
                        Some(Outcome::EraseRejected)
                    } else {
                        Some(Outcome::WriteRejected)
                    }
                } else if s.issued >= FLASH_REQUESTS {
                    Some(Outcome::Complete)
                } else {
                    None
                },
            };
            match outcome {
                Some(o) => (FlashState { outcome: Some(o), ..s }, ActionView::Finish(o)),
                None => (
                    FlashState { issued: s.issued + 1, ..s },
                    ActionView::Send {
                        frame: flash_request(s.image, s.issued),
                        reply_len: ACK_LENGTH as nat,
                    },
                ),
            }
        },
    }
}

/// The actions that a transfer in state `s` hands out, one for each of
/// `events` in turn.
pub open spec fn flash_actions(s: FlashState, events: Seq<EventView>) -> Seq<ActionView>
    decreases events.len(),
{
    if events.len() == 0 {
        Seq::empty()
    } else {
        let (next, action) = flash_step(s, events.first());
        seq![action] + flash_actions(next, events.drop_first())
    }
}

/// The state of a transfer that was in state `s` and has taken all of `events`.
pub open spec fn flash_after(s: FlashState, events: Seq<EventView>) -> FlashState
    decreases events.len(),
{
    if events.len() == 0 {
        s
    } else {
        flash_after(flash_step(s, events.first()).0, events.drop_first())
    }
}

/// One action is handed out for each event.
pub proof fn lemma_flash_actions_len(s: FlashState, events: Seq<EventView>)
    ensures
        flash_actions(s, events).len() == events.len(),
    decreases events.len(),
{
    if events.len() > 0 {
        lemma_flash_actions_len(flash_step(s, events.first()).0, events.drop_first());
    }
}

/// A transfer that has ended never sends again: whatever is reported to it,
/// it answers with the outcome it ended with, and stays as it is.
pub proof fn lemma_flash_ended_stays(s: FlashState, events: Seq<EventView>, i: int)
    requires
        s.outcome is Some,
        0 <= i < events.len(),
    ensures
        flash_actions(s, events).len() == events.len(),
        flash_actions(s, events)[i] == ActionView::Finish(s.outcome->0),
        flash_after(s, events) == s,
    decreases events.len(),
{
    lemma_flash_actions_len(s, events);
    lemma_flash_after_ended(s, events);
    if i > 0 {
        lemma_flash_ended_stays(s, events.drop_first(), i - 1);
    }
}

/// A transfer that has ended stays as it is.
pub proof fn lemma_flash_after_ended(s: FlashState, events: Seq<EventView>)
    requires
        s.outcome is Some,
    ensures
        flash_after(s, events) == s,
    decreases events.len(),
{
    if events.len() > 0 {
        lemma_flash_after_ended(s, events.drop_first());
    }
}

/// An image of the wrong size is never sent: the transfer ends with
/// `SizeMismatch` before its first request, and every later action is that
/// same end.
pub proof fn lemma_flash_size_gate(image: Seq<u8>, events: Seq<EventView>, i: int)
    requires
        image.len() != FIRMWARE_SIZE,
        0 <= i < events.len(),
    ensures
        flash_start(image).1 == ActionView::Finish(Outcome::SizeMismatch),
        flash_start(image).0.issued == 0,
        flash_actions(flash_start(image).0, events)[i] == ActionView::Finish(
            Outcome::SizeMismatch,
        ),
{
    lemma_flash_ended_stays(flash_start(image).0, events, i);
}

/// A request that is not acknowledged is not sent again: the transfer ends
/// with that answer, no further request is counted, and every later action
/// is that same end.
pub proof fn lemma_flash_no_retry(
    s: FlashState,
    response: Seq<u8>,
    events: Seq<EventView>,
    i: int,
)
    requires
        s.outcome is None,
        !acknowledged(response),
        0 <= i < events.len(),
    ensures
        flash_step(s, EventView::Reply(response)).1 is Finish,
        flash_step(s, EventView::Reply(response)).1 == ActionView::Finish(
            if s.issued <= 1 {
                Outcome::EraseRejected
            } else {
                Outcome::WriteRejected
            },
        ),
        flash_step(s, EventView::Reply(response)).0.issued == s.issued,
        flash_actions(flash_step(s, EventView::Reply(response)).0, events)[i] == flash_step(
            s,
            EventView::Reply(response),
        ).1,
{
    lemma_flash_ended_stays(flash_step(s, EventView::Reply(response)).0, events, i);
}

/// While every request is acknowledged, the requests go out in order: the
/// erase, then the chunks in ascending order of their byte offset, each
/// once. The acknowledgement of the last chunk completes the transfer.
pub proof fn lemma_flash_all_acknowledged(s: FlashState, events: Seq<EventView>)
    requires
        s.outcome is None,
        1 <= s.issued <= FLASH_REQUESTS,
        events.len() == FLASH_REQUESTS - s.issued + 1,
        forall|j: int|
            0 <= j < events.len() ==> (#[trigger] events[j]) is Reply && acknowledged(
                events[j]->Reply_0,
            ),
    ensures
        flash_actions(s, events).len() == events.len(),
        forall|j: int|
            0 <= j < events.len() - 1 ==> #[trigger] flash_actions(s, events)[j]
                == (ActionView::Send {
                frame: flash_request(s.image, (s.issued + j) as nat),
                reply_len: ACK_LENGTH as nat,
            }),
        flash_actions(s, events).last() == ActionView::Finish(Outcome::Complete),
        flash_after(s, events).outcome == Some(Outcome::Complete),
        flash_after(s, events).issued == FLASH_REQUESTS,
    decreases events.len(),
{
    lemma_flash_actions_len(s, events);
    let (next, action) = flash_step(s, events.first());
    let rest = events.drop_first();
    assert(events[0] is Reply && acknowledged(events[0]->Reply_0));
    if s.issued == FLASH_REQUESTS {
        assert(rest.len() == 0);
        assert(flash_actions(next, rest) =~= Seq::empty());
        assert(flash_actions(s, events) =~= seq![action]);
    } else {
        assert forall|j: int| 0 <= j < rest.len() implies (#[trigger] rest[j]) is Reply
            && acknowledged(rest[j]->Reply_0) by {
            assert(rest[j] == events[j + 1]);
        }
        lemma_flash_all_acknowledged(next, rest);
        lemma_flash_actions_len(next, rest);
        assert forall|j: int| 0 <= j < events.len() - 1 implies #[trigger] flash_actions(
            s,
            events,
        )[j] == (ActionView::Send {
            frame: flash_request(s.image, (s.issued + j) as nat),
            reply_len: ACK_LENGTH as nat,
        }) by {
            if j > 0 {
                assert(flash_actions(s, events)[j] == flash_actions(next, rest)[j - 1]);
            }
        }
        assert(flash_actions(s, events).last() == flash_actions(next, rest).last());
    }
}

/// A firmware transfer in progress.
pub struct FlashSession {
    fw: Vec<u8>,
    issued: usize,
    outcome: Option<Outcome>,
}

impl View for FlashSession {
    type V = FlashState;

    closed spec fn view(&self) -> FlashState {
        FlashState { image: self.fw@, issued: self.issued as nat, outcome: self.outcome }
    }
}

impl FlashSession {
    /// A transfer that has not ended holds a whole image and has handed out
    /// between one and all of its requests.
    pub open spec fn wf(&self) -> bool {
        self@.outcome is None ==> self@.image.len() == FIRMWARE_SIZE && 1 <= self@.issued
            <= FLASH_REQUESTS
    }

    /// How the transfer ended, or `None` while it is running.
    pub fn outcome(&self) -> (outcome: Option<Outcome>)
        ensures
            outcome == self@.outcome,
    {
        self.outcome
    }

    /// Number of requests handed out so far.
    pub fn issued(&self) -> (issued: usize)
        ensures
            issued == self@.issued,
    {
        self.issued
    }

    /// Byte offset of the chunk whose write is outstanding, or `None` where
    /// the transfer has ended or the outstanding request is the erase.
    pub fn pending_offset(&self) -> (offset: Option<usize>)
        requires
            self.wf(),
        ensures
            offset == if self@.outcome is None && self@.issued >= 2 {
                Some(((self@.issued - 2) * CHUNK_LENGTH) as usize)
            } else {
                None
            },
    {
        if self.outcome.is_none() && self.issued >= 2 {
            Some((self.issued - 2) * CHUNK_LENGTH)
        } else {
            None
        }
    }

    /// Takes what the driver reports and decides what is to be done next.
    pub fn step(&mut self, event: Event) -> (action: Action)
        requires
            old(self).wf(),
        ensures
            final(self).wf(),
            (final(self)@, action@) == flash_step(old(self)@, event@),
    {
        if let Some(outcome) = self.outcome {
            return Action::Finish(outcome);
        }
        let ended: Option<Outcome> = match event {
            Event::LinkError => Some(Outcome::LinkFailed),
            Event::Reply(response) => {
                if !is_acknowledged(response.as_slice()) {
                    if self.issued <= 1 {
                        Some(Outcome::EraseRejected)
                    } else {
                        Some(Outcome::WriteRejected)
                    }
                } else if self.issued >= FLASH_REQUESTS {
                    Some(Outcome::Complete)
                } else {
                    None
                }
            },
        };
        match ended {
            Some(outcome) => {
                self.outcome = Some(outcome);
                Action::Finish(outcome)
            },
            None => {
                let offset: usize = (self.issued - 1) * CHUNK_LENGTH;
                let frame = command_writeflash(offset, self.fw.as_slice());
                self.issued = self.issued + 1;
                Action::Send { frame, reply_len: ACK_LENGTH }
            },
        }
    }
}

/// Starts writing the firmware image `fw` to the MCU flash.
///
/// An image that is not exactly 60,416 bytes long ends the transfer at once
/// with `SizeMismatch`, and no request is ever handed out. Otherwise the
/// first action sends the erase request.
pub fn flash_firmware(fw: Vec<u8>) -> (started: (FlashSession, Action))
    ensures
        started.0.wf(),
        (started.0@, started.1@) == flash_start(fw@),
{
    if fw.len() != FIRMWARE_SIZE {
        let session = FlashSession { fw, issued: 0, outcome: Some(Outcome::SizeMismatch) };
        (session, Action::Finish(Outcome::SizeMismatch))
    } else {
        let frame = command_eraseflash();
        let session = FlashSession { fw, issued: 1, outcome: None };
        (session, Action::Send { frame, reply_len: ACK_LENGTH })
    }
}

} // verus!
