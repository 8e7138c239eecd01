//! Reading the external SPI flash chunk by chunk.
//!
//! The radio must be in normal mode. The chunks are asked for in ascending
//! order, one request each. The radio sometimes answers the first request
//! after the link was opened with a malformed block, so a block whose
//! checksum fails is read once more, without a new request. A second such
//! block is how the radio says that it has no more data: the dump ends
//! there, and that is no error.

use crate::session::{Action, ActionView, Event, EventView, Outcome};
use crate::uart::{
    block_payload, command_readspiflash, read_block, read_spi_frame, BLOCK_LENGTH, CHUNK_LENGTH,
};
use vstd::prelude::*;

verus! {

/// Number of chunks of the SPI flash: 4 MiB in chunks of 128 bytes.
pub const SPI_CHUNKS: usize = 32_768;

/// A dump as a mathematical value.
pub struct DumpState {
    /// Number of the chunk that the outstanding request asks for.
    pub index: nat,
    /// The first block read for the outstanding request was malformed.
    pub reread: bool,
    /// How the transfer ended, once it has.
    pub outcome: Option<Outcome>,
}

/// The start of a dump: the request for chunk 0 goes out.
pub open spec fn dump_start() -> (DumpState, ActionView) {
    (
        DumpState { index: 0, reread: false, outcome: None },
        ActionView::Send { frame: read_spi_frame(0), reply_len: BLOCK_LENGTH as nat },
    )
}

/// One step of a dump: the next state, the payload to append to the output
/// if there is one, and the next action.
///
/// A transfer that has ended stays as it is. A link error ends it. A block
/// of 132 bytes whose checksum holds yields its payload; the request for
/// the next chunk goes out, or the dump is complete where that was the last
/// chunk. The first other block for a request is read again; the second
/// ends the dump with `EndOfData`.
pub open spec fn dump_step(s: DumpState, e: EventView) -> (DumpState, Option<Seq<u8>>, ActionView) {
    match s.outcome {
        Some(outcome) => (s, None, ActionView::Finish(outcome)),
        None => match e {
            EventView::LinkError => (
                DumpState { outcome: Some(Outcome::LinkFailed), ..s },
                None,
                ActionView::Finish(Outcome::LinkFailed),
            ),
            EventView::Reply(block) => match block_payload(block) {
                Some(data) => if s.index + 1 < SPI_CHUNKS {
                    (
                        DumpState { index: s.index + 1, reread: false, outcome: None },
                        Some(data),
                        ActionView::Send {
                            frame: read_spi_frame((s.index + 1) as u16),
                            reply_len: BLOCK_LENGTH as nat,
                        },
                    )
                } else {
                    (
                        DumpState {
                            index: s.index + 1,
                            reread: false,
                            outcome: Some(Outcome::Complete),
                        },
                        Some(data),
                        ActionView::Finish(Outcome::Complete),
                    )
                },
                None => if !s.reread {
                    (
                        DumpState { reread: true, ..s },
                        None,
                        ActionView::Receive { reply_len: BLOCK_LENGTH as nat },
                    )
                } else {
                    (
                        DumpState { outcome: Some(Outcome::EndOfData), ..s },
                        None,
                        ActionView::Finish(Outcome::EndOfData),
                    )
                },
            },
        },
    }
}

/// The state of a dump that was in state `s` and has taken all of `events`.
pub open spec fn dump_after(s: DumpState, events: Seq<EventView>) -> DumpState
    decreases events.len(),
{
    if events.len() == 0 {
        s
    } else {
        dump_after(dump_step(s, events.first()).0, events.drop_first())
    }
}

/// The bytes that a dump in state `s` appends to its output while it takes
/// `events` in turn.
pub open spec fn dump_stored(s: DumpState, events: Seq<EventView>) -> Seq<u8>
    decreases events.len(),
{
    if events.len() == 0 {
        Seq::empty()
    } else {
        let (next, data, _) = dump_step(s, events.first());
        let rest = dump_stored(next, events.drop_first());
        match data {
            Some(bytes) => bytes + rest,
            None => rest,
        }
    }
}

/// The actions that a dump in state `s` hands out, one for each of `events`
/// in turn.
pub open spec fn dump_actions(s: DumpState, events: Seq<EventView>) -> Seq<ActionView>
    decreases events.len(),
{
    if events.len() == 0 {
        Seq::empty()
    } else {
        let (next, _, action) = dump_step(s, events.first());
        seq![action] + dump_actions(next, events.drop_first())
    }
}

/// The blocks of a script as the events that report them.
pub open spec fn replies(blocks: Seq<Seq<u8>>) -> Seq<EventView> {
    blocks.map_values(|block: Seq<u8>| EventView::Reply(block))
}

/// The payloads of `blocks`, one behind the other; a malformed block adds
/// nothing.
pub open spec fn payloads(blocks: Seq<Seq<u8>>) -> Seq<u8>
    decreases blocks.len(),
{
    if blocks.len() == 0 {
        Seq::empty()
    } else {
        let rest = payloads(blocks.drop_first());
        match block_payload(blocks.first()) {
            Some(bytes) => bytes + rest,
            None => rest,
        }
    }
}

/// The payloads of blocks that are all well formed are 128 bytes for each
/// block.
pub proof fn lemma_payloads_len(blocks: Seq<Seq<u8>>)
    requires
        forall|i: int| 0 <= i < blocks.len() ==> block_payload(#[trigger] blocks[i]) is Some,
    ensures
        payloads(blocks).len() == blocks.len() * CHUNK_LENGTH,
    decreases blocks.len(),
{
    if blocks.len() > 0 {
        let rest = blocks.drop_first();
        assert forall|i: int| 0 <= i < rest.len() implies block_payload(
            #[trigger] rest[i],
        ) is Some by {
            assert(rest[i] == blocks[i + 1]);
        }
        lemma_payloads_len(rest);
        assert(block_payload(blocks[0]) is Some);
    }
}

/// A dump that has ended never sends or reads again and stores nothing
/// more: whatever is reported to it, it answers with the outcome it ended
/// with, and stays as it is.
pub proof fn lemma_dump_ended_stays(s: DumpState, events: Seq<EventView>)
    requires
        s.outcome is Some,
    ensures
        dump_after(s, events) == s,
        dump_stored(s, events) == Seq::<u8>::empty(),
        dump_actions(s, events).len() == events.len(),
        forall|i: int|
            0 <= i < events.len() ==> #[trigger] dump_actions(s, events)[i] == ActionView::Finish(
                s.outcome->0,
            ),
    decreases events.len(),
{
    if events.len() > 0 {
        let rest = events.drop_first();
        lemma_dump_ended_stays(s, rest);
        assert forall|i: int| 0 <= i < events.len() implies #[trigger] dump_actions(s, events)[i]
            == ActionView::Finish(s.outcome->0) by {
            if i > 0 {
                assert(dump_actions(s, events)[i] == dump_actions(s, rest)[i - 1]);
            }
        }
    }
}

/// A malformed block is read once more: where the first block for a
/// request is malformed and the second is well formed, no new request goes
/// out in between, and the payload of the second block is what the dump
/// stores.
pub proof fn lemma_dump_reread(s: DumpState, first: Seq<u8>, second: Seq<u8>)
    requires
        s.outcome is None,
        !s.reread,
        block_payload(first) is None,
        block_payload(second) is Some,
    ensures
        dump_step(s, EventView::Reply(first)) == (
            DumpState { reread: true, ..s },
            None::<Seq<u8>>,
            ActionView::Receive { reply_len: BLOCK_LENGTH as nat },
        ),
        dump_step(dump_step(s, EventView::Reply(first)).0, EventView::Reply(second)).1
            == block_payload(second),
        dump_step(dump_step(s, EventView::Reply(first)).0, EventView::Reply(second)).0.index
            == s.index + 1,
        dump_stored(s, replies(seq![first, second])) == block_payload(second)->0,
{
    let events = replies(seq![first, second]);
    let mid = dump_step(s, events[0]).0;
    let end = dump_step(mid, events[1]).0;
    assert(events.drop_first().first() == events[1]);
    assert(events.drop_first().drop_first().len() == 0);
    assert(dump_stored(end, events.drop_first().drop_first()) =~= Seq::empty());
    assert(dump_stored(mid, events.drop_first()) =~= block_payload(second)->0);
}

/// Well-formed blocks are stored in the order in which they arrive, one
/// request each, until the whole SPI flash has been read: the dump is
/// complete with the block for the last chunk, and not before.
pub proof fn lemma_dump_valid_blocks(s: DumpState, blocks: Seq<Seq<u8>>)
    requires
        s.outcome is None,
        !s.reread,
        s.index + blocks.len() <= SPI_CHUNKS,
        forall|i: int| 0 <= i < blocks.len() ==> block_payload(#[trigger] blocks[i]) is Some,
    ensures
        dump_stored(s, replies(blocks)) == payloads(blocks),
        dump_stored(s, replies(blocks)).len() == blocks.len() * CHUNK_LENGTH,
        dump_after(s, replies(blocks)).index == s.index + blocks.len(),
        !dump_after(s, replies(blocks)).reread,
        dump_after(s, replies(blocks)).outcome == if blocks.len() > 0 && s.index + blocks.len()
            == SPI_CHUNKS {
            Some(Outcome::Complete)
        } else {
            None
        },
    decreases blocks.len(),
{
    lemma_payloads_len(blocks);
    let events = replies(blocks);
    if blocks.len() == 0 {
        assert(events.len() == 0);
    } else {
        let rest = blocks.drop_first();
        assert(events.drop_first() =~= replies(rest));
        assert(events.first() == EventView::Reply(blocks[0]));
        assert(block_payload(blocks[0]) is Some);
        assert forall|i: int| 0 <= i < rest.len() implies block_payload(
            #[trigger] rest[i],
        ) is Some by {
            assert(rest[i] == blocks[i + 1]);
        }
        let next = dump_step(s, events.first()).0;
        let data = block_payload(blocks[0])->0;
        if rest.len() > 0 {
            lemma_dump_valid_blocks(next, rest);
        } else {
            assert(replies(rest).len() == 0);
            assert(dump_stored(next, replies(rest)) =~= Seq::empty());
            assert(payloads(rest) =~= Seq::empty());
            assert(dump_after(next, replies(rest)) == next);
        }
        assert(dump_stored(s, events) == data + dump_stored(next, replies(rest)));
        assert(payloads(blocks) == data + payloads(rest));
    }
}

/// The events of one script behind another are taken as the first script
/// and then, from where that left the dump, the second.
pub proof fn lemma_dump_append(s: DumpState, head: Seq<EventView>, tail: Seq<EventView>)
    ensures
        dump_after(s, head + tail) == dump_after(dump_after(s, head), tail),
        dump_stored(s, head + tail) == dump_stored(s, head) + dump_stored(
            dump_after(s, head),
            tail,
        ),
    decreases head.len(),
{
    if head.len() == 0 {
        assert(head + tail =~= tail);
        assert(dump_stored(s, head) + dump_stored(s, tail) =~= dump_stored(s, tail));
    } else {
        let all = head + tail;
        assert(all.first() == head.first());
        assert(all.drop_first() =~= head.drop_first() + tail);
        let next = dump_step(s, head.first()).0;
        lemma_dump_append(next, head.drop_first(), tail);
        let a = dump_stored(next, head.drop_first());
        let b = dump_stored(dump_after(s, head), tail);
        match dump_step(s, head.first()).1 {
            Some(bytes) => {
                assert(bytes + (a + b) =~= (bytes + a) + b);
            },
            None => {},
        }
    }
}

/// A dump ends where the radio has no more data. Where the radio answers
/// the requests for chunks 0 to `k - 1` with a well-formed block each, and
/// the request for chunk `k` with two malformed blocks, the dump stores the
/// `k` payloads in order, `128 * k` bytes in all, and ends with `EndOfData`
/// without a further request.
pub proof fn lemma_dump_termination(blocks: Seq<Seq<u8>>, k: nat)
    requires
        k < SPI_CHUNKS,
        blocks.len() == k + 2,
        forall|i: int| 0 <= i < k ==> block_payload(#[trigger] blocks[i]) is Some,
        block_payload(blocks[k as int]) is None,
        block_payload(blocks[k as int + 1]) is None,
    ensures
        dump_stored(dump_start().0, replies(blocks)) == payloads(blocks.take(k as int)),
        dump_stored(dump_start().0, replies(blocks)).len() == k * CHUNK_LENGTH,
        dump_after(dump_start().0, replies(blocks)).outcome == Some(Outcome::EndOfData),
        dump_after(dump_start().0, replies(blocks)).index == k,
        dump_actions(dump_start().0, replies(blocks)).len() == k + 2,
        dump_actions(dump_start().0, replies(blocks)).last() == ActionView::Finish(
            Outcome::EndOfData,
        ),
{
    let start = dump_start().0;
    let valid = blocks.take(k as int);
    let bad = blocks.skip(k as int);
    assert(blocks =~= valid + bad);
    assert(replies(blocks) =~= replies(valid) + replies(bad));
    lemma_dump_valid_blocks(start, valid);
    lemma_dump_append(start, replies(valid), replies(bad));
    lemma_dump_actions_append(start, replies(valid), replies(bad));
    let mid = dump_after(start, replies(valid));
    let events = replies(bad);
    assert(events.len() == 2);
    assert(events[0] == EventView::Reply(blocks[k as int]));
    assert(events[1] == EventView::Reply(blocks[k as int + 1]));
    let second = dump_step(mid, events[0]).0;
    let end = dump_step(second, events[1]).0;
    let one = events.drop_first();
    let none = one.drop_first();
    assert(events.first() == events[0]);
    assert(one.first() == events[1]);
    assert(none.len() == 0);
    assert(dump_after(end, none) == end);
    assert(dump_after(second, one) == end);
    assert(dump_after(mid, events) == end);
    assert(dump_stored(end, none) =~= Seq::empty());
    assert(dump_stored(second, one) =~= Seq::empty());
    assert(dump_stored(mid, events) =~= Seq::empty());
    assert(dump_stored(start, replies(valid)) + dump_stored(mid, events) =~= dump_stored(
        start,
        replies(valid),
    ));
    assert(dump_actions(end, none) =~= Seq::empty());
    assert(dump_actions(second, one) =~= seq![ActionView::Finish(Outcome::EndOfData)]);
    assert(dump_actions(mid, events).last() == ActionView::Finish(Outcome::EndOfData));
}

/// The actions of one script behind another are those of the first script
/// and then, from where that left the dump, those of the second.
pub proof fn lemma_dump_actions_append(s: DumpState, head: Seq<EventView>, tail: Seq<EventView>)
    ensures
        dump_actions(s, head + tail) == dump_actions(s, head) + dump_actions(
            dump_after(s, head),
            tail,
        ),
        dump_actions(s, head + tail).len() == head.len() + tail.len(),
    decreases head.len(),
{
    if head.len() == 0 {
        assert(head + tail =~= tail);
        assert(dump_actions(s, head) + dump_actions(s, tail) =~= dump_actions(s, tail));
        lemma_dump_actions_len(s, tail);
    } else {
        let all = head + tail;
        assert(all.first() == head.first());
        assert(all.drop_first() =~= head.drop_first() + tail);
        let (next, _, action) = dump_step(s, head.first());
        lemma_dump_actions_append(next, head.drop_first(), tail);
        let a = dump_actions(next, head.drop_first());
        let b = dump_actions(dump_after(s, head), tail);
        assert(seq![action] + (a + b) =~= (seq![action] + a) + b);
    }
}

/// One action is handed out for each event.
pub proof fn lemma_dump_actions_len(s: DumpState, events: Seq<EventView>)
    ensures
        dump_actions(s, events).len() == events.len(),
    decreases events.len(),
{
    if events.len() > 0 {
        lemma_dump_actions_len(dump_step(s, events.first()).0, events.drop_first());
    }
}

/// A dump of the whole SPI flash stores exactly 4,194,304 bytes: where the
/// radio answers each of the 32,768 requests with a well-formed block, the
/// payloads are stored in order and the dump is complete.
pub proof fn lemma_dump_complete(blocks: Seq<Seq<u8>>)
    requires
        blocks.len() == SPI_CHUNKS,
        forall|i: int| 0 <= i < blocks.len() ==> block_payload(#[trigger] blocks[i]) is Some,
    ensures
        dump_stored(dump_start().0, replies(blocks)) == payloads(blocks),
        dump_stored(dump_start().0, replies(blocks)).len() == 4_194_304,
        dump_after(dump_start().0, replies(blocks)).outcome == Some(Outcome::Complete),
{
    lemma_dump_valid_blocks(dump_start().0, blocks);
}

/// A dump in progress.
pub struct DumpSession {
    index: usize,
    reread: bool,
    outcome: Option<Outcome>,
}

impl View for DumpSession {
    type V = DumpState;

    closed spec fn view(&self) -> DumpState {
        DumpState { index: self.index as nat, reread: self.reread, outcome: self.outcome }
    }
}

impl DumpSession {
    /// A dump that has not ended asks for a chunk that the SPI flash has.
    pub open spec fn wf(&self) -> bool {
        self@.outcome is None ==> self@.index < SPI_CHUNKS
    }

    /// How the transfer ended, or `None` while it is running.
    pub fn outcome(&self) -> (outcome: Option<Outcome>)
        ensures
            outcome == self@.outcome,
    {
        self.outcome
    }

    /// Number of the chunk that the outstanding request asks for; once the
    /// dump has ended, the number of chunks that were read.
    pub fn index(&self) -> (index: usize)
        ensures
            index == self@.index,
    {
        self.index
    }

    /// Takes what the driver reports and decides what is to be done next.
    /// Where the first part of the result holds a payload, the driver
    /// appends it to the output before it performs the action.
    pub fn step(&mut self, event: Event) -> (next: (Option<Vec<u8>>, Action))
        requires
            old(self).wf(),
        ensures
            final(self).wf(),
            final(self)@ == dump_step(old(self)@, event@).0,
            next.0 is Some == dump_step(old(self)@, event@).1 is Some,
            next.0 is Some ==> next.0->0@ == dump_step(old(self)@, event@).1->0,
            next.1@ == dump_step(old(self)@, event@).2,
    {
        if let Some(outcome) = self.outcome {
            return (None, Action::Finish(outcome));
        }
        match event {
            Event::LinkError => {
                self.outcome = Some(Outcome::LinkFailed);
                (None, Action::Finish(Outcome::LinkFailed))
            },
            Event::Reply(block) => {
                match read_block(block.as_slice()) {
                    Some(data) => {
                        self.index = self.index + 1;
                        self.reread = false;
                        if self.index < SPI_CHUNKS {
                            let frame = command_readspiflash(self.index as u16);
                            (Some(data), Action::Send { frame, reply_len: BLOCK_LENGTH })
                        } else {
                            self.outcome = Some(Outcome::Complete);
                            (Some(data), Action::Finish(Outcome::Complete))
                        }
                    },
                    None => {
                        if !self.reread {
                            self.reread = true;
                            (None, Action::Receive { reply_len: BLOCK_LENGTH })
                        } else {
                            self.outcome = Some(Outcome::EndOfData);
                            (None, Action::Finish(Outcome::EndOfData))
                        }
                    },
                }
            },
        }
    }
}

/// Starts a dump of the SPI flash: the first action sends the request for
/// chunk 0.
pub fn dump_spi_flash() -> (started: (DumpSession, Action))
    ensures
        started.0.wf(),
        (started.0@, started.1@) == dump_start(),
{
    let frame = command_readspiflash(0);
    let session = DumpSession { index: 0, reread: false, outcome: None };
    (session, Action::Send { frame, reply_len: BLOCK_LENGTH })
}

} // verus!
