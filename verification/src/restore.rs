//! Writing an image back to the external SPI flash.
//!
//! The radio must be in normal mode. The image is written region by region,
//! in the order of the region table, and inside a region chunk by chunk in
//! ascending order. Each chunk goes out under the opcode of its region. The
//! transfer stops at the first chunk that the radio does not acknowledge;
//! nothing is sent twice.

use crate::session::{Action, ActionView, Event, EventView, Outcome};
use crate::spi::{
    calibration_table, full_restore_table, restore_ranges, restore_table, SpiRange,
    SPI_FLASH_SIZE,
};
use crate::uart::{
    acknowledged, command_writespiflash, is_acknowledged, write_spi_frame, ACK_LENGTH,
    CHUNK_LENGTH,
};
use vstd::prelude::*;

verus! {

/// Number of chunks in the first `n` regions of `table`.
pub open spec fn chunks_before(table: Seq<SpiRange>, n: nat) -> nat
    decreases n,
{
    if n == 0 {
        0
    } else {
        chunks_before(table, (n - 1) as nat) + table[n - 1].chunks()
    }
}

/// Number of chunks in all regions of `table`: the number of requests of a
/// complete restore.
pub open spec fn restore_requests(table: Seq<SpiRange>) -> nat {
    chunks_before(table, table.len())
}

/// Opcode and byte offset of chunk number `k` among the first `n` regions
/// of `table`, counted region by region.
pub open spec fn chunk_among(table: Seq<SpiRange>, n: nat, k: nat) -> (u8, int)
    decreases n,
{
    if n == 0 {
        (0u8, 0)
    } else if k >= chunks_before(table, (n - 1) as nat) {
        (
            table[n - 1].cmd,
            table[n - 1].offset + (k - chunks_before(table, (n - 1) as nat)) * CHUNK_LENGTH,
        )
    } else {
        chunk_among(table, (n - 1) as nat, k)
    }
}

/// Request number `k` of a restore: the write of chunk number `k` of the
/// table, under the opcode of the region it lies in.
pub open spec fn restore_request(table: Seq<SpiRange>, image: Seq<u8>, k: nat) -> Seq<u8> {
    let (opcode, offset) = chunk_among(table, table.len(), k);
    write_spi_frame(opcode, offset, image)
}

/// A restore as a mathematical value.
pub struct RestoreState {
    /// The SPI flash image.
    pub image: Seq<u8>,
    /// The regions to write, in order.
    pub table: Seq<SpiRange>,
    /// Number of requests handed out so far.
    pub issued: nat,
    /// How the transfer ended, once it has.
    pub outcome: Option<Outcome>,
}

/// The start of a restore: an image of the wrong size ends it at once,
/// before anything is sent; otherwise the first chunk of the first region
/// goes out.
pub open spec fn restore_start(calib_only: bool, image: Seq<u8>) -> (RestoreState, ActionView) {
    let table = restore_table(calib_only);
    if image.len() != SPI_FLASH_SIZE {
        (
            RestoreState { image, table, issued: 0, outcome: Some(Outcome::SizeMismatch) },
            ActionView::Finish(Outcome::SizeMismatch),
        )
    } else {
        (
            RestoreState { image, table, issued: 1, outcome: None },
            ActionView::Send {
                frame: restore_request(table, image, 0),
                reply_len: ACK_LENGTH as nat,
            },
        )
    }
}

/// One step of a restore.
///
/// A transfer that has ended stays as it is. A link error ends it, and so
/// does an answer other than the acknowledgement byte. An acknowledgement
/// of the last chunk completes the transfer; of any other, the next chunk
/// goes out.
pub open spec fn restore_step(s: RestoreState, e: EventView) -> (RestoreState, ActionView) {
    match s.outcome {
        Some(outcome) => (s, ActionView::Finish(outcome)),
        None => {
            let outcome = match e {
                EventView::LinkError => Some(Outcome::LinkFailed),
                EventView::Reply(response) => if !acknowledged(response) {
                    Some(Outcome::WriteRejected)
                } else if s.issued >= restore_requests(s.table) {
                    Some(Outcome::Complete)
                } else {
                    None
                },
            };
            match outcome {
                Some(o) => (RestoreState { outcome: Some(o), ..s }, ActionView::Finish(o)),
                None => (
                    RestoreState { issued: s.issued + 1, ..s },
                    ActionView::Send {
                        frame: restore_request(s.table, s.image, s.issued),
                        reply_len: ACK_LENGTH as nat,
                    },
                ),
            }
        },
    }
}

/// The chunk counts of the prefixes of a table do not decrease.
pub proof fn lemma_chunks_before_monotonic(table: Seq<SpiRange>, m: nat, n: nat)
    requires
        m <= n,
    ensures
        chunks_before(table, m) <= chunks_before(table, n),
    decreases n,
{
    if m < n {
        lemma_chunks_before_monotonic(table, m, (n - 1) as nat);
    }
}

/// Chunk number `j` of region number `r` is chunk number
/// `chunks_before(table, r) + j` of the table: it carries the opcode of its
/// region and lies `j` chunks behind the region's start.
pub proof fn lemma_chunk_in_region(table: Seq<SpiRange>, n: nat, r: nat, j: nat)
    requires
        r < n <= table.len(),
        j < table[r as int].chunks(),
    ensures
        chunk_among(table, n, chunks_before(table, r) + j) == (
            table[r as int].cmd,
            table[r as int].offset + j * CHUNK_LENGTH,
        ),
    decreases n,
{
    let k = chunks_before(table, r) + j;
    if n == r + 1 {
    } else {
        lemma_chunks_before_monotonic(table, r + 1, (n - 1) as nat);
        assert(chunks_before(table, r + 1) == chunks_before(table, r) + table[r as int].chunks());
        lemma_chunk_in_region(table, (n - 1) as nat, r, j);
    }
}

/// The actions that a restore in state `s` hands out, one for each of
/// `events` in turn.
pub open spec fn restore_actions(s: RestoreState, events: Seq<EventView>) -> Seq<ActionView>
    decreases events.len(),
{
    if events.len() == 0 {
        Seq::empty()
    } else {
        let (next, action) = restore_step(s, events.first());
        seq![action] + restore_actions(next, events.drop_first())
    }
}

/// The state of a restore that was in state `s` and has taken all of `events`.
pub open spec fn restore_after(s: RestoreState, events: Seq<EventView>) -> RestoreState
    decreases events.len(),
{
    if events.len() == 0 {
        s
    } else {
        restore_after(restore_step(s, events.first()).0, events.drop_first())
    }
}

/// One action is handed out for each event.
pub proof fn lemma_restore_actions_len(s: RestoreState, events: Seq<EventView>)
    ensures
        restore_actions(s, events).len() == events.len(),
    decreases events.len(),
{
    if events.len() > 0 {
        lemma_restore_actions_len(restore_step(s, events.first()).0, events.drop_first());
    }
}

/// A restore that has ended stays as it is.
pub proof fn lemma_restore_after_ended(s: RestoreState, events: Seq<EventView>)
    requires
        s.outcome is Some,
    ensures
        restore_after(s, events) == s,
    decreases events.len(),
{
    if events.len() > 0 {
        lemma_restore_after_ended(s, events.drop_first());
    }
}

/// A restore that has ended never sends again: whatever is reported to it,
/// it answers with the outcome it ended with, and stays as it is.
pub proof fn lemma_restore_ended_stays(s: RestoreState, events: Seq<EventView>, i: int)
    requires
        s.outcome is Some,
        0 <= i < events.len(),
    ensures
        restore_actions(s, events).len() == events.len(),
        restore_actions(s, events)[i] == ActionView::Finish(s.outcome->0),
        restore_after(s, events) == s,
    decreases events.len(),
{
    lemma_restore_actions_len(s, events);
    lemma_restore_after_ended(s, events);
    if i > 0 {
        lemma_restore_ended_stays(s, events.drop_first(), i - 1);
    }
}

/// An image of the wrong size is never sent: the restore ends with
/// `SizeMismatch` before its first request, and every later action is that
/// same end.
pub proof fn lemma_restore_size_gate(
    calib_only: bool,
    image: Seq<u8>,
    events: Seq<EventView>,
    i: int,
)
    requires
        image.len() != SPI_FLASH_SIZE,
        0 <= i < events.len(),
    ensures
        restore_start(calib_only, image).1 == ActionView::Finish(Outcome::SizeMismatch),
        restore_start(calib_only, image).0.issued == 0,
        restore_actions(restore_start(calib_only, image).0, events)[i] == ActionView::Finish(
            Outcome::SizeMismatch,
        ),
{
    lemma_restore_ended_stays(restore_start(calib_only, image).0, events, i);
}

/// A chunk that is not acknowledged is not sent again: the restore ends
/// with `WriteRejected`, no further request is counted, and every later
/// action is that same end.
pub proof fn lemma_restore_no_retry(
    s: RestoreState,
    response: Seq<u8>,
    events: Seq<EventView>,
    i: int,
)
    requires
        s.outcome is None,
        !acknowledged(response),
        0 <= i < events.len(),
    ensures
        restore_step(s, EventView::Reply(response)).1 == ActionView::Finish(
            Outcome::WriteRejected,
        ),
        restore_step(s, EventView::Reply(response)).0.issued == s.issued,
        restore_actions(restore_step(s, EventView::Reply(response)).0, events)[i]
            == ActionView::Finish(Outcome::WriteRejected),
{
    lemma_restore_ended_stays(restore_step(s, EventView::Reply(response)).0, events, i);
}

/// While every chunk is acknowledged, the chunks go out in the order of
/// the table, each once. The acknowledgement of the last chunk completes
/// the restore.
pub proof fn lemma_restore_all_acknowledged(s: RestoreState, events: Seq<EventView>)
    requires
        s.outcome is None,
        1 <= s.issued <= restore_requests(s.table),
        events.len() == restore_requests(s.table) - s.issued + 1,
        forall|j: int|
            0 <= j < events.len() ==> (#[trigger] events[j]) is Reply && acknowledged(
                events[j]->Reply_0,
            ),
    ensures
        restore_actions(s, events).len() == events.len(),
        forall|j: int|
            0 <= j < events.len() - 1 ==> #[trigger] restore_actions(s, events)[j]
                == (ActionView::Send {
                frame: restore_request(s.table, s.image, (s.issued + j) as nat),
                reply_len: ACK_LENGTH as nat,
            }),
        restore_actions(s, events).last() == ActionView::Finish(Outcome::Complete),
        restore_after(s, events).outcome == Some(Outcome::Complete),
        restore_after(s, events).issued == restore_requests(s.table),
    decreases events.len(),
{
    lemma_restore_actions_len(s, events);
    let (next, action) = restore_step(s, events.first());
    let rest = events.drop_first();
    assert(events[0] is Reply && acknowledged(events[0]->Reply_0));
    if s.issued == restore_requests(s.table) {
        assert(rest.len() == 0);
        assert(restore_actions(next, rest) =~= Seq::empty());
        assert(restore_actions(s, events) =~= seq![action]);
    } else {
        assert forall|j: int| 0 <= j < rest.len() implies (#[trigger] rest[j]) is Reply
            && acknowledged(rest[j]->Reply_0) by {
            assert(rest[j] == events[j + 1]);
        }
        lemma_restore_all_acknowledged(next, rest);
        lemma_restore_actions_len(next, rest);
        assert forall|j: int| 0 <= j < events.len() - 1 implies #[trigger] restore_actions(
            s,
            events,
        )[j] == (ActionView::Send {
            frame: restore_request(s.table, s.image, (s.issued + j) as nat),
            reply_len: ACK_LENGTH as nat,
        }) by {
            if j > 0 {
                assert(restore_actions(s, events)[j] == restore_actions(next, rest)[j - 1]);
            }
        }
        assert(restore_actions(s, events).last() == restore_actions(next, rest).last());
    }
}

/// A calibration-only restore has 32 requests: the chunks of the 4 KiB at
/// byte offset 3,928,064 in ascending order, all under opcode 0x48.
pub proof fn lemma_calibration_requests(image: Seq<u8>, k: nat)
    requires
        k < 32,
    ensures
        restore_requests(calibration_table()) == 32,
        restore_request(calibration_table(), image, k) == write_spi_frame(
            0x48,
            3_928_064 + k * CHUNK_LENGTH,
            image,
        ),
{
    reveal_with_fuel(chunks_before, 2);
    lemma_chunk_in_region(calibration_table(), 1, 0, k);
}

/// A full restore has 31,360 requests, and the regions begin at these
/// request numbers: 0, 23,040, 24,320, 25,408, 25,472, 25,792, 25,824,
/// 26,144 and 26,464.
pub proof fn lemma_full_restore_requests()
    ensures
        restore_requests(full_restore_table()) == 31_360,
        chunks_before(full_restore_table(), 0) == 0,
        chunks_before(full_restore_table(), 1) == 23_040,
        chunks_before(full_restore_table(), 2) == 24_320,
        chunks_before(full_restore_table(), 3) == 25_408,
        chunks_before(full_restore_table(), 4) == 25_472,
        chunks_before(full_restore_table(), 5) == 25_792,
        chunks_before(full_restore_table(), 6) == 25_824,
        chunks_before(full_restore_table(), 7) == 26_144,
        chunks_before(full_restore_table(), 8) == 26_464,
{
    reveal_with_fuel(chunks_before, 10);
}

/// In a full restore, chunk `j` of region `r` goes out as request number
/// `chunks_before(full_restore_table(), r) + j`, under the opcode of that
/// region: the regions are written in the order of the table, each in
/// ascending order of its chunks.
pub proof fn lemma_full_restore_order(image: Seq<u8>, r: nat, j: nat)
    requires
        r < full_restore_table().len(),
        j < full_restore_table()[r as int].chunks(),
    ensures
        restore_request(
            full_restore_table(),
            image,
            chunks_before(full_restore_table(), r) + j,
        ) == write_spi_frame(
            full_restore_table()[r as int].cmd,
            full_restore_table()[r as int].offset + j * CHUNK_LENGTH,
            image,
        ),
{
    lemma_chunk_in_region(full_restore_table(), full_restore_table().len(), r, j);
}

/// A restore in progress.
pub struct RestoreSession {
    spi: Vec<u8>,
    table: Vec<SpiRange>,
    /// Region of the outstanding request.
    region: usize,
    /// Byte offset of the outstanding request.
    offset: usize,
    issued: usize,
    outcome: Option<Outcome>,
}

impl View for RestoreSession {
    type V = RestoreState;

    closed spec fn view(&self) -> RestoreState {
        RestoreState {
            image: self.spi@,
            table: self.table@,
            issued: self.issued as nat,
            outcome: self.outcome,
        }
    }
}

/// Every region of `table` is a whole, positive number of chunks inside the
/// SPI flash, and there are at most 64 regions.
pub open spec fn table_ready(table: Seq<SpiRange>) -> bool {
    &&& table.len() <= 64
    &&& forall|i: int|
        0 <= i < table.len() ==> (#[trigger] table[i]).wf() && table[i].size >= CHUNK_LENGTH
}

/// The first `n` regions of a table that is ready hold at most 32,768
/// chunks each.
pub proof fn lemma_chunks_before_bound(table: Seq<SpiRange>, n: nat)
    requires
        table_ready(table),
        n <= table.len(),
    ensures
        chunks_before(table, n) <= n * 32_768,
    decreases n,
{
    if n > 0 {
        lemma_chunks_before_bound(table, (n - 1) as nat);
        assert(table[n - 1].wf());
    }
}

impl RestoreSession {
    /// A transfer that has not ended holds a whole image, and its place in
    /// the table is that of the request it has handed out last.
    pub closed spec fn wf(&self) -> bool {
        self.outcome is None ==> {
            &&& self.spi@.len() == SPI_FLASH_SIZE
            &&& table_ready(self.table@)
            &&& self.region < self.table@.len()
            &&& self.table@[self.region as int].offset <= self.offset
            &&& self.offset + CHUNK_LENGTH <= self.table@[self.region as int].offset
                + self.table@[self.region as int].size
            &&& (self.offset - self.table@[self.region as int].offset) % (CHUNK_LENGTH as int)
                == 0
            &&& self.issued == chunks_before(self.table@, self.region as nat) + (self.offset
                - self.table@[self.region as int].offset) / (CHUNK_LENGTH as int) + 1
        }
    }

    /// A transfer that has not ended has handed out between one and all of
    /// its requests.
    pub proof fn lemma_issued_in_range(&self)
        requires
            self.wf(),
            self@.outcome is None,
        ensures
            self@.image.len() == SPI_FLASH_SIZE,
            1 <= self@.issued <= restore_requests(self@.table),
    {
        let table = self.table@;
        let r = table[self.region as int];
        assert(r.wf());
        let j = (self.offset - r.offset) / (CHUNK_LENGTH as int);
        assert(j < r.chunks());
        lemma_chunks_before_monotonic(table, (self.region + 1) as nat, table.len());
        assert(chunks_before(table, (self.region + 1) as nat) == chunks_before(
            table,
            self.region as nat,
        ) + r.chunks());
    }

    /// How the transfer ended, or `None` while it is running.
    pub fn outcome(&self) -> (outcome: Option<Outcome>)
        ensures
            outcome == self@.outcome,
    {
        self.outcome
    }

    /// Number of requests handed out so far.
    pub fn issued(&self) -> (issued: usize)
        ensures
            issued == self@.issued,
    {
        self.issued
    }

    /// Byte offset in the image of the chunk whose write is outstanding, or
    /// `None` where the transfer has ended.
    pub fn pending_offset(&self) -> (offset: Option<usize>)
        requires
            self.wf(),
        ensures
            offset is Some == self@.outcome is None,
            offset is Some ==> self@.issued >= 1 && offset->0 == chunk_among(
                self@.table,
                self@.table.len(),
                (self@.issued - 1) as nat,
            ).1,
    {
        if self.outcome.is_none() {
            proof {
                let r = self.table@[self.region as int];
                assert(r.wf());
                let j = ((self.offset - r.offset) / (CHUNK_LENGTH as int)) as nat;
                lemma_chunk_in_region(self.table@, self.table@.len(), self.region as nat, j);
            }
            Some(self.offset)
        } else {
            None
        }
    }

    /// Takes what the driver reports and decides what is to be done next.
    pub fn step(&mut self, event: Event) -> (action: Action)
        requires
            old(self).wf(),
        ensures
            final(self).wf(),
            (final(self)@, action@) == restore_step(old(self)@, event@),
    {
        if let Some(outcome) = self.outcome {
            return Action::Finish(outcome);
        }
        let range: SpiRange = self.table[self.region];
        let ghost table = self.table@;
        proof {
            assert(range.wf());
            self.lemma_issued_in_range();
            lemma_chunks_before_bound(table, self.region as nat);
            lemma_chunks_before_bound(table, table.len());
            lemma_chunks_before_monotonic(table, (self.region + 1) as nat, table.len());
            assert(chunks_before(table, (self.region + 1) as nat) == chunks_before(
                table,
                self.region as nat,
            ) + range.chunks());
        }
        let more_in_region: bool = self.offset + CHUNK_LENGTH < range.offset + range.size;
        let last: bool = !more_in_region && self.region + 1 >= self.table.len();
        proof {
            if last {
                assert(self.region + 1 == table.len());
            } else if !more_in_region {
                assert(table[self.region + 1].wf());
                assert(chunks_before(table, (self.region + 2) as nat) == chunks_before(
                    table,
                    (self.region + 1) as nat,
                ) + table[self.region + 1].chunks());
                lemma_chunks_before_monotonic(table, (self.region + 2) as nat, table.len());
            }
        }
        let ended: Option<Outcome> = match event {
            Event::LinkError => Some(Outcome::LinkFailed),
            Event::Reply(response) => {
                if !is_acknowledged(response.as_slice()) {
                    Some(Outcome::WriteRejected)
                } else if last {
                    Some(Outcome::Complete)
                } else {
                    None
                }
            },
        };
        match ended {
            Some(outcome) => {
                self.outcome = Some(outcome);
                Action::Finish(outcome)
            },
            None => {
                if more_in_region {
                    self.offset = self.offset + CHUNK_LENGTH;
                } else {
                    self.region = self.region + 1;
                    self.offset = self.table[self.region].offset;
                }
                let next: SpiRange = self.table[self.region];
                proof {
                    assert(next.wf());
                    let j = ((self.offset - next.offset) / (CHUNK_LENGTH as int)) as nat;
                    assert(self.offset == next.offset + j * CHUNK_LENGTH);
                    lemma_chunk_in_region(table, table.len(), self.region as nat, j);
                }
                let frame = command_writespiflash(&next, self.offset, self.spi.as_slice());
                self.issued = self.issued + 1;
                Action::Send { frame, reply_len: ACK_LENGTH }
            },
        }
    }
}

/// Starts writing the SPI flash image `spi` back to the radio: all regions,
/// or with `calib_only` the calibration region alone.
///
/// An image that is not exactly 4,194,304 bytes long ends the transfer at
/// once with `SizeMismatch`, and no request is ever handed out. Otherwise
/// the first action sends the first chunk of the first region.
pub fn restore_spi_flash(calib_only: bool, spi: Vec<u8>) -> (started: (RestoreSession, Action))
    ensures
        started.0.wf(),
        (started.0@, started.1@) == restore_start(calib_only, spi@),
{
    let table = restore_ranges(calib_only);
    if spi.len() != SPI_FLASH_SIZE {
        let session = RestoreSession {
            spi,
            table,
            region: 0,
            offset: 0,
            issued: 0,
            outcome: Some(Outcome::SizeMismatch),
        };
        (session, Action::Finish(Outcome::SizeMismatch))
    } else {
        let first: SpiRange = table[0];
        proof {
            crate::spi::lemma_full_table_coverage();
            crate::spi::lemma_calibration_table_coverage();
            lemma_chunk_in_region(table@, table@.len(), 0, 0);
        }
        let frame = command_writespiflash(&first, first.offset, spi.as_slice());
        let session = RestoreSession {
            spi,
            table,
            region: 0,
            offset: first.offset,
            issued: 1,
            outcome: None,
        };
        (session, Action::Send { frame, reply_len: ACK_LENGTH })
    }
}

} // verus!
