//! The rollover rules of a segmented archive: which part each chunk of file
//! content goes to, when a part is closed and the next one opened.

use vstd::prelude::*;

verus! {

/// Size of the reads by which file content is streamed into a part (1 MiB).
pub const CHUNK_SIZE: u64 = 1048576;

/// Part size used when no valid override is given (4 GiB).
pub const DEFAULT_SEGMENT_SIZE: u64 = 4294967296;

/// Part index and bytes counted in it after the chunks `chunks` were appended,
/// starting from part 0 with nothing in it.
pub open spec fn cursor_after(chunks: Seq<nat>, limit: nat) -> (nat, nat)
    decreases chunks.len(),
{
    if chunks.len() == 0 {
        (0, 0)
    } else {
        let (index, written) = cursor_after(chunks.drop_last(), limit);
        if written + chunks.last() >= limit {
            (index + 1, 0)
        } else {
            (index, written + chunks.last())
        }
    }
}

/// Byte counts of the parts that the chunks `chunks` closed, in order.
pub open spec fn closed_sizes(chunks: Seq<nat>, limit: nat) -> Seq<nat>
    decreases chunks.len(),
{
    if chunks.len() == 0 {
        Seq::empty()
    } else {
        let before = closed_sizes(chunks.drop_last(), limit);
        let written = cursor_after(chunks.drop_last(), limit).1;
        if written + chunks.last() >= limit {
            before.push(written + chunks.last())
        } else {
            before
        }
    }
}

/// The part that chunk `i` of `chunks` is appended to.
pub open spec fn segment_of(chunks: Seq<nat>, limit: nat, i: int) -> nat {
    cursor_after(chunks.take(i), limit).0
}

/// Total of the byte counts in `s`.
pub open spec fn total(s: Seq<nat>) -> nat
    decreases s.len(),
{
    if s.len() == 0 {
        0
    } else {
        total(s.drop_last()) + s.last()
    }
}

/// Every byte of every chunk is counted in exactly one part: the closed parts
/// and the open one together hold all the bytes appended, one closed part per
/// rollover.
pub proof fn lemma_bytes_conserved(chunks: Seq<nat>, limit: nat)
    requires
        limit > 0,
    ensures
        total(chunks) == total(closed_sizes(chunks, limit)) + cursor_after(chunks, limit).1,
        closed_sizes(chunks, limit).len() == cursor_after(chunks, limit).0,
    decreases chunks.len(),
{
    if chunks.len() > 0 {
        let rest = chunks.drop_last();
        lemma_bytes_conserved(rest, limit);
        let written = cursor_after(rest, limit).1;
        if written + chunks.last() >= limit {
            let before = closed_sizes(rest, limit);
            let after = before.push(written + chunks.last());
            assert(after.drop_last() == before);
        }
    }
}

/// Total of the chunks of `chunks` that go to part `k`.
pub open spec fn bytes_in_part(chunks: Seq<nat>, limit: nat, k: nat) -> nat
    decreases chunks.len(),
{
    if chunks.len() == 0 {
        0
    } else {
        bytes_in_part(chunks.drop_last(), limit, k) + if segment_of(chunks, limit, chunks.len() - 1) == k {
            chunks.last()
        } else {
            0
        }
    }
}

/// Each part holds exactly the chunks assigned to it: a closed part the
/// bytes counted when it was closed, the open part the bytes counted in it,
/// and a part not opened yet nothing.
pub proof fn lemma_parts_hold_their_chunks(chunks: Seq<nat>, limit: nat, k: nat)
    requires
        limit > 0,
    ensures
        k < cursor_after(chunks, limit).0 ==> bytes_in_part(chunks, limit, k) == closed_sizes(
            chunks,
            limit,
        )[k as int],
        k == cursor_after(chunks, limit).0 ==> bytes_in_part(chunks, limit, k) == cursor_after(
            chunks,
            limit,
        ).1,
        k > cursor_after(chunks, limit).0 ==> bytes_in_part(chunks, limit, k) == 0,
    decreases chunks.len(),
{
    if chunks.len() > 0 {
        let rest = chunks.drop_last();
        lemma_parts_hold_their_chunks(rest, limit, k);
        lemma_bytes_conserved(rest, limit);
        assert(chunks.take(chunks.len() - 1) == rest);
        let (i, w) = cursor_after(rest, limit);
        let before = closed_sizes(rest, limit);
        if w + chunks.last() >= limit {
            let after = before.push(w + chunks.last());
            if k < i {
                assert(after[k as int] == before[k as int]);
            }
        }
    }
}

/// One more chunk leaves the part index as it was or moves it on by one.
proof fn lemma_step_index(chunks: Seq<nat>, limit: nat, i: int)
    requires
        0 <= i < chunks.len(),
    ensures
        segment_of(chunks, limit, i + 1) == segment_of(chunks, limit, i)
            || segment_of(chunks, limit, i + 1) == segment_of(chunks, limit, i) + 1,
{
    assert(chunks.take(i + 1).drop_last() == chunks.take(i));
}

/// Part indices of a run start at 0 and go up by at most one from a chunk to
/// the next: the parts are numbered 0 to K without gaps, K being the index of
/// the part open after the last chunk.
pub proof fn lemma_indices_contiguous(chunks: Seq<nat>, limit: nat)
    ensures
        segment_of(chunks, limit, 0) == 0,
        segment_of(chunks, limit, chunks.len() as int) == cursor_after(chunks, limit).0,
        forall|i: int|
            0 <= i < chunks.len() ==> #[trigger] segment_of(chunks, limit, i + 1) == segment_of(chunks, limit, i)
                || segment_of(chunks, limit, i + 1) == segment_of(chunks, limit, i) + 1,
{
    assert(chunks.take(0).len() == 0);
    assert(chunks.take(chunks.len() as int) == chunks);
    assert forall|i: int| 0 <= i < chunks.len() implies #[trigger] segment_of(chunks, limit, i + 1)
        == segment_of(chunks, limit, i) || segment_of(chunks, limit, i + 1) == segment_of(chunks, limit, i) + 1 by {
        lemma_step_index(chunks, limit, i);
    }
}

/// Chunks go to parts in their own order: a later chunk never lands in an
/// earlier part, so reading the parts one after the other gives the content
/// back in the order it was written.
pub proof fn lemma_segments_in_order(chunks: Seq<nat>, limit: nat, i: int, j: int)
    requires
        0 <= i <= j <= chunks.len(),
    ensures
        segment_of(chunks, limit, i) <= segment_of(chunks, limit, j),
    decreases j - i,
{
    if i < j {
        lemma_segments_in_order(chunks, limit, i, j - 1);
        lemma_step_index(chunks, limit, j - 1);
    }
}

/// With chunks of at most `CHUNK_SIZE` bytes, a part is closed once it holds
/// `limit` bytes or more, and never holds `CHUNK_SIZE` bytes past `limit`;
/// the open part holds fewer than `limit`.
pub proof fn lemma_fill_bounded(chunks: Seq<nat>, limit: nat)
    requires
        limit > 0,
        forall|i: int| 0 <= i < chunks.len() ==> #[trigger] chunks[i] <= CHUNK_SIZE,
    ensures
        cursor_after(chunks, limit).1 < limit,
        forall|k: int|
            0 <= k < closed_sizes(chunks, limit).len() ==> limit <= #[trigger] closed_sizes(chunks, limit)[k]
                < limit + CHUNK_SIZE,
    decreases chunks.len(),
{
    if chunks.len() > 0 {
        let rest = chunks.drop_last();
        assert forall|i: int| 0 <= i < rest.len() implies #[trigger] rest[i] <= CHUNK_SIZE by {
            assert(rest[i] == chunks[i]);
        }
        lemma_fill_bounded(rest, limit);
        assert(chunks.last() == chunks[chunks.len() - 1]);
        let before = closed_sizes(rest, limit);
        let written = cursor_after(rest, limit).1;
        if written + chunks.last() >= limit {
            let after = before.push(written + chunks.last());
            assert forall|k: int| 0 <= k < after.len() implies limit <= #[trigger] after[k] < limit
                + CHUNK_SIZE by {
                if k < before.len() {
                    assert(after[k] == before[k]);
                }
            }
        }
    }
}

/// How an entry of the working directory goes into the archive.
#[derive(Clone, Copy, Debug, PartialEq, Eq)]
pub enum EntryPlan {
    /// A regular file: its content is streamed in chunks, with a rollover
    /// check after each.
    StreamChunks,
    /// A directory: its whole tree goes into the open part, with no rollover
    /// inside it.
    WholeDirectory,
    /// Anything else is left out.
    Skip,
}

/// How an entry is archived, from what its metadata says it is.
pub fn plan_entry(is_file: bool, is_dir: bool) -> (r: EntryPlan)
    ensures
        is_file ==> r == EntryPlan::StreamChunks,
        !is_file && is_dir ==> r == EntryPlan::WholeDirectory,
        !is_file && !is_dir ==> r == EntryPlan::Skip,
{
    if is_file {
        EntryPlan::StreamChunks
    } else if is_dir {
        EntryPlan::WholeDirectory
    } else {
        EntryPlan::Skip
    }
}

/// Where a backup run stands.
#[derive(Clone, Copy, Debug, PartialEq, Eq)]
pub enum Phase {
    /// Nothing is written until the user confirms.
    AwaitingConfirmation,
    /// A part is open and takes entries.
    SegmentOpen,
    /// The last part was closed; nothing more is written.
    Finished,
    /// The user declined; no part was ever opened.
    Declined,
}

/// What the caller has to do after an event.
#[derive(Clone, Copy, Debug, PartialEq, Eq)]
pub enum Action {
    /// Stop without creating any file.
    Exit,
    /// Create part `index` and start writing into it.
    Open(u64),
    /// Keep appending to the part that is open.
    Continue,
    /// Close part `close` (trailer and flush), then create part `open`.
    Rollover { close: u64, open: u64 },
    /// Close part `index`, the last one of the run.
    Close(u64),
}

/// State of one backup run: whether the user said yes, which part is open,
/// how many bytes it holds, and when to move on to the next part.
pub struct BackupSession {
    phase: Phase,
    index: u64,
    written: u64,
    limit: u64,
    /// Sizes of the file chunks appended so far, in order.
    chunks: Ghost<Seq<nat>>,
}

impl BackupSession {
    /// The phase the run is in.
    pub closed spec fn phase_of(&self) -> Phase {
        self.phase
    }

    /// Index of the part that is open (or was open last).
    pub closed spec fn index_of(&self) -> nat {
        self.index as nat
    }

    /// Bytes counted in the open part.
    pub closed spec fn written_of(&self) -> nat {
        self.written as nat
    }

    /// The part size threshold.
    pub closed spec fn limit_of(&self) -> nat {
        self.limit as nat
    }

    /// Sizes of the file chunks appended so far.
    pub closed spec fn chunks_of(&self) -> Seq<nat> {
        self.chunks@
    }

    /// The counters are those that the chunks so far lead to.
    pub closed spec fn wf(&self) -> bool {
        &&& self.limit > 0
        &&& self.written < self.limit
        &&& cursor_after(self.chunks@, self.limit as nat) == (self.index as nat, self.written as nat)
        &&& (self.phase == Phase::AwaitingConfirmation || self.phase == Phase::Declined)
            ==> self.chunks@.len() == 0
    }

    /// What the well-formedness of a run says of its counters.
    pub proof fn lemma_counters(&self)
        requires
            self.wf(),
        ensures
            self.limit_of() > 0,
            self.written_of() < self.limit_of(),
            cursor_after(self.chunks_of(), self.limit_of()) == (self.index_of(), self.written_of()),
            (self.phase_of() == Phase::AwaitingConfirmation || self.phase_of() == Phase::Declined)
                ==> self.chunks_of().len() == 0,
    {
    }

    /// A run with the part size threshold `limit`, waiting for confirmation.
    pub fn new(limit: u64) -> (r: BackupSession)
        requires
            limit > 0,
        ensures
            r.wf(),
            r.phase_of() == Phase::AwaitingConfirmation,
            r.limit_of() == limit,
            r.index_of() == 0,
            r.written_of() == 0,
            r.chunks_of() == Seq::<nat>::empty(),
    {
        BackupSession { phase: Phase::AwaitingConfirmation, index: 0, written: 0, limit, chunks: Ghost(Seq::empty()) }
    }

    /// The phase the run is in.
    pub fn phase(&self) -> (r: Phase)
        ensures
            r == self.phase_of(),
    {
        self.phase
    }

    /// Index of the part that is open.
    pub fn segment_index(&self) -> (r: u64)
        ensures
            r == self.index_of(),
    {
        self.index
    }

    /// Bytes counted in the open part.
    pub fn bytes_in_segment(&self) -> (r: u64)
        ensures
            r == self.written_of(),
    {
        self.written
    }

    /// The part size threshold.
    pub fn segment_size(&self) -> (r: u64)
        ensures
            r == self.limit_of(),
    {
        self.limit
    }

    /// The user's answer: on yes part 0 is opened, on no the run ends
    /// before any file is created.
    pub fn confirm(&mut self, yes: bool) -> (r: Action)
        requires
            old(self).wf(),
            old(self).phase_of() == Phase::AwaitingConfirmation,
        ensures
            final(self).wf(),
            final(self).limit_of() == old(self).limit_of(),
            final(self).index_of() == 0,
            final(self).written_of() == 0,
            final(self).chunks_of() == old(self).chunks_of(),
            yes ==> r == Action::Open(0) && final(self).phase_of() == Phase::SegmentOpen,
            !yes ==> r == Action::Exit && final(self).phase_of() == Phase::Declined,
    {
        if yes {
            self.phase = Phase::SegmentOpen;
            Action::Open(0)
        } else {
            self.phase = Phase::Declined;
            Action::Exit
        }
    }

    /// Counts a chunk of `n` bytes just appended to the open part. Once the
    /// part holds `limit` bytes or more it is closed and the next one opened,
    /// before the next chunk.
    pub fn chunk_written(&mut self, n: u64) -> (r: Action)
        requires
            old(self).wf(),
            old(self).phase_of() == Phase::SegmentOpen,
            n <= CHUNK_SIZE,
            old(self).index_of() < u64::MAX,
        ensures
            final(self).wf(),
            final(self).phase_of() == Phase::SegmentOpen,
            final(self).limit_of() == old(self).limit_of(),
            final(self).chunks_of() == old(self).chunks_of().push(n as nat),
            old(self).written_of() + n >= old(self).limit_of() ==> {
                &&& r == (Action::Rollover { close: old(self).index_of() as u64, open: (old(self).index_of() + 1) as u64 })
                &&& final(self).index_of() == old(self).index_of() + 1
                &&& final(self).written_of() == 0
            },
            old(self).written_of() + n < old(self).limit_of() ==> {
                &&& r == Action::Continue
                &&& final(self).index_of() == old(self).index_of()
                &&& final(self).written_of() == old(self).written_of() + n
            },
    {
        let ghost before = self.chunks@;
        self.chunks = Ghost(self.chunks@.push(n as nat));
        assert(self.chunks@.drop_last() == before);
        if n >= self.limit - self.written {
            let close = self.index;
            self.index = self.index + 1;
            self.written = 0;
            Action::Rollover { close, open: self.index }
        } else {
            self.written = self.written + n;
            Action::Continue
        }
    }

    /// All entries were written: the open part is closed and the run ends.
    pub fn finish(&mut self) -> (r: Action)
        requires
            old(self).wf(),
            old(self).phase_of() == Phase::SegmentOpen,
        ensures
            final(self).wf(),
            final(self).phase_of() == Phase::Finished,
            final(self).index_of() == old(self).index_of(),
            final(self).written_of() == old(self).written_of(),
            final(self).limit_of() == old(self).limit_of(),
            final(self).chunks_of() == old(self).chunks_of(),
            r == Action::Close(old(self).index_of() as u64),
    {
        self.phase = Phase::Finished;
        Action::Close(self.index)
    }
}

} // verus!
