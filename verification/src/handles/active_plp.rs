//! The large value that a statement is reading over several calls.

use vstd::prelude::*;

use crate::diag::DiagRecord;
use crate::fetch_engine::plp_stream::PlpEncoding;

verus! {

/// A large value in progress. `D` is the decoder of its code page, where its
/// text is widened.
#[derive(Debug)]
pub struct ActivePlpStream<D> {
    /// The column, counted from 1.
    pub column: usize,
    pub encoding: PlpEncoding,
    /// The first byte of a unit whose other byte comes with the next chunk.
    pub pending_byte: Option<u8>,
    /// The first half of a pair whose other half comes with the next chunk.
    pub pending_high_surrogate: Option<u16>,
    pub narrow_to_wide: Option<D>,
    /// Units that are decoded and did not fit the caller's buffer.
    pub pending_units: Vec<u16>,
    pub prefetched_wire: Vec<u8>,
    pub prefetched_offset: usize,
    pub prefetched_total_read_before: usize,
    pub prefetched_known_total: Option<u64>,
    pub prefetched_reached_end: bool,
    pub prefetch_error: Option<DiagRecord>,
}

/// Bytes that were read ahead.
#[verifier::ext_equal]
pub struct PrefetchView {
    pub wire: Seq<u8>,
    /// How many of them have been handed on.
    pub offset: int,
    /// How many bytes of the value came before them.
    pub total_read_before: usize,
    pub known_total: Option<u64>,
    /// Whether the value ends with them.
    pub reached_end: bool,
}

/// A sum, or the largest number there is.
pub open spec fn capped_sum(a: int, b: int) -> int {
    if a + b <= usize::MAX {
        a + b
    } else {
        usize::MAX as int
    }
}

/// The first `read` of these bytes, read ahead.
pub open spec fn read_ahead(
    bytes: Seq<u8>,
    read: int,
    total_read_before: usize,
    known_total: Option<u64>,
    reached_end: bool,
) -> PrefetchView {
    PrefetchView {
        wire: if read <= bytes.len() {
            bytes.take(read)
        } else {
            bytes
        },
        offset: 0,
        total_read_before,
        known_total,
        reached_end,
    }
}

/// The bytes that were read ahead and not handed on yet.
pub open spec fn left_over(prefetch: PrefetchView) -> Seq<u8> {
    prefetch.wire.skip(prefetch.offset)
}

/// How many bytes are handed on to a buffer.
pub open spec fn handed_count(prefetch: PrefetchView, room: nat) -> int {
    let left = prefetch.wire.len() - prefetch.offset;
    if left <= room {
        left
    } else {
        room as int
    }
}

/// What is read ahead after a read of this size.
pub open spec fn after_read(prefetch: PrefetchView, room: nat) -> PrefetchView {
    PrefetchView { offset: prefetch.offset + handed_count(prefetch, room), ..prefetch }
}

/// A buffer after a read into it.
pub open spec fn filled_from(prefetch: PrefetchView, out: Seq<u8>) -> Seq<u8> {
    let n = handed_count(prefetch, out.len());
    prefetch.wire.subrange(prefetch.offset, prefetch.offset + n) + out.skip(n)
}

/// What a read of this size gives: the number of bytes, whether the value ends
/// with them, its length where it is known, and how much of it has been handed
/// on; nothing where no byte is left.
pub open spec fn reported(prefetch: PrefetchView, room: nat) -> Option<
    (usize, bool, Option<u64>, usize),
> {
    let after = after_read(prefetch, room).offset;
    if prefetch.offset == prefetch.wire.len() {
        None
    } else {
        Some(
            (
                handed_count(prefetch, room) as usize,
                prefetch.reached_end && after == prefetch.wire.len(),
                prefetch.known_total,
                capped_sum(prefetch.total_read_before as int, after) as usize,
            ),
        )
    }
}

impl<D> ActivePlpStream<D> {
    /// Whether no more bytes have been handed on than there are.
    pub open spec fn wf(self) -> bool {
        self.prefetched_offset <= self.prefetched_wire@.len()
    }

    /// The bytes that were read ahead.
    pub open spec fn prefetch(self) -> PrefetchView {
        PrefetchView {
            wire: self.prefetched_wire@,
            offset: self.prefetched_offset as int,
            total_read_before: self.prefetched_total_read_before,
            known_total: self.prefetched_known_total,
            reached_end: self.prefetched_reached_end,
        }
    }

    /// Whether `after` differs from this stream in the bytes read ahead only.
    pub open spec fn same_but_prefetch(self, after: Self) -> bool {
        &&& after.column == self.column
        &&& after.encoding == self.encoding
        &&& after.pending_byte == self.pending_byte
        &&& after.pending_high_surrogate == self.pending_high_surrogate
        &&& after.narrow_to_wide == self.narrow_to_wide
        &&& after.pending_units == self.pending_units
        &&& after.prefetch_error == self.prefetch_error
    }

    /// A value of which nothing has been read yet.
    pub fn new(column: usize, encoding: PlpEncoding, narrow_to_wide: Option<D>) -> (stream: Self)
        ensures
            stream.wf(),
            stream.column == column,
            stream.encoding == encoding,
            stream.pending_byte is None,
            stream.pending_high_surrogate is None,
            stream.narrow_to_wide == narrow_to_wide,
            stream.pending_units@.len() == 0,
            stream.prefetch() == (PrefetchView {
                wire: Seq::empty(),
                offset: 0,
                total_read_before: 0,
                known_total: None,
                reached_end: false,
            }),
            stream.prefetch_error is None,
    {
        ActivePlpStream {
            column,
            encoding,
            pending_byte: None,
            pending_high_surrogate: None,
            narrow_to_wide,
            pending_units: Vec::new(),
            prefetched_wire: Vec::new(),
            prefetched_offset: 0,
            prefetched_total_read_before: 0,
            prefetched_known_total: None,
            prefetched_reached_end: false,
            prefetch_error: None,
        }
    }

    /// Keeps the first `read` of these bytes, which were read ahead.
    pub fn set_prefetched_wire(
        &mut self,
        bytes: Vec<u8>,
        read: usize,
        total_read_before: usize,
        known_total: Option<u64>,
        reached_end: bool,
    )
        ensures
            final(self).wf(),
            old(self).same_but_prefetch(*final(self)),
            final(self).prefetch() == read_ahead(
                bytes@,
                read as int,
                total_read_before,
                known_total,
                reached_end,
            ),
    {
        let mut bytes = bytes;
        bytes.truncate(read);
        self.prefetched_wire = bytes;
        self.prefetched_offset = 0;
        self.prefetched_total_read_before = total_read_before;
        self.prefetched_known_total = known_total;
        self.prefetched_reached_end = reached_end;
    }

    /// Hands on bytes that were read ahead, as many as fit. Gives their number,
    /// whether the value ends with them, its length where it is known, and how
    /// much of it has been handed on; nothing where no byte is left.
    pub fn read_prefetched_wire(&mut self, out: &mut [u8]) -> (read: Option<
        (usize, bool, Option<u64>, usize),
    >)
        requires
            old(self).wf(),
        ensures
            final(self).wf(),
            old(self).same_but_prefetch(*final(self)),
            final(out)@.len() == old(out)@.len(),
            read == reported(old(self).prefetch(), old(out)@.len()),
            final(self).prefetch() == after_read(old(self).prefetch(), old(out)@.len()),
            final(out)@ == filled_from(old(self).prefetch(), old(out)@),
            read is None ==> *final(self) == *old(self) && final(out)@ == old(out)@,
    {
        let remaining: usize = self.prefetched_wire.len() - self.prefetched_offset;
        if remaining == 0 {
            assert(out@ =~= filled_from(self.prefetch(), out@));
            return None;
        }
        let read: usize = if remaining <= out.len() {
            remaining
        } else {
            out.len()
        };
        let ghost wire = self.prefetched_wire@;
        let ghost from = self.prefetched_offset as int;
        let mut k: usize = 0;
        assert(out@ =~= wire.subrange(from, from) + old(out)@.skip(0));
        while k < read
            invariant
                k <= read <= out@.len(),
                out@.len() == old(out)@.len(),
                self.prefetched_wire@ == wire,
                self.prefetched_offset == from,
                from + read <= wire.len(),
                out@ == wire.subrange(from, from + k) + old(out)@.skip(k as int),
                *self == *old(self),
            decreases read - k,
        {
            assert(self.prefetched_wire.len() == wire.len());
            out[k] = self.prefetched_wire[self.prefetched_offset + k];
            assert(out@ =~= wire.subrange(from, from + k + 1) + old(out)@.skip(k + 1));
            k = k + 1;
        }
        self.prefetched_offset = self.prefetched_offset + read;
        let reached_end: bool = self.prefetched_reached_end && self.prefetched_offset
            == self.prefetched_wire.len();
        let total: usize = self.prefetched_total_read_before.saturating_add(
            self.prefetched_offset,
        );
        Some((read, reached_end, self.prefetched_known_total, total))
    }

    /// Takes the emptied buffer for the next value, and forgets what was read
    /// ahead.
    pub fn take_prefetch_buffer(&mut self) -> (buffer: Vec<u8>)
        ensures
            buffer@.len() == 0,
            final(self).wf(),
            old(self).same_but_prefetch(*final(self)),
            final(self).prefetch() == (PrefetchView {
                wire: Seq::empty(),
                offset: 0,
                total_read_before: 0,
                known_total: None,
                reached_end: false,
            }),
    {
        self.prefetched_offset = 0;
        self.prefetched_total_read_before = 0;
        self.prefetched_known_total = None;
        self.prefetched_reached_end = false;
        let mut buffer: Vec<u8> = Vec::new();
        std::mem::swap(&mut buffer, &mut self.prefetched_wire);
        buffer.clear();
        buffer
    }

    /// Keeps the error that reading ahead ran into.
    pub fn set_prefetch_error(&mut self, error: DiagRecord)
        ensures
            *final(self) == (ActivePlpStream { prefetch_error: Some(error), ..*old(self) }),
    {
        self.prefetch_error = Some(error);
    }

    /// Takes the error that reading ahead ran into.
    pub fn take_prefetch_error(&mut self) -> (error: Option<DiagRecord>)
        ensures
            error == old(self).prefetch_error,
            *final(self) == (ActivePlpStream { prefetch_error: None, ..*old(self) }),
    {
        self.prefetch_error.take()
    }
}

/// What reads of these sizes hand on.
pub open spec fn handed_on(left: Seq<u8>, sizes: Seq<nat>) -> Seq<u8>
    decreases sizes.len(),
{
    if sizes.len() == 0 {
        Seq::empty()
    } else {
        let n = if left.len() <= sizes[0] {
            left.len() as int
        } else {
            sizes[0] as int
        };
        left.take(n) + handed_on(left.skip(n), sizes.drop_first())
    }
}

/// The room that reads of these sizes have.
pub open spec fn room(sizes: Seq<nat>) -> nat
    decreases sizes.len(),
{
    if sizes.len() == 0 {
        0
    } else {
        sizes[0] + room(sizes.drop_first())
    }
}

/// Reads hand on what was read ahead in order and without a gap, however large
/// the buffers are, until nothing is left.
pub proof fn reads_span_calls(left: Seq<u8>, sizes: Seq<nat>)
    ensures
        handed_on(left, sizes) == left.take(
            if left.len() <= room(sizes) {
                left.len() as int
            } else {
                room(sizes) as int
            },
        ),
    decreases sizes.len(),
{
    if sizes.len() > 0 {
        let n = if left.len() <= sizes[0] {
            left.len() as int
        } else {
            sizes[0] as int
        };
        reads_span_calls(left.skip(n), sizes.drop_first());
        let m = if left.len() <= room(sizes) {
            left.len() as int
        } else {
            room(sizes) as int
        };
        assert(left.take(n) + left.skip(n).take(m - n) =~= left.take(m));
    } else {
        assert(left.take(0) =~= Seq::<u8>::empty());
    }
}

/// A read moves bytes from what is left to the front of the buffer: as many as
/// there are or as fit. What it does not reach, on either side, stays.
pub proof fn a_read_moves_what_fits(prefetch: PrefetchView, out: Seq<u8>)
    requires
        0 <= prefetch.offset <= prefetch.wire.len(),
    ensures
        ({
            let n = left_over(prefetch).len() - left_over(after_read(prefetch, out.len())).len();
            let filled = filled_from(prefetch, out);
            &&& filled.len() == out.len()
            &&& filled.take(n) + left_over(after_read(prefetch, out.len())) == left_over(prefetch)
            &&& filled.skip(n) == out.skip(n)
            &&& n == left_over(prefetch).len() || n == out.len()
            &&& after_read(prefetch, out.len()).wire == prefetch.wire
        }),
{
    let n = handed_count(prefetch, out.len());
    let filled = filled_from(prefetch, out);
    assert(filled.take(n) + left_over(after_read(prefetch, out.len())) =~= left_over(prefetch));
    assert(filled.skip(n) =~= out.skip(n));
}

/// A read reports the bytes it moved and how much of the value that makes. It
/// reports the end with the last byte of the last bytes, not before; and it
/// reports nothing exactly when no byte is left.
pub proof fn a_read_reports_what_it_moved(prefetch: PrefetchView, room: nat)
    requires
        0 <= prefetch.offset <= prefetch.wire.len() <= usize::MAX,
    ensures
        reported(prefetch, room) is None <==> left_over(prefetch).len() == 0,
        reported(prefetch, room) matches Some(report) ==> {
            let after = left_over(after_read(prefetch, room));
            &&& report.0 == left_over(prefetch).len() - after.len()
            &&& report.1 <==> prefetch.reached_end && after.len() == 0
            &&& report.2 == prefetch.known_total
            &&& prefetch.total_read_before + prefetch.wire.len() <= usize::MAX ==> report.3
                == prefetch.total_read_before + prefetch.wire.len() - after.len()
        },
{
}

/// A read hands on what reads of that size hand on, and the next reads go on
/// behind it.
pub proof fn reads_go_on_where_the_last_stopped(
    prefetch: PrefetchView,
    out: Seq<u8>,
    sizes: Seq<nat>,
)
    requires
        0 <= prefetch.offset <= prefetch.wire.len(),
    ensures
        handed_on(left_over(prefetch), seq![out.len()] + sizes) == filled_from(prefetch, out).take(
            handed_count(prefetch, out.len()),
        ) + handed_on(left_over(after_read(prefetch, out.len())), sizes),
{
    let n = handed_count(prefetch, out.len());
    let all = seq![out.len()] + sizes;
    assert(all.drop_first() =~= sizes);
    assert(left_over(prefetch).take(n) =~= filled_from(prefetch, out).take(n));
    assert(left_over(prefetch).skip(n) =~= left_over(after_read(prefetch, out.len())));
}

/// What is kept of bytes that were read ahead is their front, and all of it is
/// left to be handed on.
pub proof fn bytes_read_ahead_are_left_to_be_read(
    bytes: Seq<u8>,
    behind: Seq<u8>,
    total_read_before: usize,
    known_total: Option<u64>,
    reached_end: bool,
)
    ensures
        ({
            let kept = read_ahead(
                bytes + behind,
                bytes.len() as int,
                total_read_before,
                known_total,
                reached_end,
            );
            &&& left_over(kept) == bytes
            &&& kept.total_read_before == total_read_before
            &&& kept.known_total == known_total
            &&& kept.reached_end == reached_end
        }),
{
    assert((bytes + behind).take(bytes.len() as int) =~= bytes);
    assert(bytes.skip(0) =~= bytes);
}

} // verus!
