//! A large value that is delivered over several calls.
//!
//! The value's bytes come from the wire in chunks and leave in pieces as large
//! as the caller's buffer. Bytes that cannot be transcoded yet are carried to
//! the next chunk; what is transcoded and not delivered yet is pending.

use std::collections::VecDeque;

use vstd::prelude::*;
use vstd::slice::slice_subrange;

use crate::conversion::transcode::{self, DaeSource};
use crate::conversion::unicode::{
    self, copy_bytes, decode_units, encode_utf8_bytes, units_from_le,
};

verus! {

/// How a value is encoded on the wire.
#[derive(Debug, Clone, Copy, PartialEq, Eq, Structural)]
pub enum PlpEncoding {
    SingleByteText,
    Utf16Text,
    Binary,
}

/// What a value is delivered as.
#[derive(Debug, Clone, Copy, PartialEq, Eq, Structural)]
pub enum PlpTarget {
    /// UTF-8 bytes.
    Char,
    /// UTF-16 units.
    WChar,
}

/// What is transcoded and not delivered yet.
#[derive(Debug)]
enum Pending {
    Bytes(VecDeque<u8>),
    Units(VecDeque<u16>),
}

/// What is transcoded and not delivered yet, as a mathematical value.
#[verifier::ext_equal]
pub enum PendingView {
    Bytes(Seq<u8>),
    Units(Seq<u16>),
}

impl PendingView {
    /// The number of elements.
    pub open spec fn len(self) -> nat {
        match self {
            PendingView::Bytes(bytes) => bytes.len(),
            PendingView::Units(units) => units.len(),
        }
    }

    /// What the elements are delivered as.
    pub open spec fn target(self) -> PlpTarget {
        match self {
            PendingView::Bytes(_) => PlpTarget::Char,
            PendingView::Units(_) => PlpTarget::WChar,
        }
    }

    /// These elements and then others of the same sort.
    pub open spec fn followed_by(self, other: PendingView) -> PendingView {
        match (self, other) {
            (PendingView::Bytes(a), PendingView::Bytes(b)) => PendingView::Bytes(a + b),
            (PendingView::Units(a), PendingView::Units(b)) => PendingView::Units(a + b),
            _ => self,
        }
    }
}

/// A stream, as a mathematical value.
#[verifier::ext_equal]
pub struct PlpView {
    pub column: u16,
    pub encoding: PlpEncoding,
    pub wire_carry: Seq<u8>,
    pub pending: PendingView,
    pub wire_done: bool,
}

/// A large value on its way to the application.
#[derive(Debug)]
pub struct PlpStream {
    column: u16,
    encoding: PlpEncoding,
    wire_carry: Vec<u8>,
    pending: Pending,
    wire_done: bool,
}

/// What one delivery did.
#[derive(Debug, Clone, Copy, PartialEq, Eq, Structural)]
pub struct PlpDelivery {
    /// The elements that are still pending.
    pub remaining_pending: usize,
    /// Whether elements are still pending.
    pub truncated: bool,
}

impl View for PlpStream {
    type V = PlpView;

    closed spec fn view(&self) -> PlpView {
        PlpView {
            column: self.column,
            encoding: self.encoding,
            wire_carry: self.wire_carry@,
            pending: match self.pending {
                Pending::Bytes(bytes) => PendingView::Bytes(bytes@),
                Pending::Units(units) => PendingView::Units(units@),
            },
            wire_done: self.wire_done,
        }
    }
}

/// No elements of a target.
pub open spec fn nothing(target: PlpTarget) -> PendingView {
    match target {
        PlpTarget::Char => PendingView::Bytes(Seq::empty()),
        PlpTarget::WChar => PendingView::Units(Seq::empty()),
    }
}

/// Bytes, each as a unit.
pub open spec fn widened(bytes: Seq<u8>) -> Seq<u16> {
    Seq::new(bytes.len(), |k: int| bytes[k] as u16)
}

/// What whole bytes of a value are delivered as.
pub open spec fn transcoded(encoding: PlpEncoding, target: PlpTarget, bytes: Seq<u8>) -> PendingView {
    match (encoding, target) {
        (PlpEncoding::Utf16Text, PlpTarget::Char) => PendingView::Bytes(
            vstd::utf8::encode_utf8(unicode::lossy_utf16(unicode::units_of(bytes))),
        ),
        (PlpEncoding::Utf16Text, PlpTarget::WChar) => PendingView::Units(unicode::units_of(bytes)),
        (_, PlpTarget::Char) => PendingView::Bytes(bytes),
        (_, PlpTarget::WChar) => PendingView::Units(widened(bytes)),
    }
}

/// How many trailing bytes wait for the next chunk: half a unit, and, where
/// pairs are put together, the first half of a pair. At the end of the value
/// nothing waits.
pub open spec fn held_back(
    encoding: PlpEncoding,
    target: PlpTarget,
    bytes: Seq<u8>,
    reached_end: bool,
) -> int {
    match (encoding, target) {
        (PlpEncoding::Utf16Text, PlpTarget::Char) => if reached_end {
            0
        } else {
            transcode::utf16_tail(bytes)
        },
        (PlpEncoding::Utf16Text, PlpTarget::WChar) => if reached_end {
            0
        } else {
            bytes.len() as int % 2
        },
        _ => 0,
    }
}

/// A stream after a chunk.
pub open spec fn absorbed(stream: PlpView, chunk: Seq<u8>, reached_end: bool) -> PlpView {
    let buf = stream.wire_carry + chunk;
    let target = stream.pending.target();
    let cut = buf.len() - held_back(stream.encoding, target, buf, reached_end);
    PlpView {
        wire_carry: buf.skip(cut),
        pending: stream.pending.followed_by(transcoded(stream.encoding, target, buf.take(cut))),
        wire_done: stream.wire_done || reached_end,
        ..stream
    }
}

/// How many elements fit into a buffer beside the terminator.
pub open spec fn deliverable(pending: int, capacity: int) -> int {
    if capacity == 0 {
        0
    } else if pending < capacity - 1 {
        pending
    } else {
        capacity - 1
    }
}

/// A buffer after a delivery: the elements that fit, the terminator, and what
/// stood behind them.
pub open spec fn filled<T>(pending: Seq<T>, dst: Seq<T>, terminator: T) -> Seq<T> {
    if dst.len() == 0 {
        dst
    } else {
        let n = deliverable(pending.len() as int, dst.len() as int);
        pending.take(n).push(terminator) + dst.skip(n + 1)
    }
}

/// What is pending after a delivery to a buffer of a capacity.
pub open spec fn left_pending<T>(pending: Seq<T>, capacity: int) -> Seq<T> {
    pending.skip(deliverable(pending.len() as int, capacity))
}

/// Whether the whole value has been transcoded and delivered.
pub open spec fn exhausted(stream: PlpView) -> bool {
    stream.wire_done && stream.wire_carry.len() == 0 && stream.pending.len() == 0
}

/// Whether another chunk must come before anything can be delivered.
pub open spec fn awaits_chunk(stream: PlpView) -> bool {
    !stream.wire_done && stream.pending.len() == 0
}

/// The bytes that pending elements take.
pub open spec fn bytes_pending(pending: PendingView) -> int {
    match pending {
        PendingView::Bytes(bytes) => bytes.len() as int,
        PendingView::Units(units) => 2 * units.len() as int,
    }
}

/// A stream after one read of the wire. A read that gave nothing ends the value,
/// and after its end nothing more is taken in.
pub open spec fn pumped(stream: PlpView, chunk: Seq<u8>, reached_end: bool) -> PlpView {
    if stream.wire_done {
        stream
    } else {
        absorbed(stream, chunk, reached_end || chunk.len() == 0)
    }
}

/// Appends elements to a queue.
fn extend_queue<T: Copy>(queue: &mut VecDeque<T>, items: &[T])
    ensures
        final(queue)@ == old(queue)@ + items@,
{
    let mut k: usize = 0;
    while k < items.len()
        invariant
            k <= items@.len(),
            queue@ == old(queue)@ + items@.take(k as int),
        decreases items.len() - k,
    {
        queue.push_back(items[k]);
        assert(queue@ =~= old(queue)@ + items@.take(k + 1));
        k = k + 1;
    }
    assert(items@.take(k as int) =~= items@);
}

/// Moves elements from the front of a queue to a buffer, as many as fit beside
/// the terminator.
fn deliver_generic<T: Copy>(
    queue: &mut VecDeque<T>,
    dst: Option<&mut [T]>,
    terminator: T,
) -> (delivery: PlpDelivery)
    ensures
        match dst {
            Some(dst) => {
                &&& final(dst)@.len() == dst@.len()
                &&& final(dst)@ == filled(old(queue)@, dst@, terminator)
                &&& final(queue)@ == left_pending(old(queue)@, dst@.len() as int)
                &&& delivery.remaining_pending == final(queue)@.len()
            },
            None => {
                &&& final(queue)@ == old(queue)@
                &&& delivery.remaining_pending == old(queue)@.len()
            },
        },
        delivery.truncated <==> delivery.remaining_pending != 0,
{
    let ghost all = queue@;
    match dst {
        None => {},
        Some(dst) => {
            let ghost before = dst@;
            assert(all.skip(0) =~= all);
            if dst.len() > 0 {
                let capacity: usize = dst.len();
                let mut k: usize = 0;
                while k < capacity - 1 && queue.len() > 0
                    invariant
                        0 < capacity == dst@.len() == before.len(),
                        k <= capacity - 1,
                        k <= all.len(),
                        queue@ == all.skip(k as int),
                        dst@ == all.take(k as int) + before.skip(k as int),
                    decreases capacity - k,
                {
                    if let Some(item) = queue.pop_front() {
                        dst[k] = item;
                        assert(queue@ =~= all.skip(k + 1));
                        assert(dst@ =~= all.take(k + 1) + before.skip(k + 1));
                    }
                    k = k + 1;
                }
                dst[k] = terminator;
                assert(dst@ =~= all.take(k as int).push(terminator) + before.skip(k + 1));
            }
        },
    }
    PlpDelivery { remaining_pending: queue.len(), truncated: queue.len() != 0 }
}

impl PlpStream {
    /// A stream of which nothing has come yet.
    pub fn new(column: u16, encoding: PlpEncoding, target: PlpTarget) -> (stream: Self)
        ensures
            stream@ == (PlpView {
                column,
                encoding,
                wire_carry: Seq::empty(),
                pending: nothing(target),
                wire_done: false,
            }),
    {
        let pending = match target {
            PlpTarget::Char => Pending::Bytes(VecDeque::new()),
            PlpTarget::WChar => Pending::Units(VecDeque::new()),
        };
        PlpStream { column, encoding, wire_carry: Vec::new(), pending, wire_done: false }
    }

    /// The column of the value, counted from 1.
    pub fn column(&self) -> (column: u16)
        ensures
            column == self@.column,
    {
        self.column
    }

    /// The number of pending elements.
    fn pending_len(&self) -> (len: usize)
        ensures
            len == self@.pending.len(),
    {
        match &self.pending {
            Pending::Bytes(bytes) => bytes.len(),
            Pending::Units(units) => units.len(),
        }
    }

    /// Whether the whole value has been transcoded and delivered.
    pub fn is_exhausted(&self) -> (exhausted: bool)
        ensures
            exhausted == self::exhausted(self@),
    {
        self.wire_done && self.wire_carry.len() == 0 && self.pending_len() == 0
    }

    /// Whether another chunk must come before anything can be delivered.
    pub fn needs_pump(&self) -> (needs: bool)
        ensures
            needs == awaits_chunk(self@),
    {
        !self.wire_done && self.pending_len() == 0
    }

    /// The number of pending bytes.
    pub fn pending_bytes(&self) -> (bytes: usize)
        requires
            2 * self@.pending.len() <= usize::MAX,
        ensures
            bytes == bytes_pending(self@.pending),
    {
        match &self.pending {
            Pending::Bytes(bytes) => bytes.len(),
            Pending::Units(units) => units.len() * 2,
        }
    }

    /// Whether the value's last chunk has come.
    pub fn wire_done(&self) -> (done: bool)
        ensures
            done == self@.wire_done,
    {
        self.wire_done
    }

    /// Takes in a chunk.
    pub fn absorb_wire(&mut self, chunk: &[u8], reached_end: bool)
        ensures
            final(self)@ == absorbed(old(self)@, chunk@, reached_end),
    {
        let mut piece: Vec<u8> = copy_bytes(chunk);
        self.wire_carry.append(&mut piece);
        let ghost buf = old(self)@.wire_carry + chunk@;
        assert(self.wire_carry@ =~= buf);
        match self.encoding {
            PlpEncoding::SingleByteText => self.absorb_single_byte(),
            PlpEncoding::Utf16Text => self.absorb_utf16(reached_end),
            PlpEncoding::Binary => self.absorb_single_byte(),
        }
        if reached_end {
            self.wire_done = true;
        }
        proof {
            let cut = buf.len() - held_back(
                old(self)@.encoding,
                old(self)@.pending.target(),
                buf,
                reached_end,
            );
            assert(buf.skip(buf.len() as int) =~= Seq::empty());
            assert(buf.take(buf.len() as int) =~= buf);
            assert(self@ =~= absorbed(old(self)@, chunk@, reached_end));
        }
    }

    /// Transcodes bytes that stand for themselves.
    fn absorb_single_byte(&mut self)
        requires
            !(old(self)@.encoding is Utf16Text),
        ensures
            final(self)@ == (PlpView {
                wire_carry: Seq::empty(),
                pending: old(self)@.pending.followed_by(
                    transcoded(
                        old(self)@.encoding,
                        old(self)@.pending.target(),
                        old(self)@.wire_carry,
                    ),
                ),
                ..old(self)@
            }),
    {
        let mut bytes: Vec<u8> = Vec::new();
        bytes.append(&mut self.wire_carry);
        assert(bytes@ =~= old(self)@.wire_carry);
        match &mut self.pending {
            Pending::Bytes(out) => extend_queue(out, bytes.as_slice()),
            Pending::Units(out) => {
                let mut units: Vec<u16> = Vec::new();
                let mut k: usize = 0;
                while k < bytes.len()
                    invariant
                        k <= bytes@.len(),
                        units@ == widened(bytes@).take(k as int),
                    decreases bytes.len() - k,
                {
                    units.push(bytes[k] as u16);
                    assert(units@ =~= widened(bytes@).take(k + 1));
                    k = k + 1;
                }
                assert(units@ =~= widened(bytes@));
                extend_queue(out, units.as_slice());
            },
        }
    }

    /// Transcodes the whole units, but for a first half of a pair that its
    /// other half may yet follow.
    fn absorb_utf16(&mut self, reached_end: bool)
        requires
            old(self)@.encoding is Utf16Text,
        ensures
            ({
                let buf = old(self)@.wire_carry;
                let target = old(self)@.pending.target();
                let cut = buf.len() - held_back(PlpEncoding::Utf16Text, target, buf, reached_end);
                final(self)@ == (PlpView {
                    wire_carry: buf.skip(cut),
                    pending: old(self)@.pending.followed_by(
                        transcoded(PlpEncoding::Utf16Text, target, buf.take(cut)),
                    ),
                    ..old(self)@
                })
            }),
    {
        let ghost buf = self.wire_carry@;
        let units: Vec<u16> = units_from_le(self.wire_carry.as_slice());
        let count: usize = units.len();
        let mut held: usize = if reached_end {
            0
        } else {
            self.wire_carry.len() % 2
        };
        match &mut self.pending {
            Pending::Units(out) => {
                proof {
                    let cut = buf.len() - held;
                    assert(unicode::units_of(buf.take(cut)) =~= unicode::units_of(buf));
                }
                extend_queue(out, units.as_slice());
            },
            Pending::Bytes(out) => {
                let split: usize = if !reached_end && count > 0 && units[count - 1] >= 0xD800
                    && units[count - 1] <= 0xDBFF {
                    count - 1
                } else {
                    count
                };
                held = held + 2 * (count - split);
                proof {
                    let cut = buf.len() - held;
                    assert(held == held_back(
                        PlpEncoding::Utf16Text,
                        PlpTarget::Char,
                        buf,
                        reached_end,
                    ));
                    assert(unicode::units_of(buf.take(cut)) =~= unicode::units_of(buf).take(
                        split as int,
                    ));
                }
                let decodable = slice_subrange(units.as_slice(), 0, split);
                assert(decodable@ =~= units@.take(split as int));
                let text: Vec<char> = decode_units(decodable);
                let bytes: Vec<u8> = encode_utf8_bytes(text.as_slice());
                extend_queue(out, bytes.as_slice());
            },
        }
        let cut: usize = self.wire_carry.len() - held;
        let rest = slice_subrange(self.wire_carry.as_slice(), cut, self.wire_carry.len());
        assert(rest@ =~= buf.skip(cut as int));
        self.wire_carry = copy_bytes(rest);
    }

    /// Delivers pending bytes to a buffer, with a terminator behind them.
    /// Without a buffer nothing is delivered and the pending bytes are counted.
    pub fn deliver_char(&mut self, dst: Option<&mut [u8]>) -> (delivery: PlpDelivery)
        requires
            old(self)@.pending.target() is Char,
        ensures
            match dst {
                Some(dst) => {
                    let pending = old(self)@.pending->Bytes_0;
                    &&& final(dst)@.len() == dst@.len()
                    &&& final(dst)@ == filled(pending, dst@, 0)
                    &&& final(self)@ == (PlpView {
                        pending: PendingView::Bytes(left_pending(pending, dst@.len() as int)),
                        ..old(self)@
                    })
                },
                None => final(self)@ == old(self)@,
            },
            delivery.remaining_pending == final(self)@.pending.len(),
            delivery.truncated <==> final(self)@.pending.len() != 0,
    {
        match &mut self.pending {
            Pending::Bytes(pending) => deliver_generic(pending, dst, 0),
            Pending::Units(_) => PlpDelivery { remaining_pending: 0, truncated: false },
        }
    }

    /// Delivers pending units to a buffer, with a terminator behind them.
    /// Without a buffer nothing is delivered and the pending units are counted.
    pub fn deliver_wchar(&mut self, dst: Option<&mut [u16]>) -> (delivery: PlpDelivery)
        requires
            old(self)@.pending.target() is WChar,
        ensures
            match dst {
                Some(dst) => {
                    let pending = old(self)@.pending->Units_0;
                    &&& final(dst)@.len() == dst@.len()
                    &&& final(dst)@ == filled(pending, dst@, 0)
                    &&& final(self)@ == (PlpView {
                        pending: PendingView::Units(left_pending(pending, dst@.len() as int)),
                        ..old(self)@
                    })
                },
                None => final(self)@ == old(self)@,
            },
            delivery.remaining_pending == final(self)@.pending.len(),
            delivery.truncated <==> final(self)@.pending.len() != 0,
    {
        match &mut self.pending {
            Pending::Units(pending) => deliver_generic(pending, dst, 0),
            Pending::Bytes(_) => PlpDelivery { remaining_pending: 0, truncated: false },
        }
    }
}

/// Takes in what one read of the wire gave. A read that gave nothing ends the
/// value, and after its end nothing more is taken in.
pub fn pump_wire(stream: &mut PlpStream, chunk: &[u8], reached_end: bool)
    ensures
        final(stream)@ == pumped(old(stream)@, chunk@, reached_end),
{
    if stream.wire_done() {
        return;
    }
    stream.absorb_wire(chunk, reached_end || chunk.len() == 0);
}

/// A stream after chunks of which the last one ends the value.
pub open spec fn fed(stream: PlpView, chunks: Seq<Seq<u8>>) -> PlpView
    decreases chunks.len(),
{
    if chunks.len() == 0 {
        stream
    } else if chunks.len() == 1 {
        absorbed(stream, chunks[0], true)
    } else {
        fed(absorbed(stream, chunks[0], false), chunks.drop_first())
    }
}

/// What is held back is transcoded with what follows: no element is lost, and
/// none is added.
proof fn lemma_held_back(encoding: PlpEncoding, target: PlpTarget, buf: Seq<u8>, rest: Seq<u8>)
    ensures
        ({
            let cut = buf.len() - held_back(encoding, target, buf, false);
            transcoded(encoding, target, buf.take(cut)).followed_by(
                transcoded(encoding, target, buf.skip(cut) + rest),
            ) == transcoded(encoding, target, buf + rest)
        }),
{
    let cut = buf.len() - held_back(encoding, target, buf, false);
    let head = buf.take(cut);
    let tail = buf.skip(cut) + rest;
    assert(head + tail =~= buf + rest);
    match (encoding, target) {
        (PlpEncoding::Utf16Text, PlpTarget::Char) => {
            transcode::carry_keeps_the_text(DaeSource::Utf16, buf, rest);
            unicode::lemma_encode_utf8_adds(
                unicode::lossy_utf16(unicode::units_of(head)),
                unicode::lossy_utf16(unicode::units_of(tail)),
            );
        },
        (PlpEncoding::Utf16Text, PlpTarget::WChar) => {
            let whole = buf + rest;
            assert(cut % 2 == 0);
            assert forall|k: int| 0 <= k < unicode::units_of(whole).len() implies unicode::units_of(
                whole,
            )[k] == (unicode::units_of(head) + unicode::units_of(tail))[k] by {
                if 2 * k >= cut {
                    assert(whole[2 * k] == tail[2 * k - cut]);
                    assert(whole[2 * k + 1] == tail[2 * k + 1 - cut]);
                    assert(2 * (k - cut / 2) == 2 * k - cut);
                }
            }
            assert(unicode::units_of(head) + unicode::units_of(tail) =~= unicode::units_of(whole));
        },
        (_, PlpTarget::Char) => {},
        (_, PlpTarget::WChar) => {
            assert(widened(head) + widened(tail) =~= widened(buf + rest));
        },
    }
}

/// However a value is cut into chunks, it is delivered as the whole would be,
/// and at its end nothing is left behind.
pub proof fn chunks_transcode_as_the_whole(stream: PlpView, chunks: Seq<Seq<u8>>)
    requires
        chunks.len() > 0,
    ensures
        fed(stream, chunks).pending == stream.pending.followed_by(
            transcoded(
                stream.encoding,
                stream.pending.target(),
                stream.wire_carry + chunks.flatten(),
            ),
        ),
        fed(stream, chunks).wire_carry.len() == 0,
        fed(stream, chunks).wire_done,
    decreases chunks.len(),
{
    let buf = stream.wire_carry + chunks[0];
    let rest = chunks.drop_first().flatten();
    assert(stream.wire_carry + chunks.flatten() =~= buf + rest);
    if chunks.len() == 1 {
        assert(chunks.drop_first().len() == 0);
        assert(buf + rest =~= buf);
        assert(buf.take(buf.len() as int) =~= buf);
    } else {
        let next = absorbed(stream, chunks[0], false);
        let target = stream.pending.target();
        let cut = buf.len() - held_back(stream.encoding, target, buf, false);
        let first = transcoded(stream.encoding, target, buf.take(cut));
        let second = transcoded(stream.encoding, target, buf.skip(cut) + rest);
        chunks_transcode_as_the_whole(next, chunks.drop_first());
        lemma_held_back(stream.encoding, target, buf, rest);
        assert(next.pending.target() == target);
        assert(stream.pending.followed_by(first).followed_by(second) =~= stream.pending.followed_by(
            first.followed_by(second),
        ));
    }
}

/// The pieces that buffers of these capacities receive.
pub open spec fn pieces<T>(pending: Seq<T>, capacities: Seq<nat>) -> Seq<Seq<T>>
    decreases capacities.len(),
{
    if capacities.len() == 0 {
        Seq::empty()
    } else {
        let n = deliverable(pending.len() as int, capacities[0] as int);
        seq![pending.take(n)] + pieces(pending.skip(n), capacities.drop_first())
    }
}

/// What the buffers receive, one after the other, is the beginning of what was
/// pending; it is all of it where the buffers have room for it.
pub proof fn pieces_add_up<T>(pending: Seq<T>, capacities: Seq<nat>)
    ensures
        pieces(pending, capacities).flatten().len() <= pending.len(),
        pieces(pending, capacities).flatten() == pending.take(
            pieces(pending, capacities).flatten().len() as int,
        ),
        (forall|k: int| 0 <= k < capacities.len() ==> #[trigger] capacities[k] >= 2)
            && capacities.len() >= pending.len() ==> pieces(pending, capacities).flatten()
            == pending,
    decreases capacities.len(),
{
    if capacities.len() > 0 {
        let n = deliverable(pending.len() as int, capacities[0] as int);
        let rest = pieces(pending.skip(n), capacities.drop_first());
        let all = seq![pending.take(n)] + rest;
        pieces_add_up(pending.skip(n), capacities.drop_first());
        assert(all.drop_first() =~= rest);
        assert(all.flatten() == pending.take(n) + rest.flatten());
        assert(pending.take(n) + rest.flatten() =~= pending.take(all.flatten().len() as int));
        if (forall|k: int| 0 <= k < capacities.len() ==> #[trigger] capacities[k] >= 2)
            && capacities.len() >= pending.len() {
            assert forall|k: int| 0 <= k < capacities.drop_first().len() implies
                #[trigger] capacities.drop_first()[k] >= 2 by {
                assert(capacities.drop_first()[k] == capacities[k + 1]);
            }
            assert(pending.take(n) + pending.skip(n) =~= pending);
        }
    } else {
        assert(pieces(pending, capacities).flatten() =~= Seq::<T>::empty());
        assert(pending.take(0) =~= Seq::<T>::empty());
        if pending.len() == 0 {
            assert(pending =~= Seq::<T>::empty());
        }
    }
}

/// A text is delivered as that text: what came in UTF-16 leaves as the same units,
/// or as the same characters in UTF-8; what came as single bytes leaves byte by
/// byte, in as many bytes or units.
pub proof fn a_text_is_transcoded_to_itself(
    units: Seq<u16>,
    text: Seq<char>,
    bytes: Seq<u8>,
    encoding: PlpEncoding,
    k: int,
)
    requires
        !(encoding is Utf16Text),
    ensures
        transcoded(PlpEncoding::Utf16Text, PlpTarget::WChar, unicode::le_bytes(units))
            == PendingView::Units(units),
        transcoded(
            PlpEncoding::Utf16Text,
            PlpTarget::Char,
            unicode::le_bytes(unicode::utf16_of(text)),
        ) == PendingView::Bytes(vstd::utf8::encode_utf8(text)),
        transcoded(encoding, PlpTarget::Char, bytes) == PendingView::Bytes(bytes),
        ({
            let wide = transcoded(encoding, PlpTarget::WChar, bytes);
            &&& wide is Units
            &&& wide->Units_0.len() == bytes.len()
            &&& 0 <= k < bytes.len() ==> wide->Units_0[k] == bytes[k]
        }),
{
    unicode::le_bytes_round_trip(units);
    unicode::le_bytes_round_trip(unicode::utf16_of(text));
    unicode::utf16_round_trips(text);
}

/// A value of UTF-16 that comes in chunks, cut anywhere, is pending at its end as
/// the text it is, and nothing is left over.
pub proof fn a_text_in_chunks_is_pending_as_itself(
    column: u16,
    text: Seq<char>,
    chunks: Seq<Seq<u8>>,
    target: PlpTarget,
)
    requires
        chunks.len() > 0,
        chunks.flatten() == unicode::le_bytes(unicode::utf16_of(text)),
    ensures
        ({
            let stream = PlpView {
                column,
                encoding: PlpEncoding::Utf16Text,
                wire_carry: Seq::empty(),
                pending: nothing(target),
                wire_done: false,
            };
            let done = fed(stream, chunks);
            &&& done.pending == (match target {
                PlpTarget::Char => PendingView::Bytes(vstd::utf8::encode_utf8(text)),
                PlpTarget::WChar => PendingView::Units(unicode::utf16_of(text)),
            })
            &&& done.column == column
            &&& done.wire_done
            &&& done.wire_carry.len() == 0
        }),
{
    let stream = PlpView {
        column,
        encoding: PlpEncoding::Utf16Text,
        wire_carry: Seq::empty(),
        pending: nothing(target),
        wire_done: false,
    };
    chunks_transcode_as_the_whole(stream, chunks);
    lemma_fed_keeps_column(stream, chunks);
    a_text_is_transcoded_to_itself(
        unicode::utf16_of(text),
        text,
        Seq::empty(),
        PlpEncoding::Binary,
        0,
    );
    assert(Seq::<u8>::empty() + chunks.flatten() =~= chunks.flatten());
    let bytes = vstd::utf8::encode_utf8(text);
    let units = unicode::utf16_of(text);
    assert(Seq::<u8>::empty() + bytes =~= bytes);
    assert(Seq::<u16>::empty() + units =~= units);
}

/// Chunks do not change the column of a stream.
proof fn lemma_fed_keeps_column(stream: PlpView, chunks: Seq<Seq<u8>>)
    ensures
        fed(stream, chunks).column == stream.column,
    decreases chunks.len(),
{
    if chunks.len() > 1 {
        lemma_fed_keeps_column(absorbed(stream, chunks[0], false), chunks.drop_first());
    }
}

/// Before its end a value loses and gains nothing either: what is pending and
/// what is carried are together what came.
pub proof fn nothing_is_lost_between_chunks(stream: PlpView, chunk: Seq<u8>, rest: Seq<u8>)
    ensures
        ({
            let next = absorbed(stream, chunk, false);
            let target = stream.pending.target();
            &&& stream.pending.followed_by(
                transcoded(stream.encoding, target, stream.wire_carry + chunk + rest),
            ) == next.pending.followed_by(
                transcoded(stream.encoding, target, next.wire_carry + rest),
            )
            &&& next.wire_carry.len() <= 3
            &&& next.wire_done == stream.wire_done
            &&& next.column == stream.column
            &&& next.encoding == stream.encoding
            &&& next.pending.target() == target
        }),
{
    let buf = stream.wire_carry + chunk;
    let target = stream.pending.target();
    let cut = buf.len() - held_back(stream.encoding, target, buf, false);
    let first = transcoded(stream.encoding, target, buf.take(cut));
    let second = transcoded(stream.encoding, target, buf.skip(cut) + rest);
    lemma_held_back(stream.encoding, target, buf, rest);
    assert(stream.pending.followed_by(first).followed_by(second) =~= stream.pending.followed_by(
        first.followed_by(second),
    ));
}

/// A read that gives nothing ends a value, and so does one that says so; after
/// the end no read changes anything.
pub proof fn a_value_ends_once(stream: PlpView, chunk: Seq<u8>, reached_end: bool)
    ensures
        pumped(stream, chunk, reached_end).wire_done <==> stream.wire_done || reached_end
            || chunk.len() == 0,
        stream.wire_done ==> pumped(stream, chunk, reached_end) == stream,
        !stream.wire_done && (reached_end || chunk.len() == 0) ==> pumped(
            stream,
            chunk,
            reached_end,
        ) == fed(stream, seq![chunk]) && pumped(stream, chunk, reached_end).wire_carry.len() == 0,
        !stream.wire_done && !reached_end && chunk.len() > 0 ==> pumped(stream, chunk, reached_end)
            == absorbed(stream, chunk, false),
{
    let chunks = seq![chunk];
    assert(chunks[0] == chunk);
    chunks_transcode_as_the_whole(stream, chunks);
}

/// A delivery fills the buffer up to its terminator: all that is pending where
/// there is room for it, else as many elements as leave room for the terminator.
/// What was delivered is pending no more, what was not still is, and the buffer
/// behind the terminator is not touched.
pub proof fn a_delivery_fills_the_buffer<T>(pending: Seq<T>, dst: Seq<T>, terminator: T, k: int)
    requires
        dst.len() > 0,
    ensures
        ({
            let after = filled(pending, dst, terminator);
            let left = left_pending(pending, dst.len() as int);
            let n = pending.len() - left.len();
            &&& after.len() == dst.len()
            &&& 0 <= n < dst.len()
            &&& after.take(n) + left == pending
            &&& after[n] == terminator
            &&& n < k < dst.len() ==> after[k] == dst[k]
            &&& pending.len() < dst.len() ==> left.len() == 0
            &&& pending.len() >= dst.len() ==> n == dst.len() - 1
        }),
        left_pending(pending, 0) == pending,
{
    let n = deliverable(pending.len() as int, dst.len() as int);
    let after = filled(pending, dst, terminator);
    assert(after.take(n) =~= pending.take(n));
    assert(pending.take(n) + pending.skip(n) =~= pending);
    assert(pending.skip(0) =~= pending);
}

/// A stream is exhausted once its value has ended and all of it was delivered,
/// and it needs a chunk only before both.
pub proof fn a_stream_needs_a_chunk_or_delivers_or_is_exhausted(stream: PlpView)
    ensures
        exhausted(stream) ==> !awaits_chunk(stream),
        stream.pending.len() > 0 ==> !exhausted(stream) && !awaits_chunk(stream),
        stream.pending.len() == 0 && !stream.wire_done ==> awaits_chunk(stream),
        stream.pending.len() == 0 && stream.wire_done && stream.wire_carry.len() == 0 ==> exhausted(
            stream,
        ),
        stream.pending matches PendingView::Bytes(bytes) ==> bytes_pending(stream.pending)
            == bytes.len(),
        stream.pending matches PendingView::Units(units) ==> bytes_pending(stream.pending)
            == unicode::le_bytes(units).len(),
{
}

} // verus!
