//! The non-blocking line codec.
//!
//! A [`LineCodec`] turns a byte-oriented non-blocking transport into a
//! source and sink of newline-terminated records.  Reading splits the
//! stream at each `\n` (byte 10), decodes the prefix as UTF-8, and
//! reports end of input either on an EOT byte (4) or once the drained
//! transport is closed.  Writing frames a record by appending a single
//! `\n` and retries partial writes until the whole line is on the wire.

use vstd::prelude::*;
use vstd::slice::{slice_subrange, slice_to_vec};
use vstd::utf8::{
    char_is_scalar, char_u32_cast, decode_utf8, encode_scalar, encode_utf8, encode_utf8_decode_utf8,
    encode_utf8_valid_utf8, has_width_1_encoding, last_continuation_byte, leading_byte_width_2,
    leading_byte_width_3, leading_byte_width_4, second_last_continuation_byte,
    third_last_continuation_byte, valid_utf8,
};

use crate::transport::{ReadChunk, Transport, WriteChunk};

verus! {

/// The newline delimiter that frames every record.
pub const NL: u8 = 10;

/// The EOT byte: a record source that shows it with no earlier
/// newline is at its end.
pub const EOT: u8 = 4;

/// Position of the first occurrence of `b` in `s`, or `s.len()` when
/// `b` does not occur.
pub open spec fn find_byte(s: Seq<u8>, b: u8) -> int
    decreases s.len(),
{
    if s.len() == 0 {
        0
    } else if s[0] == b {
        0
    } else {
        1 + find_byte(s.drop_first(), b)
    }
}

/// `find_byte` points at the first occurrence: it stays in bounds,
/// lands on `b` exactly when `b` occurs, and nothing before it is `b`.
pub proof fn lemma_find_byte(s: Seq<u8>, b: u8)
    ensures
        0 <= find_byte(s, b) <= s.len(),
        find_byte(s, b) < s.len() <==> s.contains(b),
        find_byte(s, b) < s.len() ==> s[find_byte(s, b)] == b,
        forall|j: int| 0 <= j < find_byte(s, b) ==> s[j] != b,
    decreases s.len(),
{
    if s.len() == 0 {
        assert(!s.contains(b));
    } else if s[0] == b {
        assert(s.contains(b));
    } else {
        let t = s.drop_first();
        lemma_find_byte(t, b);
        assert forall|j: int| 0 <= j < find_byte(s, b) implies s[j] != b by {
            if j > 0 {
                assert(s[j] == t[j - 1]);
            }
        }
        if t.contains(b) {
            let k = choose|k: int| 0 <= k < t.len() && t[k] == b;
            assert(s[k + 1] == b);
            assert(s.contains(b));
        }
        if s.contains(b) {
            let k = choose|k: int| 0 <= k < s.len() && s[k] == b;
            assert(k > 0 && t[k - 1] == b);
            assert(t.contains(b));
        }
    }
}

/// How `find_byte` looks through a concatenation: a hit in the prefix
/// wins, otherwise the search continues in the suffix.
pub proof fn lemma_find_byte_concat(a: Seq<u8>, c: Seq<u8>, b: u8)
    ensures
        a.contains(b) ==> find_byte(a + c, b) == find_byte(a, b),
        !a.contains(b) ==> find_byte(a + c, b) == a.len() + find_byte(c, b),
    decreases a.len(),
{
    lemma_find_byte(a, b);
    if a.len() == 0 {
        assert(a + c =~= c);
    } else if a[0] == b {
        assert((a + c)[0] == b);
    } else {
        assert((a + c)[0] == a[0]);
        assert((a + c).drop_first() =~= a.drop_first() + c);
        lemma_find_byte_concat(a.drop_first(), c, b);
        if a.contains(b) {
            let k = choose|k: int| 0 <= k < a.len() && a[k] == b;
            assert(a.drop_first()[k - 1] == b);
            assert(a.drop_first().contains(b));
        } else {
            if a.drop_first().contains(b) {
                let k = choose|k: int| 0 <= k < a.drop_first().len() && a.drop_first()[k] == b;
                assert(a[k + 1] == b);
            }
        }
    }
}

/// A record followed by its newline frame.
pub open spec fn frame(l: Seq<u8>) -> Seq<u8> {
    l + seq![NL]
}

/// A sequence of records, each followed by its newline frame.
pub open spec fn frame_all(ls: Seq<Seq<u8>>) -> Seq<u8>
    decreases ls.len(),
{
    if ls.len() == 0 {
        Seq::empty()
    } else {
        frame(ls[0]) + frame_all(ls.drop_first())
    }
}

/// Framing distributes over appending a record at the end.
pub proof fn lemma_frame_all_push(ls: Seq<Seq<u8>>, l: Seq<u8>)
    ensures
        frame_all(ls.push(l)) == frame_all(ls) + frame(l),
    decreases ls.len(),
{
    if ls.len() == 0 {
        assert(ls.push(l).drop_first() =~= ls);
        assert(frame_all(ls.push(l)) =~= frame_all(ls) + frame(l));
    } else {
        assert(ls.push(l).drop_first() =~= ls.drop_first().push(l));
        lemma_frame_all_push(ls.drop_first(), l);
        assert(frame_all(ls.push(l)) =~= frame_all(ls) + frame(l));
    }
}

/// The complete records held by a byte stream: everything before each
/// newline, in order.  Trailing bytes after the last newline are not a
/// record yet.
pub open spec fn split_frames(s: Seq<u8>) -> Seq<Seq<u8>>
    decreases s.len(),
    via split_frames_decreases
{
    if !s.contains(NL) {
        Seq::empty()
    } else {
        seq![s.take(find_byte(s, NL))] + split_frames(s.skip(find_byte(s, NL) + 1))
    }
}

#[via_fn]
proof fn split_frames_decreases(s: Seq<u8>) {
    lemma_find_byte(s, NL);
}

/// The incomplete trailing record of a byte stream: what follows the
/// last newline.
pub open spec fn tail_bytes(s: Seq<u8>) -> Seq<u8>
    decreases s.len(),
    via tail_bytes_decreases
{
    if !s.contains(NL) {
        s
    } else {
        tail_bytes(s.skip(find_byte(s, NL) + 1))
    }
}

#[via_fn]
proof fn tail_bytes_decreases(s: Seq<u8>) {
    lemma_find_byte(s, NL);
}

/// Splitting one framed record off the front of a stream: the frame
/// delivers exactly its record, and the rest of the stream is left
/// untouched.
pub proof fn lemma_split_first_frame(l: Seq<u8>, rest: Seq<u8>)
    requires
        !l.contains(NL),
    ensures
        split_frames(frame(l) + rest) == seq![l] + split_frames(rest),
        tail_bytes(frame(l) + rest) == tail_bytes(rest),
{
    let s = frame(l) + rest;
    lemma_find_byte(l, NL);
    assert(frame(l)[l.len() as int] == NL);
    assert(frame(l).contains(NL));
    lemma_find_byte_concat(frame(l), rest, NL);
    assert(find_byte(frame(l), NL) == l.len()) by {
        lemma_find_byte_concat(l, seq![NL], NL);
        lemma_find_byte(seq![NL], NL);
        assert(l + seq![NL] =~= frame(l));
        assert(find_byte(seq![NL], NL) == 0);
    }
    assert(s.contains(NL)) by {
        assert(s[l.len() as int] == NL);
    }
    assert(find_byte(s, NL) == l.len());
    assert(s.take(l.len() as int) =~= l);
    assert(s.skip(l.len() as int + 1) =~= rest);
}

/// What a read consumes is what the splitting lists first: the
/// record before the first newline heads the stream's records, and
/// the rest of the stream carries exactly the records after it.
pub proof fn lemma_first_record(s: Seq<u8>)
    requires
        s.contains(NL),
    ensures
        split_frames(s).len() > 0,
        split_frames(s)[0] == s.take(find_byte(s, NL)),
        split_frames(s).drop_first() == split_frames(s.skip(find_byte(s, NL) + 1)),
{
    assert(split_frames(s).drop_first() =~= split_frames(s.skip(find_byte(s, NL) + 1)));
}

/// A stream whose prefix holds a newline splits exactly where the
/// prefix does, and what follows the first record is the rest of the
/// prefix followed by the unchanged suffix.
pub proof fn lemma_stream_prefix(a: Seq<u8>, c: Seq<u8>)
    requires
        a.contains(NL),
    ensures
        find_byte(a + c, NL) == find_byte(a, NL),
        (a + c).take(find_byte(a, NL)) == a.take(find_byte(a, NL)),
        (a + c).skip(find_byte(a, NL) + 1) == a.skip(find_byte(a, NL) + 1) + c,
        (a + c).contains(NL),
{
    lemma_find_byte(a, NL);
    lemma_find_byte_concat(a, c, NL);
    let f = find_byte(a, NL);
    assert((a + c).take(f) =~= a.take(f));
    assert((a + c).skip(f + 1) =~= a.skip(f + 1) + c);
    assert((a + c)[f] == NL);
}

/// Round trip of the framing: a stream assembled from newline-free
/// records yields exactly those records, in order, with nothing left
/// over.
pub proof fn lemma_frames_round_trip(ls: Seq<Seq<u8>>)
    requires
        forall|i: int| 0 <= i < ls.len() ==> !(#[trigger] ls[i]).contains(NL),
    ensures
        split_frames(frame_all(ls)) == ls,
        tail_bytes(frame_all(ls)) == Seq::<u8>::empty(),
    decreases ls.len(),
{
    if ls.len() == 0 {
        assert(!frame_all(ls).contains(NL));
        assert(split_frames(frame_all(ls)) =~= ls);
    } else {
        lemma_split_first_frame(ls[0], frame_all(ls.drop_first()));
        lemma_frames_round_trip(ls.drop_first());
        assert(seq![ls[0]] + ls.drop_first() =~= ls);
    }
}

/// The newline byte never hides inside the encoding of another
/// character: only `'\n'` itself encodes to a sequence holding
/// byte 10.
pub proof fn lemma_scalar_newline(c: char)
    requires
        c != '\n',
    ensures
        !encode_scalar(c as u32).contains(NL),
{
    char_is_scalar(c);
    char_u32_cast(c, c as u32);
    let s = c as u32;
    assert('\n' as u32 == 10);
    assert(s != 10);
    let e = encode_scalar(s);
    if has_width_1_encoding(s) {
        assert(s <= 0x7F && s != 10 ==> (s & 0x7F) as u8 != 10) by (bit_vector);
        assert(forall|k: int| 0 <= k < e.len() ==> e[k] != NL);
    } else {
        assert(forall|x: u32| (0xC0u8 | ((x >> 6) & 0x1F) as u8) != 10) by (bit_vector);
        assert(forall|x: u32| (0xE0u8 | ((x >> 12) & 0x0F) as u8) != 10) by (bit_vector);
        assert(forall|x: u32| (0xF0u8 | ((x >> 18) & 0x7) as u8) != 10) by (bit_vector);
        assert(forall|x: u32| (0x80u8 | (x & 0x3F) as u8) != 10) by (bit_vector);
        assert(forall|x: u32| (0x80u8 | ((x >> 6) & 0x3F) as u8) != 10) by (bit_vector);
        assert(forall|x: u32| (0x80u8 | ((x >> 12) & 0x3F) as u8) != 10) by (bit_vector);
        assert(leading_byte_width_2(s) != NL);
        assert(leading_byte_width_3(s) != NL);
        assert(leading_byte_width_4(s) != NL);
        assert(last_continuation_byte(s) != NL);
        assert(second_last_continuation_byte(s) != NL);
        assert(third_last_continuation_byte(s) != NL);
        assert(forall|k: int| 0 <= k < e.len() ==> e[k] != NL);
    }
    if e.contains(NL) {
        let k = choose|k: int| 0 <= k < e.len() && e[k] == NL;
    }
}

/// Encoding newline-free characters yields newline-free bytes, so the
/// framing newline a codec appends is the only newline on the wire.
pub proof fn lemma_encode_no_newline(cs: Seq<char>)
    requires
        !cs.contains('\n'),
    ensures
        !encode_utf8(cs).contains(NL),
    decreases cs.len(),
{
    if cs.len() > 0 {
        assert(cs[0] != '\n') by {
            if cs[0] == '\n' {
                assert(cs.contains('\n'));
            }
        }
        lemma_scalar_newline(cs[0]);
        assert(!cs.drop_first().contains('\n')) by {
            if cs.drop_first().contains('\n') {
                let k = choose|k: int|
                    0 <= k < cs.drop_first().len() && cs.drop_first()[k] == '\n';
                assert(cs[k + 1] == '\n');
                assert(cs.contains('\n'));
            }
        }
        lemma_encode_no_newline(cs.drop_first());
        let a = encode_scalar(cs[0] as u32);
        let b = encode_utf8(cs.drop_first());
        if (a + b).contains(NL) {
            let k = choose|k: int| 0 <= k < (a + b).len() && (a + b)[k] == NL;
            if k < a.len() {
                assert(a[k] == NL);
                assert(a.contains(NL));
            } else {
                assert(b[k - a.len()] == NL);
                assert(b.contains(NL));
            }
        }
    }
}

/// A stream holding a sequence of records, each encoded as UTF-8 and
/// framed by its newline.
pub open spec fn encode_lines(ls: Seq<Seq<char>>) -> Seq<u8> {
    frame_all(ls.map(|i: int, l: Seq<char>| encode_utf8(l)))
}

/// The codec round trip: a stream written as the lines `L1 ... Ln`
/// reads back as exactly those lines, in order, with nothing left
/// over, provided no line holds a newline of its own.
pub proof fn lemma_lines_round_trip(ls: Seq<Seq<char>>)
    requires
        forall|i: int| 0 <= i < ls.len() ==> !(#[trigger] ls[i]).contains('\n'),
    ensures
        split_frames(encode_lines(ls)).len() == ls.len(),
        forall|i: int|
            0 <= i < ls.len() ==> valid_utf8(#[trigger] split_frames(encode_lines(ls))[i])
                && decode_utf8(split_frames(encode_lines(ls))[i]) == ls[i],
        tail_bytes(encode_lines(ls)) == Seq::<u8>::empty(),
{
    let bs = ls.map(|i: int, l: Seq<char>| encode_utf8(l));
    assert forall|i: int| 0 <= i < bs.len() implies !(#[trigger] bs[i]).contains(NL) by {
        lemma_encode_no_newline(ls[i]);
    }
    lemma_frames_round_trip(bs);
    assert forall|i: int|
        0 <= i < ls.len() implies valid_utf8(#[trigger] split_frames(encode_lines(ls))[i])
        && decode_utf8(split_frames(encode_lines(ls))[i]) == ls[i] by {
        encode_utf8_valid_utf8(ls[i]);
        encode_utf8_decode_utf8(ls[i]);
    }
}

/// Outcome of one codec read.
#[derive(Debug, PartialEq, Eq)]
pub enum LineRead {
    /// A complete record, decoded from UTF-8, without its newline.
    Line(String),
    /// No complete record is available yet; the caller should yield.
    WouldBlock,
    /// The source is at its end: an EOT byte arrived, or the transport
    /// is drained and closed.
    Eof,
    /// The next record is not valid UTF-8; it has been consumed.
    Encoding,
}

/// Outcome of one codec write.
#[derive(Debug, PartialEq, Eq)]
pub enum LineWrite {
    /// The whole framed record is on the wire.
    Done,
    /// Not a single byte could be written; nothing was sent.
    WouldBlock,
    /// The peer is gone; at most a proper prefix of the frame was
    /// sent.
    Eof,
    /// The transport accepted part of the frame and then made no
    /// progress for a long stretch; a proper prefix was sent.
    Stalled,
}

/// How many fruitless write attempts the codec tolerates in the
/// middle of a record before it gives up on the transport.
pub const WRITE_RETRY_LIMIT: u64 = 0xffff;

/// Relies on `String::from_utf8`: it succeeds exactly on UTF-8 input
/// and yields the string whose characters decode those bytes.
#[verifier::external_body]
fn utf8_to_string(bytes: Vec<u8>) -> (r: Option<String>)
    ensures
        r is Some <==> valid_utf8(bytes@),
        r matches Some(s) ==> s@ == decode_utf8(bytes@),
{
    String::from_utf8(bytes).ok()
}

/// First index of `b` in `v`, if any; nothing before it is `b`.
fn scan_byte(v: &Vec<u8>, b: u8) -> (r: Option<usize>)
    ensures
        match r {
            Some(i) => i < v@.len() && v@[i as int] == b && forall|j: int| 0 <= j < i ==> v@[j] != b,
            None => !v@.contains(b),
        },
{
    let mut i: usize = 0;
    while i < v.len()
        invariant
            i <= v@.len(),
            forall|j: int| 0 <= j < i ==> v@[j] != b,
        decreases v@.len() - i,
    {
        if v[i] == b {
            return Some(i);
        }
        i = i + 1;
    }
    proof {
        if v@.contains(b) {
            let k = choose|k: int| 0 <= k < v@.len() && v@[k] == b;
            assert(v@[k] != b);
        }
    }
    None
}

/// The line buffer of a codec: a prefix of unconsumed stream bytes.
/// Its view is exactly those bytes, oldest first; every complete line
/// is split off eagerly, so the buffer holds at most one incomplete
/// trailing record between reads.
pub struct LineCodec {
    buf: Vec<u8>,
}

impl View for LineCodec {
    type V = Seq<u8>;

    closed spec fn view(&self) -> Seq<u8> {
        self.buf@
    }
}

impl LineCodec {
    /// A codec with an empty buffer.
    pub fn new() -> (c: LineCodec)
        ensures
            c@ == Seq::<u8>::empty(),
    {
        let c = LineCodec { buf: Vec::new() };
        proof {
            assert(c@ =~= Seq::<u8>::empty());
        }
        c
    }

    /// Split the first complete record off the buffer, if one is
    /// framed already.
    fn take_frame(&mut self) -> (r: Option<Vec<u8>>)
        ensures
            match r {
                Some(l) => {
                    &&& old(self)@.contains(NL)
                    &&& l@ == old(self)@.take(find_byte(old(self)@, NL))
                    &&& final(self)@ == old(self)@.skip(find_byte(old(self)@, NL) + 1)
                },
                None => !old(self)@.contains(NL) && final(self)@ == old(self)@,
            },
    {
        match scan_byte(&self.buf, NL) {
            Some(i) => {
                proof {
                    assert(self.buf@.contains(NL)) by {
                        assert(self.buf@[i as int] == NL);
                    }
                    lemma_find_byte(self.buf@, NL);
                    let f = find_byte(self.buf@, NL);
                    if f < i as int {
                        assert(self.buf@[f] != NL);
                    }
                    if (i as int) < f {
                        assert(self.buf@[i as int] != NL);
                    }
                    assert(f == i as int);
                }
                let line = slice_to_vec(slice_subrange(self.buf.as_slice(), 0, i));
                let blen = self.buf.len();
                assert(i < blen);
                let rest = self.buf.split_off(i + 1);
                self.buf = rest;
                proof {
                    assert(self.buf@ =~= old(self)@.skip(find_byte(old(self)@, NL) + 1));
                }
                Some(line)
            },
            None => None,
        }
    }

    /// Read one record from the buffered bytes and the transport.
    ///
    /// The contract speaks of the logical stream: the buffered bytes
    /// followed by whatever the transport still holds.  A `Line` or
    /// `Encoding` answer consumes the stream through its first
    /// newline — the head of [`split_frames`], by
    /// [`lemma_first_record`] — and every other answer leaves the
    /// stream as it was.  A codec read on an empty open transport
    /// answers `WouldBlock`; it never suspends.
    pub fn read_line<T: Transport>(&mut self, t: &mut T) -> (r: LineRead)
        ensures
            final(t).outgoing() == old(t).outgoing(),
            final(t).live() == old(t).live(),
            final(t).writable() == old(t).writable(),
            ({
                let s0 = old(self)@ + old(t).incoming();
                let s1 = final(self)@ + final(t).incoming();
                match r {
                    LineRead::Line(text) => {
                        &&& s0.contains(NL)
                        &&& valid_utf8(s0.take(find_byte(s0, NL)))
                        &&& text@ == decode_utf8(s0.take(find_byte(s0, NL)))
                        &&& s1 == s0.skip(find_byte(s0, NL) + 1)
                    },
                    LineRead::Encoding => {
                        &&& s0.contains(NL)
                        &&& !valid_utf8(s0.take(find_byte(s0, NL)))
                        &&& s1 == s0.skip(find_byte(s0, NL) + 1)
                    },
                    LineRead::Eof => {
                        &&& !old(self)@.contains(NL)
                        &&& final(self)@ == old(self)@
                        &&& final(t).incoming() == old(t).incoming()
                        &&& (old(self)@.contains(EOT) || (old(t).incoming().len() == 0
                            && !old(t).live()))
                    },
                    LineRead::WouldBlock => {
                        &&& s1 == s0
                        &&& !final(self)@.contains(NL)
                    },
                }
            }),
            old(self)@.contains(NL) ==> r is Line || r is Encoding,
            !old(self)@.contains(NL) && old(self)@.contains(EOT) ==> r is Eof,
            !old(self)@.contains(NL) && !old(self)@.contains(EOT) && old(t).incoming().len() == 0
                && old(t).live() ==> r is WouldBlock,
            !old(self)@.contains(NL) && !old(self)@.contains(EOT) && old(t).incoming().len() == 0
                && !old(t).live() ==> r is Eof,
    {
        let ghost buf0 = self@;
        let ghost inc0 = t.incoming();
        if let Some(line) = self.take_frame() {
            proof {
                lemma_stream_prefix(buf0, inc0);
            }
            return match utf8_to_string(line) {
                Some(text) => LineRead::Line(text),
                None => LineRead::Encoding,
            };
        }
        if scan_byte(&self.buf, EOT).is_some() {
            proof {
                let i = choose|i: int| 0 <= i < buf0.len() && buf0[i] == EOT;
                assert(buf0.contains(EOT));
            }
            return LineRead::Eof;
        }
        match t.try_read() {
            ReadChunk::Data(d) => {
                let n: Ghost<int> = Ghost(d@.len() as int);
                let mut d = d;
                self.buf.append(&mut d);
                proof {
                    assert(buf0 + inc0 =~= self.buf@ + t.incoming());
                }
                let ghost buf1 = self@;
                let ghost inc1 = t.incoming();
                if let Some(line) = self.take_frame() {
                    proof {
                        lemma_stream_prefix(buf1, inc1);
                    }
                    match utf8_to_string(line) {
                        Some(text) => LineRead::Line(text),
                        None => LineRead::Encoding,
                    }
                } else {
                    LineRead::WouldBlock
                }
            },
            ReadChunk::WouldBlock => LineRead::WouldBlock,
            ReadChunk::Closed => LineRead::Eof,
        }
    }
}

/// Write one record to the transport: the bytes of `line` followed by
/// a single newline.
///
/// `WouldBlock` is reported only when not a single byte could be
/// written; once part of the frame is out, the call keeps retrying so
/// that records stay whole on the wire.
pub fn write_line<T: Transport>(t: &mut T, line: &str) -> (r: LineWrite)
    ensures
        final(t).incoming() == old(t).incoming(),
        final(t).live() == old(t).live(),
        final(t).writable() == old(t).writable(),
        old(t).writable() && old(t).live() ==> r is Done,
        ({
            let payload = frame(encode_utf8(line@));
            match r {
                LineWrite::Done => final(t).outgoing() == old(t).outgoing() + payload,
                LineWrite::WouldBlock => final(t).outgoing() == old(t).outgoing(),
                LineWrite::Eof => {
                    &&& !old(t).live()
                    &&& exists|k: int|
                        0 <= k < payload.len() && final(t).outgoing() == old(t).outgoing()
                            + payload.take(k)
                },
                LineWrite::Stalled => exists|k: int|
                    0 < k < payload.len() && final(t).outgoing() == old(t).outgoing()
                        + payload.take(k),
            }
        }),
{
    let mut payload = slice_to_vec(line.as_bytes());
    payload.push(NL);
    proof {
        assert(payload@ =~= frame(encode_utf8(line@)));
    }
    let mut written: usize = 0;
    let mut budget: u64 = WRITE_RETRY_LIMIT;
    while written < payload.len()
        invariant
            0 < payload@.len(),
            payload@ == frame(encode_utf8(line@)),
            written <= payload@.len(),
            t.incoming() == old(t).incoming(),
            t.live() == old(t).live(),
            t.writable() == old(t).writable(),
            t.outgoing() == old(t).outgoing() + payload@.take(written as int),
            written == 0 ==> t.outgoing() == old(t).outgoing(),
        decreases payload@.len() - written, budget,
    {
        let rest = slice_subrange(payload.as_slice(), written, payload.len());
        match t.try_write(rest) {
            WriteChunk::Accepted(n) => {
                proof {
                    assert(payload@.take(written as int) + rest@.take(n as int) =~= payload@.take(
                        written as int + n as int,
                    ));
                }
                written = written + n;
                budget = WRITE_RETRY_LIMIT;
            },
            WriteChunk::WouldBlock => {
                if written == 0 {
                    proof {
                        assert(old(t).outgoing() + payload@.take(0) =~= old(t).outgoing());
                    }
                    return LineWrite::WouldBlock;
                }
                if budget == 0 {
                    return LineWrite::Stalled;
                }
                budget = budget - 1;
            },
            WriteChunk::Closed => {
                return LineWrite::Eof;
            },
        }
    }
    proof {
        assert(payload@.take(payload@.len() as int) =~= payload@);
    }
    LineWrite::Done
}

} // verus!
