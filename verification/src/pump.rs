//! The bidirectional pump between a peer transport and a hosted
//! child.
//!
//! The pump itself is a loop in the surrounding application: it polls
//! the peer-side codec and the child-side codec in turn.  What to do
//! with each poll result is decided here, and the delivery laws state
//! what the whole composition does to a sequence of lines: every line
//! crosses unchanged, in order, with its newline frame.

use vstd::prelude::*;
use vstd::utf8::{decode_utf8, decode_utf8_encode_utf8, valid_utf8};

use crate::codec::{
    encode_lines, find_byte, frame, split_frames, tail_bytes, write_line, LineCodec, LineRead,
    LineWrite, EOT, NL,
};
use crate::transport::Transport;

verus! {

/// What the pump does after one read on the peer side.
#[derive(Debug, PartialEq, Eq)]
pub enum PeerAction {
    /// Hand the record to the child's stdin.
    ForwardToChild(String),
    /// No progress possible; give the other direction a turn.
    Yield,
    /// The peer is done: close the child's stdin and drain its
    /// remaining output.
    BeginDrain,
    /// The peer-side stream broke; terminate the session.
    Terminate,
}

/// What the pump does after one read on the child side.
#[derive(Debug, PartialEq, Eq)]
pub enum ChildAction {
    /// Hand the record to the peer.
    ForwardToPeer(String),
    /// No progress possible; give the other direction a turn.
    Yield,
    /// The child is done (or produced bytes no record can carry);
    /// finish the session.
    Finish,
}

/// The inbound decision: a record goes to the child verbatim, a
/// would-block yields, end of input starts the drain, and a broken
/// record ends the session.
pub fn on_peer_read(r: LineRead) -> (a: PeerAction)
    ensures
        r matches LineRead::Line(s) ==> a == PeerAction::ForwardToChild(s),
        r is WouldBlock ==> a is Yield,
        r is Eof ==> a is BeginDrain,
        r is Encoding ==> a is Terminate,
{
    match r {
        LineRead::Line(s) => PeerAction::ForwardToChild(s),
        LineRead::WouldBlock => PeerAction::Yield,
        LineRead::Eof => PeerAction::BeginDrain,
        LineRead::Encoding => PeerAction::Terminate,
    }
}

/// The outbound decision: a record goes to the peer verbatim, a
/// would-block yields, and end of output — or output no record can
/// carry — finishes the session.
pub fn on_child_read(r: LineRead) -> (a: ChildAction)
    ensures
        r matches LineRead::Line(s) ==> a == ChildAction::ForwardToPeer(s),
        r is WouldBlock ==> a is Yield,
        r is Eof ==> a is Finish,
        r is Encoding ==> a is Finish,
{
    match r {
        LineRead::Line(s) => ChildAction::ForwardToPeer(s),
        LineRead::WouldBlock => ChildAction::Yield,
        LineRead::Eof => ChildAction::Finish,
        LineRead::Encoding => ChildAction::Finish,
    }
}

/// What one relay step did.
#[derive(Debug, PartialEq, Eq)]
pub enum RelayStep {
    /// One record crossed: it left the source stream and stands on
    /// the sink's wire with its newline frame.
    Forwarded,
    /// No complete record is available; nothing moved.
    Yielded,
    /// The source is at its end; nothing moved.
    SourceDone,
    /// The next record is not valid UTF-8; it was consumed and
    /// reported, and nothing reached the sink.
    Broken,
}

/// Move at most one record from a non-blocking source to a sink that
/// accepts writes, through the codec.  A forwarded record reaches the
/// sink byte for byte as it stood in the source stream, newline frame
/// included: this is one step of the delivery guarantee, at the code
/// itself.
pub fn relay_line<S: Transport, D: Transport>(
    codec: &mut LineCodec,
    from: &mut S,
    to: &mut D,
) -> (p: RelayStep)
    requires
        old(to).writable(),
        old(to).live(),
    ensures
        final(from).outgoing() == old(from).outgoing(),
        final(from).live() == old(from).live(),
        final(to).incoming() == old(to).incoming(),
        final(to).live() == old(to).live(),
        final(to).writable() == old(to).writable(),
        ({
            let s0 = old(codec)@ + old(from).incoming();
            let s1 = final(codec)@ + final(from).incoming();
            match p {
                RelayStep::Forwarded => {
                    &&& s0.contains(NL)
                    &&& valid_utf8(s0.take(find_byte(s0, NL)))
                    &&& s1 == s0.skip(find_byte(s0, NL) + 1)
                    &&& final(to).outgoing() == old(to).outgoing() + frame(
                        s0.take(find_byte(s0, NL)),
                    )
                },
                RelayStep::Yielded => {
                    &&& s1 == s0
                    &&& final(to).outgoing() == old(to).outgoing()
                },
                RelayStep::SourceDone => {
                    &&& s1 == s0
                    &&& final(to).outgoing() == old(to).outgoing()
                    &&& (old(codec)@.contains(EOT) || (old(from).incoming().len() == 0
                        && !old(from).live()))
                },
                RelayStep::Broken => {
                    &&& s0.contains(NL)
                    &&& !valid_utf8(s0.take(find_byte(s0, NL)))
                    &&& s1 == s0.skip(find_byte(s0, NL) + 1)
                    &&& final(to).outgoing() == old(to).outgoing()
                },
            }
        }),
        old(codec)@.contains(NL) ==> p is Forwarded || p is Broken,
{
    match codec.read_line(from) {
        LineRead::Line(text) => {
            let ghost l = (old(codec)@ + old(from).incoming()).take(
                find_byte(old(codec)@ + old(from).incoming(), NL),
            );
            proof {
                decode_utf8_encode_utf8(l);
            }
            match write_line(to, text.as_str()) {
                LineWrite::Done => RelayStep::Forwarded,
                // An accepting, live sink takes the whole frame; the
                // other outcomes cannot reach this arm.
                _ => RelayStep::Forwarded,
            }
        },
        LineRead::WouldBlock => RelayStep::Yielded,
        LineRead::Eof => RelayStep::SourceDone,
        LineRead::Encoding => RelayStep::Broken,
    }
}

/// Relay ready records until the source has no complete record to
/// offer, the source ends, a record breaks, or `max_records` have
/// crossed; the count of records forwarded comes back beside the
/// last step.
///
/// As long as no record broke, what the sink gained is a prefix of
/// the source stream, byte for byte — lines cross in order, each
/// with its newline frame, and the rest of the stream is untouched.
pub fn relay_ready<S: Transport, D: Transport>(
    codec: &mut LineCodec,
    from: &mut S,
    to: &mut D,
    max_records: usize,
) -> (r: (RelayStep, usize))
    requires
        old(to).writable(),
        old(to).live(),
        max_records > 0,
    ensures
        final(from).outgoing() == old(from).outgoing(),
        final(from).live() == old(from).live(),
        final(to).incoming() == old(to).incoming(),
        final(to).live() == old(to).live(),
        final(to).writable() == old(to).writable(),
        r.1 <= max_records,
        r.1 == max_records || !(r.0 is Forwarded),
        ({
            let s0 = old(codec)@ + old(from).incoming();
            let s1 = final(codec)@ + final(from).incoming();
            !(r.0 is Broken) ==> exists|k: int|
                0 <= k <= s0.len() && s1 == s0.skip(k) && final(to).outgoing() == old(
                    to,
                ).outgoing() + s0.take(k)
        }),
{
    let ghost s0 = old(codec)@ + old(from).incoming();
    let ghost mut moved: int = 0;
    let mut n: usize = 0;
    proof {
        assert(s0.skip(0) =~= s0);
        assert(old(to).outgoing() + s0.take(0) =~= old(to).outgoing());
    }
    while n < max_records
        invariant
            n < max_records,
            s0 == old(codec)@ + old(from).incoming(),
            0 <= moved <= s0.len(),
            codec@ + from.incoming() == s0.skip(moved),
            from.outgoing() == old(from).outgoing(),
            from.live() == old(from).live(),
            to.incoming() == old(to).incoming(),
            to.live() == old(to).live(),
            to.writable() == old(to).writable(),
            old(to).writable() && old(to).live(),
            to.outgoing() == old(to).outgoing() + s0.take(moved),
        decreases max_records - n,
    {
        let ghost scur = s0.skip(moved);
        match relay_line(codec, from, to) {
            RelayStep::Forwarded => {
                proof {
                    crate::codec::lemma_find_byte(scur, NL);
                    let i = find_byte(scur, NL);
                    assert(frame(scur.take(i)) =~= scur.take(i + 1));
                    assert(s0.take(moved) + scur.take(i + 1) =~= s0.take(moved + i + 1));
                    assert(scur.skip(i + 1) =~= s0.skip(moved + i + 1));
                    moved = moved + i + 1;
                }
                n = n + 1;
                if n == max_records {
                    proof {
                        assert(codec@ + from.incoming() == s0.skip(moved));
                        assert(to.outgoing() == old(to).outgoing() + s0.take(moved));
                    }
                    return (RelayStep::Forwarded, n);
                }
            },
            step => {
                proof {
                    if !(step is Broken) {
                        assert(codec@ + from.incoming() == s0.skip(moved));
                        assert(to.outgoing() == old(to).outgoing() + s0.take(moved));
                    }
                }
                return (step, n);
            },
        }
    }
    (RelayStep::Yielded, n)
}

/// The records one side of the pump extracts from a byte stream, in
/// order.
pub open spec fn pumped_records(stream: Seq<u8>) -> Seq<Seq<char>> {
    split_frames(stream).map(|i: int, b: Seq<u8>| decode_utf8(b))
}

/// Inbound delivery: when the peer writes the lines `L1 ... Ln`, the
/// child receives exactly those lines on stdin, in order, each
/// followed by a newline.  The pump reads the peer's framed stream,
/// and what it re-frames for the child's stdin is byte for byte the
/// stream the peer sent.
pub proof fn lemma_peer_lines_reach_child(ls: Seq<Seq<char>>)
    requires
        forall|i: int| 0 <= i < ls.len() ==> !(#[trigger] ls[i]).contains('\n'),
    ensures
        pumped_records(encode_lines(ls)) == ls,
        encode_lines(pumped_records(encode_lines(ls))) == encode_lines(ls),
        tail_bytes(encode_lines(ls)) == Seq::<u8>::empty(),
{
    crate::codec::lemma_lines_round_trip(ls);
    assert(pumped_records(encode_lines(ls)) =~= ls);
}

/// Outbound delivery: when the child writes the lines `M1 ... Mm` on
/// stdout, the peer receives exactly those lines, in order, each
/// followed by a newline — the same composition as the inbound
/// direction, with the roles of peer and child swapped.
pub proof fn lemma_child_lines_reach_peer(ls: Seq<Seq<char>>)
    requires
        forall|i: int| 0 <= i < ls.len() ==> !(#[trigger] ls[i]).contains('\n'),
    ensures
        pumped_records(encode_lines(ls)) == ls,
        encode_lines(pumped_records(encode_lines(ls))) == encode_lines(ls),
        tail_bytes(encode_lines(ls)) == Seq::<u8>::empty(),
{
    lemma_peer_lines_reach_child(ls);
}

} // verus!
