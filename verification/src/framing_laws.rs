//! What holds of the framing layer however the transport cuts the stream.

use vstd::prelude::*;
use crate::codec::{encodable, message_bytes, message_parse};
use crate::framing::{
    be32, be32_bytes, frame_bytes, front, lemma_be32_round_trip, split_frames, Front, Split,
    PREFIX_LEN,
};
use crate::message::MessageView;
use crate::roundtrip::lemma_message_round_trip;

verus! {

/// All the pieces of a stream, joined in order.
pub open spec fn joined(chunks: Seq<Seq<u8>>) -> Seq<u8>
    decreases chunks.len(),
{
    if chunks.len() == 0 {
        Seq::empty()
    } else {
        chunks[0] + joined(chunks.drop_first())
    }
}

/// The stream that carries `payloads`: one frame after the other.
pub open spec fn stream_of(payloads: Seq<Seq<u8>>) -> Seq<u8>
    decreases payloads.len(),
{
    if payloads.len() == 0 {
        Seq::empty()
    } else {
        frame_bytes(payloads[0]) + stream_of(payloads.drop_first())
    }
}

/// What a reader that holds `pending` hands out when it is fed `chunks` one
/// by one and takes every whole frame after each: the frames in order, what
/// it holds in the end, and whether an oversize prefix stopped it. After
/// such a prefix it reads no further chunk.
pub open spec fn fed(pending: Seq<u8>, chunks: Seq<Seq<u8>>, max: nat) -> Split
    decreases chunks.len(),
{
    if chunks.len() == 0 {
        Split { frames: Seq::empty(), rest: pending, oversize: false }
    } else {
        let now = split_frames(pending + chunks[0], max);
        if now.oversize {
            now
        } else {
            let later = fed(now.rest, chunks.drop_first(), max);
            Split {
                frames: now.frames + later.frames,
                rest: later.rest,
                oversize: later.oversize,
            }
        }
    }
}

/// A whole frame or an oversize prefix at the front stays what it is when
/// more bytes arrive.
pub proof fn lemma_front_is_stable(a: Seq<u8>, b: Seq<u8>, max: nat)
    requires
        !(front(a, max) is Incomplete),
    ensures
        front(a + b, max) == front(a, max),
{
    let s = a + b;
    assert(s[0] == a[0] && s[1] == a[1] && s[2] == a[2] && s[3] == a[3]);
    if front(a, max) is Frame {
        assert(s.subrange(PREFIX_LEN as int, PREFIX_LEN + be32(s)) =~= a.subrange(
            PREFIX_LEN as int,
            PREFIX_LEN + be32(a),
        ));
    }
}

/// What is left after the whole frames are taken holds no whole frame.
pub proof fn lemma_rest_has_no_frame(s: Seq<u8>, max: nat)
    ensures
        !(front(split_frames(s, max).rest, max) is Frame),
        split_frames(s, max).oversize == (front(split_frames(s, max).rest, max) is Oversize),
        split_frames(s, max).rest.len() <= s.len(),
    decreases s.len(),
{
    match front(s, max) {
        Front::Frame(payload) => {
            lemma_rest_has_no_frame(s.skip(PREFIX_LEN + payload.len()), max);
        },
        _ => {},
    }
}

/// Taking frames does not depend on where the stream was cut: to take them
/// from `a`, add `b` to what is left and take again gives the frames of
/// `a + b`. Once a prefix in `a` is oversize, nothing of `b` is taken as a
/// frame.
pub proof fn lemma_split_append(a: Seq<u8>, b: Seq<u8>, max: nat)
    ensures
        split_frames(a, max).oversize ==> split_frames(a + b, max) == (Split {
            frames: split_frames(a, max).frames,
            rest: split_frames(a, max).rest + b,
            oversize: true,
        }),
        !split_frames(a, max).oversize ==> split_frames(a + b, max) == (Split {
            frames: split_frames(a, max).frames + split_frames(
                split_frames(a, max).rest + b,
                max,
            ).frames,
            rest: split_frames(split_frames(a, max).rest + b, max).rest,
            oversize: split_frames(split_frames(a, max).rest + b, max).oversize,
        }),
    decreases a.len(),
{
    match front(a, max) {
        Front::Incomplete => {
            assert(Seq::<Seq<u8>>::empty() + split_frames(a + b, max).frames =~= split_frames(
                a + b,
                max,
            ).frames);
        },
        Front::Oversize => {
            lemma_front_is_stable(a, b, max);
        },
        Front::Frame(payload) => {
            lemma_front_is_stable(a, b, max);
            let n = PREFIX_LEN + payload.len();
            assert((a + b).skip(n) =~= a.skip(n) + b);
            lemma_split_append(a.skip(n), b, max);
            let tail = split_frames(a.skip(n), max);
            if !tail.oversize {
                let more = split_frames(tail.rest + b, max);
                assert(seq![payload] + (tail.frames + more.frames) =~= (seq![payload]
                    + tail.frames) + more.frames);
            }
        },
    }
}

/// To feed a reader piece by piece gives what taking the frames from the
/// whole stream gives: the frames and the verdict always, and what is left
/// unless an oversize prefix stopped the reader.
pub proof fn lemma_fed_is_split(pending: Seq<u8>, chunks: Seq<Seq<u8>>, max: nat)
    requires
        front(pending, max) is Incomplete,
    ensures
        fed(pending, chunks, max).frames == split_frames(pending + joined(chunks), max).frames,
        fed(pending, chunks, max).oversize == split_frames(
            pending + joined(chunks),
            max,
        ).oversize,
        !fed(pending, chunks, max).oversize ==> fed(pending, chunks, max).rest == split_frames(
            pending + joined(chunks),
            max,
        ).rest,
    decreases chunks.len(),
{
    if chunks.len() == 0 {
        assert(pending + joined(chunks) =~= pending);
    } else {
        let first = pending + chunks[0];
        let others = joined(chunks.drop_first());
        let now = split_frames(first, max);
        assert(pending + joined(chunks) =~= first + others);
        lemma_split_append(first, others, max);
        lemma_rest_has_no_frame(first, max);
        if !now.oversize {
            lemma_fed_is_split(now.rest, chunks.drop_first(), max);
        }
    }
}

/// A stream of whole frames, none above the maximum, splits into exactly
/// their payloads, with nothing left.
pub proof fn lemma_split_stream(payloads: Seq<Seq<u8>>, max: nat)
    requires
        max <= u32::MAX,
        forall|i: int| 0 <= i < payloads.len() ==> (#[trigger] payloads[i]).len() <= max,
    ensures
        split_frames(stream_of(payloads), max) == (Split {
            frames: payloads,
            rest: Seq::empty(),
            oversize: false,
        }),
    decreases payloads.len(),
{
    if payloads.len() == 0 {
        assert(payloads =~= Seq::<Seq<u8>>::empty());
    } else {
        let p = payloads[0];
        let tail = payloads.drop_first();
        let s = stream_of(payloads);
        lemma_be32_round_trip(p.len());
        assert(be32(s) == be32(be32_bytes(p.len()))) by {
            assert(s[0] == be32_bytes(p.len())[0]);
            assert(s[1] == be32_bytes(p.len())[1]);
            assert(s[2] == be32_bytes(p.len())[2]);
            assert(s[3] == be32_bytes(p.len())[3]);
        }
        assert(s.subrange(PREFIX_LEN as int, PREFIX_LEN + p.len()) =~= p);
        assert(s.skip(PREFIX_LEN + p.len()) =~= stream_of(tail));
        assert forall|i: int| 0 <= i < tail.len() implies (#[trigger] tail[i]).len() <= max by {
            assert(tail[i] == payloads[i + 1]);
        }
        lemma_split_stream(tail, max);
        assert(seq![p] + tail =~= payloads);
    }
}

/// The encodings of `messages`, one payload each.
pub open spec fn encodings(messages: Seq<MessageView>) -> Seq<Seq<u8>> {
    messages.map_values(|m: MessageView| message_bytes(m))
}

/// Messages that are framed, sent as one stream and delivered in pieces of
/// any sizes arrive whole, in order, and decode to what was sent.
pub proof fn lemma_chunked_delivery(messages: Seq<MessageView>, chunks: Seq<Seq<u8>>, max: nat)
    requires
        max <= u32::MAX,
        forall|i: int|
            0 <= i < messages.len() ==> encodable(#[trigger] messages[i]) && message_bytes(
                messages[i],
            ).len() <= max,
        joined(chunks) == stream_of(encodings(messages)),
    ensures
        fed(Seq::empty(), chunks, max) == (Split {
            frames: encodings(messages),
            rest: Seq::empty(),
            oversize: false,
        }),
        forall|i: int|
            0 <= i < messages.len() ==> message_parse(
                #[trigger] fed(Seq::empty(), chunks, max).frames[i],
            ) == Some(messages[i]),
{
    let sent = encodings(messages);
    assert forall|i: int| 0 <= i < sent.len() implies (#[trigger] sent[i]).len() <= max by {
        assert(sent[i] == message_bytes(messages[i]));
    }
    lemma_split_stream(sent, max);
    assert(Seq::<u8>::empty() + joined(chunks) =~= joined(chunks));
    lemma_fed_is_split(Seq::empty(), chunks, max);
    assert forall|i: int| 0 <= i < messages.len() implies message_parse(
        #[trigger] fed(Seq::empty(), chunks, max).frames[i],
    ) == Some(messages[i]) by {
        assert(sent[i] == message_bytes(messages[i]));
        lemma_message_round_trip(messages[i]);
    }
}

/// A stream that ends inside a frame leaves the bytes of that frame held:
/// the whole frames before it are handed out, and what is left is not
/// empty, so the end of the stream is a truncation and not a message.
pub proof fn lemma_truncated_stream(
    payloads: Seq<Seq<u8>>,
    last: Seq<u8>,
    cut: int,
    max: nat,
)
    requires
        max <= u32::MAX,
        forall|i: int| 0 <= i < payloads.len() ==> (#[trigger] payloads[i]).len() <= max,
        last.len() <= max,
        0 < cut < PREFIX_LEN + last.len(),
    ensures
        split_frames(stream_of(payloads) + frame_bytes(last).take(cut), max) == (Split {
            frames: payloads,
            rest: frame_bytes(last).take(cut),
            oversize: false,
        }),
{
    let partial = frame_bytes(last).take(cut);
    lemma_split_stream(payloads, max);
    lemma_split_append(stream_of(payloads), partial, max);
    assert(Seq::<u8>::empty() + partial =~= partial);
    assert(front(partial, max) is Incomplete) by {
        if cut >= PREFIX_LEN {
            lemma_be32_round_trip(last.len());
            assert(partial[0] == be32_bytes(last.len())[0]);
            assert(partial[1] == be32_bytes(last.len())[1]);
            assert(partial[2] == be32_bytes(last.len())[2]);
            assert(partial[3] == be32_bytes(last.len())[3]);
        }
    }
    assert(payloads + Seq::<Seq<u8>>::empty() =~= payloads);
}

/// A prefix that declares more than the maximum stops the reader: the whole
/// frames before it are handed out, and nothing from the prefix on is taken
/// as a frame, whatever follows it.
pub proof fn lemma_oversize_stream(payloads: Seq<Seq<u8>>, tail: Seq<u8>, max: nat)
    requires
        max <= u32::MAX,
        forall|i: int| 0 <= i < payloads.len() ==> (#[trigger] payloads[i]).len() <= max,
        tail.len() >= PREFIX_LEN,
        be32(tail) > max,
    ensures
        split_frames(stream_of(payloads) + tail, max) == (Split {
            frames: payloads,
            rest: tail,
            oversize: true,
        }),
{
    lemma_split_stream(payloads, max);
    lemma_split_append(stream_of(payloads), tail, max);
    assert(Seq::<u8>::empty() + tail =~= tail);
    assert(payloads + Seq::<Seq<u8>>::empty() =~= payloads);
}

} // verus!
