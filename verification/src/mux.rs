//! The multiplexing discipline for one logical stream: each chunk read from
//! a socket travels as one `Data` message tagged with the stream's
//! connection id, and the receiver writes the payloads out in order.
//!
//! `spec_stream_bytes` is what a receiver delivers for one stream from a
//! message sequence. The lemmas show that the delivered bytes of a sent
//! chunk sequence are exactly their concatenation, and that at any earlier
//! point the delivered bytes are a prefix of it: the local service sees a
//! prefix of what the public side sent, and the whole of it once the
//! stream's messages have all arrived.

use vstd::prelude::*;
use crate::protocol::{Message, MessageView};

verus! {

/// The bytes delivered for stream `conn` from a message sequence: the
/// payloads of its `Data` messages, in order.
pub open spec fn spec_stream_bytes(msgs: Seq<MessageView>, conn: Seq<char>) -> Seq<u8>
    decreases msgs.len(),
{
    if msgs.len() == 0 {
        Seq::empty()
    } else {
        let head = match msgs[0] {
            MessageView::Data { connection_id, data } => if connection_id == conn {
                data
            } else {
                Seq::empty()
            },
            _ => Seq::empty(),
        };
        head + spec_stream_bytes(msgs.skip(1), conn)
    }
}

/// The `Data` messages wrapping a sequence of chunks for one stream.
pub open spec fn spec_wrap_chunks(conn: Seq<char>, chunks: Seq<Seq<u8>>) -> Seq<MessageView> {
    chunks.map_values(|c: Seq<u8>| MessageView::Data { connection_id: conn, data: c })
}

/// The concatenation of a sequence of chunks.
pub open spec fn spec_concat(chunks: Seq<Seq<u8>>) -> Seq<u8>
    decreases chunks.len(),
{
    if chunks.len() == 0 {
        Seq::empty()
    } else {
        chunks[0] + spec_concat(chunks.skip(1))
    }
}

/// Delivery distributes over concatenation of message sequences.
pub proof fn lemma_stream_bytes_add(m1: Seq<MessageView>, m2: Seq<MessageView>,
    conn: Seq<char>)
    ensures
        spec_stream_bytes(m1 + m2, conn)
            == spec_stream_bytes(m1, conn) + spec_stream_bytes(m2, conn),
    decreases m1.len(),
{
    if m1.len() == 0 {
        assert(m1 + m2 =~= m2);
        assert(spec_stream_bytes(m1, conn) + spec_stream_bytes(m2, conn)
            =~= spec_stream_bytes(m2, conn));
    } else {
        lemma_stream_bytes_add(m1.skip(1), m2, conn);
        assert((m1 + m2).skip(1) =~= m1.skip(1) + m2);
        assert((m1 + m2)[0] == m1[0]);
        let head = match m1[0] {
            MessageView::Data { connection_id, data } => if connection_id == conn {
                data
            } else {
                Seq::empty()
            },
            _ => Seq::empty(),
        };
        assert(head + (spec_stream_bytes(m1.skip(1), conn) + spec_stream_bytes(m2, conn))
            =~= (head + spec_stream_bytes(m1.skip(1), conn)) + spec_stream_bytes(m2, conn));
    }
}

/// Wrapping chunks as `Data` messages and delivering them returns exactly
/// their concatenation: the receiving side writes out what the sending
/// side read, completely and in order.
pub proof fn lemma_stream_round_trip(conn: Seq<char>, chunks: Seq<Seq<u8>>)
    ensures
        spec_stream_bytes(spec_wrap_chunks(conn, chunks), conn) == spec_concat(chunks),
    decreases chunks.len(),
{
    let msgs = spec_wrap_chunks(conn, chunks);
    if chunks.len() == 0 {
    } else {
        lemma_stream_round_trip(conn, chunks.skip(1));
        assert(msgs.skip(1) =~= spec_wrap_chunks(conn, chunks.skip(1)));
        assert(msgs[0] == (MessageView::Data { connection_id: conn, data: chunks[0] }));
    }
}

/// While only the first `n` messages have arrived, the delivered bytes are
/// a prefix of the bytes delivered by the whole sequence.
pub proof fn lemma_stream_prefix(msgs: Seq<MessageView>, n: int, conn: Seq<char>)
    requires
        0 <= n <= msgs.len(),
    ensures
        spec_stream_bytes(msgs.take(n), conn).is_prefix_of(spec_stream_bytes(msgs, conn)),
{
    assert(msgs =~= msgs.take(n) + msgs.skip(n));
    lemma_stream_bytes_add(msgs.take(n), msgs.skip(n), conn);
}

/// The views of a vector of messages.
pub open spec fn views_of(msgs: Seq<Message>) -> Seq<MessageView> {
    msgs.map_values(|m: Message| m@)
}

/// Delivers the bytes of one stream from received messages, in order: the
/// executable counterpart of `spec_stream_bytes`.
pub fn project_stream(msgs: &Vec<Message>, conn: &str) -> (r: Vec<u8>)
    ensures
        r@ == spec_stream_bytes(views_of(msgs@), conn@),
{
    let key: String = conn.to_owned();
    let mut out: Vec<u8> = Vec::new();
    let mut i: usize = 0;
    while i < msgs.len()
        invariant
            0 <= i <= msgs@.len(),
            key@ == conn@,
            out@ == spec_stream_bytes(views_of(msgs@).take(i as int), conn@),
        decreases msgs@.len() - i,
    {
        let ghost pre = views_of(msgs@).take(i as int);
        let ghost pre_out = out@;
        match &msgs[i] {
            Message::Data { connection_id, data } => {
                if *connection_id == key {
                    let mut chunk = vstd::slice::slice_to_vec(data.as_slice());
                    out.append(&mut chunk);
                }
            },
            _ => {},
        }
        proof {
            let all = views_of(msgs@);
            assert(all[i as int] == msgs@[i as int]@);
            let single = seq![all[i as int]];
            let head = match all[i as int] {
                MessageView::Data { connection_id, data } => if connection_id == conn@ {
                    data
                } else {
                    Seq::<u8>::empty()
                },
                _ => Seq::<u8>::empty(),
            };
            assert(single.skip(1) =~= Seq::<MessageView>::empty());
            assert(single[0] == all[i as int]);
            assert(spec_stream_bytes(Seq::<MessageView>::empty(), conn@)
                == Seq::<u8>::empty());
            assert(head + Seq::<u8>::empty() =~= head);
            assert(spec_stream_bytes(single, conn@) =~= head);
            assert(out@ =~= pre_out + head);
            assert(all.take(i as int + 1) =~= pre + single);
            lemma_stream_bytes_add(pre, single, conn@);
        }
        i = i + 1;
    }
    proof {
        assert(views_of(msgs@).take(msgs@.len() as int) =~= views_of(msgs@));
    }
    out
}

} // verus!
