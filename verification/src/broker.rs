//! What the producer and the consumer services decide: which segment a
//! request names, what a produce request writes there, and which messages a
//! consume request is answered with. Storing and loading segments, and
//! streaming the answers, are the caller's I/O.

use vstd::prelude::*;
use vstd::slice::slice_to_vec;
use crate::segment::{encode_records, framed, records, split_records, views, newline_free, law_frame_round_trip};
use crate::text::{segment_key, segment_key_text};
use crate::wire::{ConsumeRequest, ConsumeResponse, ProduceRequest, ProduceResponse};

verus! {

/// A write of a whole segment to the object store.
pub struct SegmentWrite {
    pub key: String,
    pub bytes: Vec<u8>,
}

/// The messages, with their offsets, that a consumer reading `recs` from
/// `offset` on is sent: the records from position `offset` on, each with its
/// position. A negative offset, or one at or past the end, gets nothing.
pub open spec fn deliveries(recs: Seq<Seq<u8>>, offset: int) -> Seq<(int, Seq<u8>)> {
    if offset < 0 || offset >= recs.len() {
        Seq::empty()
    } else {
        Seq::new((recs.len() - offset) as nat, |k: int| (offset + k, recs[offset + k]))
    }
}

/// The offsets and messages of a sequence of consume responses.
pub open spec fn delivered(responses: Seq<ConsumeResponse>) -> Seq<(int, Seq<u8>)> {
    responses.map_values(|r: ConsumeResponse| (r.offset as int, r.message@))
}

/// What a produce request writes: all its messages, framed, to segment 0 of
/// its topic (the segment's earlier content is replaced).
pub fn produce_write(req: &ProduceRequest) -> (write: SegmentWrite)
    ensures
        write.key@ == segment_key_text(req.topic@, 0),
        write.bytes@ == framed(views(req.messages@)),
{
    SegmentWrite { key: segment_key(req.topic.as_str(), 0), bytes: encode_records(&req.messages) }
}

/// The answer to a produce request whose segment was written.
pub fn produce_reply() -> (resp: ProduceResponse)
    ensures
        resp.partition == 0,
        resp.offset == 0,
{
    ProduceResponse { partition: 0, offset: 0 }
}

/// The key of the segment that a consume request reads.
pub fn consume_key(req: &ConsumeRequest) -> (key: String)
    ensures
        key@ == segment_key_text(req.topic@, req.partition as int),
{
    segment_key(req.topic.as_str(), req.partition)
}

/// The responses for a consumer reading the records `recs` from `offset` on.
pub fn responses_from(recs: &Vec<Vec<u8>>, offset: i64) -> (responses: Vec<ConsumeResponse>)
    requires
        recs.len() <= i64::MAX,
    ensures
        delivered(responses@) == deliveries(views(recs@), offset as int),
{
    let mut out: Vec<ConsumeResponse> = Vec::new();
    if offset < 0 || offset as u64 >= recs.len() as u64 {
        assert(delivered(out@) =~= deliveries(views(recs@), offset as int));
        return out;
    }
    let start = offset as usize;
    let mut i: usize = start;
    let ghost want = deliveries(views(recs@), offset as int);
    while i < recs.len()
        invariant
            start == offset,
            0 <= start <= i <= recs.len() <= i64::MAX,
            start < recs.len(),
            want == deliveries(views(recs@), offset as int),
            delivered(out@) == want.take(i - start),
        decreases recs.len() - i,
    {
        let message = slice_to_vec(recs[i].as_slice());
        let ghost before = out@;
        out.push(ConsumeResponse { offset: i as i64, message });
        proof {
            assert(want.take(i + 1 - start) =~= want.take(i - start).push(want[i - start]));
            assert(delivered(out@) =~= delivered(before).push((i as int, recs@[i as int]@)));
        }
        i += 1;
    }
    assert(want.take(recs.len() - start) =~= want);
    out
}

/// The responses to a consume request, given the segment `data` that its
/// key names: the segment's records from the requested offset on, each with
/// its offset.
pub fn consume_responses(data: &[u8], req: &ConsumeRequest) -> (responses: Vec<ConsumeResponse>)
    requires
        data.len() <= i64::MAX,
    ensures
        delivered(responses@) == deliveries(records(data@), req.offset as int),
{
    let recs = split_records(data);
    responses_from(&recs, req.offset)
}

/// What was produced is what is consumed: reading from offset 0 the segment
/// that a produce of non-empty, newline-free messages writes delivers those
/// messages, in order, with offsets 0, 1, 2, ...
pub proof fn law_produce_then_consume(messages: Seq<Seq<u8>>)
    requires
        forall|i: int|
            0 <= i < messages.len() ==> newline_free(#[trigger] messages[i]) && messages[i].len()
                > 0,
    ensures
        deliveries(records(framed(messages)), 0) == Seq::new(
            messages.len(),
            |k: int| (k, messages[k]),
        ),
{
    law_frame_round_trip(messages);
    assert(deliveries(records(framed(messages)), 0) =~= Seq::new(
        messages.len(),
        |k: int| (k, messages[k]),
    ));
}

/// Reading from offset `n` delivers the same messages, with the same
/// offsets, as reading from offset 0 and dropping the first `n`.
pub proof fn law_consume_from_offset(recs: Seq<Seq<u8>>, n: int)
    requires
        0 <= n <= recs.len(),
    ensures
        deliveries(recs, n) == deliveries(recs, 0).skip(n),
{
    assert(deliveries(recs, n) =~= deliveries(recs, 0).skip(n));
}


/// What a consumer reading from `offset` is sent: nothing for a negative
/// offset or one at or past the end; otherwise every record from `offset`
/// on, in order, the first numbered `offset` and each next one numbered one
/// more, each message being the record at its number.
pub proof fn law_deliveries_from_offset(recs: Seq<Seq<u8>>, offset: int)
    ensures
        (offset < 0 || offset >= recs.len()) ==> deliveries(recs, offset).len() == 0,
        0 <= offset < recs.len() ==> {
            &&& deliveries(recs, offset).len() == recs.len() - offset
            &&& deliveries(recs, offset)[0].0 == offset
            &&& forall|k: int|
                0 <= k < deliveries(recs, offset).len() ==> {
                    let (n, m) = #[trigger] deliveries(recs, offset)[k];
                    &&& 0 <= n < recs.len()
                    &&& m == recs[n]
                    &&& k + 1 < deliveries(recs, offset).len() ==> deliveries(recs, offset)[k
                        + 1].0 == n + 1
                }
        },
{
}

} // verus!
