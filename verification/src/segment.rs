//! Framing of the records that make up a log segment.
//!
//! A segment is a byte string in which every message is followed by a
//! newline byte. Reading a segment back splits it at every newline and keeps
//! the non-empty pieces, in order.

use vstd::prelude::*;

verus! {

/// The byte that ends every record of a segment (`b'\n'`).
pub const NEWLINE: u8 = 10;

/// A field counts as a record when it holds at least one byte.
pub open spec fn nonempty() -> spec_fn(Seq<u8>) -> bool {
    |f: Seq<u8>| f.len() > 0
}

/// The fields of `s`: the pieces between its newline bytes, in order.
/// A byte string with `k` newlines has `k + 1` fields, some maybe empty.
pub open spec fn fields(s: Seq<u8>) -> Seq<Seq<u8>>
    decreases s.len(),
{
    if s.len() == 0 {
        seq![Seq::<u8>::empty()]
    } else {
        let f = fields(s.drop_last());
        if s.last() == NEWLINE {
            f.push(Seq::<u8>::empty())
        } else {
            f.update(f.len() - 1, f.last().push(s.last()))
        }
    }
}

/// The records of a segment: its non-empty fields, in order.
pub open spec fn records(s: Seq<u8>) -> Seq<Seq<u8>> {
    fields(s).filter(nonempty())
}

/// The segment that holds `messages`: each message followed by a newline.
pub open spec fn framed(messages: Seq<Seq<u8>>) -> Seq<u8> {
    messages.map_values(|m: Seq<u8>| m.push(NEWLINE)).flatten()
}

/// The byte strings held by a sequence of vectors.
pub open spec fn views(v: Seq<Vec<u8>>) -> Seq<Seq<u8>> {
    v.map_values(|m: Vec<u8>| m@)
}

/// No byte of `m` is a newline.
pub open spec fn newline_free(m: Seq<u8>) -> bool {
    !m.contains(NEWLINE)
}

proof fn lemma_fields_not_empty(s: Seq<u8>)
    ensures
        fields(s).len() >= 1,
    decreases s.len(),
{
    if s.len() > 0 {
        lemma_fields_not_empty(s.drop_last());
    }
}

proof fn lemma_framed_push(messages: Seq<Seq<u8>>, m: Seq<u8>)
    ensures
        framed(messages.push(m)) == framed(messages) + m.push(NEWLINE),
{
    let g = |x: Seq<u8>| x.push(NEWLINE);
    assert(messages.push(m).map_values(g) =~= messages.map_values(g).push(g(m)));
    messages.map_values(g).lemma_flatten_push(g(m));
}

/// Appending newline-free bytes to a byte string extends its last field.
proof fn lemma_fields_append_plain(a: Seq<u8>, m: Seq<u8>)
    requires
        newline_free(m),
    ensures
        fields(a + m) == fields(a).update(fields(a).len() - 1, fields(a).last() + m),
    decreases m.len(),
{
    lemma_fields_not_empty(a);
    let f = fields(a);
    if m.len() == 0 {
        assert(a + m =~= a);
        assert(f.last() + m =~= f.last());
        assert(f.update(f.len() - 1, f.last() + m) =~= f);
    } else {
        let m1 = m.drop_last();
        assert(newline_free(m1)) by {
            assert forall|i: int| 0 <= i < m1.len() implies m1[i] != NEWLINE by {
                assert(m1[i] == m[i]);
            }
        }
        lemma_fields_append_plain(a, m1);
        assert((a + m).drop_last() =~= a + m1);
        assert((a + m).last() == m[m.len() - 1]);
        assert(m[m.len() - 1] != NEWLINE);
        let g = fields(a + m1);
        assert(g.len() == f.len());
        assert(g.last() == f.last() + m1);
        assert((f.last() + m1).push(m.last()) =~= f.last() + m);
        assert(g.update(g.len() - 1, g.last().push(m.last())) =~= f.update(
            f.len() - 1,
            f.last() + m,
        ));
    }
}

/// The fields of a framed sequence of newline-free messages are those
/// messages, followed by the empty field after the last newline.
proof fn lemma_fields_of_framed(messages: Seq<Seq<u8>>)
    requires
        forall|i: int| 0 <= i < messages.len() ==> newline_free(#[trigger] messages[i]),
    ensures
        fields(framed(messages)) == messages.push(Seq::<u8>::empty()),
    decreases messages.len(),
{
    if messages.len() == 0 {
        assert(framed(messages) =~= Seq::<u8>::empty());
        assert(fields(framed(messages)) =~= messages.push(Seq::<u8>::empty()));
    } else {
        let p = messages.drop_last();
        let m = messages.last();
        assert(messages == p.push(m));
        assert forall|i: int| 0 <= i < p.len() implies newline_free(#[trigger] p[i]) by {
            assert(p[i] == messages[i]);
        }
        lemma_fields_of_framed(p);
        lemma_framed_push(p, m);
        let a = framed(p);
        let s = framed(messages);
        assert(s =~= (a + m).push(NEWLINE));
        assert(s.drop_last() =~= a + m);
        assert(newline_free(m)) by {
            assert(m == messages[messages.len() - 1]);
        }
        lemma_fields_append_plain(a, m);
        assert(Seq::<u8>::empty() + m =~= m);
        assert(fields(a + m) =~= p.push(m));
        assert(fields(s) =~= messages.push(Seq::<u8>::empty()));
    }
}

proof fn lemma_filter_keeps_all(s: Seq<Seq<u8>>)
    requires
        forall|i: int| 0 <= i < s.len() ==> (#[trigger] s[i]).len() > 0,
    ensures
        s.filter(nonempty()) == s,
    decreases s.len(),
{
    if s.len() == 0 {
        reveal(Seq::filter);
    } else {
        let p = s.drop_last();
        assert forall|i: int| 0 <= i < p.len() implies (#[trigger] p[i]).len() > 0 by {
            assert(p[i] == s[i]);
        }
        lemma_filter_keeps_all(p);
        assert(s == p.push(s.last()));
        p.lemma_filter_push(s.last(), nonempty());
    }
}

/// Reading back a framed sequence of newline-free messages gives the
/// non-empty ones among them, in order.
pub proof fn law_read_back_framed(messages: Seq<Seq<u8>>)
    requires
        forall|i: int| 0 <= i < messages.len() ==> newline_free(#[trigger] messages[i]),
    ensures
        records(framed(messages)) == messages.filter(nonempty()),
{
    lemma_fields_of_framed(messages);
    messages.lemma_filter_push(Seq::<u8>::empty(), nonempty());
}

/// Reading back a framed sequence of non-empty, newline-free messages gives
/// exactly those messages, in order.
pub proof fn law_frame_round_trip(messages: Seq<Seq<u8>>)
    requires
        forall|i: int|
            0 <= i < messages.len() ==> newline_free(#[trigger] messages[i]) && messages[i].len()
                > 0,
    ensures
        records(framed(messages)) == messages,
{
    law_read_back_framed(messages);
    lemma_filter_keeps_all(messages);
}

proof fn lemma_fields_newline_free(s: Seq<u8>)
    ensures
        forall|i: int| 0 <= i < fields(s).len() ==> newline_free(#[trigger] fields(s)[i]),
    decreases s.len(),
{
    if s.len() > 0 {
        let p = s.drop_last();
        lemma_fields_newline_free(p);
        lemma_fields_not_empty(p);
        let f = fields(p);
        if s.last() != NEWLINE {
            let l = f.last().push(s.last());
            assert(newline_free(f.last())) by {
                assert(f.last() == f[f.len() - 1]);
            }
            assert forall|j: int| 0 <= j < l.len() implies l[j] != NEWLINE by {
                if j < f.last().len() {
                    assert(l[j] == f.last()[j]);
                }
            }
            assert forall|i: int| 0 <= i < fields(s).len() implies newline_free(
                #[trigger] fields(s)[i],
            ) by {
                if i < f.len() - 1 {
                    assert(fields(s)[i] == f[i]);
                }
            }
        } else {
            assert forall|i: int| 0 <= i < fields(s).len() implies newline_free(
                #[trigger] fields(s)[i],
            ) by {
                if i < f.len() {
                    assert(fields(s)[i] == f[i]);
                } else {
                    assert(fields(s)[i] =~= Seq::<u8>::empty());
                }
            }
        }
    }
}

/// Every record read from a segment is non-empty and holds no newline.
pub proof fn law_records_are_clean(s: Seq<u8>)
    ensures
        forall|i: int|
            0 <= i < records(s).len() ==> (#[trigger] records(s)[i]).len() > 0 && newline_free(
                records(s)[i],
            ),
{
    broadcast use Seq::lemma_filter_pred, Seq::lemma_filter_contains_rev;

    lemma_fields_newline_free(s);
    assert forall|i: int| 0 <= i < records(s).len() implies (#[trigger] records(s)[i]).len() > 0
        && newline_free(records(s)[i]) by {
        let r = records(s)[i];
        assert(records(s).contains(r));
        assert(fields(s).contains(r));
        let j = choose|j: int| 0 <= j < fields(s).len() && fields(s)[j] == r;
        assert(newline_free(fields(s)[j]));
    }
}

/// The segment holding `messages`: each message followed by a newline.
pub fn encode_records(messages: &Vec<Vec<u8>>) -> (bytes: Vec<u8>)
    ensures
        bytes@ == framed(views(messages@)),
{
    let mut out: Vec<u8> = Vec::new();
    let mut i: usize = 0;
    assert(views(messages@).take(0) =~= Seq::<Seq<u8>>::empty());
    assert(framed(Seq::<Seq<u8>>::empty()) =~= Seq::<u8>::empty());
    while i < messages.len()
        invariant
            i <= messages.len(),
            out@ == framed(views(messages@).take(i as int)),
        decreases messages.len() - i,
    {
        let m = &messages[i];
        let mut j: usize = 0;
        let ghost start = out@;
        while j < m.len()
            invariant
                j <= m.len(),
                out@ == start + m@.take(j as int),
            decreases m.len() - j,
        {
            out.push(m[j]);
            assert(start + m@.take(j + 1) =~= (start + m@.take(j as int)).push(m[j as int]));
            j += 1;
        }
        out.push(NEWLINE);
        proof {
            let vs = views(messages@);
            assert(m@.take(m.len() as int) =~= m@);
            assert(vs[i as int] == m@);
            assert(vs.take(i + 1) =~= vs.take(i as int).push(m@));
            lemma_framed_push(vs.take(i as int), m@);
            assert(out@ =~= start + m@.push(NEWLINE));
        }
        i += 1;
    }
    assert(views(messages@).take(messages.len() as int) =~= views(messages@));
    out
}

/// The records of the segment `data`, in order: the pieces between its
/// newline bytes that hold at least one byte.
pub fn split_records(data: &[u8]) -> (out: Vec<Vec<u8>>)
    ensures
        views(out@) == records(data@),
        out.len() <= data.len(),
{
    let mut out: Vec<Vec<u8>> = Vec::new();
    let mut cur: Vec<u8> = Vec::new();
    let ghost mut done: Seq<Seq<u8>> = Seq::empty();
    let mut i: usize = 0;
    proof {
        assert(data@.take(0) =~= Seq::<u8>::empty());
        assert(fields(data@.take(0)) =~= done.push(cur@));
        reveal(Seq::filter);
        assert(views(out@) =~= done.filter(nonempty()));
    }
    while i < data.len()
        invariant
            i <= data.len(),
            fields(data@.take(i as int)) == done.push(cur@),
            views(out@) == done.filter(nonempty()),
            out.len() + cur.len() <= i,
        decreases data.len() - i,
    {
        let b = data[i];
        proof {
            assert(data@.take(i + 1).drop_last() =~= data@.take(i as int));
            assert(data@.take(i + 1).last() == b);
        }
        if b == NEWLINE {
            let ghost before = cur@;
            proof {
                done.lemma_filter_push(before, nonempty());
            }
            if cur.len() > 0 {
                let ghost old_out = out@;
                out.push(cur);
                cur = Vec::new();
                assert(views(out@) =~= views(old_out).push(before));
            } else {
                assert(before =~= Seq::<u8>::empty());
            }
            proof {
                done = done.push(before);
                assert(fields(data@.take(i + 1)) =~= done.push(cur@));
            }
        } else {
            let ghost before = cur@;
            cur.push(b);
            proof {
                assert(done.push(before).update(done.len() as int, before.push(b)) =~= done.push(
                    cur@,
                ));
            }
        }
        i += 1;
    }
    proof {
        assert(data@.take(data.len() as int) =~= data@);
        done.lemma_filter_push(cur@, nonempty());
    }
    if cur.len() > 0 {
        let ghost old_out = out@;
        let ghost last = cur@;
        out.push(cur);
        assert(views(out@) =~= views(old_out).push(last));
    }
    out
}

} // verus!
