//! The framing of the user journal: one record per user, the records
//! separated by carriage return and line feed.

use crate::bytes::append_bytes;
use vstd::prelude::*;
use vstd::slice::*;

verus! {

/// The two bytes that separate records.
pub open spec fn delimiter() -> Seq<u8> {
    seq![13u8, 10u8]
}

/// Whether a delimiter starts at the place `i` of `bytes`.
pub open spec fn delimiter_at(bytes: Seq<u8>, i: int) -> bool {
    0 <= i && i + 1 < bytes.len() && bytes[i] == 13u8 && bytes[i + 1] == 10u8
}

/// Whether `bytes` holds no delimiter.
pub open spec fn delimiter_free(bytes: Seq<u8>) -> bool {
    forall|i: int| !delimiter_at(bytes, i)
}

/// Whether no record holds a delimiter.
pub open spec fn all_delimiter_free(records: Seq<Seq<u8>>) -> bool {
    forall|i: int| 0 <= i < records.len() ==> delimiter_free(#[trigger] records[i])
}

/// The records in order with a delimiter between each two neighbours.
pub open spec fn joined(records: Seq<Seq<u8>>) -> Seq<u8>
    decreases records.len(),
{
    if records.len() == 0 {
        Seq::<u8>::empty()
    } else if records.len() == 1 {
        records[0]
    } else {
        joined(records.drop_last()) + delimiter() + records.last()
    }
}

/// Whether `records` is what the journal `text` holds: joined they give the
/// text, none of them holds a delimiter, and an empty journal holds none.
pub open spec fn is_framing_of(records: Seq<Seq<u8>>, text: Seq<u8>) -> bool {
    &&& joined(records) == text
    &&& all_delimiter_free(records)
    &&& (records.len() == 0 <==> text.len() == 0)
}

/// The contents of the records, place by place.
pub open spec fn records_view(records: Seq<Vec<u8>>) -> Seq<Seq<u8>> {
    Seq::new(records.len(), |i: int| records[i]@)
}

/// Cuts the text of a journal into its records.
pub fn split_records(text: &[u8]) -> (records: Vec<Vec<u8>>)
    ensures
        is_framing_of(records_view(records@), text@),
{
    let n: usize = text.len();
    let mut out: Vec<Vec<u8>> = Vec::new();
    if n == 0 {
        assert(records_view(out@) =~= Seq::<Seq<u8>>::empty());
        assert(text@ =~= Seq::<u8>::empty());
        return out;
    }
    let mut start: usize = 0;
    let mut i: usize = 0;
    while i < n
        invariant
            n == text@.len(),
            start <= i <= n + 1,
            start <= n,
            forall|k: int| start <= k < i ==> !delimiter_at(text@, k),
            all_delimiter_free(records_view(out@)),
            out@.len() == 0 ==> start == 0,
            out@.len() > 0 ==> text@.take(start as int) == joined(records_view(out@)) + delimiter(),
        decreases n + 1 - i,
    {
        if text[i] == 13u8 && i + 1 < n && text[i + 1] == 10u8 {
            let record = slice_to_vec(slice_subrange(text, start, i));
            let ghost before = records_view(out@);
            out.push(record);
            proof {
                let after = records_view(out@);
                assert(after =~= before.push(text@.subrange(start as int, i as int)));
                assert(after.drop_last() =~= before);
                lemma_subrange_delimiter_free(text@, start as int, i as int);
                assert(text@.take(i + 2) =~= text@.take(i as int) + delimiter());
                if before.len() == 0 {
                    assert(text@.take(i as int) =~= text@.subrange(0, i as int));
                } else {
                    assert(text@.take(i as int) =~= text@.take(start as int) + text@.subrange(
                        start as int,
                        i as int,
                    ));
                }
            }
            start = i + 2;
            i = i + 2;
        } else {
            i = i + 1;
        }
    }
    let record = slice_to_vec(slice_subrange(text, start, n));
    let ghost before = records_view(out@);
    out.push(record);
    proof {
        let after = records_view(out@);
        assert(after =~= before.push(text@.subrange(start as int, n as int)));
        assert(after.drop_last() =~= before);
        assert forall|k: int| start <= k < n implies !delimiter_at(text@, k) by {
            if k >= i {
                assert(k + 1 >= n);
            }
        }
        lemma_subrange_delimiter_free(text@, start as int, n as int);
        if before.len() == 0 {
            assert(text@ =~= text@.subrange(0, n as int));
        } else {
            assert(text@ =~= text@.take(start as int) + text@.subrange(start as int, n as int));
        }
    }
    out
}

/// Writes the records of a journal one after another, a delimiter between
/// each two.
pub fn join_records(records: &Vec<Vec<u8>>) -> (text: Vec<u8>)
    ensures
        text@ == joined(records_view(records@)),
{
    let ghost all = records_view(records@);
    let mut out: Vec<u8> = Vec::new();
    let mut i: usize = 0;
    assert(all.take(0) =~= Seq::<Seq<u8>>::empty());
    while i < records.len()
        invariant
            all == records_view(records@),
            i <= records@.len(),
            out@ == joined(all.take(i as int)),
        decreases records@.len() - i,
    {
        let ghost base = out@;
        if i > 0 {
            out.push(13u8);
            out.push(10u8);
        }
        let ghost head = out@;
        assert(head =~= if i > 0 {
            base + delimiter()
        } else {
            base
        });
        let record = &records[i];
        append_bytes(&mut out, record.as_slice());
        proof {
            assert(all[i as int] == record@);
            let next = all.take(i + 1);
            assert(next.drop_last() =~= all.take(i as int));
            assert(next.last() == record@);
            if i == 0 {
                assert(base =~= Seq::<u8>::empty());
                assert(out@ =~= record@);
                assert(next[0] == record@);
            }
        }
        i = i + 1;
    }
    assert(all.take(i as int) =~= all);
    out
}

/// A stretch of bytes in which no delimiter starts holds none.
proof fn lemma_subrange_delimiter_free(text: Seq<u8>, from: int, to: int)
    requires
        0 <= from <= to <= text.len(),
        forall|k: int| from <= k < to ==> !delimiter_at(text, k),
    ensures
        delimiter_free(text.subrange(from, to)),
{
    let part = text.subrange(from, to);
    assert forall|k: int| !delimiter_at(part, k) by {
        if delimiter_at(part, k) {
            assert(part[k] == text[from + k]);
            assert(part[k + 1] == text[from + k + 1]);
            assert(delimiter_at(text, from + k));
        }
    }
}

/// In the text of two or more records, a delimiter starts where the last
/// record's begins, and none starts after it.
proof fn lemma_last_delimiter(records: Seq<Seq<u8>>)
    requires
        records.len() >= 2,
        delimiter_free(records.last()),
    ensures
        joined(records).len() == joined(records.drop_last()).len() + 2 + records.last().len(),
        delimiter_at(joined(records), joined(records.drop_last()).len() as int),
        forall|k: int| k > joined(records.drop_last()).len() ==> !delimiter_at(joined(records), k),
{
    let text = joined(records);
    let front = joined(records.drop_last());
    let last = records.last();
    let m = front.len() as int;
    assert(text == front + delimiter() + last);
    assert(text[m] == 13u8);
    assert(text[m + 1] == 10u8);
    assert forall|k: int| k > m implies !delimiter_at(text, k) by {
        if delimiter_at(text, k) {
            if k == m + 1 {
                assert(text[k] == 10u8);
            } else {
                assert(text[k] == last[k - m - 2]);
                assert(text[k + 1] == last[k - m - 1]);
                assert(delimiter_at(last, k - m - 2));
            }
        }
    }
}

/// Two lists of delimiter-free records that give the same text are the same
/// list.
pub proof fn lemma_joined_injective(a: Seq<Seq<u8>>, b: Seq<Seq<u8>>)
    requires
        a.len() > 0,
        b.len() > 0,
        all_delimiter_free(a),
        all_delimiter_free(b),
        joined(a) == joined(b),
    ensures
        a == b,
    decreases a.len(),
{
    let text = joined(a);
    if a.len() == 1 && b.len() == 1 {
        assert(a =~= b);
    } else if a.len() == 1 {
        lemma_last_delimiter(b);
        assert(delimiter_free(a[0]));
        assert(false);
    } else if b.len() == 1 {
        lemma_last_delimiter(a);
        assert(delimiter_free(b[0]));
        assert(false);
    } else {
        lemma_last_delimiter(a);
        lemma_last_delimiter(b);
        let fa = joined(a.drop_last());
        let fb = joined(b.drop_last());
        assert(fa.len() == fb.len());
        assert(text == fa + delimiter() + a.last());
        assert(text == fb + delimiter() + b.last());
        assert(fa =~= text.take(fa.len() as int));
        assert(fb =~= text.take(fa.len() as int));
        assert(a.last() =~= text.skip(fa.len() as int + 2));
        assert(b.last() =~= text.skip(fa.len() as int + 2));
        assert forall|i: int| 0 <= i < a.drop_last().len() implies delimiter_free(
            #[trigger] a.drop_last()[i],
        ) by {
            assert(a.drop_last()[i] == a[i]);
        }
        assert forall|i: int| 0 <= i < b.drop_last().len() implies delimiter_free(
            #[trigger] b.drop_last()[i],
        ) by {
            assert(b.drop_last()[i] == b[i]);
        }
        lemma_joined_injective(a.drop_last(), b.drop_last());
        assert(a =~= a.drop_last().push(a.last()));
        assert(b =~= b.drop_last().push(b.last()));
    }
}

/// Whether a list of records can be written as a journal and read back:
/// no record holds a delimiter, and the list is not one empty record, whose
/// text would be the empty journal.
pub open spec fn framable(records: Seq<Seq<u8>>) -> bool {
    all_delimiter_free(records) && !(records.len() == 1 && records[0].len() == 0)
}

/// A journal holds one list of records only.
pub proof fn law_framing_unique(a: Seq<Seq<u8>>, b: Seq<Seq<u8>>, text: Seq<u8>)
    requires
        is_framing_of(a, text),
        is_framing_of(b, text),
    ensures
        a == b,
{
    if a.len() == 0 {
        assert(a =~= b);
    } else {
        lemma_joined_injective(a, b);
    }
}

/// Records that can be framed are what their joined text holds.
pub proof fn lemma_framable(records: Seq<Seq<u8>>)
    requires
        framable(records),
    ensures
        is_framing_of(records, joined(records)),
{
    if records.len() >= 2 {
        lemma_last_delimiter(records);
    }
}

/// What is cut from the text of a journal is what was written into it:
/// records that can be framed, joined and cut again, come back unchanged.
pub proof fn law_framing_round_trip(records: Seq<Seq<u8>>, back: Seq<Seq<u8>>)
    requires
        framable(records),
        is_framing_of(back, joined(records)),
    ensures
        back == records,
{
    lemma_framable(records);
    law_framing_unique(back, records, joined(records));
}

/// Tests whether a delimiter stands somewhere in `bytes`.
pub fn holds_delimiter(bytes: &[u8]) -> (r: bool)
    ensures
        r == !delimiter_free(bytes@),
{
    let n: usize = bytes.len();
    let mut i: usize = 0;
    while i < n
        invariant
            n == bytes@.len(),
            i <= n,
            forall|k: int| k < i ==> !delimiter_at(bytes@, k),
        decreases n - i,
    {
        if bytes[i] == 13u8 && i + 1 < n && bytes[i + 1] == 10u8 {
            assert(delimiter_at(bytes@, i as int));
            return true;
        }
        i = i + 1;
    }
    false
}

/// Writes the text of a journal for records that can be read back from it;
/// for any other list there is no such text.
pub fn frame_records(records: &Vec<Vec<u8>>) -> (r: Option<Vec<u8>>)
    ensures
        match r {
            Some(text) => framable(records_view(records@)) && text@ == joined(
                records_view(records@),
            ) && is_framing_of(records_view(records@), text@),
            None => !framable(records_view(records@)),
        },
{
    let ghost all = records_view(records@);
    if records.len() == 1 && records[0].len() == 0 {
        assert(all[0] == records@[0]@);
        return None;
    }
    let mut i: usize = 0;
    while i < records.len()
        invariant
            i <= records@.len(),
            all == records_view(records@),
            forall|k: int| 0 <= k < i ==> delimiter_free(#[trigger] all[k]),
        decreases records@.len() - i,
    {
        if holds_delimiter(records[i].as_slice()) {
            assert(all[i as int] == records@[i as int]@);
            return None;
        }
        assert(all[i as int] == records@[i as int]@);
        i = i + 1;
    }
    proof {
        if records@.len() == 1 {
            assert(all[0] == records@[0]@);
        }
        lemma_framable(all);
    }
    Some(join_records(records))
}

} // verus!
