//! The mathematical model of record splitting.
//!
//! A byte stream is a sequence of records, each terminated by the delimiter,
//! followed by a delimiter-less leftover (possibly empty). `complete_records`
//! and `leftover` give that decomposition; `split_records` is the full record
//! list once the stream has ended, with the leftover as a final record when it
//! is non-empty.
//!
//! The two central laws are proved here: concatenating the split reproduces
//! the input exactly (`lemma_round_trip`), and the split does not depend on
//! how the input was cut into physical reads (`lemma_chunking_irrelevant`).

use vstd::prelude::*;
use crate::scanner::{
    match_at, scan_from, first_match, lemma_scan_from_properties, lemma_scan_from_skip,
    lemma_match_in_prefix,
};

verus! {

/// Offset of the first byte after the first delimiter occurrence: the split
/// point between the first complete record and the rest. Greater than
/// `input.len()` exactly when a non-empty `d` does not occur in `input`.
pub open spec fn split_point(input: Seq<u8>, d: Seq<u8>) -> nat {
    first_match(input, d) + d.len()
}

/// `input` holds at least one full occurrence of the non-empty delimiter `d`.
pub open spec fn has_delimiter(input: Seq<u8>, d: Seq<u8>) -> bool {
    d.len() >= 1 && split_point(input, d) <= input.len()
}

/// The delimiter-terminated records of `input`, in order, each including its
/// trailing delimiter.
pub open spec fn complete_records(input: Seq<u8>, d: Seq<u8>) -> Seq<Seq<u8>>
    decreases input.len(),
{
    if has_delimiter(input, d) {
        seq![input.take(split_point(input, d) as int)]
            + complete_records(input.skip(split_point(input, d) as int), d)
    } else {
        Seq::empty()
    }
}

/// The bytes after the last delimiter occurrence: the partial record still
/// awaiting a delimiter (the whole input when `d` never occurs).
pub open spec fn leftover(input: Seq<u8>, d: Seq<u8>) -> Seq<u8>
    decreases input.len(),
{
    if has_delimiter(input, d) {
        leftover(input.skip(split_point(input, d) as int), d)
    } else {
        input
    }
}

/// All records of a finished stream: the complete records, then the leftover
/// as a final delimiter-less record when it is non-empty.
pub open spec fn split_records(input: Seq<u8>, d: Seq<u8>) -> Seq<Seq<u8>> {
    if leftover(input, d).len() > 0 {
        complete_records(input, d).push(leftover(input, d))
    } else {
        complete_records(input, d)
    }
}

/// Concatenation of a sequence of byte records.
pub open spec fn concat_all(rs: Seq<Seq<u8>>) -> Seq<u8>
    decreases rs.len(),
{
    if rs.len() == 0 {
        Seq::empty()
    } else {
        rs[0] + concat_all(rs.skip(1))
    }
}

/// Concatenation distributes over prepending one record.
pub proof fn lemma_concat_all_cons(r: Seq<u8>, rs: Seq<Seq<u8>>)
    ensures
        concat_all(seq![r] + rs) == r + concat_all(rs),
{
    let whole = seq![r] + rs;
    assert(whole[0] == r);
    assert(whole.skip(1) =~= rs);
}

/// Concatenation distributes over appending one record.
pub proof fn lemma_concat_all_push(rs: Seq<Seq<u8>>, r: Seq<u8>)
    ensures
        concat_all(rs.push(r)) == concat_all(rs) + r,
    decreases rs.len(),
{
    if rs.len() == 0 {
        let single = rs.push(r);
        assert(single[0] == r);
        assert(single.skip(1) =~= Seq::<Seq<u8>>::empty());
        assert(concat_all(single.skip(1)) == Seq::<u8>::empty());
        assert(concat_all(single) == r + Seq::<u8>::empty());
        assert(r + Seq::<u8>::empty() =~= r);
        assert(Seq::<u8>::empty() + r =~= r);
    } else {
        assert(rs.push(r).skip(1) =~= rs.skip(1).push(r));
        lemma_concat_all_push(rs.skip(1), r);
        assert(rs.push(r)[0] == rs[0]);
        assert(rs[0] + (concat_all(rs.skip(1)) + r) =~= (rs[0] + concat_all(rs.skip(1))) + r);
    }
}

/// The first split point of a stream with a delimiter is positive and within
/// bounds, and the split there is exact: the first record is `take`, the rest
/// is `skip`.
pub proof fn lemma_split_point_bounds(input: Seq<u8>, d: Seq<u8>)
    requires
        has_delimiter(input, d),
    ensures
        d.len() <= split_point(input, d) <= input.len(),
        1 <= split_point(input, d),
        match_at(input, d, first_match(input, d) as int),
{
    lemma_scan_from_properties(input, d, 0);
}

/// Round trip: splitting a finished stream into records and concatenating
/// them reproduces the input byte for byte — no loss, no duplication, no
/// reordering.
pub proof fn lemma_round_trip(input: Seq<u8>, d: Seq<u8>)
    requires
        d.len() >= 1,
    ensures
        concat_all(split_records(input, d)) == input,
    decreases input.len(),
{
    if has_delimiter(input, d) {
        lemma_split_point_bounds(input, d);
        let sp = split_point(input, d) as int;
        let head = input.take(sp);
        let tail = input.skip(sp);
        lemma_round_trip(tail, d);
        assert(complete_records(input, d) == seq![head] + complete_records(tail, d));
        assert(leftover(input, d) == leftover(tail, d));
        if leftover(tail, d).len() > 0 {
            assert(split_records(input, d)
                =~= seq![head] + complete_records(tail, d).push(leftover(tail, d)));
            lemma_concat_all_cons(head, complete_records(tail, d).push(leftover(tail, d)));
        } else {
            assert(split_records(input, d) =~= seq![head] + complete_records(tail, d));
            lemma_concat_all_cons(head, complete_records(tail, d));
        }
        assert(concat_all(split_records(input, d)) == head + concat_all(split_records(tail, d)));
        assert(head + tail =~= input);
    } else {
        assert(leftover(input, d) == input);
        assert(complete_records(input, d) == Seq::<Seq<u8>>::empty());
        if input.len() > 0 {
            assert(split_records(input, d) == Seq::<Seq<u8>>::empty().push(input));
            lemma_concat_all_push(Seq::<Seq<u8>>::empty(), input);
            assert(concat_all(Seq::<Seq<u8>>::empty()) == Seq::<u8>::empty());
            assert(Seq::<u8>::empty() + input =~= input);
        } else {
            assert(split_records(input, d) == Seq::<Seq<u8>>::empty());
            assert(input =~= Seq::<u8>::empty());
        }
    }
}

/// A match inside the prefix `a` of `a + b` is found first: the scan of the
/// concatenation stops at the same place as the scan of the prefix.
proof fn lemma_scan_concat_prefix(a: Seq<u8>, b: Seq<u8>, d: Seq<u8>, i: nat)
    requires
        d.len() >= 1,
        scan_from(a, d, i) + d.len() <= a.len(),
    ensures
        scan_from(a + b, d, i) == scan_from(a, d, i),
    decreases a.len() + 1 - i,
{
    assert(i + d.len() <= a.len()) by {
        if i + d.len() > a.len() {
            assert(scan_from(a, d, i) == a.len());
        }
    }
    assert((a + b).subrange(i as int, (i + d.len()) as int)
        =~= a.subrange(i as int, (i + d.len()) as int));
    if a.subrange(i as int, (i + d.len()) as int) == d {
        assert(scan_from(a, d, i) == i);
        assert(scan_from(a + b, d, i) == i);
    } else {
        assert(scan_from(a, d, i) == scan_from(a, d, i + 1));
        lemma_scan_concat_prefix(a, b, d, i + 1);
        assert(i + d.len() <= (a + b).len());
        assert(scan_from(a + b, d, i) == scan_from(a + b, d, i + 1));
    }
}

/// Feeding more bytes onto a stream: the records of `a + b` are the records of
/// `a` followed by the records of `leftover(a) + b`, and the leftovers agree.
/// This is what lets a scanner work chunk by chunk, carrying only the leftover
/// across physical reads.
pub proof fn lemma_feed_append(a: Seq<u8>, b: Seq<u8>, d: Seq<u8>)
    requires
        d.len() >= 1,
    ensures
        complete_records(a + b, d)
            == complete_records(a, d) + complete_records(leftover(a, d) + b, d),
        leftover(a + b, d) == leftover(leftover(a, d) + b, d),
    decreases a.len(),
{
    if has_delimiter(a, d) {
        lemma_split_point_bounds(a, d);
        let sp = split_point(a, d) as int;
        lemma_scan_concat_prefix(a, b, d, 0);
        assert(first_match(a + b, d) == first_match(a, d));
        assert(split_point(a + b, d) == split_point(a, d));
        assert(has_delimiter(a + b, d));
        assert((a + b).take(sp) =~= a.take(sp));
        assert((a + b).skip(sp) =~= a.skip(sp) + b);
        lemma_feed_append(a.skip(sp), b, d);
        assert(complete_records(a + b, d)
            == seq![a.take(sp)] + complete_records(a.skip(sp) + b, d));
        assert(complete_records(a, d) == seq![a.take(sp)] + complete_records(a.skip(sp), d));
        assert(leftover(a, d) == leftover(a.skip(sp), d));
        assert((seq![a.take(sp)] + complete_records(a.skip(sp), d))
            + complete_records(leftover(a.skip(sp), d) + b, d)
            =~= seq![a.take(sp)]
            + (complete_records(a.skip(sp), d)
                + complete_records(leftover(a.skip(sp), d) + b, d)));
        assert(leftover(a + b, d) == leftover(a.skip(sp) + b, d));
    } else {
        assert(leftover(a, d) == a);
        assert(complete_records(a, d) == Seq::<Seq<u8>>::empty());
        assert(leftover(a, d) + b =~= a + b);
        assert(Seq::<Seq<u8>>::empty() + complete_records(a + b, d)
            =~= complete_records(a + b, d));
    }
}

/// The records produced by feeding a stream chunk by chunk, starting from a
/// held partial record.
pub open spec fn feed_records(held: Seq<u8>, chunks: Seq<Seq<u8>>, d: Seq<u8>) -> Seq<Seq<u8>>
    decreases chunks.len(),
{
    if chunks.len() == 0 {
        Seq::empty()
    } else {
        complete_records(held + chunks[0], d)
            + feed_records(leftover(held + chunks[0], d), chunks.skip(1), d)
    }
}

/// The partial record held after feeding a stream chunk by chunk.
pub open spec fn feed_leftover(held: Seq<u8>, chunks: Seq<Seq<u8>>, d: Seq<u8>) -> Seq<u8>
    decreases chunks.len(),
{
    if chunks.len() == 0 {
        held
    } else {
        feed_leftover(leftover(held + chunks[0], d), chunks.skip(1), d)
    }
}

/// Feeding chunk by chunk from a held delimiter-free prefix equals splitting
/// the whole stream at once.
pub proof fn lemma_feed_chunks(held: Seq<u8>, chunks: Seq<Seq<u8>>, d: Seq<u8>)
    requires
        d.len() >= 1,
        !has_delimiter(held, d),
    ensures
        feed_records(held, chunks, d) == complete_records(held + concat_all(chunks), d),
        feed_leftover(held, chunks, d) == leftover(held + concat_all(chunks), d),
    decreases chunks.len(),
{
    if chunks.len() == 0 {
        assert(held + concat_all(chunks) =~= held);
        assert(complete_records(held, d) == Seq::<Seq<u8>>::empty());
        assert(leftover(held, d) == held);
    } else {
        let c0 = chunks[0];
        let rest = chunks.skip(1);
        lemma_leftover_unsplit(held + c0, d);
        lemma_feed_chunks(leftover(held + c0, d), rest, d);
        lemma_feed_append(held + c0, concat_all(rest), d);
        assert((held + c0) + concat_all(rest) =~= held + (c0 + concat_all(rest)));
        assert(concat_all(chunks) == c0 + concat_all(rest));
    }
}

/// A stream already known to hold no delimiter splits into no complete
/// records, and is its own leftover.
pub proof fn lemma_leftover_unsplit(input: Seq<u8>, d: Seq<u8>)
    requires
        d.len() >= 1,
    ensures
        !has_delimiter(leftover(input, d), d),
        complete_records(leftover(input, d), d) == Seq::<Seq<u8>>::empty(),
        leftover(leftover(input, d), d) == leftover(input, d),
    decreases input.len(),
{
    if has_delimiter(input, d) {
        lemma_split_point_bounds(input, d);
        lemma_leftover_unsplit(input.skip(split_point(input, d) as int), d);
    }
}

/// Every complete record is exactly one delimiter-terminated unit: it ends
/// with the delimiter, and that trailing occurrence is the first one in the
/// record.
pub proof fn lemma_record_shape(input: Seq<u8>, d: Seq<u8>, k: int)
    requires
        d.len() >= 1,
        0 <= k < complete_records(input, d).len(),
    ensures
        complete_records(input, d)[k].len() >= d.len(),
        first_match(complete_records(input, d)[k], d)
            == complete_records(input, d)[k].len() - d.len(),
        match_at(
            complete_records(input, d)[k],
            d,
            complete_records(input, d)[k].len() - d.len() as int,
        ),
    decreases input.len(),
{
    lemma_split_point_bounds(input, d);
    let fm = first_match(input, d) as int;
    let sp = split_point(input, d) as int;
    if k == 0 {
        let rec = input.take(sp);
        assert(rec.subrange(fm, sp) =~= input.subrange(fm, sp));
        assert(match_at(rec, d, fm));
        assert forall|j: int| 0 <= j < fm implies !match_at(rec, d, j) by {
            if match_at(rec, d, j) {
                lemma_match_in_prefix(rec, input.skip(sp), d, j);
                assert(rec + input.skip(sp) =~= input);
                assert(match_at(input, d, j));
                lemma_scan_from_properties(input, d, 0);
            }
        }
        lemma_scan_from_skip(rec, d, 0, fm as nat);
        assert(scan_from(rec, d, fm as nat) == fm);
    } else {
        lemma_record_shape(input.skip(sp), d, k - 1);
    }
}

/// An empty stream yields no records at all.
pub proof fn lemma_empty_input(d: Seq<u8>)
    requires
        d.len() >= 1,
    ensures
        split_records(Seq::<u8>::empty(), d) == Seq::<Seq<u8>>::empty(),
{
    assert(scan_from(Seq::<u8>::empty(), d, 0) == 0);
}

/// The complete records and the leftover together carry every input byte:
/// concatenating the records and appending the leftover reproduces the input.
pub proof fn lemma_records_leftover_concat(input: Seq<u8>, d: Seq<u8>)
    requires
        d.len() >= 1,
    ensures
        concat_all(complete_records(input, d)) + leftover(input, d) == input,
{
    lemma_round_trip(input, d);
    if leftover(input, d).len() > 0 {
        lemma_concat_all_push(complete_records(input, d), leftover(input, d));
    } else {
        assert(leftover(input, d) =~= Seq::<u8>::empty());
        assert(concat_all(complete_records(input, d)) + Seq::<u8>::empty()
            =~= concat_all(complete_records(input, d)));
    }
}

/// Concatenating one more chunk of a cut stream extends the concatenation of
/// the prefix by that chunk.
pub proof fn lemma_concat_take_step(chunks: Seq<Seq<u8>>, i: int)
    requires
        0 <= i < chunks.len(),
    ensures
        concat_all(chunks.take(i + 1)) == concat_all(chunks.take(i)) + chunks[i],
{
    assert(chunks.take(i + 1) =~= chunks.take(i).push(chunks[i]));
    lemma_concat_all_push(chunks.take(i), chunks[i]);
}

/// A stream without a full delimiter occurrence has no match anywhere.
pub proof fn lemma_no_delimiter_no_match(input: Seq<u8>, d: Seq<u8>)
    requires
        d.len() >= 1,
        !has_delimiter(input, d),
    ensures
        forall|j: int| !match_at(input, d, j),
{
    lemma_scan_from_properties(input, d, 0);
    assert(first_match(input, d) == input.len()) by {
        if first_match(input, d) < input.len() {
            assert(match_at(input, d, first_match(input, d) as int));
        }
    }
    assert forall|j: int| !match_at(input, d, j) by {
        if 0 <= j {
            assert(!match_at(input, d, j));
        }
    }
}

/// A stream with no match anywhere holds no delimiter.
pub proof fn lemma_no_match_no_delimiter(input: Seq<u8>, d: Seq<u8>)
    requires
        d.len() >= 1,
        forall|j: int| 0 <= j ==> !match_at(input, d, j),
    ensures
        !has_delimiter(input, d),
        first_match(input, d) == input.len(),
{
    lemma_scan_from_properties(input, d, 0);
    if first_match(input, d) < input.len() {
        assert(match_at(input, d, first_match(input, d) as int));
    }
}

/// Chunking irrelevance: however a stream is cut into physical reads, feeding
/// the pieces in order produces exactly the records and leftover of the whole
/// stream. The records a reader emits do not depend on read granularity.
pub proof fn lemma_chunking_irrelevant(chunks: Seq<Seq<u8>>, d: Seq<u8>)
    requires
        d.len() >= 1,
    ensures
        feed_records(Seq::empty(), chunks, d) == complete_records(concat_all(chunks), d),
        feed_leftover(Seq::empty(), chunks, d) == leftover(concat_all(chunks), d),
{
    assert(!has_delimiter(Seq::<u8>::empty(), d)) by {
        assert(scan_from(Seq::<u8>::empty(), d, 0) == 0);
    }
    lemma_feed_chunks(Seq::empty(), chunks, d);
    assert(Seq::<u8>::empty() + concat_all(chunks) =~= concat_all(chunks));
}

} // verus!
