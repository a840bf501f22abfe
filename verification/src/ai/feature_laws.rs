//! What the features of a sample must count.

use crate::ai::features::{
    bucket_of, byte_count, byte_sum, distinct_below, is_string_byte, printable_count, run_before,
    share, string_count, strings_ended, timestamp_score,
};
use crate::monotone::lemma_ratio_monotone;
use crate::score::{is_power_of_two, lemma_ratio_capped, Score, ONE_UNITS};
use crate::text::{lowered, trimmed};
use vstd::prelude::*;

verus! {

/// Counts and sums of two stretches of bytes add up, in whatever order they stand.
pub proof fn law_counts_add_up(first: Seq<u8>, second: Seq<u8>, b: u8)
    ensures
        byte_count(first + second, b) == byte_count(first, b) + byte_count(second, b),
        byte_sum(first + second) == byte_sum(first) + byte_sum(second),
        printable_count(first + second) == printable_count(first) + printable_count(second),
    decreases second.len(),
{
    if second.len() == 0 {
        assert(first + second =~= first);
    } else {
        law_counts_add_up(first, second.drop_last(), b);
        assert((first + second).drop_last() =~= first + second.drop_last());
        assert((first + second).last() == second.last());
    }
}

/// A byte counts once for itself, adds its value, and is readable from space to tilde or as
/// white space.
pub proof fn law_single_bytes_count(x: u8, b: u8)
    ensures
        byte_count(seq![x], b) == if x == b {
            1nat
        } else {
            0nat
        },
        byte_sum(seq![x]) == x,
        printable_count(seq![x]) == if 32 <= x <= 126 || x == 9 || x == 10 || x == 12 || x == 13 {
            1nat
        } else {
            0nat
        },
        byte_count(Seq::empty(), b) == 0,
        byte_sum(Seq::empty()) == 0,
{
    assert(seq![x].drop_last() =~= Seq::<u8>::empty());
    assert(seq![x].last() == x);
    assert(byte_count(Seq::<u8>::empty(), b) == 0);
    assert(byte_sum(Seq::<u8>::empty()) == 0);
    assert(printable_count(Seq::<u8>::empty()) == 0);
}

/// A byte that occurs is counted, and one that does not is not.
pub proof fn law_bytes_that_occur_are_counted(blob: Seq<u8>, b: u8)
    ensures
        byte_count(blob, b) > 0 <==> blob.contains(b),
        byte_count(blob, b) <= blob.len(),
    decreases blob.len(),
{
    if blob.len() > 0 {
        let front = blob.drop_last();
        law_bytes_that_occur_are_counted(front, b);
        if front.contains(b) {
            let i = front.index_of(b);
            assert(blob[i] == b);
        }
        if blob.last() == b {
            assert(blob[blob.len() - 1] == b);
        }
        if blob.contains(b) {
            let i = blob.index_of(b);
            if i < front.len() {
                assert(front[i] == b);
            }
        }
    }
}

proof fn lemma_distinct_grows(few: Seq<u8>, many: Seq<u8>, upto: int)
    requires
        upto <= 256,
        forall|b: u8| few.contains(b) ==> #[trigger] many.contains(b),
    ensures
        distinct_below(few, upto) <= distinct_below(many, upto),
    decreases upto,
{
    if upto > 0 {
        lemma_distinct_grows(few, many, upto - 1);
        law_bytes_that_occur_are_counted(few, (upto - 1) as u8);
        law_bytes_that_occur_are_counted(many, (upto - 1) as u8);
    }
}

/// More bytes have no fewer values.
pub proof fn law_more_bytes_have_no_fewer_values(a: Seq<u8>, blob: Seq<u8>, b: Seq<u8>)
    ensures
        distinct_below(blob, 256) <= distinct_below(a + blob + b, 256),
{
    let many = a + blob + b;
    assert forall|x: u8| blob.contains(x) implies #[trigger] many.contains(x) by {
        let i = blob.index_of(x);
        assert(many[a.len() + i] == x);
    }
    lemma_distinct_grows(blob, many, 256);
}

proof fn lemma_run(blob: Seq<u8>, from: int, at: int)
    requires
        0 <= from <= at <= blob.len(),
        from == 0 || !is_string_byte(blob[from - 1]),
        forall|i: int| from <= i < at ==> is_string_byte(#[trigger] blob[i]),
    ensures
        run_before(blob, at) == at - from,
    decreases at - from,
{
    if at > from {
        assert(is_string_byte(blob[at - 1]));
        lemma_run(blob, from, at - 1);
    }
}

proof fn lemma_no_end(blob: Seq<u8>, from: int, at: int)
    requires
        0 <= from <= at <= blob.len(),
        forall|i: int| from <= i < at ==> is_string_byte(#[trigger] blob[i]),
    ensures
        strings_ended(blob, at) == strings_ended(blob, from),
    decreases at - from,
{
    if at > from {
        assert(is_string_byte(blob[at - 1]));
        lemma_no_end(blob, from, at - 1);
    }
}

/// A readable text counts as one string from four bytes on, and as none below.
pub proof fn law_strings_have_four_bytes(text: Seq<u8>)
    requires
        forall|i: int| 0 <= i < text.len() ==> 32 <= #[trigger] text[i] <= 126,
    ensures
        string_count(text) == if text.len() >= 4 {
            1nat
        } else {
            0nat
        },
{
    assert forall|i: int| 0 <= i < text.len() implies is_string_byte(#[trigger] text[i]) by {}
    lemma_run(text, 0, text.len() as int);
    lemma_no_end(text, 0, text.len() as int);
}

/// A link time that is missing or more than thirty days ahead is wholly odd, one of more than
/// twenty years ago three quarters, and any other not at all.
pub proof fn law_odd_link_times_score(timestamp: u32, now: u64)
    ensures
        timestamp == 0 || timestamp > now + 30 * 24 * 3600 ==> timestamp_score(timestamp, now)
            == Score::one(),
        0 < timestamp && timestamp + 20 * 365 * 24 * 3600 < now ==> timestamp_score(timestamp, now)
            == Score::of_hundredths(75),
        0 < timestamp && timestamp <= now && now <= timestamp + 20 * 365 * 24 * 3600
            ==> timestamp_score(timestamp, now) == Score::zero(),
{
}

/// Shares keep the order of their numbers and reach all at the whole.
pub proof fn law_shares_keep_order(few: nat, many: nat, of: nat)
    requires
        few <= many,
        of > 0,
    ensures
        share(few, of).units <= share(many, of).units,
        share(many, of).units <= ONE_UNITS,
        many >= of ==> share(many, of) == Score::one(),
{
    reveal_with_fuel(is_power_of_two, 2);
    if few < of {
        lemma_ratio_capped(few, of, 1);
    }
    if many < of {
        lemma_ratio_capped(many, of, 1);
        lemma_ratio_monotone(few, many, of);
    }
}

/// Names that differ in case or in white space around them fall into one bucket, and every
/// bucket is one of those that there are.
pub proof fn law_buckets_go_by_the_plain_name(a: Seq<char>, b: Seq<char>, buckets: usize)
    ensures
        lowered(trimmed(a)) == lowered(trimmed(b)) ==> bucket_of(a, buckets) == bucket_of(
            b,
            buckets,
        ),
        buckets > 0 ==> bucket_of(a, buckets) < buckets,
{
}

} // verus!
