//! What edit distances and common subsequences count.

use crate::hash::distance::{
    common_subsequence, edit_distance, law_distance_is_symmetric, law_distance_zero_means_equal,
    lemma_distance_bound, seven_at, share_seven, short_runs,
};
use vstd::prelude::*;

verus! {

/// One byte is inserted, deleted or replaced.
pub open spec fn one_edit(a: Seq<u8>, b: Seq<u8>) -> bool {
    exists|head: Seq<u8>, tail: Seq<u8>, x: u8, y: u8| #[trigger]
        edited_there(a, b, head, tail, x, y)
}

pub open spec fn edited_there(
    a: Seq<u8>,
    b: Seq<u8>,
    head: Seq<u8>,
    tail: Seq<u8>,
    x: u8,
    y: u8,
) -> bool {
    ||| a == head + tail && b == head + seq![x] + tail
    ||| a == head + seq![x] + tail && b == head + tail
    ||| a == head + seq![x] + tail && b == head + seq![y] + tail
}

/// One more byte in one string changes the distance by one at most.
proof fn lemma_one_more_byte(a: Seq<u8>, b: Seq<u8>, x: u8)
    ensures
        edit_distance(a.push(x), b) <= edit_distance(a, b) + 1,
        edit_distance(a, b) <= edit_distance(a.push(x), b) + 1,
    decreases a.len() + b.len(),
{
    assert(a.push(x).drop_last() =~= a);
    if b.len() > 0 {
        let c = b.drop_last();
        let y = b.last();
        assert(c.push(y) =~= b);
        lemma_one_more_byte(c, a, y);
        law_distance_is_symmetric(a, b);
        law_distance_is_symmetric(a, c);
        if y != x {
            lemma_one_more_byte(a, c, x);
        }
    }
}

proof fn lemma_distance_of_lengths(a: Seq<u8>, b: Seq<u8>)
    ensures
        edit_distance(a, b) + a.len() >= b.len(),
        edit_distance(a, b) + b.len() >= a.len(),
    decreases a.len() + b.len(),
{
    if a.len() > 0 && b.len() > 0 {
        lemma_distance_of_lengths(a.drop_last(), b.drop_last());
        lemma_distance_of_lengths(a.drop_last(), b);
        lemma_distance_of_lengths(a, b.drop_last());
    }
}

/// A detour is never shorter.
pub proof fn law_distance_has_no_shortcuts(a: Seq<u8>, b: Seq<u8>, c: Seq<u8>)
    ensures
        edit_distance(a, c) <= edit_distance(a, b) + edit_distance(b, c),
    decreases a.len() + b.len() + c.len(),
{
    lemma_distance_of_lengths(a, b);
    lemma_distance_of_lengths(b, c);
    lemma_distance_bound(a, c);
    if a.len() > 0 && b.len() > 0 && c.len() > 0 {
        let a1 = a.drop_last();
        let b1 = b.drop_last();
        let c1 = c.drop_last();
        assert(a1.push(a.last()) =~= a);
        assert(c1.push(c.last()) =~= c);
        lemma_one_more_byte(a1, c, a.last());
        lemma_one_more_byte(c1, a, c.last());
        law_distance_is_symmetric(a, c);
        law_distance_is_symmetric(a, c1);
        law_distance_has_no_shortcuts(a1, b1, c1);
        law_distance_has_no_shortcuts(a1, b1, c);
        law_distance_has_no_shortcuts(a1, b, c);
        law_distance_has_no_shortcuts(a, b, c1);
        law_distance_has_no_shortcuts(a, b1, c1);
        law_distance_has_no_shortcuts(a, b1, c);
    }
}

proof fn lemma_same_tail(a: Seq<u8>, b: Seq<u8>, tail: Seq<u8>)
    ensures
        edit_distance(a + tail, b + tail) == edit_distance(a, b),
    decreases tail.len(),
{
    if tail.len() == 0 {
        assert(a + tail =~= a);
        assert(b + tail =~= b);
    } else {
        lemma_same_tail(a, b, tail.drop_last());
        assert((a + tail).drop_last() =~= a + tail.drop_last());
        assert((b + tail).drop_last() =~= b + tail.drop_last());
    }
}

/// One edit takes a string no further than one away from itself.
pub proof fn law_one_edit_is_one_apart(a: Seq<u8>, b: Seq<u8>)
    requires
        one_edit(a, b),
    ensures
        edit_distance(a, b) <= 1,
{
    let (head, tail, x, y) = choose|head: Seq<u8>, tail: Seq<u8>, x: u8, y: u8| #[trigger]
        edited_there(a, b, head, tail, x, y);
    let more = head.push(x);
    let other = head.push(y);
    assert(head + seq![x] =~= more);
    assert(head + seq![y] =~= other);
    lemma_same_tail(head, more, tail);
    lemma_same_tail(more, head, tail);
    lemma_same_tail(more, other, tail);
    law_distance_zero_means_equal(head, head);
    lemma_one_more_byte(head, head, x);
    law_distance_is_symmetric(head, more);
    assert(more.drop_last() =~= head);
    assert(other.drop_last() =~= head);
}

/// Where two strings are apart, some edit brings them one step closer. So the distance is the
/// least number of edits from one to the other.
pub proof fn law_some_edit_comes_closer(a: Seq<u8>, b: Seq<u8>) -> (closer: Seq<u8>)
    requires
        edit_distance(a, b) > 0,
    ensures
        one_edit(a, closer),
        edit_distance(closer, b) + 1 == edit_distance(a, b),
    decreases a.len() + b.len(),
{
    let none = Seq::<u8>::empty();
    if a.len() == 0 {
        let y = b.last();
        let closer = seq![y];
        assert(closer.drop_last() =~= none);
        assert(edit_distance(none, b.drop_last()) == b.len() - 1);
        assert(edit_distance(closer, b) == edit_distance(closer.drop_last(), b.drop_last()));
        assert(edited_there(a, closer, none, none, y, y)) by {
            assert(a =~= none + none);
            assert(closer =~= none + seq![y] + none);
        }
        closer
    } else if b.len() == 0 {
        let closer = a.drop_last();
        let x = a.last();
        assert(edit_distance(closer, b) == closer.len());
        assert(edited_there(a, closer, closer, none, x, x)) by {
            assert(a =~= closer + seq![x] + none);
            assert(closer =~= closer + none);
        }
        closer
    } else {
        let a1 = a.drop_last();
        let b1 = b.drop_last();
        let x = a.last();
        let y = b.last();
        if x == y {
            let part = law_some_edit_comes_closer(a1, b1);
            let closer = part.push(x);
            assert(closer.drop_last() =~= part);
            let (head, tail, u, v) = choose|head: Seq<u8>, tail: Seq<u8>, u: u8, v: u8| #[trigger]
                edited_there(a1, part, head, tail, u, v);
            assert(edited_there(a, closer, head, tail.push(x), u, v)) by {
                assert(a =~= a1.push(x));
                assert(head + tail.push(x) =~= (head + tail).push(x));
                assert(head + seq![u] + tail.push(x) =~= (head + seq![u] + tail).push(x));
                assert(head + seq![v] + tail.push(x) =~= (head + seq![v] + tail).push(x));
            }
            closer
        } else if edit_distance(a, b) == 1 + edit_distance(a1, b1) {
            let closer = a1.push(y);
            assert(closer.drop_last() =~= a1);
            assert(edited_there(a, closer, a1, none, x, y)) by {
                assert(a =~= a1 + seq![x] + none);
                assert(closer =~= a1 + seq![y] + none);
            }
            closer
        } else if edit_distance(a, b) == 1 + edit_distance(a1, b) {
            assert(edited_there(a, a1, a1, none, x, x)) by {
                assert(a =~= a1 + seq![x] + none);
                assert(a1 =~= a1 + none);
            }
            a1
        } else {
            let closer = a.push(y);
            assert(closer.drop_last() =~= a);
            assert(edited_there(a, closer, a, none, y, y)) by {
                assert(a =~= a + none);
                assert(closer =~= a + seq![y] + none);
            }
            closer
        }
    }
}

/// Bytes at rising places in both strings are equal, pair by pair.
pub open spec fn pairs_up(a: Seq<u8>, b: Seq<u8>, in_a: Seq<int>, in_b: Seq<int>) -> bool {
    &&& in_a.len() == in_b.len()
    &&& forall|k: int|
        0 <= k < in_a.len() ==> 0 <= #[trigger] in_a[k] < a.len() && 0 <= in_b[k] < b.len()
            && a[in_a[k]] == b[in_b[k]]
    &&& forall|j: int, k: int| 0 <= j < k < in_a.len() ==> #[trigger] in_a[j] < #[trigger] in_a[k]
    &&& forall|j: int, k: int| 0 <= j < k < in_b.len() ==> #[trigger] in_b[j] < #[trigger] in_b[k]
}

/// No common subsequence is longer.
pub proof fn law_no_common_subsequence_is_longer(
    a: Seq<u8>,
    b: Seq<u8>,
    in_a: Seq<int>,
    in_b: Seq<int>,
)
    requires
        pairs_up(a, b, in_a, in_b),
    ensures
        in_a.len() <= common_subsequence(a, b),
    decreases a.len() + b.len(),
{
    if in_a.len() > 0 {
        let n = in_a.len() - 1;
        assert(0 <= in_a[n] < a.len() && 0 <= in_b[n] < b.len());
        if a.last() == b.last() {
            let xs = in_a.drop_last();
            let ys = in_b.drop_last();
            assert forall|k: int| 0 <= k < xs.len() implies 0 <= #[trigger] xs[k]
                < a.drop_last().len() && 0 <= ys[k] < b.drop_last().len() && a.drop_last()[xs[k]]
                == b.drop_last()[ys[k]] by {
                assert(in_a[k] < in_a[n]);
                assert(in_b[k] < in_b[n]);
            }
            law_no_common_subsequence_is_longer(a.drop_last(), b.drop_last(), xs, ys);
        } else if in_a[n] < a.len() - 1 {
            assert forall|k: int| 0 <= k < in_a.len() implies 0 <= #[trigger] in_a[k]
                < a.drop_last().len() && 0 <= in_b[k] < b.len() && a.drop_last()[in_a[k]]
                == b[in_b[k]] by {
                assert(k < n ==> in_a[k] < in_a[n]);
            }
            law_no_common_subsequence_is_longer(a.drop_last(), b, in_a, in_b);
        } else {
            assert(in_b[n] < b.len() - 1);
            assert forall|k: int| 0 <= k < in_a.len() implies 0 <= #[trigger] in_a[k] < a.len()
                && 0 <= in_b[k] < b.drop_last().len() && a[in_a[k]] == b.drop_last()[in_b[k]] by {
                assert(k < n ==> in_b[k] < in_b[n]);
            }
            law_no_common_subsequence_is_longer(a, b.drop_last(), in_a, in_b);
        }
    }
}

/// There is a common subsequence of that length.
pub proof fn law_common_subsequence_is_there(a: Seq<u8>, b: Seq<u8>) -> (places: (
    Seq<int>,
    Seq<int>,
))
    ensures
        pairs_up(a, b, places.0, places.1),
        places.0.len() == common_subsequence(a, b),
    decreases a.len() + b.len(),
{
    if a.len() == 0 || b.len() == 0 {
        (Seq::empty(), Seq::empty())
    } else if a.last() == b.last() {
        let (xs, ys) = law_common_subsequence_is_there(a.drop_last(), b.drop_last());
        let in_a = xs.push(a.len() - 1);
        let in_b = ys.push(b.len() - 1);
        assert forall|k: int| 0 <= k < in_a.len() implies 0 <= #[trigger] in_a[k] < a.len() && 0
            <= in_b[k] < b.len() && a[in_a[k]] == b[in_b[k]] by {
            if k < xs.len() {
                assert(0 <= xs[k] < a.drop_last().len());
                assert(a.drop_last()[xs[k]] == b.drop_last()[ys[k]]);
            }
        }
        assert forall|j: int, k: int| 0 <= j < k < in_a.len() implies #[trigger] in_a[j]
            < #[trigger] in_a[k] by {
            assert(0 <= xs[j] < a.drop_last().len());
        }
        assert forall|j: int, k: int| 0 <= j < k < in_b.len() implies #[trigger] in_b[j]
            < #[trigger] in_b[k] by {
            assert(0 <= xs[j] && ys[j] < b.drop_last().len());
        }
        (in_a, in_b)
    } else if common_subsequence(a, b) == common_subsequence(a, b.drop_last()) {
        let (xs, ys) = law_common_subsequence_is_there(a, b.drop_last());
        assert forall|k: int| 0 <= k < xs.len() implies 0 <= #[trigger] xs[k] < a.len() && 0
            <= ys[k] < b.len() && a[xs[k]] == b[ys[k]] by {
            assert(a[xs[k]] == b.drop_last()[ys[k]]);
        }
        (xs, ys)
    } else {
        let (xs, ys) = law_common_subsequence_is_there(a.drop_last(), b);
        assert forall|k: int| 0 <= k < xs.len() implies 0 <= #[trigger] xs[k] < a.len() && 0
            <= ys[k] < b.len() && a[xs[k]] == b[ys[k]] by {
            assert(a.drop_last()[xs[k]] == b[ys[k]]);
        }
        (xs, ys)
    }
}

/// The four bytes from `at` on are equal.
pub open spec fn four_alike(s: Seq<u8>, at: int) -> bool {
    0 <= at && at + 4 <= s.len() && s[at] == s[at + 1] && s[at] == s[at + 2] && s[at] == s[at + 3]
}

/// A string with its runs cut has no four equal bytes in a row, and a string that has none is
/// left as it is.
pub proof fn law_runs_are_cut_to_three(s: Seq<u8>)
    ensures
        forall|at: int| !#[trigger] four_alike(short_runs(s), at),
        (forall|at: int| !#[trigger] four_alike(s, at)) ==> short_runs(s) == s,
    decreases s.len(),
{
    if s.len() > 0 {
        let front = s.drop_last();
        let before = short_runs(front);
        law_runs_are_cut_to_three(front);
        let n = before.len() as int;
        let after = short_runs(s);
        assert forall|at: int| !#[trigger] four_alike(after, at) by {
            if four_alike(after, at) {
                if at + 4 <= n {
                    assert(four_alike(before, at));
                } else {
                    assert(after == before.push(s.last()));
                    assert(at == n - 3);
                }
            }
        }
        if forall|at: int| !#[trigger] four_alike(s, at) {
            assert forall|at: int| !#[trigger] four_alike(front, at) by {
                if four_alike(front, at) {
                    assert(four_alike(s, at));
                }
            }
            assert(before == front);
            if after == before {
                assert(four_alike(s, n - 3));
            }
            assert(s =~= front.push(s.last()));
        }
    }
}

/// One more byte is kept unless it would be the fourth of its run.
pub proof fn law_fourth_of_a_run_is_dropped(s: Seq<u8>, byte: u8)
    ensures
        ({
            let n = short_runs(s).len();
            short_runs(s.push(byte)) == if n >= 3 && short_runs(s).skip(n - 3) == seq![
                byte,
                byte,
                byte,
            ] {
                short_runs(s)
            } else {
                short_runs(s).push(byte)
            }
        }),
{
    let before = short_runs(s);
    let n = before.len();
    assert(s.push(byte).drop_last() =~= s);
    if n >= 3 {
        let end = before.skip(n - 3);
        if before[n - 1] == byte && before[n - 2] == byte && before[n - 3] == byte {
            assert(end =~= seq![byte, byte, byte]);
        }
        if end == seq![byte, byte, byte] {
            assert(end[0] == before[n - 3] && end[1] == before[n - 2] && end[2] == before[n - 1]);
        }
    }
}

/// Two strings share seven bytes in a row where the same seven stand in both, wherever they
/// stand.
pub proof fn law_seven_in_a_row_are_found(a: Seq<u8>, b: Seq<u8>, i: int, j: int)
    requires
        0 <= i && i + 7 <= a.len(),
        0 <= j && j + 7 <= b.len(),
        forall|k: int| 0 <= k < 7 ==> #[trigger] a[i + k] == b[j + k],
    ensures
        share_seven(a, b),
{
    assert forall|k: int| 0 <= k < 7 implies #[trigger] a.subrange(i, i + 7)[k] == b.subrange(
        j,
        j + 7,
    )[k] by {
        assert(a[i + k] == b[j + k]);
    }
    assert(a.subrange(i, i + 7) =~= b.subrange(j, j + 7));
    assert(seven_at(a, b, i, j));
}

/// What two strings share stands in both, byte for byte.
pub proof fn law_shared_bytes_stand_in_both(a: Seq<u8>, b: Seq<u8>) -> (places: (int, int))
    requires
        share_seven(a, b),
    ensures
        0 <= places.0 && places.0 + 7 <= a.len(),
        0 <= places.1 && places.1 + 7 <= b.len(),
        forall|k: int| 0 <= k < 7 ==> #[trigger] a[places.0 + k] == b[places.1 + k],
{
    let (i, j) = choose|i: int, j: int| #[trigger] seven_at(a, b, i, j);
    assert forall|k: int| 0 <= k < 7 implies #[trigger] a[i + k] == b[j + k] by {
        assert(a.subrange(i, i + 7)[k] == b.subrange(j, j + 7)[k]);
    }
    (i, j)
}

} // verus!
