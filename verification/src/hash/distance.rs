//! How far apart two byte strings are.

use vstd::prelude::*;

verus! {

pub open spec fn least(a: nat, b: nat) -> nat {
    if a <= b {
        a
    } else {
        b
    }
}

pub open spec fn most(a: nat, b: nat) -> nat {
    if a >= b {
        a
    } else {
        b
    }
}

/// The least number of insertions, deletions and replacements of one byte that turn one
/// string into the other.
pub open spec fn edit_distance(left: Seq<u8>, right: Seq<u8>) -> nat
    decreases left.len() + right.len(),
{
    if left.len() == 0 {
        right.len()
    } else if right.len() == 0 {
        left.len()
    } else if left.last() == right.last() {
        edit_distance(left.drop_last(), right.drop_last())
    } else {
        1 + least(
            least(
                edit_distance(left.drop_last(), right.drop_last()),
                edit_distance(left.drop_last(), right),
            ),
            edit_distance(left, right.drop_last()),
        )
    }
}

/// The length of the longest common subsequence.
pub open spec fn common_subsequence(left: Seq<u8>, right: Seq<u8>) -> nat
    decreases left.len() + right.len(),
{
    if left.len() == 0 || right.len() == 0 {
        0
    } else if left.last() == right.last() {
        common_subsequence(left.drop_last(), right.drop_last()) + 1
    } else {
        most(
            common_subsequence(left, right.drop_last()),
            common_subsequence(left.drop_last(), right),
        )
    }
}

/// The distance is the same in both directions.
pub proof fn law_distance_is_symmetric(left: Seq<u8>, right: Seq<u8>)
    ensures
        edit_distance(left, right) == edit_distance(right, left),
    decreases left.len() + right.len(),
{
    if left.len() > 0 && right.len() > 0 {
        law_distance_is_symmetric(left.drop_last(), right.drop_last());
        law_distance_is_symmetric(left.drop_last(), right);
        law_distance_is_symmetric(left, right.drop_last());
    }
}

/// The distance is at most the longer length.
pub proof fn lemma_distance_bound(left: Seq<u8>, right: Seq<u8>)
    ensures
        edit_distance(left, right) <= most(left.len(), right.len()),
    decreases left.len() + right.len(),
{
    if left.len() > 0 && right.len() > 0 {
        lemma_distance_bound(left.drop_last(), right.drop_last());
    }
}

pub proof fn lemma_common_bound(left: Seq<u8>, right: Seq<u8>)
    ensures
        common_subsequence(left, right) <= least(left.len(), right.len()),
    decreases left.len() + right.len(),
{
    if left.len() > 0 && right.len() > 0 {
        lemma_common_bound(left.drop_last(), right.drop_last());
        lemma_common_bound(left.drop_last(), right);
        lemma_common_bound(left, right.drop_last());
    }
}

/// Only equal strings are at distance zero.
pub proof fn law_distance_zero_means_equal(left: Seq<u8>, right: Seq<u8>)
    ensures
        edit_distance(left, right) == 0 <==> left == right,
    decreases left.len() + right.len(),
{
    if left.len() == 0 {
        assert(right.len() == 0 ==> left =~= right);
    } else if right.len() == 0 {
    } else if left.last() == right.last() {
        law_distance_zero_means_equal(left.drop_last(), right.drop_last());
        assert(left == left.drop_last().push(left.last()));
        assert(right == right.drop_last().push(right.last()));
    }
}

/// All of a string is common with itself.
pub proof fn law_common_with_itself(s: Seq<u8>)
    ensures
        common_subsequence(s, s) == s.len(),
    decreases s.len(),
{
    if s.len() > 0 {
        law_common_with_itself(s.drop_last());
    }
}

proof fn lemma_prefix(s: Seq<u8>, i: int)
    requires
        0 <= i < s.len(),
    ensures
        s.take(i + 1).drop_last() == s.take(i),
        s.take(i + 1).last() == s[i],
        s.take(i + 1).len() == i + 1,
{
    assert(s.take(i + 1).drop_last() =~= s.take(i));
}

/// The distances of `left` and every prefix of `right`, from those of `left` without its
/// last byte.
fn next_row(previous: &Vec<u32>, left: &[u8], i: usize, right: &[u8]) -> (current: Vec<u32>)
    requires
        i < left@.len(),
        left@.len() + right@.len() < u32::MAX,
        previous@.len() == right@.len() + 1,
        forall|j: int|
            0 <= j <= right@.len() ==> #[trigger] previous@[j] == edit_distance(
                left@.take(i as int),
                right@.take(j),
            ),
    ensures
        current@.len() == right@.len() + 1,
        forall|j: int|
            0 <= j <= right@.len() ==> #[trigger] current@[j] == edit_distance(
                left@.take(i + 1),
                right@.take(j),
            ),
{
    let byte: u8 = left[i];
    let size: usize = right.len();
    let mut current: Vec<u32> = Vec::new();
    current.push(i as u32 + 1);
    proof {
        lemma_prefix(left@, i as int);
        assert(right@.take(0) =~= Seq::empty());
    }
    let mut j: usize = 0;
    while j < size
        invariant
            j <= size == right@.len(),
            i < left@.len(),
            left@.len() + right@.len() < u32::MAX,
            byte == left@[i as int],
            previous@.len() == size + 1,
            current@.len() == j + 1,
            forall|k: int|
                0 <= k <= size ==> #[trigger] previous@[k] == edit_distance(
                    left@.take(i as int),
                    right@.take(k),
                ),
            forall|k: int|
                0 <= k <= j ==> #[trigger] current@[k] == edit_distance(
                    left@.take(i + 1),
                    right@.take(k),
                ),
        decreases size - j,
    {
        proof {
            lemma_prefix(left@, i as int);
            lemma_prefix(right@, j as int);
            lemma_distance_bound(left@.take(i as int), right@.take(j as int));
        }
        let diagonal: u32 = previous[j];
        let above: u32 = previous[j + 1];
        let beside: u32 = current[j];
        let value: u32 = if byte == right[j] {
            diagonal
        } else {
            let mut smallest: u32 = if diagonal <= above {
                diagonal
            } else {
                above
            };
            if beside < smallest {
                smallest = beside;
            }
            smallest + 1
        };
        current.push(value);
        j = j + 1;
    }
    current
}

/// The edit distance of two strings.
pub fn levenshtein(left: &[u8], right: &[u8]) -> (distance: u32)
    requires
        left@.len() + right@.len() < u32::MAX,
    ensures
        distance == edit_distance(left@, right@),
{
    let mut previous: Vec<u32> = Vec::new();
    let size: usize = right.len();
    let mut j: usize = 0;
    assert(left@.take(0) =~= Seq::empty());
    while j <= size
        invariant
            j <= size + 1,
            size == right@.len(),
            left@.len() + right@.len() < u32::MAX,
            left@.take(0).len() == 0,
            previous@.len() == j,
            forall|k: int|
                0 <= k < j ==> #[trigger] previous@[k] == edit_distance(
                    left@.take(0),
                    right@.take(k),
                ),
        decreases size + 1 - j,
    {
        previous.push(j as u32);
        j = j + 1;
    }
    let mut i: usize = 0;
    while i < left.len()
        invariant
            i <= left@.len(),
            size == right@.len(),
            left@.len() + right@.len() < u32::MAX,
            previous@.len() == size + 1,
            forall|k: int|
                0 <= k <= size ==> #[trigger] previous@[k] == edit_distance(
                    left@.take(i as int),
                    right@.take(k),
                ),
        decreases left@.len() - i,
    {
        previous = next_row(&previous, left, i, right);
        i = i + 1;
    }
    assert(left@.take(i as int) =~= left@);
    assert(right@.take(size as int) =~= right@);
    previous[size]
}

/// The common subsequences of `left` and every prefix of `right`, from those of `left`
/// without its last byte.
fn next_common_row(previous: &Vec<u16>, left: &[u8], i: usize, right: &[u8]) -> (current: Vec<u16>)
    requires
        i < left@.len(),
        left@.len() + right@.len() < u16::MAX,
        previous@.len() == right@.len() + 1,
        forall|j: int|
            0 <= j <= right@.len() ==> #[trigger] previous@[j] == common_subsequence(
                left@.take(i as int),
                right@.take(j),
            ),
    ensures
        current@.len() == right@.len() + 1,
        forall|j: int|
            0 <= j <= right@.len() ==> #[trigger] current@[j] == common_subsequence(
                left@.take(i + 1),
                right@.take(j),
            ),
{
    let byte: u8 = left[i];
    let size: usize = right.len();
    let mut current: Vec<u16> = Vec::new();
    current.push(0);
    proof {
        lemma_prefix(left@, i as int);
        assert(right@.take(0) =~= Seq::empty());
    }
    let mut j: usize = 0;
    while j < size
        invariant
            j <= size == right@.len(),
            i < left@.len(),
            left@.len() + right@.len() < u16::MAX,
            byte == left@[i as int],
            previous@.len() == size + 1,
            current@.len() == j + 1,
            forall|k: int|
                0 <= k <= size ==> #[trigger] previous@[k] == common_subsequence(
                    left@.take(i as int),
                    right@.take(k),
                ),
            forall|k: int|
                0 <= k <= j ==> #[trigger] current@[k] == common_subsequence(
                    left@.take(i + 1),
                    right@.take(k),
                ),
        decreases size - j,
    {
        proof {
            lemma_prefix(left@, i as int);
            lemma_prefix(right@, j as int);
            lemma_common_bound(left@.take(i as int), right@.take(j as int));
        }
        let diagonal: u16 = previous[j];
        let above: u16 = previous[j + 1];
        let beside: u16 = current[j];
        let value: u16 = if byte == right[j] {
            diagonal + 1
        } else if beside >= above {
            beside
        } else {
            above
        };
        current.push(value);
        j = j + 1;
    }
    current
}

/// The length of the longest common subsequence of two strings.
pub fn longest_common(left: &[u8], right: &[u8]) -> (length: u16)
    requires
        left@.len() + right@.len() < u16::MAX,
    ensures
        length == common_subsequence(left@, right@),
{
    let size: usize = right.len();
    let mut previous: Vec<u16> = vec![0u16; size + 1];
    assert(left@.take(0) =~= Seq::empty());
    assert forall|k: int| 0 <= k <= size implies #[trigger] previous@[k] == common_subsequence(
        left@.take(0),
        right@.take(k),
    ) by {}
    let mut i: usize = 0;
    while i < left.len()
        invariant
            i <= left@.len(),
            size == right@.len(),
            left@.len() + right@.len() < u16::MAX,
            previous@.len() == size + 1,
            forall|k: int|
                0 <= k <= size ==> #[trigger] previous@[k] == common_subsequence(
                    left@.take(i as int),
                    right@.take(k),
                ),
        decreases left@.len() - i,
    {
        previous = next_common_row(&previous, left, i, right);
        i = i + 1;
    }
    assert(left@.take(i as int) =~= left@);
    assert(right@.take(size as int) =~= right@);
    previous[size]
}

/// The string with every run cut to three bytes.
pub open spec fn short_runs(s: Seq<u8>) -> Seq<u8>
    decreases s.len(),
{
    if s.len() == 0 {
        s
    } else {
        let before = short_runs(s.drop_last());
        let n = before.len();
        if n >= 3 && before[n - 1] == s.last() && before[n - 2] == s.last() && before[n - 3]
            == s.last() {
            before
        } else {
            before.push(s.last())
        }
    }
}

pub proof fn lemma_short_runs_len(s: Seq<u8>)
    ensures
        short_runs(s).len() <= s.len(),
    decreases s.len(),
{
    if s.len() > 0 {
        lemma_short_runs_len(s.drop_last());
    }
}

/// The string with every run cut to three bytes.
pub fn trim_repeated(value: &[u8]) -> (trimmed: Vec<u8>)
    ensures
        trimmed@ == short_runs(value@),
        trimmed@.len() <= value@.len(),
{
    let mut trimmed: Vec<u8> = Vec::new();
    let mut i: usize = 0;
    while i < value.len()
        invariant
            i <= value@.len(),
            trimmed@ == short_runs(value@.take(i as int)),
        decreases value@.len() - i,
    {
        proof {
            lemma_prefix(value@, i as int);
        }
        let byte: u8 = value[i];
        let n: usize = trimmed.len();
        if !(n >= 3 && trimmed[n - 1] == byte && trimmed[n - 2] == byte && trimmed[n - 3]
            == byte) {
            trimmed.push(byte);
        }
        i = i + 1;
    }
    assert(value@.take(i as int) =~= value@);
    proof {
        lemma_short_runs_len(value@);
    }
    trimmed
}

/// Seven bytes from `i` on in one string and from `j` on in the other are equal.
pub open spec fn seven_at(left: Seq<u8>, right: Seq<u8>, i: int, j: int) -> bool {
    0 <= i && i + 7 <= left.len() && 0 <= j && j + 7 <= right.len() && left.subrange(i, i + 7)
        == right.subrange(j, j + 7)
}

/// Seven bytes in a row stand in both strings.
pub open spec fn share_seven(left: Seq<u8>, right: Seq<u8>) -> bool {
    exists|i: int, j: int| #[trigger] seven_at(left, right, i, j)
}

fn same_seven(left: &[u8], right: &[u8], i: usize, j: usize) -> (same: bool)
    requires
        i + 7 <= left@.len(),
        j + 7 <= right@.len(),
    ensures
        same == seven_at(left@, right@, i as int, j as int),
{
    let left_size: usize = left.len();
    let right_size: usize = right.len();
    let mut k: usize = 0;
    while k < 7
        invariant
            k <= 7,
            i + 7 <= left_size == left@.len(),
            j + 7 <= right_size == right@.len(),
            forall|m: int| 0 <= m < k ==> #[trigger] left@[i + m] == right@[j + m],
        decreases 7 - k,
    {
        if left[i + k] != right[j + k] {
            assert(left@.subrange(i as int, i + 7)[k as int] != right@.subrange(
                j as int,
                j + 7,
            )[k as int]);
            return false;
        }
        k = k + 1;
    }
    assert forall|m: int| 0 <= m < 7 implies #[trigger] left@.subrange(i as int, i + 7)[m]
        == right@.subrange(j as int, j + 7)[m] by {
        assert(left@[i + m] == right@[j + m]);
    }
    assert(left@.subrange(i as int, i + 7) =~= right@.subrange(j as int, j + 7));
    true
}

/// Seven bytes in a row stand in both strings.
pub fn has_common_substring_7(left: &[u8], right: &[u8]) -> (b: bool)
    ensures
        b == share_seven(left@, right@),
{
    if left.len() < 7 || right.len() < 7 {
        return false;
    }
    let left_last: usize = left.len() - 7;
    let right_last: usize = right.len() - 7;
    let mut i: usize = 0;
    while i <= left_last
        invariant
            i <= left_last + 1,
            left_last + 7 == left@.len() <= usize::MAX,
            right_last + 7 == right@.len() <= usize::MAX,
            forall|a: int, b: int| a < i ==> !#[trigger] seven_at(left@, right@, a, b),
        decreases left_last + 1 - i,
    {
        let mut j: usize = 0;
        while j <= right_last
            invariant
                i <= left_last,
                j <= right_last + 1,
                left_last + 7 == left@.len() <= usize::MAX,
                right_last + 7 == right@.len() <= usize::MAX,
                forall|b: int| b < j ==> !#[trigger] seven_at(left@, right@, i as int, b),
            decreases right_last + 1 - j,
        {
            if same_seven(left, right, i, j) {
                return true;
            }
            j = j + 1;
        }
        assert forall|a: int, b: int| a < i + 1 implies !#[trigger] seven_at(
            left@,
            right@,
            a,
            b,
        ) by {
            if a == i {
                assert(b < j ==> !seven_at(left@, right@, i as int, b));
            }
        }
        i = i + 1;
    }
    false
}

} // verus!
