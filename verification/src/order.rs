//! Texts in lexicographic order of their characters.

use crate::text::{chars_of, texts};
use vstd::prelude::*;

verus! {

/// `a` comes before `b`. Comparing the UTF-8 bytes gives the same order.
pub open spec fn text_less(a: Seq<char>, b: Seq<char>) -> bool
    decreases a.len(),
{
    if b.len() == 0 {
        false
    } else if a.len() == 0 {
        true
    } else if a[0] != b[0] {
        a[0] < b[0]
    } else {
        text_less(a.skip(1), b.skip(1))
    }
}

/// Every text comes before those behind it, so none occurs twice.
pub open spec fn strictly_sorted(items: Seq<Seq<char>>) -> bool {
    forall|i: int, j: int|
        0 <= i < j < items.len() ==> text_less(#[trigger] items[i], #[trigger] items[j])
}

/// `sorted` holds the texts of `items`, each once, in order.
pub open spec fn sorted_set_of(sorted: Seq<Seq<char>>, items: Seq<Seq<char>>) -> bool {
    strictly_sorted(sorted) && forall|t: Seq<char>|
        #[trigger] sorted.contains(t) <==> items.contains(t)
}

pub proof fn lemma_less_irreflexive(a: Seq<char>)
    ensures
        !text_less(a, a),
    decreases a.len(),
{
    if a.len() > 0 {
        lemma_less_irreflexive(a.skip(1));
    }
}

pub proof fn lemma_less_transitive(a: Seq<char>, b: Seq<char>, c: Seq<char>)
    requires
        text_less(a, b),
        text_less(b, c),
    ensures
        text_less(a, c),
    decreases a.len(),
{
    if a.len() > 0 && a[0] == b[0] && b[0] == c[0] {
        lemma_less_transitive(a.skip(1), b.skip(1), c.skip(1));
    }
}

pub proof fn lemma_less_total(a: Seq<char>, b: Seq<char>)
    ensures
        text_less(a, b) || a == b || text_less(b, a),
    decreases a.len(),
{
    if a.len() > 0 && b.len() > 0 && a[0] == b[0] {
        lemma_less_total(a.skip(1), b.skip(1));
        if a.skip(1) == b.skip(1) {
            assert(a =~= seq![a[0]] + a.skip(1));
            assert(b =~= seq![b[0]] + b.skip(1));
        }
    } else if a.len() == 0 && b.len() == 0 {
        assert(a =~= b);
    }
}

/// A strictly sorted sequence is determined by the texts that it holds.
pub proof fn law_sorted_set_unique(
    a: Seq<Seq<char>>,
    b: Seq<Seq<char>>,
    items: Seq<Seq<char>>,
)
    requires
        sorted_set_of(a, items),
        sorted_set_of(b, items),
    ensures
        a == b,
    decreases a.len() + b.len(),
{
    if a.len() == 0 && b.len() == 0 {
        assert(a =~= b);
    } else if a.len() == 0 {
        assert(b.contains(b[0]));
        assert(a.contains(b[0]));
    } else if b.len() == 0 {
        assert(a.contains(a[0]));
        assert(b.contains(a[0]));
    } else {
        let x = a.last();
        let y = b.last();
        assert(a.contains(x) && b.contains(y));
        assert(b.contains(x) && a.contains(y));
        if x != y {
            let i = b.index_of(x);
            let j = a.index_of(y);
            assert(text_less(b[i], b[b.len() - 1]));
            assert(text_less(a[j], a[a.len() - 1]));
            lemma_less_transitive(x, y, x);
            lemma_less_irreflexive(x);
        }
        let p = a.drop_last();
        let q = b.drop_last();
        assert forall|t: Seq<char>| #[trigger] p.contains(t) <==> q.contains(t) by {
            if p.contains(t) {
                let k = p.index_of(t);
                assert(a[k] == t);
                assert(a.contains(t));
                assert(b.contains(t));
                let m = b.index_of(t);
                if m == b.len() - 1 {
                    assert(text_less(a[k], a[a.len() - 1]));
                    lemma_less_irreflexive(t);
                } else {
                    assert(q[m] == t);
                }
            }
            if q.contains(t) {
                let k = q.index_of(t);
                assert(b[k] == t);
                assert(b.contains(t));
                assert(a.contains(t));
                let m = a.index_of(t);
                if m == a.len() - 1 {
                    assert(text_less(b[k], b[b.len() - 1]));
                    lemma_less_irreflexive(t);
                } else {
                    assert(p[m] == t);
                }
            }
        }
        assert(strictly_sorted(p)) by {
            assert forall|i: int, j: int| 0 <= i < j < p.len() implies text_less(
                #[trigger] p[i],
                #[trigger] p[j],
            ) by {
                assert(text_less(a[i], a[j]));
            }
        }
        assert(strictly_sorted(q)) by {
            assert forall|i: int, j: int| 0 <= i < j < q.len() implies text_less(
                #[trigger] q[i],
                #[trigger] q[j],
            ) by {
                assert(text_less(b[i], b[j]));
            }
        }
        law_sorted_set_unique(p, q, p);
        assert(a =~= p.push(x));
        assert(b =~= q.push(y));
    }
}

/// `a` comes before `b`.
pub fn comes_before(a: &str, b: &str) -> (r: bool)
    ensures
        r == text_less(a@, b@),
{
    let left = chars_of(a);
    let right = chars_of(b);
    let mut i: usize = 0;
    assert(a@.skip(0) =~= a@);
    assert(b@.skip(0) =~= b@);
    while i < left.len() && i < right.len()
        invariant
            left@ == a@,
            right@ == b@,
            i <= left@.len(),
            i <= right@.len(),
            text_less(a@, b@) == text_less(a@.skip(i as int), b@.skip(i as int)),
        decreases left@.len() - i,
    {
        if left[i] != right[i] {
            return left[i] < right[i];
        }
        assert(a@.skip(i as int).skip(1) =~= a@.skip(i + 1));
        assert(b@.skip(i as int).skip(1) =~= b@.skip(i + 1));
        i = i + 1;
    }
    i < right.len()
}

/// Inserts a text into a strictly sorted list, unless it is there.
pub fn insert_sorted(items: &mut Vec<String>, s: String)
    requires
        strictly_sorted(texts(old(items)@)),
    ensures
        strictly_sorted(texts(final(items)@)),
        forall|t: Seq<char>|
            #[trigger] texts(final(items)@).contains(t) <==> texts(old(items)@).contains(t) || t
                == s@,
{
    let ghost before = texts(items@);
    let mut at: usize = 0;
    while at < items.len() && comes_before(items[at].as_str(), s.as_str())
        invariant
            at <= items@.len(),
            before == texts(items@),
            forall|k: int| 0 <= k < at ==> text_less(#[trigger] before[k], s@),
        decreases items@.len() - at,
    {
        at = at + 1;
    }
    if at < items.len() && crate::text::same_text(items[at].as_str(), s.as_str()) {
        assert(before[at as int] == s@);
        return;
    }
    proof {
        if at < items@.len() {
            lemma_less_total(before[at as int], s@);
            assert forall|k: int| at <= k < before.len() implies text_less(
                s@,
                #[trigger] before[k],
            ) by {
                if k > at {
                    lemma_less_transitive(s@, before[at as int], before[k]);
                }
            }
        }
    }
    items.insert(at, s);
    let ghost after = texts(items@);
    proof {
        assert(after =~= before.insert(at as int, s@));
        assert forall|i: int, j: int| 0 <= i < j < after.len() implies text_less(
            #[trigger] after[i],
            #[trigger] after[j],
        ) by {
            let p = if i < at {
                i
            } else {
                i - 1
            };
            let q = if j < at {
                j
            } else {
                j - 1
            };
            if i != at && j != at {
                assert(text_less(before[p], before[q]));
            }
        }
        assert forall|t: Seq<char>|
            #[trigger] after.contains(t) <==> before.contains(t) || t == s@ by {
            if before.contains(t) {
                let k = before.index_of(t);
                if k < at {
                    assert(after[k] == t);
                } else {
                    assert(after[k + 1] == t);
                }
            }
            assert(after[at as int] == s@);
            if after.contains(t) {
                let k = after.index_of(t);
                if k < at {
                    assert(before[k] == t);
                } else if k > at {
                    assert(before[k - 1] == t);
                }
            }
        }
    }
}

/// The texts of a list, each once, in order.
pub fn sorted_set(items: &[String]) -> (sorted: Vec<String>)
    ensures
        sorted_set_of(texts(sorted@), texts(items@)),
{
    let mut sorted: Vec<String> = Vec::new();
    let mut i: usize = 0;
    assert(texts(sorted@) =~= Seq::empty());
    while i < items.len()
        invariant
            i <= items@.len(),
            sorted_set_of(texts(sorted@), texts(items@).take(i as int)),
        decreases items@.len() - i,
    {
        let ghost before = texts(items@).take(i as int);
        insert_sorted(&mut sorted, items[i].clone());
        proof {
            let after = texts(items@).take(i + 1);
            assert(after =~= before.push(items@[i as int]@));
            assert forall|t: Seq<char>|
                #[trigger] texts(sorted@).contains(t) <==> after.contains(t) by {
                vstd::seq_lib::lemma_seq_contains_after_push(before, items@[i as int]@, t);
                vstd::seq_lib::lemma_seq_contains_after_push(
                    before,
                    items@[i as int]@,
                    items@[i as int]@,
                );
            }
        }
        i = i + 1;
    }
    assert(texts(items@).take(i as int) =~= texts(items@));
    sorted
}

} // verus!
