//! What hash documents must be read as.

use crate::hash::columns::{column_algorithm, hash_entry, names_verdict, verdict, DbEntryView};
use crate::hash::documents::{
    column_entries, column_entry, list_tree_entries, object_verdict, row_of, tree_entries,
    tree_verdict,
};
use crate::json::JsonTree;
use vstd::prelude::*;

verus! {

/// Truth values, numbers but zero and words say whether something is malicious.
pub proof fn law_values_give_verdicts(b: bool, n: i64, s: Seq<char>, natural: Option<u64>)
    ensures
        tree_verdict(JsonTree::Bool(b)) == Some(b),
        tree_verdict(JsonTree::Number { integer: Some(n), natural }) == Some(n != 0),
        tree_verdict(JsonTree::Text(s)) == verdict(s, true),
        tree_verdict(JsonTree::Null) is None,
{
}

/// The first member that is named as a verdict decides; where none is, the default does.
pub proof fn law_first_verdict_member_decides(
    members: Seq<(Seq<char>, JsonTree)>,
    at: int,
    default: bool,
)
    ensures
        0 <= at < members.len() && names_verdict(members[at].0) && (forall|k: int|
            0 <= k < at ==> !names_verdict((#[trigger] members[k]).0)) ==> object_verdict(
            members,
            default,
        ) == match tree_verdict(members[at].1) {
            Some(b) => b,
            None => default,
        },
        (forall|k: int| 0 <= k < members.len() ==> !names_verdict((#[trigger] members[k]).0))
            ==> object_verdict(members, default) == default,
    decreases members.len(),
{
    if members.len() > 0 {
        let rest = members.skip(1);
        law_first_verdict_member_decides(rest, at - 1, default);
        if 0 < at < members.len() {
            assert(rest[at - 1] == members[at]);
            if forall|k: int| 0 <= k < at ==> !names_verdict((#[trigger] members[k]).0) {
                assert(!names_verdict(members[0].0));
                assert forall|k: int| 0 <= k < at - 1 implies !names_verdict(
                    (#[trigger] rest[k]).0,
                ) by {
                    assert(rest[k] == members[k + 1]);
                }
            }
        }
        if forall|k: int| 0 <= k < members.len() ==> !names_verdict((#[trigger] members[k]).0) {
            assert(!names_verdict(members[0].0));
            assert forall|k: int| 0 <= k < rest.len() implies !names_verdict(
                (#[trigger] rest[k]).0,
            ) by {
                assert(rest[k] == members[k + 1]);
            }
        }
    }
}

proof fn lemma_column_entered(
    members: Seq<(Seq<char>, JsonTree)>,
    row: crate::hash::documents::RowView,
    k: int,
    e: DbEntryView,
)
    requires
        0 <= k < members.len(),
        column_entry(members[k], row).contains(e),
    ensures
        column_entries(members, row).contains(e),
    decreases members.len(),
{
    let front = members.drop_last();
    let before = column_entries(front, row);
    let own = column_entry(members.last(), row);
    let all = column_entries(members, row);
    if k == members.len() - 1 {
        let i = own.index_of(e);
        assert(all[before.len() + i] == e);
    } else {
        assert(front[k] == members[k]);
        lemma_column_entered(front, row, k, e);
        let i = before.index_of(e);
        assert(all[i] == e);
    }
}

/// A hash in a member that is named for one is an entry of the object, with the object's
/// verdict.
pub proof fn law_hash_members_are_entered(
    members: Seq<(Seq<char>, JsonTree)>,
    k: int,
    text: Seq<char>,
    default: bool,
)
    requires
        0 <= k < members.len(),
        members[k].1 == JsonTree::Text(text),
        column_algorithm(members[k].0) is Some,
        column_algorithm(members[k].0)->0.len() > 0,
        hash_entry(
            text,
            Some(column_algorithm(members[k].0)->0),
            object_verdict(members, default),
        ) is Some,
    ensures
        exists|i: int|
            0 <= i < tree_entries(JsonTree::Object(members), default).len() && {
                let e = #[trigger] tree_entries(JsonTree::Object(members), default)[i];
                let plain = hash_entry(
                    text,
                    Some(column_algorithm(members[k].0)->0),
                    object_verdict(members, default),
                )->0;
                e.hash == plain.hash && e.algorithm == plain.algorithm && e.is_malicious
                    == plain.is_malicious
            },
{
    let row = row_of(members, default);
    let own = column_entry(members[k], row);
    assert(own.len() == 1);
    let e = own[0];
    assert(own.contains(e));
    lemma_column_entered(members, row, k, e);
    let all = tree_entries(JsonTree::Object(members), default);
    assert(all == column_entries(members, row));
    let i = all.index_of(e);
    assert(all[i] == e);
}

/// A text that is a hash is an entry by itself, and one that is none makes no entry.
pub proof fn law_single_hashes_are_entered(text: Seq<char>, default: bool)
    ensures
        hash_entry(text, None, default) is Some ==> tree_entries(JsonTree::Text(text), default)
            == seq![hash_entry(text, None, default)->0],
        hash_entry(text, None, default) is None ==> tree_entries(
            JsonTree::Text(text),
            default,
        ).len() == 0,
{
}

/// A list is read row by row.
pub proof fn law_lists_are_read_row_by_row(
    items: Seq<JsonTree>,
    tree: JsonTree,
    default: bool,
)
    ensures
        tree_entries(JsonTree::List(items.push(tree)), default) == tree_entries(
            JsonTree::List(items),
            default,
        ) + tree_entries(tree, default),
        tree_entries(JsonTree::List(Seq::empty()), default).len() == 0,
{
    let more = items.push(tree);
    assert(more.subrange(0, more.len() - 1) =~= items);
    assert(list_tree_entries(more, default) == list_tree_entries(items, default) + tree_entries(
        tree,
        default,
    ));
}

} // verus!
