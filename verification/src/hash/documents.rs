//! Hash databases in JSON.

use crate::hash::columns::{column_algorithm, column_name, db_entries, hash_entry};
use crate::hash::columns::{hash_column_algorithm, infer_algorithm, inferred_algorithm};
use crate::hash::columns::{is_malicious_column, is_source_column, make_hash_entry};
use crate::hash::columns::{names_source, names_verdict, normalize_column_name};
use crate::hash::columns::{parse_malicious_value, push_entry, verdict, DbEntryView, HashDbEntry};
use crate::hash::error::HashError;
use crate::hash::lines::bare_line;
use crate::json::{json_document, json_node, json_tree, list_trees, member_trees, parse_json};
use crate::json::{JsonNode, JsonTree};
use crate::text::{chars_of, lines, lines_of, same_text, strip_start, text_of, texts, trim_chars};
use crate::text::without_start;
use vstd::prelude::*;

verus! {

/// Whether a value says malicious or not, if it says either.
pub open spec fn tree_verdict(tree: JsonTree) -> Option<bool> {
    match tree {
        JsonTree::Bool(b) => Some(b),
        JsonTree::Number { integer, .. } => match integer {
            Some(n) => Some(n != 0),
            None => None,
        },
        JsonTree::Text(s) => verdict(s, true),
        _ => None,
    }
}

/// The verdict of the first member that is named as one.
pub open spec fn object_verdict(members: Seq<(Seq<char>, JsonTree)>, default: bool) -> bool
    decreases members.len(),
{
    if members.len() == 0 {
        default
    } else if names_verdict(members[0].0) {
        match tree_verdict(members[0].1) {
            Some(b) => b,
            None => default,
        }
    } else {
        object_verdict(members.skip(1), default)
    }
}

/// The algorithm that the object names.
pub open spec fn object_algorithm(members: Seq<(Seq<char>, JsonTree)>) -> Seq<char>
    decreases members.len(),
{
    if members.len() == 0 {
        "exact"@
    } else if members[0].0 == "algorithm"@ {
        match members[0].1 {
            JsonTree::Text(s) => s,
            _ => "exact"@,
        }
    } else {
        object_algorithm(members.skip(1))
    }
}

/// The source that the first member named as one names; empty where it names none.
pub open spec fn object_source(members: Seq<(Seq<char>, JsonTree)>) -> Seq<char>
    decreases members.len(),
{
    if members.len() == 0 {
        Seq::empty()
    } else if names_source(members[0].0) {
        match members[0].1 {
            JsonTree::Text(s) => s,
            _ => Seq::empty(),
        }
    } else {
        object_source(members.skip(1))
    }
}

/// What an object says of all its hashes.
pub struct RowView {
    pub algorithm: Seq<char>,
    pub is_malicious: bool,
    pub source: Seq<char>,
}

pub open spec fn row_of(members: Seq<(Seq<char>, JsonTree)>, default: bool) -> RowView {
    RowView {
        algorithm: object_algorithm(members),
        is_malicious: object_verdict(members, default),
        source: object_source(members),
    }
}

/// The entry as one of the source, where that is known.
pub open spec fn sourced(entry: Option<DbEntryView>, source: Seq<char>) -> Seq<DbEntryView> {
    match entry {
        Some(e) => seq![
            if source.len() == 0 {
                e
            } else {
                DbEntryView { source, ..e }
            },
        ],
        None => Seq::empty(),
    }
}

/// The entry of a member that is a hash column.
pub open spec fn column_entry(member: (Seq<char>, JsonTree), row: RowView) -> Seq<DbEntryView> {
    match (member.1, column_algorithm(member.0)) {
        (JsonTree::Text(s), Some(fixed)) => sourced(
            hash_entry(
                s,
                Some(
                    if fixed.len() == 0 {
                        row.algorithm
                    } else {
                        fixed
                    },
                ),
                row.is_malicious,
            ),
            row.source,
        ),
        _ => Seq::empty(),
    }
}

/// The entries of the members that are hash columns.
pub open spec fn column_entries(members: Seq<(Seq<char>, JsonTree)>, row: RowView) -> Seq<
    DbEntryView,
>
    decreases members.len(),
{
    if members.len() == 0 {
        Seq::empty()
    } else {
        column_entries(members.drop_last(), row) + column_entry(members.last(), row)
    }
}

/// A member that holds further rows.
pub open spec fn names_rows(key: Seq<char>) -> bool {
    let name = column_name(key);
    name == "data"@ || name == "items"@ || name == "hashes"@ || name == "results"@ || name
        == "indicators"@ || name == "records"@
}

/// The entry of a member whose name is itself a hash.
pub open spec fn key_entry(member: (Seq<char>, JsonTree), row: RowView) -> Seq<DbEntryView> {
    if inferred_algorithm(member.0) is Some {
        sourced(
            hash_entry(
                member.0,
                None,
                match tree_verdict(member.1) {
                    Some(b) => b,
                    None => row.is_malicious,
                },
            ),
            row.source,
        )
    } else {
        Seq::empty()
    }
}

pub open spec fn key_entries(members: Seq<(Seq<char>, JsonTree)>, row: RowView) -> Seq<DbEntryView>
    decreases members.len(),
{
    if members.len() == 0 {
        Seq::empty()
    } else {
        key_entries(members.drop_last(), row) + key_entry(members.last(), row)
    }
}

/// The entries of a document. A text is a hash, a list holds rows; an object is a row, and
/// where no column of it holds a hash, its nested rows and the hashes among its names
/// count.
pub open spec fn tree_entries(tree: JsonTree, default: bool) -> Seq<DbEntryView>
    decreases tree,
{
    match tree {
        JsonTree::Text(s) => sourced(hash_entry(s, None, default), Seq::empty()),
        JsonTree::List(items) => list_tree_entries(items, default),
        JsonTree::Object(members) => {
            let row = row_of(members, default);
            let direct = column_entries(members, row);
            if direct.len() > 0 {
                direct
            } else {
                nested_entries(members, row.is_malicious) + key_entries(members, row)
            }
        },
        _ => Seq::empty(),
    }
}

pub open spec fn list_tree_entries(items: Seq<JsonTree>, default: bool) -> Seq<DbEntryView>
    decreases items,
{
    if items.len() == 0 {
        Seq::empty()
    } else {
        list_tree_entries(items.subrange(0, items.len() - 1), default) + tree_entries(
            items[items.len() - 1],
            default,
        )
    }
}

/// The entries of the members that hold further rows.
pub open spec fn nested_entries(members: Seq<(Seq<char>, JsonTree)>, default: bool) -> Seq<
    DbEntryView,
>
    decreases members,
{
    if members.len() == 0 {
        Seq::empty()
    } else {
        let last = members[members.len() - 1];
        let before = nested_entries(members.subrange(0, members.len() - 1), default);
        if names_rows(last.0) {
            before + tree_entries(last.1, default)
        } else {
            before
        }
    }
}

/// Whether a value says malicious or not.
fn json_value_to_bool(value: &serde_json::Value) -> (r: Option<bool>)
    ensures
        r == tree_verdict(json_tree(*value)),
{
    match json_node(value) {
        JsonNode::Bool(b) => Some(b),
        JsonNode::Number { integer, .. } => match integer {
            Some(n) => Some(n != 0),
            None => None,
        },
        JsonNode::Text(s) => parse_malicious_value(s, true),
        _ => None,
    }
}

fn find_verdict(members: &Vec<(&str, &serde_json::Value)>, default: bool) -> (b: bool)
    ensures
        b == object_verdict(member_trees(members@), default),
{
    let ghost trees = member_trees(members@);
    let mut i: usize = 0;
    assert(trees.skip(0) =~= trees);
    while i < members.len()
        invariant
            i <= members@.len(),
            trees == member_trees(members@),
            object_verdict(trees, default) == object_verdict(trees.skip(i as int), default),
        decreases members@.len() - i,
    {
        let (key, value) = members[i];
        assert(trees.skip(i as int)[0] == (key@, json_tree(*value)));
        if is_malicious_column(key) {
            return match json_value_to_bool(value) {
                Some(b) => b,
                None => default,
            };
        }
        assert(trees.skip(i as int).skip(1) =~= trees.skip(i + 1));
        i = i + 1;
    }
    default
}

fn find_algorithm(members: &Vec<(&str, &serde_json::Value)>) -> (name: String)
    ensures
        name@ == object_algorithm(member_trees(members@)),
{
    let ghost trees = member_trees(members@);
    let mut i: usize = 0;
    assert(trees.skip(0) =~= trees);
    while i < members.len()
        invariant
            i <= members@.len(),
            trees == member_trees(members@),
            object_algorithm(trees) == object_algorithm(trees.skip(i as int)),
        decreases members@.len() - i,
    {
        let (key, value) = members[i];
        assert(trees.skip(i as int)[0] == (key@, json_tree(*value)));
        if same_text(key, "algorithm") {
            return match json_node(value) {
                JsonNode::Text(s) => s.to_owned(),
                _ => "exact".to_owned(),
            };
        }
        assert(trees.skip(i as int).skip(1) =~= trees.skip(i + 1));
        i = i + 1;
    }
    "exact".to_owned()
}

fn find_source(members: &Vec<(&str, &serde_json::Value)>) -> (source: String)
    ensures
        source@ == object_source(member_trees(members@)),
{
    let ghost trees = member_trees(members@);
    let empty = String::new();
    assert(empty@ =~= Seq::empty());
    let mut i: usize = 0;
    assert(trees.skip(0) =~= trees);
    while i < members.len()
        invariant
            i <= members@.len(),
            trees == member_trees(members@),
            empty@ == Seq::<char>::empty(),
            object_source(trees) == object_source(trees.skip(i as int)),
        decreases members@.len() - i,
    {
        let (key, value) = members[i];
        assert(trees.skip(i as int)[0] == (key@, json_tree(*value)));
        if is_source_column(key) {
            return match json_node(value) {
                JsonNode::Text(s) => s.to_owned(),
                _ => empty,
            };
        }
        assert(trees.skip(i as int).skip(1) =~= trees.skip(i + 1));
        i = i + 1;
    }
    empty
}

/// Appends an entry, as one of the source where that is known.
fn push_sourced(output: &mut Vec<HashDbEntry>, entry: Option<HashDbEntry>, source: &str)
    ensures
        db_entries(final(output)@) == db_entries(old(output)@) + sourced(
            match entry {
                Some(e) => Some(e@),
                None => None,
            },
            source@,
        ),
{
    match entry {
        Some(mut e) => {
            let ghost given = e@;
            if source.unicode_len() > 0 {
                e.source = source.to_owned();
                assert(e@ =~= DbEntryView { source: source@, ..given });
            }
            push_entry(output, e);
            assert(db_entries(output@) =~= db_entries(old(output)@) + sourced(
                Some(given),
                source@,
            ));
        },
        None => {
            assert(db_entries(output@) =~= db_entries(old(output)@) + Seq::<DbEntryView>::empty());
        },
    }
}

/// Appends the entries of the members that are hash columns.
fn collect_columns(
    members: &Vec<(&str, &serde_json::Value)>,
    algorithm: &str,
    is_malicious: bool,
    source: &str,
    output: &mut Vec<HashDbEntry>,
)
    ensures
        db_entries(final(output)@) == db_entries(old(output)@) + column_entries(
            member_trees(members@),
            (RowView { algorithm: algorithm@, is_malicious, source: source@ }),
        ),
{
    let ghost trees = member_trees(members@);
    let ghost row = RowView { algorithm: algorithm@, is_malicious, source: source@ };
    let mut i: usize = 0;
    assert(db_entries(output@) =~= db_entries(old(output)@) + column_entries(trees.take(0), row));
    while i < members.len()
        invariant
            i <= members@.len(),
            trees == member_trees(members@),
            row == (RowView { algorithm: algorithm@, is_malicious, source: source@ }),
            db_entries(output@) == db_entries(old(output)@) + column_entries(
                trees.take(i as int),
                row,
            ),
        decreases members@.len() - i,
    {
        let (key, value) = members[i];
        let ghost before = db_entries(output@);
        assert(trees.take(i + 1).drop_last() =~= trees.take(i as int));
        assert(trees.take(i + 1).last() == (key@, json_tree(*value)));
        if let JsonNode::Text(s) = json_node(value) {
            if let Some(fixed) = hash_column_algorithm(key) {
                let name = if fixed.unicode_len() == 0 {
                    algorithm
                } else {
                    fixed
                };
                let entry = make_hash_entry(s, Some(name), is_malicious);
                push_sourced(output, entry, source);
            }
        }
        assert(db_entries(output@) =~= before + column_entry((key@, json_tree(*value)), row));
        assert(db_entries(output@) =~= db_entries(old(output)@) + column_entries(
            trees.take(i + 1),
            row,
        ));
        i = i + 1;
    }
    assert(trees.take(i as int) =~= trees);
}

/// Appends the entries of the members whose names are hashes.
fn collect_keys(
    members: &Vec<(&str, &serde_json::Value)>,
    algorithm: Ghost<Seq<char>>,
    is_malicious: bool,
    source: &str,
    output: &mut Vec<HashDbEntry>,
)
    ensures
        db_entries(final(output)@) == db_entries(old(output)@) + key_entries(
            member_trees(members@),
            (RowView { algorithm: algorithm@, is_malicious, source: source@ }),
        ),
{
    let ghost trees = member_trees(members@);
    let ghost row = RowView { algorithm: algorithm@, is_malicious, source: source@ };
    let mut i: usize = 0;
    assert(db_entries(output@) =~= db_entries(old(output)@) + key_entries(trees.take(0), row));
    while i < members.len()
        invariant
            i <= members@.len(),
            trees == member_trees(members@),
            row == (RowView { algorithm: algorithm@, is_malicious, source: source@ }),
            db_entries(output@) == db_entries(old(output)@) + key_entries(
                trees.take(i as int),
                row,
            ),
        decreases members@.len() - i,
    {
        let (key, value) = members[i];
        let ghost before = db_entries(output@);
        assert(trees.take(i + 1).drop_last() =~= trees.take(i as int));
        assert(trees.take(i + 1).last() == (key@, json_tree(*value)));
        if infer_algorithm(key).is_some() {
            let malicious = match json_value_to_bool(value) {
                Some(b) => b,
                None => is_malicious,
            };
            let entry = make_hash_entry(key, None, malicious);
            push_sourced(output, entry, source);
        }
        assert(db_entries(output@) =~= before + key_entry((key@, json_tree(*value)), row));
        assert(db_entries(output@) =~= db_entries(old(output)@) + key_entries(
            trees.take(i + 1),
            row,
        ));
        i = i + 1;
    }
    assert(trees.take(i as int) =~= trees);
}

fn holds_rows(key: &str) -> (b: bool)
    ensures
        b == names_rows(key@),
{
    let text = normalize_column_name(key);
    let name = text.as_str();
    same_text(name, "data") || same_text(name, "items") || same_text(name, "hashes") || same_text(
        name,
        "results",
    ) || same_text(name, "indicators") || same_text(name, "records")
}

proof fn lemma_item_smaller(tree: JsonTree, items: Seq<JsonTree>, i: int)
    requires
        tree == JsonTree::List(items),
        0 <= i < items.len(),
    ensures
        decreases_to!(tree => items[i]),
{
    assert(decreases_to!(tree => tree->List_0));
    assert(decreases_to!(items => items[i]));
}

proof fn lemma_member_smaller(tree: JsonTree, members: Seq<(Seq<char>, JsonTree)>, i: int)
    requires
        tree == JsonTree::Object(members),
        0 <= i < members.len(),
    ensures
        decreases_to!(tree => members[i].1),
{
    assert(decreases_to!(tree => tree->Object_0));
    assert(decreases_to!(members => members[i]));
    assert(decreases_to!(members[i] => members[i].1));
}

/// Appends the entries of a document.
pub fn collect_json_hashes(
    value: &serde_json::Value,
    default_malicious: bool,
    output: &mut Vec<HashDbEntry>,
)
    ensures
        db_entries(final(output)@) == db_entries(old(output)@) + tree_entries(
            json_tree(*value),
            default_malicious,
        ),
    decreases json_tree(*value),
{
    let ghost tree = json_tree(*value);
    match json_node(value) {
        JsonNode::Text(s) => {
            let entry = make_hash_entry(s, None, default_malicious);
            let empty = String::new();
            assert(empty@ =~= Seq::empty());
            push_sourced(output, entry, empty.as_str());
        },
        JsonNode::List(items) => {
            let ghost trees = list_trees(items@);
            let mut i: usize = 0;
            assert(db_entries(output@) =~= db_entries(old(output)@) + list_tree_entries(
                trees.subrange(0, 0),
                default_malicious,
            ));
            while i < items.len()
                invariant
                    i <= items@.len(),
                    trees == list_trees(items@),
                    tree == JsonTree::List(trees),
                    tree == json_tree(*value),
                    db_entries(output@) == db_entries(old(output)@) + list_tree_entries(
                        trees.subrange(0, i as int),
                        default_malicious,
                    ),
                decreases items@.len() - i,
            {
                proof {
                    lemma_item_smaller(tree, trees, i as int);
                }
                let ghost next = trees.subrange(0, i + 1);
                assert(next.subrange(0, next.len() - 1) =~= trees.subrange(0, i as int));
                assert(next[next.len() - 1] == json_tree(*items@[i as int]));
                collect_json_hashes(items[i], default_malicious, output);
                assert(db_entries(output@) =~= db_entries(old(output)@) + list_tree_entries(
                    next,
                    default_malicious,
                ));
                i = i + 1;
            }
            assert(trees.subrange(0, i as int) =~= trees);
        },
        JsonNode::Object(members) => {
            let ghost trees = member_trees(members@);
            let is_malicious = find_verdict(&members, default_malicious);
            let algorithm = find_algorithm(&members);
            let source = find_source(&members);
            let ghost row = row_of(trees, default_malicious);
            let held: usize = output.len();
            let ghost start = db_entries(output@);
            assert(start.len() == held);
            collect_columns(
                &members,
                algorithm.as_str(),
                is_malicious,
                source.as_str(),
                output,
            );
            let now_held: usize = output.len();
            assert(db_entries(output@).len() == now_held);
            if now_held == held {
                assert(column_entries(trees, row).len() == 0);
                assert(db_entries(output@) =~= start);
                let mut i: usize = 0;
                assert(db_entries(output@) =~= start + nested_entries(
                    trees.subrange(0, 0),
                    is_malicious,
                ));
                while i < members.len()
                    invariant
                        i <= members@.len(),
                        trees == member_trees(members@),
                        tree == JsonTree::Object(trees),
                        tree == json_tree(*value),
                        db_entries(output@) == start + nested_entries(
                            trees.subrange(0, i as int),
                            is_malicious,
                        ),
                    decreases members@.len() - i,
                {
                    proof {
                        lemma_member_smaller(tree, trees, i as int);
                    }
                    let ghost next = trees.subrange(0, i + 1);
                    assert(next.subrange(0, next.len() - 1) =~= trees.subrange(0, i as int));
                    let (key, inner) = members[i];
                    assert(next[next.len() - 1] == (key@, json_tree(*inner)));
                    if holds_rows(key) {
                        collect_json_hashes(inner, is_malicious, output);
                    }
                    assert(db_entries(output@) =~= start + nested_entries(next, is_malicious));
                    i = i + 1;
                }
                assert(trees.subrange(0, i as int) =~= trees);
                collect_keys(
                    &members,
                    Ghost(algorithm@),
                    is_malicious,
                    source.as_str(),
                    output,
                );
                assert(db_entries(output@) =~= start + (nested_entries(trees, is_malicious)
                    + key_entries(trees, row)));
            } else {
                assert(column_entries(trees, row).len() > 0);
            }
        },
        _ => {
            assert(db_entries(output@) =~= db_entries(old(output)@) + Seq::<DbEntryView>::empty());
        },
    }
}

/// The entries of a JSON database, if the text is a document.
pub open spec fn document_entries(text: Seq<char>) -> Option<Seq<DbEntryView>> {
    match json_document(without_start(text, '\u{feff}')) {
        Some(tree) => Some(tree_entries(tree, true)),
        None => None,
    }
}

/// The entries of a JSON database.
pub fn read_hashes_from_json(text: &str) -> (r: Result<Vec<HashDbEntry>, HashError>)
    ensures
        match r {
            Ok(entries) => document_entries(text@) == Some(db_entries(entries@)),
            Err(HashError::Json(_)) => document_entries(text@) is None,
            Err(_) => false,
        },
{
    let chars = chars_of(text);
    let body = strip_start(&chars, '\u{feff}');
    let unmarked = text_of(&body);
    match parse_json(unmarked.as_str()) {
        Ok(value) => {
            let mut entries: Vec<HashDbEntry> = Vec::new();
            collect_json_hashes(&value, true, &mut entries);
            assert(db_entries(entries@) =~= tree_entries(json_tree(value), true));
            Ok(entries)
        },
        Err(fault) => Err(HashError::Json(fault.error)),
    }
}

/// A line of a JSON-lines database that holds a document.
pub open spec fn is_document_line(line: Seq<char>) -> bool {
    bare_line(line).len() > 0 && bare_line(line)[0] != '#'
}

/// The entries of the lines of a JSON-lines database, if each that should hold a document
/// does.
pub open spec fn lines_entries(lines: Seq<Seq<char>>) -> Option<Seq<DbEntryView>>
    decreases lines.len(),
{
    if lines.len() == 0 {
        Some(Seq::empty())
    } else {
        let before = lines_entries(lines.drop_last());
        let line = lines.last();
        if before is None || !is_document_line(line) {
            before
        } else {
            match json_document(bare_line(line)) {
                Some(tree) => Some(before->0 + tree_entries(tree, true)),
                None => None,
            }
        }
    }
}

proof fn lemma_lines_fail(lines: Seq<Seq<char>>, i: int)
    requires
        0 <= i <= lines.len(),
        lines_entries(lines.take(i)) is None,
    ensures
        lines_entries(lines) is None,
    decreases lines.len() - i,
{
    if i < lines.len() {
        assert(lines.take(i + 1).drop_last() =~= lines.take(i));
        lemma_lines_fail(lines, i + 1);
    } else {
        assert(lines.take(i) =~= lines);
    }
}

/// The entries of a JSON-lines database: one document to a line.
pub fn read_hashes_from_jsonl(text: &str) -> (r: Result<Vec<HashDbEntry>, HashError>)
    ensures
        match r {
            Ok(entries) => lines_entries(lines_of(text@)) == Some(db_entries(entries@)),
            Err(HashError::Json(_)) => lines_entries(lines_of(text@)) is None,
            Err(_) => false,
        },
{
    let items = lines(text);
    let ghost views = texts(items@);
    let mut entries: Vec<HashDbEntry> = Vec::new();
    let mut i: usize = 0;
    assert(db_entries(entries@) =~= Seq::empty());
    while i < items.len()
        invariant
            i <= items@.len(),
            views == texts(items@),
            views == lines_of(text@),
            lines_entries(views.take(i as int)) == Some(db_entries(entries@)),
        decreases items@.len() - i,
    {
        assert(views.take(i + 1).drop_last() =~= views.take(i as int));
        assert(views.take(i + 1).last() == items@[i as int]@);
        let chars = chars_of(items[i].as_str());
        let body = trim_chars(&chars);
        let bare = strip_start(&body, '\u{feff}');
        if bare.len() > 0 && bare[0] != '#' {
            let line = text_of(&bare);
            match parse_json(line.as_str()) {
                Ok(value) => {
                    collect_json_hashes(&value, true, &mut entries);
                },
                Err(fault) => {
                    proof {
                        lemma_lines_fail(views, i + 1);
                    }
                    return Err(HashError::Json(fault.error));
                },
            }
        }
        i = i + 1;
    }
    assert(views.take(i as int) =~= views);
    Ok(entries)
}

} // verus!
