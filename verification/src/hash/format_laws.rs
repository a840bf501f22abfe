//! What hash lists and tables must be read as.

use crate::hash::columns::{
    algorithm_name, column_algorithm, column_name, db_entry, inferred_algorithm, names_verdict,
    normalized_hash, verdict,
};
use crate::hash::lines::{
    bare_line, candidate_of, field_entry, fields_of, first_entry, given_verdict, line_entry,
    list_entries, named_algorithm, pieces_of,
};
use crate::hash::similarity::normalized_fuzzy;
use crate::hash::tables::{
    cell_entry, record_entries, record_facts, record_hashes, row_entries, table_entries,
    verdict_column, RowFacts,
};
use crate::text::{
    before_first, begins_with, index_from, is_hex_digit, lemma_split_piece, lemma_trimmed, lowered,
    not_empty, split_by, trimmed, unicode_lower, without_around, without_start,
};
use crate::text_laws::law_first_place_is_first;
use vstd::prelude::*;

verus! {

/// A text is an exact hash exactly where it has the length of one and hexadecimal digits
/// alone, and its length tells the algorithm.
pub proof fn law_hashes_are_hexadecimal(value: Seq<char>)
    ensures
        ({
            let low = unicode_lower(trimmed(value));
            let sized = low.len() == 32 || low.len() == 40 || low.len() == 64 || low.len() == 128;
            let hexadecimal = forall|i: int|
                0 <= i < low.len() ==> '0' <= #[trigger] low[i] <= '9' || 'a' <= low[i] <= 'f'
                    || 'A' <= low[i] <= 'F';
            &&& normalized_hash(value) is Some <==> sized && hexadecimal
            &&& normalized_hash(value) is Some ==> normalized_hash(value)->0 == low
            &&& normalized_hash(value) is Some && normalized_fuzzy(value) is None ==> {
                &&& low.len() == 32 ==> inferred_algorithm(value) == Some("md5"@)
                &&& low.len() == 40 ==> inferred_algorithm(value) == Some("sha1"@)
                &&& low.len() == 64 ==> inferred_algorithm(value) == Some("sha256"@)
                &&& low.len() == 128 ==> inferred_algorithm(value) == Some("sha512"@)
            }
        }),
{
    let low = unicode_lower(trimmed(value));
    if forall|i: int|
        0 <= i < low.len() ==> '0' <= #[trigger] low[i] <= '9' || 'a' <= low[i] <= 'f' || 'A'
            <= low[i] <= 'F' {
        assert forall|i: int| 0 <= i < low.len() implies is_hex_digit(#[trigger] low[i]) by {}
    } else {
        let i = choose|i: int|
            0 <= i < low.len() && !('0' <= #[trigger] low[i] <= '9' || 'a' <= low[i] <= 'f' || 'A'
                <= low[i] <= 'F');
        assert(!is_hex_digit(low[i]));
    }
}

/// The words of a verdict are told apart in any case, between quotes and white space.
pub proof fn law_verdicts_are_read(value: Seq<char>, default: bool)
    ensures
        ({
            let word = lowered(without_around(trimmed(value), '"'));
            &&& word == "1"@ || word == "true"@ || word == "yes"@ || word == "y"@ || word
                == "malicious"@ || word == "infected"@ || word == "detected"@ || word == "online"@
                ==> verdict(value, default) == Some(true)
            &&& word.len() == 0 ==> verdict(value, default) == Some(default)
        }),
{
    reveal_strlit("1");
    reveal_strlit("true");
    reveal_strlit("yes");
    reveal_strlit("y");
    reveal_strlit("malicious");
    reveal_strlit("infected");
    reveal_strlit("detected");
    reveal_strlit("online");
    lemma_harmless_words_are_there();
}

proof fn lemma_harmless_words_are_there()
    ensures
        "0"@.len() == 1 && "0"@[0] == '0',
        "false"@.len() == 5 && "false"@[0] == 'f',
        "no"@.len() == 2 && "no"@[0] == 'n',
        "n"@.len() == 1 && "n"@[0] == 'n',
        "clean"@.len() == 5 && "clean"@[0] == 'c',
        "benign"@.len() == 6 && "benign"@[0] == 'b',
        "allow"@.len() == 5 && "allow"@[0] == 'a',
        "allowed"@.len() == 7 && "allowed"@[0] == 'a',
        "undetected"@.len() == 10 && "undetected"@[0] == 'u',
        "whitelisted"@.len() == 11 && "whitelisted"@[0] == 'w',
{
    reveal_strlit("0");
    reveal_strlit("false");
    reveal_strlit("no");
    reveal_strlit("n");
    reveal_strlit("clean");
    reveal_strlit("benign");
    reveal_strlit("allow");
    reveal_strlit("allowed");
    reveal_strlit("undetected");
    reveal_strlit("whitelisted");
}

proof fn lemma_harmful_words_are_there()
    ensures
        "1"@.len() == 1 && "1"@[0] == '1',
        "true"@.len() == 4,
        "yes"@.len() == 3,
        "y"@.len() == 1 && "y"@[0] == 'y',
        "malicious"@.len() == 9,
        "infected"@.len() == 8,
        "detected"@.len() == 8,
        "online"@.len() == 6 && "online"@[0] == 'o',
{
    reveal_strlit("1");
    reveal_strlit("true");
    reveal_strlit("yes");
    reveal_strlit("y");
    reveal_strlit("malicious");
    reveal_strlit("infected");
    reveal_strlit("detected");
    reveal_strlit("online");
}

/// The words of a clean verdict are told apart in the same way.
pub proof fn law_clean_verdicts_are_read(value: Seq<char>, default: bool)
    ensures
        ({
            let word = lowered(without_around(trimmed(value), '"'));
            word == "0"@ || word == "false"@ || word == "no"@ || word == "n"@ || word == "clean"@
                || word == "benign"@ || word == "allow"@ || word == "allowed"@ || word
                == "undetected"@ || word == "whitelisted"@ ==> verdict(value, default)
                == Some(false)
        }),
{
    lemma_harmless_words_are_there();
    lemma_harmful_words_are_there();
}

/// Blank lines and comments list nothing.
pub proof fn law_comments_list_nothing(line: Seq<char>)
    ensures
        bare_line(line).len() == 0 ==> line_entry(line) is None,
        bare_line(line).len() > 0 && bare_line(line)[0] == '#' ==> line_entry(line) is None,
        begins_with(bare_line(line), "//"@) ==> line_entry(line) is None,
{
}

/// The character can stand in an exact hash as it is written.
pub open spec fn hash_char(c: char) -> bool {
    '0' <= c <= '9' || 'a' <= c <= 'f' || 'A' <= c <= 'F'
}

proof fn lemma_one_field(s: Seq<char>)
    requires
        s.len() > 0,
        forall|i: int| 0 <= i < s.len() ==> hash_char(#[trigger] s[i]),
    ensures
        pieces_of(s) == seq![s],
        fields_of(s) == seq![s],
    decreases s.len(),
{
    let front = s.drop_last();
    assert(hash_char(s[s.len() - 1]));
    if front.len() == 0 {
        assert(front =~= Seq::empty());
        assert(pieces_of(front) == seq![Seq::<char>::empty()]);
        assert(pieces_of(s) =~= seq![s]) by {
            assert(Seq::<char>::empty().push(s.last()) =~= s);
        }
    } else {
        assert forall|i: int| 0 <= i < front.len() implies hash_char(#[trigger] front[i]) by {
            assert(front[i] == s[i]);
        }
        lemma_one_field(front);
        assert(front.push(s.last()) =~= s);
        assert(pieces_of(s) =~= seq![s]);
    }
    let one = seq![s];
    assert(one.drop_last() =~= Seq::<Seq<char>>::empty());
    assert(one.last() == s);
    assert(not_empty(one.drop_last()) == Seq::<Seq<char>>::empty());
    assert(not_empty(one) =~= seq![s]);
}

proof fn lemma_hash_is_plain(h: Seq<char>)
    requires
        h.len() > 0,
        forall|i: int| 0 <= i < h.len() ==> hash_char(#[trigger] h[i]),
    ensures
        trimmed(h) == h,
        without_around(h, '"') == h,
        without_start(h, '\u{feff}') == h,
        !h.contains('='),
        !h.contains(':'),
        !h.contains('#'),
        column_name(h).len() == h.len(),
        before_first(h, " #"@) == h,
        bare_line(h) == h,
{
    assert(hash_char(h[0]) && hash_char(h[h.len() - 1]));
    lemma_trimmed(h);
    assert forall|c: char| !hash_char(c) implies !(#[trigger] h.contains(c)) by {
        if h.contains(c) {
            let i = h.index_of(c);
            assert(hash_char(h[i]));
        }
    }
    reveal_strlit(" #");
    law_first_place_is_first(h, " #"@, 0);
    let at = index_from(h, " #"@, 0);
    if at < h.len() {
        assert(h.subrange(at, at + 2)[0] == ' ');
        assert(hash_char(h[at]));
    }
    assert(index_from(h, " #"@, 0) == h.len());
    assert(h.take(h.len() as int) =~= h);
}

proof fn lemma_long_is_no_name(h: Seq<char>)
    requires
        h.len() >= 32,
        column_name(h).len() == h.len(),
        without_around(trimmed(h), '"') == h,
    ensures
        algorithm_name(h) is None,
        verdict(h, true) is None,
{
    lemma_harmless_words_are_there();
    lemma_harmful_words_are_there();
    lemma_names_are_short();
}

proof fn lemma_names_are_short()
    ensures
        "exact"@.len() < 32,
        "hash"@.len() < 32,
        "md5"@.len() < 32,
        "sha1"@.len() < 32,
        "sha_1"@.len() < 32,
        "sha256"@.len() < 32,
        "sha_256"@.len() < 32,
        "sha512"@.len() < 32,
        "sha_512"@.len() < 32,
        "fuzzy"@.len() < 32,
        "ssdeep"@.len() < 32,
        "ssdeep_lite"@.len() < 32,
        "spamsum"@.len() < 32,
{
    reveal_strlit("exact");
    reveal_strlit("hash");
    reveal_strlit("md5");
    reveal_strlit("sha1");
    reveal_strlit("sha_1");
    reveal_strlit("sha256");
    reveal_strlit("sha_256");
    reveal_strlit("sha512");
    reveal_strlit("sha_512");
    reveal_strlit("fuzzy");
    reveal_strlit("ssdeep");
    reveal_strlit("ssdeep_lite");
    reveal_strlit("spamsum");
}

/// A line that holds nothing but a hash lists it as malicious.
pub proof fn law_bare_hash_is_listed(h: Seq<char>)
    requires
        h.len() >= 32,
        forall|i: int| 0 <= i < h.len() ==> hash_char(#[trigger] h[i]),
        normalized_hash(h) is Some,
    ensures
        line_entry(h) == Some(db_entry(h, "exact"@, true, Seq::empty())),
{
    lemma_hash_is_plain(h);
    lemma_one_field(h);
    lemma_long_is_no_name(h);
    assert(hash_char(h[0]));
    reveal_strlit("//");
    if begins_with(h, "//"@) {
        assert(h.subrange(0, 2)[0] == '/');
    }
    let fields = seq![h];
    assert(fields.last() == h);
    assert(fields.drop_last() =~= Seq::<Seq<char>>::empty());
    assert(named_algorithm(fields.drop_last()) is None);
    assert(named_algorithm(fields) is None);
    assert(given_verdict(fields.drop_last()));
    assert(given_verdict(fields));
    assert(candidate_of(h) == h);
    lemma_split_piece(Seq::empty(), ':', h);
    assert(split_by(h, ':') == seq![h]);
    assert(normalized_fuzzy(h) is None);
    assert(field_entry(h, None, true) == Some(db_entry(h, "exact"@, true, Seq::empty())));
    assert(first_entry(fields, None, true) == field_entry(fields[0], None, true));
}

/// In a line the last word that gives a verdict decides, and the last that names an
/// algorithm names it.
pub proof fn law_last_word_decides(fields: Seq<Seq<char>>, word: Seq<char>)
    ensures
        algorithm_name(word) is None && verdict(word, true) is Some ==> given_verdict(
            fields.push(word),
        ) == verdict(word, true)->0,
        algorithm_name(word) is None && verdict(word, true) is None ==> given_verdict(
            fields.push(word),
        ) == given_verdict(fields),
        algorithm_name(word) is Some ==> named_algorithm(fields.push(word)) == algorithm_name(word),
        algorithm_name(word) is None ==> named_algorithm(fields.push(word)) == named_algorithm(
            fields,
        ),
{
    assert(fields.push(word).last() == word);
    assert(fields.push(word).drop_last() =~= fields);
}

/// The entries of two stretches of lines follow each other.
pub proof fn law_lines_are_read_one_by_one(
    first: Seq<Seq<char>>,
    second: Seq<Seq<char>>,
    records: bool,
)
    ensures
        list_entries(first + second, records) == list_entries(first, records) + list_entries(
            second,
            records,
        ),
    decreases second.len(),
{
    if second.len() == 0 {
        assert(first + second =~= first);
    } else {
        law_lines_are_read_one_by_one(first, second.drop_last(), records);
        assert((first + second).drop_last() =~= first + second.drop_last());
        assert((first + second).last() == second.last());
    }
    assert(list_entries(first + second, records) =~= list_entries(first, records) + list_entries(
        second,
        records,
    ));
}

proof fn lemma_cell_entered(
    headers: Seq<Seq<char>>,
    hash_at: Seq<Option<Seq<char>>>,
    row: RowFacts,
    n: nat,
    i: int,
)
    requires
        0 <= i < n,
        i < hash_at.len(),
        hash_at[i] is Some,
        column_algorithm(headers[i]) is Some,
    ensures
        row_entries(headers, hash_at, row, n).contains(
            cell_entry(headers, i, hash_at[i]->0, row),
        ),
    decreases n,
{
    let e = cell_entry(headers, i, hash_at[i]->0, row);
    let before = row_entries(headers, hash_at, row, (n - 1) as nat);
    let all = row_entries(headers, hash_at, row, n);
    if i == n - 1 {
        assert(all[before.len() as int] == e);
    } else {
        lemma_cell_entered(headers, hash_at, row, (n - 1) as nat, i);
        let k = before.index_of(e);
        assert(all[k] == e);
    }
}

proof fn lemma_row_marks_entries(
    headers: Seq<Seq<char>>,
    hash_at: Seq<Option<Seq<char>>>,
    row: RowFacts,
    n: nat,
)
    ensures
        forall|k: int|
            0 <= k < row_entries(headers, hash_at, row, n).len() ==> (#[trigger] row_entries(
                headers,
                hash_at,
                row,
                n,
            )[k]).is_malicious == row.is_malicious && row_entries(headers, hash_at, row, n)[k].source
                == row.source,
    decreases n,
{
    if n > 0 {
        lemma_row_marks_entries(headers, hash_at, row, (n - 1) as nat);
        let before = row_entries(headers, hash_at, row, (n - 1) as nat);
        let all = row_entries(headers, hash_at, row, n);
        assert forall|k: int| 0 <= k < all.len() implies (#[trigger] all[k]).is_malicious
            == row.is_malicious && all[k].source == row.source by {
            if k < before.len() {
                assert(all[k] == before[k]);
            }
        }
    }
}

/// Every field of a record in a column of hashes makes an entry, unless it is blank: with the
/// algorithm that the column names, and the verdict and source of the record.
pub proof fn law_every_cell_is_entered(headers: Seq<Seq<char>>, record: Seq<Seq<char>>, i: int)
    requires
        0 <= i < headers.len(),
        i < record.len(),
        column_algorithm(headers[i]) is Some,
        trimmed(record[i]).len() > 0,
    ensures
        exists|k: int|
            0 <= k < record_entries(headers, record).len() && {
                let e = #[trigger] record_entries(headers, record)[k];
                &&& e.hash == trimmed(record[i])
                &&& column_algorithm(headers[i])->0.len() > 0 ==> e.algorithm == column_algorithm(
                    headers[i],
                )->0
                &&& e.is_malicious == record_facts(headers, record).is_malicious
                &&& e.source == record_facts(headers, record).source
            },
{
    let row = record_facts(headers, record);
    let hash_at = record_hashes(record);
    assert(hash_at[i] == Some(trimmed(record[i])));
    lemma_cell_entered(headers, hash_at, row, headers.len(), i);
    let e = cell_entry(headers, i, hash_at[i]->0, row);
    let k = record_entries(headers, record).index_of(e);
    assert(record_entries(headers, record)[k] == e);
}

proof fn lemma_first_verdict_column(headers: Seq<Seq<char>>, at: int)
    requires
        0 <= at < headers.len(),
        names_verdict(headers[at]),
        forall|k: int| 0 <= k < at ==> !names_verdict(#[trigger] headers[k]),
    ensures
        verdict_column(headers) == at,
    decreases at,
{
    if at > 0 {
        let rest = headers.skip(1);
        assert(!names_verdict(headers[0]));
        assert forall|k: int| 0 <= k < at - 1 implies !names_verdict(#[trigger] rest[k]) by {
            assert(rest[k] == headers[k + 1]);
        }
        lemma_first_verdict_column(rest, at - 1);
    }
}

/// The first column of verdicts decides for the whole record; where it says nothing, or there
/// is none, the record is malicious.
pub proof fn law_verdict_column_decides(
    headers: Seq<Seq<char>>,
    record: Seq<Seq<char>>,
    at: int,
    k: int,
)
    requires
        0 <= at < headers.len(),
        at < record.len(),
        names_verdict(headers[at]),
        forall|j: int| 0 <= j < at ==> !names_verdict(#[trigger] headers[j]),
        0 <= k < record_entries(headers, record).len(),
    ensures
        verdict(record[at], true) == Some(false) ==> !record_entries(headers, record)[k].is_malicious,
        verdict(record[at], true) != Some(false) ==> record_entries(headers, record)[k].is_malicious,
{
    lemma_first_verdict_column(headers, at);
    lemma_row_marks_entries(
        headers,
        record_hashes(record),
        record_facts(headers, record),
        headers.len(),
    );
}

/// The entries of two stretches of records follow each other.
pub proof fn law_records_are_read_one_by_one(
    headers: Seq<Seq<char>>,
    first: Seq<Seq<Seq<char>>>,
    second: Seq<Seq<Seq<char>>>,
)
    ensures
        table_entries(headers, first + second) == table_entries(headers, first) + table_entries(
            headers,
            second,
        ),
    decreases second.len(),
{
    if second.len() == 0 {
        assert(first + second =~= first);
    } else {
        law_records_are_read_one_by_one(headers, first, second.drop_last());
        assert((first + second).drop_last() =~= first + second.drop_last());
        assert((first + second).last() == second.last());
    }
    assert(table_entries(headers, first + second) =~= table_entries(headers, first)
        + table_entries(headers, second));
}

} // verus!
