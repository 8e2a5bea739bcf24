//! What every import from Rime keeps and adds.

use vstd::prelude::*;

use super::rime::{
    commit_count, count_in, import_entries, import_step, is_count_piece, parse_line, records_of,
    refresh, saturate, userdb_header, userdb_line, userdb_records, userdb_text, UserdbRecord,
};
use crate::text::{all_digits, decimal_chars, decimal_value, lemma_decimal_round_trip, split};
use crate::db::entry::Entry;
use crate::db::merge::first_match;
use crate::db::merge_laws::{has_key, lemma_first_match, unique_keys};

verus! {

/// Some entry of `s` holds the word of `e` and was typed through the input method.
pub open spec fn has_ime_key(s: Seq<Entry>, e: Entry) -> bool {
    exists|k: int| 0 <= k < s.len() && (#[trigger] s[k]).same_key(e) && s[k].source is Ime
}

/// One import step keeps every entry's place, code and word, and the input
/// method's entries of earlier words.
proof fn lemma_import_step(m: Seq<Entry>, e: Entry, es: Seq<Entry>)
    requires
        e.source is Ime,
    ensures
        ({
            let m2 = import_step(m, e);
            &&& m.len() <= m2.len() <= m.len() + 1
            &&& forall|i: int| 0 <= i < m.len() ==> (#[trigger] m2[i]).code == m[i].code && m2[i].word == m[i].word
            &&& has_ime_key(m2, e)
            &&& forall|j: int| 0 <= j < es.len() && has_ime_key(m, #[trigger] es[j]) ==> has_ime_key(m2, es[j])
            &&& forall|i: int| 0 <= i < m2.len() ==> has_key(m, #[trigger] m2[i]) || m2[i].same_key(e)
        }),
{
    lemma_first_match(m, e);
    let m2 = import_step(m, e);
    let p = first_match(m, e);
    if p >= 0 {
        assert(m2[p] == refresh(m[p], e));
        assert(m2[p].same_key(e));
        assert forall|j: int| 0 <= j < es.len() && has_ime_key(m, #[trigger] es[j]) implies has_ime_key(m2, es[j]) by {
            let k = choose|k: int| 0 <= k < m.len() && (#[trigger] m[k]).same_key(es[j]) && m[k].source is Ime;
            assert(m2[k].same_key(es[j]) && m2[k].source is Ime);
        }
        assert forall|i: int| 0 <= i < m2.len() implies has_key(m, #[trigger] m2[i]) || m2[i].same_key(e) by {
            assert(m[i].same_key(m2[i]));
        }
    } else {
        assert(m2[m.len() as int] == e);
        assert forall|j: int| 0 <= j < es.len() && has_ime_key(m, #[trigger] es[j]) implies has_ime_key(m2, es[j]) by {
            let k = choose|k: int| 0 <= k < m.len() && (#[trigger] m[k]).same_key(es[j]) && m[k].source is Ime;
            assert(m2[k] == m[k]);
        }
        assert forall|i: int| 0 <= i < m2.len() implies has_key(m, #[trigger] m2[i]) || m2[i].same_key(e) by {
            if i < m.len() {
                assert(m[i].same_key(m2[i]));
            }
        }
    }
}

/// An import of words typed through the input method keeps every earlier
/// entry in its place with its code and word, adds at most one entry per
/// word read, holds every word read as an input-method entry, and holds no
/// word that neither the database nor the dictionary held.
pub proof fn law_import_keeps_and_adds(m: Seq<Entry>, es: Seq<Entry>)
    requires
        forall|j: int| 0 <= j < es.len() ==> (#[trigger] es[j]).source is Ime,
    ensures
        ({
            let m2 = import_entries(m, es);
            &&& m.len() <= m2.len() <= m.len() + es.len()
            &&& forall|i: int| 0 <= i < m.len() ==> (#[trigger] m2[i]).code == m[i].code && m2[i].word == m[i].word
            &&& forall|j: int| 0 <= j < es.len() ==> has_ime_key(m2, #[trigger] es[j])
            &&& forall|i: int| 0 <= i < m2.len() ==> has_key(m, #[trigger] m2[i]) || has_key(es, m2[i])
        }),
    decreases es.len(),
{
    if es.len() > 0 {
        let es0 = es.drop_last();
        let e = es.last();
        assert(e == es[es.len() - 1]);
        law_import_keeps_and_adds(m, es0);
        let m0 = import_entries(m, es0);
        let m2 = import_entries(m, es);
        lemma_import_step(m0, e, es);
        assert forall|j: int| 0 <= j < es.len() implies has_ime_key(m2, #[trigger] es[j]) by {
            if j < es0.len() {
                assert(es0[j] == es[j]);
                assert(has_ime_key(m0, es[j]));
            }
        }
        assert forall|i: int| 0 <= i < m2.len() implies has_key(m, #[trigger] m2[i]) || has_key(es, m2[i]) by {
            if m2[i].same_key(e) {
                assert(es[es.len() - 1] == e);
            } else {
                let k = choose|k: int| 0 <= k < m0.len() && (#[trigger] m0[k]).same_key(m2[i]);
                if has_key(m, m0[k]) {
                    let j = choose|j: int| 0 <= j < m.len() && (#[trigger] m[j]).same_key(m0[k]);
                    assert(m[j].same_key(m2[i]));
                } else {
                    let j = choose|j: int| 0 <= j < es0.len() && (#[trigger] es0[j]).same_key(m0[k]);
                    assert(es[j] == es0[j]);
                    assert(es[j].same_key(m2[i]));
                }
            }
        }
    }
}

/// Where the database holds each word at most once, so it does after an import.
pub proof fn law_import_keeps_words_unique(m: Seq<Entry>, es: Seq<Entry>)
    requires
        unique_keys(m),
    ensures
        unique_keys(import_entries(m, es)),
    decreases es.len(),
{
    if es.len() > 0 {
        let es0 = es.drop_last();
        let e = es.last();
        law_import_keeps_words_unique(m, es0);
        let m0 = import_entries(m, es0);
        let m2 = import_entries(m, es);
        lemma_first_match(m0, e);
        let p = first_match(m0, e);
        assert forall|i: int, j: int| 0 <= i < j < m2.len() implies !(#[trigger] m2[i]).same_key(#[trigger] m2[j]) by {
            if j < m0.len() {
                assert(m2[i].same_key(m0[i]));
                assert(m2[j].same_key(m0[j]));
            } else {
                assert(p < 0);
                assert(m2[j] == e);
                assert(m2[i] == m0[i]);
            }
        }
    }
}

/// `s` holds no `sep`.
pub open spec fn free_of(s: Seq<char>, sep: char) -> bool {
    forall|i: int| 0 <= i < s.len() ==> s[i] != sep
}

/// An entry that a user dictionary line can carry: a non-empty code that does
/// not start with `#`, a non-empty word, and neither holding a tab or a newline.
pub open spec fn exportable(e: Entry) -> bool {
    &&& e.code@.len() > 0
    &&& e.code@[0] != '#'
    &&& e.word@.len() > 0
    &&& free_of(e.code@, '\t') && free_of(e.code@, '\n')
    &&& free_of(e.word@, '\t') && free_of(e.word@, '\n')
}

/// The line of `e` without its newline.
pub open spec fn line_content(e: Entry) -> Seq<char> {
    e.code@ + seq!['\t'] + e.word@ + seq!['\t', 'c', '='] + decimal_chars(e.freq as nat)
}

/// The record that an exported entry reads back as.
pub open spec fn record_of(e: Entry) -> UserdbRecord {
    (e.code@, e.word@, e.freq)
}

/// A piece without separators splits into itself.
proof fn lemma_split_single(x: Seq<char>, sep: char)
    requires
        free_of(x, sep),
    ensures
        split(x, sep) == seq![x],
    decreases x.len(),
{
    if x.len() > 0 {
        let x0 = x.drop_last();
        lemma_split_single(x0, sep);
        assert(x.last() == x[x.len() - 1]);
        assert(x.last() != sep);
        assert(x0.push(x.last()) =~= x);
        assert(split(x, sep) == split(x0, sep).update(0, split(x0, sep).last().push(x.last())));
        assert(split(x, sep) =~= seq![x]);
    } else {
        assert(x =~= Seq::<char>::empty());
    }
}

/// Splitting text that follows a separator continues after the pieces
/// before it.
proof fn lemma_split_after_sep(a: Seq<char>, b: Seq<char>, sep: char)
    requires
        a.len() > 0,
        a.last() == sep,
    ensures
        split(a + b, sep) == split(a, sep).drop_last() + split(b, sep),
    decreases b.len(),
{
    crate::text::lemma_split_len(a.drop_last(), sep);
    if b.len() == 0 {
        assert(a + b =~= a);
        assert(split(a, sep) == split(a.drop_last(), sep).push(Seq::<char>::empty()));
        assert(split(a, sep).drop_last() + split(b, sep) =~= split(a, sep));
    } else {
        let b0 = b.drop_last();
        lemma_split_after_sep(a, b0, sep);
        crate::text::lemma_split_len(b0, sep);
        assert((a + b).drop_last() =~= a + b0);
        assert((a + b).last() == b.last());
        let p = split(a, sep).drop_last();
        if b.last() == sep {
            assert(split(a + b, sep) =~= p + split(b, sep));
        } else {
            assert(split(a + b, sep) =~= p + split(b, sep));
        }
    }
}

/// A piece followed by a separator splits into the piece and an empty piece.
proof fn lemma_split_terminated(x: Seq<char>, sep: char)
    requires
        free_of(x, sep),
    ensures
        split(x + seq![sep], sep) == seq![x, Seq::<char>::empty()],
{
    lemma_split_single(x, sep);
    assert((x + seq![sep]).drop_last() =~= x);
}

/// A piece, a separator and the rest split into the piece and the rest's pieces.
proof fn lemma_split_first(x: Seq<char>, rest: Seq<char>, sep: char)
    requires
        free_of(x, sep),
    ensures
        split(x + seq![sep] + rest, sep) == seq![x] + split(rest, sep),
{
    lemma_split_terminated(x, sep);
    lemma_split_after_sep(x + seq![sep], rest, sep);
    assert(split(x + seq![sep], sep).drop_last() =~= seq![x]);
}

/// The line of an exportable entry reads back as its record.
proof fn lemma_parse_exported_line(e: Entry)
    requires
        exportable(e),
    ensures
        parse_line(line_content(e)) == Some(record_of(e)),
{
    let d = decimal_chars(e.freq as nat);
    lemma_decimal_round_trip(e.freq as nat);
    let cd = seq!['c', '='] + d;
    assert(free_of(cd, '\t') && free_of(cd, ' ')) by {
        assert forall|i: int| 0 <= i < cd.len() implies cd[i] != '\t' && cd[i] != ' ' by {
            if i >= 2 {
                assert(cd[i] == d[i - 2]);
                assert(crate::text::is_digit(d[i - 2]));
            }
        }
    }
    let l = line_content(e);
    assert(l =~= e.code@ + seq!['\t'] + (e.word@ + seq!['\t'] + cd));
    lemma_split_first(e.code@, e.word@ + seq!['\t'] + cd, '\t');
    lemma_split_first(e.word@, cd, '\t');
    lemma_split_single(cd, '\t');
    let f = split(l, '\t');
    assert(f =~= seq![e.code@, e.word@, cd]);
    assert(l[0] == e.code@[0]);
    lemma_split_single(cd, ' ');
    assert(cd.skip(2) =~= d);
    assert(is_count_piece(cd));
    assert(count_in(seq![cd]) == saturate(decimal_value(cd.skip(2))));
    assert(commit_count(cd) == e.freq);
}

/// The lines (without newlines) of the entries `es`.
pub open spec fn contents(es: Seq<Entry>) -> Seq<Seq<char>> {
    Seq::new(es.len(), |i: int| line_content(es[i]))
}

/// An exported dictionary ends with a newline.
proof fn lemma_text_ends_with_newline(es: Seq<Entry>)
    ensures
        userdb_text(es).len() > 0,
        userdb_text(es).last() == '\n',
    decreases es.len(),
{
    if es.len() > 0 {
        lemma_text_ends_with_newline(es.drop_last());
    }
}

/// An exported dictionary splits into its metadata line, one line per entry,
/// and an empty last piece.
proof fn lemma_split_text(es: Seq<Entry>)
    requires
        forall|i: int| 0 <= i < es.len() ==> exportable(#[trigger] es[i]),
    ensures
        split(userdb_text(es), '\n') == seq![userdb_header().drop_last()] + contents(es) + seq![Seq::<char>::empty()],
    decreases es.len(),
{
    let hdr = userdb_header().drop_last();
    assert(free_of(hdr, '\n'));
    if es.len() == 0 {
        assert(userdb_header() =~= hdr + seq!['\n']);
        lemma_split_terminated(hdr, '\n');
        assert(contents(es) =~= Seq::<Seq<char>>::empty());
        assert(seq![hdr] + contents(es) + seq![Seq::<char>::empty()] =~= seq![hdr, Seq::<char>::empty()]);
    } else {
        let es0 = es.drop_last();
        let e = es.last();
        assert(exportable(e)) by { assert(e == es[es.len() - 1]); }
        lemma_split_text(es0);
        lemma_text_ends_with_newline(es0);
        let c = line_content(e);
        assert(free_of(c, '\n')) by {
            let d = decimal_chars(e.freq as nat);
            lemma_decimal_round_trip(e.freq as nat);
            assert forall|i: int| 0 <= i < c.len() implies c[i] != '\n' by {
                let cl = e.code@.len() as int;
                let wl = e.word@.len() as int;
                if i < cl {
                    assert(c[i] == e.code@[i]);
                } else if i == cl {
                } else if i < cl + 1 + wl {
                    assert(c[i] == e.word@[i - cl - 1]);
                } else if i < cl + 1 + wl + 3 {
                } else {
                    assert(c[i] == d[i - cl - 1 - wl - 3]);
                    assert(crate::text::is_digit(d[i - cl - 1 - wl - 3]));
                }
            }
        }
        assert(userdb_line(e) =~= c + seq!['\n']);
        lemma_split_terminated(c, '\n');
        lemma_split_after_sep(userdb_text(es0), userdb_line(e), '\n');
        assert(contents(es) =~= contents(es0).push(c));
        assert(split(userdb_text(es), '\n') =~= seq![hdr] + contents(es) + seq![Seq::<char>::empty()]);
    }
}

/// The records of two runs of lines are those of each, in order.
proof fn lemma_records_append(x: Seq<Seq<char>>, y: Seq<Seq<char>>)
    ensures
        records_of(x + y) == records_of(x) + records_of(y),
    decreases y.len(),
{
    if y.len() == 0 {
        assert(x + y =~= x);
        assert(records_of(x) + records_of(y) =~= records_of(x));
    } else {
        lemma_records_append(x, y.drop_last());
        assert((x + y).drop_last() =~= x + y.drop_last());
        assert((x + y).last() == y.last());
        match parse_line(y.last()) {
            Some(r) => {
                assert(records_of(x + y) =~= records_of(x) + records_of(y));
            },
            None => {},
        }
    }
}

/// The lines of exportable entries read back as their records.
proof fn lemma_records_of_contents(es: Seq<Entry>)
    requires
        forall|i: int| 0 <= i < es.len() ==> exportable(#[trigger] es[i]),
    ensures
        records_of(contents(es)) == es.map_values(|e: Entry| record_of(e)),
    decreases es.len(),
{
    if es.len() == 0 {
        assert(es.map_values(|e: Entry| record_of(e)) =~= Seq::<UserdbRecord>::empty());
    } else {
        let es0 = es.drop_last();
        lemma_records_of_contents(es0);
        assert(contents(es).drop_last() =~= contents(es0));
        assert(contents(es).last() == line_content(es.last()));
        assert(exportable(es.last())) by { assert(es.last() == es[es.len() - 1]); }
        lemma_parse_exported_line(es.last());
        assert(es.map_values(|e: Entry| record_of(e)) =~= es0.map_values(|e: Entry| record_of(e)).push(record_of(es.last())));
    }
}

/// What an export writes, an import reads back: the user dictionary text of
/// exportable entries holds exactly their codes, words and frequencies, in
/// order.
pub proof fn law_export_import_round_trip(es: Seq<Entry>)
    requires
        forall|i: int| 0 <= i < es.len() ==> exportable(#[trigger] es[i]),
    ensures
        userdb_records(userdb_text(es)) == es.map_values(|e: Entry| record_of(e)),
{
    let hdr = userdb_header().drop_last();
    lemma_split_text(es);
    lemma_records_append(seq![hdr] + contents(es), seq![Seq::<char>::empty()]);
    lemma_records_append(seq![hdr], contents(es));
    assert(seq![hdr].drop_last() =~= Seq::<Seq<char>>::empty());
    assert(userdb_header()[0] == '#');
    assert(hdr[0] == '#');
    assert(hdr.len() > 0);
    assert(seq![hdr].last() == hdr);
    assert(parse_line(hdr) is None);
    assert(records_of(seq![hdr].drop_last()) =~= Seq::<UserdbRecord>::empty());
    assert(records_of(seq![hdr]) =~= Seq::<UserdbRecord>::empty());
    assert(seq![Seq::<char>::empty()].drop_last() =~= Seq::<Seq<char>>::empty());
    assert(records_of(seq![Seq::<char>::empty()]) =~= Seq::<UserdbRecord>::empty());
    lemma_records_of_contents(es);
    assert(records_of(split(userdb_text(es), '\n')) =~= es.map_values(|e: Entry| record_of(e)));
}

} // verus!
