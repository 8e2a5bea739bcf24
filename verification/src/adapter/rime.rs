//! Exchange with Rime's user dictionary in its text form (`.userdb.txt`):
//! metadata lines start with `#`; every other line is `code`, a tab, `word`,
//! a tab, and space-separated fields among which `c=N` is the commit count.

use vstd::prelude::*;

use crate::db::entry::{copy_opt_string, Entry, EntrySource};
use crate::db::merge::{find_entry, first_match};
use crate::db::store::FreqDb;
use crate::error::CiError;
use crate::text::{
    all_digits, chars_of, decimal_chars, decimal_value, lemma_split_len, push_chars, push_decimal,
    split, split_chars, string_of,
};
use crate::time::{now, Timestamp};

verus! {

/// A word read from a user dictionary: its code, the word, its commit count.
pub type UserdbRecord = (Seq<char>, Seq<char>, u32);

/// `n`, or `u32::MAX` where it is larger.
pub open spec fn saturate(n: nat) -> u32 {
    if n > u32::MAX { u32::MAX } else { n as u32 }
}

/// `p` is a commit count field: `c=` followed by one or more digits.
pub open spec fn is_count_piece(p: Seq<char>) -> bool {
    p.len() >= 3 && p[0] == 'c' && p[1] == '=' && all_digits(p.skip(2))
}

/// The first commit count among the pieces `ps`, or 0 where there is none.
pub open spec fn count_in(ps: Seq<Seq<char>>) -> u32
    decreases ps.len(),
{
    if ps.len() == 0 {
        0
    } else if is_count_piece(ps[0]) {
        saturate(decimal_value(ps[0].skip(2)))
    } else {
        count_in(ps.drop_first())
    }
}

/// The commit count that the third field of a line states (space-separated
/// `key=value` pieces), saturated at `u32::MAX`; 0 where it states none.
pub open spec fn commit_count(field: Seq<char>) -> u32 {
    count_in(split(field, ' '))
}

/// The word that a line of a user dictionary holds: none for an empty line, a
/// metadata line (`#`) or a line without a non-empty code and word.
pub open spec fn parse_line(line: Seq<char>) -> Option<UserdbRecord> {
    let f = split(line, '\t');
    if line.len() == 0 || line[0] == '#' || f.len() < 2 || f[0].len() == 0 || f[1].len() == 0 {
        None
    } else {
        Some((f[0], f[1], if f.len() >= 3 { commit_count(f[2]) } else { 0 }))
    }
}

/// The words that the lines `lines` hold, in order.
pub open spec fn records_of(lines: Seq<Seq<char>>) -> Seq<UserdbRecord>
    decreases lines.len(),
{
    if lines.len() == 0 {
        Seq::empty()
    } else {
        let rest = records_of(lines.drop_last());
        match parse_line(lines.last()) {
            Some(r) => rest.push(r),
            None => rest,
        }
    }
}

/// The words that a user dictionary's text holds, line by line.
pub open spec fn userdb_records(text: Seq<char>) -> Seq<UserdbRecord> {
    records_of(split(text, '\n'))
}

/// `e` is the entry of the word `r`, typed through the input method, as
/// learnt at `at`, with no previous word.
pub open spec fn is_record_entry(e: Entry, r: UserdbRecord, at: Timestamp) -> bool {
    &&& e.code@ == r.0
    &&& e.word@ == r.1
    &&& e.freq == r.2
    &&& e.updated == at
    &&& e.prev is None
    &&& e.source is Ime
}

/// `es` are the entries of the words `rs`, one for one, learnt at `at`.
pub open spec fn entries_of_records(es: Seq<Entry>, rs: Seq<UserdbRecord>, at: Timestamp) -> bool {
    es.len() == rs.len() && forall|i: int| 0 <= i < es.len() ==> is_record_entry(#[trigger] es[i], rs[i], at)
}

/// The entry `old` after the input method reported `e` for the same word:
/// `e`'s count, time and source, `old`'s place, code, word and previous word.
pub open spec fn refresh(old: Entry, e: Entry) -> Entry {
    Entry { code: old.code, word: old.word, freq: e.freq, updated: e.updated, prev: old.prev, source: e.source }
}

/// Imports one entry into `m`: refreshes the first entry of the same word, or
/// appends it.
pub open spec fn import_step(m: Seq<Entry>, e: Entry) -> Seq<Entry> {
    let p = first_match(m, e);
    if p >= 0 { m.update(p, refresh(m[p], e)) } else { m.push(e) }
}

/// Imports the entries `es`, in order, into `m`.
pub open spec fn import_entries(m: Seq<Entry>, es: Seq<Entry>) -> Seq<Entry>
    decreases es.len(),
{
    if es.len() == 0 { m } else { import_step(import_entries(m, es.drop_last()), es.last()) }
}

/// The value of the digits `p[2..]`, saturated at `u32::MAX`.
fn count_value(p: &Vec<char>) -> (n: u32)
    requires
        p@.len() >= 2,
        all_digits(p@.skip(2)),
    ensures
        n == saturate(decimal_value(p@.skip(2))),
{
    let mut acc: u64 = 0;
    let mut j: usize = 2;
    proof {
        assert(p@.subrange(2, 2) =~= Seq::<char>::empty());
    }
    while j < p.len()
        invariant
            2 <= j <= p@.len(),
            all_digits(p@.skip(2)),
            acc == if decimal_value(p@.subrange(2, j as int)) > u32::MAX {
                u32::MAX as nat + 1
            } else {
                decimal_value(p@.subrange(2, j as int))
            },
        decreases p@.len() - j,
    {
        let ghost v = decimal_value(p@.subrange(2, j as int));
        proof {
            assert(p@.skip(2)[j - 2] == p@[j as int]);
        }
        let c = p[j] as u32;
        let d: u64 = (c - 48) as u64;
        proof {
            let s = p@.subrange(2, j + 1);
            assert(s.drop_last() =~= p@.subrange(2, j as int));
            assert(s.last() == p@[j as int]);
            assert(decimal_value(s) == v * 10 + d);
        }
        if acc <= u32::MAX as u64 {
            acc = acc * 10 + d;
            if acc > u32::MAX as u64 {
                acc = u32::MAX as u64 + 1;
            }
        }
        j = j + 1;
    }
    proof {
        assert(p@.subrange(2, p@.len() as int) =~= p@.skip(2));
    }
    if acc > u32::MAX as u64 { u32::MAX } else { acc as u32 }
}

/// Whether `p` is a commit count field (`c=` and digits).
fn is_count_field(p: &Vec<char>) -> (b: bool)
    ensures
        b == is_count_piece(p@),
{
    if p.len() < 3 || p[0] != 'c' || p[1] != '=' {
        return false;
    }
    let mut j: usize = 2;
    while j < p.len()
        invariant
            2 <= j <= p@.len(),
            forall|k: int| 2 <= k < j ==> crate::text::is_digit(#[trigger] p@[k]),
        decreases p@.len() - j,
    {
        let c = p[j] as u32;
        if c < 48 || c > 57 {
            proof {
                assert(p@.skip(2)[j - 2] == p@[j as int]);
            }
            return false;
        }
        j = j + 1;
    }
    proof {
        assert forall|i: int| 0 <= i < p@.skip(2).len() implies crate::text::is_digit(#[trigger] p@.skip(2)[i]) by {
            assert(p@.skip(2)[i] == p@[i + 2]);
        }
    }
    true
}

/// The commit count that a line's third field states.
fn field_count(field: &Vec<char>) -> (n: u32)
    ensures
        n == commit_count(field@),
{
    let pieces = split_chars(field, ' ');
    let ghost ps = split(field@, ' ');
    let mut k: usize = 0;
    proof {
        assert(ps.skip(0) =~= ps);
    }
    while k < pieces.len()
        invariant
            pieces@.len() == ps.len(),
            forall|i: int| 0 <= i < pieces@.len() ==> (#[trigger] pieces@[i])@ == ps[i],
            ps == split(field@, ' '),
            0 <= k <= ps.len(),
            count_in(ps) == count_in(ps.skip(k as int)),
        decreases ps.len() - k,
    {
        proof {
            assert(ps.skip(k as int)[0] == ps[k as int]);
            assert(ps.skip(k as int).drop_first() =~= ps.skip(k + 1));
        }
        if is_count_field(&pieces[k]) {
            return count_value(&pieces[k]);
        }
        k = k + 1;
    }
    proof {
        assert(ps.skip(k as int).len() == 0);
    }
    0
}

/// The entry of the word that `line` holds, learnt at `at`, if it holds one.
fn parse_line_entry(line: &Vec<char>, at: Timestamp) -> (r: Option<Entry>)
    ensures
        match parse_line(line@) {
            None => r is None,
            Some(rec) => r matches Some(e) && is_record_entry(e, rec, at),
        },
{
    if line.len() == 0 || line[0] == '#' {
        return None;
    }
    let fields = split_chars(line, '\t');
    proof {
        lemma_split_len(line@, '\t');
    }
    if fields.len() < 2 || fields[0].len() == 0 || fields[1].len() == 0 {
        return None;
    }
    let count = if fields.len() >= 3 { field_count(&fields[2]) } else { 0 };
    Some(Entry {
        code: string_of(&fields[0]),
        word: string_of(&fields[1]),
        freq: count,
        updated: at,
        prev: None,
        source: EntrySource::Ime,
    })
}

/// The entries of the words that a user dictionary's text holds, in order,
/// each typed through the input method, learnt at `at`, with no previous word.
pub fn parse_userdb(userdb: &str, at: Timestamp) -> (es: Vec<Entry>)
    ensures
        entries_of_records(es@, userdb_records(userdb@), at),
{
    let chars = chars_of(userdb);
    let lines = split_chars(&chars, '\n');
    let ghost ls = split(userdb@, '\n');
    let mut es: Vec<Entry> = Vec::new();
    for i in 0..lines.len()
        invariant
            lines@.len() == ls.len(),
            forall|k: int| 0 <= k < lines@.len() ==> (#[trigger] lines@[k])@ == ls[k],
            ls == split(userdb@, '\n'),
            entries_of_records(es@, records_of(ls.take(i as int)), at),
    {
        proof {
            assert(ls.take(i + 1).drop_last() =~= ls.take(i as int));
            assert(ls.take(i + 1).last() == ls[i as int]);
        }
        match parse_line_entry(&lines[i], at) {
            Some(e) => {
                es.push(e);
            },
            None => {},
        }
        proof {
            let rs = records_of(ls.take(i + 1));
            assert forall|k: int| 0 <= k < es@.len() implies is_record_entry(#[trigger] es@[k], rs[k], at) by {
                let prev = records_of(ls.take(i as int));
                if k < prev.len() {
                    assert(rs[k] == prev[k]);
                }
            }
        }
    }
    proof {
        assert(ls.take(ls.len() as int) =~= ls);
    }
    es
}

/// The entry `old` after the input method reported `e` for the same word.
fn refresh_entry(old: &Entry, e: &Entry) -> (r: Entry)
    ensures
        r == refresh(*old, *e),
{
    Entry {
        code: old.code.clone(),
        word: old.word.clone(),
        freq: e.freq,
        updated: e.updated,
        prev: copy_opt_string(&old.prev),
        source: e.source.duplicate(),
    }
}

/// Imports the entries `parsed` into `freq_db`: each refreshes the first
/// entry of its word, or is appended; the device's entry count is updated.
pub fn import_entries_into(freq_db: &mut FreqDb, parsed: &Vec<Entry>)
    ensures
        final(freq_db).entries@ == import_entries(old(freq_db).entries@, parsed@),
        final(freq_db).version == old(freq_db).version,
        final(freq_db).device.id == old(freq_db).device.id,
        final(freq_db).device.name == old(freq_db).device.name,
        final(freq_db).device.total_entries == final(freq_db).entries@.len() as u32,
{
    let n = parsed.len();
    for k in 0..n
        invariant
            n == parsed@.len(),
            freq_db.entries@ == import_entries(old(freq_db).entries@, parsed@.take(k as int)),
            freq_db.version == old(freq_db).version,
            freq_db.device == old(freq_db).device,
    {
        let e = &parsed[k];
        proof {
            let es = parsed@.take(k + 1);
            assert(es.drop_last() =~= parsed@.take(k as int));
            assert(es.last() == parsed@[k as int]);
        }
        match find_entry(&freq_db.entries, e) {
            Some(i) => {
                let r = refresh_entry(&freq_db.entries[i], e);
                freq_db.entries.set(i, r);
            },
            None => {
                freq_db.entries.push(e.duplicate());
            },
        }
    }
    proof {
        assert(parsed@.take(n as int) =~= parsed@);
    }
    freq_db.device.total_entries = freq_db.entries.len() as u32;
}

/// Reads the text of Rime's exported user dictionaries (`*.userdb.txt`) into
/// `freq_db` as learnt at `at`: each word refreshes the entry of the same code
/// and word (its count, time and input-method source), or is added.
pub fn import_at(freq_db: &mut FreqDb, userdb: &str, at: Timestamp) -> (r: Result<(), CiError>)
    ensures
        r is Ok,
        exists|parsed: Seq<Entry>|
            #[trigger] entries_of_records(parsed, userdb_records(userdb@), at)
                && import_entries(old(freq_db).entries@, parsed) == final(freq_db).entries@,
        final(freq_db).version == old(freq_db).version,
        final(freq_db).device.id == old(freq_db).device.id,
        final(freq_db).device.name == old(freq_db).device.name,
        final(freq_db).device.total_entries == final(freq_db).entries@.len() as u32,
{
    let parsed = parse_userdb(userdb, at);
    import_entries_into(freq_db, &parsed);
    Ok(())
}

/// Reads the text of Rime's exported user dictionaries (`*.userdb.txt`) into
/// `freq_db`, as learnt now by the system clock.
pub fn import(freq_db: &mut FreqDb, userdb: &str) -> (r: Result<(), CiError>)
    ensures
        r is Ok,
        exists|at: Timestamp, parsed: Seq<Entry>|
            at.secs >= 0 && at.nanos < 1_000_000_000 && #[trigger] entries_of_records(parsed, userdb_records(userdb@), at)
                && import_entries(old(freq_db).entries@, parsed) == final(freq_db).entries@,
        final(freq_db).version == old(freq_db).version,
        final(freq_db).device.id == old(freq_db).device.id,
        final(freq_db).device.name == old(freq_db).device.name,
        final(freq_db).device.total_entries == final(freq_db).entries@.len() as u32,
{
    let at = now();
    import_at(freq_db, userdb, at)
}

/// The metadata line that opens an exported user dictionary.
pub open spec fn userdb_header() -> Seq<char> {
    seq!['#', '@', '/', 'd', 'b', '_', 't', 'y', 'p', 'e', '\t', 'u', 's', 'e', 'r', 'd', 'b', '\n']
}

/// The line of an exported user dictionary for `e`: code, tab, word, tab,
/// `c=` and the frequency, newline.
pub open spec fn userdb_line(e: Entry) -> Seq<char> {
    e.code@ + seq!['\t'] + e.word@ + seq!['\t', 'c', '='] + decimal_chars(e.freq as nat) + seq!['\n']
}

/// The exported user dictionary of the entries `es`: the metadata line, then
/// one line per entry, in order.
pub open spec fn userdb_text(es: Seq<Entry>) -> Seq<char>
    decreases es.len(),
{
    if es.len() == 0 { userdb_header() } else { userdb_text(es.drop_last()) + userdb_line(es.last()) }
}

/// Appends one character.
fn push_one(s: &mut String, c: char)
    ensures
        final(s)@ == old(s)@.push(c),
{
    let v: Vec<char> = vec![c];
    push_chars(s, &v);
    assert(v@ =~= seq![c]);
}

/// Appends the characters of a string.
fn push_string(s: &mut String, t: &String)
    ensures
        final(s)@ == old(s)@ + t@,
{
    let v = chars_of(t.as_str());
    push_chars(s, &v);
}

/// The Rime user dictionary text of `freq_db`, for `rime_dict_manager -r`:
/// a metadata line, then one line per entry with its code, word and
/// frequency (`code\tword\tc=N`).
pub fn export(freq_db: &FreqDb) -> (text: String)
    ensures
        text@ == userdb_text(freq_db.entries@),
{
    let mut s = String::new();
    let header: Vec<char> = vec!['#', '@', '/', 'd', 'b', '_', 't', 'y', 'p', 'e', '\t', 'u', 's', 'e', 'r', 'd', 'b', '\n'];
    push_chars(&mut s, &header);
    proof {
        assert(s@ =~= userdb_header());
        assert(freq_db.entries@.take(0) =~= Seq::<Entry>::empty());
    }
    let n = freq_db.entries.len();
    for k in 0..n
        invariant
            n == freq_db.entries@.len(),
            s@ == userdb_text(freq_db.entries@.take(k as int)),
    {
        let e = &freq_db.entries[k];
        let ghost before = s@;
        push_string(&mut s, &e.code);
        push_one(&mut s, '\t');
        push_string(&mut s, &e.word);
        push_one(&mut s, '\t');
        push_one(&mut s, 'c');
        push_one(&mut s, '=');
        push_decimal(&mut s, e.freq);
        push_one(&mut s, '\n');
        proof {
            let es = freq_db.entries@.take(k + 1);
            assert(es.drop_last() =~= freq_db.entries@.take(k as int));
            assert(es.last() == *e);
            assert(s@ =~= before + userdb_line(*e));
        }
    }
    proof {
        assert(freq_db.entries@.take(n as int) =~= freq_db.entries@);
    }
    s
}

} // verus!
