//! Learning vocabulary from the text files of a repository: front matter and
//! fenced code blocks are left out, each remaining line is cut into words by
//! jieba, and every word written in Chinese characters counts once per
//! occurrence, with the Chinese word before it in the file as its context.

use vstd::prelude::*;

use crate::db::entry::{copy_opt_string, Entry, EntrySource};
use crate::db::merge::{find_entry, first_match};
use crate::db::store::FreqDb;
use crate::error::CiError;
use crate::text::{chars_of, lemma_split_len, split, split_chars, string_of};
use crate::time::{now, Timestamp};

verus! {

#[verifier::external_type_specification]
#[verifier::external_body]
pub struct ExJieba(jieba_rs::Jieba);

/// The words into which jieba, with its embedded default dictionary and
/// without the hidden Markov model, cuts `text`, in order.
pub uninterp spec fn jieba_cut(text: Seq<char>) -> Seq<Seq<char>>;

/// A jieba instance with its embedded default dictionary, from `Jieba::new()`.
///
/// Trusted: nothing is stated of the instance; it is only handed to
/// `cut_words`.
#[verifier::external_body]
fn default_jieba() -> jieba_rs::Jieba {
    jieba_rs::Jieba::new()
}

/// The words of `text`, from `Jieba::cut(text, false)`.
///
/// Trusted: `cut` splits `text` by character class and segments each run of
/// Chinese characters by the dictionary's word graph; its tokens, taken by
/// their `word`, are the words in order. The result is named `jieba_cut(text)`:
/// it depends on the text and the dictionary, and every instance handed here
/// comes from `default_jieba`, so the dictionary is always the default one.
#[verifier::external_body]
fn cut_words(jieba: &jieba_rs::Jieba, text: &str) -> (words: Vec<String>)
    ensures
        words@.len() == jieba_cut(text@).len(),
        forall|i: int| 0 <= i < words@.len() ==> (#[trigger] words@[i])@ == jieba_cut(text@)[i],
{
    jieba.cut(text, false).into_iter().map(|t| t.word.to_string()).collect()
}

/// A word segmenter with jieba's default dictionary.
pub struct Segmenter {
    jieba: jieba_rs::Jieba,
}

impl Segmenter {
    /// A segmenter with jieba's default dictionary.
    pub fn new() -> (s: Segmenter) {
        Segmenter { jieba: default_jieba() }
    }

    /// The words of `text`, in order.
    pub fn cut(&self, text: &str) -> (words: Vec<String>)
        ensures
            words@.len() == jieba_cut(text@).len(),
            forall|i: int| 0 <= i < words@.len() ==> (#[trigger] words@[i])@ == jieba_cut(text@)[i],
    {
        cut_words(&self.jieba, text)
    }
}

/// `c` is a CJK ideograph: in the unified ideographs (U+4E00 to U+9FFF),
/// extension A (U+3400 to U+4DBF), the compatibility ideographs (U+F900 to
/// U+FAFF), or the supplementary ideographic planes (U+20000 to U+3134F).
pub open spec fn is_han(c: char) -> bool {
    ||| 0x4e00 <= (c as u32) <= 0x9fff
    ||| 0x3400 <= (c as u32) <= 0x4dbf
    ||| 0xf900 <= (c as u32) <= 0xfaff
    ||| 0x20000 <= (c as u32) <= 0x3134f
}

/// `w` is a word written in Chinese characters only.
pub open spec fn is_han_word(w: Seq<char>) -> bool {
    w.len() > 0 && forall|i: int| 0 <= i < w.len() ==> is_han(#[trigger] w[i])
}

/// The Chinese words among `ws`, in order.
pub open spec fn han_words(ws: Seq<Seq<char>>) -> Seq<Seq<char>>
    decreases ws.len(),
{
    if ws.len() == 0 {
        Seq::empty()
    } else {
        let r = han_words(ws.drop_last());
        if is_han_word(ws.last()) { r.push(ws.last()) } else { r }
    }
}

/// An occurrence of a word: the word, the Chinese word before it in the same
/// file (if any), and the file's path.
pub type Occurrence = (Seq<char>, Option<Seq<char>>, Seq<char>);

/// The occurrences of the Chinese words `hw` of the file at `path`.
pub open spec fn file_occurrences(hw: Seq<Seq<char>>, path: Seq<char>) -> Seq<Occurrence> {
    Seq::new(hw.len(), |i: int| (hw[i], if i == 0 { None } else { Some(hw[i - 1]) }, path))
}

/// `l` opens or closes a fenced code block: it starts with three backticks.
pub open spec fn is_fence(l: Seq<char>) -> bool {
    l.len() >= 3 && l[0] == '`' && l[1] == '`' && l[2] == '`'
}

/// `l` is a front matter delimiter: exactly `---`.
pub open spec fn is_front_delim(l: Seq<char>) -> bool {
    l.len() == 3 && l[0] == '-' && l[1] == '-' && l[2] == '-'
}

/// The position of the first front matter delimiter in `ls` at or after `i`,
/// or -1 where there is none.
pub open spec fn closing_delim(ls: Seq<Seq<char>>, i: int) -> int
    decreases ls.len() - i,
{
    if i < 0 || i >= ls.len() {
        -1
    } else if is_front_delim(ls[i]) {
        i
    } else {
        closing_delim(ls, i + 1)
    }
}

/// The number of lines of front matter at the start of `ls`: from a first
/// line `---` through the next `---` line; none where the first line is not
/// `---` or the block is not closed.
pub open spec fn front_matter_len(ls: Seq<Seq<char>>) -> int {
    if ls.len() > 0 && is_front_delim(ls[0]) && closing_delim(ls, 1) >= 0 {
        closing_delim(ls, 1) + 1
    } else {
        0
    }
}

/// The lines of `ls` outside fenced code blocks, the fence lines left out;
/// `in_fence` tells whether `ls` starts inside a block.
pub open spec fn prose_lines(ls: Seq<Seq<char>>, in_fence: bool) -> Seq<Seq<char>>
    decreases ls.len(),
{
    if ls.len() == 0 {
        Seq::empty()
    } else if is_fence(ls[0]) {
        prose_lines(ls.drop_first(), !in_fence)
    } else if in_fence {
        prose_lines(ls.drop_first(), true)
    } else {
        seq![ls[0]] + prose_lines(ls.drop_first(), false)
    }
}

/// The lines of a text file that are scanned: those after the front matter
/// and outside fenced code blocks.
pub open spec fn kept_lines(text: Seq<char>) -> Seq<Seq<char>> {
    let ls = split(text, '\n');
    prose_lines(ls.skip(front_matter_len(ls)), false)
}

/// The words into which jieba cuts each of the lines `ls`, in order.
pub open spec fn cut_lines(ls: Seq<Seq<char>>) -> Seq<Seq<char>>
    decreases ls.len(),
{
    if ls.len() == 0 { Seq::empty() } else { cut_lines(ls.drop_last()) + jieba_cut(ls.last()) }
}

/// The Chinese words of a text file, in order, front matter and code blocks
/// left out.
pub open spec fn file_words(text: Seq<char>) -> Seq<Seq<char>> {
    han_words(cut_lines(kept_lines(text)))
}

/// The occurrences of Chinese words in the files `files` (path and text).
pub open spec fn occurrences(files: Seq<(String, String)>) -> Seq<Occurrence>
    decreases files.len(),
{
    if files.len() == 0 {
        Seq::empty()
    } else {
        occurrences(files.drop_last()) + file_occurrences(file_words(files.last().1@), files.last().0@)
    }
}

/// The views of the strings `ws`.
pub open spec fn words_view(ws: Seq<String>) -> Seq<Seq<char>> {
    Seq::new(ws.len(), |i: int| ws[i]@)
}

/// `e` is the entry of the occurrence `o` in repository `repo`, found at `at`:
/// no code, the word, a count of one, the word before it, and the repository
/// and file as its source.
pub open spec fn is_occurrence_entry(e: Entry, o: Occurrence, repo: Seq<char>, at: Timestamp) -> bool {
    &&& e.code@ == Seq::<char>::empty()
    &&& e.word@ == o.0
    &&& e.freq == 1
    &&& e.updated == at
    &&& match o.1 {
        None => e.prev is None,
        Some(p) => e.prev matches Some(q) && q@ == p,
    }
    &&& e.source matches EntrySource::Scan { repo: r, path: q } && r@ == repo && q@ == o.2
}

/// `es` are the entries of the occurrences `os`, one for one.
pub open spec fn entries_of_occurrences(es: Seq<Entry>, os: Seq<Occurrence>, repo: Seq<char>, at: Timestamp) -> bool {
    es.len() == os.len() && forall|i: int| 0 <= i < es.len() ==> is_occurrence_entry(#[trigger] es[i], os[i], repo, at)
}

/// The entry `old` seen once more in a scan (`e`): its count up by one (up to
/// `u32::MAX`), the scan's time, and the scan's previous word where it has none.
pub open spec fn bump(old: Entry, e: Entry) -> Entry {
    Entry {
        code: old.code,
        word: old.word,
        freq: if old.freq < u32::MAX { (old.freq + 1) as u32 } else { old.freq },
        updated: e.updated,
        prev: if old.prev is Some { old.prev } else { e.prev },
        source: old.source,
    }
}

/// Adds one occurrence to `m`: counted on the first entry of the same word,
/// or appended.
pub open spec fn scan_step(m: Seq<Entry>, e: Entry) -> Seq<Entry> {
    let p = first_match(m, e);
    if p >= 0 { m.update(p, bump(m[p], e)) } else { m.push(e) }
}

/// Adds the occurrences `es`, in order, to `m`.
pub open spec fn scan_entries(m: Seq<Entry>, es: Seq<Entry>) -> Seq<Entry>
    decreases es.len(),
{
    if es.len() == 0 { m } else { scan_step(scan_entries(m, es.drop_last()), es.last()) }
}

/// Whether `w` is written in Chinese characters only.
fn han_word(w: &String) -> (b: bool)
    ensures
        b == is_han_word(w@),
{
    let cs = chars_of(w.as_str());
    if cs.len() == 0 {
        return false;
    }
    let mut i: usize = 0;
    while i < cs.len()
        invariant
            i <= cs@.len(),
            cs@ == w@,
            forall|k: int| 0 <= k < i ==> is_han(#[trigger] cs@[k]),
        decreases cs@.len() - i,
    {
        let u = cs[i] as u32;
        if !((0x4e00 <= u && u <= 0x9fff) || (0x3400 <= u && u <= 0x4dbf) || (0xf900 <= u && u <= 0xfaff)
            || (0x20000 <= u && u <= 0x3134f)) {
            return false;
        }
        i = i + 1;
    }
    true
}

/// The entries of the occurrences of the Chinese words among `words` (the
/// words of one file, in order) of the file `path` in repository `repo`,
/// found at `at`: each with the Chinese word before it as its previous word.
pub fn word_entries(repo: &str, path: &String, words: &Vec<String>, at: Timestamp) -> (es: Vec<Entry>)
    ensures
        entries_of_occurrences(es@, file_occurrences(han_words(words_view(words@)), path@), repo@, at),
{
    let ghost cut = words_view(words@);
    let mut es: Vec<Entry> = Vec::new();
    let mut prev: Option<String> = None;
    for k in 0..words.len()
        invariant
            cut == words_view(words@),
            entries_of_occurrences(es@, file_occurrences(han_words(cut.take(k as int)), path@), repo@, at),
            prev is None <==> han_words(cut.take(k as int)).len() == 0,
            prev matches Some(p) ==> p@ == han_words(cut.take(k as int)).last(),
    {
        let ghost hw0 = han_words(cut.take(k as int));
        proof {
            assert(cut.take(k + 1).drop_last() =~= cut.take(k as int));
            assert(cut.take(k + 1).last() == cut[k as int]);
        }
        let w = &words[k];
        if han_word(w) {
            let e = Entry {
                code: String::new(),
                word: w.clone(),
                freq: 1,
                updated: at,
                prev: copy_opt_string(&prev),
                source: EntrySource::Scan { repo: repo.to_owned(), path: path.clone() },
            };
            es.push(e);
            prev = Some(w.clone());
            proof {
                let hw1 = han_words(cut.take(k + 1));
                assert(hw1 == hw0.push(cut[k as int]));
                let os = file_occurrences(hw1, path@);
                let os0 = file_occurrences(hw0, path@);
                assert forall|i: int| 0 <= i < es@.len() implies is_occurrence_entry(#[trigger] es@[i], os[i], repo@, at) by {
                    if i < os0.len() {
                        assert(os[i] == os0[i]);
                    } else {
                        assert(i == hw0.len());
                    }
                }
            }
        }
    }
    proof {
        assert(cut.take(words@.len() as int) =~= cut);
    }
    es
}

/// The lines of `text` that are scanned: after the front matter and outside
/// fenced code blocks.
pub fn kept_text_lines(text: &str) -> (ls: Vec<Vec<char>>)
    ensures
        ls@.len() == kept_lines(text@).len(),
        forall|i: int| 0 <= i < ls@.len() ==> (#[trigger] ls@[i])@ == kept_lines(text@)[i],
{
    let chars = chars_of(text);
    let lines = split_chars(&chars, '\n');
    let ghost all = split(text@, '\n');
    proof {
        lemma_split_len(text@, '\n');
    }
    // front matter
    let mut start: usize = 0;
    if lines.len() > 0 && front_delim(&lines[0]) {
        let mut j: usize = 1;
        let mut found = false;
        while j < lines.len() && !found
            invariant
                1 <= j <= lines@.len(),
                lines@.len() == all.len(),
                forall|k: int| 0 <= k < lines@.len() ==> (#[trigger] lines@[k])@ == all[k],
                !found ==> closing_delim(all, 1) == closing_delim(all, j as int),
                found ==> start as int == closing_delim(all, 1) + 1 && closing_delim(all, 1) >= 0,
                found ==> start <= lines@.len(),
                !found ==> start == 0,
            decreases lines@.len() - j + if found { 0int } else { 1int },
        {
            if front_delim(&lines[j]) {
                start = j + 1;
                found = true;
            } else {
                j = j + 1;
            }
        }
        proof {
            if !found {
                assert(closing_delim(all, j as int) == -1);
            }
        }
    }
    assert(start as int == front_matter_len(all));
    // fenced code blocks
    let ghost rest = all.skip(start as int);
    let mut out: Vec<Vec<char>> = Vec::new();
    let mut in_fence = false;
    let mut i: usize = start;
    proof {
        assert(all.skip(start as int) =~= rest);
    }
    while i < lines.len()
        invariant
            start <= i <= lines@.len(),
            lines@.len() == all.len(),
            forall|k: int| 0 <= k < lines@.len() ==> (#[trigger] lines@[k])@ == all[k],
            rest == all.skip(start as int),
            out@.len() + prose_lines(all.skip(i as int), in_fence).len() == prose_lines(rest, false).len(),
            forall|k: int| 0 <= k < out@.len() ==> (#[trigger] out@[k])@ == prose_lines(rest, false)[k],
            forall|k: int| 0 <= k < prose_lines(all.skip(i as int), in_fence).len()
                ==> #[trigger] prose_lines(all.skip(i as int), in_fence)[k] == prose_lines(rest, false)[out@.len() + k],
        decreases lines@.len() - i,
    {
        let ghost cur = all.skip(i as int);
        proof {
            assert(cur[0] == all[i as int]);
            assert(cur.drop_first() =~= all.skip(i + 1));
        }
        if fence(&lines[i]) {
            in_fence = !in_fence;
        } else if !in_fence {
            let l = copy_chars(&lines[i]);
            out.push(l);
            proof {
                let p = prose_lines(cur, false);
                assert(p == seq![all[i as int]] + prose_lines(all.skip(i + 1), false));
                assert(p[0] == all[i as int]);
                assert forall|k: int| 0 <= k < prose_lines(all.skip(i + 1), false).len()
                    implies #[trigger] prose_lines(all.skip(i + 1), false)[k] == prose_lines(rest, false)[out@.len() + k] by {
                    assert(p[k + 1] == prose_lines(all.skip(i + 1), false)[k]);
                }
            }
        }
        i = i + 1;
    }
    proof {
        assert(all.skip(i as int).len() == 0);
        assert(out@.len() == prose_lines(rest, false).len());
    }
    out
}

/// Whether `l` is `---`.
fn front_delim(l: &Vec<char>) -> (b: bool)
    ensures
        b == is_front_delim(l@),
{
    l.len() == 3 && l[0] == '-' && l[1] == '-' && l[2] == '-'
}

/// Whether `l` starts with three backticks.
fn fence(l: &Vec<char>) -> (b: bool)
    ensures
        b == is_fence(l@),
{
    l.len() >= 3 && l[0] == '`' && l[1] == '`' && l[2] == '`'
}

/// A copy of a list of characters.
fn copy_chars(l: &Vec<char>) -> (r: Vec<char>)
    ensures
        r@ == l@,
{
    let mut r: Vec<char> = Vec::new();
    for i in 0..l.len()
        invariant
            r@ == l@.take(i as int),
    {
        r.push(l[i]);
        assert(r@ =~= l@.take(i + 1));
    }
    assert(l@.take(l.len() as int) =~= l@);
    r
}

/// The words of the scanned lines of `text`, in order.
pub fn text_words(text: &str, segmenter: &Segmenter) -> (words: Vec<String>)
    ensures
        words_view(words@) == cut_lines(kept_lines(text@)),
{
    let lines = kept_text_lines(text);
    let ghost ks = kept_lines(text@);
    let mut words: Vec<String> = Vec::new();
    for k in 0..lines.len()
        invariant
            lines@.len() == ks.len(),
            forall|i: int| 0 <= i < lines@.len() ==> (#[trigger] lines@[i])@ == ks[i],
            words_view(words@) == cut_lines(ks.take(k as int)),
    {
        let line = string_of(&lines[k]);
        let cut = segmenter.cut(line.as_str());
        let ghost before = words@;
        for j in 0..cut.len()
            invariant
                words_view(words@) == words_view(before) + words_view(cut@).take(j as int),
                cut@.len() == jieba_cut(line@).len(),
                forall|i: int| 0 <= i < cut@.len() ==> (#[trigger] cut@[i])@ == jieba_cut(line@)[i],
        {
            let ghost w0 = words@;
            words.push(cut[j].clone());
            proof {
                let a = words_view(words@);
                let b = words_view(before) + words_view(cut@).take(j + 1);
                let a0 = words_view(w0);
                assert(a0 == words_view(before) + words_view(cut@).take(j as int));
                assert(a0.len() == w0.len());
                assert(a.len() == words@.len());
                assert(words_view(cut@).len() == cut@.len());
                assert(words_view(before).len() == before.len());
                assert(a0.len() == before.len() + j);
                assert(a.len() == b.len());
                assert forall|i: int| 0 <= i < a.len() implies a[i] == b[i] by {
                    if i < a0.len() {
                        assert(a[i] == words@[i]@);
                        assert(words@[i] == w0[i]);
                        assert(a0[i] == w0[i]@);
                    } else {
                        assert(words@[i] == cut@[j as int]);
                    }
                }
                assert(a =~= b);
            }
        }
        proof {
            assert(words_view(cut@).take(cut@.len() as int) =~= jieba_cut(line@));
            assert(ks.take(k + 1).drop_last() =~= ks.take(k as int));
            assert(ks.take(k + 1).last() == ks[k as int]);
            assert(line@ == ks[k as int]);
        }
    }
    proof {
        assert(ks.take(lines@.len() as int) =~= ks);
    }
    words
}

/// The entries of the occurrences of Chinese words in `files` (path and text)
/// of the repository `repo`, found at `at`.
pub fn occurrence_entries(repo: &str, files: &Vec<(String, String)>, segmenter: &Segmenter, at: Timestamp) -> (es: Vec<Entry>)
    ensures
        entries_of_occurrences(es@, occurrences(files@), repo@, at),
{
    let mut es: Vec<Entry> = Vec::new();
    for fi in 0..files.len()
        invariant
            entries_of_occurrences(es@, occurrences(files@.take(fi as int)), repo@, at),
    {
        let path = &files[fi].0;
        let words = text_words(files[fi].1.as_str(), segmenter);
        let mut fe = word_entries(repo, path, &words, at);
        let ghost es0 = es@;
        let ghost fe0 = fe@;
        es.append(&mut fe);
        proof {
            let fs = files@.take(fi + 1);
            assert(fs.drop_last() =~= files@.take(fi as int));
            assert(fs.last() == files@[fi as int]);
            let os0 = occurrences(files@.take(fi as int));
            let fo = file_occurrences(file_words(files@[fi as int].1@), files@[fi as int].0@);
            assert(occurrences(fs) == os0 + fo);
            assert forall|i: int| 0 <= i < es@.len() implies is_occurrence_entry(#[trigger] es@[i], (os0 + fo)[i], repo@, at) by {
                if i < es0.len() {
                    assert(es@[i] == es0[i]);
                } else {
                    assert(es@[i] == fe0[i - es0.len()]);
                }
            }
        }
    }
    proof {
        assert(files@.take(files@.len() as int) =~= files@);
    }
    es
}

/// The entry `old` seen once more in a scan.
fn bump_entry(old: &Entry, e: &Entry) -> (r: Entry)
    ensures
        r == bump(*old, *e),
{
    Entry {
        code: old.code.clone(),
        word: old.word.clone(),
        freq: if old.freq < u32::MAX { old.freq + 1 } else { old.freq },
        updated: e.updated,
        prev: if old.prev.is_some() { copy_opt_string(&old.prev) } else { copy_opt_string(&e.prev) },
        source: old.source.duplicate(),
    }
}

/// Adds the occurrences `found` to `freq_db`; the device's entry count is
/// updated.
pub fn add_occurrences(freq_db: &mut FreqDb, found: &Vec<Entry>)
    ensures
        final(freq_db).entries@ == scan_entries(old(freq_db).entries@, found@),
        final(freq_db).version == old(freq_db).version,
        final(freq_db).device.id == old(freq_db).device.id,
        final(freq_db).device.name == old(freq_db).device.name,
        final(freq_db).device.total_entries == final(freq_db).entries@.len() as u32,
{
    let n = found.len();
    for k in 0..n
        invariant
            n == found@.len(),
            freq_db.entries@ == scan_entries(old(freq_db).entries@, found@.take(k as int)),
            freq_db.version == old(freq_db).version,
            freq_db.device == old(freq_db).device,
    {
        let e = &found[k];
        proof {
            let es = found@.take(k + 1);
            assert(es.drop_last() =~= found@.take(k as int));
            assert(es.last() == found@[k as int]);
        }
        match find_entry(&freq_db.entries, e) {
            Some(i) => {
                let r = bump_entry(&freq_db.entries[i], e);
                freq_db.entries.set(i, r);
            },
            None => {
                freq_db.entries.push(e.duplicate());
            },
        }
    }
    proof {
        assert(found@.take(n as int) =~= found@);
    }
    freq_db.device.total_entries = freq_db.entries.len() as u32;
}

/// Scans the files `files` (path and text) of the repository at `repo_path`
/// as at `at`: every occurrence of a Chinese word counts once on the entry of
/// that word (no code), or adds it with the word before it and the
/// repository and file as its source.
pub fn scan_at(freq_db: &mut FreqDb, repo_path: &str, files: &Vec<(String, String)>, segmenter: &Segmenter, at: Timestamp) -> (r: Result<(), CiError>)
    ensures
        r is Ok,
        exists|found: Seq<Entry>|
            #[trigger] entries_of_occurrences(found, occurrences(files@), repo_path@, at)
                && scan_entries(old(freq_db).entries@, found) == final(freq_db).entries@,
        final(freq_db).version == old(freq_db).version,
        final(freq_db).device.id == old(freq_db).device.id,
        final(freq_db).device.name == old(freq_db).device.name,
        final(freq_db).device.total_entries == final(freq_db).entries@.len() as u32,
{
    let found = occurrence_entries(repo_path, files, segmenter, at);
    add_occurrences(freq_db, &found);
    Ok(())
}

/// Scans the files `files` (path and text) of the repository at `repo_path`
/// for words and adds them to `freq_db`, as found now by the system clock.
pub fn scan_repo(freq_db: &mut FreqDb, repo_path: &str, files: &Vec<(String, String)>, segmenter: &Segmenter) -> (r: Result<(), CiError>)
    ensures
        r is Ok,
        exists|at: Timestamp, found: Seq<Entry>|
            at.secs >= 0 && at.nanos < 1_000_000_000 && #[trigger] entries_of_occurrences(found, occurrences(files@), repo_path@, at)
                && scan_entries(old(freq_db).entries@, found) == final(freq_db).entries@,
        final(freq_db).version == old(freq_db).version,
        final(freq_db).device.id == old(freq_db).device.id,
        final(freq_db).device.name == old(freq_db).device.name,
        final(freq_db).device.total_entries == final(freq_db).entries@.len() as u32,
{
    let at = now();
    scan_at(freq_db, repo_path, files, segmenter, at)
}

} // verus!
