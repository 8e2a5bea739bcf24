use ci::cli::scan;
use ci::db::device::{Device, Weight};
use ci::db::entry::{Entry, EntrySource};
use ci::db::merge::{find_entry, merge, merged_freq};
use ci::db::store::FreqDb;
use ci::time::Timestamp;

fn entry(code: &str, word: &str, freq: u32, secs: i64, prev: Option<&str>) -> Entry {
    Entry {
        code: code.into(),
        word: word.into(),
        freq,
        updated: Timestamp::new(secs, 0),
        prev: prev.map(|p| p.to_string()),
        source: EntrySource::Ime,
    }
}

fn db(id: &str, total: u32, version: u32, entries: Vec<Entry>) -> FreqDb {
    let mut d = FreqDb::new(Device { id: id.into(), name: format!("{id}-name"), total_entries: total });
    d.version = version;
    d.entries = entries;
    d
}

#[test]
fn weight_is_share_of_total_or_one() {
    let d = Device { id: "a".into(), name: "n".into(), total_entries: 3 };
    assert_eq!(d.weight(4), Weight { num: 3, den: 4 });
    assert_eq!(d.weight(0), Weight { num: 1, den: 1 });
}

#[test]
fn merged_freq_rounds_weighted_mean() {
    assert_eq!(merged_freq(10, 2, 3, 1), 8);
    assert_eq!(merged_freq(1, 2, 1, 1), 2);
    assert_eq!(merged_freq(3, 4, 1, 1), 4);
    assert_eq!(merged_freq(10, 0, 2, 1), 7);
    assert_eq!(merged_freq(7, 100, 5, 0), 7);
    assert_eq!(merged_freq(7, 100, 0, 5), 100);
    assert_eq!(merged_freq(u32::MAX, u32::MAX, u32::MAX, u32::MAX), u32::MAX);
    assert_eq!(merged_freq(0, u32::MAX, u32::MAX, 1), 1);
}

#[test]
fn heavier_device_pulls_harder() {
    let f = merged_freq(0, 9, 2, 1);
    assert_eq!(f, 3);
    assert!(f <= 9 - f);
}

#[test]
fn merge_combines_shared_words_and_appends_new_ones() {
    let local = db("local", 3, 1, vec![
        entry("ni hao", "你好", 10, 100, None),
        entry("shi jie", "世界", 4, 100, Some("hello")),
    ]);
    let remote = db("remote", 1, 2, vec![
        entry("ni hao", "你好", 2, 200, Some("x")),
        entry("ce shi", "测试", 7, 50, None),
    ]);
    let m = merge(&local, &remote);
    assert_eq!(m.version, 2);
    assert_eq!(m.device.id, "local");
    assert_eq!(m.device.name, "local-name");
    assert_eq!(m.device.total_entries, 3);
    assert_eq!(m.entries.len(), 3);
    assert_eq!(m.entries[0].code, "ni hao");
    assert_eq!(m.entries[0].freq, 8);
    assert_eq!(m.entries[0].updated, Timestamp::new(200, 0));
    assert_eq!(m.entries[0].prev.as_deref(), Some("x"));
    assert_eq!(m.entries[1].code, "shi jie");
    assert_eq!(m.entries[1].freq, 4);
    assert_eq!(m.entries[1].prev.as_deref(), Some("hello"));
    assert_eq!(m.entries[2].code, "ce shi");
    assert_eq!(m.entries[2].freq, 7);
    assert_eq!(m.entries[2].updated, Timestamp::new(50, 0));
}

#[test]
fn merge_keeps_local_previous_word_and_later_time() {
    let local = db("l", 1, 3, vec![entry("a", "x", 4, 300, Some("mine"))]);
    let remote = db("r", 1, 1, vec![entry("a", "x", 6, 100, Some("theirs"))]);
    let m = merge(&local, &remote);
    assert_eq!(m.version, 3);
    assert_eq!(m.entries.len(), 1);
    assert_eq!(m.entries[0].freq, 5);
    assert_eq!(m.entries[0].updated, Timestamp::new(300, 0));
    assert_eq!(m.entries[0].prev.as_deref(), Some("mine"));
}

#[test]
fn merge_with_no_entries_on_either_device_weighs_equally() {
    let local = db("l", 0, 1, vec![entry("a", "x", 3, 0, None)]);
    let remote = db("r", 0, 1, vec![entry("a", "x", 4, 0, None)]);
    let m = merge(&local, &remote);
    assert_eq!(m.entries[0].freq, 4);
    assert_eq!(m.device.total_entries, 1);
}

#[test]
fn merge_of_repeated_remote_word_combines_twice() {
    let local = db("l", 1, 1, vec![]);
    let remote = db("r", 1, 1, vec![entry("a", "x", 2, 0, None), entry("a", "x", 5, 9, None)]);
    let m = merge(&local, &remote);
    assert_eq!(m.entries.len(), 1);
    assert_eq!(m.entries[0].freq, 4);
    assert_eq!(m.entries[0].updated, Timestamp::new(9, 0));
}

#[test]
fn merge_with_empty_remote_changes_no_entry() {
    let local = db("l", 2, 4, vec![entry("a", "x", 3, 1, None), entry("b", "y", 8, 2, Some("a"))]);
    let remote = db("r", 5, 1, vec![]);
    let m = merge(&local, &remote);
    assert_eq!(m.version, 4);
    assert_eq!(m.entries.len(), 2);
    assert_eq!(m.entries[0].freq, 3);
    assert_eq!(m.entries[1].freq, 8);
    assert_eq!(m.entries[1].prev.as_deref(), Some("a"));
    assert_eq!(m.device.total_entries, 2);
}

#[test]
fn merge_with_itself_changes_no_entry() {
    let local = db("l", 2, 1, vec![entry("a", "x", 3, 1, None), entry("b", "y", 8, 2, Some("a"))]);
    let m = merge(&local, &local);
    assert_eq!(m.entries.len(), 2);
    assert_eq!(m.entries[0].freq, 3);
    assert_eq!(m.entries[1].freq, 8);
    assert_eq!(m.entries[0].updated, Timestamp::new(1, 0));
}

#[test]
fn find_entry_returns_first_match() {
    let es = vec![entry("a", "x", 1, 0, None), entry("b", "y", 1, 0, None), entry("b", "y", 2, 0, None)];
    assert_eq!(find_entry(&es, &entry("b", "y", 0, 0, None)), Some(1));
    assert_eq!(find_entry(&es, &entry("b", "x", 0, 0, None)), None);
}

#[test]
fn scan_with_no_entries_leaves_db_alone() {
    let local = db("l", 1, 1, vec![entry("a", "x", 3, 1, None)]);
    let empty = db("scan", 0, 7, vec![]);
    let r = scan::run(local, &empty);
    assert_eq!(r.version, 1);
    assert_eq!(r.entries.len(), 1);
    assert_eq!(r.device.total_entries, 1);
}

#[test]
fn scan_with_entries_is_merged() {
    let local = db("l", 1, 1, vec![entry("a", "x", 3, 1, None)]);
    let found = db("scan", 1, 1, vec![entry("b", "y", 2, 1, None)]);
    let r = scan::run(local, &found);
    assert_eq!(r.entries.len(), 2);
    assert_eq!(r.entries[1].code, "b");
    assert_eq!(r.device.total_entries, 2);
}
