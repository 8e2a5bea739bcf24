use chrono::{TimeZone, Utc};
use ci::db::entry::{Entry, EntrySource};
use ci::time::Timestamp;

fn at(secs: i64) -> Timestamp {
    let t = Utc.timestamp_opt(secs, 0).unwrap();
    Timestamp::new(t.timestamp(), t.timestamp_subsec_nanos())
}

#[test]
fn test_entry_creation() {
    let e = Entry {
        code: "ni hao".into(),
        word: "你好".into(),
        freq: 5,
        updated: at(1700000000),
        prev: None,
        source: EntrySource::Ime,
    };
    assert_eq!(e.code, "ni hao");
    assert_eq!(e.word, "你好");
    assert_eq!(e.freq, 5);
    assert!(e.prev.is_none());
}

#[test]
fn test_entry_with_prev() {
    let e = Entry {
        code: "shi jie".into(),
        word: "世界".into(),
        freq: 3,
        updated: at(1700000001),
        prev: Some("hello".into()),
        source: EntrySource::Scan {
            repo: "test-repo".into(),
            path: "/path/to/file.md".into(),
        },
    };
    assert_eq!(e.prev.unwrap(), "hello");
    match e.source {
        EntrySource::Scan { repo, path } => {
            assert_eq!(repo, "test-repo");
            assert_eq!(path, "/path/to/file.md");
        }
        _ => panic!("expected Scan source"),
    }
}

#[test]
fn entry_duplicate_keeps_every_field() {
    let e = Entry {
        code: "ce shi".into(),
        word: "测试".into(),
        freq: 2,
        updated: at(1700000003),
        prev: Some("hello".into()),
        source: EntrySource::Scan { repo: "r".into(), path: "p".into() },
    };
    let d = e.duplicate();
    assert_eq!(d.code, "ce shi");
    assert_eq!(d.word, "测试");
    assert_eq!(d.freq, 2);
    assert_eq!(d.updated, at(1700000003));
    assert_eq!(d.prev.as_deref(), Some("hello"));
    assert!(matches!(d.source, EntrySource::Scan { ref repo, ref path } if repo == "r" && path == "p"));
}

#[test]
fn entries_with_same_code_and_word_share_a_key() {
    let a = Entry { code: "a".into(), word: "x".into(), freq: 1, updated: at(0), prev: None, source: EntrySource::Ime };
    let b = Entry { code: "a".into(), word: "x".into(), freq: 9, updated: at(5), prev: Some("p".into()), source: EntrySource::Ime };
    let c = Entry { code: "a".into(), word: "y".into(), freq: 1, updated: at(0), prev: None, source: EntrySource::Ime };
    assert!(a.has_key_of(&b));
    assert!(!a.has_key_of(&c));
}

#[test]
fn later_timestamp_orders_by_seconds_then_nanos() {
    let a = Timestamp::new(10, 5);
    let b = Timestamp::new(10, 7);
    let c = Timestamp::new(11, 0);
    assert_eq!(a.later(b), b);
    assert_eq!(b.later(a), b);
    assert_eq!(c.later(b), c);
    assert_eq!(a.later(a), a);
    assert_eq!(c.nanos_since(a), 999_999_995);
    assert_eq!(a.nanos_since(c), -999_999_995);
}
