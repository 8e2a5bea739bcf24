use ci::adapter::rime;
use ci::adapter::scan::{kept_text_lines, scan_at, scan_repo, word_entries, Segmenter};
use ci::cli::{device, export, import, init, status, sync_cmd};
use ci::config::Config;
use ci::db::device::{Device, DeviceRegistry};
use ci::db::entry::{Entry, EntrySource};
use ci::db::store::FreqDb;
use ci::error::CiError;
use ci::ffi::{ensure_initialized, sync_user_data, InitAction, InitEvent};
use ci::time::Timestamp;

fn entry(code: &str, freq: u32, source: EntrySource) -> Entry {
    Entry { code: code.into(), word: "w".into(), freq, updated: Timestamp::new(0, 0), prev: None, source }
}

fn small_db() -> FreqDb {
    let mut d = FreqDb::new(Device { id: "dev-1".into(), name: "laptop".into(), total_entries: 2 });
    d.entries.push(entry("a", 1, EntrySource::Ime));
    d.entries.push(entry("b", 2, EntrySource::Scan { repo: "r".into(), path: "p".into() }));
    d
}

#[test]
fn new_db_is_empty_version_one() {
    let d = FreqDb::new(Device { id: "x".into(), name: "y".into(), total_entries: 0 });
    assert_eq!(d.version, 1);
    assert!(d.entries.is_empty());
    assert_eq!(d.device.id, "x");
}

#[test]
fn config_defaults() {
    let c = Config::from_hostname(None);
    assert_eq!(c.rime_user_dir, "~/.local/share/fcitx5/rime");
    assert_eq!(c.freq_db_dir, ".");
    assert_eq!(c.device_id, "");
    assert_eq!(c.device_name, "unknown");
    assert_eq!(c.sync_remote, "");
    assert_eq!(c.cooldown_hours, 12);
    assert!(c.scan_repos.is_empty());
    let named = Config::from_hostname(Some("box".into()));
    assert_eq!(named.device_name, "box");
    let d = Config::default();
    assert_eq!(d.cooldown_hours, 12);
    assert!(!d.device_name.is_empty());
}

#[test]
fn import_needs_a_database() {
    let cfg = Config::from_hostname(None);
    match import::run(None, &cfg, "a\tb\tc=1\n") {
        Err(CiError::EntriesNotFound { dir }) => assert_eq!(dir, "."),
        other => panic!("unexpected {other:?}"),
    }
    let d = import::run(Some(small_db()), &cfg, "").unwrap();
    assert_eq!(d.entries.len(), 2);
}

#[test]
fn import_reads_user_dictionary_words() {
    let cfg = Config::from_hostname(None);
    let userdb = "# Rime user dictionary\n#@/db_name\tluna_pinyin.userdb\nni hao\t你好\tc=7 d=0.9 t=120\na\tw\tc=4 d=1 t=3\n\nbroken line\n";
    let d = import::run(Some(small_db()), &cfg, userdb).unwrap();
    assert_eq!(d.entries.len(), 3);
    assert_eq!(d.device.total_entries, 3);
    assert_eq!(d.entries[0].code, "a");
    assert_eq!(d.entries[0].freq, 4);
    assert!(matches!(d.entries[0].source, EntrySource::Ime));
    assert_eq!(d.entries[1].code, "b");
    assert_eq!(d.entries[1].freq, 2);
    assert_eq!(d.entries[2].code, "ni hao");
    assert_eq!(d.entries[2].word, "你好");
    assert_eq!(d.entries[2].freq, 7);
    assert!(d.entries[2].prev.is_none());
    assert!(matches!(d.entries[2].source, EntrySource::Ime));
}

#[test]
fn import_refreshes_scanned_word_as_typed() {
    let mut d = small_db();
    d.entries[1].prev = Some("x".into());
    let w = d.entries[1].word.clone();
    let text = format!("b\t{w}\tc=9\n");
    rime::import_at(&mut d, &text, Timestamp::new(77, 5)).unwrap();
    assert_eq!(d.entries.len(), 2);
    assert_eq!(d.entries[1].freq, 9);
    assert_eq!(d.entries[1].updated, Timestamp::new(77, 5));
    assert_eq!(d.entries[1].prev.as_deref(), Some("x"));
    assert!(matches!(d.entries[1].source, EntrySource::Ime));
}

#[test]
fn parse_userdb_reads_counts() {
    let t = Timestamp::new(1, 0);
    let es = rime::parse_userdb("x\ty\nk\tv\td=1 c=12\n#k\tv\tc=3\nq\tr\tc=99999999999\nz\tw\tc=-1\n\tw\tc=1\n", t);
    assert_eq!(es.len(), 4);
    assert_eq!((es[0].code.as_str(), es[0].word.as_str(), es[0].freq), ("x", "y", 0));
    assert_eq!((es[1].code.as_str(), es[1].freq), ("k", 12));
    assert_eq!((es[2].code.as_str(), es[2].freq), ("q", u32::MAX));
    assert_eq!((es[3].code.as_str(), es[3].freq), ("z", 0));
    assert_eq!(es[0].updated, t);
}

#[test]
fn export_writes_one_line_per_entry() {
    let text = export::run(&small_db());
    assert_eq!(text, "#@/db_type\tuserdb\na\tw\tc=1\nb\tw\tc=2\n");
    let mut big = small_db();
    big.entries[0].freq = 4_000_000_000;
    assert_eq!(rime::export(&big), "#@/db_type\tuserdb\na\tw\tc=4000000000\nb\tw\tc=2\n");
}

#[test]
fn export_then_import_gives_the_words_back() {
    let db = small_db();
    let text = rime::export(&db);
    let es = rime::parse_userdb(&text, Timestamp::new(0, 0));
    assert_eq!(es.len(), 2);
    for (e, d) in es.iter().zip(db.entries.iter()) {
        assert_eq!(e.code, d.code);
        assert_eq!(e.word, d.word);
        assert_eq!(e.freq, d.freq);
    }
}

#[test]
fn status_counts_sources() {
    let c = status::run(&small_db());
    assert_eq!(c.ime, 1);
    assert_eq!(c.scan, 1);
}

#[test]
fn init_builds_config_and_empty_db() {
    let (cfg, db) = init::with_identity("/tmp/freq", "id-1".to_string(), "host".to_string());
    assert_eq!(cfg.freq_db_dir, "/tmp/freq");
    assert_eq!(cfg.device_id, "id-1");
    assert_eq!(cfg.device_name, "host");
    assert_eq!(cfg.cooldown_hours, 12);
    assert_eq!(db.version, 1);
    assert_eq!(db.device.id, "id-1");
    assert_eq!(db.device.name, "host");
    assert_eq!(db.device.total_entries, 0);
    assert!(db.entries.is_empty());
}

#[test]
fn sync_merges_remote_and_records_device() {
    let mut reg = DeviceRegistry::new();
    let mut remote = FreqDb::new(Device { id: "dev-2".into(), name: "desk".into(), total_entries: 2 });
    remote.version = 3;
    remote.entries.push(entry("c", 5, EntrySource::Ime));
    let merged = sync_cmd::run(small_db(), Some(remote), &mut reg);
    assert_eq!(merged.version, 3);
    assert_eq!(merged.entries.len(), 3);
    assert_eq!(merged.device.total_entries, 3);
    assert_eq!(reg.devices.len(), 1);
    assert_eq!(reg.devices[0].id, "dev-1");
    assert_eq!(reg.devices[0].total_entries, 3);
    let again = sync_cmd::run(merged, None, &mut reg);
    assert_eq!(again.entries.len(), 3);
    assert_eq!(reg.devices.len(), 1);
}

#[test]
fn registry_upsert_updates_or_appends() {
    let mut reg = DeviceRegistry::new();
    reg.upsert_at("a", "first", 1, Timestamp::new(10, 0));
    reg.upsert_at("b", "second", 2, Timestamp::new(20, 0));
    reg.upsert_at("a", "renamed", 5, Timestamp::new(30, 0));
    assert_eq!(reg.devices.len(), 2);
    assert_eq!(reg.devices[0].name, "renamed");
    assert_eq!(reg.devices[0].total_entries, 5);
    assert_eq!(reg.devices[0].last_seen, Timestamp::new(30, 0));
    assert_eq!(reg.devices[1].id, "b");
    reg.upsert("c", "third", 0);
    assert_eq!(reg.devices.len(), 3);
    assert!(reg.devices[2].last_seen.secs > 1_600_000_000);
}

#[test]
fn rime_initialization_runs_once() {
    let mut init = false;
    assert_eq!(ensure_initialized(&mut init, InitEvent::Requested), InitAction::ProbeSession);
    assert_eq!(ensure_initialized(&mut init, InitEvent::SessionProbed { existing: false }), InitAction::SetUp);
    assert!(!init);
    assert_eq!(ensure_initialized(&mut init, InitEvent::SetUpDone), InitAction::Initialized);
    assert!(init);
    assert_eq!(ensure_initialized(&mut init, InitEvent::Requested), InitAction::AlreadyInitialized);
    assert_eq!(ensure_initialized(&mut init, InitEvent::SessionProbed { existing: false }), InitAction::AlreadyInitialized);
    assert!(init);
    let mut other = false;
    assert_eq!(ensure_initialized(&mut other, InitEvent::SessionProbed { existing: true }), InitAction::Initialized);
    assert!(other);
    let mut failed = false;
    assert_eq!(ensure_initialized(&mut failed, InitEvent::ApiUnavailable), InitAction::Failed);
    assert!(!failed);
}

#[test]
fn sync_user_data_outcomes() {
    assert!(matches!(sync_user_data(false, 1), Err(CiError::SyncUnsupported)));
    assert!(matches!(sync_user_data(true, 0), Err(CiError::SyncFailed)));
    assert!(sync_user_data(true, 1).is_ok());
}

#[test]
fn init_draws_a_device_identity() {
    let (cfg, db) = init::run("/tmp/freq2");
    assert_eq!(cfg.freq_db_dir, "/tmp/freq2");
    assert_eq!(cfg.device_id.len(), 36);
    assert_eq!(&cfg.device_id[14..15], "4");
    assert_eq!(db.device.id, cfg.device_id);
    assert_eq!(db.device.name, cfg.device_name);
    assert!(!cfg.device_name.is_empty());
    let (other, _) = init::run("/tmp/freq2");
    assert_ne!(other.device_id, cfg.device_id);
}

#[test]
fn device_add_registers_fresh_identifier() {
    let mut reg = DeviceRegistry::new();
    let a = device::run_add(&mut reg, "phone");
    let b = device::run_add(&mut reg, "tablet");
    assert_eq!(a.len(), 36);
    assert_ne!(a, b);
    assert_eq!(reg.devices.len(), 2);
    assert_eq!(reg.devices[0].id, a);
    assert_eq!(reg.devices[0].name, "phone");
    assert_eq!(reg.devices[0].total_entries, 0);
    assert_eq!(reg.devices[1].name, "tablet");
}

#[test]
fn scan_counts_chinese_words_with_context() {
    let seg = Segmenter::new();
    let words = seg.cut("我们 hello");
    assert!(words.iter().any(|w| w == "hello"));
    let mut d = FreqDb::new(Device { id: "scan".into(), name: "n".into(), total_entries: 0 });
    let files = vec![
        ("a.md".to_string(), "你好 hello 你好".to_string()),
        ("b.txt".to_string(), "code only".to_string()),
    ];
    scan_at(&mut d, "/repo", &files, &seg, Timestamp::new(9, 0)).unwrap();
    assert_eq!(d.entries.len(), 1);
    assert_eq!(d.device.total_entries, 1);
    let e = &d.entries[0];
    assert_eq!(e.code, "");
    assert_eq!(e.word, "你好");
    assert_eq!(e.freq, 2);
    assert_eq!(e.prev.as_deref(), Some("你好"));
    assert_eq!(e.updated, Timestamp::new(9, 0));
    match &e.source {
        EntrySource::Scan { repo, path } => {
            assert_eq!(repo, "/repo");
            assert_eq!(path, "a.md");
        }
        _ => panic!("expected Scan source"),
    }
}

#[test]
fn scan_keeps_previous_word() {
    let seg = Segmenter::new();
    let mut d = FreqDb::new(Device { id: "scan".into(), name: "n".into(), total_entries: 0 });
    let files = vec![("p.md".to_string(), "世界 你好".to_string())];
    scan_repo(&mut d, "/r", &files, &seg).unwrap();
    let hello = d.entries.iter().find(|e| e.word == "你好").expect("word found");
    assert_eq!(hello.prev.as_deref(), Some("世界"));
    assert_eq!(hello.freq, 1);
    assert!(hello.updated.secs > 1_600_000_000);
}

#[test]
fn scan_of_no_files_changes_nothing() {
    let seg = Segmenter::new();
    let mut d = small_db();
    scan_at(&mut d, "/r", &Vec::new(), &seg, Timestamp::new(0, 0)).unwrap();
    assert_eq!(d.entries.len(), 2);
    assert_eq!(d.entries[0].freq, 1);
}

#[test]
fn scan_skips_front_matter_and_code_blocks() {
    let seg = Segmenter::new();
    let mut d = FreqDb::new(Device { id: "scan".into(), name: "n".into(), total_entries: 0 });
    let text = "---\ntitle: 世界\n---\n你好\n```\n中国\n```\n你好\n".to_string();
    let files = vec![("post.md".to_string(), text)];
    scan_at(&mut d, "/r", &files, &seg, Timestamp::new(1, 0)).unwrap();
    assert_eq!(d.entries.len(), 1);
    assert_eq!(d.entries[0].word, "你好");
    assert_eq!(d.entries[0].freq, 2);
}

#[test]
fn unclosed_front_matter_is_prose() {
    let lines = kept_text_lines("---\n你好\n");
    assert_eq!(lines.len(), 3);
    assert_eq!(lines[0].iter().collect::<String>(), "---");
    assert_eq!(lines[1].iter().collect::<String>(), "你好");
    assert!(lines[2].is_empty());
    let closed = kept_text_lines("---\na\n---\nb");
    assert_eq!(closed.len(), 1);
    assert_eq!(closed[0].iter().collect::<String>(), "b");
}

#[test]
fn word_entries_links_each_chinese_word_to_the_one_before() {
    let words: Vec<String> = vec!["世界".into(), "hello".into(), "你好".into(), "㐀".into()];
    let es = word_entries("/r", &"f.md".to_string(), &words, Timestamp::new(3, 0));
    assert_eq!(es.len(), 3);
    assert_eq!(es[0].word, "世界");
    assert!(es[0].prev.is_none());
    assert_eq!(es[1].word, "你好");
    assert_eq!(es[1].prev.as_deref(), Some("世界"));
    assert_eq!(es[2].prev.as_deref(), Some("你好"));
    assert!(es.iter().all(|e| e.freq == 1 && e.code.is_empty()));
}
