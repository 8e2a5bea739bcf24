//! The settings of a frequency-database repository (`ci.yaml`).

use vstd::prelude::*;

verus! {

/// The cooldown between automatic syncs, in hours, unless configured otherwise.
pub const DEFAULT_COOLDOWN_HOURS: u64 = 12;

/// Where Rime keeps its user data, where the database lives, which device
/// this is, where to sync to, how long to wait between automatic syncs, and
/// which repositories to scan for vocabulary.
#[derive(Debug)]
pub struct Config {
    pub rime_user_dir: String,
    pub freq_db_dir: String,
    pub device_id: String,
    pub device_name: String,
    pub sync_remote: String,
    pub cooldown_hours: u64,
    pub scan_repos: Vec<String>,
}

/// The machine's host name, from `whoami::hostname()`.
///
/// Trusted: `whoami::hostname` asks the operating system for the host name
/// (`gethostname` on Unix) and fails where that call fails or the name is not
/// UTF-8; a failure comes back as `None`. What the name is depends on the
/// machine, so the contract states nothing of it.
#[verifier::external_body]
pub(crate) fn hostname() -> (h: Option<String>) {
    whoami::hostname().ok()
}

impl Config {
    /// The default settings on a machine whose host name is `hostname` (or
    /// whose host name could not be read): the fcitx5 Rime directory, the
    /// current directory, no device identity or remote yet, a 12-hour
    /// cooldown, no repositories to scan, and the host name as the device name
    /// (`"unknown"` where there is none).
    pub fn from_hostname(hostname: Option<String>) -> (c: Config)
        ensures
            c.rime_user_dir@ == "~/.local/share/fcitx5/rime"@,
            c.freq_db_dir@ == "."@,
            c.device_id@ == Seq::<char>::empty(),
            c.sync_remote@ == Seq::<char>::empty(),
            c.cooldown_hours == DEFAULT_COOLDOWN_HOURS,
            c.scan_repos@.len() == 0,
            match hostname {
                Some(h) => c.device_name@ == h@,
                None => c.device_name@ == "unknown"@,
            },
    {
        let device_name = match hostname {
            Some(h) => h,
            None => "unknown".to_owned(),
        };
        Config {
            rime_user_dir: "~/.local/share/fcitx5/rime".to_owned(),
            freq_db_dir: ".".to_owned(),
            device_id: String::new(),
            device_name,
            sync_remote: String::new(),
            cooldown_hours: DEFAULT_COOLDOWN_HOURS,
            scan_repos: Vec::new(),
        }
    }
}

impl Default for Config {
    /// The default settings, named after this machine's host name.
    fn default() -> (c: Config)
        ensures
            c.rime_user_dir@ == "~/.local/share/fcitx5/rime"@,
            c.freq_db_dir@ == "."@,
            c.device_id@ == Seq::<char>::empty(),
            c.sync_remote@ == Seq::<char>::empty(),
            c.cooldown_hours == DEFAULT_COOLDOWN_HOURS,
            c.scan_repos@.len() == 0,
    {
        Config::from_hostname(hostname())
    }
}

} // verus!
