//! `ci init`: the settings and the empty database of a new repository.

use vstd::prelude::*;

use crate::config::{hostname, Config, DEFAULT_COOLDOWN_HOURS};
use crate::db::device::{new_device_id, Device};
use crate::db::store::FreqDb;

verus! {

/// The settings and the empty database of a repository created in `dir` for
/// the device `device_id` named `device_name`: the default settings with that
/// directory and that device, and an empty version-1 database of the device.
pub fn with_identity(dir: &str, device_id: String, device_name: String) -> (r: (Config, FreqDb))
    ensures
        r.0.rime_user_dir@ == "~/.local/share/fcitx5/rime"@,
        r.0.freq_db_dir@ == dir@,
        r.0.device_id@ == device_id@,
        r.0.device_name@ == device_name@,
        r.0.sync_remote@ == Seq::<char>::empty(),
        r.0.cooldown_hours == DEFAULT_COOLDOWN_HOURS,
        r.0.scan_repos@.len() == 0,
        r.1.version == 1,
        r.1.device.id@ == device_id@,
        r.1.device.name@ == device_name@,
        r.1.device.total_entries == 0,
        r.1.entries@.len() == 0,
{
    let mut config = Config::default();
    config.freq_db_dir = dir.to_owned();
    config.device_id = device_id.clone();
    config.device_name = device_name.clone();
    let device = Device { id: device_id, name: device_name, total_entries: 0 };
    let db = FreqDb::new(device);
    (config, db)
}

/// The settings and the empty database of a repository created in `dir` for
/// the device `device_id` on a machine whose host name is `hostname`: the
/// device is named after the host, or `"unknown"` where the name could not be
/// read.
pub fn with_hostname(dir: &str, device_id: String, hostname: Option<String>) -> (r: (Config, FreqDb))
    ensures
        r.0.rime_user_dir@ == "~/.local/share/fcitx5/rime"@,
        r.0.freq_db_dir@ == dir@,
        r.0.device_id@ == device_id@,
        match hostname {
            Some(h) => r.0.device_name@ == h@,
            None => r.0.device_name@ == "unknown"@,
        },
        r.0.sync_remote@ == Seq::<char>::empty(),
        r.0.cooldown_hours == DEFAULT_COOLDOWN_HOURS,
        r.0.scan_repos@.len() == 0,
        r.1.version == 1,
        r.1.device.id@ == device_id@,
        r.1.device.name@ == r.0.device_name@,
        r.1.device.total_entries == 0,
        r.1.entries@.len() == 0,
{
    let device_name = match hostname {
        Some(h) => h,
        None => "unknown".to_owned(),
    };
    with_identity(dir, device_id, device_name)
}

/// The settings and the empty database of a repository created in `dir` for
/// this machine: a fresh random device identifier, and the host name (or
/// `"unknown"`) as the device name.
pub fn run(dir: &str) -> (r: (Config, FreqDb))
    ensures
        r.0.rime_user_dir@ == "~/.local/share/fcitx5/rime"@,
        r.0.freq_db_dir@ == dir@,
        r.0.sync_remote@ == Seq::<char>::empty(),
        r.0.cooldown_hours == DEFAULT_COOLDOWN_HOURS,
        r.0.scan_repos@.len() == 0,
        r.0.device_id@.len() == 36,
        r.0.device_id@[8] == '-' && r.0.device_id@[13] == '-' && r.0.device_id@[18] == '-'
            && r.0.device_id@[23] == '-',
        r.0.device_id@[14] == '4',
        r.1.version == 1,
        r.1.device.id@ == r.0.device_id@,
        r.1.device.name@ == r.0.device_name@,
        r.1.device.total_entries == 0,
        r.1.entries@.len() == 0,
{
    with_hostname(dir, new_device_id(), hostname())
}

} // verus!
