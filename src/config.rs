//! Overridable defaults: the scan range, the signal to send and whether to
//! ask before stopping a process.
use vstd::prelude::*;
use vstd::string::StringSliceAdditionalSpecFns;
use crate::process::{ProcessInfo, ProcessKind};
use crate::text::{find_in, first_in, parse_unsigned, unsigned_in};

verus! {

pub struct Config {
    pub scan: ScanConfig,
    pub kill: KillConfig,
    pub ui: UiConfig,
}

pub struct ScanConfig {
    /// A range written `<from>-<to>`.
    pub default_range: Option<String>,
}

pub struct KillConfig {
    pub default_signal: Option<String>,
    pub confirm: Option<bool>,
}

pub struct UiConfig {
    pub color: Option<bool>,
}

pub const DEFAULT_FROM: u16 = 3000;

pub const DEFAULT_TO: u16 = 9999;

impl Default for ScanConfig {
    fn default() -> (r: ScanConfig)
        ensures
            r.default_range matches Some(s) && s@ == "3000-9999"@,
    {
        ScanConfig { default_range: Some("3000-9999".to_string()) }
    }
}

impl Default for KillConfig {
    fn default() -> (r: KillConfig)
        ensures
            r.default_signal is None,
            r.confirm is None,
    {
        KillConfig { default_signal: None, confirm: None }
    }
}

impl Default for UiConfig {
    fn default() -> (r: UiConfig)
        ensures
            r.color is None,
    {
        UiConfig { color: None }
    }
}

impl Default for Config {
    fn default() -> (r: Config)
        ensures
            r.scan.default_range matches Some(s) && s@ == "3000-9999"@,
            r.kill.default_signal is None,
            r.kill.confirm is None,
            r.ui.color is None,
    {
        Config { scan: ScanConfig::default(), kill: KillConfig::default(), ui: UiConfig::default() }
    }
}

/// The two ends of a range `<from>-<to>`: only text with exactly one `-`
/// has them, and each end that is no port is `None`.
pub open spec fn range_ends(s: Seq<u8>) -> (Option<nat>, Option<nat>) {
    let k = first_in(s, 45, 0, s.len() as int);
    if k < s.len() && first_in(s, 45, k + 1, s.len() as int) == s.len() {
        (unsigned_in(s, 0, k, u16::MAX as nat), unsigned_in(s, k + 1, s.len() as int, u16::MAX as nat))
    } else {
        (None, None)
    }
}

pub open spec fn port_of(v: Option<nat>) -> Option<u16> {
    match v {
        Some(n) => Some(n as u16),
        None => None,
    }
}

/// Reads a range written `<from>-<to>`.
pub fn parse_range(range: &str) -> (r: (Option<u16>, Option<u16>))
    ensures
        r.0 == port_of(range_ends(range.spec_bytes()).0),
        r.1 == port_of(range_ends(range.spec_bytes()).1),
{
    let s = range.as_bytes();
    let k = find_in(s, 45, 0, s.len());
    if k < s.len() && find_in(s, 45, k + 1, s.len()) == s.len() {
        let a = match parse_unsigned(s, 0, k, 0xffff) {
            Some(v) => Some(v as u16),
            None => None,
        };
        let b = match parse_unsigned(s, k + 1, s.len(), 0xffff) {
            Some(v) => Some(v as u16),
            None => None,
        };
        (a, b)
    } else {
        (None, None)
    }
}

/// The range to scan: each end given on the command line wins, then the
/// configured range, then the defaults.
pub fn scan_bounds(from: Option<u16>, to: Option<u16>, config: &Config) -> (r: (u16, u16))
    ensures
        r.0 == match from {
            Some(f) => f,
            None => match config.scan.default_range {
                Some(s) => match port_of(range_ends(vstd::utf8::encode_utf8(s@)).0) {
                    Some(f) => f,
                    None => DEFAULT_FROM,
                },
                None => DEFAULT_FROM,
            },
        },
        r.1 == match to {
            Some(t) => t,
            None => match config.scan.default_range {
                Some(s) => match port_of(range_ends(vstd::utf8::encode_utf8(s@)).1) {
                    Some(t) => t,
                    None => DEFAULT_TO,
                },
                None => DEFAULT_TO,
            },
        },
{
    let (cfg_from, cfg_to) = match &config.scan.default_range {
        Some(s) => parse_range(s.as_str()),
        None => (None, None),
    };
    let a = match from {
        Some(f) => f,
        None => match cfg_from {
            Some(f) => f,
            None => DEFAULT_FROM,
        },
    };
    let b = match to {
        Some(t) => t,
        None => match cfg_to {
            Some(t) => t,
            None => DEFAULT_TO,
        },
    };
    (a, b)
}

/// Whether to ask before stopping: the command line, then the configuration,
/// else yes.
pub fn confirm_before_kill(interactive: Option<bool>, config: &Config) -> (r: bool)
    ensures
        r == match interactive {
            Some(b) => b,
            None => match config.kill.confirm {
                Some(b) => b,
                None => true,
            },
        },
{
    match interactive {
        Some(b) => b,
        None => match config.kill.confirm {
            Some(b) => b,
            None => true,
        },
    }
}

/// A system process is left alone unless all users' processes may be stopped.
pub fn skip_for_permissions(info: &ProcessInfo, all_users: bool) -> (r: bool)
    ensures
        r == (!all_users && info.kind == ProcessKind::System),
{
    !all_users && info.kind == ProcessKind::System
}

} // verus!
