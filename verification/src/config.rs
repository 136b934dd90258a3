use vstd::prelude::*;
use crate::num::{parse_u32, parse_u32_seq, parse_u64, parse_u64_seq};
use crate::text::str_is;

verus! {

pub const SERVICE_NAME: &'static str = "SingularityMonitorDaemon";

pub const PIPE_NAME: &'static str = "\\\\.\\pipe\\SingularityMonitor";

/// The collector's configuration.
#[derive(Debug, Clone)]
pub struct AppConfig {
    pub db_path: String,
    pub log_path: String,
    pub pipe_name: String,
    pub poll_interval_seconds: u32,
    pub max_delta_bytes: u64,
    pub attribution_mode: String,
    pub trim_working_set: bool,
}

/// The poll interval an `SM_POLL_INTERVAL_SECS` value asks for: 60 when unset or not a
/// number, within 15..=300.
pub open spec fn poll_interval_setting(raw: Option<Seq<char>>) -> u32 {
    let v = match raw {
        Some(s) => match parse_u32_seq(s) {
            Some(x) => x,
            None => 60u32,
        },
        None => 60u32,
    };
    if v < 15 {
        15
    } else if v > 300 {
        300
    } else {
        v
    }
}

/// The largest plausible counter step an `SM_MAX_DELTA_BYTES` value asks for: 10 GiB when
/// unset or not a number.
pub open spec fn max_delta_setting(raw: Option<Seq<char>>) -> u64 {
    match raw {
        Some(s) => match parse_u64_seq(s) {
            Some(x) => x,
            None => 10737418240u64,
        },
        None => 10737418240u64,
    }
}

/// Whether to trim the working set: unless `SM_TRIM_WORKING_SET` is `0`.
pub open spec fn trim_setting(raw: Option<Seq<char>>) -> bool {
    match raw {
        Some(s) => s != "0"@,
        None => true,
    }
}

pub open spec fn opt_text(s: Option<String>) -> Option<Seq<char>> {
    match s {
        Some(x) => Some(x@),
        None => None,
    }
}

impl AppConfig {
    /// The configuration from the store and log paths and the raw environment values.
    pub fn from_values(
        db_path: String,
        log_path: String,
        poll_interval_raw: Option<String>,
        max_delta_raw: Option<String>,
        trim_raw: Option<String>,
    ) -> (r: AppConfig)
        ensures
            r.db_path == db_path,
            r.log_path == log_path,
            r.pipe_name@ == PIPE_NAME@,
            r.poll_interval_seconds == poll_interval_setting(opt_text(poll_interval_raw)),
            r.max_delta_bytes == max_delta_setting(opt_text(max_delta_raw)),
            r.attribution_mode@ == "helper-required"@,
            r.trim_working_set == trim_setting(opt_text(trim_raw)),
    {
        let v: u32 = match &poll_interval_raw {
            Some(s) => match parse_u32(s.as_str()) {
                Some(x) => x,
                None => 60,
            },
            None => 60,
        };
        let poll = if v < 15 {
            15
        } else if v > 300 {
            300
        } else {
            v
        };
        let max_delta: u64 = match &max_delta_raw {
            Some(s) => match parse_u64(s.as_str()) {
                Some(x) => x,
                None => 10737418240,
            },
            None => 10737418240,
        };
        let trim = match &trim_raw {
            Some(s) => !str_is(s.as_str(), "0"),
            None => true,
        };
        AppConfig {
            db_path,
            log_path,
            pipe_name: PIPE_NAME.to_string(),
            poll_interval_seconds: poll,
            max_delta_bytes: max_delta,
            attribution_mode: "helper-required".to_string(),
            trim_working_set: trim,
        }
    }
}

} // verus!
