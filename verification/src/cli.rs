//! The command line's decisions: where traces go, whether recording is
//! switched off, and which helper binary runs.

use vstd::prelude::*;
use crate::text::{ascii_lower_seq, chars_of, is_lit, to_ascii_lower, trim, trim_chars};

verus! {

/// Environment variable used as a fallback for `--out-dir`.
pub const ENV_OUT_DIR: &'static str = "CODETRACER_FLOW_RECORDER_OUT_DIR";

/// Environment variable that, when set to `1` or `true`, disables recording.
pub const ENV_DISABLED: &'static str = "CODETRACER_FLOW_RECORDER_DISABLED";

/// Output directory when neither `--out-dir` nor the environment names one.
pub const DEFAULT_OUT_DIR: &'static str = "./ct-traces/";

/// Default binary name of the Cadence helper.
pub const DEFAULT_HELPER_BIN: &'static str = "cadence-trace-helper";

/// Environment variable that overrides the helper binary.
pub const HELPER_BIN_ENV: &'static str = "CADENCE_HELPER_BIN";

pub open spec fn opt_seq(o: Option<String>) -> Option<Seq<char>> {
    match o {
        Some(s) => Some(s@),
        None => None,
    }
}

/// The output directory: the flag's when given, else the environment's when
/// set and not empty, else the default.
pub open spec fn out_dir_spec(flag: Option<Seq<char>>, env: Option<Seq<char>>) -> Seq<char> {
    match flag {
        Some(p) => p,
        None => match env {
            Some(e) => if e.len() > 0 {
                e
            } else {
                DEFAULT_OUT_DIR@
            },
            None => DEFAULT_OUT_DIR@,
        },
    }
}

/// Choose the output directory from the `--out-dir` flag and the value of
/// `CODETRACER_FLOW_RECORDER_OUT_DIR`.
pub fn choose_out_dir(flag: Option<String>, env: Option<String>) -> (res: String)
    ensures
        res@ == out_dir_spec(opt_seq(flag), opt_seq(env)),
{
    match flag {
        Some(p) => p,
        None => match env {
            Some(e) => if e.as_str().is_empty() {
                DEFAULT_OUT_DIR.to_string()
            } else {
                e
            },
            None => DEFAULT_OUT_DIR.to_string(),
        },
    }
}

/// Whether the value of `CODETRACER_FLOW_RECORDER_DISABLED` switches
/// recording off: trimmed, it is `1` or `true` in any ASCII case.
pub open spec fn disabled_spec(value: Option<Seq<char>>) -> bool {
    match value {
        Some(v) => trim(v) == "1"@ || ascii_lower_seq(trim(v)) == "true"@,
        None => false,
    }
}

/// Whether recording is switched off, given the variable's value (absent
/// when it is unset or not Unicode).
pub fn recording_disabled_by(value: Option<String>) -> (res: bool)
    ensures
        res == disabled_spec(opt_seq(value)),
{
    match value {
        Some(v) => {
            let t = trim_chars(&chars_of(v.as_str()));
            is_lit(&t, "1") || is_lit(&to_ascii_lower(&t), "true")
        },
        None => false,
    }
}

/// The helper binary: the environment's override, else the one the build
/// produced, else the default name on `$PATH`.
pub open spec fn helper_bin_spec(env: Option<Seq<char>>, built: Option<Seq<char>>) -> Seq<char> {
    match env {
        Some(e) => e,
        None => match built {
            Some(b) => b,
            None => DEFAULT_HELPER_BIN@,
        },
    }
}

/// Choose the helper binary from the value of `CADENCE_HELPER_BIN` and the
/// path of the binary the build produced, if any.
pub fn choose_helper_bin(env: Option<String>, built: Option<String>) -> (res: String)
    ensures
        res@ == helper_bin_spec(opt_seq(env), opt_seq(built)),
{
    match env {
        Some(e) => e,
        None => match built {
            Some(b) => b,
            None => DEFAULT_HELPER_BIN.to_string(),
        },
    }
}

} // verus!
