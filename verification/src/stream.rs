//! Stream kinds and their textual labels.

use vstd::prelude::*;
use vstd::string::StrSliceExecFns;
use vstd::string::StringExecFns;

verus! {

/// The kind of telemetry stream a manifest or a query refers to.
#[derive(Clone, Copy, Debug, PartialEq, Eq, Structural)]
pub enum StreamType {
    Logs,
    Metrics,
    Traces,
    Metadata,
    Filelist,
}

/// `a` equals `b` up to ASCII case, where `b` is an ASCII-lowercase word.
pub open spec fn chars_eq_ignore_ascii_case(a: Seq<char>, b: Seq<char>) -> bool {
    a.len() == b.len() && forall|i: int| 0 <= i < a.len() ==> char_lower_matches(a[i], b[i])
}

/// `a` is `b`, or `a` is the ASCII-uppercase form of `b`.
pub open spec fn char_lower_matches(a: char, b: char) -> bool {
    a == b || (65 <= a as u32 && a as u32 <= 90 && a as u32 + 32 == b as u32)
}

/// Which stream type a label denotes; unknown labels default to logs.
pub open spec fn spec_stream_type_from(s: Seq<char>) -> StreamType {
    if chars_eq_ignore_ascii_case(s, "logs"@) {
        StreamType::Logs
    } else if chars_eq_ignore_ascii_case(s, "metrics"@) {
        StreamType::Metrics
    } else if chars_eq_ignore_ascii_case(s, "traces"@) {
        StreamType::Traces
    } else if chars_eq_ignore_ascii_case(s, "metadata"@) {
        StreamType::Metadata
    } else if chars_eq_ignore_ascii_case(s, "file_list"@) {
        StreamType::Filelist
    } else {
        StreamType::Logs
    }
}

fn eq_ignore_ascii_case(a: &str, b: &str) -> (r: bool)
    ensures
        r == chars_eq_ignore_ascii_case(a@, b@),
{
    let alen = a.unicode_len();
    let blen = b.unicode_len();
    if alen != blen {
        return false;
    }
    let mut i: usize = 0;
    while i < alen
        invariant
            alen == a@.len(),
            blen == b@.len(),
            alen == blen,
            0 <= i <= alen,
            forall|k: int| 0 <= k < i ==> char_lower_matches(a@[k], b@[k]),
        decreases alen - i,
    {
        let ca = a.get_char(i);
        let cb = b.get_char(i);
        let ca_u = ca as u32;
        let cb_u = cb as u32;
        if !(ca == cb || (65 <= ca_u && ca_u <= 90 && ca_u + 32 == cb_u)) {
            return false;
        }
        i += 1;
    }
    true
}

impl StreamType {
    /// Parse a label, ignoring ASCII case; anything unknown is treated as logs.
    pub fn from_label(s: &str) -> (r: StreamType)
        ensures
            r == spec_stream_type_from(s@),
    {
        if eq_ignore_ascii_case(s, "logs") {
            StreamType::Logs
        } else if eq_ignore_ascii_case(s, "metrics") {
            StreamType::Metrics
        } else if eq_ignore_ascii_case(s, "traces") {
            StreamType::Traces
        } else if eq_ignore_ascii_case(s, "metadata") {
            StreamType::Metadata
        } else if eq_ignore_ascii_case(s, "file_list") {
            StreamType::Filelist
        } else {
            StreamType::Logs
        }
    }

    /// The canonical lowercase label of this stream type.
    pub open spec fn spec_label(self) -> Seq<char> {
        match self {
            StreamType::Logs => "logs"@,
            StreamType::Metrics => "metrics"@,
            StreamType::Traces => "traces"@,
            StreamType::Metadata => "metadata"@,
            StreamType::Filelist => "file_list"@,
        }
    }

    /// The canonical lowercase label of this stream type.
    pub fn label(self) -> (r: String)
        ensures
            r@ == self.spec_label(),
    {
        match self {
            StreamType::Logs => String::from_str("logs"),
            StreamType::Metrics => String::from_str("metrics"),
            StreamType::Traces => String::from_str("traces"),
            StreamType::Metadata => String::from_str("metadata"),
            StreamType::Filelist => String::from_str("file_list"),
        }
    }
}

impl Default for StreamType {
    fn default() -> (r: Self)
        ensures
            r == StreamType::Logs,
    {
        StreamType::Logs
    }
}

} // verus!
