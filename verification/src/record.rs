//! Manifest records.
//!
//! A manifest line is one serialized object of the form
//! `{"name":value,...}` whose members include at least `"key"` (a string)
//! and `"deleted"` (`true` or `false`).  Other members are opaque statistics
//! that must survive a merge byte-for-byte, so a parsed record keeps the
//! whole line and a merged manifest writes it back unchanged.
//!
//! Keys are compared exactly as they appear between the quotes of the
//! `"key"` member; every writer of manifest lines escapes the same way, so
//! byte equality of the written form coincides with key equality.

use vstd::prelude::*;

verus! {

pub const QUOTE: u8 = 34;
pub const BACKSLASH: u8 = 92;
pub const COMMA: u8 = 44;
pub const COLON: u8 = 58;
pub const LBRACE: u8 = 123;
pub const RBRACE: u8 = 125;
pub const LBRACK: u8 = 91;
pub const RBRACK: u8 = 93;
pub const NEWLINE: u8 = 10;

/// The bytes of the member name `key`.
pub open spec fn key_name() -> Seq<u8> {
    seq![107u8, 101u8, 121u8]
}

/// The bytes of the member name `deleted`.
pub open spec fn deleted_name() -> Seq<u8> {
    seq![100u8, 101u8, 108u8, 101u8, 116u8, 101u8, 100u8]
}

/// The bytes of the literal `true`.
pub open spec fn true_lit() -> Seq<u8> {
    seq![116u8, 114u8, 117u8, 101u8]
}

/// The bytes of the literal `false`.
pub open spec fn false_lit() -> Seq<u8> {
    seq![102u8, 97u8, 108u8, 115u8, 101u8]
}

/// Position right after the closing quote of a string whose content starts
/// at `i` (the opening quote sits at `i - 1`).  An escape consumes two bytes.
pub open spec fn spec_scan_string(s: Seq<u8>, i: int) -> Option<int>
    decreases s.len() - i,
{
    if i < 0 || i >= s.len() {
        None
    } else if s[i] == QUOTE {
        Some(i + 1)
    } else if s[i] == BACKSLASH {
        if i + 2 <= s.len() {
            spec_scan_string(s, i + 2)
        } else {
            None
        }
    } else {
        spec_scan_string(s, i + 1)
    }
}

/// Position right after the bracket that closes a container whose opening
/// bracket has already been consumed; `depth` open brackets remain, and
/// `in_str` says whether `i` sits inside a string literal.
pub open spec fn spec_scan_container(s: Seq<u8>, i: int, depth: int, in_str: bool) -> Option<int>
    decreases s.len() - i,
{
    if depth <= 0 {
        Some(i)
    } else if i < 0 || i >= s.len() {
        None
    } else if in_str {
        if s[i] == BACKSLASH {
            if i + 2 <= s.len() {
                spec_scan_container(s, i + 2, depth, true)
            } else {
                None
            }
        } else if s[i] == QUOTE {
            spec_scan_container(s, i + 1, depth, false)
        } else {
            spec_scan_container(s, i + 1, depth, true)
        }
    } else {
        if s[i] == QUOTE {
            spec_scan_container(s, i + 1, depth, true)
        } else if s[i] == LBRACE || s[i] == LBRACK {
            spec_scan_container(s, i + 1, depth + 1, false)
        } else if s[i] == RBRACE || s[i] == RBRACK {
            spec_scan_container(s, i + 1, depth - 1, false)
        } else {
            spec_scan_container(s, i + 1, depth, false)
        }
    }
}

/// First position at or after `i` holding the byte that terminates a bare
/// member value: a comma or a closing brace.
pub open spec fn spec_scan_atom(s: Seq<u8>, i: int) -> Option<int>
    decreases s.len() - i,
{
    if i < 0 || i >= s.len() {
        None
    } else if s[i] == COMMA || s[i] == RBRACE {
        Some(i)
    } else {
        spec_scan_atom(s, i + 1)
    }
}

/// Position right after a member value that starts at `i`: after the closing
/// quote of a string, after the closing bracket of a container, or at the
/// terminator of a bare value.
pub open spec fn spec_scan_value(s: Seq<u8>, i: int) -> Option<int> {
    if i < 0 || i >= s.len() {
        None
    } else if s[i] == QUOTE {
        spec_scan_string(s, i + 1)
    } else if s[i] == LBRACE || s[i] == LBRACK {
        spec_scan_container(s, i + 1, 1, false)
    } else {
        spec_scan_atom(s, i)
    }
}

/// Parse the members of a record from position `i` (which must hold the
/// opening quote of a member name) to the closing brace at the end of the
/// line, collecting the `key` and `deleted` members.  A duplicate or missing
/// member, or trailing bytes after the closing brace, fail the parse.
pub open spec fn spec_parse_members(
    s: Seq<u8>,
    i: int,
    key: Option<Seq<u8>>,
    del: Option<bool>,
) -> Option<(Seq<u8>, bool)>
    decreases s.len() - i,
{
    if i < 0 || i >= s.len() || s[i] != QUOTE {
        None
    } else {
        match spec_scan_string(s, i + 1) {
            None => None,
            Some(j) => {
                let name = s.subrange(i + 1, j - 1);
                if j >= s.len() || s[j] != COLON {
                    None
                } else {
                    let v = j + 1;
                    let parsed: Option<(Option<Seq<u8>>, Option<bool>, int)> = if name
                        == key_name() {
                        if key is Some {
                            None
                        } else if v < s.len() && s[v] == QUOTE {
                            match spec_scan_string(s, v + 1) {
                                None => None,
                                Some(e) => Some(
                                    (Some(s.subrange(v + 1, e - 1)), del, e),
                                ),
                            }
                        } else {
                            None
                        }
                    } else if name == deleted_name() {
                        if del is Some {
                            None
                        } else if v + 4 <= s.len() && s.subrange(v, v + 4) == true_lit() {
                            Some((key, Some(true), v + 4))
                        } else if v + 5 <= s.len() && s.subrange(v, v + 5) == false_lit() {
                            Some((key, Some(false), v + 5))
                        } else {
                            None
                        }
                    } else {
                        match spec_scan_value(s, v) {
                            None => None,
                            Some(e) => Some((key, del, e)),
                        }
                    };
                    match parsed {
                        None => None,
                        Some((key2, del2, e)) => {
                            if e < 0 || e >= s.len() {
                                None
                            } else if s[e] == COMMA {
                                if e < i {
                                    None
                                } else {
                                    spec_parse_members(s, e + 1, key2, del2)
                                }
                            } else if s[e] == RBRACE {
                                if e + 1 == s.len() {
                                    match (key2, del2) {
                                        (Some(k), Some(d)) => Some((k, d)),
                                        _ => None,
                                    }
                                } else {
                                    None
                                }
                            } else {
                                None
                            }
                        },
                    }
                }
            },
        }
    }
}

/// Parse one manifest line into its key and tombstone flag.
pub open spec fn spec_parse_record(s: Seq<u8>) -> Option<(Seq<u8>, bool)> {
    if s.len() >= 1 && s[0] == LBRACE {
        spec_parse_members(s, 1, None, None)
    } else {
        None
    }
}

proof fn lemma_scan_string_bounds(s: Seq<u8>, i: int)
    ensures
        spec_scan_string(s, i) matches Some(j) ==> i + 1 <= j <= s.len(),
    decreases s.len() - i,
{
    if 0 <= i < s.len() {
        if s[i] == QUOTE {
        } else if s[i] == BACKSLASH {
            if i + 2 <= s.len() {
                lemma_scan_string_bounds(s, i + 2);
            }
        } else {
            lemma_scan_string_bounds(s, i + 1);
        }
    }
}

proof fn lemma_scan_container_bounds(s: Seq<u8>, i: int, depth: int, in_str: bool)
    ensures
        spec_scan_container(s, i, depth, in_str) matches Some(j) ==> i <= j <= s.len() || depth
            <= 0,
    decreases s.len() - i,
{
    if depth <= 0 {
    } else if 0 <= i < s.len() {
        if in_str {
            if s[i] == BACKSLASH {
                if i + 2 <= s.len() {
                    lemma_scan_container_bounds(s, i + 2, depth, true);
                }
            } else if s[i] == QUOTE {
                lemma_scan_container_bounds(s, i + 1, depth, false);
            } else {
                lemma_scan_container_bounds(s, i + 1, depth, true);
            }
        } else {
            if s[i] == QUOTE {
                lemma_scan_container_bounds(s, i + 1, depth, true);
            } else if s[i] == LBRACE || s[i] == LBRACK {
                lemma_scan_container_bounds(s, i + 1, depth + 1, false);
            } else if s[i] == RBRACE || s[i] == RBRACK {
                lemma_scan_container_bounds(s, i + 1, depth - 1, false);
            } else {
                lemma_scan_container_bounds(s, i + 1, depth, false);
            }
        }
    }
}

proof fn lemma_scan_atom_bounds(s: Seq<u8>, i: int)
    ensures
        spec_scan_atom(s, i) matches Some(j) ==> i <= j < s.len(),
    decreases s.len() - i,
{
    if 0 <= i < s.len() {
        if s[i] == COMMA || s[i] == RBRACE {
        } else {
            lemma_scan_atom_bounds(s, i + 1);
        }
    }
}

proof fn lemma_scan_value_bounds(s: Seq<u8>, i: int)
    ensures
        spec_scan_value(s, i) matches Some(j) ==> i <= j <= s.len(),
{
    if 0 <= i < s.len() {
        if s[i] == QUOTE {
            lemma_scan_string_bounds(s, i + 1);
        } else if s[i] == LBRACE || s[i] == LBRACK {
            lemma_scan_container_bounds(s, i + 1, 1, false);
        } else {
            lemma_scan_atom_bounds(s, i);
        }
    }
}

/// Lift an executable scan result into the domain of the spec scanners.
spec fn opt_pos(r: Option<usize>) -> Option<int> {
    match r {
        Some(v) => Some(v as int),
        None => None,
    }
}

fn scan_string(s: &Vec<u8>, i: usize) -> (r: Option<usize>)
    ensures
        opt_pos(r) == spec_scan_string(s@, i as int),
    decreases s.len() - i,
{
    if i >= s.len() {
        return None;
    }
    let b = s[i];
    if b == QUOTE {
        Some(i + 1)
    } else if b == BACKSLASH {
        if i + 1 < s.len() {
            scan_string(s, i + 2)
        } else {
            None
        }
    } else {
        scan_string(s, i + 1)
    }
}

fn scan_container(s: &Vec<u8>, i: usize, depth: usize, in_str: bool) -> (r: Option<usize>)
    requires
        depth <= i,
    ensures
        opt_pos(r) == spec_scan_container(s@, i as int, depth as int, in_str),
    decreases s.len() - i,
{
    if depth == 0 {
        return Some(i);
    }
    if i >= s.len() {
        return None;
    }
    let b = s[i];
    if in_str {
        if b == BACKSLASH {
            if i + 1 < s.len() {
                scan_container(s, i + 2, depth, true)
            } else {
                None
            }
        } else if b == QUOTE {
            scan_container(s, i + 1, depth, false)
        } else {
            scan_container(s, i + 1, depth, true)
        }
    } else {
        if b == QUOTE {
            scan_container(s, i + 1, depth, true)
        } else if b == LBRACE || b == LBRACK {
            scan_container(s, i + 1, depth + 1, false)
        } else if b == RBRACE || b == RBRACK {
            scan_container(s, i + 1, depth - 1, false)
        } else {
            scan_container(s, i + 1, depth, false)
        }
    }
}

fn scan_atom(s: &Vec<u8>, i: usize) -> (r: Option<usize>)
    ensures
        opt_pos(r) == spec_scan_atom(s@, i as int),
    decreases s.len() - i,
{
    if i >= s.len() {
        return None;
    }
    let b = s[i];
    if b == COMMA || b == RBRACE {
        Some(i)
    } else {
        scan_atom(s, i + 1)
    }
}

fn scan_value(s: &Vec<u8>, i: usize) -> (r: Option<usize>)
    ensures
        opt_pos(r) == spec_scan_value(s@, i as int),
{
    if i >= s.len() {
        return None;
    }
    let b = s[i];
    if b == QUOTE {
        scan_string(s, i + 1)
    } else if b == LBRACE || b == LBRACK {
        scan_container(s, i + 1, 1, false)
    } else {
        scan_atom(s, i)
    }
}

/// Copy the bytes of `s` in `[a, b)` into a fresh vector.
pub(crate) fn bytes_range(s: &Vec<u8>, a: usize, b: usize) -> (r: Vec<u8>)
    requires
        a <= b <= s.len(),
    ensures
        r@ == s@.subrange(a as int, b as int),
{
    let mut r: Vec<u8> = Vec::new();
    let mut k = a;
    while k < b
        invariant
            a <= k <= b <= s.len(),
            r@ == s@.subrange(a as int, k as int),
        decreases b - k,
    {
        r.push(s[k]);
        k += 1;
        proof {
            assert(r@ =~= s@.subrange(a as int, k as int));
        }
    }
    r
}

fn is_key_name(s: &Vec<u8>, a: usize, b: usize) -> (r: bool)
    requires
        a <= b <= s.len(),
    ensures
        r == (s@.subrange(a as int, b as int) == key_name()),
{
    if b - a == 3 && s[a] == 107 && s[a + 1] == 101 && s[a + 2] == 121 {
        proof {
            assert(s@.subrange(a as int, b as int) =~= key_name());
        }
        true
    } else {
        proof {
            if s@.subrange(a as int, b as int) == key_name() {
                assert(s@.subrange(a as int, b as int).len() == key_name().len());
                assert(s@.subrange(a as int, b as int)[0] == key_name()[0]);
                assert(s@.subrange(a as int, b as int)[1] == key_name()[1]);
                assert(s@.subrange(a as int, b as int)[2] == key_name()[2]);
            }
        }
        false
    }
}

fn is_deleted_name(s: &Vec<u8>, a: usize, b: usize) -> (r: bool)
    requires
        a <= b <= s.len(),
    ensures
        r == (s@.subrange(a as int, b as int) == deleted_name()),
{
    if b - a == 7 && s[a] == 100 && s[a + 1] == 101 && s[a + 2] == 108 && s[a + 3] == 101 && s[a
        + 4] == 116 && s[a + 5] == 101 && s[a + 6] == 100 {
        proof {
            assert(s@.subrange(a as int, b as int) =~= deleted_name());
        }
        true
    } else {
        proof {
            if s@.subrange(a as int, b as int) == deleted_name() {
                assert(s@.subrange(a as int, b as int).len() == deleted_name().len());
                assert(s@.subrange(a as int, b as int)[0] == deleted_name()[0]);
                assert(s@.subrange(a as int, b as int)[1] == deleted_name()[1]);
                assert(s@.subrange(a as int, b as int)[2] == deleted_name()[2]);
                assert(s@.subrange(a as int, b as int)[3] == deleted_name()[3]);
                assert(s@.subrange(a as int, b as int)[4] == deleted_name()[4]);
                assert(s@.subrange(a as int, b as int)[5] == deleted_name()[5]);
                assert(s@.subrange(a as int, b as int)[6] == deleted_name()[6]);
            }
        }
        false
    }
}

fn starts_with_true(s: &Vec<u8>, v: usize) -> (r: bool)
    requires
        v <= s.len(),
    ensures
        r == (v + 4 <= s@.len() && s@.subrange(v as int, v as int + 4) == true_lit()),
{
    if s.len() - v >= 4 && s[v] == 116 && s[v + 1] == 114 && s[v + 2] == 117 && s[v + 3] == 101 {
        proof {
            assert(s@.subrange(v as int, v as int + 4) =~= true_lit());
        }
        true
    } else {
        proof {
            if v + 4 <= s@.len() {
            if s@.subrange(v as int, v as int + 4) == true_lit() {
                assert(s@.subrange(v as int, v as int + 4).len() == true_lit().len());
                assert(s@.subrange(v as int, v as int + 4)[0] == true_lit()[0]);
                assert(s@.subrange(v as int, v as int + 4)[1] == true_lit()[1]);
                assert(s@.subrange(v as int, v as int + 4)[2] == true_lit()[2]);
                assert(s@.subrange(v as int, v as int + 4)[3] == true_lit()[3]);
            }
            }
        }
        false
    }
}

fn starts_with_false(s: &Vec<u8>, v: usize) -> (r: bool)
    requires
        v <= s.len(),
    ensures
        r == (v + 5 <= s@.len() && s@.subrange(v as int, v as int + 5) == false_lit()),
{
    if s.len() - v >= 5 && s[v] == 102 && s[v + 1] == 97 && s[v + 2] == 108 && s[v + 3] == 115 && s[v
        + 4] == 101 {
        proof {
            assert(s@.subrange(v as int, v as int + 5) =~= false_lit());
        }
        true
    } else {
        proof {
            if v + 5 <= s@.len() {
            if s@.subrange(v as int, v as int + 5) == false_lit() {
                assert(s@.subrange(v as int, v as int + 5).len() == false_lit().len());
                assert(s@.subrange(v as int, v as int + 5)[0] == false_lit()[0]);
                assert(s@.subrange(v as int, v as int + 5)[1] == false_lit()[1]);
                assert(s@.subrange(v as int, v as int + 5)[2] == false_lit()[2]);
                assert(s@.subrange(v as int, v as int + 5)[3] == false_lit()[3]);
                assert(s@.subrange(v as int, v as int + 5)[4] == false_lit()[4]);
            }
            }
        }
        false
    }
}

/// Lift an executable member accumulator into the spec parser's domain.
spec fn opt_bytes(o: Option<Vec<u8>>) -> Option<Seq<u8>> {
    match o {
        Some(v) => Some(v@),
        None => None,
    }
}

/// Lift an executable parse result into the spec parser's domain.
spec fn opt_pair(r: Option<(Vec<u8>, bool)>) -> Option<(Seq<u8>, bool)> {
    match r {
        Some((k, d)) => Some((k@, d)),
        None => None,
    }
}

fn parse_members(s: &Vec<u8>, i: usize, key: Option<Vec<u8>>, del: Option<bool>) -> (r: Option<
    (Vec<u8>, bool),
>)
    ensures
        opt_pair(r) == spec_parse_members(s@, i as int, opt_bytes(key), del),
    decreases s.len() - i,
{
    if i >= s.len() {
        return None;
    }
    if s[i] != QUOTE {
        return None;
    }
    let j = if let Some(j) = scan_string(s, i + 1) {
        j
    } else {
        return None;
    };
    proof {
        lemma_scan_string_bounds(s@, i as int + 1);
    }
    if j >= s.len() || s[j] != COLON {
        return None;
    }
    let v = j + 1;
    let is_key = is_key_name(s, i + 1, j - 1);
    let is_del = !is_key && is_deleted_name(s, i + 1, j - 1);
    let (key2, del2, e): (Option<Vec<u8>>, Option<bool>, usize) = if is_key {
        if key.is_some() {
            return None;
        }
        if !(v < s.len() && s[v] == QUOTE) {
            return None;
        }
        let e = if let Some(e) = scan_string(s, v + 1) {
            e
        } else {
            return None;
        };
        proof {
            lemma_scan_string_bounds(s@, v as int + 1);
        }
        let content = bytes_range(s, v + 1, e - 1);
        (Some(content), del, e)
    } else if is_del {
        if del.is_some() {
            return None;
        }
        if starts_with_true(s, v) {
            (key, Some(true), v + 4)
        } else if starts_with_false(s, v) {
            (key, Some(false), v + 5)
        } else {
            return None;
        }
    } else {
        let e = if let Some(e) = scan_value(s, v) {
            e
        } else {
            return None;
        };
        proof {
            lemma_scan_value_bounds(s@, v as int);
        }
        (key, del, e)
    };
    if e >= s.len() {
        return None;
    }
    if s[e] == COMMA {
        if e < i {
            return None;
        }
        parse_members(s, e + 1, key2, del2)
    } else if s[e] == RBRACE {
        if e + 1 == s.len() {
            match (key2, del2) {
                (Some(k), Some(d)) => Some((k, d)),
                _ => None,
            }
        } else {
            None
        }
    } else {
        None
    }
}

/// An entry of a manifest: the parsed key and tombstone flag, and the line
/// it was parsed from, kept verbatim so unknown members round-trip.
#[derive(Debug, PartialEq, Eq)]
pub struct FileKey {
    pub key: Vec<u8>,
    pub deleted: bool,
    pub line: Vec<u8>,
}

/// The mathematical image of a [`FileKey`].
#[verifier::ext_equal]
pub ghost struct FileKeyV {
    pub key: Seq<u8>,
    pub deleted: bool,
    pub line: Seq<u8>,
}

impl View for FileKey {
    type V = FileKeyV;

    open spec fn view(&self) -> FileKeyV {
        FileKeyV { key: self.key@, deleted: self.deleted, line: self.line@ }
    }
}

impl FileKey {
    /// Parse one manifest line; `None` when it is not a well-formed record.
    pub fn parse(line: Vec<u8>) -> (r: Option<FileKey>)
        ensures
            r is Some <==> spec_parse_record(line@) is Some,
            r matches Some(fk) ==> {
                &&& spec_parse_record(line@) == Some((fk@.key, fk@.deleted))
                &&& fk@.line == line@
            },
    {
        if line.len() == 0 {
            return None;
        }
        if line[0] != LBRACE {
            return None;
        }
        match parse_members(&line, 1, None, None) {
            None => None,
            Some((k, d)) => Some(FileKey { key: k, deleted: d, line }),
        }
    }
}

impl FileKeyV {
    /// A record is well formed when its line parses back to its key and
    /// flag, is not empty, and holds no newline (newlines separate records).
    pub open spec fn wf(self) -> bool {
        &&& spec_parse_record(self.line) == Some((self.key, self.deleted))
        &&& self.line.len() > 0
        &&& forall|i: int| 0 <= i < self.line.len() ==> self.line[i] != NEWLINE
    }
}

} // verus!
