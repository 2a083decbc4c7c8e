//! The cache-layer search over write-ahead files.
//!
//! A search raises the process-wide indicator, rebuilds the logical path of
//! every file the caller found under the write-ahead root, keeps the files
//! the query predicate matches, sums their sizes, hands the matches to the
//! external SQL executor, and lowers the indicator on every exit, so an
//! eviction pass that consults the indicator never deletes a file mid-query.

use crate::stream::StreamType;
use vstd::prelude::*;
use vstd::string::StrSliceExecFns;
use vstd::string::StringExecFns;

verus! {

/// The process-wide count of searches in flight, consulted by the
/// write-ahead cleaner before it deletes local files.
pub struct Indicator {
    pub count: u64,
}

impl Indicator {
    /// A fresh indicator: no search in flight.
    pub fn new() -> (r: Indicator)
        ensures
            r.count == 0,
    {
        Indicator { count: 0 }
    }

    /// Whether any search is in flight; eviction must wait while true.
    pub fn is_searching(&self) -> (r: bool)
        ensures
            r == (self.count > 0),
    {
        self.count > 0
    }
}

/// The scoped mark of one search in flight: taken on entry, given back on
/// every exit, so the indicator counts exactly the running searches.
pub struct Searching {}

impl Searching {
    /// Mark one more search in flight.
    pub fn new(indicator: &mut Indicator) -> (s: Searching)
        requires
            old(indicator).count < u64::MAX,
        ensures
            final(indicator).count == old(indicator).count + 1,
    {
        indicator.count = indicator.count + 1;
        Searching {  }
    }

    /// Mark this search as finished.
    pub fn release(self, indicator: &mut Indicator)
        requires
            old(indicator).count > 0,
        ensures
            final(indicator).count == old(indicator).count - 1,
    {
        indicator.count = indicator.count - 1;
    }
}

/// A path separator as it may appear in a host path.
pub open spec fn spec_is_sep(c: char) -> bool {
    c == '/' || c == '\\'
}

/// Index of the last separator of `s`, or -1 when it has none.
pub open spec fn spec_last_sep(s: Seq<char>) -> int
    decreases s.len(),
{
    if s.len() == 0 {
        -1
    } else if spec_is_sep(s.last()) {
        s.len() - 1
    } else {
        spec_last_sep(s.drop_last())
    }
}

/// Replace one character with `/`.
pub open spec fn spec_slashed(c: char, from: char) -> char {
    if c == from {
        '/'
    } else {
        c
    }
}

/// The logical path a write-ahead file stands for: the file name encodes
/// path components with `_`, so `_` becomes `/` in the name component, and
/// the parent joins it with forward slashes whatever the host separator.
pub open spec fn spec_logical_path(s: Seq<char>) -> Seq<char> {
    let j = spec_last_sep(s);
    let parent = if j >= 0 {
        s.take(j)
    } else {
        Seq::empty()
    };
    let name = s.skip(j + 1);
    parent.map_values(|c: char| spec_slashed(c, '\\')) + seq!['/'] + name.map_values(
        |c: char| spec_slashed(c, '_'),
    )
}

proof fn lemma_last_sep_bounds(s: Seq<char>)
    ensures
        -1 <= spec_last_sep(s) < s.len(),
    decreases s.len(),
{
    if s.len() > 0 && !spec_is_sep(s.last()) {
        lemma_last_sep_bounds(s.drop_last());
    }
}

fn last_sep(s: &str) -> (r: Option<usize>)
    ensures
        match r {
            Some(j) => j as int == spec_last_sep(s@),
            None => spec_last_sep(s@) == -1,
        },
{
    let n = s.unicode_len();
    let mut i: usize = 0;
    let mut found: Option<usize> = None;
    proof {
        assert(s@.take(0) =~= Seq::<char>::empty());
    }
    while i < n
        invariant
            n == s@.len(),
            0 <= i <= n,
            match found {
                Some(j) => j as int == spec_last_sep(s@.take(i as int)),
                None => spec_last_sep(s@.take(i as int)) == -1,
            },
        decreases n - i,
    {
        let c = s.get_char(i);
        i += 1;
        proof {
            assert(s@.take(i as int).drop_last() =~= s@.take(i as int - 1));
            assert(s@.take(i as int).last() == s@[i as int - 1]);
        }
        if c == '/' || c == '\\' {
            found = Some(i - 1);
        } else {
            proof {
                assert(spec_last_sep(s@.take(i as int)) == spec_last_sep(s@.take(i as int - 1)));
            }
        }
    }
    proof {
        assert(s@.take(n as int) =~= s@);
    }
    found
}

/// Copy `s[a..b]` replacing `from` with `/`.
fn replace_range(s: &str, a: usize, b: usize, from: char) -> (r: String)
    requires
        a <= b <= s@.len(),
    ensures
        r@ == s@.subrange(a as int, b as int).map_values(|c: char| spec_slashed(c, from)),
{
    let mut r = String::new();
    let mut i = a;
    proof {
        assert(r@ =~= s@.subrange(a as int, a as int).map_values(
            |c: char| spec_slashed(c, from),
        ));
    }
    while i < b
        invariant
            a <= i <= b <= s@.len(),
            r@ == s@.subrange(a as int, i as int).map_values(|c: char| spec_slashed(c, from)),
        decreases b - i,
    {
        let c = s.get_char(i);
        if c == from {
            r.append("/");
        } else {
            let piece = s.substring_char(i, i + 1);
            r.append(piece);
        }
        i += 1;
        proof {
            reveal_strlit("/");
            assert("/"@ =~= seq!['/']);
            assert(r@ =~= s@.subrange(a as int, i as int).map_values(
                |c: char| spec_slashed(c, from),
            ));
        }
    }
    r
}

/// Rebuild the logical path of a write-ahead file from its path relative to
/// the write-ahead root.
pub fn logical_path(rel: &str) -> (r: String)
    ensures
        r@ == spec_logical_path(rel@),
{
    proof {
        lemma_last_sep_bounds(rel@);
    }
    let n = rel.unicode_len();
    let (parent, name_start): (String, usize) = match last_sep(rel) {
        Some(j) => (replace_range(rel, 0, j, '\\'), j + 1),
        None => (String::new(), 0),
    };
    let name = replace_range(rel, name_start, n, '_');
    let r = parent.concat("/").concat(name.as_str());
    proof {
        reveal_strlit("/");
        assert("/"@ =~= seq!['/']);
        let j = spec_last_sep(rel@);
        if j >= 0 {
            assert(rel@.subrange(0, j) =~= rel@.take(j));
            assert(rel@.subrange(j + 1, n as int) =~= rel@.skip(j + 1));
        } else {
            assert(rel@.subrange(0, n as int) =~= rel@.skip(0));
            assert(Seq::<char>::empty().map_values(|c: char| spec_slashed(c, '\\'))
                =~= Seq::<char>::empty());
        }
        assert(r@ =~= spec_logical_path(rel@));
    }
    r
}

/// The glob pattern of the write-ahead files a query may touch.
pub open spec fn spec_wal_pattern(
    wal_dir: Seq<char>,
    org: Seq<char>,
    st: StreamType,
    stream: Seq<char>,
) -> Seq<char> {
    wal_dir + "/files/"@ + org + "/"@ + st.spec_label() + "/"@ + stream + "/*.json"@
}

/// Build the glob pattern of the write-ahead files a query may touch.
pub fn wal_pattern(wal_dir: &str, org: &str, stream_type: StreamType, stream: &str) -> (r: String)
    ensures
        r@ == spec_wal_pattern(wal_dir@, org@, stream_type, stream@),
{
    let label = stream_type.label();
    String::from_str(wal_dir).concat("/files/").concat(org).concat("/").concat(
        label.as_str(),
    ).concat("/").concat(stream).concat("/*.json")
}

/// The query predicate of the parsed SQL object: which logical paths the
/// query touches.
pub trait SourceMatcher {
    /// The predicate itself.
    spec fn spec_matches(&self, path: Seq<char>) -> bool;

    /// Decide the predicate on one logical path.
    fn matches(&self, path: &String) -> (r: bool)
        ensures
            r == self.spec_matches(path@),
    ;
}

/// A predicate that accepts every candidate.
pub struct MatchAll {}

impl SourceMatcher for MatchAll {
    open spec fn spec_matches(&self, path: Seq<char>) -> bool {
        true
    }

    fn matches(&self, path: &String) -> (r: bool) {
        true
    }
}

/// A predicate that accepts the logical paths under one directory prefix.
pub struct PrefixMatcher {
    pub prefix: String,
}

impl SourceMatcher for PrefixMatcher {
    open spec fn spec_matches(&self, path: Seq<char>) -> bool {
        self.prefix@.len() <= path.len() && path.take(self.prefix@.len() as int) == self.prefix@
    }

    fn matches(&self, path: &String) -> (r: bool) {
        let plen = self.prefix.as_str().unicode_len();
        let slen = path.as_str().unicode_len();
        if plen > slen {
            return false;
        }
        let mut i: usize = 0;
        while i < plen
            invariant
                plen == self.prefix@.len(),
                slen == path@.len(),
                plen <= slen,
                0 <= i <= plen,
                forall|k: int| 0 <= k < i ==> path@[k] == self.prefix@[k],
            decreases plen - i,
        {
            if path.as_str().get_char(i) != self.prefix.as_str().get_char(i) {
                proof {
                    if path@.take(plen as int) == self.prefix@ {
                        assert(path@.take(plen as int)[i as int] == self.prefix@[i as int]);
                        assert(false);
                    }
                }
                return false;
            }
            i += 1;
        }
        proof {
            assert(path@.take(plen as int) =~= self.prefix@);
        }
        true
    }
}

/// The external SQL executor the matched files are handed to.  `None`
/// stands for an execution error, which the search propagates.
///
/// The call-history contract on `exec` means implementations are written in
/// verified code; one that drives a real engine makes the engine call
/// behind a trusted boundary and records the invocation in ghost state, as
/// [`EchoExecutor`] records its own.
pub trait SqlExecutor {
    /// The per-partition result map of a query.
    type Output;

    /// The invocations this executor has seen: each file list handed to
    /// `exec`, with what that call returned.  No implementation computes
    /// it; it exists so a caller's contract can say how the executor was
    /// used.
    spec fn spec_calls(&self) -> Seq<(Seq<Seq<char>>, Option<Self::Output>)>;

    /// Run the query over the given absolute file paths.
    fn exec(&mut self, session_id: &String, stream_type: StreamType, files: &Vec<String>) -> (r:
        Option<Self::Output>)
        ensures
            final(self).spec_calls() == old(self).spec_calls().push(
                (files@.map_values(|p: String| p@), r),
            ),
    ;
}

/// An executor for shells and tests with no query engine attached: it
/// echoes the file list it was handed, or reports an execution error when
/// told to fail.
pub struct EchoExecutor {
    /// Report an execution error instead of a result.
    pub fail: bool,
    /// The history `spec_calls` exposes.
    pub calls: Ghost<Seq<(Seq<Seq<char>>, Option<Vec<String>>)>>,
}

impl EchoExecutor {
    /// A fresh executor with an empty history.
    pub fn new(fail: bool) -> (r: EchoExecutor)
        ensures
            r.fail == fail,
            r.spec_calls() == Seq::<(Seq<Seq<char>>, Option<Vec<String>>)>::empty(),
    {
        EchoExecutor { fail, calls: Ghost(Seq::empty()) }
    }
}

impl SqlExecutor for EchoExecutor {
    type Output = Vec<String>;

    open spec fn spec_calls(&self) -> Seq<(Seq<Seq<char>>, Option<Vec<String>>)> {
        self.calls@
    }

    fn exec(&mut self, session_id: &String, stream_type: StreamType, files: &Vec<String>) -> (r:
        Option<Vec<String>>) {
        let r = if self.fail {
            None
        } else {
            Some(files.clone())
        };
        proof {
            self.calls@ = self.calls@.push((files@.map_values(|p: String| p@), r));
        }
        r
    }
}

/// A write-ahead file the caller's directory scan found: its canonical path
/// relative to the write-ahead root, and its size on disk in bytes.
pub struct WalFile {
    pub rel_path: String,
    pub size: u64,
}

/// Why a search failed.
#[derive(Clone, Copy, Debug, PartialEq, Eq, Structural)]
pub enum SearchError {
    /// The SQL executor reported an error.
    Executor,
    /// The sizes of the matched files overflow a 64-bit sum.
    SizeOverflow,
}

/// The absolute paths of the files the query matches, in scan order.  The
/// write-ahead root is prepended as given, separator included.
pub open spec fn spec_kept<M: SourceMatcher>(
    sql: &M,
    wal_dir: Seq<char>,
    files: Seq<WalFile>,
) -> Seq<Seq<char>>
    decreases files.len(),
{
    if files.len() == 0 {
        Seq::empty()
    } else {
        let rest = spec_kept(sql, wal_dir, files.drop_last());
        if sql.spec_matches(spec_logical_path(files.last().rel_path@)) {
            rest.push(wal_dir + files.last().rel_path@)
        } else {
            rest
        }
    }
}

/// The summed on-disk size of the files the query matches.
pub open spec fn spec_kept_size<M: SourceMatcher>(sql: &M, files: Seq<WalFile>) -> int
    decreases files.len(),
{
    if files.len() == 0 {
        0int
    } else {
        spec_kept_size(sql, files.drop_last()) + if sql.spec_matches(
            spec_logical_path(files.last().rel_path@),
        ) {
            files.last().size as int
        } else {
            0int
        }
    }
}

proof fn lemma_kept_len_size<M: SourceMatcher>(sql: &M, wal_dir: Seq<char>, files: Seq<WalFile>)
    ensures
        spec_kept(sql, wal_dir, files).len() == 0 ==> spec_kept_size(sql, files) == 0,
        spec_kept_size(sql, files) >= 0,
    decreases files.len(),
{
    if files.len() > 0 {
        lemma_kept_len_size(sql, wal_dir, files.drop_last());
    }
}

/// Keep the files the query matches, as absolute paths, with their summed
/// size; fails only when the sum overflows.
pub fn filter_wal_files<M: SourceMatcher>(
    sql: &M,
    wal_dir: &String,
    wal_files: &Vec<WalFile>,
) -> (r: Result<(Vec<String>, u64), SearchError>)
    ensures
        r matches Ok((files, size)) ==> files@.map_values(|p: String| p@) == spec_kept(
            sql,
            wal_dir@,
            wal_files@,
        ) && size as int == spec_kept_size(sql, wal_files@),
        r is Err <==> spec_kept_size(sql, wal_files@) > u64::MAX,
        r is Err ==> r == Err::<(Vec<String>, u64), SearchError>(SearchError::SizeOverflow),
{
    let mut kept: Vec<String> = Vec::new();
    let mut total: u64 = 0;
    let mut i: usize = 0;
    proof {
        assert(wal_files@.take(0) =~= Seq::<WalFile>::empty());
        assert(kept@.map_values(|p: String| p@) =~= Seq::<Seq<char>>::empty());
    }
    while i < wal_files.len()
        invariant
            0 <= i <= wal_files@.len(),
            kept@.map_values(|p: String| p@) == spec_kept(
                sql,
                wal_dir@,
                wal_files@.take(i as int),
            ),
            total as int == spec_kept_size(sql, wal_files@.take(i as int)),
        decreases wal_files@.len() - i,
    {
        let ghost pre = wal_files@.take(i as int);
        let logical = logical_path(wal_files[i].rel_path.as_str());
        proof {
            assert(wal_files@.take(i as int + 1).drop_last() =~= pre);
            assert(wal_files@.take(i as int + 1).last() == wal_files@[i as int]);
        }
        if sql.matches(&logical) {
            let size = wal_files[i].size;
            if size > u64::MAX - total {
                proof {
                    lemma_kept_size_grows(sql, wal_files@, i as int + 1);
                }
                return Err(SearchError::SizeOverflow);
            }
            total = total + size;
            let abs = wal_dir.clone().concat(wal_files[i].rel_path.as_str());
            kept.push(abs);
            proof {
                assert(kept@.map_values(|p: String| p@) =~= spec_kept(
                    sql,
                    wal_dir@,
                    pre,
                ).push(wal_dir@ + wal_files@[i as int].rel_path@));
            }
        }
        i += 1;
    }
    proof {
        assert(wal_files@.take(wal_files@.len() as int) =~= wal_files@);
        lemma_kept_len_size(sql, wal_dir@, wal_files@);
    }
    Ok((kept, total))
}

/// A prefix of the scan already overflows the total: so does the whole.
proof fn lemma_kept_size_grows<M: SourceMatcher>(sql: &M, files: Seq<WalFile>, n: int)
    requires
        0 <= n <= files.len(),
        spec_kept_size(sql, files.take(n)) > u64::MAX,
    ensures
        spec_kept_size(sql, files) > u64::MAX,
    decreases files.len() - n,
{
    if n == files.len() {
        assert(files.take(n) =~= files);
    } else {
        assert(files.take(n + 1).drop_last() =~= files.take(n));
        lemma_kept_size_grows(sql, files, n + 1);
    }
}

/// Search the write-ahead files: raise the indicator, keep the files the
/// query matches, sum their sizes, run the executor over them, and lower
/// the indicator on every exit.  With no match the executor is not invoked
/// and the result is empty.
pub fn search<M: SourceMatcher, E: SqlExecutor>(
    indicator: &mut Indicator,
    session_id: &String,
    sql: &M,
    stream_type: StreamType,
    wal_dir: &String,
    wal_files: &Vec<WalFile>,
    executor: &mut E,
) -> (r: Result<(Option<E::Output>, usize, u64), SearchError>)
    requires
        old(indicator).count < u64::MAX,
    ensures
        final(indicator).count == old(indicator).count,
        r matches Ok((out, count, size)) ==> {
            let kept = spec_kept(sql, wal_dir@, wal_files@);
            &&& count == kept.len()
            &&& size as int == spec_kept_size(sql, wal_files@)
            &&& (out is None <==> count == 0)
        },
        r == Err::<(Option<E::Output>, usize, u64), SearchError>(SearchError::SizeOverflow)
            <==> spec_kept_size(sql, wal_files@) > u64::MAX,
        r == Err::<(Option<E::Output>, usize, u64), SearchError>(SearchError::Executor) ==>
            spec_kept(sql, wal_dir@, wal_files@).len() > 0,
        ({
            let kept = spec_kept(sql, wal_dir@, wal_files@);
            let pre = old(executor).spec_calls();
            let post = final(executor).spec_calls();
            if kept.len() == 0 || spec_kept_size(sql, wal_files@) > u64::MAX {
                post == pre
            } else {
                &&& post.len() == pre.len() + 1
                &&& post.drop_last() == pre
                &&& post.last().0 == kept
                &&& (match r {
                    Ok(t) => t.0 == post.last().1 && t.0 is Some,
                    Err(e) => e == SearchError::Executor && post.last().1 is None,
                })
            }
        }),
{
    let searching = Searching::new(indicator);
    let (files, size) = match filter_wal_files(sql, wal_dir, wal_files) {
        Ok(fs) => fs,
        Err(e) => {
            searching.release(indicator);
            return Err(e);
        },
    };
    let count = files.len();
    proof {
        assert(files@.map_values(|p: String| p@).len() == files@.len());
    }
    if count == 0 {
        proof {
            lemma_kept_len_size(sql, wal_dir@, wal_files@);
        }
        searching.release(indicator);
        return Ok((None, 0, 0));
    }
    let ghost pre_calls = executor.spec_calls();
    let res = executor.exec(session_id, stream_type, &files);
    proof {
        let kept = spec_kept(sql, wal_dir@, wal_files@);
        assert(files@.map_values(|p: String| p@) == kept);
        assert(executor.spec_calls() =~= pre_calls.push((kept, res)));
        assert(executor.spec_calls().drop_last() =~= pre_calls);
    }
    match res {
        Some(out) => {
            searching.release(indicator);
            Ok((Some(out), count, size))
        },
        None => {
            searching.release(indicator);
            Err(SearchError::Executor)
        },
    }
}

} // verus!
