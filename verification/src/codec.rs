//! The manifest wire format: newline-delimited records inside a zstd frame.
//!
//! A manifest payload is every record line followed by one newline.  Blank
//! lines are tolerated and skipped on decode.  Encoding is a function of the
//! records alone, so a canonical record order yields a canonical payload.

use crate::merge::drop_tombstones;
use crate::merge::merge_records;
use crate::merge::views;
use crate::record::bytes_range;
use crate::record::spec_parse_record;
use crate::record::FileKey;
use crate::record::FileKeyV;
use crate::record::NEWLINE;
use vstd::prelude::*;

verus! {

/// Why a manifest object could not be decoded or built.
#[derive(Clone, Copy, Debug, PartialEq, Eq, Structural)]
pub enum CodecError {
    /// The object is not a well-formed compression frame.
    BadFrame,
    /// A record line inside the payload does not parse.
    BadRecord,
    /// The compressor refused the payload.
    Compress,
}

/// The views of a sequence of byte buffers.
pub open spec fn bytes_views(v: Seq<Vec<u8>>) -> Seq<Seq<u8>> {
    v.map_values(|b: Vec<u8>| b@)
}

/// Index of the first newline at or after `i`, or the length when none.
pub open spec fn spec_line_end(s: Seq<u8>, i: int) -> int
    decreases s.len() - i,
{
    if i < 0 || i >= s.len() {
        s.len() as int
    } else if s[i] == NEWLINE {
        i
    } else {
        spec_line_end(s, i + 1)
    }
}

/// The lines of a payload: the segments between newlines; a final segment
/// without a trailing newline is a line of its own.
pub open spec fn spec_split_lines(s: Seq<u8>) -> Seq<Seq<u8>>
    decreases s.len(),
{
    if s.len() == 0 {
        Seq::empty()
    } else {
        let e = spec_line_end(s, 0);
        if 0 <= e < s.len() {
            seq![s.take(e)] + spec_split_lines(s.skip(e + 1))
        } else {
            seq![s]
        }
    }
}

/// The records of a sequence of lines, skipping blank lines; `None` when a
/// non-blank line fails to parse.
pub open spec fn spec_parse_lines(lines: Seq<Seq<u8>>) -> Option<Seq<FileKeyV>>
    decreases lines.len(),
{
    if lines.len() == 0 {
        Some(Seq::empty())
    } else {
        match spec_parse_lines(lines.drop_last()) {
            None => None,
            Some(rs) => {
                let l = lines.last();
                if l.len() == 0 {
                    Some(rs)
                } else {
                    match spec_parse_record(l) {
                        None => None,
                        Some(kd) => Some(rs.push(FileKeyV { key: kd.0, deleted: kd.1, line: l })),
                    }
                }
            },
        }
    }
}

/// The records of a manifest payload; `None` when some line fails to parse.
pub open spec fn spec_decode_payload(s: Seq<u8>) -> Option<Seq<FileKeyV>> {
    spec_parse_lines(spec_split_lines(s))
}

/// The payload that encodes `recs`: each record line followed by a newline.
pub open spec fn spec_encode_payload(recs: Seq<FileKeyV>) -> Seq<u8>
    decreases recs.len(),
{
    if recs.len() == 0 {
        Seq::empty()
    } else {
        spec_encode_payload(recs.drop_last()) + recs.last().line + seq![NEWLINE]
    }
}

proof fn lemma_line_end(s: Seq<u8>, i: int)
    requires
        0 <= i <= s.len(),
    ensures
        i <= spec_line_end(s, i) <= s.len(),
        spec_line_end(s, i) < s.len() ==> s[spec_line_end(s, i)] == NEWLINE,
        forall|j: int| i <= j < spec_line_end(s, i) ==> s[j] != NEWLINE,
    decreases s.len() - i,
{
    if i < s.len() && s[i] != NEWLINE {
        lemma_line_end(s, i + 1);
    }
}

/// The first newline of a suffix sits where the first newline at or after
/// the cut sits in the whole.
proof fn lemma_line_end_skip(s: Seq<u8>, p: int)
    requires
        0 <= p <= s.len(),
    ensures
        spec_line_end(s.skip(p), 0) == spec_line_end(s, p) - p,
{
    let t = s.skip(p);
    let e1 = spec_line_end(t, 0);
    let e2 = spec_line_end(s, p);
    lemma_line_end(t, 0);
    lemma_line_end(s, p);
    assert(forall|j: int| 0 <= j < t.len() ==> t[j] == s[p + j]);
    if e1 < e2 - p {
        assert(t[e1] == NEWLINE);
        assert(s[p + e1] != NEWLINE);
        assert(false);
    }
    if e2 - p < e1 {
        assert(s[e2] == NEWLINE);
        assert(t[e2 - p] == NEWLINE);
        assert(false);
    }
}

fn line_end(s: &Vec<u8>, i: usize) -> (r: usize)
    requires
        i <= s.len(),
    ensures
        r as int == spec_line_end(s@, i as int),
    decreases s.len() - i,
{
    if i >= s.len() {
        s.len()
    } else if s[i] == NEWLINE {
        i
    } else {
        line_end(s, i + 1)
    }
}

/// Split a payload into its lines, without their newlines.
pub fn split_lines(s: &Vec<u8>) -> (r: Vec<Vec<u8>>)
    ensures
        bytes_views(r@) == spec_split_lines(s@),
{
    let mut r: Vec<Vec<u8>> = Vec::new();
    let mut pos: usize = 0;
    proof {
        assert(s@.skip(0) =~= s@);
        assert(bytes_views(r@) + spec_split_lines(s@.skip(0)) =~~= spec_split_lines(s@));
    }
    while pos < s.len()
        invariant
            0 <= pos <= s@.len(),
            spec_split_lines(s@) == bytes_views(r@) + spec_split_lines(s@.skip(pos as int)),
        decreases s@.len() - pos,
    {
        let ghost old_r = r@;
        let e = line_end(s, pos);
        proof {
            lemma_line_end(s@, pos as int);
            lemma_line_end_skip(s@, pos as int);
        }
        let seg = bytes_range(s, pos, e);
        r.push(seg);
        let ghost t = s@.skip(pos as int);
        proof {
            assert(bytes_views(r@) =~~= bytes_views(old_r).push(seg@));
            let e0 = spec_line_end(t, 0);
            assert(e0 == e - pos);
        }
        if e < s.len() {
            proof {
                let e0 = spec_line_end(t, 0);
                assert(0 <= e0 < t.len());
                assert(spec_split_lines(t) == seq![t.take(e0)] + spec_split_lines(
                    t.skip(e0 + 1),
                ));
                assert(t.take(e0) =~= seg@);
                assert(t.skip(e0 + 1) =~= s@.skip(e as int + 1));
                assert(bytes_views(old_r) + spec_split_lines(t) =~~= bytes_views(r@)
                    + spec_split_lines(s@.skip(e as int + 1)));
            }
            pos = e + 1;
        } else {
            proof {
                let e0 = spec_line_end(t, 0);
                assert(e0 == t.len());
                assert(spec_split_lines(t) == seq![t]);
                assert(t =~= seg@);
                assert(s@.skip(e as int) =~= Seq::<u8>::empty());
                assert(bytes_views(old_r) + spec_split_lines(t) =~~= bytes_views(r@)
                    + spec_split_lines(s@.skip(e as int)));
            }
            pos = e;
        }
    }
    proof {
        assert(s@.skip(pos as int) =~= Seq::<u8>::empty());
        assert(bytes_views(r@) + spec_split_lines(s@.skip(pos as int)) =~~= bytes_views(r@));
    }
    r
}

/// A failed prefix fails the whole line parse.
proof fn lemma_parse_lines_prefix_none(lines: Seq<Seq<u8>>, n: int)
    requires
        0 <= n <= lines.len(),
        spec_parse_lines(lines.take(n)) is None,
    ensures
        spec_parse_lines(lines) is None,
    decreases lines.len() - n,
{
    if n == lines.len() {
        assert(lines.take(n) =~= lines);
    } else {
        assert(lines.take(n + 1).drop_last() =~= lines.take(n));
        lemma_parse_lines_prefix_none(lines, n + 1);
    }
}

/// Decode a manifest payload into its records.
pub fn decode_payload(payload: &Vec<u8>) -> (r: Result<Vec<FileKey>, CodecError>)
    ensures
        match r {
            Ok(recs) => spec_decode_payload(payload@) == Some(views(recs@)),
            Err(e) => e == CodecError::BadRecord && spec_decode_payload(payload@) is None,
        },
{
    let mut lines = split_lines(payload);
    let ghost all = bytes_views(lines@);
    let mut recs: Vec<FileKey> = Vec::new();
    let ghost mut n: int = 0;
    proof {
        assert forall|i: int| 0 <= i < lines@.len() implies lines@[i]@ == all[n + i] by {
            assert(bytes_views(lines@)[i] == lines@[i]@);
        }
        assert(all.take(0) =~= Seq::<Seq<u8>>::empty());
    }
    while lines.len() > 0
        invariant
            0 <= n <= all.len(),
            lines@.len() == all.len() - n,
            forall|i: int| 0 <= i < lines@.len() ==> (#[trigger] lines@[i])@ == all[n + i],
            spec_parse_lines(all.take(n)) == Some(views(recs@)),
            spec_parse_lines(spec_split_lines(payload@)) == spec_parse_lines(all),
        decreases lines@.len(),
    {
        let ghost prev = lines@;
        let line = lines.remove(0);
        proof {
            assert(line@ == all[n]);
            assert(lines@ == prev.remove(0));
            assert forall|i: int| 0 <= i < lines@.len() implies (#[trigger] lines@[i])@ == all[n + 1
                + i] by {
                assert(lines@[i] == prev[i + 1]);
            }
            assert(all.take(n + 1).drop_last() =~= all.take(n));
            assert(all.take(n + 1).last() == all[n]);
        }
        if line.len() == 0 {
            proof {
                assert(spec_parse_lines(all.take(n + 1)) == Some(views(recs@)));
            }
        } else {
            match FileKey::parse(line) {
                Some(fk) => {
                    proof {
                        let kd = spec_parse_record(all[n])->0;
                        assert(fk@ =~= FileKeyV { key: kd.0, deleted: kd.1, line: all[n] });
                    }
                    recs.push(fk);
                    proof {
                        let kd = spec_parse_record(all[n])->0;
                        let rs = spec_parse_lines(all.take(n))->0;
                        assert(views(recs@) =~= rs.push(
                            FileKeyV { key: kd.0, deleted: kd.1, line: all[n] },
                        ));
                    }
                },
                None => {
                    proof {
                        assert(spec_parse_lines(all.take(n + 1)) is None);
                        lemma_parse_lines_prefix_none(all, n + 1);
                    }
                    return Err(CodecError::BadRecord);
                },
            }
        }
        proof {
            n = n + 1;
        }
    }
    proof {
        assert(all.take(n) =~= all);
    }
    Ok(recs)
}

/// Encode records into a manifest payload.
pub fn encode_payload(recs: &Vec<FileKey>) -> (r: Vec<u8>)
    ensures
        r@ == spec_encode_payload(views(recs@)),
{
    let mut out: Vec<u8> = Vec::new();
    let mut i: usize = 0;
    proof {
        assert(views(recs@).take(0) =~= Seq::<FileKeyV>::empty());
    }
    while i < recs.len()
        invariant
            0 <= i <= recs@.len(),
            out@ == spec_encode_payload(views(recs@).take(i as int)),
        decreases recs@.len() - i,
    {
        let line_len = recs[i].line.len();
        let mut seg = bytes_range(&recs[i].line, 0, line_len);
        out.append(&mut seg);
        out.push(NEWLINE);
        i += 1;
        proof {
            let vs = views(recs@);
            assert(vs.take(i as int).drop_last() =~= vs.take(i as int - 1));
            assert(vs.take(i as int).last() == vs[i as int - 1]);
            assert(vs[i as int - 1].line == recs@[i as int - 1]@.line);
            assert(recs@[i as int - 1]@.line =~= recs@[i as int - 1].line@);
            assert(out@ =~= spec_encode_payload(vs.take(i as int - 1)) + vs[i as int - 1].line
                + seq![NEWLINE]);
        }
    }
    proof {
        assert(views(recs@).take(recs@.len() as int) =~= views(recs@));
    }
    out
}

/// A non-empty encoded payload ends with a newline.
proof fn lemma_encode_ends_nl(recs: Seq<FileKeyV>)
    requires
        recs.len() > 0,
    ensures
        spec_encode_payload(recs).len() > 0,
        spec_encode_payload(recs).last() == NEWLINE,
{
    let enc = spec_encode_payload(recs);
    assert(enc == spec_encode_payload(recs.drop_last()) + recs.last().line + seq![NEWLINE]);
    assert(enc[enc.len() - 1] == NEWLINE);
}

/// Splitting distributes over concatenation at a newline boundary.
proof fn lemma_split_concat(a: Seq<u8>, b: Seq<u8>)
    requires
        a.len() == 0 || a[a.len() - 1] == NEWLINE,
    ensures
        spec_split_lines(a + b) == spec_split_lines(a) + spec_split_lines(b),
    decreases a.len(),
{
    if a.len() == 0 {
        assert(a + b =~= b);
        assert(spec_split_lines(a) + spec_split_lines(b) =~~= spec_split_lines(b));
    } else {
        let s = a + b;
        lemma_line_end(a, 0);
        lemma_line_end(s, 0);
        let ea = spec_line_end(a, 0);
        let es = spec_line_end(s, 0);
        assert(ea < a.len());
        if es < ea {
            assert(s[es] == NEWLINE);
            assert(s[es] == a[es]);
            assert(false);
        }
        if ea < es {
            assert(a[ea] == NEWLINE);
            assert(s[ea] == NEWLINE);
            assert(false);
        }
        assert(s.take(es) =~= a.take(ea));
        assert(s.skip(es + 1) =~= a.skip(ea + 1) + b);
        let a2 = a.skip(ea + 1);
        if a2.len() > 0 {
            assert(a2[a2.len() - 1] == a[a.len() - 1]);
        }
        lemma_split_concat(a2, b);
        assert(spec_split_lines(s) == seq![s.take(es)] + spec_split_lines(s.skip(es + 1)));
        assert(spec_split_lines(a) == seq![a.take(ea)] + spec_split_lines(a2));
        assert(seq![a.take(ea)] + (spec_split_lines(a2) + spec_split_lines(b)) =~~= (seq![
            a.take(ea),
        ] + spec_split_lines(a2)) + spec_split_lines(b));
    }
}

/// A newline-free line followed by a newline splits into just that line.
proof fn lemma_split_single(line: Seq<u8>)
    requires
        forall|i: int| 0 <= i < line.len() ==> line[i] != NEWLINE,
    ensures
        spec_split_lines(line + seq![NEWLINE]) == seq![line],
{
    let s = line + seq![NEWLINE];
    lemma_line_end(s, 0);
    let e = spec_line_end(s, 0);
    assert(s[line.len() as int] == NEWLINE);
    if e < line.len() {
        assert(s[e] == line[e]);
        assert(false);
    }
    assert(e == line.len());
    assert(s.take(e) =~= line);
    assert(s.skip(e + 1) =~= Seq::<u8>::empty());
    assert(spec_split_lines(s) == seq![s.take(e)] + spec_split_lines(s.skip(e + 1)));
    assert(seq![s.take(e)] + spec_split_lines(s.skip(e + 1)) =~~= seq![line]);
}

/// Round trip: decoding an encoded manifest payload yields the records
/// unchanged and in the same order.
pub proof fn lemma_codec_round_trip(recs: Seq<FileKeyV>)
    requires
        forall|i: int| 0 <= i < recs.len() ==> (#[trigger] recs[i]).wf(),
    ensures
        spec_decode_payload(spec_encode_payload(recs)) == Some(recs),
    decreases recs.len(),
{
    if recs.len() == 0 {
        assert(spec_encode_payload(recs) =~= Seq::<u8>::empty());
        assert(spec_split_lines(Seq::<u8>::empty()) =~~= Seq::<Seq<u8>>::empty());
        assert(Some(Seq::<FileKeyV>::empty()) == Some(recs)) by {
            assert(Seq::<FileKeyV>::empty() =~= recs);
        }
    } else {
        let pre = recs.drop_last();
        let r = recs.last();
        assert(r.wf());
        assert forall|i: int| 0 <= i < pre.len() implies (#[trigger] pre[i]).wf() by {
            assert(pre[i] == recs[i]);
        }
        lemma_codec_round_trip(pre);
        let enc_pre = spec_encode_payload(pre);
        let line = r.line;
        let enc = spec_encode_payload(recs);
        assert(enc =~= enc_pre + (line + seq![NEWLINE]));
        if pre.len() > 0 {
            lemma_encode_ends_nl(pre);
        }
        lemma_split_concat(enc_pre, line + seq![NEWLINE]);
        lemma_split_single(line);
        assert(spec_split_lines(enc) == spec_split_lines(enc_pre) + seq![line]);
        let lines_pre = spec_split_lines(enc_pre);
        let lines = lines_pre + seq![line];
        assert(lines.drop_last() =~= lines_pre);
        assert(lines.last() == line);
        assert(line.len() > 0);
        assert(spec_parse_record(line) == Some((r.key, r.deleted)));
        assert(FileKeyV { key: r.key, deleted: r.deleted, line: line } =~= r);
        assert(spec_parse_lines(lines) == Some(spec_parse_lines(lines_pre)->0.push(r)));
        assert(spec_parse_lines(lines_pre)->0 == pre);
        assert(pre.push(r) =~= recs);
    }
}

/// Compression level used for published manifests.
pub const ZSTD_LEVEL: i32 = 3;

/// The zstd frame that compressing `data` at `level` produces.
pub uninterp spec fn zstd_frame_of(data: Seq<u8>, level: int) -> Seq<u8>;

/// Whether compressing `data` at `level` into memory succeeds.  For this
/// build the encoder is single-threaded and its outcome depends on the
/// bytes and the level alone.
pub uninterp spec fn zstd_accepts(data: Seq<u8>, level: int) -> bool;

/// The payload a zstd frame decompresses to; `None` when the bytes are not
/// a well-formed frame.
pub uninterp spec fn zstd_unframe_of(frame: Seq<u8>) -> Option<Seq<u8>>;

/// Relies on zstd::stream::encode_all: compressing an in-memory buffer
/// succeeds or fails as a function of the bytes and the level, its output
/// is a function of them too, and decode_all inverts it.
#[verifier::external_body]
fn zstd_compress(data: &Vec<u8>, level: i32) -> (r: Option<Vec<u8>>)
    ensures
        r is Some <==> zstd_accepts(data@, level as int),
        r matches Some(out) ==> out@ == zstd_frame_of(data@, level as int) && zstd_unframe_of(out@)
            == Some(data@),
{
    zstd::encode_all(data.as_slice(), level).ok()
}

/// Relies on zstd::stream::decode_all: decompression accepts exactly the
/// well-formed frames and its result is a function of the bytes.
#[verifier::external_body]
fn zstd_decompress(frame: &Vec<u8>) -> (r: Option<Vec<u8>>)
    ensures
        r matches Some(out) ==> zstd_unframe_of(frame@) == Some(out@),
        r is None ==> zstd_unframe_of(frame@) is None,
{
    zstd::decode_all(frame.as_slice()).ok()
}

/// Compress an encoded payload into a manifest object.
pub fn compress_manifest(payload: &Vec<u8>) -> (r: Result<Vec<u8>, CodecError>)
    ensures
        r is Ok <==> zstd_accepts(payload@, ZSTD_LEVEL as int),
        r matches Ok(out) ==> out@ == zstd_frame_of(payload@, ZSTD_LEVEL as int)
            && zstd_unframe_of(out@) == Some(payload@),
        r matches Err(e) ==> e == CodecError::Compress,
{
    match zstd_compress(payload, ZSTD_LEVEL) {
        Some(v) => Ok(v),
        None => Err(CodecError::Compress),
    }
}

/// Decompress a manifest object into its payload.
pub fn decompress_manifest(obj: &Vec<u8>) -> (r: Result<Vec<u8>, CodecError>)
    ensures
        r matches Ok(out) ==> zstd_unframe_of(obj@) == Some(out@),
        r matches Err(e) ==> e == CodecError::BadFrame && zstd_unframe_of(obj@) is None,
{
    match zstd_decompress(obj) {
        Some(v) => Ok(v),
        None => Err(CodecError::BadFrame),
    }
}

/// Build a manifest object from records: encode each line and compress.
pub fn encode_manifest(recs: &Vec<FileKey>) -> (r: Result<Vec<u8>, CodecError>)
    ensures
        r is Ok <==> zstd_accepts(spec_encode_payload(views(recs@)), ZSTD_LEVEL as int),
        r matches Ok(out) ==> out@ == zstd_frame_of(
            spec_encode_payload(views(recs@)),
            ZSTD_LEVEL as int,
        ) && zstd_unframe_of(out@) == Some(spec_encode_payload(views(recs@))),
        r matches Err(e) ==> e == CodecError::Compress,
{
    let payload = encode_payload(recs);
    compress_manifest(&payload)
}

/// Read a manifest object back into its records.
pub fn decode_manifest(obj: &Vec<u8>) -> (r: Result<Vec<FileKey>, CodecError>)
    ensures
        r matches Ok(recs) ==> zstd_unframe_of(obj@) matches Some(p) && spec_decode_payload(p)
            == Some(views(recs@)),
        r matches Err(e) ==> e != CodecError::Compress && (zstd_unframe_of(obj@) is None
            || spec_decode_payload(zstd_unframe_of(obj@)->0) is None),
        r is Err <==> (zstd_unframe_of(obj@) is None || spec_decode_payload(
            zstd_unframe_of(obj@)->0,
        ) is None),
{
    let payload = match decompress_manifest(obj) {
        Ok(p) => p,
        Err(e) => {
            return Err(e);
        },
    };
    decode_payload(&payload)
}

/// All records of all manifest objects, in listing order; `None` when an
/// object is not a frame or a record fails to parse.
pub open spec fn spec_decode_inputs(inputs: Seq<Seq<u8>>) -> Option<Seq<FileKeyV>>
    decreases inputs.len(),
{
    if inputs.len() == 0 {
        Some(Seq::empty())
    } else {
        match spec_decode_inputs(inputs.drop_last()) {
            None => None,
            Some(acc) => match zstd_unframe_of(inputs.last()) {
                None => None,
                Some(payload) => match spec_decode_payload(payload) {
                    None => None,
                    Some(rs) => Some(acc + rs),
                },
            },
        }
    }
}

/// The payload of the manifest a merge publishes: the untombstoned entries
/// of the keyed mapping, encoded in first-occurrence order.
pub open spec fn spec_merged_payload(recs: Seq<FileKeyV>) -> Seq<u8> {
    spec_encode_payload(crate::merge::spec_survivors(crate::merge::spec_merge(recs)))
}

/// A failed prefix fails the whole input decode.
proof fn lemma_decode_inputs_prefix_none(inputs: Seq<Seq<u8>>, n: int)
    requires
        0 <= n <= inputs.len(),
        spec_decode_inputs(inputs.take(n)) is None,
    ensures
        spec_decode_inputs(inputs) is None,
    decreases inputs.len() - n,
{
    if n == inputs.len() {
        assert(inputs.take(n) =~= inputs);
    } else {
        assert(inputs.take(n + 1).drop_last() =~= inputs.take(n));
        lemma_decode_inputs_prefix_none(inputs, n + 1);
    }
}

/// Idempotence of publishing: the records of a published manifest are
/// exactly the survivors of the merge, and feeding them back as the only
/// input of the next merge publishes a byte-identical payload.
pub proof fn lemma_publish_idempotent(recs: Seq<FileKeyV>)
    requires
        forall|i: int| 0 <= i < recs.len() ==> (#[trigger] recs[i]).wf(),
    ensures
        ({
            let out = crate::merge::spec_survivors(crate::merge::spec_merge(recs));
            &&& spec_decode_payload(spec_merged_payload(recs)) == Some(out)
            &&& spec_merged_payload(out) == spec_merged_payload(recs)
        }),
{
    let m = crate::merge::spec_merge(recs);
    let out = crate::merge::spec_survivors(m);
    crate::merge::lemma_survivors_clean(m);
    assert forall|j: int| 0 <= j < out.len() implies (#[trigger] out[j]).wf() by {
        let i = choose|i: int| 0 <= i < m.len() && out[j] == m[i];
        crate::merge::lemma_merge_member(recs, i);
        let i2 = choose|i2: int| 0 <= i2 < recs.len() && m[i] == recs[i2];
        assert(out[j] == recs[i2]);
    }
    lemma_codec_round_trip(out);
    crate::merge::lemma_merge_idempotent(recs);
    crate::merge::lemma_survivors_of_clean(out);
}

/// No line of a split payload holds a newline.
proof fn lemma_split_lines_no_nl(s: Seq<u8>)
    ensures
        forall|j: int, k: int|
            0 <= j < spec_split_lines(s).len() && 0 <= k < spec_split_lines(s)[j].len()
                ==> spec_split_lines(s)[j][k] != NEWLINE,
    decreases s.len(),
{
    if s.len() > 0 {
        lemma_line_end(s, 0);
        let e = spec_line_end(s, 0);
        let sp = spec_split_lines(s);
        if 0 <= e < s.len() {
            lemma_split_lines_no_nl(s.skip(e + 1));
            assert forall|j: int, k: int|
                0 <= j < sp.len() && 0 <= k < sp[j].len() implies sp[j][k] != NEWLINE by {
                if j == 0 {
                    assert(sp[0] == s.take(e));
                    assert(s.take(e)[k] == s[k]);
                } else {
                    assert(sp[j] == spec_split_lines(s.skip(e + 1))[j - 1]);
                }
            }
        } else {
            assert forall|j: int, k: int|
                0 <= j < sp.len() && 0 <= k < sp[j].len() implies sp[j][k] != NEWLINE by {
                assert(sp[j] == s);
                assert(s[k] != NEWLINE);
            }
        }
    }
}

/// Parsed lines give well-formed records when no line holds a newline.
proof fn lemma_parse_lines_wf(lines: Seq<Seq<u8>>)
    requires
        forall|j: int, k: int|
            0 <= j < lines.len() && 0 <= k < lines[j].len() ==> lines[j][k] != NEWLINE,
    ensures
        spec_parse_lines(lines) matches Some(recs) ==> forall|i: int|
            0 <= i < recs.len() ==> (#[trigger] recs[i]).wf(),
    decreases lines.len(),
{
    if lines.len() > 0 && spec_parse_lines(lines) is Some {
        let pre = lines.drop_last();
        assert forall|j: int, k: int|
            0 <= j < pre.len() && 0 <= k < pre[j].len() implies pre[j][k] != NEWLINE by {
            assert(pre[j] == lines[j]);
        }
        lemma_parse_lines_wf(pre);
        let rs = spec_parse_lines(pre)->0;
        let recs = spec_parse_lines(lines)->0;
        let l = lines.last();
        if l.len() == 0 {
        } else {
            let kd = spec_parse_record(l)->0;
            let fresh = FileKeyV { key: kd.0, deleted: kd.1, line: l };
            assert(l == lines[lines.len() - 1]);
            assert(fresh.wf());
            assert forall|i: int| 0 <= i < recs.len() implies (#[trigger] recs[i]).wf() by {
                if i < rs.len() {
                    assert(recs[i] == rs[i]);
                } else {
                    assert(recs[i] == fresh);
                }
            }
        }
    }
}

/// Every record a payload decodes to is well formed.
pub proof fn lemma_decode_payload_wf(s: Seq<u8>)
    ensures
        spec_decode_payload(s) matches Some(recs) ==> forall|i: int|
            0 <= i < recs.len() ==> (#[trigger] recs[i]).wf(),
{
    lemma_split_lines_no_nl(s);
    lemma_parse_lines_wf(spec_split_lines(s));
}

/// Every record the listed inputs decode to is well formed.
pub proof fn lemma_decode_inputs_wf(inputs: Seq<Seq<u8>>)
    ensures
        spec_decode_inputs(inputs) matches Some(recs) ==> forall|i: int|
            0 <= i < recs.len() ==> (#[trigger] recs[i]).wf(),
    decreases inputs.len(),
{
    if inputs.len() > 0 && spec_decode_inputs(inputs) is Some {
        lemma_decode_inputs_wf(inputs.drop_last());
        let acc = spec_decode_inputs(inputs.drop_last())->0;
        let payload = zstd_unframe_of(inputs.last())->0;
        lemma_decode_payload_wf(payload);
        let rs = spec_decode_payload(payload)->0;
        let recs = spec_decode_inputs(inputs)->0;
        assert forall|i: int| 0 <= i < recs.len() implies (#[trigger] recs[i]).wf() by {
            if i < acc.len() {
                assert(recs[i] == acc[i]);
            } else {
                assert(recs[i] == rs[i - acc.len()]);
            }
        }
    }
}

/// Idempotence at the wire: a published manifest object, fed back as the
/// only input of the next merge, yields the same records and a
/// byte-identical published payload.
pub proof fn lemma_merge_wire_idempotent(inputs: Seq<Seq<u8>>, obj: Seq<u8>)
    requires
        spec_decode_inputs(inputs) is Some,
        zstd_unframe_of(obj) == Some(spec_merged_payload(spec_decode_inputs(inputs)->0)),
    ensures
        ({
            let recs = spec_decode_inputs(inputs)->0;
            let out = crate::merge::spec_survivors(crate::merge::spec_merge(recs));
            &&& spec_decode_inputs(seq![obj]) == Some(out)
            &&& spec_merged_payload(out) == spec_merged_payload(recs)
        }),
{
    let recs = spec_decode_inputs(inputs)->0;
    let out = crate::merge::spec_survivors(crate::merge::spec_merge(recs));
    lemma_decode_inputs_wf(inputs);
    lemma_publish_idempotent(recs);
    let single = seq![obj];
    assert(single.drop_last() =~= Seq::<Seq<u8>>::empty());
    assert(spec_decode_inputs(single.drop_last()) == Some(Seq::<FileKeyV>::empty()));
    assert(single.last() == obj);
    assert(Seq::<FileKeyV>::empty() + out =~= out);
}

/// Merge the listed manifest objects of one hour into the object a
/// publisher uploads: decompress and decode every input, fold the records
/// with the tombstone rule, and compress the surviving records.
#[verifier::loop_isolation(false)]
pub fn merge_manifests(inputs: Vec<Vec<u8>>) -> (r: Result<Vec<u8>, CodecError>)
    ensures
        spec_decode_inputs(bytes_views(inputs@)) is None <==> (r == Err::<Vec<u8>, CodecError>(
            CodecError::BadFrame,
        ) || r == Err::<Vec<u8>, CodecError>(CodecError::BadRecord)),
        r is Ok <==> (spec_decode_inputs(bytes_views(inputs@)) matches Some(recs) && zstd_accepts(
            spec_merged_payload(recs),
            ZSTD_LEVEL as int,
        )),
        r matches Ok(out) ==> spec_decode_inputs(bytes_views(inputs@)) matches Some(recs) && out@
            == zstd_frame_of(spec_merged_payload(recs), ZSTD_LEVEL as int) && zstd_unframe_of(out@)
            == Some(spec_merged_payload(recs)),
{
    let ghost all = bytes_views(inputs@);
    let mut rest = inputs;
    let mut recs: Vec<FileKey> = Vec::new();
    let ghost mut n: int = 0;
    proof {
        assert forall|i: int| 0 <= i < rest@.len() implies rest@[i]@ == all[n + i] by {
            assert(bytes_views(rest@)[i] == rest@[i]@);
        }
        assert(all.take(0) =~= Seq::<Seq<u8>>::empty());
    }
    while rest.len() > 0
        invariant
            0 <= n <= all.len(),
            rest@.len() == all.len() - n,
            forall|i: int| 0 <= i < rest@.len() ==> (#[trigger] rest@[i])@ == all[n + i],
            spec_decode_inputs(all.take(n)) == Some(views(recs@)),
        decreases rest@.len(),
    {
        let ghost prev = rest@;
        let obj = rest.remove(0);
        proof {
            assert(obj@ == all[n]);
            assert(rest@ == prev.remove(0));
            assert forall|i: int| 0 <= i < rest@.len() implies (#[trigger] rest@[i])@ == all[n + 1
                + i] by {
                assert(rest@[i] == prev[i + 1]);
            }
            assert(all.take(n + 1).drop_last() =~= all.take(n));
            assert(all.take(n + 1).last() == all[n]);
        }
        let payload = match decompress_manifest(&obj) {
            Ok(p) => p,
            Err(_) => {
                proof {
                    assert(spec_decode_inputs(all.take(n + 1)) is None);
                    lemma_decode_inputs_prefix_none(all, n + 1);
                }
                return Err(CodecError::BadFrame);
            },
        };
        let mut rs = match decode_payload(&payload) {
            Ok(rs) => rs,
            Err(_) => {
                proof {
                    assert(spec_decode_inputs(all.take(n + 1)) is None);
                    lemma_decode_inputs_prefix_none(all, n + 1);
                }
                return Err(CodecError::BadRecord);
            },
        };
        let ghost old_recs = recs@;
        let ghost new_part = views(rs@);
        recs.append(&mut rs);
        proof {
            assert(views(recs@) =~= views(old_recs) + new_part);
            assert(spec_decode_inputs(all.take(n + 1)) == Some(views(recs@)));
            n = n + 1;
        }
    }
    proof {
        assert(all.take(n) =~= all);
    }
    let merged = merge_records(recs);
    let out_recs = drop_tombstones(merged);
    let payload = encode_payload(&out_recs);
    compress_manifest(&payload)
}

} // verus!
