use zinc_core::codec::{
    compress_manifest, decode_manifest, decode_payload, decompress_manifest, encode_manifest,
    encode_payload, merge_manifests, split_lines, CodecError,
};
use zinc_core::record::FileKey;

fn line(key: &str, deleted: bool) -> Vec<u8> {
    format!("{{\"key\":\"{}\",\"deleted\":{}}}", key, deleted).into_bytes()
}

fn rec(key: &str, deleted: bool) -> FileKey {
    FileKey::parse(line(key, deleted)).expect("record must parse")
}

#[test]
fn parse_record_basic() {
    let fk = rec("files/org/logs/a.json", false);
    assert_eq!(fk.key, b"files/org/logs/a.json".to_vec());
    assert!(!fk.deleted);
    assert_eq!(fk.line, line("files/org/logs/a.json", false));

    let fk = rec("a", true);
    assert!(fk.deleted);
}

#[test]
fn parse_record_extra_members() {
    let l = b"{\"key\":\"a\",\"deleted\":false,\"min_ts\":123,\"meta\":{\"x\":[1,2]},\"s\":\"q\\\"z,}\"}"
        .to_vec();
    let fk = FileKey::parse(l.clone()).expect("extra members are skipped");
    assert_eq!(fk.key, b"a".to_vec());
    assert!(!fk.deleted);
    assert_eq!(fk.line, l);
}

#[test]
fn parse_record_rejects_malformed() {
    assert!(FileKey::parse(b"".to_vec()).is_none());
    assert!(FileKey::parse(b"{}".to_vec()).is_none());
    assert!(FileKey::parse(b"{\"key\":\"a\"}".to_vec()).is_none());
    assert!(FileKey::parse(b"{\"deleted\":true}".to_vec()).is_none());
    assert!(FileKey::parse(b"{\"key\":\"a\",\"deleted\":maybe}".to_vec()).is_none());
    assert!(FileKey::parse(b"{\"key\":\"a\",\"deleted\":false}x".to_vec()).is_none());
    assert!(FileKey::parse(b"{\"key\":\"a\",\"key\":\"b\",\"deleted\":false}".to_vec()).is_none());
}

#[test]
fn split_lines_and_blanks() {
    let payload = b"aa\n\nbb\n".to_vec();
    let lines = split_lines(&payload);
    assert_eq!(lines, vec![b"aa".to_vec(), b"".to_vec(), b"bb".to_vec()]);
}

#[test]
fn payload_round_trip() {
    let recs = vec![rec("a", false), rec("b", true), rec("c", false)];
    let payload = encode_payload(&recs);
    assert_eq!(
        payload,
        b"{\"key\":\"a\",\"deleted\":false}\n{\"key\":\"b\",\"deleted\":true}\n{\"key\":\"c\",\"deleted\":false}\n"
            .to_vec()
    );
    let back = decode_payload(&payload).expect("payload must decode");
    assert_eq!(back.len(), 3);
    assert_eq!(back[0].key, b"a".to_vec());
    assert!(back[1].deleted);
    assert_eq!(back[2].line, line("c", false));
}

#[test]
fn decode_payload_skips_blank_lines() {
    let payload = b"\n{\"key\":\"a\",\"deleted\":false}\n\n".to_vec();
    let back = decode_payload(&payload).expect("blank lines are skipped");
    assert_eq!(back.len(), 1);
    assert_eq!(back[0].key, b"a".to_vec());
}

#[test]
fn decode_payload_propagates_record_errors() {
    let payload = b"{\"key\":\"a\",\"deleted\":false}\nnot a record\n".to_vec();
    assert_eq!(decode_payload(&payload), Err(CodecError::BadRecord));
}

#[test]
fn compression_round_trip() {
    let payload = b"{\"key\":\"a\",\"deleted\":false}\n".to_vec();
    let obj = compress_manifest(&payload).expect("compression must succeed");
    // A frame is not the payload itself: the compressor really ran.
    assert_ne!(obj, payload);
    let back = decompress_manifest(&obj).expect("a frame must decompress");
    assert_eq!(back, payload);
}

#[test]
fn decompress_rejects_garbage() {
    assert_eq!(
        decompress_manifest(&b"not a zstd frame".to_vec()),
        Err(CodecError::BadFrame)
    );
}

#[test]
fn manifest_round_trip() {
    let recs = vec![rec("a", false), rec("b", false)];
    let obj = encode_manifest(&recs).expect("manifest must build");
    let back = decode_manifest(&obj).expect("manifest must decode");
    assert_eq!(back.len(), 2);
    assert_eq!(back[0].key, b"a".to_vec());
    assert_eq!(back[1].key, b"b".to_vec());
}

#[test]
fn merge_manifests_deduplicates_by_key() {
    let one = encode_manifest(&vec![rec("a", false), rec("b", false)]).unwrap();
    let two = encode_manifest(&vec![rec("b", false), rec("c", false)]).unwrap();
    let merged = merge_manifests(vec![one, two]).expect("merge must succeed");
    let recs = decode_manifest(&merged).expect("merged manifest must decode");
    let keys: Vec<Vec<u8>> = recs.iter().map(|r| r.key.clone()).collect();
    assert_eq!(keys, vec![b"a".to_vec(), b"b".to_vec(), b"c".to_vec()]);
}

#[test]
fn merge_manifests_rejects_bad_input() {
    let good = encode_manifest(&vec![rec("a", false)]).unwrap();
    assert_eq!(
        merge_manifests(vec![good.clone(), b"junk".to_vec()]),
        Err(CodecError::BadFrame)
    );
    let bad_payload = compress_manifest(&b"not a record\n".to_vec()).unwrap();
    assert_eq!(
        merge_manifests(vec![good, bad_payload]),
        Err(CodecError::BadRecord)
    );
}

#[test]
fn merge_of_merged_output_is_identity() {
    let one = encode_manifest(&vec![rec("a", false), rec("b", true)]).unwrap();
    let two = encode_manifest(&vec![rec("c", false), rec("a", false)]).unwrap();
    let merged = merge_manifests(vec![one, two]).expect("first merge");
    // Absorption: only keys that were never tombstoned survive.
    let keys: Vec<Vec<u8>> = decode_manifest(&merged)
        .unwrap()
        .iter()
        .map(|r| r.key.clone())
        .collect();
    assert_eq!(keys, vec![b"a".to_vec(), b"c".to_vec()]);
    let again = merge_manifests(vec![merged.clone()]).expect("second merge");
    assert_eq!(
        decompress_manifest(&again).unwrap(),
        decompress_manifest(&merged).unwrap()
    );
}
