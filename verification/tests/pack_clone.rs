use mini_git::checkout::checkout_head;
use mini_git::commands::clone_repo;
use mini_git::errors::GitError;
use mini_git::pack::{apply_delta, validate_and_get_heart, UnpackedObject};
use mini_git::plan::PlanStep;
use sha1::{Digest, Sha1};
use std::io::Write;

fn sha1_raw(data: &[u8]) -> Vec<u8> {
    Sha1::new().chain_update(data).finalize().to_vec()
}

fn sha1_hex(data: &[u8]) -> String {
    let raw = sha1_raw(data);
    let mut s = String::new();
    for b in raw {
        s.push_str(&format!("{:02x}", b));
    }
    s
}

fn zlib(data: &[u8]) -> Vec<u8> {
    let mut enc = flate2::write::ZlibEncoder::new(Vec::new(), flate2::Compression::default());
    enc.write_all(data).unwrap();
    enc.finish().unwrap()
}

fn wrapped(kind: &str, body: &[u8]) -> Vec<u8> {
    let mut v = format!("{} {}\0", kind, body.len()).into_bytes();
    v.extend_from_slice(body);
    v
}

/// A pack object header for a small object of the given type.
fn obj_header(type_id: u8, size: usize) -> Vec<u8> {
    assert!(size < 16);
    vec![(type_id << 4) | (size as u8)]
}

fn finish_pack(mut body: Vec<u8>, count: u32) -> Vec<u8> {
    let mut pack = b"PACK".to_vec();
    pack.extend_from_slice(&2u32.to_be_bytes());
    pack.extend_from_slice(&count.to_be_bytes());
    pack.append(&mut body);
    let trailer = sha1_raw(&pack);
    pack.extend_from_slice(&trailer);
    pack
}

/// A pack holding the blob `"hello"` and a ref-delta against it that
/// copies the base twice, in that order.
fn sample_pack() -> Vec<u8> {
    let mut body = Vec::new();
    body.extend_from_slice(&obj_header(3, 5));
    body.extend_from_slice(&zlib(b"hello"));
    let delta = vec![0x05u8, 0x0a, 0x90, 0x05, 0x90, 0x05];
    body.extend_from_slice(&obj_header(7, delta.len()));
    body.extend_from_slice(&sha1_raw(&wrapped("blob", b"hello")));
    body.extend_from_slice(&zlib(&delta));
    finish_pack(body, 2)
}

#[test]
fn pack_decodes_blob_and_resolves_delta() {
    let objects = validate_and_get_heart(sample_pack()).unwrap();
    assert_eq!(objects.len(), 2);
    assert_eq!(objects[0].obj_type, b"blob".to_vec());
    assert_eq!(objects[0].contents, b"hello".to_vec());
    assert_eq!(objects[0].hash, sha1_hex(&wrapped("blob", b"hello")));
    assert_eq!(objects[1].obj_type, b"blob".to_vec());
    assert_eq!(objects[1].contents, b"hellohello".to_vec());
    assert_eq!(objects[1].hash, sha1_hex(&wrapped("blob", b"hellohello")));
}

#[test]
fn pack_resolves_deltas_whose_base_comes_later() {
    let delta = vec![0x05u8, 0x0a, 0x90, 0x05, 0x90, 0x05];
    let mut body = Vec::new();
    body.extend_from_slice(&obj_header(7, delta.len()));
    body.extend_from_slice(&sha1_raw(&wrapped("blob", b"hello")));
    body.extend_from_slice(&zlib(&delta));
    body.extend_from_slice(&obj_header(3, 5));
    body.extend_from_slice(&zlib(b"hello"));
    let objects = validate_and_get_heart(finish_pack(body, 2)).unwrap();
    assert_eq!(objects[0].contents, b"hellohello".to_vec());
    assert_eq!(objects[1].contents, b"hello".to_vec());
}

#[test]
fn pack_with_wrong_trailer_is_rejected() {
    let mut pack = sample_pack();
    let n = pack.len();
    pack[n - 1] ^= 0xff;
    let r = validate_and_get_heart(pack);
    assert!(matches!(r, Err(GitError::PackChecksumMismatch)));
}

#[test]
fn pack_with_wrong_signature_is_rejected() {
    let mut pack = sample_pack();
    // corrupt the signature, then restore a matching trailer
    pack[0] = b'K';
    let n = pack.len();
    pack.truncate(n - 20);
    let trailer = sha1_raw(&pack);
    pack.extend_from_slice(&trailer);
    let r = validate_and_get_heart(pack);
    assert!(matches!(r, Err(GitError::PackSignature)));
}

#[test]
fn short_pack_is_rejected() {
    let r = validate_and_get_heart(b"PACK".to_vec());
    assert!(matches!(r, Err(GitError::PackMalformed)));
}

#[test]
fn pack_with_unsupported_type_is_rejected() {
    let mut body = Vec::new();
    body.extend_from_slice(&obj_header(6, 3));
    body.extend_from_slice(&zlib(b"abc"));
    let r = validate_and_get_heart(finish_pack(body, 1));
    assert!(matches!(r, Err(GitError::UnsupportedObjectType)));
}

#[test]
fn pack_with_unknown_base_is_rejected() {
    let delta = vec![0x05u8, 0x0a, 0x90, 0x05, 0x90, 0x05];
    let mut body = Vec::new();
    body.extend_from_slice(&obj_header(7, delta.len()));
    body.extend_from_slice(&[0u8; 20]);
    body.extend_from_slice(&zlib(&delta));
    let r = validate_and_get_heart(finish_pack(body, 1));
    assert!(matches!(r, Err(GitError::ObjectNotFound)));
}

#[test]
fn delta_copy_and_insert_rebuild_the_target() {
    // source size 5, target size 11: copy all of "hello", insert " world"
    let mut delta = vec![0x05u8, 0x0b, 0x90, 0x05, 0x06];
    delta.extend_from_slice(b" world");
    let out = apply_delta(&delta, &b"hello".to_vec()).unwrap();
    assert_eq!(out, b"hello world".to_vec());
}

#[test]
fn delta_with_zero_copy_length_copies_65536_bytes() {
    let base = vec![7u8; 70000];
    // sizes 70000 and 65536, then a COPY with no argument bytes at all:
    // its length defaults to 65536
    let delta = vec![0xf0u8, 0xa2, 0x04, 0x80, 0x80, 0x04, 0x80];
    let out = apply_delta(&delta, &base).unwrap();
    assert_eq!(out.len(), 65536);
    assert_eq!(out, vec![7u8; 65536]);
}

#[test]
fn delta_size_mismatches_are_rejected() {
    let delta = vec![0x04u8, 0x05, 0x90, 0x05];
    let r = apply_delta(&delta, &b"hello".to_vec());
    assert!(matches!(r, Err(GitError::DeltaBaseSizeMismatch)));
    let delta = vec![0x05u8, 0x07, 0x90, 0x05];
    let r = apply_delta(&delta, &b"hello".to_vec());
    assert!(matches!(r, Err(GitError::DeltaTargetSizeMismatch)));
}

#[test]
fn delta_copy_outside_base_is_rejected() {
    let delta = vec![0x05u8, 0x06, 0x90, 0x06];
    let r = apply_delta(&delta, &b"hello".to_vec());
    assert!(matches!(r, Err(GitError::DeltaCopyOutOfBounds)));
}

#[test]
fn delta_zero_instruction_is_rejected() {
    let delta = vec![0x05u8, 0x05, 0x00];
    let r = apply_delta(&delta, &b"hello".to_vec());
    assert!(matches!(r, Err(GitError::DeltaBadInstruction)));
}

fn object(kind: &str, body: &[u8]) -> UnpackedObject {
    UnpackedObject {
        obj_type: kind.as_bytes().to_vec(),
        hash: sha1_hex(&wrapped(kind, body)),
        contents: body.to_vec(),
    }
}

#[test]
fn checkout_plans_files_from_the_head_commit() {
    let blob = object("blob", b"file contents\n");
    let mut tree_body = b"100644 greeting\0".to_vec();
    tree_body.extend_from_slice(&sha1_raw(&wrapped("blob", b"file contents\n")));
    let tree = object("tree", &tree_body);
    let commit_text = format!("tree {}\nauthor nobody\n", tree.hash);
    let commit = object("commit", commit_text.as_bytes());
    let head = commit.hash.clone();
    let objects = vec![blob, tree, commit];
    let steps = checkout_head(&objects, &head).unwrap();
    assert_eq!(steps.len(), 2);
    match &steps[0] {
        PlanStep::MkDir { path } => assert_eq!(path, "."),
        _ => panic!("expected the root directory"),
    }
    match &steps[1] {
        PlanStep::WriteFile { path, data } => {
            assert_eq!(path, "./greeting");
            assert_eq!(data, &b"file contents\n".to_vec());
        },
        _ => panic!("expected the blob write"),
    }
}

#[test]
fn checkout_without_commit_is_object_not_found() {
    let objects: Vec<UnpackedObject> = Vec::new();
    let head = String::from("e673d1b7eaa0aa01b5bc2442d570a765bdaae751");
    let r = checkout_head(&objects, &head);
    assert!(matches!(r, Err(GitError::ObjectNotFound)));
}

#[test]
fn checkout_needs_a_tree_line() {
    let commit = object("commit", b"author nobody\n");
    let head = commit.hash.clone();
    let r = checkout_head(&vec![commit], &head);
    assert!(matches!(r, Err(GitError::CommitParseError)));
}

fn pkt(payload: &str) -> String {
    format!("{:04x}{}", payload.len() + 4, payload)
}

fn clone_fixture() -> (String, Vec<u8>) {
    // one commit whose tree holds one file
    let blob = wrapped("blob", b"cloned file\n");
    let mut tree_body = b"100644 greeting\0".to_vec();
    tree_body.extend_from_slice(&sha1_raw(&blob));
    let tree = wrapped("tree", &tree_body);
    let commit_text = format!("tree {}\nauthor nobody\n", sha1_hex(&tree));
    let commit = wrapped("commit", commit_text.as_bytes());

    let mut body = Vec::new();
    push_obj(&mut body, 1, &commit);
    push_obj(&mut body, 2, &tree);
    push_obj(&mut body, 3, &blob);
    let pack = finish_pack(body, 3);
    let mut resp = b"0008NAK\n".to_vec();
    resp.extend_from_slice(&pack);

    let commit_hex = sha1_hex(&commit);
    let mut adv = String::new();
    adv.push_str(&pkt("# service=git-upload-pack\n"));
    adv.push_str("0000");
    adv.push_str(&pkt(&format!("{} HEAD\0allow-tip-sha1-in-want\n", commit_hex)));
    adv.push_str(&pkt(&format!("{} refs/heads/master\n", commit_hex)));
    adv.push_str("0000");
    (adv, resp)
}

/// Append one undeltified object with a possibly long size header.
fn push_obj(out: &mut Vec<u8>, type_id: u8, wrapped_payload: &[u8]) {
    // the body is the payload without its "<kind> <size>\0" header
    let nul = wrapped_payload.iter().position(|b| *b == 0).unwrap();
    let body = &wrapped_payload[nul + 1..];
    let mut size = body.len();
    let mut first = (type_id << 4) | ((size & 0x0f) as u8);
    size >>= 4;
    if size > 0 {
        first |= 0x80;
    }
    out.push(first);
    while size > 0 {
        let mut b = (size & 0x7f) as u8;
        size >>= 7;
        if size > 0 {
            b |= 0x80;
        }
        out.push(b);
    }
    out.extend_from_slice(&zlib(body));
}

#[test]
fn clone_plan_covers_store_refs_and_checkout() {
    let (adv, resp) = clone_fixture();
    let steps = clone_repo("https://example.test/repo", &adv, resp).unwrap();
    // layout, three objects (two steps each), .git dir + HEAD + ref dir + ref
    // file, checkout dir + file
    let mut head_written = false;
    let mut file_written = false;
    let mut config_written = false;
    let mut object_files = 0;
    for step in &steps {
        match step {
            PlanStep::WriteFile { path, data } => {
                if path == ".git/HEAD" {
                    head_written = true;
                    assert_eq!(data, &b"ref: refs/heads/master\n".to_vec());
                }
                if path == "./greeting" {
                    file_written = true;
                    assert_eq!(data, &b"cloned file\n".to_vec());
                }
                if path.starts_with("./.git/objects/") {
                    object_files += 1;
                }
                if path == ".git/config" {
                    config_written = true;
                    let text = String::from_utf8(data.clone()).unwrap();
                    assert!(text.contains("\turl = https://example.test/repo\n"));
                    assert!(text.contains("[branch \"master\"]"));
                    assert!(text.contains("\tmerge = refs/heads/master\n"));
                }
            },
            PlanStep::MkDir { .. } => {},
        }
    }
    assert!(head_written);
    assert!(file_written);
    assert!(config_written);
    assert_eq!(object_files, 3);
}

#[test]
fn clone_without_capabilities_is_rejected() {
    let (mut adv, resp) = clone_fixture();
    adv = adv.replace("allow-tip-sha1-in-want", "allow-tip-sha1-in-wont");
    let r = clone_repo("https://example.test/repo", &adv, resp);
    assert!(matches!(r, Err(GitError::CapabilityUnsupported)));
}

#[test]
fn clone_with_short_response_is_rejected() {
    let (adv, _resp) = clone_fixture();
    let r = clone_repo("https://example.test/repo", &adv, b"0008".to_vec());
    assert!(matches!(r, Err(GitError::PackMalformed)));
}
