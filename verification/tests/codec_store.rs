use mini_git::checkout::stage_tree;
use mini_git::codec::{add_data_prefix, read_object, unwrap};
use mini_git::commitobj::get_time_stamp_string;
use mini_git::digest::get_hash_from_data;
use mini_git::commands::{cat_file_print, hash_object_write, init};
use mini_git::errors::GitError;
use mini_git::plan::PlanStep;
use mini_git::repopath::{compute_path_from_sha, write_data};

#[test]
fn check_sha_convert() {
    let sha = String::from("e673d1b7eaa0aa01b5bc2442d570a765bdaae751");
    let path = compute_path_from_sha("./", &sha).unwrap();
    assert_eq!(path, "./.git/objects/e6/73d1b7eaa0aa01b5bc2442d570a765bdaae751");
}

#[test]
fn check_blob_prefix() {
    let contents = "hello world!".as_bytes().to_vec();
    let res = add_data_prefix(b"blob", contents);
    assert_eq!(res, "blob 12\0hello world!".as_bytes().to_vec());
}

#[test]
fn wrap_then_unwrap_returns_kind_and_body() {
    let wrapped = add_data_prefix(b"blob", b"dooby donkey dumpty".to_vec());
    let (kind, body) = unwrap(&wrapped).unwrap();
    assert_eq!(kind, b"blob".to_vec());
    assert_eq!(body, b"dooby donkey dumpty".to_vec());
}

#[test]
fn unwrap_without_nul_is_malformed() {
    let r = unwrap(&b"blob 12 hello world!".to_vec());
    assert!(matches!(r, Err(GitError::MalformedHeader)));
}

#[test]
fn unwrap_with_wrong_size_is_mismatch() {
    let r = unwrap(&b"blob 13\0hello world!".to_vec());
    assert!(matches!(r, Err(GitError::SizeMismatch)));
}

#[test]
fn unwrap_accepts_leading_zeros_in_size() {
    let (kind, body) = unwrap(&b"blob 012\0hello world!".to_vec()).unwrap();
    assert_eq!(kind, b"blob".to_vec());
    assert_eq!(body, b"hello world!".to_vec());
}

#[test]
fn blob_write_has_known_id() {
    let ow = hash_object_write(b"dooby donkey dumpty".to_vec());
    assert_eq!(ow.hash, "768a28c158afde23d938dcbadcaa325fc2c31353");
}

#[test]
fn stored_blob_reads_back() {
    let ow = hash_object_write(b"dooby donkey dumpty".to_vec());
    let (kind, body) = read_object(&ow.zdata).unwrap();
    assert_eq!(kind, b"blob".to_vec());
    assert_eq!(body, b"dooby donkey dumpty".to_vec());
}

#[test]
fn stored_object_roundtrips_through_write_and_read() {
    let wrapped = add_data_prefix(b"commit", b"tree 123\n".to_vec());
    let ow = write_data(wrapped);
    let (kind, body) = read_object(&ow.zdata).unwrap();
    assert_eq!(kind, b"commit".to_vec());
    assert_eq!(body, b"tree 123\n".to_vec());
}

#[test]
fn same_object_writes_same_bytes() {
    let a = hash_object_write(b"dooby donkey dumpty".to_vec());
    let b = hash_object_write(b"dooby donkey dumpty".to_vec());
    assert_eq!(a.hash, b.hash);
    assert_eq!(a.zdata, b.zdata);
}

#[test]
fn cat_file_prints_blob_body() {
    let ow = hash_object_write(b"dooby donkey dumpty".to_vec());
    let body = cat_file_print(&ow.zdata).unwrap();
    assert_eq!(body, b"dooby donkey dumpty".to_vec());
}

#[test]
fn cat_file_refuses_tree_objects() {
    let wrapped = add_data_prefix(b"tree", Vec::new());
    let ow = write_data(wrapped);
    let r = cat_file_print(&ow.zdata);
    assert!(matches!(r, Err(GitError::UnsupportedObjectType)));
}

#[test]
fn cat_file_refuses_garbage_streams() {
    let r = cat_file_print(&b"not zlib at all".to_vec());
    assert!(matches!(r, Err(GitError::ZlibInvalid)));
}

#[test]
fn cat_file_keeps_binary_bodies_verbatim() {
    let wrapped = add_data_prefix(b"blob", vec![0xffu8, 0x00, 0xfe, 0xfd]);
    let ow = write_data(wrapped);
    let body = cat_file_print(&ow.zdata).unwrap();
    assert_eq!(body, vec![0xffu8, 0x00, 0xfe, 0xfd]);
}

#[test]
fn init_lays_out_repository() {
    let steps = init();
    assert_eq!(steps.len(), 3);
    match &steps[0] {
        PlanStep::MkDir { path } => assert_eq!(path, ".git/objects"),
        _ => panic!("first step must create the object directory"),
    }
    match &steps[1] {
        PlanStep::MkDir { path } => assert_eq!(path, ".git/refs"),
        _ => panic!("second step must create the refs directory"),
    }
    match &steps[2] {
        PlanStep::WriteFile { path, data } => {
            assert_eq!(path, ".git/HEAD");
            assert_eq!(data, &b"ref: refs/heads/master\n".to_vec());
        },
        _ => panic!("third step must write HEAD"),
    }
}

#[test]
fn error_descriptions_are_short_lines() {
    assert_eq!(GitError::NotARepo.describe(), "cannot find a .git directory");
    assert_eq!(GitError::PackChecksumMismatch.describe(), "pack checksum is not correct");
}

#[test]
fn hash_text_matches_known_digest() {
    let hash = get_hash_from_data(b"blob 19\0dooby donkey dumpty");
    assert_eq!(hash, "768a28c158afde23d938dcbadcaa325fc2c31353");
}

#[test]
fn timestamp_is_decimal_text() {
    let ts = get_time_stamp_string().unwrap();
    assert!(!ts.is_empty());
    assert!(ts.chars().all(|c| c.is_ascii_digit()));
    assert!(ts.parse::<u64>().is_ok());
}

#[test]
fn staging_asks_for_nothing() {
    assert!(stage_tree().is_ok());
}
