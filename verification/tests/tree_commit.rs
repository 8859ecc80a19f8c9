use mini_git::codec::{add_data_prefix, read_object};
use mini_git::commands::read_tree_names;
use mini_git::commitobj::{build_commit_body, build_root_commit_body, create_commit_with_message,
    create_root_commit_with_message};
use mini_git::errors::GitError;
use mini_git::repopath::write_data;
use mini_git::treeobj::{parse_tree, parse_tree_entries, serialize_tree, TreeEntry};
use mini_git::worktree::{write_tree, DirEntry};

fn sample_sha() -> Vec<u8> {
    (0u8..20).collect()
}

fn sample_tree_body() -> Vec<u8> {
    let mut body = Vec::new();
    body.extend_from_slice(b"100644 foo\0");
    body.extend_from_slice(&sample_sha());
    body.extend_from_slice(b"40000 sub\0");
    body.extend_from_slice(&sample_sha());
    body
}

#[test]
fn tree_entries_roundtrip() {
    let body = sample_tree_body();
    let entries = parse_tree_entries(&body).unwrap();
    assert_eq!(entries.len(), 2);
    assert_eq!(entries[0].mode, b"100644".to_vec());
    assert_eq!(entries[0].name, b"foo".to_vec());
    assert_eq!(entries[0].sha, sample_sha());
    let back = serialize_tree(&entries);
    assert_eq!(back, body);
}

#[test]
fn tree_entries_reject_truncated_sha() {
    let mut body = Vec::new();
    body.extend_from_slice(b"100644 foo\0");
    body.extend_from_slice(&[1u8, 2, 3]);
    let r = parse_tree_entries(&body);
    assert!(matches!(r, Err(GitError::TreeParseError)));
}

#[test]
fn parse_tree_lists_names_modes_and_hex() {
    let wrapped = add_data_prefix(b"tree", sample_tree_body());
    let triples = parse_tree(&wrapped).unwrap();
    assert_eq!(triples.len(), 2);
    assert_eq!(triples[0].0, "foo");
    assert_eq!(triples[0].1, "100644");
    assert_eq!(triples[0].2, "000102030405060708090a0b0c0d0e0f10111213");
    assert_eq!(triples[1].0, "sub");
    assert_eq!(triples[1].1, "40000");
}

#[test]
fn parse_tree_rejects_blobs() {
    let wrapped = add_data_prefix(b"blob", b"hi".to_vec());
    assert!(matches!(parse_tree(&wrapped), Err(GitError::TreeParseError)));
}

#[test]
fn read_tree_names_joins_with_newlines() {
    let wrapped = add_data_prefix(b"tree", sample_tree_body());
    let ow = write_data(wrapped);
    let names = read_tree_names(&ow.zdata).unwrap();
    assert_eq!(names, "foo\nsub");
}

#[test]
fn write_tree_orders_top_level_names() {
    let entries = vec![
        DirEntry::File { name: b"text".to_vec(), data: b"some text\n".to_vec() },
        DirEntry::Dir {
            name: b"dir2".to_vec(),
            entries: vec![DirEntry::File { name: b"bar".to_vec(), data: b"bar\n".to_vec() }],
        },
        DirEntry::Dir {
            name: b"dir1".to_vec(),
            entries: vec![
                DirEntry::File { name: b"foo".to_vec(), data: b"foo\n".to_vec() },
                DirEntry::Dir {
                    name: b"subdir1".to_vec(),
                    entries: vec![
                        DirEntry::File { name: b"foolow".to_vec(), data: b"low\n".to_vec() },
                    ],
                },
            ],
        },
    ];
    let (root, writes) = write_tree(&entries);
    assert_eq!(root.len(), 40);
    // the last object written is the root tree itself
    let last = &writes[writes.len() - 1];
    assert_eq!(last.hash, root);
    let names = read_tree_names(&last.zdata).unwrap();
    assert_eq!(names, "dir1\ndir2\ntext");
}

#[test]
fn directories_sort_as_if_slash_terminated() {
    // the canonical order puts "foo.txt" before the directory "foo",
    // because the directory compares as "foo/"
    let entries = vec![
        DirEntry::Dir {
            name: b"foo".to_vec(),
            entries: vec![DirEntry::File { name: b"inner".to_vec(), data: b"x\n".to_vec() }],
        },
        DirEntry::File { name: b"foo.txt".to_vec(), data: b"y\n".to_vec() },
    ];
    let (root, writes) = write_tree(&entries);
    let last = &writes[writes.len() - 1];
    assert_eq!(last.hash, root);
    let names = read_tree_names(&last.zdata).unwrap();
    assert_eq!(names, "foo.txt\nfoo");
}

#[test]
fn root_commit_body_has_no_parent_line() {
    let body = build_root_commit_body(
        "1111111111111111111111111111111111111111",
        "First!",
        &String::from("1700000000"),
    );
    let expected = "tree 1111111111111111111111111111111111111111\n\
                    author Petro Bondar <pb@gmail.com> 1700000000 -0700\n\
                    committer Petro Bondar <pb@gmail.com> 1700000000 -0700\n\
                    \nFirst!\n";
    assert_eq!(body, expected.as_bytes().to_vec());
}

#[test]
fn root_commit_object_reads_back_without_parent() {
    let ow = create_root_commit_with_message(
        "1111111111111111111111111111111111111111",
        "First!",
    )
    .unwrap();
    let (kind, body) = read_object(&ow.zdata).unwrap();
    assert_eq!(kind, b"commit".to_vec());
    let text = String::from_utf8(body).unwrap();
    assert!(text.starts_with("tree 1111111111111111111111111111111111111111\nauthor "));
    assert!(!text.contains("parent"));
    assert!(text.ends_with("\nFirst!\n"));
}

#[test]
fn write_tree_is_deterministic() {
    let entries = vec![
        DirEntry::File { name: b"b".to_vec(), data: b"two\n".to_vec() },
        DirEntry::File { name: b"a".to_vec(), data: b"one\n".to_vec() },
    ];
    let (r1, w1) = write_tree(&entries);
    let (r2, w2) = write_tree(&entries);
    assert_eq!(r1, r2);
    assert_eq!(w1.len(), w2.len());
    for i in 0..w1.len() {
        assert_eq!(w1[i].hash, w2[i].hash);
        assert_eq!(w1[i].zdata, w2[i].zdata);
    }
}

#[test]
fn commit_body_has_fixed_shape() {
    let body = build_commit_body(
        "1111111111111111111111111111111111111111",
        "2222222222222222222222222222222222222222",
        "Hello commit!",
        &String::from("1700000000"),
    );
    let expected = "tree 1111111111111111111111111111111111111111\n\
                    parent 2222222222222222222222222222222222222222\n\
                    author Petro Bondar <pb@gmail.com> 1700000000 -0700\n\
                    committer Petro Bondar <pb@gmail.com> 1700000000 -0700\n\
                    \nHello commit!\n";
    assert_eq!(body, expected.as_bytes().to_vec());
}

#[test]
fn commit_object_stores_tree_parent_and_message() {
    let ow = create_commit_with_message(
        "1111111111111111111111111111111111111111",
        "2222222222222222222222222222222222222222",
        "Hello commit!",
    )
    .unwrap();
    assert_eq!(ow.hash.len(), 40);
    let (kind, body) = read_object(&ow.zdata).unwrap();
    assert_eq!(kind, b"commit".to_vec());
    let text = String::from_utf8(body).unwrap();
    assert!(text.starts_with("tree 1111111111111111111111111111111111111111\n\
                              parent 2222222222222222222222222222222222222222\n\
                              author Petro Bondar <pb@gmail.com> "));
    assert!(text.ends_with("\nHello commit!\n"));
}
