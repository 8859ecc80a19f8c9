use mini_git::checkout::{format_config, get_head_ref, write_config, write_refs, HeadRef};
use mini_git::errors::GitError;
use mini_git::plan::PlanStep;
use mini_git::transport::{create_pack_request_body, create_pack_requests,
    parse_refs_resp_and_check};

const SHA_A: &str = "e673d1b7eaa0aa01b5bc2442d570a765bdaae751";
const SHA_B: &str = "1234567890abcdef1234567890abcdef12345678";

fn pkt(payload: &str) -> String {
    format!("{:04x}{}", payload.len() + 4, payload)
}

fn sample_advertisement() -> String {
    let mut s = String::new();
    s.push_str(&pkt("# service=git-upload-pack\n"));
    s.push_str("0000");
    s.push_str(&pkt(&format!("{} HEAD\0multi_ack allow-tip-sha1-in-want\n", SHA_A)));
    s.push_str(&pkt(&format!("{} refs/heads/master\n", SHA_A)));
    s.push_str(&pkt(&format!("{} refs/heads/topic\n", SHA_B)));
    s.push_str("0000");
    s
}

#[test]
fn advertisement_parses_into_refs_and_capabilities() {
    let (refs, caps) = parse_refs_resp_and_check(&sample_advertisement()).unwrap();
    assert_eq!(refs.len(), 3);
    assert_eq!(refs[0].0, SHA_A);
    assert_eq!(refs[0].1, "HEAD");
    assert_eq!(refs[1].0, SHA_A);
    assert_eq!(refs[1].1, "refs/heads/master");
    assert_eq!(refs[2].0, SHA_B);
    assert_eq!(refs[2].1, "refs/heads/topic");
    assert_eq!(caps, "multi_ack allow-tip-sha1-in-want");
}

#[test]
fn advertisement_without_service_line_is_rejected() {
    let r = parse_refs_resp_and_check("0013# service=nothing\n0000");
    assert!(matches!(r, Err(GitError::PktLineMalformed)));
}

#[test]
fn advertisement_with_bad_length_digits_is_rejected() {
    let r = parse_refs_resp_and_check("zzzz# service=git-upload-pack\n");
    assert!(matches!(r, Err(GitError::PktLineMalformed)));
}

#[test]
fn request_body_frames_want_lines() {
    let refs = vec![
        (String::from(SHA_A), String::from("HEAD")),
        (String::from(SHA_B), String::from("refs/heads/topic")),
    ];
    let body = create_pack_request_body(&refs).unwrap();
    let expected = format!(
        "003cwant {} multi_ack\n0032want {}\n00000009done\n",
        SHA_A, SHA_B
    );
    assert_eq!(body, expected);
}

#[test]
fn placeholder_request_is_empty() {
    let refs = vec![(String::from(SHA_A), String::from("HEAD"))];
    assert_eq!(create_pack_requests(&refs).unwrap(), "");
}

#[test]
fn head_contents_parse_to_symbolic_or_detached() {
    match get_head_ref("ref: refs/heads/master\n").unwrap() {
        HeadRef::Ref(name) => assert_eq!(name, "refs/heads/master"),
        _ => panic!("expected a symbolic head"),
    }
    let detached = format!("{}\n", SHA_A);
    match get_head_ref(&detached).unwrap() {
        HeadRef::Sha(sha) => assert_eq!(sha, SHA_A),
        _ => panic!("expected a detached head"),
    }
    // a bare id with no trailing newline is accepted too
    match get_head_ref(SHA_A).unwrap() {
        HeadRef::Sha(sha) => assert_eq!(sha, SHA_A),
        _ => panic!("expected a detached head"),
    }
    assert!(matches!(get_head_ref("bogus"), Err(GitError::HeadInvalid)));
    let not_hex = format!("z{}\n", &SHA_A[1..]);
    assert!(matches!(get_head_ref(&not_hex), Err(GitError::HeadInvalid)));
}

#[test]
fn refs_plan_points_head_at_matching_branch() {
    let refs = vec![
        (String::from(SHA_A), String::from("HEAD")),
        (String::from(SHA_A), String::from("refs/heads/master")),
    ];
    let steps = write_refs(&refs).unwrap();
    assert_eq!(steps.len(), 4);
    match &steps[0] {
        PlanStep::MkDir { path } => assert_eq!(path, ".git/"),
        _ => panic!("expected the .git directory first"),
    }
    match &steps[1] {
        PlanStep::WriteFile { path, data } => {
            assert_eq!(path, ".git/HEAD");
            assert_eq!(data, &b"ref: refs/heads/master\n".to_vec());
        },
        _ => panic!("expected the symbolic HEAD"),
    }
    match &steps[2] {
        PlanStep::MkDir { path } => assert_eq!(path, ".git/refs/heads"),
        _ => panic!("expected the ref directory"),
    }
    match &steps[3] {
        PlanStep::WriteFile { path, data } => {
            assert_eq!(path, ".git/refs/heads/master");
            assert_eq!(data, &format!("{}\n", SHA_A).into_bytes());
        },
        _ => panic!("expected the ref file"),
    }
}

#[test]
fn refs_plan_detaches_head_when_nothing_matches() {
    let refs = vec![
        (String::from(SHA_A), String::from("HEAD")),
        (String::from(SHA_B), String::from("refs/heads/topic")),
    ];
    let steps = write_refs(&refs).unwrap();
    match &steps[steps.len() - 1] {
        PlanStep::WriteFile { path, data } => {
            assert_eq!(path, ".git/HEAD");
            assert_eq!(data, &format!("{}\n", SHA_A).into_bytes());
        },
        _ => panic!("expected a detached HEAD"),
    }
}

#[test]
fn config_text_records_remote_and_branch() {
    let cfg = write_config("https://example.test/repo", "ref: refs/heads/master\n").unwrap();
    let expected = format_config(
        "https://example.test/repo",
        "master",
        "refs/heads/master",
    );
    assert_eq!(cfg, expected);
    assert!(cfg.contains("[remote \"origin\"]"));
    assert!(cfg.contains("\turl = https://example.test/repo\n"));
    assert!(cfg.contains("[branch \"master\"]"));
    assert!(cfg.contains("\tmerge = refs/heads/master\n"));
}

#[test]
fn config_needs_a_symbolic_head() {
    let detached = format!("{}\n", SHA_A);
    let r = write_config("https://example.test/repo", &detached);
    assert!(matches!(r, Err(GitError::HeadInvalid)));
}
