use vstd::prelude::*;
use vstd::string::*;
use crate::bytesio::push_bytes;
use crate::codec::{add_data_prefix, commit_kind_bytes, kind_commit, wrap_spec};
use crate::errors::GitError;
use crate::numrep::{dec_digits_of, is_dec_digit, lemma_dec_digits_are_digits, u64_to_dec};
use crate::repopath::{write_data, ObjectWrite};
use crate::strconv::{ascii_chars_of, ascii_to_string};
use crate::zcomp::{zlib_deflate, zlib_inflate};

verus! {

/// The fixed identity stamped on commits, followed by the timestamp and the
/// fixed timezone: `"<name> <<email>> <secs> -0700\n"`.
pub open spec fn committer_entry_spec(ts: Seq<u8>) -> Seq<u8> {
    "Petro Bondar <pb@gmail.com> ".spec_bytes() + ts + " -0700\n".spec_bytes()
}

/// A whole commit body: tree line, parent line, author and committer lines
/// sharing one identity and timestamp, a blank line, then the message.
pub open spec fn commit_body_spec(tree: Seq<u8>, parent: Seq<u8>, msg: Seq<u8>, ts: Seq<u8>)
    -> Seq<u8> {
    "tree ".spec_bytes() + tree + seq![10u8] + "parent ".spec_bytes() + parent + seq![10u8]
        + "author ".spec_bytes() + committer_entry_spec(ts) + "committer ".spec_bytes()
        + committer_entry_spec(ts) + seq![10u8] + msg + seq![10u8]
}

/// Relies on std's `SystemTime`: seconds since the Unix epoch, whatever the
/// clock says right now (zero if the clock sits before the epoch).
#[verifier::external_body]
fn unix_time_secs() -> u64 {
    match std::time::SystemTime::now().duration_since(std::time::SystemTime::UNIX_EPOCH) {
        Ok(d) => d.as_secs(),
        Err(_) => 0,
    }
}

/// The current Unix time as decimal text.  Which number comes back depends
/// on the clock; what is promised is that the text is the decimal digits of
/// some 64-bit count of seconds.
pub fn get_time_stamp_string() -> (r: Result<String, GitError>)
    ensures
        match r {
            Ok(s) => exists|n: u64| s@ == ascii_chars_of(#[trigger] dec_digits_of(n as nat)),
            Err(_e) => false,
        },
{
    let now = unix_time_secs();
    let digits = u64_to_dec(now);
    proof {
        lemma_dec_digits_are_digits(now as nat);
        assert forall|i: int| 0 <= i < digits@.len() implies digits@[i] < 128 by {
            assert(is_dec_digit(digits@[i]));
        }
    }
    let s = ascii_to_string(digits);
    proof {
        assert(s@ == ascii_chars_of(dec_digits_of(now as nat)));
    }
    Ok(s)
}

/// Append the fixed identity, `timestamp`, and timezone to `contents`.
pub fn append_commiter_data(contents: &mut Vec<u8>, timestamp: &String)
    ensures
        final(contents)@ == old(contents)@ + committer_entry_spec(
            vstd::utf8::encode_utf8(timestamp@),
        ),
{
    let head = "Petro Bondar <pb@gmail.com> ".as_bytes_vec();
    push_bytes(contents, &head);
    let ts = timestamp.as_str().as_bytes_vec();
    push_bytes(contents, &ts);
    let tail = " -0700\n".as_bytes_vec();
    push_bytes(contents, &tail);
    proof {
        assert(contents@ =~= old(contents)@ + committer_entry_spec(
            vstd::utf8::encode_utf8(timestamp@),
        ));
    }
}

/// Assemble a commit body from its parts and a timestamp already read from
/// the clock.  The result is pinned exactly for every input.
pub fn build_commit_body(tree_sha: &str, parent_sha: &str, message: &str, timestamp: &String)
    -> (r: Vec<u8>)
    ensures
        r@ == commit_body_spec(
            tree_sha.spec_bytes(),
            parent_sha.spec_bytes(),
            message.spec_bytes(),
            vstd::utf8::encode_utf8(timestamp@),
        ),
{
    let mut contents: Vec<u8> = Vec::new();
    let p1 = "tree ".as_bytes_vec();
    push_bytes(&mut contents, &p1);
    let t = tree_sha.as_bytes_vec();
    push_bytes(&mut contents, &t);
    contents.push(10u8);
    let p2 = "parent ".as_bytes_vec();
    push_bytes(&mut contents, &p2);
    let p = parent_sha.as_bytes_vec();
    push_bytes(&mut contents, &p);
    contents.push(10u8);
    let p3 = "author ".as_bytes_vec();
    push_bytes(&mut contents, &p3);
    append_commiter_data(&mut contents, timestamp);
    let p4 = "committer ".as_bytes_vec();
    push_bytes(&mut contents, &p4);
    append_commiter_data(&mut contents, timestamp);
    contents.push(10u8);
    let m = message.as_bytes_vec();
    push_bytes(&mut contents, &m);
    contents.push(10u8);
    proof {
        assert(contents@ =~= commit_body_spec(
            tree_sha.spec_bytes(),
            parent_sha.spec_bytes(),
            message.spec_bytes(),
            vstd::utf8::encode_utf8(timestamp@),
        ));
    }
    contents
}

/// Build a commit object for `tree_sha` with one parent and a message,
/// stamped with the current time, and prepare it for storage.  For some
/// clock reading `n`, the result is exactly the stored form of the commit
/// body built with `n`.
pub fn create_commit_with_message(tree_sha: &str, parent_sha: &str, message: &str) -> (r: Result<
    ObjectWrite,
    GitError,
>)
    ensures
        match r {
            Ok(ow) => exists|n: u64|
                {
                    let body = commit_body_spec(
                        tree_sha.spec_bytes(),
                        parent_sha.spec_bytes(),
                        message.spec_bytes(),
                        #[trigger] dec_digits_of(n as nat),
                    );
                    &&& ow.hash@ == crate::digest::sha1_hex_chars(
                        wrap_spec(commit_kind_bytes(), body),
                    )
                    &&& ow.zdata@ == zlib_deflate(wrap_spec(commit_kind_bytes(), body))
                    &&& zlib_inflate(ow.zdata@) == Some(
                        (wrap_spec(commit_kind_bytes(), body), ow.zdata@.len() as int),
                    )
                },
            Err(_e) => false,
        },
{
    let timestamp = match get_time_stamp_string() {
        Ok(s) => s,
        Err(e) => {
            return Err(e);
        },
    };
    let ghost n = choose|n: u64| timestamp@ == ascii_chars_of(#[trigger] dec_digits_of(n as nat));
    let body = build_commit_body(tree_sha, parent_sha, message, &timestamp);
    let kind = kind_commit();
    let text = add_data_prefix(kind.as_slice(), body);
    let ow = write_data(text);
    proof {
        lemma_dec_digits_are_digits(n as nat);
        assert forall|i: int| 0 <= i < dec_digits_of(n as nat).len() implies dec_digits_of(
            n as nat,
        )[i] < 128 by {
            assert(is_dec_digit(dec_digits_of(n as nat)[i]));
        }
        crate::strconv::lemma_ascii_encode(dec_digits_of(n as nat));
    }
    Ok(ow)
}

/// A root commit body: like `commit_body_spec` with the parent line left
/// out entirely.
pub open spec fn root_commit_body_spec(tree: Seq<u8>, msg: Seq<u8>, ts: Seq<u8>) -> Seq<u8> {
    "tree ".spec_bytes() + tree + seq![10u8] + "author ".spec_bytes() + committer_entry_spec(ts)
        + "committer ".spec_bytes() + committer_entry_spec(ts) + seq![10u8] + msg + seq![10u8]
}

/// Assemble a parentless commit body from its parts and a timestamp
/// already read from the clock.  The result is pinned exactly.
pub fn build_root_commit_body(tree_sha: &str, message: &str, timestamp: &String) -> (r: Vec<u8>)
    ensures
        r@ == root_commit_body_spec(
            tree_sha.spec_bytes(),
            message.spec_bytes(),
            vstd::utf8::encode_utf8(timestamp@),
        ),
{
    let mut contents: Vec<u8> = Vec::new();
    let p1 = "tree ".as_bytes_vec();
    push_bytes(&mut contents, &p1);
    let t = tree_sha.as_bytes_vec();
    push_bytes(&mut contents, &t);
    contents.push(10u8);
    let p3 = "author ".as_bytes_vec();
    push_bytes(&mut contents, &p3);
    append_commiter_data(&mut contents, timestamp);
    let p4 = "committer ".as_bytes_vec();
    push_bytes(&mut contents, &p4);
    append_commiter_data(&mut contents, timestamp);
    contents.push(10u8);
    let m = message.as_bytes_vec();
    push_bytes(&mut contents, &m);
    contents.push(10u8);
    proof {
        assert(contents@ =~= root_commit_body_spec(
            tree_sha.spec_bytes(),
            message.spec_bytes(),
            vstd::utf8::encode_utf8(timestamp@),
        ));
    }
    contents
}

/// Build a root commit object for `tree_sha` — no parent line — with a
/// message, stamped with the current time, and prepare it for storage.
pub fn create_root_commit_with_message(tree_sha: &str, message: &str) -> (r: Result<
    ObjectWrite,
    GitError,
>)
    ensures
        match r {
            Ok(ow) => exists|n: u64|
                {
                    let body = root_commit_body_spec(
                        tree_sha.spec_bytes(),
                        message.spec_bytes(),
                        #[trigger] dec_digits_of(n as nat),
                    );
                    &&& ow.hash@ == crate::digest::sha1_hex_chars(
                        wrap_spec(commit_kind_bytes(), body),
                    )
                    &&& ow.zdata@ == zlib_deflate(wrap_spec(commit_kind_bytes(), body))
                    &&& zlib_inflate(ow.zdata@) == Some(
                        (wrap_spec(commit_kind_bytes(), body), ow.zdata@.len() as int),
                    )
                },
            Err(_e) => false,
        },
{
    let timestamp = match get_time_stamp_string() {
        Ok(s) => s,
        Err(e) => {
            return Err(e);
        },
    };
    let ghost n = choose|n: u64| timestamp@ == ascii_chars_of(#[trigger] dec_digits_of(n as nat));
    let body = build_root_commit_body(tree_sha, message, &timestamp);
    let kind = kind_commit();
    let text = add_data_prefix(kind.as_slice(), body);
    let ow = write_data(text);
    proof {
        lemma_dec_digits_are_digits(n as nat);
        assert forall|i: int| 0 <= i < dec_digits_of(n as nat).len() implies dec_digits_of(
            n as nat,
        )[i] < 128 by {
            assert(is_dec_digit(dec_digits_of(n as nat)[i]));
        }
        crate::strconv::lemma_ascii_encode(dec_digits_of(n as nat));
    }
    Ok(ow)
}

} // verus!
