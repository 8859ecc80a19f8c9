use vstd::prelude::*;
use vstd::string::*;
use vstd::utf8::{encode_utf8, valid_utf8};
use crate::bytesio::{bytes_eq, find_byte, find_byte_spec, lemma_find_byte_none,
    lemma_find_byte_unique, vec_range};
use crate::errors::GitError;
use crate::hexrep::hex_digit;
use crate::strconv::{ascii_chars_of, ascii_to_string, utf8_to_string};

verus! {

/// Is `b` an ASCII hex digit, either case?
pub open spec fn is_hex_byte(b: u8) -> bool {
    (48 <= b <= 57) || (97 <= b <= 102) || (65 <= b <= 70)
}

/// The value of an ASCII hex digit.
pub open spec fn hex_byte_val(b: u8) -> nat {
    if 48 <= b <= 57 {
        (b - 48) as nat
    } else if 97 <= b <= 102 {
        (b - 87) as nat
    } else if 65 <= b <= 70 {
        (b - 55) as nat
    } else {
        0
    }
}

/// A pkt-line payload with one trailing newline removed, if present.
pub open spec fn pkt_payload_strip(p: Seq<u8>) -> Seq<u8> {
    if p.len() > 0 && p.last() == 10 {
        p.drop_last()
    } else {
        p
    }
}

/// What reading one pkt-line at position `i` yields: `None` for the `0000`
/// flush marker, otherwise the payload with its trailing newline stripped,
/// together with the position after the line.  The four-digit length counts
/// itself.
pub open spec fn pkt_read_spec(s: Seq<u8>, i: int) -> Result<(Option<Seq<u8>>, int), GitError> {
    if i + 4 > s.len() {
        Err(GitError::PktLineMalformed)
    } else if !(is_hex_byte(s[i]) && is_hex_byte(s[i + 1]) && is_hex_byte(s[i + 2]) && is_hex_byte(
        s[i + 3],
    )) {
        Err(GitError::PktLineMalformed)
    } else {
        let l = hex_byte_val(s[i]) * 4096 + hex_byte_val(s[i + 1]) * 256 + hex_byte_val(s[i + 2])
            * 16 + hex_byte_val(s[i + 3]);
        if l == 0 {
            Ok((None, i + 4))
        } else if l < 4 {
            Err(GitError::PktLineMalformed)
        } else if i + l > s.len() {
            Err(GitError::PktLineMalformed)
        } else {
            Ok((Some(pkt_payload_strip(s.subrange(i + 4, i + l))), i + l))
        }
    }
}

/// Split `"<sha> <name>"` at its first space.
pub open spec fn split_sha_name_spec(p: Seq<u8>) -> Result<(Seq<u8>, Seq<u8>), GitError> {
    match find_byte_spec(p, 32) {
        None => Err(GitError::PktLineMalformed),
        Some(sp) => Ok((p.take(sp), p.skip(sp + 1))),
    }
}

/// What reading ref lines until a flush marker yields: the `(sha, name)`
/// pairs in order and the position after the flush.
pub open spec fn parse_ref_lines_spec(s: Seq<u8>, i: int) -> Result<
    (Seq<(Seq<u8>, Seq<u8>)>, int),
    GitError,
>
    decreases s.len() - i,
    via parse_ref_lines_spec_dec
{
    match pkt_read_spec(s, i) {
        Err(e) => Err(e),
        Ok((None, j)) => Ok((Seq::empty(), j)),
        Ok((Some(p), j)) => if i < j <= s.len() {
            match split_sha_name_spec(p) {
                Err(e) => Err(e),
                Ok(pair) => match parse_ref_lines_spec(s, j) {
                    Err(e) => Err(e),
                    Ok((rest, end)) => Ok((seq![pair] + rest, end)),
                },
            }
        } else {
            Err(GitError::PktLineMalformed)
        },
    }
}

#[via_fn]
proof fn parse_ref_lines_spec_dec(s: Seq<u8>, i: int) {
}

/// The announcement that opens a ref advertisement.
pub open spec fn service_line_bytes() -> Seq<u8> {
    "# service=git-upload-pack".spec_bytes()
}

/// What parsing a whole ref advertisement yields: the service announcement
/// and its flush, then a first ref line carrying the capability list after
/// a NUL, then ref lines until a flush.  Bytes after that flush are
/// ignored.
pub open spec fn parse_refs_spec(s: Seq<u8>) -> Result<
    (Seq<(Seq<u8>, Seq<u8>)>, Seq<u8>),
    GitError,
> {
    match pkt_read_spec(s, 0) {
        Err(e) => Err(e),
        Ok((None, _)) => Err(GitError::PktLineMalformed),
        Ok((Some(p0), i1)) => if p0 != service_line_bytes() {
            Err(GitError::PktLineMalformed)
        } else {
            match pkt_read_spec(s, i1) {
                Err(e) => Err(e),
                Ok((Some(_), _)) => Err(GitError::PktLineMalformed),
                Ok((None, i2)) => match pkt_read_spec(s, i2) {
                    Err(e) => Err(e),
                    Ok((None, _)) => Err(GitError::PktLineMalformed),
                    Ok((Some(p1), i3)) => match find_byte_spec(p1, 0) {
                        None => Err(GitError::PktLineMalformed),
                        Some(z) => {
                            let caps = p1.skip(z + 1);
                            match split_sha_name_spec(p1.take(z)) {
                                Err(e) => Err(e),
                                Ok(pair0) => match parse_ref_lines_spec(s, i3) {
                                    Err(e) => Err(e),
                                    Ok((rest, _end)) => Ok((seq![pair0] + rest, caps)),
                                },
                            }
                        },
                    },
                },
            }
        },
    }
}

/// Do all parsed pieces decode as UTF-8 text?
pub open spec fn all_pieces_utf8(prs: Seq<(Seq<u8>, Seq<u8>)>, caps: Seq<u8>) -> bool {
    valid_utf8(caps) && forall|i: int|
        #![trigger valid_utf8(prs[i].0)]
        #![trigger valid_utf8(prs[i].1)]
        0 <= i < prs.len() ==> valid_utf8(prs[i].0) && valid_utf8(prs[i].1)
}

/// Read one pkt-line, exactly as `pkt_read_spec` describes.
pub fn pkt_read(s: &Vec<u8>, i: usize) -> (r: Result<(Option<Vec<u8>>, usize), GitError>)
    ensures
        match r {
            Ok(pj) => pkt_read_spec(s@, i as int) == Ok::<(Option<Seq<u8>>, int), GitError>(
                (
                    match pj.0 {
                        Some(v) => Some(v@),
                        None => None,
                    },
                    pj.1 as int,
                ),
            ),
            Err(e) => pkt_read_spec(s@, i as int) == Err::<(Option<Seq<u8>>, int), GitError>(e),
        },
{
    let n = s.len();
    if i > n || n - i < 4 {
        return Err(GitError::PktLineMalformed);
    }
    let b0 = s[i];
    let b1 = s[i + 1];
    let b2 = s[i + 2];
    let b3 = s[i + 3];
    if !(hex_ok(b0) && hex_ok(b1) && hex_ok(b2) && hex_ok(b3)) {
        return Err(GitError::PktLineMalformed);
    }
    let l: usize = hex_val(b0) * 4096 + hex_val(b1) * 256 + hex_val(b2) * 16 + hex_val(b3);
    if l == 0 {
        return Ok((None, i + 4));
    }
    if l < 4 {
        return Err(GitError::PktLineMalformed);
    }
    if l > n - i {
        return Err(GitError::PktLineMalformed);
    }
    let mut payload = vec_range(s, i + 4, i + l);
    if payload.len() > 0 && payload[payload.len() - 1] == 10 {
        payload.pop();
        proof {
            assert(payload@ =~= pkt_payload_strip(s@.subrange(i as int + 4, i + l)));
        }
    } else {
        proof {
            assert(payload@ =~= pkt_payload_strip(s@.subrange(i as int + 4, i + l)));
        }
    }
    Ok((Some(payload), i + l))
}

/// Is `b` an ASCII hex digit, either case?
fn hex_ok(b: u8) -> (r: bool)
    ensures
        r == is_hex_byte(b),
{
    (48 <= b && b <= 57) || (97 <= b && b <= 102) || (65 <= b && b <= 70)
}

/// The value of an ASCII hex digit.
fn hex_val(b: u8) -> (r: usize)
    requires
        is_hex_byte(b),
    ensures
        r as nat == hex_byte_val(b),
        r < 16,
{
    if 48 <= b && b <= 57 {
        (b - 48) as usize
    } else if 97 <= b && b <= 102 {
        (b - 87) as usize
    } else {
        (b - 55) as usize
    }
}

/// Split `"<sha> <name>"` at its first space, as `split_sha_name_spec` does.
pub fn split_sha_name(p: &Vec<u8>) -> (r: Result<(Vec<u8>, Vec<u8>), GitError>)
    ensures
        match r {
            Ok(pair) => split_sha_name_spec(p@) == Ok::<(Seq<u8>, Seq<u8>), GitError>(
                (pair.0@, pair.1@),
            ),
            Err(e) => split_sha_name_spec(p@) == Err::<(Seq<u8>, Seq<u8>), GitError>(e),
        },
{
    let n = p.len();
    match find_byte(p, 0, 32u8) {
        None => {
            proof {
                lemma_find_byte_none(p@, 32u8);
            }
            Err(GitError::PktLineMalformed)
        },
        Some(sp) => {
            proof {
                lemma_find_byte_unique(p@, 32u8, sp as int);
            }
            let sha = vec_range(p, 0, sp);
            let name = vec_range(p, sp + 1, n);
            proof {
                assert(sha@ =~= p@.take(sp as int));
                assert(name@ =~= p@.skip(sp as int + 1));
            }
            Ok((sha, name))
        },
    }
}

/// The ghost images of byte pairs.
pub open spec fn pairs_view(v: Seq<(Vec<u8>, Vec<u8>)>) -> Seq<(Seq<u8>, Seq<u8>)> {
    v.map_values(|p: (Vec<u8>, Vec<u8>)| (p.0@, p.1@))
}

/// Parse a ref advertisement into `(sha, name)` text pairs and the
/// capability string, exactly as `parse_refs_spec` describes; pieces that
/// are not valid UTF-8 are rejected.
#[verifier::loop_isolation(false)]
#[verifier::rlimit(50)]
pub fn parse_refs_resp_and_check(text: &str) -> (r: Result<
    (Vec<(String, String)>, String),
    GitError,
>)
    ensures
        match r {
            Ok(rc) => parse_refs_spec(text.spec_bytes()) is Ok && ({
                let prs = parse_refs_spec(text.spec_bytes())->Ok_0.0;
                let pcaps = parse_refs_spec(text.spec_bytes())->Ok_0.1;
                &&& rc.0@.len() == prs.len()
                &&& forall|i: int|
                    0 <= i < prs.len() ==> encode_utf8(#[trigger] rc.0@[i].0@) == prs[i].0
                        && encode_utf8(rc.0@[i].1@) == prs[i].1
                &&& encode_utf8(rc.1@) == pcaps
            }),
            Err(e) => parse_refs_spec(text.spec_bytes()) == Err::<
                (Seq<(Seq<u8>, Seq<u8>)>, Seq<u8>),
                GitError,
            >(e) || (e == GitError::Utf8Invalid && parse_refs_spec(text.spec_bytes()) is Ok
                && !all_pieces_utf8(
                parse_refs_spec(text.spec_bytes())->Ok_0.0,
                parse_refs_spec(text.spec_bytes())->Ok_0.1,
            )),
        },
{
    let bytes = text.as_bytes_vec();
    let ghost bs = text.spec_bytes();
    let (p0, i1) = match pkt_read(&bytes, 0) {
        Ok((Some(p0), i1)) => (p0, i1),
        Ok((None, _)) => {
            return Err(GitError::PktLineMalformed);
        },
        Err(e) => {
            return Err(e);
        },
    };
    let service = "# service=git-upload-pack".as_bytes_vec();
    if !bytes_eq(&p0, &service) {
        return Err(GitError::PktLineMalformed);
    }
    let i2 = match pkt_read(&bytes, i1) {
        Ok((None, i2)) => i2,
        Ok((Some(_), _)) => {
            return Err(GitError::PktLineMalformed);
        },
        Err(e) => {
            return Err(e);
        },
    };
    let (p1, i3) = match pkt_read(&bytes, i2) {
        Ok((Some(p1), i3)) => (p1, i3),
        Ok((None, _)) => {
            return Err(GitError::PktLineMalformed);
        },
        Err(e) => {
            return Err(e);
        },
    };
    let z = match find_byte(&p1, 0, 0u8) {
        Some(z) => z,
        None => {
            proof {
                lemma_find_byte_none(p1@, 0u8);
            }
            return Err(GitError::PktLineMalformed);
        },
    };
    proof {
        lemma_find_byte_unique(p1@, 0u8, z as int);
    }
    let caps = vec_range(&p1, z + 1, p1.len());
    let left = vec_range(&p1, 0, z);
    proof {
        assert(caps@ =~= p1@.skip(z as int + 1));
        assert(left@ =~= p1@.take(z as int));
    }
    let pair0 = match split_sha_name(&left) {
        Ok(pair0) => pair0,
        Err(e) => {
            return Err(e);
        },
    };
    let mut pairs: Vec<(Vec<u8>, Vec<u8>)> = Vec::new();
    pairs.push(pair0);
    let mut pos = i3;
    let mut done = false;
    let ghost spec_all = parse_refs_spec(bs);
    proof {
        match parse_ref_lines_spec(bs, i3 as int) {
            Ok((rest, _end)) => {
                assert(spec_all->Ok_0.0 =~= pairs_view(pairs@) + rest);
            },
            Err(_e) => {},
        }
    }
    while !done
        invariant
            0 <= pos <= bs.len(),
            done ==> spec_all is Ok && spec_all->Ok_0.0 == pairs_view(pairs@) && spec_all
                ->Ok_0.1 == p1@.skip(z as int + 1),
            !done ==> match parse_ref_lines_spec(bs, pos as int) {
                Ok((rest, _end)) => spec_all is Ok && spec_all->Ok_0.0 == pairs_view(pairs@)
                    + rest && spec_all->Ok_0.1 == p1@.skip(z as int + 1),
                Err(e) => spec_all == Err::<(Seq<(Seq<u8>, Seq<u8>)>, Seq<u8>), GitError>(e),
            },
        decreases bs.len() - pos,
    {
        match pkt_read(&bytes, pos) {
            Err(e) => {
                return Err(e);
            },
            Ok((None, j)) => {
                proof {
                    assert(parse_ref_lines_spec(bs, pos as int) == Ok::<
                        (Seq<(Seq<u8>, Seq<u8>)>, int),
                        GitError,
                    >((Seq::empty(), j as int)));
                    assert(pairs_view(pairs@) + Seq::<(Seq<u8>, Seq<u8>)>::empty() =~= pairs_view(
                        pairs@,
                    ));
                }
                pos = j;
                done = true;
            },
            Ok((Some(p), j)) => {
                let pair = match split_sha_name(&p) {
                    Ok(pair) => pair,
                    Err(e) => {
                        return Err(e);
                    },
                };
                let ghost old_pairs = pairs@;
                pairs.push(pair);
                proof {
                    match parse_ref_lines_spec(bs, j as int) {
                        Ok((rest, _end)) => {
                            assert(pairs_view(pairs@) =~= pairs_view(old_pairs) + seq![
                                (pair.0@, pair.1@),
                            ]);
                            assert(pairs_view(old_pairs) + (seq![(pair.0@, pair.1@)] + rest)
                                =~= pairs_view(pairs@) + rest);
                        },
                        Err(_e) => {},
                    }
                }
                pos = j;
            },
        }
    }
    // byte-level parsing agreed with the spec; now turn the pieces into text
    let ghost prs = spec_all->Ok_0.0;
    let mut out: Vec<(String, String)> = Vec::new();
    let mut i: usize = 0;
    let n = pairs.len();
    proof {
        assert(prs =~= pairs_view(pairs@));
    }
    while i < n
        invariant
            0 <= i <= n,
            out@.len() == i,
            forall|k: int|
                0 <= k < i ==> encode_utf8(#[trigger] out@[k].0@) == prs[k].0 && encode_utf8(
                    out@[k].1@,
                ) == prs[k].1,
        decreases n - i,
    {
        let sha_s = match utf8_to_string(crate::treeobj::clone_bytes(&pairs[i].0)) {
            Ok(s) => s,
            Err(err) => {
                proof {
                    assert(prs.len() == pairs@.len());
                    assert(!valid_utf8(prs[i as int].0));
                    assert(!all_pieces_utf8(spec_all->Ok_0.0, spec_all->Ok_0.1));
                }
                return Err(err);
            },
        };
        let name_s = match utf8_to_string(crate::treeobj::clone_bytes(&pairs[i].1)) {
            Ok(s) => s,
            Err(err) => {
                proof {
                    assert(prs.len() == pairs@.len());
                    assert(!valid_utf8(prs[i as int].1));
                    assert(valid_utf8(prs[i as int].0) || !valid_utf8(prs[i as int].0));
                    assert(!all_pieces_utf8(spec_all->Ok_0.0, spec_all->Ok_0.1));
                }
                return Err(err);
            },
        };
        proof {
            assert(prs[i as int] == (pairs@[i as int].0@, pairs@[i as int].1@));
        }
        out.push((sha_s, name_s));
        proof {
            assert(out@[i as int].0@ == sha_s@);
            assert(out@[i as int].1@ == name_s@);
        }
        i = i + 1;
    }
    let caps_s = match utf8_to_string(caps) {
        Ok(s) => s,
        Err(err) => {
            proof {
                assert(!valid_utf8(spec_all->Ok_0.1));
                assert(!all_pieces_utf8(spec_all->Ok_0.0, spec_all->Ok_0.1));
            }
            return Err(err);
        },
    };
    Ok((out, caps_s))
}

/// The four lower-case hex digits of a pkt-line length below 65536.
pub open spec fn hex4_bytes(n: nat) -> Seq<u8> {
    seq![
        hex_digit((n / 4096 % 16) as u8),
        hex_digit((n / 256 % 16) as u8),
        hex_digit((n / 16 % 16) as u8),
        hex_digit((n % 16) as u8),
    ]
}

/// The four hex digits of a pkt-line length, as text.
pub open spec fn hex4_chars(n: nat) -> Seq<char> {
    ascii_chars_of(hex4_bytes(n))
}

/// The ghost images of text pairs.
pub open spec fn str_pairs_view(v: Seq<(String, String)>) -> Seq<(Seq<char>, Seq<char>)> {
    v.map_values(|p: (String, String)| (p.0@, p.1@))
}

/// The `want` lines for every ref after the first, each its own pkt-line.
pub open spec fn want_tail_chars(refs: Seq<(Seq<char>, Seq<char>)>) -> Seq<char>
    decreases refs.len(),
{
    if refs.len() == 0 {
        Seq::empty()
    } else {
        hex4_chars(10 + encode_utf8(refs[0].0).len()) + "want "@ + refs[0].0 + "\n"@
            + want_tail_chars(refs.drop_first())
    }
}

/// A whole pack request: a `want` line per advertised ref — the first one
/// carrying the `multi_ack` capability — then a flush and a `done` line.
pub open spec fn request_body_chars(refs: Seq<(Seq<char>, Seq<char>)>) -> Seq<char>
    recommends
        refs.len() >= 1,
{
    hex4_chars(20 + encode_utf8(refs[0].0).len()) + "want "@ + refs[0].0 + " multi_ack\n"@
        + want_tail_chars(refs.drop_first()) + "0000"@ + "0009done\n"@
}

/// The four hex digits of `n`, as a fresh string.
fn hex4_string(n: usize) -> (r: String)
    requires
        n < 65536,
    ensures
        r@ == hex4_chars(n as nat),
{
    let mut v: Vec<u8> = Vec::new();
    let b0 = (n / 4096 % 16) as u8;
    let b1 = (n / 256 % 16) as u8;
    let b2 = (n / 16 % 16) as u8;
    let b3 = (n % 16) as u8;
    v.push(if b0 < 10 { 48 + b0 } else { 87 + b0 });
    v.push(if b1 < 10 { 48 + b1 } else { 87 + b1 });
    v.push(if b2 < 10 { 48 + b2 } else { 87 + b2 });
    v.push(if b3 < 10 { 48 + b3 } else { 87 + b3 });
    proof {
        assert(v@ =~= hex4_bytes(n as nat));
    }
    ascii_to_string(v)
}

/// Build the pkt-line framed request for every advertised ref, exactly as
/// `request_body_chars` describes.  Ref ids longer than 65000 bytes cannot
/// be framed in a four-digit pkt-line and are excluded.
#[verifier::loop_isolation(false)]
pub fn create_pack_request_body(refs: &Vec<(String, String)>) -> (r: Result<String, GitError>)
    requires
        refs@.len() >= 1,
        forall|i: int| 0 <= i < refs@.len() ==> encode_utf8(#[trigger] refs@[i].0@).len() <= 65000,
    ensures
        match r {
            Ok(s) => s@ == request_body_chars(str_pairs_view(refs@)),
            Err(_e) => false,
        },
{
    let ghost rv = str_pairs_view(refs@);
    let mut body = String::new();
    let bl = refs[0].0.as_str().len();
    proof {
        assert(rv[0].0 == refs@[0].0@);
        assert(bl == encode_utf8(rv[0].0).len());
    }
    let hx = hex4_string(20 + bl);
    body.append(hx.as_str());
    body.append("want ");
    body.append(refs[0].0.as_str());
    body.append(" multi_ack\n");
    let ghost head = body@;
    let n = refs.len();
    let mut i: usize = 1;
    proof {
        assert(rv.skip(1).skip(0) =~= rv.skip(1));
    }
    while i < n
        invariant
            1 <= i <= n,
            body@ == head + want_tail_chars(rv.skip(1)).take(
                want_tail_chars(rv.skip(1)).len() - want_tail_chars(rv.skip(i as int)).len(),
            ),
            want_tail_chars(rv.skip(1)) == body@.skip(head.len() as int) + want_tail_chars(
                rv.skip(i as int),
            ),
        decreases n - i,
    {
        let bli = refs[i].0.as_str().len();
        proof {
            assert(rv.skip(i as int)[0] == rv[i as int]);
            assert(rv[i as int].0 == refs@[i as int].0@);
            assert(bli == encode_utf8(rv.skip(i as int)[0].0).len());
        }
        let hxi = hex4_string(10 + bli);
        let ghost before = body@;
        body.append(hxi.as_str());
        body.append("want ");
        body.append(refs[i].0.as_str());
        body.append("\n");
        proof {
            assert(rv.skip(i as int).drop_first() =~= rv.skip(i + 1));
            assert(want_tail_chars(rv.skip(i as int)) == hex4_chars((10 + bli) as nat) + "want "@
                + rv[i as int].0 + "\n"@ + want_tail_chars(rv.skip(i + 1)));
            assert(body@ =~= before + hex4_chars((10 + bli) as nat) + "want "@ + rv[i as int].0 + "\n"@);
            assert(want_tail_chars(rv.skip(1)) =~= body@.skip(head.len() as int)
                + want_tail_chars(rv.skip(i + 1)));
            assert(body@ =~= head + want_tail_chars(rv.skip(1)).take(
                want_tail_chars(rv.skip(1)).len() - want_tail_chars(rv.skip(i + 1)).len(),
            ));
        }
        i = i + 1;
    }
    proof {
        assert(rv.skip(n as int) =~= Seq::<(Seq<char>, Seq<char>)>::empty());
        assert(want_tail_chars(rv.skip(n as int)) =~= Seq::<char>::empty());
        assert(body@ =~= head + want_tail_chars(rv.skip(1)));
    }
    body.append("0000");
    body.append("0009done\n");
    proof {
        assert(body@ =~= request_body_chars(rv));
    }
    Ok(body)
}

/// A placeholder request builder that yields an empty request.
pub fn create_pack_requests(refs: &Vec<(String, String)>) -> (r: Result<String, GitError>)
    ensures
        match r {
            Ok(s) => s@ == Seq::<char>::empty(),
            Err(_e) => false,
        },
{
    let _ = refs.len();
    Ok(String::new())
}

} // verus!
