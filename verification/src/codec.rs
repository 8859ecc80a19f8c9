use vstd::prelude::*;
use crate::bytesio::{
    find_byte, find_byte_spec, lemma_find_byte_none, lemma_find_byte_unique, push_slice, vec_range,
};
use crate::errors::GitError;
use crate::numrep::{
    dec_digits_of, dec_value_of, is_dec_digit, lemma_dec_digits_are_digits, lemma_dec_roundtrip,
    u64_to_dec,
};
use crate::zcomp::{inflate_all, zlib_inflate};

verus! {

/// The canonical stored payload of an object: `"<kind> <size>\0<body>"`,
/// with the size in decimal ASCII.
pub open spec fn wrap_spec(kind: Seq<u8>, body: Seq<u8>) -> Seq<u8> {
    kind + seq![32u8] + dec_digits_of(body.len()) + seq![0u8] + body
}

/// A kind tag that survives the header grammar: no space and no NUL byte.
/// All four object kinds (`blob`, `tree`, `commit`, `tag`) satisfy this.
pub open spec fn plain_kind(kind: Seq<u8>) -> bool {
    forall|i: int| 0 <= i < kind.len() ==> kind[i] != 32 && #[trigger] kind[i] != 0
}

/// Are all bytes ASCII decimal digits?
pub open spec fn all_dec_digits(s: Seq<u8>) -> bool {
    forall|i: int| 0 <= i < s.len() ==> is_dec_digit(#[trigger] s[i])
}

/// What splitting a stored payload into kind and body yields: the header is
/// everything before the first NUL, the kind everything before the header's
/// first space, and the declared decimal size must equal the body length.
pub open spec fn unwrap_spec(s: Seq<u8>) -> Result<(Seq<u8>, Seq<u8>), GitError> {
    match find_byte_spec(s, 0) {
        None => Err(GitError::MalformedHeader),
        Some(z) => {
            let header = s.take(z);
            let body = s.skip(z + 1);
            match find_byte_spec(header, 32) {
                None => Err(GitError::MalformedHeader),
                Some(sp) => {
                    let kind = header.take(sp);
                    let digits = header.skip(sp + 1);
                    if digits.len() == 0 || !all_dec_digits(digits) {
                        Err(GitError::MalformedHeader)
                    } else if dec_value_of(digits) == body.len() {
                        Ok((kind, body))
                    } else {
                        Err(GitError::SizeMismatch)
                    }
                },
            }
        },
    }
}

/// The ASCII bytes of the `blob` kind tag.
pub open spec fn blob_kind_bytes() -> Seq<u8> {
    seq![98u8, 108u8, 111u8, 98u8]
}

/// The ASCII bytes of the `commit` kind tag.
pub open spec fn commit_kind_bytes() -> Seq<u8> {
    seq![99u8, 111u8, 109u8, 109u8, 105u8, 116u8]
}

/// The ASCII bytes of the `tag` kind tag.
pub open spec fn tag_kind_bytes() -> Seq<u8> {
    seq![116u8, 97u8, 103u8]
}

/// The `blob` tag as bytes.
pub fn kind_blob() -> (r: Vec<u8>)
    ensures
        r@ == blob_kind_bytes(),
{
    let mut v: Vec<u8> = Vec::new();
    v.push(98u8);
    v.push(108u8);
    v.push(111u8);
    v.push(98u8);
    proof {
        assert(v@ =~= blob_kind_bytes());
    }
    v
}

/// The `commit` tag as bytes.
pub fn kind_commit() -> (r: Vec<u8>)
    ensures
        r@ == commit_kind_bytes(),
{
    let mut v: Vec<u8> = Vec::new();
    v.push(99u8);
    v.push(111u8);
    v.push(109u8);
    v.push(109u8);
    v.push(105u8);
    v.push(116u8);
    proof {
        assert(v@ =~= commit_kind_bytes());
    }
    v
}

/// The `tree` tag as bytes.
pub fn kind_tree() -> (r: Vec<u8>)
    ensures
        r@ == crate::treeobj::tree_kind_bytes(),
{
    let mut v: Vec<u8> = Vec::new();
    v.push(116u8);
    v.push(114u8);
    v.push(101u8);
    v.push(101u8);
    proof {
        assert(v@ =~= crate::treeobj::tree_kind_bytes());
    }
    v
}

/// The `tag` tag as bytes.
pub fn kind_tag() -> (r: Vec<u8>)
    ensures
        r@ == tag_kind_bytes(),
{
    let mut v: Vec<u8> = Vec::new();
    v.push(116u8);
    v.push(97u8);
    v.push(103u8);
    proof {
        assert(v@ =~= tag_kind_bytes());
    }
    v
}

/// Prefix `text` with `"<prefix> <len>\0"`, the canonical object payload.
pub fn add_data_prefix(prefix: &[u8], text: Vec<u8>) -> (r: Vec<u8>)
    ensures
        r@ == wrap_spec(prefix@, text@),
{
    let ghost t = text@;
    let mut r: Vec<u8> = Vec::new();
    push_slice(&mut r, prefix);
    r.push(32u8);
    let mut digits = u64_to_dec(text.len() as u64);
    r.append(&mut digits);
    r.push(0u8);
    let mut body = text;
    r.append(&mut body);
    proof {
        assert(r@ =~= wrap_spec(prefix@, t));
    }
    r
}

/// Split a stored payload into its kind and body, checking the declared
/// size, exactly as `unwrap_spec` describes.
#[verifier::loop_isolation(false)]
pub fn unwrap(data: &Vec<u8>) -> (r: Result<(Vec<u8>, Vec<u8>), GitError>)
    ensures
        match r {
            Ok(kb) => unwrap_spec(data@) == Ok::<(Seq<u8>, Seq<u8>), GitError>((kb.0@, kb.1@)),
            Err(e) => unwrap_spec(data@) == Err::<(Seq<u8>, Seq<u8>), GitError>(e),
        },
{
    let dlen = data.len();
    let z = match find_byte(data, 0, 0u8) {
        Some(z) => z,
        None => {
            proof {
                lemma_find_byte_none(data@, 0u8);
            }
            return Err(GitError::MalformedHeader);
        },
    };
    proof {
        lemma_find_byte_unique(data@, 0u8, z as int);
    }
    let ghost header = data@.take(z as int);
    let ghost body_g = data@.skip(z as int + 1);
    let sp = match find_byte(data, 0, 32u8) {
        Some(sp) if sp < z => sp,
        Some(sp) => {
            proof {
                assert forall|j: int| 0 <= j < header.len() implies header[j] != 32 by {
                    assert(header[j] == data@[j]);
                }
                lemma_find_byte_none(header, 32u8);
            }
            return Err(GitError::MalformedHeader);
        },
        None => {
            proof {
                assert forall|j: int| 0 <= j < header.len() implies header[j] != 32 by {
                    assert(header[j] == data@[j]);
                }
                lemma_find_byte_none(header, 32u8);
            }
            return Err(GitError::MalformedHeader);
        },
    };
    proof {
        assert(header[sp as int] == 32);
        assert forall|j: int| 0 <= j < sp implies header[j] != 32 by {
            assert(header[j] == data@[j]);
        }
        lemma_find_byte_unique(header, 32u8, sp as int);
    }
    let kind = vec_range(data, 0, sp);
    let digits = vec_range(data, sp + 1, z);
    let body = vec_range(data, z + 1, dlen);
    proof {
        assert(kind@ =~= header.take(sp as int));
        assert(digits@ =~= header.skip(sp as int + 1));
        assert(body@ =~= body_g);
    }
    let dn = digits.len();
    if dn == 0 {
        return Err(GitError::MalformedHeader);
    }
    let mut val: u128 = 0;
    let mut sat = false;
    let mut i: usize = 0;
    proof {
        assert(digits@.take(0) =~= Seq::<u8>::empty());
    }
    while i < dn
        invariant
            0 <= i <= dn,
            dn == digits@.len(),
            forall|j: int| 0 <= j < i ==> is_dec_digit(#[trigger] digits@[j]),
            !sat ==> val as nat == dec_value_of(digits@.take(i as int)) && val <= u64::MAX
                as u128,
            sat ==> dec_value_of(digits@.take(i as int)) > u64::MAX,
        decreases dn - i,
    {
        let d = digits[i];
        if d < 48 || d > 57 {
            proof {
                assert(!is_dec_digit(digits@[i as int]));
            }
            return Err(GitError::MalformedHeader);
        }
        proof {
            assert(digits@.take(i as int + 1).drop_last() =~= digits@.take(i as int));
            assert(digits@.take(i as int + 1).last() == digits@[i as int]);
        }
        if !sat {
            let nv: u128 = val * 10 + ((d - 48) as u128);
            if nv > (u64::MAX as u128) {
                sat = true;
                proof {
                    assert(dec_value_of(digits@.take(i as int + 1)) == (val as nat) * 10 + (d
                        - 48) as nat);
                }
            } else {
                val = nv;
            }
        } else {
            proof {
                let prev = dec_value_of(digits@.take(i as int));
                assert(dec_value_of(digits@.take(i as int + 1)) == prev * 10 + (digits@[i as int]
                    - 48) as nat);
                assert(prev * 10 >= prev) by (nonlinear_arith)
                    requires
                        prev >= 0,
                ;
            }
        }
        i = i + 1;
    }
    proof {
        assert(digits@.take(dn as int) =~= digits@);
    }
    if !sat && val == (body.len() as u128) {
        Ok((kind, body))
    } else {
        proof {
            if sat {
                assert(body@.len() <= usize::MAX);
            }
        }
        Err(GitError::SizeMismatch)
    }
}

/// Unwrapping a wrapped object gives the kind and body back, for every kind
/// tag free of spaces and NUL bytes (a kind such as `"a b"` breaks the
/// header grammar and is excluded).
pub proof fn lemma_wrap_unwrap(kind: Seq<u8>, body: Seq<u8>)
    requires
        plain_kind(kind),
    ensures
        unwrap_spec(wrap_spec(kind, body)) == Ok::<(Seq<u8>, Seq<u8>), GitError>((kind, body)),
{
    let digits = dec_digits_of(body.len());
    let s = wrap_spec(kind, body);
    let pos = kind.len() + 1 + digits.len();
    lemma_dec_digits_are_digits(body.len());
    assert(s.len() == pos + 1 + body.len());
    assert forall|j: int| 0 <= j < pos implies s[j] != 0 by {
        if j < kind.len() {
            assert(s[j] == kind[j]);
        } else if j == kind.len() {
            assert(s[j] == 32);
        } else {
            assert(s[j] == digits[j - kind.len() - 1]);
            assert(is_dec_digit(digits[j - kind.len() - 1]));
        }
    }
    assert(s[pos as int] == 0);
    lemma_find_byte_unique(s, 0u8, pos as int);
    let header = s.take(pos as int);
    assert(header =~= kind + seq![32u8] + digits);
    assert(s.skip(pos as int + 1) =~= body);
    assert forall|j: int| 0 <= j < kind.len() implies header[j] != 32 by {
        assert(header[j] == kind[j]);
    }
    assert(header[kind.len() as int] == 32);
    lemma_find_byte_unique(header, 32u8, kind.len() as int);
    assert(header.take(kind.len() as int) =~= kind);
    assert(header.skip(kind.len() as int + 1) =~= digits);
    assert(digits.len() >= 1);
    lemma_dec_roundtrip(body.len());
}

/// What decoding a stored object file yields: inflate, then unwrap.
pub open spec fn read_object_spec(z: Seq<u8>) -> Result<(Seq<u8>, Seq<u8>), GitError> {
    match zlib_inflate(z) {
        None => Err(GitError::ZlibInvalid),
        Some(pair) => unwrap_spec(pair.0),
    }
}

/// Decode a compressed object file into its kind and body.
pub fn read_object(zdata: &Vec<u8>) -> (r: Result<(Vec<u8>, Vec<u8>), GitError>)
    ensures
        match r {
            Ok(kb) => read_object_spec(zdata@) == Ok::<(Seq<u8>, Seq<u8>), GitError>(
                (kb.0@, kb.1@),
            ),
            Err(e) => read_object_spec(zdata@) == Err::<(Seq<u8>, Seq<u8>), GitError>(e),
        },
{
    let data = match inflate_all(zdata) {
        Ok(d) => d,
        Err(e) => {
            return Err(e);
        },
    };
    unwrap(&data)
}

/// Hash round trip: stored bytes that inflate back to the wrapped payload
/// of `(kind, body)` — which is exactly what writing the object stores —
/// decode to `(kind, body)` again.
pub proof fn lemma_store_roundtrip(kind: Seq<u8>, body: Seq<u8>, stored: Seq<u8>, used: int)
    requires
        plain_kind(kind),
        zlib_inflate(stored) == Some((wrap_spec(kind, body), used)),
    ensures
        read_object_spec(stored) == Ok::<(Seq<u8>, Seq<u8>), GitError>((kind, body)),
{
    lemma_wrap_unwrap(kind, body);
}

/// Determinism: the file bytes stored for an object are a function of its
/// kind and body alone, so two writes of the same object store the same
/// bytes.
pub proof fn lemma_write_deterministic(kind: Seq<u8>, body: Seq<u8>, z1: Seq<u8>, z2: Seq<u8>)
    requires
        z1 == crate::zcomp::zlib_deflate(wrap_spec(kind, body)),
        z2 == crate::zcomp::zlib_deflate(wrap_spec(kind, body)),
    ensures
        z1 == z2,
{
}

} // verus!
