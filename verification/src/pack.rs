use vstd::prelude::*;
use crate::bytesio::{bytes_eq, push_bytes, vec_range};
use crate::codec::{add_data_prefix, blob_kind_bytes, commit_kind_bytes, kind_blob, kind_commit,
    kind_tag, kind_tree, tag_kind_bytes, wrap_spec};
use crate::digest::{sha1_bytes, sha1_of};
use crate::errors::GitError;
use crate::hexrep::{hex_bytes_of, hex_encode, lemma_hex_bytes_shape};
use crate::strconv::{ascii_chars_of, ascii_to_string};
use crate::treeobj::{clone_bytes, tree_kind_bytes};
use crate::zcomp::{inflate_from, zlib_inflate};

verus! {

/// A fully reconstructed pack object: its kind tag, 40-hex id, and body.
pub struct UnpackedObject {
    pub obj_type: Vec<u8>,
    pub hash: String,
    pub contents: Vec<u8>,
}

/// The ghost image of a reconstructed pack object.
pub struct UnpackedObjectSpec {
    pub obj_type: Seq<u8>,
    pub hash: Seq<char>,
    pub contents: Seq<u8>,
}

impl View for UnpackedObject {
    type V = UnpackedObjectSpec;

    open spec fn view(&self) -> UnpackedObjectSpec {
        UnpackedObjectSpec { obj_type: self.obj_type@, hash: self.hash@, contents: self.contents@ }
    }
}

/// The ghost images of a run of reconstructed objects.
pub open spec fn objects_view(v: Seq<UnpackedObject>) -> Seq<UnpackedObjectSpec> {
    v.map_values(|o: UnpackedObject| o@)
}

/// One object as it sits in the pack: already whole, or a delta against a
/// base named by its raw 20-byte id.  A whole object carries its id so that
/// delta resolution need not hash again.
pub enum PackItem {
    Full { kind: Vec<u8>, data: Vec<u8>, id: Vec<u8> },
    Delta { base: Vec<u8>, data: Vec<u8> },
}

/// The ghost image of a pack item; the cached id is derived, not stored.
pub enum PackItemSpec {
    Full { kind: Seq<u8>, data: Seq<u8> },
    Delta { base: Seq<u8>, data: Seq<u8> },
}

impl View for PackItem {
    type V = PackItemSpec;

    open spec fn view(&self) -> PackItemSpec {
        match self {
            PackItem::Full { kind, data, id: _ } => PackItemSpec::Full { kind: kind@, data: data@ },
            PackItem::Delta { base, data } => PackItemSpec::Delta { base: base@, data: data@ },
        }
    }
}

/// The id of a whole pack item: the SHA-1 of its wrapped payload.
pub open spec fn item_id(it: PackItemSpec) -> Seq<u8> {
    match it {
        PackItemSpec::Full { kind, data } => sha1_of(wrap_spec(kind, data)),
        PackItemSpec::Delta { .. } => Seq::empty(),
    }
}

/// A pack item whose cached id is truthful.
pub open spec fn item_wf(it: PackItem) -> bool {
    match it {
        PackItem::Full { kind, data, id } => id@ == sha1_of(wrap_spec(kind@, data@)),
        PackItem::Delta { .. } => true,
    }
}

/// The ghost images of a run of pack items.
pub open spec fn items_view(v: Seq<PackItem>) -> Seq<PackItemSpec> {
    v.map_values(|it: PackItem| it@)
}

/// Continuation bytes of a little-endian base-128 size: each byte
/// contributes its low seven bits at the current magnitude, and its high
/// bit asks for another byte.  Sizes beyond 64 bits are rejected.
pub open spec fn size_varint_rest(s: Seq<u8>, i: int, acc: nat, mult: nat) -> Result<
    (nat, int),
    GitError,
>
    decreases s.len() - i,
{
    if i < 0 || i >= s.len() {
        Err(GitError::PackMalformed)
    } else {
        let b = s[i];
        let acc2: nat = acc + ((b as nat) % 128) * mult;
        if acc2 > u64::MAX || mult > 0x1_0000_0000_0000_0000 {
            Err(GitError::PackMalformed)
        } else if b >= 128 {
            size_varint_rest(s, i + 1, acc2, mult * 128)
        } else {
            Ok((acc2, i + 1))
        }
    }
}

/// What the variable-length object header at `i` declares: the type in
/// bits 4 to 6 of the first byte, the size in its low four bits continued
/// seven bits per further byte, and the position after the header.
pub open spec fn obj_header_spec(s: Seq<u8>, i: int) -> Result<(u8, nat, int), GitError> {
    if i < 0 || i >= s.len() {
        Err(GitError::PackMalformed)
    } else {
        let b = s[i];
        let type_id = ((b / 16) % 8) as u8;
        let size0 = (b % 16) as nat;
        if b >= 128 {
            match size_varint_rest(s, i + 1, size0, 16) {
                Err(e) => Err(e),
                Ok((sz, j)) => Ok((type_id, sz, j)),
            }
        } else {
            Ok((type_id, size0, i + 1))
        }
    }
}

/// A delta size field: low seven bits per byte, least significant first.
pub open spec fn delta_size_spec(s: Seq<u8>, i: int) -> Result<(nat, int), GitError> {
    size_varint_rest(s, i, 0, 1)
}

/// The kind tag a pack type id between 1 and 4 stands for.
pub open spec fn kind_of_type_id(t: u8) -> Seq<u8> {
    if t == 1 {
        commit_kind_bytes()
    } else if t == 2 {
        tree_kind_bytes()
    } else if t == 3 {
        blob_kind_bytes()
    } else {
        tag_kind_bytes()
    }
}

/// What decoding one pack object at `i` yields: its header, then for types
/// 1 to 4 a zlib stream holding the body, and for type 7 a raw 20-byte
/// base id followed by the zlib-compressed delta.  Types 5, 6 and others
/// are not supported.
pub open spec fn parse_object_spec(s: Seq<u8>, i: int) -> Result<(PackItemSpec, int), GitError> {
    match obj_header_spec(s, i) {
        Err(e) => Err(e),
        Ok((t, _size, j)) => if 1 <= t <= 4 {
            match zlib_inflate(s.skip(j)) {
                None => Err(GitError::ZlibInvalid),
                Some(pair) => Ok(
                    (PackItemSpec::Full { kind: kind_of_type_id(t), data: pair.0 }, j + pair.1),
                ),
            }
        } else if t == 7 {
            if j + 20 > s.len() {
                Err(GitError::PackMalformed)
            } else {
                match zlib_inflate(s.skip(j + 20)) {
                    None => Err(GitError::ZlibInvalid),
                    Some(pair) => Ok(
                        (
                            PackItemSpec::Delta {
                                base: s.subrange(j, j + 20),
                                data: pair.0,
                            },
                            j + 20 + pair.1,
                        ),
                    ),
                }
            }
        } else {
            Err(GitError::UnsupportedObjectType)
        },
    }
}

/// What decoding `n` pack objects from `i` yields, in order.
pub open spec fn parse_items_spec(s: Seq<u8>, i: int, n: nat) -> Result<
    (Seq<PackItemSpec>, int),
    GitError,
>
    decreases n,
{
    if n == 0 {
        Ok((Seq::empty(), i))
    } else {
        match parse_object_spec(s, i) {
            Err(e) => Err(e),
            Ok((item, j)) => match parse_items_spec(s, j, (n - 1) as nat) {
                Err(e) => Err(e),
                Ok((rest, end)) => Ok((seq![item] + rest, end)),
            },
        }
    }
}

/// One optional argument byte of a COPY instruction.
pub open spec fn flag_byte(d: Seq<u8>, i: int, on: bool) -> Result<(nat, int), GitError> {
    if !on {
        Ok((0, i))
    } else if 0 <= i < d.len() {
        Ok((d[i] as nat, i + 1))
    } else {
        Err(GitError::DeltaBadInstruction)
    }
}

/// The offset of a COPY instruction: up to four little-endian bytes,
/// selected by the low four flag bits, absent bytes meaning zero.
pub open spec fn delta_copy_off_spec(d: Seq<u8>, i: int, f: u8) -> Result<(nat, int), GitError> {
    match flag_byte(d, i, f % 2 == 1) {
        Err(e) => Err(e),
        Ok((o0, i1)) => match flag_byte(d, i1, f / 2 % 2 == 1) {
            Err(e) => Err(e),
            Ok((o1, i2)) => match flag_byte(d, i2, f / 4 % 2 == 1) {
                Err(e) => Err(e),
                Ok((o2, i3)) => match flag_byte(d, i3, f / 8 % 2 == 1) {
                    Err(e) => Err(e),
                    Ok((o3, i4)) => Ok((o0 + o1 * 256 + o2 * 65536 + o3 * 16777216, i4)),
                },
            },
        },
    }
}

/// The raw length field of a COPY instruction: up to three little-endian
/// bytes, selected by flag bits four to six.
pub open spec fn delta_copy_rawlen_spec(d: Seq<u8>, i: int, f: u8) -> Result<(nat, int), GitError> {
    match flag_byte(d, i, f / 16 % 2 == 1) {
        Err(e) => Err(e),
        Ok((l0, i5)) => match flag_byte(d, i5, f / 32 % 2 == 1) {
            Err(e) => Err(e),
            Ok((l1, i6)) => match flag_byte(d, i6, f / 64 % 2 == 1) {
                Err(e) => Err(e),
                Ok((l2, i7)) => Ok((l0 + l1 * 256 + l2 * 65536, i7)),
            },
        },
    }
}

/// The offset and length of a COPY instruction whose flag bits are `f`:
/// the offset bytes come first, then the length bytes, and a zero raw
/// length means 65536.
pub open spec fn delta_copy_spec(d: Seq<u8>, i: int, f: u8) -> Result<(nat, nat, int), GitError> {
    match delta_copy_off_spec(d, i, f) {
        Err(e) => Err(e),
        Ok((off, i4)) => match delta_copy_rawlen_spec(d, i4, f) {
            Err(e) => Err(e),
            Ok((raw, i7)) => Ok(
                (
                    off,
                    if raw == 0 {
                        65536 as nat
                    } else {
                        raw
                    },
                    i7,
                ),
            ),
        },
    }
}

/// What running the delta instructions from `i` against `base` appends:
/// COPY pulls a checked range out of the base, INSERT embeds the next
/// bytes, and a zero instruction byte is an error.
pub open spec fn delta_run_spec(d: Seq<u8>, i: int, base: Seq<u8>) -> Result<Seq<u8>, GitError>
    decreases d.len() - i,
{
    if i < 0 || i >= d.len() {
        Ok(Seq::empty())
    } else {
        let b = d[i];
        if b >= 128 {
            match delta_copy_spec(d, i + 1, (b % 128) as u8) {
                Err(e) => Err(e),
                Ok((off, len, j)) => if off + len > base.len() {
                    Err(GitError::DeltaCopyOutOfBounds)
                } else if i < j <= d.len() {
                    match delta_run_spec(d, j, base) {
                        Err(e) => Err(e),
                        Ok(rest) => Ok(base.subrange(off as int, (off + len) as int) + rest),
                    }
                } else {
                    Err(GitError::DeltaBadInstruction)
                },
            }
        } else if b == 0 {
            Err(GitError::DeltaBadInstruction)
        } else {
            if i + 1 + b > d.len() {
                Err(GitError::DeltaBadInstruction)
            } else {
                match delta_run_spec(d, i + 1 + b, base) {
                    Err(e) => Err(e),
                    Ok(rest) => Ok(d.subrange(i + 1, i + 1 + b) + rest),
                }
            }
        }
    }
}

/// What applying a whole delta stream to `base` yields: the declared
/// source size must match the base, the instructions must stay in bounds,
/// and the output must match the declared target size.
pub open spec fn apply_delta_spec(delta: Seq<u8>, base: Seq<u8>) -> Result<Seq<u8>, GitError> {
    match delta_size_spec(delta, 0) {
        Err(e) => Err(e),
        Ok((src, i1)) => if src != base.len() {
            Err(GitError::DeltaBaseSizeMismatch)
        } else {
            match delta_size_spec(delta, i1) {
                Err(e) => Err(e),
                Ok((dst, i2)) => match delta_run_spec(delta, i2, base) {
                    Err(e) => Err(e),
                    Ok(out) => if out.len() == dst {
                        Ok(out)
                    } else {
                        Err(GitError::DeltaTargetSizeMismatch)
                    },
                },
            }
        },
    }
}

/// Read a base-128 size continuation, exactly as `size_varint_rest`
/// describes.
#[verifier::loop_isolation(false)]
fn read_varint_rest(s: &Vec<u8>, start: usize, acc0: u64, mult0: u128) -> (r: Result<
    (u64, usize),
    GitError,
>)
    requires
        mult0 <= 0x80_0000_0000_0000_0000,
    ensures
        match r {
            Ok(vj) => size_varint_rest(s@, start as int, acc0 as nat, mult0 as nat) == Ok::<
                (nat, int),
                GitError,
            >((vj.0 as nat, vj.1 as int)) && vj.1 <= s@.len(),
            Err(e) => size_varint_rest(s@, start as int, acc0 as nat, mult0 as nat) == Err::<
                (nat, int),
                GitError,
            >(e),
        },
{
    let mut i: usize = start;
    let mut acc: u128 = acc0 as u128;
    let mut mult: u128 = mult0;
    loop
        invariant
            start <= i,
            acc <= u64::MAX,
            mult <= 0x80_0000_0000_0000_0000,
            size_varint_rest(s@, start as int, acc0 as nat, mult0 as nat) == size_varint_rest(
                s@,
                i as int,
                acc as nat,
                mult as nat,
            ),
        decreases s@.len() - i,
    {
        if i >= s.len() {
            return Err(GitError::PackMalformed);
        }
        let b = s[i];
        let bm: u128 = (b % 128) as u128;
        proof {
            assert(bm * mult <= 127 * 0x80_0000_0000_0000_0000) by (nonlinear_arith)
                requires
                    bm <= 127,
                    mult <= 0x80_0000_0000_0000_0000,
            ;
        }
        let add: u128 = bm * mult;
        let acc2: u128 = acc + add;
        if acc2 > (u64::MAX as u128) || mult > 0x1_0000_0000_0000_0000 {
            return Err(GitError::PackMalformed);
        }
        if b >= 128 {
            acc = acc2;
            mult = mult * 128;
            i = i + 1;
        } else {
            return Ok((acc2 as u64, i + 1));
        }
    }
}

/// Read an object header, exactly as `obj_header_spec` describes.
pub fn get_size_and_typeid(s: &Vec<u8>, i: usize) -> (r: Result<(u64, u8, usize), GitError>)
    ensures
        match r {
            Ok(stj) => obj_header_spec(s@, i as int) == Ok::<(u8, nat, int), GitError>(
                (stj.1, stj.0 as nat, stj.2 as int),
            ) && stj.2 <= s@.len(),
            Err(e) => obj_header_spec(s@, i as int) == Err::<(u8, nat, int), GitError>(e),
        },
{
    if i >= s.len() {
        return Err(GitError::PackMalformed);
    }
    let b = s[i];
    let type_id = (b / 16) % 8;
    let size0 = b % 16;
    if b >= 128 {
        match read_varint_rest(s, i + 1, size0 as u64, 16) {
            Ok((sz, j)) => Ok((sz, type_id, j)),
            Err(e) => Err(e),
        }
    } else {
        Ok(((size0 as u64), type_id, i + 1))
    }
}

/// Read a delta size field, exactly as `delta_size_spec` describes.
pub fn get_delta_size(s: &Vec<u8>, i: usize) -> (r: Result<(u64, usize), GitError>)
    ensures
        match r {
            Ok(vj) => delta_size_spec(s@, i as int) == Ok::<(nat, int), GitError>(
                (vj.0 as nat, vj.1 as int),
            ) && vj.1 <= s@.len(),
            Err(e) => delta_size_spec(s@, i as int) == Err::<(nat, int), GitError>(e),
        },
{
    read_varint_rest(s, i, 0, 1)
}

/// Read one optional COPY argument byte.
fn read_flag_byte(d: &Vec<u8>, i: usize, on: bool) -> (r: Result<(u64, usize), GitError>)
    requires
        i <= d@.len(),
    ensures
        match r {
            Ok(vj) => flag_byte(d@, i as int, on) == Ok::<(nat, int), GitError>(
                (vj.0 as nat, vj.1 as int),
            ) && vj.0 <= 255 && i <= vj.1 <= d@.len(),
            Err(e) => flag_byte(d@, i as int, on) == Err::<(nat, int), GitError>(e),
        },
{
    if !on {
        Ok((0, i))
    } else if i < d.len() {
        Ok((d[i] as u64, i + 1))
    } else {
        Err(GitError::DeltaBadInstruction)
    }
}


/// Read the offset of a COPY instruction.
fn read_delta_copy_off(d: &Vec<u8>, i: usize, f: u8) -> (r: Result<(u64, usize), GitError>)
    requires
        i <= d@.len(),
    ensures
        match r {
            Ok(oj) => delta_copy_off_spec(d@, i as int, f) == Ok::<(nat, int), GitError>(
                (oj.0 as nat, oj.1 as int),
            ) && i <= oj.1 <= d@.len() && oj.0 <= 0xffff_ffff,
            Err(e) => delta_copy_off_spec(d@, i as int, f) == Err::<(nat, int), GitError>(e),
        },
{
    let (o0, j1) = match read_flag_byte(d, i, f % 2 == 1) {
        Ok(vj) => vj,
        Err(e) => {
            return Err(e);
        },
    };
    let (o1, j2) = match read_flag_byte(d, j1, (f / 2) % 2 == 1) {
        Ok(vj) => vj,
        Err(e) => {
            return Err(e);
        },
    };
    let (o2, j3) = match read_flag_byte(d, j2, (f / 4) % 2 == 1) {
        Ok(vj) => vj,
        Err(e) => {
            return Err(e);
        },
    };
    let (o3, j4) = match read_flag_byte(d, j3, (f / 8) % 2 == 1) {
        Ok(vj) => vj,
        Err(e) => {
            return Err(e);
        },
    };
    Ok((o0 + o1 * 256 + o2 * 65536 + o3 * 16777216, j4))
}

/// Read the raw length of a COPY instruction.
fn read_delta_copy_rawlen(d: &Vec<u8>, i: usize, f: u8) -> (r: Result<(u64, usize), GitError>)
    requires
        i <= d@.len(),
    ensures
        match r {
            Ok(lj) => delta_copy_rawlen_spec(d@, i as int, f) == Ok::<(nat, int), GitError>(
                (lj.0 as nat, lj.1 as int),
            ) && i <= lj.1 <= d@.len() && lj.0 <= 0xff_ffff,
            Err(e) => delta_copy_rawlen_spec(d@, i as int, f) == Err::<(nat, int), GitError>(e),
        },
{
    let (l0, j5) = match read_flag_byte(d, i, (f / 16) % 2 == 1) {
        Ok(vj) => vj,
        Err(e) => {
            return Err(e);
        },
    };
    let (l1, j6) = match read_flag_byte(d, j5, (f / 32) % 2 == 1) {
        Ok(vj) => vj,
        Err(e) => {
            return Err(e);
        },
    };
    let (l2, j7) = match read_flag_byte(d, j6, (f / 64) % 2 == 1) {
        Ok(vj) => vj,
        Err(e) => {
            return Err(e);
        },
    };
    Ok((l0 + l1 * 256 + l2 * 65536, j7))
}

/// Read the arguments of a COPY instruction, exactly as `delta_copy_spec`
/// describes.
fn read_delta_copy(d: &Vec<u8>, i: usize, f: u8) -> (r: Result<(u64, u64, usize), GitError>)
    requires
        i <= d@.len(),
    ensures
        match r {
            Ok(olj) => delta_copy_spec(d@, i as int, f) == Ok::<(nat, nat, int), GitError>(
                (olj.0 as nat, olj.1 as nat, olj.2 as int),
            ) && i <= olj.2 <= d@.len() && olj.0 <= 0xffff_ffff && 1 <= olj.1 <= 0xff_ffff,
            Err(e) => delta_copy_spec(d@, i as int, f) == Err::<(nat, nat, int), GitError>(e),
        },
{
    let (off, j4) = match read_delta_copy_off(d, i, f) {
        Ok(vj) => vj,
        Err(e) => {
            return Err(e);
        },
    };
    let (raw, j7) = match read_delta_copy_rawlen(d, j4, f) {
        Ok(vj) => vj,
        Err(e) => {
            return Err(e);
        },
    };
    let len: u64 = if raw == 0 {
        65536
    } else {
        raw
    };
    Ok((off, len, j7))
}

/// Apply a delta stream to a base body, exactly as `apply_delta_spec`
/// describes.
#[verifier::loop_isolation(false)]
#[verifier::rlimit(100)]
pub fn apply_delta(delta: &Vec<u8>, base: &Vec<u8>) -> (r: Result<Vec<u8>, GitError>)
    ensures
        match r {
            Ok(out) => apply_delta_spec(delta@, base@) == Ok::<Seq<u8>, GitError>(out@),
            Err(e) => apply_delta_spec(delta@, base@) == Err::<Seq<u8>, GitError>(e),
        },
{
    let dn = delta.len();
    let bn = base.len();
    let (src, i1) = match get_delta_size(delta, 0) {
        Ok(vj) => vj,
        Err(e) => {
            return Err(e);
        },
    };
    if !(src == bn as u64) {
        return Err(GitError::DeltaBaseSizeMismatch);
    }
    let (dst, i2) = match get_delta_size(delta, i1) {
        Ok(vj) => vj,
        Err(e) => {
            return Err(e);
        },
    };
    let mut out: Vec<u8> = Vec::new();
    let mut pos: usize = i2;
    let ghost whole = delta_run_spec(delta@, i2 as int, base@);
    while pos < dn
        invariant
            i2 <= pos <= dn,
            match delta_run_spec(delta@, pos as int, base@) {
                Ok(rest) => whole == Ok::<Seq<u8>, GitError>(out@ + rest),
                Err(e) => whole == Err::<Seq<u8>, GitError>(e),
            },
        decreases dn - pos,
    {
        let b = delta[pos];
        if b >= 128 {
            let f = b % 128;
            let (off, len, j7) = match read_delta_copy(delta, pos + 1, f) {
                Ok(vj) => vj,
                Err(e) => {
                    return Err(e);
                },
            };
            if off > bn as u64 || len > (bn as u64) - off {
                return Err(GitError::DeltaCopyOutOfBounds);
            }
            let offu = off as usize;
            let lenu = len as usize;
            let ghost out0 = out@;
            let mut t: usize = 0;
            while t < lenu
                invariant
                    0 <= t <= lenu,
                    offu + lenu <= base@.len(),
                    out@ == out0 + base@.subrange(offu as int, offu + t),
                decreases lenu - t,
            {
                out.push(base[offu + t]);
                t = t + 1;
                proof {
                    assert(out@ =~= out0 + base@.subrange(offu as int, offu + t));
                }
            }
            proof {
                match delta_run_spec(delta@, j7 as int, base@) {
                    Ok(rest) => {
                        assert(delta_run_spec(delta@, pos as int, base@) == Ok::<
                            Seq<u8>,
                            GitError,
                        >(base@.subrange(off as int, (off + len) as int) + rest));
                        assert(out@ + rest =~= out0 + (base@.subrange(
                            off as int,
                            (off + len) as int,
                        ) + rest));
                    },
                    Err(_e) => {},
                }
            }
            pos = j7;
        } else if b == 0 {
            return Err(GitError::DeltaBadInstruction);
        } else {
            let l = b as usize;
            if l > dn - pos - 1 {
                return Err(GitError::DeltaBadInstruction);
            }
            let ghost out0 = out@;
            let chunk = vec_range(delta, pos + 1, pos + 1 + l);
            push_bytes(&mut out, &chunk);
            proof {
                match delta_run_spec(delta@, pos + 1 + l, base@) {
                    Ok(rest) => {
                        assert(delta_run_spec(delta@, pos as int, base@) == Ok::<
                            Seq<u8>,
                            GitError,
                        >(delta@.subrange(pos + 1, pos + 1 + l) + rest));
                        assert(out@ + rest =~= out0 + (delta@.subrange(pos + 1, pos + 1 + l)
                            + rest));
                    },
                    Err(_e) => {},
                }
            }
            pos = pos + 1 + l;
        }
    }
    proof {
        assert(delta_run_spec(delta@, pos as int, base@) == Ok::<Seq<u8>, GitError>(
            Seq::empty(),
        ));
        assert(out@ + Seq::<u8>::empty() =~= out@);
    }
    if out.len() as u64 == dst {
        Ok(out)
    } else {
        Err(GitError::DeltaTargetSizeMismatch)
    }
}

/// The raw 20-byte id of an object with this kind and body.
fn object_id_of(kind: &Vec<u8>, data: &Vec<u8>) -> (r: Vec<u8>)
    ensures
        r@ == sha1_of(wrap_spec(kind@, data@)),
{
    let wrapped = add_data_prefix(kind.as_slice(), clone_bytes(data));
    sha1_bytes(wrapped.as_slice())
}

/// The kind tag for a pack type id between 1 and 4.
fn kind_from_type_id(t: u8) -> (r: Vec<u8>)
    requires
        1 <= t <= 4,
    ensures
        r@ == kind_of_type_id(t),
{
    if t == 1 {
        kind_commit()
    } else if t == 2 {
        kind_tree()
    } else if t == 3 {
        kind_blob()
    } else {
        kind_tag()
    }
}

/// Decode one pack object, exactly as `parse_object_spec` describes.
pub fn parse_object(s: &Vec<u8>, i: usize) -> (r: Result<(PackItem, usize), GitError>)
    ensures
        match r {
            Ok(ij) => parse_object_spec(s@, i as int) == Ok::<(PackItemSpec, int), GitError>(
                (ij.0@, ij.1 as int),
            ) && item_wf(ij.0) && ij.1 <= s@.len(),
            Err(e) => parse_object_spec(s@, i as int) == Err::<(PackItemSpec, int), GitError>(e),
        },
{
    let n = s.len();
    let (_size, t, j) = match get_size_and_typeid(s, i) {
        Ok(x) => x,
        Err(e) => {
            return Err(e);
        },
    };
    if 1 <= t && t <= 4 {
        let (data, used) = match inflate_from(s, j) {
            Ok(p) => p,
            Err(e) => {
                return Err(e);
            },
        };
        let kind = kind_from_type_id(t);
        let id = object_id_of(&kind, &data);
        Ok((PackItem::Full { kind, data, id }, j + used))
    } else if t == 7 {
        if s.len() - j < 20 {
            return Err(GitError::PackMalformed);
        }
        let base = vec_range(s, j, j + 20);
        let (data, used) = match inflate_from(s, j + 20) {
            Ok(p) => p,
            Err(e) => {
                return Err(e);
            },
        };
        proof {
            assert(base@ =~= s@.subrange(j as int, j as int + 20));
        }
        Ok((PackItem::Delta { base, data }, j + 20 + used))
    } else {
        Err(GitError::UnsupportedObjectType)
    }
}

/// Is some item still an unresolved delta?
pub open spec fn has_delta(items: Seq<PackItemSpec>) -> bool {
    exists|i: int| 0 <= i < items.len() && #[trigger] items[i] is Delta
}

/// The first whole item whose id is `base`, if any.
pub open spec fn find_full_spec(items: Seq<PackItemSpec>, base: Seq<u8>) -> Option<int>
    decreases items.len(),
{
    if items.len() == 0 {
        None
    } else if items[0] is Full && item_id(items[0]) == base {
        Some(0int)
    } else {
        match find_full_spec(items.drop_first(), base) {
            None => None,
            Some(i) => Some(i + 1),
        }
    }
}

/// `find_full_spec` returns the first match, and `None` only when nothing
/// matches.
pub proof fn lemma_find_full(items: Seq<PackItemSpec>, base: Seq<u8>)
    ensures
        match find_full_spec(items, base) {
            Some(i) => 0 <= i < items.len() && items[i] is Full && item_id(items[i]) == base
                && forall|j: int|
                0 <= j < i ==> !(#[trigger] items[j] is Full && item_id(items[j]) == base),
            None => forall|j: int|
                0 <= j < items.len() ==> !(#[trigger] items[j] is Full && item_id(items[j])
                    == base),
        },
    decreases items.len(),
{
    if items.len() > 0 && !(items[0] is Full && item_id(items[0]) == base) {
        lemma_find_full(items.drop_first(), base);
        assert forall|j: int| 1 <= j < items.len() implies items[j] == items.drop_first()[j - 1]
        by {}
    }
}

/// A position whose item matches, with no earlier match, is exactly what
/// `find_full_spec` returns.
pub proof fn lemma_find_full_unique(items: Seq<PackItemSpec>, base: Seq<u8>, k: int)
    requires
        0 <= k < items.len(),
        items[k] is Full && item_id(items[k]) == base,
        forall|j: int| 0 <= j < k ==> !(#[trigger] items[j] is Full && item_id(items[j]) == base),
    ensures
        find_full_spec(items, base) == Some(k),
{
    lemma_find_full(items, base);
    match find_full_spec(items, base) {
        None => {
            assert(!(items[k] is Full && item_id(items[k]) == base));
        },
        Some(i) => {
            if i < k {
                assert(!(items[i] is Full && item_id(items[i]) == base));
            } else if i > k {
                assert(!(items[k] is Full && item_id(items[k]) == base));
            }
        },
    }
}

/// When nothing matches, `find_full_spec` returns `None`.
pub proof fn lemma_find_full_none(items: Seq<PackItemSpec>, base: Seq<u8>)
    requires
        forall|j: int|
            0 <= j < items.len() ==> !(#[trigger] items[j] is Full && item_id(items[j]) == base),
    ensures
        find_full_spec(items, base) is None,
{
    lemma_find_full(items, base);
    match find_full_spec(items, base) {
        None => {},
        Some(i) => {
            assert(!(items[i] is Full && item_id(items[i]) == base));
        },
    }
}

/// Find the first whole item with this id, matching `find_full_spec`.
#[verifier::loop_isolation(false)]
fn find_full(items: &Vec<PackItem>, base: &Vec<u8>) -> (r: Option<usize>)
    requires
        forall|t: int| 0 <= t < items@.len() ==> item_wf(#[trigger] items@[t]),
    ensures
        match r {
            Some(j) => find_full_spec(items_view(items@), base@) == Some(j as int) && j
                < items@.len() && items@[j as int] is Full,
            None => find_full_spec(items_view(items@), base@) is None,
        },
{
    let ghost iv = items_view(items@);
    let mut t: usize = 0;
    while t < items.len()
        invariant
            0 <= t <= items@.len(),
            iv == items_view(items@),
            iv.len() == items@.len(),
            forall|j: int| 0 <= j < t ==> !(#[trigger] iv[j] is Full && item_id(iv[j]) == base@),
        decreases items@.len() - t,
    {
        match &items[t] {
            PackItem::Full { kind, data, id } => {
                proof {
                    assert(item_wf(items@[t as int]));
                    assert(iv[t as int] == items@[t as int]@);
                    assert(iv[t as int] == PackItemSpec::Full { kind: kind@, data: data@ });
                    assert(item_id(iv[t as int]) == id@);
                }
                if bytes_eq(id, base) {
                    proof {
                        lemma_find_full_unique(iv, base@, t as int);
                    }
                    return Some(t);
                }
            },
            PackItem::Delta { .. } => {
                proof {
                    assert(iv[t as int] == items@[t as int]@);
                    assert(!(iv[t as int] is Full));
                }
            },
        }
        t = t + 1;
    }
    proof {
        lemma_find_full_none(iv, base@);
    }
    None
}

/// Is some item still an unresolved delta?
#[verifier::loop_isolation(false)]
fn has_delta_exec(items: &Vec<PackItem>) -> (r: bool)
    ensures
        r == has_delta(items_view(items@)),
{
    let ghost iv = items_view(items@);
    let mut t: usize = 0;
    while t < items.len()
        invariant
            0 <= t <= items@.len(),
            iv == items_view(items@),
            iv.len() == items@.len(),
            forall|j: int| 0 <= j < t ==> !(#[trigger] iv[j] is Delta),
        decreases items@.len() - t,
    {
        match &items[t] {
            PackItem::Delta { .. } => {
                proof {
                    assert(iv[t as int] == items@[t as int]@);
                    assert(iv[t as int] is Delta);
                }
                return true;
            },
            PackItem::Full { .. } => {
                proof {
                    assert(iv[t as int] == items@[t as int]@);
                }
            },
        }
        t = t + 1;
    }
    false
}

/// One resolution pass from position `i`: each delta whose base is already
/// whole — earlier or later in the list, bases resolved earlier in this
/// same pass included — is replaced by the reconstructed whole object.
pub open spec fn pass_from_spec(items: Seq<PackItemSpec>, i: int, changed: bool) -> Result<
    (Seq<PackItemSpec>, bool),
    GitError,
>
    decreases items.len() - i,
{
    if i < 0 || i >= items.len() {
        Ok((items, changed))
    } else {
        match items[i] {
            PackItemSpec::Full { .. } => pass_from_spec(items, i + 1, changed),
            PackItemSpec::Delta { base, data } => match find_full_spec(items, base) {
                None => pass_from_spec(items, i + 1, changed),
                Some(j) => match items[j] {
                    PackItemSpec::Full { kind: bkind, data: bdata } => match apply_delta_spec(
                        data,
                        bdata,
                    ) {
                        Err(e) => Err(e),
                        Ok(out) => pass_from_spec(
                            items.update(i, PackItemSpec::Full { kind: bkind, data: out }),
                            i + 1,
                            true,
                        ),
                    },
                    PackItemSpec::Delta { .. } => Err(GitError::ObjectNotFound),
                },
            },
        }
    }
}

/// Run passes until no delta is left; a pass that resolves nothing means a
/// delta's base is nowhere in the pack.
pub open spec fn resolve_spec(items: Seq<PackItemSpec>, fuel: nat) -> Result<
    Seq<PackItemSpec>,
    GitError,
>
    decreases fuel,
{
    if !has_delta(items) {
        Ok(items)
    } else if fuel == 0 {
        Err(GitError::ObjectNotFound)
    } else {
        match pass_from_spec(items, 0, false) {
            Err(e) => Err(e),
            Ok((its, changed)) => if changed {
                resolve_spec(its, (fuel - 1) as nat)
            } else {
                Err(GitError::ObjectNotFound)
            },
        }
    }
}

/// The finished form of a whole item: its kind, 40-hex id, and body.
pub open spec fn finished_object(it: PackItemSpec) -> UnpackedObjectSpec {
    match it {
        PackItemSpec::Full { kind, data } => UnpackedObjectSpec {
            obj_type: kind,
            hash: ascii_chars_of(hex_bytes_of(sha1_of(wrap_spec(kind, data)))),
            contents: data,
        },
        PackItemSpec::Delta { .. } => UnpackedObjectSpec {
            obj_type: Seq::empty(),
            hash: Seq::empty(),
            contents: Seq::empty(),
        },
    }
}

/// The finished forms of a run of items.
pub open spec fn finish_items_spec(items: Seq<PackItemSpec>) -> Seq<UnpackedObjectSpec> {
    items.map_values(|it: PackItemSpec| finished_object(it))
}

/// The `"PACK"` signature.
pub open spec fn pack_sig_bytes() -> Seq<u8> {
    seq![80u8, 65u8, 67u8, 75u8]
}

/// A big-endian 32-bit field.
pub open spec fn be32_spec(s: Seq<u8>, i: int) -> nat {
    (s[i] as nat) * 16777216 + (s[i + 1] as nat) * 65536 + (s[i + 2] as nat) * 256 + (s[i
        + 3] as nat)
}

/// Read a big-endian 32-bit field.
fn read_be32(s: &Vec<u8>, i: usize) -> (r: u32)
    requires
        i + 4 <= s@.len(),
    ensures
        r as nat == be32_spec(s@, i as int),
{
    let n = s.len();
    (s[i] as u32) * 16777216 + (s[i + 1] as u32) * 65536 + (s[i + 2] as u32) * 256 + (s[i
        + 3] as u32)
}

/// What decoding a whole packfile yields: the trailer must be the SHA-1 of
/// everything before it, the signature must read `"PACK"`, and the declared
/// number of objects are decoded and their deltas resolved, in order.
pub open spec fn pack_decode_spec(bytes: Seq<u8>) -> Result<Seq<UnpackedObjectSpec>, GitError> {
    if bytes.len() < 20 {
        Err(GitError::PackMalformed)
    } else {
        let prefix = bytes.take(bytes.len() - 20);
        let trailer = bytes.skip(bytes.len() - 20);
        if sha1_of(prefix) != trailer {
            Err(GitError::PackChecksumMismatch)
        } else if prefix.len() < 12 {
            Err(GitError::PackMalformed)
        } else if prefix.subrange(0, 4) != pack_sig_bytes() {
            Err(GitError::PackSignature)
        } else {
            match parse_items_spec(prefix, 12, be32_spec(prefix, 8)) {
                Err(e) => Err(e),
                Ok((items, _end)) => match resolve_spec(items, items.len()) {
                    Err(e) => Err(e),
                    Ok(resolved) => Ok(finish_items_spec(resolved)),
                },
            }
        }
    }
}

/// Pack integrity: a packfile whose trailer disagrees with the SHA-1 of
/// everything before it is rejected with a checksum error.
pub proof fn lemma_pack_checksum_rejected(bytes: Seq<u8>)
    requires
        bytes.len() >= 20,
        sha1_of(bytes.take(bytes.len() - 20)) != bytes.skip(bytes.len() - 20),
    ensures
        pack_decode_spec(bytes) == Err::<Seq<UnpackedObjectSpec>, GitError>(
            GitError::PackChecksumMismatch,
        ),
{
}

/// Pack integrity: whenever decoding succeeds, the trailer was the SHA-1 of
/// everything before it.
pub proof fn lemma_pack_ok_checksum(bytes: Seq<u8>)
    requires
        pack_decode_spec(bytes) is Ok,
    ensures
        bytes.len() >= 20,
        sha1_of(bytes.take(bytes.len() - 20)) == bytes.skip(bytes.len() - 20),
{
}

/// Run one in-place resolution pass, exactly as `pass_from_spec` describes.
#[verifier::loop_isolation(false)]
#[verifier::rlimit(100)]
fn resolve_pass(items: &mut Vec<PackItem>) -> (r: Result<bool, GitError>)
    requires
        forall|t: int| 0 <= t < old(items)@.len() ==> item_wf(#[trigger] old(items)@[t]),
    ensures
        final(items)@.len() == old(items)@.len(),
        forall|t: int| 0 <= t < final(items)@.len() ==> item_wf(#[trigger] final(items)@[t]),
        match r {
            Ok(ch) => pass_from_spec(items_view(old(items)@), 0, false) == Ok::<
                (Seq<PackItemSpec>, bool),
                GitError,
            >((items_view(final(items)@), ch)),
            Err(e) => pass_from_spec(items_view(old(items)@), 0, false) == Err::<
                (Seq<PackItemSpec>, bool),
                GitError,
            >(e),
        },
{
    let n = items.len();
    let mut changed = false;
    let mut i: usize = 0;
    while i < n
        invariant
            0 <= i <= n,
            n == items@.len(),
            forall|t: int| 0 <= t < items@.len() ==> item_wf(#[trigger] items@[t]),
            pass_from_spec(items_view(old(items)@), 0, false) == pass_from_spec(
                items_view(items@),
                i as int,
                changed,
            ),
        decreases n - i,
    {
        let delta_info: Option<(Vec<u8>, Vec<u8>)> = match &items[i] {
            PackItem::Delta { base, data } => Some((clone_bytes(base), clone_bytes(data))),
            PackItem::Full { .. } => None,
        };
        match delta_info {
            None => {
                proof {
                    assert(items_view(items@)[i as int] == items@[i as int]@);
                    assert(items_view(items@)[i as int] is Full);
                }
                i = i + 1;
            },
            Some((base, data)) => {
                proof {
                    assert(items_view(items@)[i as int] == items@[i as int]@);
                    assert(items_view(items@)[i as int] == PackItemSpec::Delta {
                        base: base@,
                        data: data@,
                    });
                }
                match find_full(items, &base) {
                    None => {
                        i = i + 1;
                    },
                    Some(j) => {
                        let (bkind, bdata) = match &items[j] {
                            PackItem::Full { kind, data: bd, id: _id } => (
                                clone_bytes(kind),
                                clone_bytes(bd),
                            ),
                            PackItem::Delta { .. } => {
                                proof {
                                    assert(false);
                                }
                                (Vec::new(), Vec::new())
                            },
                        };
                        proof {
                            assert(items_view(items@)[j as int] == items@[j as int]@);
                            assert(items_view(items@)[j as int] == PackItemSpec::Full {
                                kind: bkind@,
                                data: bdata@,
                            });
                        }
                        match apply_delta(&data, &bdata) {
                            Err(e) => {
                                return Err(e);
                            },
                            Ok(out) => {
                                let id = object_id_of(&bkind, &out);
                                let ghost v0 = items_view(items@);
                                let ghost bk = bkind@;
                                let ghost og = out@;
                                let slot = vstd::std_specs::vec::vec_index_mut(items, i);
                                *slot = PackItem::Full { kind: bkind, data: out, id };
                                proof {
                                    assert(items@[i as int]@ == PackItemSpec::Full {
                                        kind: bk,
                                        data: og,
                                    });
                                    assert(items_view(items@) =~= v0.update(
                                        i as int,
                                        PackItemSpec::Full { kind: bk, data: og },
                                    ));
                                }
                                changed = true;
                                i = i + 1;
                            },
                        }
                    },
                }
            },
        }
    }
    proof {
        assert(pass_from_spec(items_view(items@), n as int, changed) == Ok::<
            (Seq<PackItemSpec>, bool),
            GitError,
        >((items_view(items@), changed)));
    }
    Ok(changed)
}

/// Check a packfile and reconstruct every object in it, exactly as
/// `pack_decode_spec` describes: checksum and signature are verified, the
/// declared objects are decoded, and ref-deltas are resolved against bases
/// anywhere in the pack, chains included.
#[verifier::loop_isolation(false)]
#[verifier::rlimit(100)]
pub fn validate_and_get_heart(bytes: Vec<u8>) -> (r: Result<Vec<UnpackedObject>, GitError>)
    ensures
        match r {
            Ok(v) => pack_decode_spec(bytes@) == Ok::<Seq<UnpackedObjectSpec>, GitError>(
                objects_view(v@),
            ),
            Err(e) => pack_decode_spec(bytes@) == Err::<Seq<UnpackedObjectSpec>, GitError>(e),
        },
{
    let n = bytes.len();
    if n < 20 {
        return Err(GitError::PackMalformed);
    }
    let prefix = vec_range(&bytes, 0, n - 20);
    let trailer = vec_range(&bytes, n - 20, n);
    proof {
        assert(prefix@ =~= bytes@.take(bytes@.len() - 20));
        assert(trailer@ =~= bytes@.skip(bytes@.len() - 20));
    }
    let digest = sha1_bytes(prefix.as_slice());
    if !bytes_eq(&digest, &trailer) {
        return Err(GitError::PackChecksumMismatch);
    }
    let pn = prefix.len();
    if pn < 12 {
        return Err(GitError::PackMalformed);
    }
    if !(prefix[0] == 80 && prefix[1] == 65 && prefix[2] == 67 && prefix[3] == 75) {
        proof {
            assert(prefix@.subrange(0, 4) != pack_sig_bytes());
        }
        return Err(GitError::PackSignature);
    }
    proof {
        assert(prefix@.subrange(0, 4) =~= pack_sig_bytes());
    }
    let count = read_be32(&prefix, 8);
    let mut items: Vec<PackItem> = Vec::new();
    let mut cursor: usize = 12;
    let mut k: u32 = 0;
    proof {
        assert(items_view(items@) =~= Seq::<PackItemSpec>::empty());
    }
    while k < count
        invariant
            0 <= k <= count,
            items@.len() == k,
            cursor <= prefix@.len(),
            forall|t: int| 0 <= t < items@.len() ==> item_wf(#[trigger] items@[t]),
            match parse_items_spec(prefix@, cursor as int, (count - k) as nat) {
                Ok((rest, end)) => parse_items_spec(prefix@, 12, count as nat) == Ok::<
                    (Seq<PackItemSpec>, int),
                    GitError,
                >((items_view(items@) + rest, end)),
                Err(e) => parse_items_spec(prefix@, 12, count as nat) == Err::<
                    (Seq<PackItemSpec>, int),
                    GitError,
                >(e),
            },
        decreases count - k,
    {
        match parse_object(&prefix, cursor) {
            Err(e) => {
                return Err(e);
            },
            Ok((item, j)) => {
                let ghost old_items = items@;
                let ghost iw = item@;
                items.push(item);
                proof {
                    assert(items_view(items@) =~= items_view(old_items) + seq![iw]);
                    match parse_items_spec(prefix@, j as int, (count - k - 1) as nat) {
                        Ok((rest, _end)) => {
                            assert(parse_items_spec(
                                prefix@,
                                cursor as int,
                                (count - k) as nat,
                            ) == Ok::<(Seq<PackItemSpec>, int), GitError>(
                                (seq![iw] + rest, _end),
                            ));
                            assert(items_view(old_items) + (seq![iw] + rest) =~= items_view(
                                items@,
                            ) + rest);
                        },
                        Err(_e) => {},
                    }
                }
                cursor = j;
                k = k + 1;
            },
        }
    }
    proof {
        assert(parse_items_spec(prefix@, cursor as int, 0) == Ok::<
            (Seq<PackItemSpec>, int),
            GitError,
        >((Seq::empty(), cursor as int)));
        assert(items_view(items@) + Seq::<PackItemSpec>::empty() =~= items_view(items@));
    }
    // resolve deltas: repeat passes while they make progress
    let ghost items0 = items_view(items@);
    let total = items.len();
    let mut fuel = total;
    let mut done = false;
    while !done
        invariant
            fuel <= total,
            items@.len() == total,
            forall|t: int| 0 <= t < items@.len() ==> item_wf(#[trigger] items@[t]),
            !done ==> resolve_spec(items0, total as nat) == resolve_spec(
                items_view(items@),
                fuel as nat,
            ),
            done ==> resolve_spec(items0, total as nat) == Ok::<Seq<PackItemSpec>, GitError>(
                items_view(items@),
            ) && !has_delta(items_view(items@)),
        decreases fuel + (if done { 0int } else { 1int }),
    {
        if !has_delta_exec(&items) {
            done = true;
        } else {
            if fuel == 0 {
                return Err(GitError::ObjectNotFound);
            }
            let ghost before = items_view(items@);
            match resolve_pass(&mut items) {
                Err(e) => {
                    return Err(e);
                },
                Ok(changed) => {
                    if !changed {
                        return Err(GitError::ObjectNotFound);
                    }
                    fuel = fuel - 1;
                },
            }
        }
    }
    // all items are whole now: hand them out with their ids as hex text
    let mut out: Vec<UnpackedObject> = Vec::new();
    let mut t: usize = 0;
    let ghost fin = items_view(items@);
    while t < total
        invariant
            0 <= t <= total,
            total == items@.len(),
            fin == items_view(items@),
            !has_delta(fin),
            forall|u: int| 0 <= u < items@.len() ==> item_wf(#[trigger] items@[u]),
            out@.len() == t,
            forall|u: int| 0 <= u < t ==> #[trigger] out@[u]@ == finished_object(fin[u]),
        decreases total - t,
    {
        let obj = match &items[t] {
            PackItem::Full { kind, data, id } => {
                let hex = hex_encode(id);
                proof {
                    lemma_hex_bytes_shape(id@);
                    assert(items_view(items@)[t as int] == items@[t as int]@);
                }
                UnpackedObject {
                    obj_type: clone_bytes(kind),
                    hash: ascii_to_string(hex),
                    contents: clone_bytes(data),
                }
            },
            PackItem::Delta { .. } => {
                proof {
                    assert(items_view(items@)[t as int] == items@[t as int]@);
                    assert(items_view(items@)[t as int] is Delta);
                    assert(false);
                }
                UnpackedObject { obj_type: Vec::new(), hash: String::new(), contents: Vec::new() }
            },
        };
        out.push(obj);
        t = t + 1;
    }
    proof {
        assert(objects_view(out@) =~= finish_items_spec(fin));
    }
    Ok(out)
}

/// Resolution never returns a list that still holds a delta.
proof fn lemma_resolve_no_delta(items: Seq<PackItemSpec>, fuel: nat)
    requires
        resolve_spec(items, fuel) is Ok,
    ensures
        !has_delta(resolve_spec(items, fuel)->Ok_0),
    decreases fuel,
{
    if !has_delta(items) {
    } else if fuel == 0 {
    } else {
        match pass_from_spec(items, 0, false) {
            Err(_e) => {},
            Ok((its, changed)) => {
                if changed {
                    lemma_resolve_no_delta(its, (fuel - 1) as nat);
                }
            },
        }
    }
}

/// Every object a successful decode yields is named by the 40-hex SHA-1 of
/// its own wrapped payload.
pub proof fn lemma_pack_objects_named(bytes: Seq<u8>)
    requires
        pack_decode_spec(bytes) is Ok,
    ensures
        forall|k: int|
            0 <= k < pack_decode_spec(bytes)->Ok_0.len() ==> (#[trigger] pack_decode_spec(
                bytes,
            )->Ok_0[k]).hash == ascii_chars_of(
                hex_bytes_of(
                    sha1_of(
                        wrap_spec(
                            pack_decode_spec(bytes)->Ok_0[k].obj_type,
                            pack_decode_spec(bytes)->Ok_0[k].contents,
                        ),
                    ),
                ),
            ),
{
    let prefix = bytes.take(bytes.len() - 20);
    let items = parse_items_spec(prefix, 12, be32_spec(prefix, 8))->Ok_0.0;
    let resolved = resolve_spec(items, items.len())->Ok_0;
    lemma_resolve_no_delta(items, items.len());
    assert forall|k: int| 0 <= k < pack_decode_spec(bytes)->Ok_0.len() implies (
    #[trigger] pack_decode_spec(bytes)->Ok_0[k]).hash == ascii_chars_of(
        hex_bytes_of(
            sha1_of(
                wrap_spec(
                    pack_decode_spec(bytes)->Ok_0[k].obj_type,
                    pack_decode_spec(bytes)->Ok_0[k].contents,
                ),
            ),
        ),
    ) by {
        assert(pack_decode_spec(bytes)->Ok_0[k] == finished_object(resolved[k]));
        assert(!(resolved[k] is Delta));
    }
}

} // verus!
