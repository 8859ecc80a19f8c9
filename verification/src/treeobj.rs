use vstd::prelude::*;
use vstd::utf8::valid_utf8;
use crate::bytesio::{find_byte, find_byte_spec, lemma_find_byte, lemma_find_byte_none,
    lemma_find_byte_unique, vec_range};
use crate::errors::GitError;
use crate::hexrep::{hex_bytes_of, hex_encode, lemma_hex_bytes_shape};
use crate::strconv::{ascii_chars_of, ascii_to_string, utf8_to_string};

verus! {

/// One tree child: its octal mode, raw name bytes, and raw 20-byte SHA-1.
pub struct TreeEntry {
    pub mode: Vec<u8>,
    pub name: Vec<u8>,
    pub sha: Vec<u8>,
}

/// The ghost image of a tree child.
pub struct TreeEntrySpec {
    pub mode: Seq<u8>,
    pub name: Seq<u8>,
    pub sha: Seq<u8>,
}

impl View for TreeEntry {
    type V = TreeEntrySpec;

    open spec fn view(&self) -> TreeEntrySpec {
        TreeEntrySpec { mode: self.mode@, name: self.name@, sha: self.sha@ }
    }
}

/// The ghost images of a run of tree children.
pub open spec fn entries_view(v: Seq<TreeEntry>) -> Seq<TreeEntrySpec> {
    v.map_values(|e: TreeEntry| e@)
}

/// The serialized form of one entry: `"<mode> <name>\0<sha20>"`.
pub open spec fn entry_bytes(e: TreeEntrySpec) -> Seq<u8> {
    e.mode + seq![32u8] + e.name + seq![0u8] + e.sha
}

/// What parsing a tree body yields: entries split at the first space and the
/// first NUL, each followed by exactly 20 raw SHA bytes, until the body ends.
pub open spec fn parse_tree_entries_spec(s: Seq<u8>) -> Result<Seq<TreeEntrySpec>, GitError>
    decreases s.len(),
    via parse_tree_entries_spec_dec
{
    if s.len() == 0 {
        Ok(Seq::empty())
    } else {
        match find_byte_spec(s, 32) {
            None => Err(GitError::TreeParseError),
            Some(sp) => {
                let mode = s.take(sp);
                let rest = s.skip(sp + 1);
                match find_byte_spec(rest, 0) {
                    None => Err(GitError::TreeParseError),
                    Some(z) => {
                        let name = rest.take(z);
                        let after = rest.skip(z + 1);
                        if after.len() < 20 {
                            Err(GitError::TreeParseError)
                        } else {
                            let sha = after.take(20);
                            match parse_tree_entries_spec(after.skip(20)) {
                                Ok(es) => Ok(seq![TreeEntrySpec { mode, name, sha }] + es),
                                Err(e) => Err(e),
                            }
                        }
                    },
                }
            },
        }
    }
}

#[via_fn]
proof fn parse_tree_entries_spec_dec(s: Seq<u8>) {
    if s.len() > 0 {
        lemma_find_byte(s, 32);
        match find_byte_spec(s, 32) {
            None => {},
            Some(sp) => {
                lemma_find_byte(s.skip(sp + 1), 0);
            },
        }
    }
}

/// The serialized form of a run of entries, in the order given.
pub open spec fn serialize_tree_spec(es: Seq<TreeEntrySpec>) -> Seq<u8>
    decreases es.len(),
{
    if es.len() == 0 {
        Seq::empty()
    } else {
        entry_bytes(es[0]) + serialize_tree_spec(es.drop_first())
    }
}

/// Tree canonicalization: serializing the entries parsed from a well-formed
/// tree body reproduces that body byte for byte.
pub proof fn lemma_tree_roundtrip(s: Seq<u8>)
    requires
        parse_tree_entries_spec(s) is Ok,
    ensures
        serialize_tree_spec(parse_tree_entries_spec(s)->Ok_0) == s,
    decreases s.len(),
{
    if s.len() == 0 {
        assert(serialize_tree_spec(parse_tree_entries_spec(s)->Ok_0) =~= s);
    } else {
        lemma_find_byte(s, 32);
        let sp = find_byte_spec(s, 32)->Some_0;
        let mode = s.take(sp);
        let rest = s.skip(sp + 1);
        lemma_find_byte(rest, 0);
        let z = find_byte_spec(rest, 0)->Some_0;
        let name = rest.take(z);
        let after = rest.skip(z + 1);
        let sha = after.take(20);
        let tail = after.skip(20);
        lemma_tree_roundtrip(tail);
        let e0 = TreeEntrySpec { mode, name, sha };
        let es = parse_tree_entries_spec(s)->Ok_0;
        let rest_es = parse_tree_entries_spec(tail)->Ok_0;
        assert(es == seq![e0] + rest_es);
        assert(es[0] == e0);
        assert(es.drop_first() =~= rest_es);
        assert(serialize_tree_spec(es) == entry_bytes(e0) + serialize_tree_spec(rest_es));
        assert(entry_bytes(e0).len() == sp + 1 + z + 1 + 20);
        assert(entry_bytes(e0).len() + tail.len() == s.len());
        assert forall|i: int| 0 <= i < s.len() implies (entry_bytes(e0) + tail)[i] == s[i] by {
            if i < sp {
                assert((entry_bytes(e0) + tail)[i] == mode[i]);
                assert(mode[i] == s[i]);
            } else if i == sp {
                assert((entry_bytes(e0) + tail)[i] == 32);
            } else if i < sp + 1 + z {
                assert((entry_bytes(e0) + tail)[i] == name[i - sp - 1]);
                assert(name[i - sp - 1] == rest[i - sp - 1]);
                assert(rest[i - sp - 1] == s[i]);
            } else if i == sp + 1 + z {
                assert((entry_bytes(e0) + tail)[i] == 0);
                assert(rest[z] == 0);
                assert(s[i] == rest[z]);
            } else if i < sp + 1 + z + 1 + 20 {
                assert((entry_bytes(e0) + tail)[i] == sha[i - sp - z - 2]);
                assert(sha[i - sp - z - 2] == after[i - sp - z - 2]);
                assert(after[i - sp - z - 2] == s[i]);
            } else {
                assert((entry_bytes(e0) + tail)[i] == tail[i - sp - z - 22]);
                assert(tail[i - sp - z - 22] == after[i - sp - z - 2]);
                assert(after[i - sp - z - 2] == s[i]);
            }
        }
        assert(entry_bytes(e0) + tail =~= s);
    }
}

/// An entry the tree grammar can carry faithfully: no space in the mode,
/// no NUL byte in the name, and an id of exactly 20 bytes.
pub open spec fn entry_wf(e: TreeEntrySpec) -> bool {
    &&& forall|i: int| 0 <= i < e.mode.len() ==> e.mode[i] != 32
    &&& forall|i: int| 0 <= i < e.name.len() ==> e.name[i] != 0
    &&& e.sha.len() == 20
}

/// The companion direction of tree canonicalization: entries the grammar
/// can carry parse back exactly from their serialized form.
pub proof fn lemma_tree_serialize_parse(es: Seq<TreeEntrySpec>)
    requires
        forall|k: int| 0 <= k < es.len() ==> entry_wf(#[trigger] es[k]),
    ensures
        parse_tree_entries_spec(serialize_tree_spec(es)) == Ok::<Seq<TreeEntrySpec>, GitError>(
            es,
        ),
    decreases es.len(),
{
    if es.len() == 0 {
        assert(Seq::<TreeEntrySpec>::empty() =~= es);
    } else {
        let e0 = es[0];
        assert(entry_wf(e0));
        let s = serialize_tree_spec(es);
        let tail = serialize_tree_spec(es.drop_first());
        assert(s == entry_bytes(e0) + tail);
        let ml = e0.mode.len() as int;
        let nl = e0.name.len() as int;
        assert(entry_bytes(e0).len() == ml + 1 + nl + 1 + 20);
        assert(s.len() == ml + 1 + nl + 1 + 20 + tail.len());
        assert(s[ml] == 32);
        assert forall|j: int| 0 <= j < ml implies s[j] != 32 by {
            assert(s[j] == e0.mode[j]);
        }
        lemma_find_byte_unique(s, 32u8, ml);
        assert(s.take(ml) =~= e0.mode);
        let rest = s.skip(ml + 1);
        assert(rest =~= e0.name + seq![0u8] + e0.sha + tail) by {
            assert forall|j: int| 0 <= j < rest.len() implies rest[j] == (e0.name + seq![0u8]
                + e0.sha + tail)[j] by {
                assert(rest[j] == s[ml + 1 + j]);
            }
        }
        assert(rest[nl] == 0);
        assert forall|j: int| 0 <= j < nl implies rest[j] != 0 by {
            assert(rest[j] == e0.name[j]);
        }
        lemma_find_byte_unique(rest, 0u8, nl);
        assert(rest.take(nl) =~= e0.name);
        let after = rest.skip(nl + 1);
        assert(after =~= e0.sha + tail) by {
            assert forall|j: int| 0 <= j < after.len() implies after[j] == (e0.sha + tail)[j]
            by {
                assert(after[j] == rest[nl + 1 + j]);
            }
        }
        assert(after.len() == 20 + tail.len());
        assert(after.take(20) =~= e0.sha);
        assert(after.skip(20) =~= tail);
        assert forall|k: int| 0 <= k < es.drop_first().len() implies entry_wf(
            #[trigger] es.drop_first()[k],
        ) by {
            assert(es.drop_first()[k] == es[k + 1]);
        }
        lemma_tree_serialize_parse(es.drop_first());
        assert(e0 == (TreeEntrySpec { mode: s.take(ml), name: rest.take(nl), sha: after.take(20) }));
        assert(seq![e0] + es.drop_first() =~= es);
    }
}

/// Parse a tree body into its entries, exactly as `parse_tree_entries_spec`
/// describes.
#[verifier::loop_isolation(false)]
#[verifier::rlimit(50)]
pub fn parse_tree_entries(body: &Vec<u8>) -> (r: Result<Vec<TreeEntry>, GitError>)
    ensures
        match r {
            Ok(v) => parse_tree_entries_spec(body@) == Ok::<Seq<TreeEntrySpec>, GitError>(
                entries_view(v@),
            ),
            Err(e) => parse_tree_entries_spec(body@) == Err::<Seq<TreeEntrySpec>, GitError>(e),
        },
{
    let len = body.len();
    let mut acc: Vec<TreeEntry> = Vec::new();
    let mut pos: usize = 0;
    proof {
        assert(entries_view(acc@) =~= Seq::<TreeEntrySpec>::empty());
        assert(body@.skip(0) =~= body@);
        match parse_tree_entries_spec(body@) {
            Ok(es) => {
                assert(entries_view(acc@) + es =~= es);
            },
            Err(_e) => {},
        }
    }
    while pos < len
        invariant
            0 <= pos <= len,
            match parse_tree_entries_spec(body@.skip(pos as int)) {
                Ok(es_rest) => parse_tree_entries_spec(body@) == Ok::<Seq<TreeEntrySpec>,
                    GitError>(entries_view(acc@) + es_rest),
                Err(e) => parse_tree_entries_spec(body@) == Err::<Seq<TreeEntrySpec>, GitError>(
                    e,
                ),
            },
        decreases len - pos,
    {
        let ghost cur = body@.skip(pos as int);
        let spa = match find_byte(body, pos, 32u8) {
            Some(spa) => spa,
            None => {
                proof {
                    assert forall|j: int| 0 <= j < cur.len() implies cur[j] != 32 by {
                        assert(cur[j] == body@[pos + j]);
                    }
                    lemma_find_byte_none(cur, 32u8);
                }
                return Err(GitError::TreeParseError);
            },
        };
        proof {
            assert(cur[spa - pos] == body@[spa as int]);
            assert forall|j: int| 0 <= j < spa - pos implies cur[j] != 32 by {
                assert(cur[j] == body@[pos + j]);
            }
            lemma_find_byte_unique(cur, 32u8, spa - pos);
        }
        let ghost rest_g = cur.skip(spa - pos + 1);
        let zp = match find_byte(body, spa + 1, 0u8) {
            Some(zp) => zp,
            None => {
                proof {
                    assert forall|j: int| 0 <= j < rest_g.len() implies rest_g[j] != 0 by {
                        assert(rest_g[j] == body@[spa + 1 + j]);
                    }
                    lemma_find_byte_none(rest_g, 0u8);
                }
                return Err(GitError::TreeParseError);
            },
        };
        proof {
            assert(rest_g[zp - spa - 1] == body@[zp as int]);
            assert forall|j: int| 0 <= j < zp - spa - 1 implies rest_g[j] != 0 by {
                assert(rest_g[j] == body@[spa + 1 + j]);
            }
            lemma_find_byte_unique(rest_g, 0u8, zp - spa - 1);
        }
        let ghost after_g = rest_g.skip(zp - spa - 1 + 1);
        proof {
            assert(after_g =~= body@.skip(zp + 1));
            assert(after_g.len() == len - zp - 1);
        }
        if len - zp - 1 < 20 {
            return Err(GitError::TreeParseError);
        }
        let mode = vec_range(body, pos, spa);
        let name = vec_range(body, spa + 1, zp);
        let sha = vec_range(body, zp + 1, zp + 21);
        proof {
            assert(mode@ =~= cur.take(spa - pos));
            assert(name@ =~= rest_g.take(zp - spa - 1));
            assert(sha@ =~= after_g.take(20));
        }
        let entry = TreeEntry { mode, name, sha };
        let ghost old_acc = acc@;
        acc.push(entry);
        proof {
            assert(entries_view(acc@) =~= entries_view(old_acc) + seq![entry@]);
            assert(cur.skip(spa - pos + 1 + (zp - spa - 1) + 1 + 20) =~= body@.skip(zp + 21));
            assert(after_g.skip(20) =~= body@.skip(zp + 21));
            match parse_tree_entries_spec(body@.skip(zp + 21)) {
                Ok(es_rest) => {
                    assert(parse_tree_entries_spec(cur) == Ok::<Seq<TreeEntrySpec>, GitError>(
                        seq![entry@] + es_rest,
                    ));
                    assert(entries_view(old_acc) + (seq![entry@] + es_rest) =~= entries_view(
                        acc@,
                    ) + es_rest);
                },
                Err(_e) => {
                    assert(parse_tree_entries_spec(cur) == parse_tree_entries_spec(
                        body@.skip(zp + 21),
                    ));
                },
            }
        }
        pos = zp + 21;
    }
    proof {
        assert(body@.skip(len as int) =~= Seq::<u8>::empty());
        assert(entries_view(acc@) + Seq::<TreeEntrySpec>::empty() =~= entries_view(acc@));
    }
    Ok(acc)
}

/// Serialize entries back to a tree body, in the order given.
#[verifier::loop_isolation(false)]
pub fn serialize_tree(entries: &Vec<TreeEntry>) -> (r: Vec<u8>)
    ensures
        r@ == serialize_tree_spec(entries_view(entries@)),
{
    let mut r: Vec<u8> = Vec::new();
    let mut i: usize = 0;
    let ghost ev = entries_view(entries@);
    proof {
        assert(ev.skip(0) =~= ev);
    }
    while i < entries.len()
        invariant
            0 <= i <= entries@.len(),
            ev == entries_view(entries@),
            serialize_tree_spec(ev) == r@ + serialize_tree_spec(ev.skip(i as int)),
        decreases entries@.len() - i,
    {
        let e = &entries[i];
        let ghost r0 = r@;
        crate::bytesio::push_bytes(&mut r, &e.mode);
        r.push(32u8);
        crate::bytesio::push_bytes(&mut r, &e.name);
        r.push(0u8);
        crate::bytesio::push_bytes(&mut r, &e.sha);
        proof {
            assert(r@ =~= r0 + entry_bytes(entries@[i as int]@));
            assert(ev.skip(i as int)[0] == ev[i as int]);
            assert(ev.skip(i as int).drop_first() =~= ev.skip(i + 1));
            assert(serialize_tree_spec(ev.skip(i as int)) == entry_bytes(ev[i as int])
                + serialize_tree_spec(ev.skip(i + 1)));
            assert(ev[i as int] == entries@[i as int]@);
            assert(serialize_tree_spec(ev) =~= r@ + serialize_tree_spec(ev.skip(i + 1)));
        }
        i = i + 1;
    }
    proof {
        assert(ev.skip(ev.len() as int) =~= Seq::<TreeEntrySpec>::empty());
        assert(serialize_tree_spec(ev) =~= r@);
    }
    r
}

/// The ASCII bytes of the `tree` kind tag.
pub open spec fn tree_kind_bytes() -> Seq<u8> {
    seq![116u8, 114u8, 101u8, 101u8]
}

/// What the entries of a whole (uncompressed) tree object are: everything
/// after the header, parsed as entries — provided the kind tag is `tree`.
/// The declared size is not consulted, matching the loose reader.
pub open spec fn tree_object_entries(s: Seq<u8>) -> Result<Seq<TreeEntrySpec>, GitError> {
    match find_byte_spec(s, 0) {
        None => Err(GitError::MalformedHeader),
        Some(z) => {
            let header = s.take(z);
            match find_byte_spec(header, 32) {
                None => Err(GitError::TreeParseError),
                Some(sp) => {
                    if header.take(sp) == tree_kind_bytes() {
                        parse_tree_entries_spec(s.skip(z + 1))
                    } else {
                        Err(GitError::TreeParseError)
                    }
                },
            }
        },
    }
}

/// Split a whole tree object (header included) into `(name, mode, hex sha)`
/// text triples.  Names and modes must be valid UTF-8 to become text; the
/// hex sha is 40 lower-case digits.
#[verifier::loop_isolation(false)]
pub fn parse_tree(binary: &Vec<u8>) -> (r: Result<Vec<(String, String, String)>, GitError>)
    ensures
        match r {
            Ok(v) => tree_object_entries(binary@) is Ok && ({
                let es = tree_object_entries(binary@)->Ok_0;
                &&& v@.len() == es.len()
                &&& forall|i: int|
                    0 <= i < es.len() ==> vstd::utf8::encode_utf8(#[trigger] v@[i].0@) == es[i].name
                        && vstd::utf8::encode_utf8(v@[i].1@) == es[i].mode && v@[i].2@
                        == ascii_chars_of(hex_bytes_of(es[i].sha))
            }),
            Err(e) => tree_object_entries(binary@) == Err::<Seq<TreeEntrySpec>, GitError>(e) || (
            e == GitError::Utf8Invalid && tree_object_entries(binary@) is Ok && exists|i: int|
                0 <= i < tree_object_entries(binary@)->Ok_0.len() && (!valid_utf8(
                    #[trigger] tree_object_entries(binary@)->Ok_0[i].name,
                ) || !valid_utf8(tree_object_entries(binary@)->Ok_0[i].mode))),
        },
{
    let blen = binary.len();
    let z = match find_byte(binary, 0, 0u8) {
        Some(z) => z,
        None => {
            proof {
                lemma_find_byte_none(binary@, 0u8);
            }
            return Err(GitError::MalformedHeader);
        },
    };
    proof {
        lemma_find_byte_unique(binary@, 0u8, z as int);
    }
    let ghost header = binary@.take(z as int);
    let sp = match find_byte(binary, 0, 32u8) {
        Some(sp) if sp < z => sp,
        _ => {
            proof {
                assert forall|j: int| 0 <= j < header.len() implies header[j] != 32 by {
                    assert(header[j] == binary@[j]);
                }
                lemma_find_byte_none(header, 32u8);
            }
            return Err(GitError::TreeParseError);
        },
    };
    proof {
        assert(header[sp as int] == binary@[sp as int]);
        assert forall|j: int| 0 <= j < sp implies header[j] != 32 by {
            assert(header[j] == binary@[j]);
        }
        lemma_find_byte_unique(header, 32u8, sp as int);
    }
    let kind = vec_range(binary, 0, sp);
    proof {
        assert(kind@ =~= header.take(sp as int));
    }
    if !(kind.len() == 4 && kind[0] == 116 && kind[1] == 114 && kind[2] == 101 && kind[3] == 101) {
        proof {
            assert(kind@ != tree_kind_bytes());
        }
        return Err(GitError::TreeParseError);
    }
    proof {
        assert(kind@ =~= tree_kind_bytes());
    }
    let body = vec_range(binary, z + 1, blen);
    proof {
        assert(body@ =~= binary@.skip(z as int + 1));
    }
    let entries = match parse_tree_entries(&body) {
        Ok(entries) => entries,
        Err(e) => {
            return Err(e);
        },
    };
    let ghost es = entries_view(entries@);
    proof {
        assert(tree_object_entries(binary@) == Ok::<Seq<TreeEntrySpec>, GitError>(es));
    }
    let mut out: Vec<(String, String, String)> = Vec::new();
    let mut i: usize = 0;
    let n = entries.len();
    while i < n
        invariant
            0 <= i <= n,
            out@.len() == i,
            forall|k: int|
                0 <= k < i ==> vstd::utf8::encode_utf8(#[trigger] out@[k].0@) == es[k].name
                    && vstd::utf8::encode_utf8(out@[k].1@) == es[k].mode && out@[k].2@
                    == ascii_chars_of(hex_bytes_of(es[k].sha)),
        decreases n - i,
    {
        let e = &entries[i];
        let name_s = match utf8_to_string(clone_bytes(&e.name)) {
            Ok(s) => s,
            Err(err) => {
                proof {
                    assert(es.len() == entries@.len());
                    assert((i as int) < tree_object_entries(binary@)->Ok_0.len());
                    assert(!valid_utf8(tree_object_entries(binary@)->Ok_0[i as int].name));
                    assert(exists|k: int|
                        0 <= k < tree_object_entries(binary@)->Ok_0.len() && (!valid_utf8(
                            #[trigger] tree_object_entries(binary@)->Ok_0[k].name,
                        ) || !valid_utf8(tree_object_entries(binary@)->Ok_0[k].mode)));
                }
                return Err(err);
            },
        };
        let mode_s = match utf8_to_string(clone_bytes(&e.mode)) {
            Ok(s) => s,
            Err(err) => {
                proof {
                    assert(es.len() == entries@.len());
                    assert((i as int) < tree_object_entries(binary@)->Ok_0.len());
                    assert(!valid_utf8(tree_object_entries(binary@)->Ok_0[i as int].mode));
                    assert(valid_utf8(tree_object_entries(binary@)->Ok_0[i as int].name));
                    assert(exists|k: int|
                        0 <= k < tree_object_entries(binary@)->Ok_0.len() && (!valid_utf8(
                            #[trigger] tree_object_entries(binary@)->Ok_0[k].name,
                        ) || !valid_utf8(tree_object_entries(binary@)->Ok_0[k].mode)));
                }
                return Err(err);
            },
        };
        let hex = hex_encode(&e.sha);
        proof {
            lemma_hex_bytes_shape(e.sha@);
        }
        let sha_s = ascii_to_string(hex);
        out.push((name_s, mode_s, sha_s));
        i = i + 1;
    }
    Ok(out)
}

/// A fresh copy of a byte vector.
pub fn clone_bytes(v: &Vec<u8>) -> (r: Vec<u8>)
    ensures
        r@ == v@,
{
    vec_range(v, 0, v.len())
}

} // verus!
