use vstd::prelude::*;
use vstd::string::*;
use vstd::utf8::{decode_utf8, encode_utf8, valid_utf8};
use crate::bytesio::{contains_bytes, contains_seq, find_byte, find_byte_spec,
    lemma_find_byte_none, lemma_find_byte_unique, push_bytes, vec_range};
use crate::checkout::{checkout_head, checkout_head_spec, find_last_match, last_match_name,
    write_config, write_config_spec, write_refs, write_refs_spec, refs_view};
use crate::codec::{add_data_prefix, blob_kind_bytes, commit_kind_bytes, kind_blob, wrap_spec};
use crate::digest::sha1_hex_chars;
use crate::errors::GitError;
use crate::pack::{objects_view, pack_decode_spec, validate_and_get_heart, UnpackedObject,
    UnpackedObjectSpec};
use crate::plan::{plan_view, PlanStep, PlanStepSpec};
use crate::repopath::{write_data, ObjectWrite};
use crate::strconv::utf8_to_string;
use crate::transport::{all_pieces_utf8, parse_refs_resp_and_check, parse_refs_spec};
use crate::treeobj::{clone_bytes, entries_view, parse_tree_entries, tree_object_entries,
    TreeEntrySpec};
use crate::zcomp::{inflate_all, zlib_deflate, zlib_inflate};

verus! {

/// The steps that lay out a fresh repository: the object and ref
/// directories, and a `HEAD` naming the master branch.
pub open spec fn init_steps_spec() -> Seq<PlanStepSpec> {
    seq![
        (PlanStepSpec::MkDir { path: ".git/objects"@ }),
        (PlanStepSpec::MkDir { path: ".git/refs"@ }),
        (PlanStepSpec::WriteFile {
            path: ".git/HEAD"@,
            data: "ref: refs/heads/master".spec_bytes() + seq![10u8],
        }),
    ]
}

/// Plan the layout of a fresh repository, exactly as `init_steps_spec`
/// describes.
pub fn init() -> (r: Vec<PlanStep>)
    ensures
        plan_view(r@) == init_steps_spec(),
{
    let mut steps: Vec<PlanStep> = Vec::new();
    steps.push(PlanStep::MkDir { path: String::from_str(".git/objects") });
    steps.push(PlanStep::MkDir { path: String::from_str(".git/refs") });
    let mut head = "ref: refs/heads/master".as_bytes_vec();
    head.push(10u8);
    steps.push(PlanStep::WriteFile { path: String::from_str(".git/HEAD"), data: head });
    proof {
        assert(plan_view(steps@) =~~= init_steps_spec());
    }
    steps
}

/// What printing an object file yields: the body after the header, for
/// blobs and commits only.
pub open spec fn cat_file_spec(z: Seq<u8>) -> Result<Seq<u8>, GitError> {
    match zlib_inflate(z) {
        None => Err(GitError::ZlibInvalid),
        Some(pair) => {
            let data = pair.0;
            match find_byte_spec(data, 0) {
                None => Err(GitError::MalformedHeader),
                Some(zp) => {
                    let header = data.take(zp);
                    let body = data.skip(zp + 1);
                    match find_byte_spec(header, 32) {
                        None => Err(GitError::MalformedHeader),
                        Some(sp) => if header.take(sp) == blob_kind_bytes() || header.take(sp)
                            == commit_kind_bytes() {
                            Ok(body)
                        } else {
                            Err(GitError::UnsupportedObjectType)
                        },
                    }
                },
            }
        },
    }
}

/// Decompress an object file and return its body, byte for byte, exactly
/// as `cat_file_spec` describes; only blobs and commits are printed.
pub fn cat_file_print(zdata: &Vec<u8>) -> (r: Result<Vec<u8>, GitError>)
    ensures
        match r {
            Ok(v) => cat_file_spec(zdata@) == Ok::<Seq<u8>, GitError>(v@),
            Err(e) => cat_file_spec(zdata@) == Err::<Seq<u8>, GitError>(e),
        },
{
    let data = match inflate_all(zdata) {
        Ok(d) => d,
        Err(e) => {
            return Err(e);
        },
    };
    let dlen = data.len();
    let zp = match find_byte(&data, 0, 0u8) {
        Some(zp) => zp,
        None => {
            proof {
                lemma_find_byte_none(data@, 0u8);
            }
            return Err(GitError::MalformedHeader);
        },
    };
    proof {
        lemma_find_byte_unique(data@, 0u8, zp as int);
    }
    let ghost header = data@.take(zp as int);
    let sp = match find_byte(&data, 0, 32u8) {
        Some(sp) if sp < zp => sp,
        _ => {
            proof {
                assert forall|j: int| 0 <= j < header.len() implies header[j] != 32 by {
                    assert(header[j] == data@[j]);
                }
                lemma_find_byte_none(header, 32u8);
            }
            return Err(GitError::MalformedHeader);
        },
    };
    proof {
        assert(header[sp as int] == data@[sp as int]);
        assert forall|j: int| 0 <= j < sp implies header[j] != 32 by {
            assert(header[j] == data@[j]);
        }
        lemma_find_byte_unique(header, 32u8, sp as int);
    }
    let kind = vec_range(&data, 0, sp);
    proof {
        assert(kind@ =~= header.take(sp as int));
    }
    let is_blob = kind.len() == 4 && kind[0] == 98 && kind[1] == 108 && kind[2] == 111 && kind[3]
        == 98;
    let is_commit = kind.len() == 6 && kind[0] == 99 && kind[1] == 111 && kind[2] == 109
        && kind[3] == 109 && kind[4] == 105 && kind[5] == 116;
    if !(is_blob || is_commit) {
        proof {
            assert(kind@ != blob_kind_bytes());
            assert(kind@ != commit_kind_bytes());
        }
        return Err(GitError::UnsupportedObjectType);
    }
    proof {
        if is_blob {
            assert(kind@ =~= blob_kind_bytes());
        } else {
            assert(kind@ =~= commit_kind_bytes());
        }
    }
    let body = vec_range(&data, zp + 1, dlen);
    proof {
        assert(body@ =~= data@.skip(zp as int + 1));
    }
    Ok(body)
}

/// Store a file's bytes as a blob: the object id and compressed file bytes
/// are a function of the contents alone.
pub fn hash_object_write(file_bytes: Vec<u8>) -> (r: ObjectWrite)
    ensures
        r.hash@ == sha1_hex_chars(wrap_spec(blob_kind_bytes(), file_bytes@)),
        r.hash@.len() == 40,
        r.zdata@ == zlib_deflate(wrap_spec(blob_kind_bytes(), file_bytes@)),
        zlib_inflate(r.zdata@) == Some(
            (
                wrap_spec(blob_kind_bytes(), file_bytes@),
                r.zdata@.len() as int,
            ),
        ),
{
    let kind = kind_blob();
    let text = add_data_prefix(kind.as_slice(), file_bytes);
    write_data(text)
}

/// The entry names of a tree, joined with newlines.
pub open spec fn join_names(es: Seq<TreeEntrySpec>, k: int) -> Seq<u8>
    decreases es.len() - k,
{
    if k < 0 || k >= es.len() {
        Seq::empty()
    } else if k == es.len() - 1 {
        es[k].name
    } else {
        es[k].name + seq![10u8] + join_names(es, k + 1)
    }
}

/// What listing a compressed tree object yields: its entry names, one per
/// line.
pub open spec fn read_tree_names_spec(z: Seq<u8>) -> Result<Seq<u8>, GitError> {
    match zlib_inflate(z) {
        None => Err(GitError::ZlibInvalid),
        Some(pair) => match tree_object_entries(pair.0) {
            Err(e) => Err(e),
            Ok(es) => Ok(join_names(es, 0)),
        },
    }
}

/// Decompress a tree object and list its entry names, one per line,
/// exactly as `read_tree_names_spec` describes; the names must be UTF-8
/// text.
#[verifier::loop_isolation(false)]
pub fn read_tree_names(zdata: &Vec<u8>) -> (r: Result<String, GitError>)
    ensures
        match r {
            Ok(s) => read_tree_names_spec(zdata@) is Ok && encode_utf8(s@)
                == read_tree_names_spec(zdata@)->Ok_0,
            Err(e) => read_tree_names_spec(zdata@) == Err::<Seq<u8>, GitError>(e) || (e
                == GitError::Utf8Invalid && read_tree_names_spec(zdata@) is Ok && !valid_utf8(
                read_tree_names_spec(zdata@)->Ok_0,
            )),
        },
{
    let data = match inflate_all(zdata) {
        Ok(d) => d,
        Err(e) => {
            return Err(e);
        },
    };
    let dlen = data.len();
    let zp = match find_byte(&data, 0, 0u8) {
        Some(zp) => zp,
        None => {
            proof {
                lemma_find_byte_none(data@, 0u8);
            }
            return Err(GitError::MalformedHeader);
        },
    };
    proof {
        lemma_find_byte_unique(data@, 0u8, zp as int);
    }
    let ghost header = data@.take(zp as int);
    let sp = match find_byte(&data, 0, 32u8) {
        Some(sp) if sp < zp => sp,
        _ => {
            proof {
                assert forall|j: int| 0 <= j < header.len() implies header[j] != 32 by {
                    assert(header[j] == data@[j]);
                }
                lemma_find_byte_none(header, 32u8);
            }
            return Err(GitError::TreeParseError);
        },
    };
    proof {
        assert(header[sp as int] == data@[sp as int]);
        assert forall|j: int| 0 <= j < sp implies header[j] != 32 by {
            assert(header[j] == data@[j]);
        }
        lemma_find_byte_unique(header, 32u8, sp as int);
    }
    let kind = vec_range(&data, 0, sp);
    proof {
        assert(kind@ =~= header.take(sp as int));
    }
    if !(kind.len() == 4 && kind[0] == 116 && kind[1] == 114 && kind[2] == 101 && kind[3]
        == 101) {
        proof {
            assert(kind@ != crate::treeobj::tree_kind_bytes());
        }
        return Err(GitError::TreeParseError);
    }
    proof {
        assert(kind@ =~= crate::treeobj::tree_kind_bytes());
    }
    let body = vec_range(&data, zp + 1, dlen);
    proof {
        assert(body@ =~= data@.skip(zp as int + 1));
    }
    let entries = match parse_tree_entries(&body) {
        Ok(entries) => entries,
        Err(e) => {
            return Err(e);
        },
    };
    let ghost es = entries_view(entries@);
    let n = entries.len();
    let mut joined: Vec<u8> = Vec::new();
    let mut k: usize = 0;
    while k < n
        invariant
            0 <= k <= n,
            n == entries@.len(),
            es == entries_view(entries@),
            es.len() == entries@.len(),
            join_names(es, 0) == joined@ + join_names(es, k as int),
        decreases n - k,
    {
        proof {
            assert(es[k as int] == entries@[k as int]@);
        }
        let ghost j0 = joined@;
        push_bytes(&mut joined, &entries[k].name);
        if k + 1 < n {
            joined.push(10u8);
            proof {
                assert(joined@ =~= j0 + (es[k as int].name + seq![10u8]));
                assert(join_names(es, k as int) == es[k as int].name + seq![10u8] + join_names(
                    es,
                    k + 1,
                ));
                assert(join_names(es, 0) =~= joined@ + join_names(es, k + 1));
            }
        } else {
            proof {
                assert(join_names(es, k as int) == es[k as int].name);
                assert(join_names(es, k + 1) =~= Seq::<u8>::empty());
                assert(join_names(es, 0) =~= joined@ + join_names(es, k + 1));
            }
        }
        k = k + 1;
    }
    proof {
        assert(join_names(es, n as int) =~= Seq::<u8>::empty());
        assert(join_names(es, 0) =~= joined@);
    }
    utf8_to_string(joined)
}

/// The text pairs that the advertised byte pairs spell.
pub open spec fn decoded_refs(prs: Seq<(Seq<u8>, Seq<u8>)>) -> Seq<(Seq<char>, Seq<char>)> {
    prs.map_values(|p: (Seq<u8>, Seq<u8>)| (decode_utf8(p.0), decode_utf8(p.1)))
}

/// The store-writing steps for the unpacked objects from index `k` on:
/// each object's shard directory, then its compressed file at the sharded
/// path under the fresh repository root.
pub open spec fn object_steps_from(objs: Seq<UnpackedObjectSpec>, k: int) -> Seq<PlanStepSpec>
    decreases objs.len() - k,
{
    if k < 0 || k >= objs.len() {
        Seq::empty()
    } else {
        let h = objs[k].hash;
        seq![
            (PlanStepSpec::MkDir { path: "./.git/objects/"@ + h.take(2) }),
            (PlanStepSpec::WriteFile {
                path: "./.git/objects/"@ + h.take(2) + "/"@ + h.skip(2),
                data: zlib_deflate(wrap_spec(objs[k].obj_type, objs[k].contents)),
            }),
        ] + object_steps_from(objs, k + 1)
    }
}

/// What a whole clone asks for, given the remote's URL, the ref
/// advertisement, and the raw pack response: the refs are parsed and must
/// all be text, the remote must allow wanting advertised ids, the
/// eight-byte response preamble is stripped, the pack is decoded and
/// resolved, and the plan lays out a fresh repository, stores every
/// object, writes the refs and `HEAD`, materializes the tree of the
/// advertised head commit, and — when `HEAD` ends up naming a branch —
/// records the remote in the configuration file.
pub open spec fn clone_spec(url: Seq<char>, body: Seq<u8>, resp: Seq<u8>) -> Result<
    Seq<PlanStepSpec>,
    GitError,
> {
    match parse_refs_spec(body) {
        Err(e) => Err(e),
        Ok((prs, caps)) => if !all_pieces_utf8(prs, caps) {
            Err(GitError::Utf8Invalid)
        } else if !(contains_seq(caps, "allow-tip-sha1-in-want".spec_bytes()) || contains_seq(
            caps,
            "allow-reachable-sha1-in-want".spec_bytes(),
        )) {
            Err(GitError::CapabilityUnsupported)
        } else if resp.len() < 8 {
            Err(GitError::PackMalformed)
        } else {
            match pack_decode_spec(resp.skip(8)) {
                Err(e) => Err(e),
                Ok(objs) => {
                    let rv = decoded_refs(prs);
                    match write_refs_spec(rv) {
                        Err(e) => Err(e),
                        Ok(ref_steps) => match checkout_head_spec(objs, rv[0].0) {
                            Err(e) => Err(e),
                            Ok(co) => {
                                let steps = init_steps_spec() + object_steps_from(objs, 0)
                                    + ref_steps + co;
                                match last_match_name(rv, rv[0].0) {
                                    None => Ok(steps),
                                    Some(nm) => match write_config_spec(
                                        url,
                                        "ref: "@ + nm + "\n"@,
                                    ) {
                                        Err(e) => Err(e),
                                        Ok(cfg) => Ok(
                                            steps + seq![
                                                (PlanStepSpec::WriteFile {
                                                    path: ".git/config"@,
                                                    data: encode_utf8(cfg),
                                                }),
                                            ],
                                        ),
                                    },
                                }
                            },
                        },
                    }
                },
            }
        },
    }
}

/// Plan a whole clone from the remote URL, the ref advertisement, and the
/// raw pack response, exactly as `clone_spec` describes.
#[verifier::loop_isolation(false)]
#[verifier::rlimit(100)]
pub fn clone_repo(repo_url: &str, refs_body: &str, pack_response: Vec<u8>) -> (r: Result<
    Vec<PlanStep>,
    GitError,
>)
    ensures
        match r {
            Ok(steps) => clone_spec(repo_url@, refs_body.spec_bytes(), pack_response@) == Ok::<
                Seq<PlanStepSpec>,
                GitError,
            >(plan_view(steps@)),
            Err(e) => clone_spec(repo_url@, refs_body.spec_bytes(), pack_response@) == Err::<
                Seq<PlanStepSpec>,
                GitError,
            >(e),
        },
{
    let ghost body_b = refs_body.spec_bytes();
    let ghost resp_b = pack_response@;
    let (refs, caps) = match parse_refs_resp_and_check(refs_body) {
        Ok(rc) => rc,
        Err(e) => {
            return Err(e);
        },
    };
    let ghost prs = parse_refs_spec(body_b)->Ok_0.0;
    let ghost capsb = parse_refs_spec(body_b)->Ok_0.1;
    proof {
        assert forall|i: int| 0 <= i < prs.len() implies valid_utf8(#[trigger] prs[i].0)
            && valid_utf8(prs[i].1) by {
            assert(encode_utf8(refs@[i].0@) == prs[i].0);
            vstd::utf8::encode_utf8_valid_utf8(refs@[i].0@);
            vstd::utf8::encode_utf8_valid_utf8(refs@[i].1@);
        }
        vstd::utf8::encode_utf8_valid_utf8(caps@);
        assert(all_pieces_utf8(prs, capsb));
        assert(refs_view(refs@) =~= decoded_refs(prs)) by {
            assert forall|i: int| 0 <= i < refs@.len() implies refs_view(refs@)[i]
                == decoded_refs(prs)[i] by {
                assert(encode_utf8(refs@[i].0@) == prs[i].0);
                assert(encode_utf8(refs@[i].1@) == prs[i].1);
                vstd::utf8::encode_utf8_decode_utf8(refs@[i].0@);
                vstd::utf8::encode_utf8_decode_utf8(refs@[i].1@);
            }
        }
    }
    let ghost rv = decoded_refs(prs);
    let capsv = caps.as_str().as_bytes_vec();
    let tip = "allow-tip-sha1-in-want".as_bytes_vec();
    let reach = "allow-reachable-sha1-in-want".as_bytes_vec();
    let has_tip = contains_bytes(&capsv, &tip);
    let has_reach = contains_bytes(&capsv, &reach);
    if !(has_tip || has_reach) {
        return Err(GitError::CapabilityUnsupported);
    }
    let pn = pack_response.len();
    if pn < 8 {
        return Err(GitError::PackMalformed);
    }
    let pack = vec_range(&pack_response, 8, pn);
    proof {
        assert(pack@ =~= resp_b.skip(8));
    }
    let objects = match validate_and_get_heart(pack) {
        Ok(o) => o,
        Err(e) => {
            return Err(e);
        },
    };
    let ghost ov = objects_view(objects@);
    proof {
        crate::pack::lemma_pack_objects_named(resp_b.skip(8));
    }
    let mut steps: Vec<PlanStep> = init();
    let n = objects.len();
    let mut k: usize = 0;
    proof {
        assert(ov.len() == objects@.len());
        assert(plan_view(steps@).skip(3) =~= Seq::<PlanStepSpec>::empty());
    }
    while k < n
        invariant
            0 <= k <= n,
            n == objects@.len(),
            ov == objects_view(objects@),
            ov.len() == objects@.len(),
            plan_view(steps@).len() >= 3,
            plan_view(steps@).take(3) == init_steps_spec(),
            object_steps_from(ov, 0) == plan_view(steps@).skip(3) + object_steps_from(
                ov,
                k as int,
            ),
        decreases n - k,
    {
        proof {
            assert(ov[k as int] == objects@[k as int]@);
        }
        let ot = clone_bytes(&objects[k].obj_type);
        let ct = clone_bytes(&objects[k].contents);
        let text = add_data_prefix(ot.as_slice(), ct);
        let ow = write_data(text);
        proof {
            assert(ow.hash@ == ov[k as int].hash);
            assert(ow.hash@.len() == 40);
        }
        let mut par = String::from_str("./.git/objects/");
        par.append(ow.hash.as_str().substring_char(0, 2));
        let mut fp = String::from_str("./.git/objects/");
        fp.append(ow.hash.as_str().substring_char(0, 2));
        fp.append("/");
        fp.append(ow.hash.as_str().substring_char(2, 40));
        let ghost steps0 = plan_view(steps@);
        steps.push(PlanStep::MkDir { path: par });
        steps.push(PlanStep::WriteFile { path: fp, data: ow.zdata });
        proof {
            let h = ov[k as int].hash;
            assert(h.take(2) =~= h.subrange(0, 2));
            assert(h.skip(2) =~= h.subrange(2, 40));
            assert(plan_view(steps@) =~~= steps0 + seq![
                (PlanStepSpec::MkDir { path: "./.git/objects/"@ + h.take(2) }),
                (PlanStepSpec::WriteFile {
                    path: "./.git/objects/"@ + h.take(2) + "/"@ + h.skip(2),
                    data: zlib_deflate(wrap_spec(ov[k as int].obj_type, ov[k as int].contents)),
                }),
            ]);
            assert(object_steps_from(ov, k as int) == seq![
                (PlanStepSpec::MkDir { path: "./.git/objects/"@ + h.take(2) }),
                (PlanStepSpec::WriteFile {
                    path: "./.git/objects/"@ + h.take(2) + "/"@ + h.skip(2),
                    data: zlib_deflate(wrap_spec(ov[k as int].obj_type, ov[k as int].contents)),
                }),
            ] + object_steps_from(ov, k + 1));
            assert(object_steps_from(ov, 0) =~= plan_view(steps@).skip(3) + object_steps_from(
                ov,
                k + 1,
            ));
            assert(plan_view(steps@).take(3) =~= steps0.take(3));
        }
        k = k + 1;
    }
    proof {
        assert(object_steps_from(ov, n as int) =~= Seq::<PlanStepSpec>::empty());
        assert(plan_view(steps@).skip(3) + Seq::<PlanStepSpec>::empty() =~= plan_view(
            steps@,
        ).skip(3));
        assert(prs.len() >= 1);
        assert(rv.len() >= 1);
        assert(refs@.len() >= 1);
    }
    let mut ref_steps = match write_refs(&refs) {
        Ok(sv) => sv,
        Err(e) => {
            return Err(e);
        },
    };
    let ghost ref_view = plan_view(ref_steps@);
    let ghost after_objs = plan_view(steps@);
    steps.append(&mut ref_steps);
    proof {
        assert(plan_view(steps@) =~= after_objs + ref_view);
        assert(rv[0].0 == refs@[0].0@);
    }
    let mut co_steps = match checkout_head(&objects, &refs[0].0) {
        Ok(sv) => sv,
        Err(e) => {
            return Err(e);
        },
    };
    let ghost co_view = plan_view(co_steps@);
    let ghost after_refs = plan_view(steps@);
    steps.append(&mut co_steps);
    proof {
        assert(plan_view(steps@) =~= after_refs + co_view);
        assert(plan_view(steps@) =~= init_steps_spec() + object_steps_from(ov, 0) + ref_view
            + co_view);
    }
    match find_last_match(&refs) {
        None => Ok(steps),
        Some(nm) => {
            let mut head_final = String::from_str("ref: ");
            head_final.append(nm.as_str());
            head_final.append("\n");
            proof {
                assert(head_final@ == "ref: "@ + nm@ + "\n"@);
            }
            match write_config(repo_url, head_final.as_str()) {
                Err(e) => Err(e),
                Ok(cfg) => {
                    let ghost before_cfg = plan_view(steps@);
                    let data = cfg.as_str().as_bytes_vec();
                    steps.push(PlanStep::WriteFile { path: String::from_str(".git/config"), data });
                    proof {
                        assert(plan_view(steps@) =~~= before_cfg + seq![
                            (PlanStepSpec::WriteFile {
                                path: ".git/config"@,
                                data: encode_utf8(cfg@),
                            }),
                        ]);
                    }
                    Ok(steps)
                },
            }
        },
    }
}

} // verus!
