use vstd::prelude::*;
use vstd::string::*;
use vstd::utf8::{encode_utf8, valid_utf8};
use crate::bytesio::{find_byte, find_byte_spec, lemma_find_byte_none, lemma_find_byte_unique,
    vec_range};
use crate::errors::GitError;
use crate::hexrep::{hex_bytes_of, hex_encode, lemma_hex_bytes_shape};
use crate::pack::{objects_view, UnpackedObject, UnpackedObjectSpec};
use crate::plan::{plan_view, PlanStep, PlanStepSpec};
use crate::strconv::{ascii_chars_of, ascii_to_string, utf8_to_string};
use crate::treeobj::{clone_bytes, entries_view, parse_tree_entries, parse_tree_entries_spec,
    tree_kind_bytes, TreeEntrySpec};

verus! {

/// What `HEAD` points at: a branch by name, or a bare object id.
pub enum HeadRef {
    Sha(String),
    Ref(String),
}

/// The ghost image of a `HEAD` target.
pub enum HeadRefSpec {
    Sha(Seq<char>),
    Ref(Seq<char>),
}

impl View for HeadRef {
    type V = HeadRefSpec;

    open spec fn view(&self) -> HeadRefSpec {
        match self {
            HeadRef::Sha(s) => HeadRefSpec::Sha(s@),
            HeadRef::Ref(s) => HeadRefSpec::Ref(s@),
        }
    }
}

/// Is `c` a hex digit, either case?
pub open spec fn is_hex_char(c: char) -> bool {
    ('0' <= c && c <= '9') || ('a' <= c && c <= 'f') || ('A' <= c && c <= 'F')
}

/// Is `c` trailing whitespace a ref file may carry?
pub open spec fn is_space_char(c: char) -> bool {
    c == ' ' || c == '\n' || c == '\t' || c == '\r'
}

/// What `HEAD` contents mean: `"ref: <name>\n"` names a branch (the final
/// character is dropped), and 40 hex digits followed by nothing but
/// whitespace are a bare id.  Anything else is invalid.
pub open spec fn head_ref_spec(s: Seq<char>) -> Result<HeadRefSpec, GitError> {
    if s.len() >= 6 && s.take(5) == "ref: "@ {
        Ok(HeadRefSpec::Ref(s.subrange(5, s.len() - 1)))
    } else if s.len() >= 40 && (forall|i: int| 0 <= i < 40 ==> is_hex_char(#[trigger] s[i])) && (
    forall|i: int| 40 <= i < s.len() ==> is_space_char(#[trigger] s[i])) {
        Ok(HeadRefSpec::Sha(s.take(40)))
    } else {
        Err(GitError::HeadInvalid)
    }
}

/// Is `c` a hex digit, either case?
fn hex_char(c: char) -> (r: bool)
    ensures
        r == is_hex_char(c),
{
    ('0' <= c && c <= '9') || ('a' <= c && c <= 'f') || ('A' <= c && c <= 'F')
}

/// Is `c` trailing whitespace a ref file may carry?
fn space_char(c: char) -> (r: bool)
    ensures
        r == is_space_char(c),
{
    c == ' ' || c == '\n' || c == '\t' || c == '\r'
}

/// Parse `HEAD` contents, exactly as `head_ref_spec` describes.
#[verifier::loop_isolation(false)]
pub fn get_head_ref(head: &str) -> (r: Result<HeadRef, GitError>)
    ensures
        match r {
            Ok(h) => head_ref_spec(head@) == Ok::<HeadRefSpec, GitError>(h@),
            Err(e) => head_ref_spec(head@) == Err::<HeadRefSpec, GitError>(e),
        },
{
    let n = head.unicode_len();
    proof {
        reveal_strlit("ref: ");
    }
    if n >= 6 && head.get_char(0) == 'r' && head.get_char(1) == 'e' && head.get_char(2) == 'f'
        && head.get_char(3) == ':' && head.get_char(4) == ' ' {
        proof {
            assert(head@.take(5) =~= "ref: "@);
        }
        let name = head.substring_char(5, n - 1).to_owned();
        Ok(HeadRef::Ref(name))
    } else {
        proof {
            assert(!(head@.len() >= 6 && head@.take(5) == "ref: "@)) by {
                if head@.len() >= 6 && head@.take(5) == "ref: "@ {
                    assert(head@[0] == "ref: "@[0]);
                    assert(head@[1] == "ref: "@[1]);
                    assert(head@[2] == "ref: "@[2]);
                    assert(head@[3] == "ref: "@[3]);
                    assert(head@[4] == "ref: "@[4]);
                }
            }
        }
        if n < 40 {
            return Err(GitError::HeadInvalid);
        }
        let mut i: usize = 0;
        while i < 40
            invariant
                0 <= i <= 40 <= head@.len(),
                forall|j: int| 0 <= j < i ==> is_hex_char(#[trigger] head@[j]),
            decreases 40 - i,
        {
            if !hex_char(head.get_char(i)) {
                return Err(GitError::HeadInvalid);
            }
            i = i + 1;
        }
        let mut t: usize = 40;
        while t < n
            invariant
                40 <= t <= n == head@.len(),
                forall|j: int| 40 <= j < t ==> is_space_char(#[trigger] head@[j]),
            decreases n - t,
        {
            if !space_char(head.get_char(t)) {
                return Err(GitError::HeadInvalid);
            }
            t = t + 1;
        }
        let sha = head.substring_char(0, 40).to_owned();
        Ok(HeadRef::Sha(sha))
    }
}

/// The index of the last `/` in `s`, if any.
pub open spec fn last_slash_spec(s: Seq<char>) -> Option<int>
    decreases s.len(),
{
    if s.len() == 0 {
        None
    } else if s.last() == '/' {
        Some(s.len() - 1)
    } else {
        last_slash_spec(s.drop_last())
    }
}

/// `last_slash_spec` points at a `/` with none after it; `None` means no
/// `/` at all.
pub proof fn lemma_last_slash(s: Seq<char>)
    ensures
        match last_slash_spec(s) {
            Some(i) => 0 <= i < s.len() && s[i] == '/' && forall|j: int|
                i < j < s.len() ==> s[j] != '/',
            None => forall|j: int| 0 <= j < s.len() ==> s[j] != '/',
        },
    decreases s.len(),
{
    if s.len() > 0 && s.last() != '/' {
        lemma_last_slash(s.drop_last());
        assert forall|j: int| 0 <= j < s.len() - 1 implies s.drop_last()[j] == s[j] by {}
    }
}

/// Find the last `/`, exactly as `last_slash_spec` describes.
pub fn last_slash(s: &str) -> (r: Option<usize>)
    ensures
        match r {
            Some(i) => last_slash_spec(s@) == Some(i as int) && i < s@.len(),
            None => last_slash_spec(s@) is None,
        },
{
    let n = s.unicode_len();
    let mut i: usize = n;
    while i > 0
        invariant
            0 <= i <= n == s@.len(),
            forall|j: int| i <= j < s@.len() ==> s@[j] != '/',
        decreases i,
    {
        i = i - 1;
        if s.get_char(i) == '/' {
            proof {
                lemma_slash_unique(s@, i as int);
            }
            return Some(i);
        }
    }
    proof {
        lemma_last_slash(s@);
        match last_slash_spec(s@) {
            Some(k) => {
                assert(s@[k] != '/');
            },
            None => {},
        }
    }
    None
}

/// A position holding `/` with none after it is exactly what
/// `last_slash_spec` returns.
proof fn lemma_slash_unique(s: Seq<char>, k: int)
    requires
        0 <= k < s.len(),
        s[k] == '/',
        forall|j: int| k < j < s.len() ==> s[j] != '/',
    ensures
        last_slash_spec(s) == Some(k),
{
    lemma_last_slash(s);
    match last_slash_spec(s) {
        None => {
            assert(s[k] != '/');
        },
        Some(i) => {
            if i < k {
                assert(s[k] != '/');
            } else if i > k {
                assert(s[i] != '/');
            }
        },
    }
}

/// The directory that holds ref `name` under `.git`: up to the last `/`,
/// or `.git` itself for a bare name.
pub open spec fn ref_parent_spec(name: Seq<char>) -> Seq<char> {
    match last_slash_spec(name) {
        None => ".git"@,
        Some(i) => ".git/"@ + name.take(i),
    }
}

/// The plan steps for one advertised ref: when its id equals the head id,
/// `HEAD` is first pointed at it symbolically; then the ref file's
/// directory is created and the id written into the ref file.
pub open spec fn ref_step_spec(head: Seq<char>, hash: Seq<char>, name: Seq<char>) -> Seq<
    PlanStepSpec,
> {
    (if hash == head {
        seq![
            (PlanStepSpec::WriteFile {
                path: ".git/HEAD"@,
                data: encode_utf8("ref: "@ + name + "\n"@),
            }),
        ]
    } else {
        Seq::empty()
    }) + seq![
        (PlanStepSpec::MkDir { path: ref_parent_spec(name) }),
        (PlanStepSpec::WriteFile { path: ".git/"@ + name, data: encode_utf8(hash + "\n"@) }),
    ]
}

/// The steps for the refs from index `i` on.
pub open spec fn ref_steps_from(refs: Seq<(Seq<char>, Seq<char>)>, i: int, head: Seq<char>)
    -> Seq<PlanStepSpec>
    decreases refs.len() - i,
{
    if i < 0 || i >= refs.len() {
        Seq::empty()
    } else {
        ref_step_spec(head, refs[i].0, refs[i].1) + ref_steps_from(refs, i + 1, head)
    }
}

/// Does some ref after the first share the head id?
pub open spec fn some_ref_matches(refs: Seq<(Seq<char>, Seq<char>)>, head: Seq<char>) -> bool {
    exists|i: int| 1 <= i < refs.len() && #[trigger] refs[i].0 == head
}

/// The whole ref-writing plan: the `.git` directory, the per-ref steps in
/// order, and a detached `HEAD` holding the head id when no ref matched it.
pub open spec fn write_refs_spec(refs: Seq<(Seq<char>, Seq<char>)>) -> Result<
    Seq<PlanStepSpec>,
    GitError,
> {
    if refs.len() == 0 {
        Err(GitError::PktLineMalformed)
    } else {
        let head = refs[0].0;
        Ok(
            seq![(PlanStepSpec::MkDir { path: ".git/"@ })] + ref_steps_from(refs, 1, head) + (
            if some_ref_matches(refs, head) {
                Seq::empty()
            } else {
                seq![
                    (PlanStepSpec::WriteFile {
                        path: ".git/HEAD"@,
                        data: encode_utf8(head + "\n"@),
                    }),
                ]
            }),
        )
    }
}

/// The ghost images of text pairs.
pub open spec fn refs_view(v: Seq<(String, String)>) -> Seq<(Seq<char>, Seq<char>)> {
    v.map_values(|p: (String, String)| (p.0@, p.1@))
}

/// Plan the ref files for an advertised ref list, exactly as
/// `write_refs_spec` describes.
#[verifier::loop_isolation(false)]
pub fn write_refs(refs: &Vec<(String, String)>) -> (r: Result<Vec<PlanStep>, GitError>)
    ensures
        match r {
            Ok(steps) => write_refs_spec(refs_view(refs@)) == Ok::<Seq<PlanStepSpec>, GitError>(
                plan_view(steps@),
            ),
            Err(e) => write_refs_spec(refs_view(refs@)) == Err::<Seq<PlanStepSpec>, GitError>(e),
        },
{
    let n = refs.len();
    if n == 0 {
        return Err(GitError::PktLineMalformed);
    }
    let ghost rv = refs_view(refs@);
    let ghost head = rv[0].0;
    let mut steps: Vec<PlanStep> = Vec::new();
    steps.push(PlanStep::MkDir { path: String::from_str(".git/") });
    let mut matched = false;
    let mut i: usize = 1;
    while i < n
        invariant
            1 <= i <= n,
            n == refs@.len(),
            rv == refs_view(refs@),
            head == rv[0].0,
            matched == exists|t: int| 1 <= t < i && #[trigger] rv[t].0 == head,
            plan_view(steps@) == seq![(PlanStepSpec::MkDir { path: ".git/"@ })]
                + ref_steps_from(rv, 1, head).take(
                ref_steps_from(rv, 1, head).len() - ref_steps_from(rv, i as int, head).len(),
            ),
            ref_steps_from(rv, 1, head) == plan_view(steps@).skip(1) + ref_steps_from(
                rv,
                i as int,
                head,
            ),
        decreases n - i,
    {
        let hash = &refs[i].0;
        let name = &refs[i].1;
        proof {
            assert(rv[i as int] == (refs@[i as int].0@, refs@[i as int].1@));
        }
        let ghost steps0 = plan_view(steps@);
        let is_head = hash.eq(&refs[0].0);
        if is_head {
            let mut hc = String::from_str("ref: ");
            hc.append(name.as_str());
            hc.append("\n");
            let data = hc.as_str().as_bytes_vec();
            steps.push(PlanStep::WriteFile { path: String::from_str(".git/HEAD"), data });
            matched = true;
        }
        let parent = match last_slash(name.as_str()) {
            None => String::from_str(".git"),
            Some(k) => {
                let mut p = String::from_str(".git/");
                p.append(name.as_str().substring_char(0, k));
                p
            },
        };
        proof {
            assert(parent@ == ref_parent_spec(rv[i as int].1));
        }
        steps.push(PlanStep::MkDir { path: parent });
        let mut rp = String::from_str(".git/");
        rp.append(name.as_str());
        let mut hl = hash.clone();
        hl.append("\n");
        let rdata = hl.as_str().as_bytes_vec();
        steps.push(PlanStep::WriteFile { path: rp, data: rdata });
        proof {
            assert(plan_view(steps@) =~= steps0 + ref_step_spec(
                head,
                rv[i as int].0,
                rv[i as int].1,
            ));
            assert(ref_steps_from(rv, i as int, head) == ref_step_spec(
                head,
                rv[i as int].0,
                rv[i as int].1,
            ) + ref_steps_from(rv, i + 1, head));
            assert(ref_steps_from(rv, 1, head) =~= plan_view(steps@).skip(1)
                + ref_steps_from(rv, i + 1, head));
            assert(plan_view(steps@) =~= seq![(PlanStepSpec::MkDir { path: ".git/"@ })]
                + ref_steps_from(rv, 1, head).take(
                ref_steps_from(rv, 1, head).len() - ref_steps_from(rv, i + 1, head).len(),
            ));
        }
        i = i + 1;
    }
    proof {
        assert(ref_steps_from(rv, n as int, head) =~= Seq::<PlanStepSpec>::empty());
        assert(ref_steps_from(rv, 1, head).take(ref_steps_from(rv, 1, head).len() as int)
            =~= ref_steps_from(rv, 1, head));
    }
    let ghost pre = plan_view(steps@);
    if !matched {
        let mut dh = refs[0].0.clone();
        dh.append("\n");
        let data = dh.as_str().as_bytes_vec();
        steps.push(PlanStep::WriteFile { path: String::from_str(".git/HEAD"), data });
        proof {
            assert(!some_ref_matches(rv, head));
            assert(plan_view(steps@) =~= pre + seq![
                (PlanStepSpec::WriteFile {
                    path: ".git/HEAD"@,
                    data: encode_utf8(head + "\n"@),
                }),
            ]);
            assert(plan_view(steps@) =~= write_refs_spec(rv)->Ok_0);
        }
    } else {
        proof {
            assert(some_ref_matches(rv, head));
            assert(pre + Seq::<PlanStepSpec>::empty() =~= pre);
            assert(plan_view(steps@) =~= write_refs_spec(rv)->Ok_0);
        }
    }
    Ok(steps)
}

/// The first object whose 40-hex id is `id`, if any.
pub open spec fn objects_find_spec(objs: Seq<UnpackedObjectSpec>, id: Seq<char>) -> Option<int>
    decreases objs.len(),
{
    if objs.len() == 0 {
        None
    } else if objs[0].hash == id {
        Some(0int)
    } else {
        match objects_find_spec(objs.drop_first(), id) {
            None => None,
            Some(i) => Some(i + 1),
        }
    }
}

/// `objects_find_spec` returns the first match, and `None` only when no
/// object has that id.
pub proof fn lemma_objects_find(objs: Seq<UnpackedObjectSpec>, id: Seq<char>)
    ensures
        match objects_find_spec(objs, id) {
            Some(i) => 0 <= i < objs.len() && objs[i].hash == id && forall|j: int|
                0 <= j < i ==> #[trigger] objs[j].hash != id,
            None => forall|j: int| 0 <= j < objs.len() ==> #[trigger] objs[j].hash != id,
        },
    decreases objs.len(),
{
    if objs.len() > 0 && objs[0].hash != id {
        lemma_objects_find(objs.drop_first(), id);
        assert forall|j: int| 1 <= j < objs.len() implies objs[j] == objs.drop_first()[j - 1]
        by {}
    }
}

/// A position whose object matches, with no earlier match, is exactly what
/// `objects_find_spec` returns.
proof fn lemma_objects_find_unique(objs: Seq<UnpackedObjectSpec>, id: Seq<char>, k: int)
    requires
        0 <= k < objs.len(),
        objs[k].hash == id,
        forall|j: int| 0 <= j < k ==> #[trigger] objs[j].hash != id,
    ensures
        objects_find_spec(objs, id) == Some(k),
{
    lemma_objects_find(objs, id);
    match objects_find_spec(objs, id) {
        None => {
            assert(objs[k].hash != id);
        },
        Some(i) => {
            if i < k {
                assert(objs[i].hash != id);
            } else if i > k {
                assert(objs[k].hash != id);
            }
        },
    }
}

/// Find the first object with this 40-hex id, matching `objects_find_spec`.
#[verifier::loop_isolation(false)]
fn objects_find(objs: &Vec<UnpackedObject>, id: &String) -> (r: Option<usize>)
    ensures
        match r {
            Some(j) => objects_find_spec(objects_view(objs@), id@) == Some(j as int) && j
                < objs@.len(),
            None => objects_find_spec(objects_view(objs@), id@) is None,
        },
{
    let ghost ov = objects_view(objs@);
    let mut t: usize = 0;
    while t < objs.len()
        invariant
            0 <= t <= objs@.len(),
            ov == objects_view(objs@),
            ov.len() == objs@.len(),
            forall|j: int| 0 <= j < t ==> #[trigger] ov[j].hash != id@,
        decreases objs@.len() - t,
    {
        proof {
            assert(ov[t as int] == objs@[t as int]@);
        }
        if objs[t].hash.eq(id) {
            proof {
                lemma_objects_find_unique(ov, id@, t as int);
            }
            return Some(t);
        }
        t = t + 1;
    }
    proof {
        lemma_objects_find(ov, id@);
        match objects_find_spec(ov, id@) {
            Some(k) => {
                assert(ov[k].hash != id@);
            },
            None => {},
        }
    }
    None
}

/// The hex id named on the `tree` line that must open a commit body.
pub open spec fn commit_tree_sha_spec(body: Seq<u8>) -> Result<Seq<u8>, GitError> {
    match find_byte_spec(body, 10) {
        None => Err(GitError::CommitParseError),
        Some(nl) => {
            let line = body.take(nl);
            match find_byte_spec(line, 32) {
                None => Err(GitError::CommitParseError),
                Some(sp) => if line.take(sp) == tree_kind_bytes() {
                    Ok(line.skip(sp + 1))
                } else {
                    Err(GitError::CommitParseError)
                },
            }
        },
    }
}

/// Pull the tree id out of a commit body, exactly as `commit_tree_sha_spec`
/// describes.
pub fn commit_tree_sha(body: &Vec<u8>) -> (r: Result<Vec<u8>, GitError>)
    ensures
        match r {
            Ok(v) => commit_tree_sha_spec(body@) == Ok::<Seq<u8>, GitError>(v@),
            Err(e) => commit_tree_sha_spec(body@) == Err::<Seq<u8>, GitError>(e),
        },
{
    let nl = match find_byte(body, 0, 10u8) {
        Some(nl) => nl,
        None => {
            proof {
                lemma_find_byte_none(body@, 10u8);
            }
            return Err(GitError::CommitParseError);
        },
    };
    proof {
        lemma_find_byte_unique(body@, 10u8, nl as int);
    }
    let ghost line_g = body@.take(nl as int);
    let sp = match find_byte(body, 0, 32u8) {
        Some(sp) if sp < nl => sp,
        _ => {
            proof {
                assert forall|j: int| 0 <= j < line_g.len() implies line_g[j] != 32 by {
                    assert(line_g[j] == body@[j]);
                }
                lemma_find_byte_none(line_g, 32u8);
            }
            return Err(GitError::CommitParseError);
        },
    };
    proof {
        assert(line_g[sp as int] == body@[sp as int]);
        assert forall|j: int| 0 <= j < sp implies line_g[j] != 32 by {
            assert(line_g[j] == body@[j]);
        }
        lemma_find_byte_unique(line_g, 32u8, sp as int);
    }
    let kind = vec_range(body, 0, sp);
    proof {
        assert(kind@ =~= line_g.take(sp as int));
    }
    if !(kind.len() == 4 && kind[0] == 116 && kind[1] == 114 && kind[2] == 101 && kind[3]
        == 101) {
        proof {
            assert(kind@ != tree_kind_bytes());
        }
        return Err(GitError::CommitParseError);
    }
    proof {
        assert(kind@ =~= tree_kind_bytes());
    }
    let sha = vec_range(body, sp + 1, nl);
    proof {
        assert(sha@ =~= line_g.skip(sp as int + 1));
    }
    Ok(sha)
}

/// What materializing the tree named `id` at `path` asks for: the
/// directory itself, then for each entry (whose name must be UTF-8 text to
/// become a path) either the blob's bytes written at `path/name` or a
/// recursive materialization of the subtree.  The fuel bounds the nesting
/// depth; a genuine tree never exhausts it.
pub open spec fn checkout_tree_spec(
    objs: Seq<UnpackedObjectSpec>,
    id: Seq<char>,
    path: Seq<char>,
    fuel: nat,
) -> Result<Seq<PlanStepSpec>, GitError>
    decreases fuel, 1nat, 0nat,
{
    match objects_find_spec(objs, id) {
        None => Err(GitError::ObjectNotFound),
        Some(oi) => if objs[oi].obj_type == tree_kind_bytes() {
            match parse_tree_entries_spec(objs[oi].contents) {
                Err(e) => Err(e),
                Ok(es) => match checkout_entries_spec(objs, es, 0, path, fuel) {
                    Err(e) => Err(e),
                    Ok(steps) => Ok(seq![(PlanStepSpec::MkDir { path })] + steps),
                },
            }
        } else {
            Err(GitError::TreeParseError)
        },
    }
}

/// The steps for tree entries from index `k` on.
pub open spec fn checkout_entries_spec(
    objs: Seq<UnpackedObjectSpec>,
    es: Seq<TreeEntrySpec>,
    k: int,
    path: Seq<char>,
    fuel: nat,
) -> Result<Seq<PlanStepSpec>, GitError>
    decreases fuel, 0nat, es.len() - k,
{
    if k < 0 || k >= es.len() {
        Ok(Seq::empty())
    } else {
        let e = es[k];
        if !valid_utf8(e.name) {
            Err(GitError::Utf8Invalid)
        } else {
            let child_path = path + "/"@ + vstd::utf8::decode_utf8(e.name);
            let child_id = ascii_chars_of(hex_bytes_of(e.sha));
            match objects_find_spec(objs, child_id) {
                None => Err(GitError::ObjectNotFound),
                Some(ci) => if objs[ci].obj_type == tree_kind_bytes() {
                    if fuel == 0 {
                        Err(GitError::TreeParseError)
                    } else {
                        match checkout_tree_spec(objs, child_id, child_path, (fuel - 1) as nat) {
                            Err(e2) => Err(e2),
                            Ok(sub) => match checkout_entries_spec(objs, es, k + 1, path, fuel) {
                                Err(e2) => Err(e2),
                                Ok(rest) => Ok(sub + rest),
                            },
                        }
                    }
                } else if objs[ci].obj_type == crate::codec::blob_kind_bytes() {
                    match checkout_entries_spec(objs, es, k + 1, path, fuel) {
                        Err(e2) => Err(e2),
                        Ok(rest) => Ok(
                            seq![
                                (PlanStepSpec::WriteFile {
                                    path: child_path,
                                    data: objs[ci].contents,
                                }),
                            ] + rest,
                        ),
                    }
                } else {
                    Err(GitError::TreeParseError)
                },
            }
        }
    }
}

/// Materialize the tree named `id` at `path`, exactly as
/// `checkout_tree_spec` describes.
#[verifier::loop_isolation(false)]
#[verifier::rlimit(100)]
pub fn checkout_tree(objs: &Vec<UnpackedObject>, id: &String, path: &String, fuel: usize) -> (r:
    Result<Vec<PlanStep>, GitError>)
    ensures
        match r {
            Ok(steps) => checkout_tree_spec(objects_view(objs@), id@, path@, fuel as nat) == Ok::<
                Seq<PlanStepSpec>,
                GitError,
            >(plan_view(steps@)),
            Err(e) => checkout_tree_spec(objects_view(objs@), id@, path@, fuel as nat) == Err::<
                Seq<PlanStepSpec>,
                GitError,
            >(e),
        },
    decreases fuel,
{
    let ghost ov = objects_view(objs@);
    let oi = match objects_find(objs, id) {
        Some(oi) => oi,
        None => {
            return Err(GitError::ObjectNotFound);
        },
    };
    proof {
        assert(ov[oi as int] == objs@[oi as int]@);
    }
    let is_tree = {
        let ot = &objs[oi].obj_type;
        ot.len() == 4 && ot[0] == 116 && ot[1] == 114 && ot[2] == 101 && ot[3] == 101
    };
    if !is_tree {
        proof {
            assert(ov[oi as int].obj_type != tree_kind_bytes());
        }
        return Err(GitError::TreeParseError);
    }
    proof {
        assert(ov[oi as int].obj_type =~= tree_kind_bytes());
    }
    let entries = match parse_tree_entries(&objs[oi].contents) {
        Ok(entries) => entries,
        Err(e) => {
            return Err(e);
        },
    };
    let ghost es = entries_view(entries@);
    let mut steps: Vec<PlanStep> = Vec::new();
    steps.push(PlanStep::MkDir { path: path.clone() });
    let n = entries.len();
    let mut k: usize = 0;
    while k < n
        invariant
            0 <= k <= n,
            n == entries@.len(),
            es == entries_view(entries@),
            es.len() == entries@.len(),
            ov == objects_view(objs@),
            plan_view(steps@).len() >= 1,
            plan_view(steps@)[0] == (PlanStepSpec::MkDir { path: path@ }),
            match checkout_entries_spec(ov, es, k as int, path@, fuel as nat) {
                Ok(rest) => checkout_entries_spec(ov, es, 0, path@, fuel as nat) == Ok::<
                    Seq<PlanStepSpec>,
                    GitError,
                >(plan_view(steps@).skip(1) + rest),
                Err(e) => checkout_entries_spec(ov, es, 0, path@, fuel as nat) == Err::<
                    Seq<PlanStepSpec>,
                    GitError,
                >(e),
            },
        decreases n - k,
    {
        proof {
            assert(es[k as int] == entries@[k as int]@);
        }
        let e = &entries[k];
        let name_s = match utf8_to_string(clone_bytes(&e.name)) {
            Ok(sx) => sx,
            Err(err) => {
                return Err(err);
            },
        };
        proof {
            vstd::utf8::encode_utf8_decode_utf8(name_s@);
            assert(vstd::utf8::decode_utf8(es[k as int].name) == name_s@);
        }
        let mut child_path = path.clone();
        child_path.append("/");
        child_path.append(name_s.as_str());
        let hexid = hex_encode(&e.sha);
        proof {
            lemma_hex_bytes_shape(e.sha@);
        }
        let child_id = ascii_to_string(hexid);
        let ci = match objects_find(objs, &child_id) {
            Some(ci) => ci,
            None => {
                return Err(GitError::ObjectNotFound);
            },
        };
        proof {
            assert(ov[ci as int] == objs@[ci as int]@);
        }
        let kind_tag = &objs[ci].obj_type;
        let is_tree_child = kind_tag.len() == 4 && kind_tag[0] == 116 && kind_tag[1] == 114
            && kind_tag[2] == 101 && kind_tag[3] == 101;
        let is_blob_child = kind_tag.len() == 4 && kind_tag[0] == 98 && kind_tag[1] == 108
            && kind_tag[2] == 111 && kind_tag[3] == 98;
        let ghost steps0 = plan_view(steps@);
        if is_tree_child {
            proof {
                assert(ov[ci as int].obj_type =~= tree_kind_bytes());
            }
            if fuel == 0 {
                return Err(GitError::TreeParseError);
            }
            match checkout_tree(objs, &child_id, &child_path, fuel - 1) {
                Err(e2) => {
                    return Err(e2);
                },
                Ok(sub) => {
                    let mut sub_mut = sub;
                    steps.append(&mut sub_mut);
                    proof {
                        assert(plan_view(steps@) =~= steps0 + checkout_tree_spec(
                            ov,
                            child_id@,
                            child_path@,
                            (fuel - 1) as nat,
                        )->Ok_0);
                        match checkout_entries_spec(ov, es, k + 1, path@, fuel as nat) {
                            Ok(rest) => {
                                assert(plan_view(steps@).skip(1) + rest =~= steps0.skip(1) + (
                                checkout_tree_spec(
                                    ov,
                                    child_id@,
                                    child_path@,
                                    (fuel - 1) as nat,
                                )->Ok_0 + rest));
                            },
                            Err(_e2) => {},
                        }
                    }
                },
            }
        } else if is_blob_child {
            proof {
                assert(ov[ci as int].obj_type =~= crate::codec::blob_kind_bytes());
                assert(ov[ci as int].obj_type != tree_kind_bytes());
            }
            let data = clone_bytes(&objs[ci].contents);
            steps.push(PlanStep::WriteFile { path: child_path, data });
            proof {
                assert(plan_view(steps@) =~= steps0 + seq![
                    (PlanStepSpec::WriteFile {
                        path: path@ + "/"@ + vstd::utf8::decode_utf8(es[k as int].name),
                        data: ov[ci as int].contents,
                    }),
                ]);
                match checkout_entries_spec(ov, es, k + 1, path@, fuel as nat) {
                    Ok(rest) => {
                        assert(plan_view(steps@).skip(1) + rest =~= steps0.skip(1) + (seq![
                            (PlanStepSpec::WriteFile {
                                path: path@ + "/"@ + vstd::utf8::decode_utf8(es[k as int].name),
                                data: ov[ci as int].contents,
                            }),
                        ] + rest));
                    },
                    Err(_e2) => {},
                }
            }
        } else {
            proof {
                assert(ov[ci as int].obj_type != tree_kind_bytes());
                assert(ov[ci as int].obj_type != crate::codec::blob_kind_bytes());
            }
            return Err(GitError::TreeParseError);
        }
        k = k + 1;
    }
    proof {
        assert(checkout_entries_spec(ov, es, n as int, path@, fuel as nat) == Ok::<
            Seq<PlanStepSpec>,
            GitError,
        >(Seq::empty()));
        assert(plan_view(steps@).skip(1) + Seq::<PlanStepSpec>::empty() =~= plan_view(
            steps@,
        ).skip(1));
        assert(plan_view(steps@) =~= seq![(PlanStepSpec::MkDir { path: path@ })] + plan_view(
            steps@,
        ).skip(1));
    }
    Ok(steps)
}

/// What checking out a commit asks for: the commit named by `head_sha` is
/// looked up, the tree on its first line is materialized at `.`, and the
/// nesting depth is bounded by the number of objects at hand.
pub open spec fn checkout_head_spec(objs: Seq<UnpackedObjectSpec>, head_sha: Seq<char>) -> Result<
    Seq<PlanStepSpec>,
    GitError,
> {
    match objects_find_spec(objs, head_sha) {
        None => Err(GitError::ObjectNotFound),
        Some(oi) => match commit_tree_sha_spec(objs[oi].contents) {
            Err(e) => Err(e),
            Ok(tree_hex) => checkout_tree_spec(
                objs,
                ascii_chars_of(tree_hex),
                "."@,
                objs.len(),
            ),
        },
    }
}

/// Plan the checkout of the commit named by `head_sha` from the unpacked
/// objects, exactly as `checkout_head_spec` describes.
pub fn checkout_head(objs: &Vec<UnpackedObject>, head_sha: &String) -> (r: Result<
    Vec<PlanStep>,
    GitError,
>)
    ensures
        match r {
            Ok(steps) => checkout_head_spec(objects_view(objs@), head_sha@) == Ok::<
                Seq<PlanStepSpec>,
                GitError,
            >(plan_view(steps@)),
            Err(e) => checkout_head_spec(objects_view(objs@), head_sha@) == Err::<
                Seq<PlanStepSpec>,
                GitError,
            >(e),
        },
{
    let ghost ov = objects_view(objs@);
    let oi = match objects_find(objs, head_sha) {
        Some(oi) => oi,
        None => {
            return Err(GitError::ObjectNotFound);
        },
    };
    proof {
        assert(ov[oi as int] == objs@[oi as int]@);
    }
    let tree_hex = match commit_tree_sha(&objs[oi].contents) {
        Ok(v) => v,
        Err(e) => {
            return Err(e);
        },
    };
    let tree_id = crate::strconv::bytes_to_chars_string(&tree_hex);
    let dot = String::from_str(".");
    checkout_tree(objs, &tree_id, &dot, objs.len())
}

/// The configuration text recorded after a clone: core flags, the origin
/// remote with its fetch spec, and the branch that `HEAD` names.
pub open spec fn config_text_spec(url: Seq<char>, branch: Seq<char>, head_ref: Seq<char>)
    -> Seq<char> {
    "[core]\n\trepositoryformatversion = 0\n\tfilemode = true\n\tbare = false\n\tlogallrefupdates = true\n[remote \"origin\"]\n\turl = "@
        + url + "\n\tfetch = +refs/heads/*:refs/remotes/origin/*\n[branch \""@ + branch
        + "\"]\n\tremote = origin\n\tmerge = "@ + head_ref + "\n"@
}

/// Render the configuration text, exactly as `config_text_spec` describes.
pub fn format_config(repo_url: &str, branch: &str, head_ref: &str) -> (r: String)
    ensures
        r@ == config_text_spec(repo_url@, branch@, head_ref@),
{
    let mut out = String::from_str(
        "[core]\n\trepositoryformatversion = 0\n\tfilemode = true\n\tbare = false\n\tlogallrefupdates = true\n[remote \"origin\"]\n\turl = ",
    );
    out.append(repo_url);
    out.append("\n\tfetch = +refs/heads/*:refs/remotes/origin/*\n[branch \"");
    out.append(branch);
    out.append("\"]\n\tremote = origin\n\tmerge = ");
    out.append(head_ref);
    out.append("\n");
    out
}

/// What the configuration for `repo_url` is, given the `HEAD` contents: a
/// symbolic `HEAD` yields the text for its branch (the name after the last
/// slash); a detached or invalid `HEAD` has no branch to record.
pub open spec fn write_config_spec(url: Seq<char>, head: Seq<char>) -> Result<
    Seq<char>,
    GitError,
> {
    match head_ref_spec(head) {
        Err(e) => Err(e),
        Ok(HeadRefSpec::Sha(_s)) => Err(GitError::HeadInvalid),
        Ok(HeadRefSpec::Ref(name)) => match last_slash_spec(name) {
            None => Err(GitError::HeadInvalid),
            Some(i) => Ok(config_text_spec(url, name.skip(i + 1), name)),
        },
    }
}

/// Build the configuration contents for a freshly cloned repository,
/// exactly as `write_config_spec` describes.
pub fn write_config(repo_url: &str, head: &str) -> (r: Result<String, GitError>)
    ensures
        match r {
            Ok(s) => write_config_spec(repo_url@, head@) == Ok::<Seq<char>, GitError>(s@),
            Err(e) => write_config_spec(repo_url@, head@) == Err::<Seq<char>, GitError>(e),
        },
{
    let href = match get_head_ref(head) {
        Ok(h) => h,
        Err(e) => {
            return Err(e);
        },
    };
    match href {
        HeadRef::Sha(_s) => Err(GitError::HeadInvalid),
        HeadRef::Ref(name) => {
            let n = name.as_str().unicode_len();
            match last_slash(name.as_str()) {
                None => Err(GitError::HeadInvalid),
                Some(i) => {
                    let branch = name.as_str().substring_char(i + 1, n);
                    Ok(format_config(repo_url, branch, name.as_str()))
                },
            }
        },
    }
}

/// The staging area is not kept; staging a tree asks for nothing.
pub fn stage_tree() -> (r: Result<(), GitError>)
    ensures
        r is Ok,
{
    Ok(())
}

/// The name of the last advertised ref (after the first entry) sharing the
/// head id — the branch the applied ref plan leaves `HEAD` pointing at.
pub open spec fn last_match_name(refs: Seq<(Seq<char>, Seq<char>)>, head: Seq<char>) -> Option<
    Seq<char>,
>
    decreases refs.len(),
{
    if refs.len() <= 1 {
        None
    } else if refs.last().0 == head {
        Some(refs.last().1)
    } else {
        last_match_name(refs.drop_last(), head)
    }
}

/// `last_match_name` finds the final matching ref; `None` means no ref
/// after the first matches.
pub proof fn lemma_last_match(refs: Seq<(Seq<char>, Seq<char>)>, head: Seq<char>)
    ensures
        match last_match_name(refs, head) {
            Some(nm) => exists|i: int|
                1 <= i < refs.len() && #[trigger] refs[i].0 == head && refs[i].1 == nm,
            None => forall|i: int| 1 <= i < refs.len() ==> #[trigger] refs[i].0 != head,
        },
    decreases refs.len(),
{
    if refs.len() > 1 && refs.last().0 != head {
        lemma_last_match(refs.drop_last(), head);
        match last_match_name(refs.drop_last(), head) {
            Some(_nm) => {
                let i = choose|i: int|
                    1 <= i < refs.drop_last().len() && #[trigger] refs.drop_last()[i].0 == head
                        && refs.drop_last()[i].1 == last_match_name(refs.drop_last(), head)
                        ->Some_0;
                assert(refs[i] == refs.drop_last()[i]);
            },
            None => {
                assert forall|i: int| 1 <= i < refs.len() implies #[trigger] refs[i].0 != head
                by {
                    if i < refs.len() - 1 {
                        assert(refs.drop_last()[i] == refs[i]);
                    }
                }
            },
        }
    }
}

/// Find the last advertised ref sharing the head id, exactly as
/// `last_match_name` describes.
#[verifier::loop_isolation(false)]
pub fn find_last_match(refs: &Vec<(String, String)>) -> (r: Option<String>)
    requires
        refs@.len() >= 1,
    ensures
        match r {
            Some(nm) => last_match_name(refs_view(refs@), refs@[0].0@) == Some(nm@),
            None => last_match_name(refs_view(refs@), refs@[0].0@) is None,
        },
{
    let ghost rv = refs_view(refs@);
    let ghost head = rv[0].0;
    let n = refs.len();
    let mut i: usize = n;
    proof {
        assert(rv.take(n as int) =~= rv);
    }
    while i > 1
        invariant
            1 <= i <= n,
            n == refs@.len(),
            rv == refs_view(refs@),
            rv.len() == refs@.len(),
            head == rv[0].0,
            last_match_name(rv, head) == last_match_name(rv.take(i as int), head),
        decreases i,
    {
        i = i - 1;
        proof {
            assert(rv[i as int] == (refs@[i as int].0@, refs@[i as int].1@));
        }
        if refs[i].0.eq(&refs[0].0) {
            proof {
                assert(rv.take(i + 1).last() == rv[i as int]);
                assert(last_match_name(rv.take(i + 1), head) == Some(rv[i as int].1));
            }
            return Some(refs[i].1.clone());
        }
        proof {
            assert(rv.take(i + 1).last() == rv[i as int]);
            assert(rv.take(i + 1).drop_last() =~= rv.take(i as int));
        }
    }
    proof {
        assert(rv.take(1).len() <= 1);
    }
    None
}

} // verus!
