use vstd::prelude::*;
use crate::codec::{add_data_prefix, blob_kind_bytes, kind_blob, kind_tree, wrap_spec};
use crate::digest::{sha1_bytes, sha1_of};
use crate::hexrep::{hex_bytes_of, hex_encode, lemma_hex_bytes_shape};
use crate::repopath::{write_data, writes_view, ObjectWrite, ObjectWriteSpec};
use crate::strconv::{ascii_chars_of, ascii_to_string};
use crate::treeobj::{clone_bytes, entries_view, serialize_tree, serialize_tree_spec,
    tree_kind_bytes, TreeEntry, TreeEntrySpec};
use crate::zcomp::zlib_deflate;

verus! {

/// A directory child handed in by the caller: a file's bytes, or a
/// subdirectory with its own children.
pub enum DirEntry {
    File { name: Vec<u8>, data: Vec<u8> },
    Dir { name: Vec<u8>, entries: Vec<DirEntry> },
}

/// The ASCII mode for a regular file.
pub open spec fn blob_mode_bytes() -> Seq<u8> {
    seq![49u8, 48u8, 48u8, 54u8, 52u8, 52u8]
}

/// The ASCII mode for a directory, with no leading zero.
pub open spec fn dir_mode_bytes() -> Seq<u8> {
    seq![52u8, 48u8, 48u8, 48u8, 48u8]
}

/// The `100644` mode as bytes.
fn mode_blob() -> (r: Vec<u8>)
    ensures
        r@ == blob_mode_bytes(),
{
    let mut v: Vec<u8> = Vec::new();
    v.push(49u8);
    v.push(48u8);
    v.push(48u8);
    v.push(54u8);
    v.push(52u8);
    v.push(52u8);
    proof {
        assert(v@ =~= blob_mode_bytes());
    }
    v
}

/// The `40000` mode as bytes.
fn mode_dir() -> (r: Vec<u8>)
    ensures
        r@ == dir_mode_bytes(),
{
    let mut v: Vec<u8> = Vec::new();
    v.push(52u8);
    v.push(48u8);
    v.push(48u8);
    v.push(48u8);
    v.push(48u8);
    proof {
        assert(v@ =~= dir_mode_bytes());
    }
    v
}

/// Byte-wise lexicographic order, shorter prefixes first.
pub open spec fn lex_le(a: Seq<u8>, b: Seq<u8>) -> bool
    decreases a.len(),
{
    if a.len() == 0 {
        true
    } else if b.len() == 0 {
        false
    } else if a[0] < b[0] {
        true
    } else if a[0] > b[0] {
        false
    } else {
        lex_le(a.drop_first(), b.drop_first())
    }
}

/// Compare two names, exactly as `lex_le` orders them.
fn lex_le_exec(a: &Vec<u8>, b: &Vec<u8>) -> (r: bool)
    ensures
        r == lex_le(a@, b@),
{
    let mut i: usize = 0;
    proof {
        assert(a@.skip(0) =~= a@);
        assert(b@.skip(0) =~= b@);
    }
    loop
        invariant
            0 <= i <= a@.len(),
            i <= b@.len(),
            lex_le(a@, b@) == lex_le(a@.skip(i as int), b@.skip(i as int)),
        decreases a@.len() - i,
    {
        if i >= a.len() {
            proof {
                assert(a@.skip(i as int).len() == 0);
            }
            return true;
        }
        if i >= b.len() {
            proof {
                assert(b@.skip(i as int).len() == 0);
                assert(a@.skip(i as int).len() > 0);
            }
            return false;
        }
        let x = a[i];
        let y = b[i];
        proof {
            assert(a@.skip(i as int)[0] == a@[i as int]);
            assert(b@.skip(i as int)[0] == b@[i as int]);
            assert(a@.skip(i as int).drop_first() =~= a@.skip(i + 1));
            assert(b@.skip(i as int).drop_first() =~= b@.skip(i + 1));
        }
        if x < y {
            return true;
        }
        if x > y {
            return false;
        }
        i = i + 1;
    }
}

/// The key an entry sorts by: a directory compares as if its name carried
/// a trailing slash, the canonical tree order.
pub open spec fn sort_key(e: TreeEntrySpec) -> Seq<u8> {
    if e.mode == dir_mode_bytes() {
        e.name + seq![47u8]
    } else {
        e.name
    }
}

/// Insertion into a run of entries: the new entry lands before the first
/// entry whose sort key is not smaller.
pub open spec fn insert_by_name(e: TreeEntrySpec, s: Seq<TreeEntrySpec>) -> Seq<TreeEntrySpec>
    decreases s.len(),
{
    if s.len() == 0 {
        seq![e]
    } else if lex_le(sort_key(e), sort_key(s[0])) {
        seq![e] + s
    } else {
        seq![s[0]] + insert_by_name(e, s.drop_first())
    }
}

/// Insertion sort in canonical tree order.
pub open spec fn sort_tree_entries(s: Seq<TreeEntrySpec>) -> Seq<TreeEntrySpec>
    decreases s.len(),
{
    if s.len() == 0 {
        Seq::empty()
    } else {
        insert_by_name(s[0], sort_tree_entries(s.drop_first()))
    }
}

/// Inserting at the position of the first not-smaller entry is what
/// `insert_by_name` does.
proof fn lemma_insert_at(e: TreeEntrySpec, s: Seq<TreeEntrySpec>, p: int)
    requires
        0 <= p <= s.len(),
        forall|j: int| 0 <= j < p ==> !lex_le(sort_key(e), sort_key(#[trigger] s[j])),
        p < s.len() ==> lex_le(sort_key(e), sort_key(s[p])),
    ensures
        insert_by_name(e, s) == s.take(p) + seq![e] + s.skip(p),
    decreases p,
{
    if p == 0 {
        if s.len() == 0 {
            assert(insert_by_name(e, s) =~= s.take(0) + seq![e] + s.skip(0));
        } else {
            assert(insert_by_name(e, s) =~= s.take(0) + seq![e] + s.skip(0));
        }
    } else {
        assert(!lex_le(sort_key(e), sort_key(s[0])));
        lemma_insert_at(e, s.drop_first(), p - 1);
        assert(s.drop_first().take(p - 1) =~= s.skip(1).take(p - 1));
        assert(insert_by_name(e, s) == seq![s[0]] + insert_by_name(e, s.drop_first()));
        assert(seq![s[0]] + (s.drop_first().take(p - 1) + seq![e] + s.drop_first().skip(p - 1))
            =~= s.take(p) + seq![e] + s.skip(p));
    }
}

/// The sort key of an entry, as fresh bytes.
fn entry_sort_key(e: &TreeEntry) -> (r: Vec<u8>)
    ensures
        r@ == sort_key(e@),
{
    let mut k = clone_bytes(&e.name);
    let m = &e.mode;
    let is_dir = m.len() == 5 && m[0] == 52 && m[1] == 48 && m[2] == 48 && m[3] == 48 && m[4]
        == 48;
    if is_dir {
        proof {
            assert(e.mode@ =~= dir_mode_bytes());
        }
        k.push(47u8);
        proof {
            assert(k@ =~= sort_key(e@));
        }
    } else {
        proof {
            assert(e.mode@ != dir_mode_bytes());
        }
    }
    k
}

/// Insert an entry into a run of entries, exactly as `insert_by_name`
/// describes.
#[verifier::loop_isolation(false)]
fn insert_entry(out: &mut Vec<TreeEntry>, e: TreeEntry)
    ensures
        entries_view(final(out)@) == insert_by_name(e@, entries_view(old(out)@)),
{
    let ghost s = entries_view(out@);
    let ekey = entry_sort_key(&e);
    let n = out.len();
    let mut p: usize = 0;
    while p < n
        invariant
            0 <= p <= n,
            n == out@.len(),
            s == entries_view(out@),
            s.len() == out@.len(),
            ekey@ == sort_key(e@),
            forall|j: int| 0 <= j < p ==> !lex_le(sort_key(e@), sort_key(#[trigger] s[j])),
        decreases n - p,
    {
        proof {
            assert(s[p as int] == out@[p as int]@);
        }
        let pkey = entry_sort_key(&out[p]);
        let le = lex_le_exec(&ekey, &pkey);
        if le {
            proof {
                lemma_insert_at(e@, s, p as int);
            }
            out.insert(p, e);
            proof {
                assert(entries_view(out@) =~= s.take(p as int) + seq![e@] + s.skip(p as int));
            }
            return ;
        }
        p = p + 1;
    }
    proof {
        lemma_insert_at(e@, s, n as int);
    }
    out.push(e);
    proof {
        assert(s.take(n as int) =~= s);
        assert(s.skip(n as int) =~= Seq::<TreeEntrySpec>::empty());
        assert(entries_view(out@) =~= s.take(n as int) + seq![e@] + s.skip(n as int));
    }
}

/// Sort entries by name, exactly as `sort_tree_entries` describes.
#[verifier::loop_isolation(false)]
fn sort_entries_exec(v: Vec<TreeEntry>) -> (r: Vec<TreeEntry>)
    ensures
        entries_view(r@) == sort_tree_entries(entries_view(v@)),
{
    let ghost sv = entries_view(v@);
    let mut rest = v;
    let mut acc: Vec<TreeEntry> = Vec::new();
    proof {
        assert(sv.skip(sv.len() as int) =~= Seq::<TreeEntrySpec>::empty());
        assert(entries_view(acc@) =~= sort_tree_entries(sv.skip(sv.len() as int)));
    }
    while rest.len() > 0
        invariant
            rest@.len() <= sv.len(),
            entries_view(rest@) == sv.take(rest@.len() as int),
            entries_view(acc@) == sort_tree_entries(sv.skip(rest@.len() as int)),
        decreases rest@.len(),
    {
        let ghost m = rest@.len() as int;
        let ghost rv0 = rest@;
        let e = match rest.pop() {
            Some(e) => e,
            None => {
                proof {
                    assert(false);
                }
                return acc;
            },
        };
        proof {
            assert(entries_view(rest@) =~= sv.take(m - 1));
            assert(e == rv0[m - 1]);
            assert(entries_view(rv0)[m - 1] == rv0[m - 1]@);
            assert(sv.take(m)[m - 1] == sv[m - 1]);
            assert(e@ == sv[m - 1]);
        }
        insert_entry(&mut acc, e);
        proof {
            assert(sv.skip(m - 1)[0] == sv[m - 1]);
            assert(sv.skip(m - 1).drop_first() =~= sv.skip(m));
            assert(sort_tree_entries(sv.skip(m - 1)) == insert_by_name(
                sv[m - 1],
                sort_tree_entries(sv.skip(m)),
            ));
        }
    }
    proof {
        assert(sv.take(0) =~= Seq::<TreeEntrySpec>::empty());
        assert(sv.skip(0) =~= sv);
    }
    acc
}

/// The stored form of a wrapped payload: its 40-hex name and compressed
/// bytes.
pub open spec fn obj_write_spec(payload: Seq<u8>) -> ObjectWriteSpec {
    ObjectWriteSpec {
        hash: ascii_chars_of(hex_bytes_of(sha1_of(payload))),
        zdata: zlib_deflate(payload),
    }
}

/// The objects written for one child, bottom up: a file is one blob; a
/// directory is its children's objects followed by its own tree object.
pub open spec fn entry_obj_writes(e: &DirEntry) -> Seq<ObjectWriteSpec>
    decreases e,
{
    match e {
        DirEntry::File { name: _, data } => seq![
            obj_write_spec(wrap_spec(blob_kind_bytes(), data@)),
        ],
        DirEntry::Dir { name: _, entries } => level_writes(entries@, 0) + seq![
            obj_write_spec(wrap_spec(tree_kind_bytes(), level_body(entries@))),
        ],
    }
}

/// The tree entry a child contributes to its parent: file mode or
/// directory mode, the raw name, and the SHA-1 of the child's object.
pub open spec fn entry_tree_entry(e: &DirEntry) -> TreeEntrySpec
    decreases e,
{
    match e {
        DirEntry::File { name, data } => TreeEntrySpec {
            mode: blob_mode_bytes(),
            name: name@,
            sha: sha1_of(wrap_spec(blob_kind_bytes(), data@)),
        },
        DirEntry::Dir { name, entries } => TreeEntrySpec {
            mode: dir_mode_bytes(),
            name: name@,
            sha: sha1_of(wrap_spec(tree_kind_bytes(), level_body(entries@))),
        },
    }
}

/// The objects written for the children from index `k` on.
pub open spec fn level_writes(v: Seq<DirEntry>, k: int) -> Seq<ObjectWriteSpec>
    decreases v, v.len() - k,
{
    if k < 0 || k >= v.len() {
        Seq::empty()
    } else {
        entry_obj_writes(&v[k]) + level_writes(v, k + 1)
    }
}

/// The tree entries the children from index `k` on contribute.
pub open spec fn level_entries(v: Seq<DirEntry>, k: int) -> Seq<TreeEntrySpec>
    decreases v, v.len() - k,
{
    if k < 0 || k >= v.len() {
        Seq::empty()
    } else {
        seq![entry_tree_entry(&v[k])] + level_entries(v, k + 1)
    }
}

/// A directory's tree body: its children's entries sorted by raw name
/// bytes, serialized.
pub open spec fn level_body(v: Seq<DirEntry>) -> Seq<u8>
    decreases v, v.len() + 1,
{
    serialize_tree_spec(sort_tree_entries(level_entries(v, 0)))
}

/// Build the blob and tree objects for one directory level, appending
/// them to `out` bottom up, and return the raw id of the level's tree.
#[verifier::loop_isolation(false)]
#[verifier::rlimit(100)]
fn write_tree_level(entries: &Vec<DirEntry>, out: &mut Vec<ObjectWrite>) -> (r: Vec<u8>)
    ensures
        writes_view(final(out)@) == writes_view(old(out)@) + level_writes(entries@, 0) + seq![
            obj_write_spec(wrap_spec(tree_kind_bytes(), level_body(entries@))),
        ],
        r@ == sha1_of(wrap_spec(tree_kind_bytes(), level_body(entries@))),
        r@.len() == 20,
    decreases entries,
{
    let n = entries.len();
    let mut tes: Vec<TreeEntry> = Vec::new();
    let mut k: usize = 0;
    proof {
        assert(entries_view(tes@) =~= Seq::<TreeEntrySpec>::empty());
        assert(writes_view(out@) =~= writes_view(old(out)@));
    }
    while k < n
        invariant
            0 <= k <= n,
            n == entries@.len(),
            writes_view(out@) == writes_view(old(out)@) + level_writes(entries@, 0).take(
                level_writes(entries@, 0).len() - level_writes(entries@, k as int).len(),
            ),
            level_writes(entries@, 0) == writes_view(out@).skip(
                writes_view(old(out)@).len() as int,
            ) + level_writes(entries@, k as int),
            entries_view(tes@) == level_entries(entries@, 0).take(k as int),
        decreases n - k,
    {
        let ghost w0 = writes_view(out@);
        let ghost t0 = entries_view(tes@);
        match &entries[k] {
            DirEntry::File { name, data } => {
                let text = add_data_prefix(kind_blob().as_slice(), clone_bytes(data));
                let id = sha1_bytes(text.as_slice());
                let ow = write_data(text);
                out.push(ow);
                tes.push(TreeEntry { mode: mode_blob(), name: clone_bytes(name), sha: id });
                proof {
                    assert(entry_obj_writes(&entries@[k as int]) =~= seq![
                        obj_write_spec(wrap_spec(blob_kind_bytes(), data@)),
                    ]);
                    assert(writes_view(out@) =~= w0 + entry_obj_writes(&entries@[k as int]));
                    assert(entries_view(tes@) =~= t0 + seq![entry_tree_entry(&entries@[k as int])]);
                }
            },
            DirEntry::Dir { name, entries: sub } => {
                let id = write_tree_level(sub, out);
                tes.push(TreeEntry { mode: mode_dir(), name: clone_bytes(name), sha: id });
                proof {
                    assert(writes_view(out@) =~= w0 + entry_obj_writes(&entries@[k as int]));
                    assert(entries_view(tes@) =~= t0 + seq![entry_tree_entry(&entries@[k as int])]);
                }
            },
        }
        proof {
            assert(level_writes(entries@, k as int) == entry_obj_writes(&entries@[k as int])
                + level_writes(entries@, k + 1));
            assert(level_writes(entries@, 0) =~= writes_view(out@).skip(
                writes_view(old(out)@).len() as int,
            ) + level_writes(entries@, k + 1));
            assert(writes_view(out@) =~= writes_view(old(out)@) + level_writes(entries@, 0).take(
                level_writes(entries@, 0).len() - level_writes(entries@, k + 1).len(),
            ));
            assert(level_entries(entries@, k as int) == seq![entry_tree_entry(&entries@[k as int])]
                + level_entries(entries@, k + 1));
            lemma_level_entries_index(entries@, k as int);
            assert(level_entries(entries@, 0).take(k + 1) =~= level_entries(entries@, 0).take(
                k as int,
            ) + seq![level_entries(entries@, 0)[k as int]]);
            assert(entries_view(tes@) =~= level_entries(entries@, 0).take(k + 1));
        }
        k = k + 1;
    }
    proof {
        assert(level_writes(entries@, n as int) =~= Seq::<ObjectWriteSpec>::empty());
        assert(level_entries(entries@, 0).take(n as int) =~= level_entries(entries@, 0)) by {
            lemma_level_entries_len(entries@, 0);
        }
        assert(entries_view(tes@) == level_entries(entries@, 0));
        assert(writes_view(out@).skip(writes_view(old(out)@).len() as int)
            + Seq::<ObjectWriteSpec>::empty() =~= writes_view(out@).skip(
            writes_view(old(out)@).len() as int,
        ));
    }
    let sorted = sort_entries_exec(tes);
    let body = serialize_tree(&sorted);
    proof {
        assert(body@ == level_body(entries@));
    }
    let text = add_data_prefix(kind_tree().as_slice(), body);
    let id = sha1_bytes(text.as_slice());
    let ow = write_data(text);
    let ghost wfin = writes_view(out@);
    out.push(ow);
    proof {
        assert(writes_view(out@) =~= wfin + seq![
            obj_write_spec(wrap_spec(tree_kind_bytes(), level_body(entries@))),
        ]);
        assert(writes_view(out@) =~= writes_view(old(out)@) + level_writes(entries@, 0) + seq![
            obj_write_spec(wrap_spec(tree_kind_bytes(), level_body(entries@))),
        ]);
    }
    id
}

/// `level_entries` from zero has one entry per child, in order.
proof fn lemma_level_entries_index(v: Seq<DirEntry>, k: int)
    requires
        0 <= k < v.len(),
    ensures
        level_entries(v, 0).len() == v.len(),
        level_entries(v, 0)[k] == entry_tree_entry(&v[k]),
{
    lemma_level_entries_len(v, 0);
    lemma_level_entries_get(v, 0, k);
}

/// The length of `level_entries` from index `i`.
proof fn lemma_level_entries_len(v: Seq<DirEntry>, i: int)
    requires
        0 <= i <= v.len(),
    ensures
        level_entries(v, i).len() == v.len() - i,
    decreases v.len() - i,
{
    if i < v.len() {
        lemma_level_entries_len(v, i + 1);
    }
}

/// The entries of `level_entries` from index `i`, positionally.
proof fn lemma_level_entries_get(v: Seq<DirEntry>, i: int, k: int)
    requires
        0 <= i <= k < v.len(),
    ensures
        level_entries(v, i).len() == v.len() - i,
        level_entries(v, i)[k - i] == entry_tree_entry(&v[k]),
    decreases v.len() - i,
{
    lemma_level_entries_len(v, i);
    if i < k {
        lemma_level_entries_get(v, i + 1, k);
    }
}

/// The objects a whole working tree stores, ending with the root tree.
pub open spec fn write_tree_spec(v: Seq<DirEntry>) -> Seq<ObjectWriteSpec> {
    level_writes(v, 0) + seq![obj_write_spec(wrap_spec(tree_kind_bytes(), level_body(v)))]
}

/// Build every blob and tree object for a working tree, and return the
/// root tree's 40-hex id together with the objects to store, exactly as
/// `write_tree_spec` describes.
pub fn write_tree(entries: &Vec<DirEntry>) -> (r: (String, Vec<ObjectWrite>))
    ensures
        writes_view(r.1@) == write_tree_spec(entries@),
        r.0@ == ascii_chars_of(
            hex_bytes_of(sha1_of(wrap_spec(tree_kind_bytes(), level_body(entries@)))),
        ),
        r.0@.len() == 40,
{
    let mut out: Vec<ObjectWrite> = Vec::new();
    let id = write_tree_level(entries, &mut out);
    let hex = hex_encode(&id);
    proof {
        lemma_hex_bytes_shape(id@);
        assert(writes_view(out@) =~= write_tree_spec(entries@));
    }
    let hash = ascii_to_string(hex);
    proof {
        assert(hex_bytes_of(id@).len() == 2 * id@.len());
    }
    (hash, out)
}

} // verus!
