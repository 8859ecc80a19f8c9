use vstd::prelude::*;
use vstd::string::*;
use crate::digest::{get_hash_from_data, sha1_hex_chars};
use crate::errors::GitError;
use crate::zcomp::{deflate, zlib_deflate, zlib_inflate};

verus! {

/// An object prepared for storage: its 40-hex id and the compressed bytes
/// that belong at its sharded path.
pub struct ObjectWrite {
    pub hash: String,
    pub zdata: Vec<u8>,
}

/// The ghost image of a prepared object.
pub struct ObjectWriteSpec {
    pub hash: Seq<char>,
    pub zdata: Seq<u8>,
}

impl View for ObjectWrite {
    type V = ObjectWriteSpec;

    open spec fn view(&self) -> ObjectWriteSpec {
        ObjectWriteSpec { hash: self.hash@, zdata: self.zdata@ }
    }
}

/// The ghost images of a run of prepared objects.
pub open spec fn writes_view(v: Seq<ObjectWrite>) -> Seq<ObjectWriteSpec> {
    v.map_values(|o: ObjectWrite| o@)
}

/// Relies on std's `Path::is_dir`: whether a directory sits at `path` right
/// now is a fact of the machine, so nothing is promised of the result.
#[verifier::external_body]
fn dir_exists(path: &str) -> bool {
    std::path::Path::new(path).is_dir()
}

/// The prefix that climbs `k` directories up from the working directory.
pub open spec fn root_prefix_spec(k: nat) -> Seq<char>
    decreases k,
{
    if k == 0 {
        "./"@
    } else {
        root_prefix_spec((k - 1) as nat) + "../"@
    }
}

/// Walk upward at most 256 levels looking for a `.git` directory.  Which
/// level has one is a fact of the disk; what is promised is that any
/// success is a well-formed climbing prefix.
pub fn find_root_folder() -> (r: Result<String, GitError>)
    ensures
        match r {
            Ok(p) => exists|k: nat| k < 256 && p@ == #[trigger] root_prefix_spec(k),
            Err(e) => e == GitError::NotARepo,
        },
{
    let mut prefix = String::from_str("./");
    let mut i: usize = 0;
    while i < 256
        invariant
            0 <= i <= 256,
            prefix@ == root_prefix_spec(i as nat),
        decreases 256 - i,
    {
        let mut probe = prefix.clone();
        probe.append(".git");
        if dir_exists(probe.as_str()) {
            proof {
                assert(prefix@ == root_prefix_spec(i as nat));
            }
            return Ok(prefix);
        }
        prefix.append("../");
        i = i + 1;
    }
    Err(GitError::NotARepo)
}

/// The sharded object path under `root`: the first two hex characters name
/// the directory, the rest the file.
pub fn compute_path_from_sha(root: &str, sha: &str) -> (r: Result<String, GitError>)
    requires
        sha@.len() >= 2,
    ensures
        match r {
            Ok(p) => p@ == root@ + ".git/objects/"@ + sha@.take(2) + "/"@ + sha@.skip(2),
            Err(_e) => false,
        },
{
    let n = sha.unicode_len();
    let mut p = root.to_owned();
    p.append(".git/objects/");
    p.append(sha.substring_char(0, 2));
    p.append("/");
    p.append(sha.substring_char(2, n));
    Ok(p)
}

/// Prepare `data` (an already wrapped payload) for the object store: hash
/// it and compress it.  The file bytes are a function of `data` alone, and
/// inflating them gives `data` back.
pub fn write_data(data: Vec<u8>) -> (r: ObjectWrite)
    ensures
        r.hash@ == sha1_hex_chars(data@),
        r.hash@.len() == 40,
        r.zdata@ == zlib_deflate(data@),
        zlib_inflate(r.zdata@) == Some((data@, r.zdata@.len() as int)),
{
    let hash = get_hash_from_data(data.as_slice());
    let zdata = deflate(&data);
    ObjectWrite { hash, zdata }
}

} // verus!
