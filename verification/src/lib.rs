//! A minimal content-addressed object store speaking the git on-disk and
//! smart-HTTP wire formats: object codec, tree and commit builders, pkt-line
//! transport parsing, packfile decoding with ref-delta resolution, and
//! checkout planning.  All logic works on plain byte and string values; the
//! surrounding binary performs the actual file and network traffic.

pub mod bytesio;
pub mod checkout;
pub mod codec;
pub mod commands;
pub mod commitobj;
pub mod digest;
pub mod errors;
pub mod hexrep;
pub mod numrep;
pub mod pack;
pub mod plan;
pub mod repopath;
pub mod strconv;
pub mod transport;
pub mod treeobj;
pub mod worktree;
pub mod zcomp;
