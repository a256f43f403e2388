//! On-chain transaction replay: its configuration, and what is handed to the
//! helper and to the recorder for a replayed transaction.

use vstd::prelude::*;
use crate::text::{ascii_lower_seq, chars_of, is_prefix, push_chars, push_lit, slice_chars, starts_with_lit, string_of, to_ascii_lower};
use crate::paths::{join_path, path_join};

verus! {

/// Default Flow Access API endpoint (mainnet).
pub const DEFAULT_ACCESS_NODE_URL: &'static str = "access.mainnet.nodes.onflow.org:9000";

/// Client for the Flow Access API.
#[derive(Debug, Clone)]
pub struct FlowAccessClient {
    /// gRPC endpoint of the Flow Access Node.
    pub access_node_url: String,
}

impl FlowAccessClient {
    /// A client pointing at the Access Node `url`.
    pub fn new(url: &str) -> (res: Self)
        ensures
            res.access_node_url@ == url@,
    {
        FlowAccessClient { access_node_url: url.to_string() }
    }
}

impl Default for FlowAccessClient {
    /// A client pointing at the mainnet Access Node.
    fn default() -> (res: Self)
        ensures
            res.access_node_url@ == DEFAULT_ACCESS_NODE_URL@,
    {
        Self::new(DEFAULT_ACCESS_NODE_URL)
    }
}

/// Configuration for replaying a Flow transaction.
#[derive(Debug, Clone)]
pub struct ReplayConfig {
    /// Transaction hash to replay, normalised (no `0x` prefix, lower case).
    pub tx_hash: String,
    /// Flow Access Node URL.
    pub access_node_url: String,
    /// Optional directory holding the Cadence sources, for source mapping.
    pub source_dir: Option<String>,
}

/// `hash` without one leading `0x`, in ASCII lower case.
pub open spec fn normalised_hash(hash: Seq<char>) -> Seq<char> {
    ascii_lower_seq(
        if is_prefix("0x"@, hash) {
            hash.skip(2)
        } else {
            hash
        },
    )
}

/// Normalise a transaction hash: strip one optional `0x` prefix (lower-case
/// `x` only) and lower-case the ASCII letters.
pub fn normalise_tx_hash(hash: &str) -> (res: String)
    ensures
        res@ == normalised_hash(hash@),
{
    let h = chars_of(hash);
    proof {
        reveal_strlit("0x");
    }
    let body = if starts_with_lit(&h, "0x") {
        let b = slice_chars(&h, 2, h.len());
        assert(b@ =~= h@.skip(2));
        b
    } else {
        let b = slice_chars(&h, 0, h.len());
        assert(b@ =~= h@);
        b
    };
    string_of(&to_ascii_lower(&body))
}

impl ReplayConfig {
    /// A configuration replaying `tx_hash` (normalised) through the Access
    /// Node `access_node_url`, with no source directory.
    pub fn new(tx_hash: &str, access_node_url: &str) -> (res: Self)
        ensures
            res.tx_hash@ == normalised_hash(tx_hash@),
            res.access_node_url@ == access_node_url@,
            res.source_dir is None,
    {
        ReplayConfig {
            tx_hash: normalise_tx_hash(tx_hash),
            access_node_url: access_node_url.to_string(),
            source_dir: None,
        }
    }

    /// The same configuration with the source directory `dir`.
    pub fn with_source_dir(self, dir: String) -> (res: Self)
        ensures
            res.tx_hash == self.tx_hash,
            res.access_node_url == self.access_node_url,
            res.source_dir == Some(dir),
    {
        let mut c = self;
        c.source_dir = Some(dir);
        c
    }
}

/// A transaction's Cadence script and its JSON-CDC encoded arguments, as
/// fetched from the Access API.
#[derive(Debug, Clone, PartialEq)]
pub struct TransactionScript {
    /// The Cadence source code of the transaction.
    pub script: String,
    /// JSON-CDC encoded arguments (each element is a JSON string).
    pub arguments: Vec<String>,
    /// The transaction hash this was fetched from.
    pub tx_hash: String,
}

pub open spec fn strs_view(v: Seq<String>) -> Seq<Seq<char>> {
    v.map_values(|s: String| s@)
}

/// The helper's command line for replaying the transaction of `c`.
pub open spec fn helper_args_spec(
    tx_hash: Seq<char>,
    access_node_url: Seq<char>,
    source_dir: Option<Seq<char>>,
) -> Seq<Seq<char>> {
    let base = seq!["replay"@, "--tx-hash"@, tx_hash, "--access-node"@, access_node_url];
    match source_dir {
        Some(d) => base + seq!["--source-dir"@, d],
        None => base,
    }
}

pub open spec fn opt_string(o: Option<String>) -> Option<Seq<char>> {
    match o {
        Some(s) => Some(s@),
        None => None,
    }
}

/// The arguments the helper runs with to replay the transaction of `config`.
pub fn replay_helper_args(config: &ReplayConfig) -> (res: Vec<String>)
    ensures
        strs_view(res@) == helper_args_spec(
            config.tx_hash@,
            config.access_node_url@,
            opt_string(config.source_dir),
        ),
{
    let mut v: Vec<String> = Vec::new();
    v.push("replay".to_string());
    v.push("--tx-hash".to_string());
    v.push(config.tx_hash.clone());
    v.push("--access-node".to_string());
    v.push(config.access_node_url.clone());
    match &config.source_dir {
        Some(d) => {
            v.push("--source-dir".to_string());
            v.push(d.clone());
        },
        None => {},
    }
    assert(strs_view(v@) =~= helper_args_spec(
        config.tx_hash@,
        config.access_node_url@,
        opt_string(config.source_dir),
    ));
    v
}

/// The synthetic source path a replayed transaction is recorded under:
/// `tx_<hash>.cdc` in the source directory, or in `.` without one.
pub open spec fn replay_source_spec(tx_hash: Seq<char>, source_dir: Option<Seq<char>>) -> Seq<char> {
    let dir = match source_dir {
        Some(d) => d,
        None => "."@,
    };
    path_join(dir, "tx_"@ + tx_hash + ".cdc"@)
}

/// The source path the transaction of `config` is recorded under.
pub fn replay_source_path(config: &ReplayConfig) -> (res: String)
    ensures
        res@ == replay_source_spec(config.tx_hash@, opt_string(config.source_dir)),
{
    let mut name = chars_of("tx_");
    push_chars(&mut name, &chars_of(config.tx_hash.as_str()));
    push_lit(&mut name, ".cdc");
    let n = string_of(&name);
    match &config.source_dir {
        Some(d) => join_path(d.as_str(), n.as_str()),
        None => join_path(".", n.as_str()),
    }
}

/// A normalised hash holds no ASCII upper-case letter, and is as long as
/// the hash without its `0x` prefix.
pub proof fn law_normalised_hash_lowercase(hash: Seq<char>)
    ensures
        forall|i: int|
            0 <= i < normalised_hash(hash).len() ==> !('A' <= #[trigger] normalised_hash(hash)[i]
                && normalised_hash(hash)[i] <= 'Z'),
        normalised_hash(hash).len() == if is_prefix("0x"@, hash) {
            hash.len() - 2
        } else {
            hash.len() as int
        },
{
    reveal_strlit("0x");
}

} // verus!
