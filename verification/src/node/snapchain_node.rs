//! The supervisor: it checks the shards a node is configured with, builds
//! an engine and a proposer for each data shard and for the block shard,
//! says where each consensus instance starts, and routes by shard
//! identifier. It spawns and sends nothing itself: `create` hands back what
//! is to be spawned, and the routing functions say to which instance a
//! message goes.

use crate::consensus::proposer::{BlockProposer, ShardProposer};
use crate::proto::{FullProposalView, ShardChunkView, TransactionView};
use crate::storage::store::block::BlockStore;
use crate::storage::store::engine::{
    confirmed_block, confirmed_block_number, BlockEngine, ShardEngine,
};
use crate::storage::store::shard::ShardStore;
use crate::types::{Height, ShardHashView, SnapchainValidator, BLOCK_SHARD, MAX_SHARDS};
use crate::wire::copy_bytes;
use informalsystems_malachitebft_core_types::ThresholdParams;
use vstd::prelude::*;
use vstd::string::StringExecFns;

verus! {

/// Decided shard chunks that the channel from the shard proposers to the
/// block proposer holds before a sender has to wait.
pub const SHARD_DECISION_CHANNEL_CAPACITY: usize = 100;

#[verifier::external_type_specification]
#[verifier::external_body]
pub struct ExThresholdParams(ThresholdParams);

/// Calls `ThresholdParams::default`, which gives the thresholds a consensus
/// instance counts votes against. Trusted, and nothing is claimed of the
/// thresholds: they are carried to the instance as they come.
#[verifier::external_body]
fn default_threshold_params() -> ThresholdParams {
    ThresholdParams::default()
}

/// Why a node could not be set up.
#[derive(Clone, Copy, Debug, PartialEq, Eq, Structural)]
pub enum NodeError {
    /// Shard 0 is the block shard; it is set up without being asked for.
    ReservedShardId,
    /// A data shard has an identifier from 1 to `MAX_SHARDS`.
    ShardIdOutOfRange,
    /// A shard was named twice.
    DuplicateShardId,
    /// A store is at the last block number there is.
    HeightExhausted,
}

impl NodeError {
    /// The words that tell of the error.
    pub open spec fn message_of(self) -> Seq<char> {
        match self {
            NodeError::ReservedShardId => "Shard ID 0 is reserved for the block shard"@,
            NodeError::ShardIdOutOfRange => "Shard ID must be between 1 and 3"@,
            NodeError::DuplicateShardId => "Shard ID must not be given twice"@,
            NodeError::HeightExhausted => "Store is at the last block number"@,
        }
    }

    pub fn message(&self) -> (s: String)
        ensures
            s@ == self.message_of(),
    {
        match self {
            NodeError::ReservedShardId => String::from_str(
                "Shard ID 0 is reserved for the block shard",
            ),
            NodeError::ShardIdOutOfRange => String::from_str("Shard ID must be between 1 and 3"),
            NodeError::DuplicateShardId => String::from_str("Shard ID must not be given twice"),
            NodeError::HeightExhausted => String::from_str("Store is at the last block number"),
        }
    }
}

/// A data shard to set up, with the store that holds its history.
pub struct ShardConfig {
    pub shard_id: u32,
    pub store: ShardStore,
}

/// Where the consensus instance of one shard starts.
pub struct ConsensusParams {
    /// The height behind the last one committed.
    pub start_height: Height,
    /// The validators at the start: this node alone.
    pub initial_validator_set: Vec<SnapchainValidator>,
    pub address: Vec<u8>,
    /// The thresholds of votes, as the consensus layer sets them by default.
    pub threshold_params: ThresholdParams,
}

/// A data shard ready to be spawned.
pub struct ShardSetup {
    pub shard_id: u32,
    pub params: ConsensusParams,
    pub proposer: ShardProposer,
}

/// The block shard ready to be spawned.
pub struct BlockSetup {
    pub params: ConsensusParams,
    pub proposer: BlockProposer,
}

/// A node, and what is to be spawned for it: the data shards in the order
/// in which they were configured, and the block shard last.
pub struct NodeSetup {
    pub node: SnapchainNode,
    pub shards: Vec<ShardSetup>,
    pub block: BlockSetup,
}

/// The characters of an optional string.
pub open spec fn opt_string_view(s: Option<String>) -> Option<Seq<char>> {
    match s {
        Some(s) => Some(s@),
        None => None,
    }
}

/// Whether `params` are those of a node with `address` that starts alone
/// in `shard` behind block number `confirmed`.
pub open spec fn params_for(
    params: ConsensusParams,
    shard: u32,
    confirmed: u64,
    address: Seq<u8>,
    rpc_address: Option<Seq<char>>,
) -> bool {
    &&& params.start_height == Height { shard_index: shard, block_number: (confirmed + 1) as u64 }
    &&& params.address@ == address
    &&& params.initial_validator_set.len() == 1
    &&& params.initial_validator_set[0].shard_index == shard
    &&& params.initial_validator_set[0].public_key@ == address
    &&& opt_string_view(params.initial_validator_set[0].rpc_address) == rpc_address
    &&& params.initial_validator_set[0].current_height == confirmed
}

/// The first fault among the first `n` shards configured, if there is one.
pub open spec fn first_fault(shards: Seq<ShardConfig>, n: int) -> Option<NodeError>
    decreases n,
{
    if n <= 0 {
        None
    } else if first_fault(shards, n - 1) is Some {
        first_fault(shards, n - 1)
    } else {
        fault_of(shards, n - 1)
    }
}

/// The fault of the shard configured at `i`, given those before it.
pub open spec fn fault_of(shards: Seq<ShardConfig>, i: int) -> Option<NodeError> {
    let id = shards[i].shard_id;
    if id == 0 {
        Some(NodeError::ReservedShardId)
    } else if id > MAX_SHARDS {
        Some(NodeError::ShardIdOutOfRange)
    } else if exists|j: int| 0 <= j < i && (#[trigger] shards[j]).shard_id == id {
        Some(NodeError::DuplicateShardId)
    } else if confirmed_block_number(shards[i].store@) == u64::MAX {
        Some(NodeError::HeightExhausted)
    } else {
        None
    }
}

/// The fault of the identifier at `i` in `ids`, given those before it.
pub open spec fn id_fault_of(ids: Seq<u32>, i: int) -> Option<NodeError> {
    if ids[i] == 0 {
        Some(NodeError::ReservedShardId)
    } else if ids[i] > MAX_SHARDS {
        Some(NodeError::ShardIdOutOfRange)
    } else if exists|j: int| 0 <= j < i && #[trigger] ids[j] == ids[i] {
        Some(NodeError::DuplicateShardId)
    } else {
        None
    }
}

/// The first fault among the first `n` identifiers, if there is one.
pub open spec fn first_id_fault(ids: Seq<u32>, n: int) -> Option<NodeError>
    decreases n,
{
    if n <= 0 {
        None
    } else if first_id_fault(ids, n - 1) is Some {
        first_id_fault(ids, n - 1)
    } else {
        id_fault_of(ids, n - 1)
    }
}

/// A fault found among the first identifiers stays the first fault of the
/// list.
pub proof fn lemma_first_id_fault_stays(ids: Seq<u32>, n: int, m: int)
    requires
        0 <= n <= m,
        first_id_fault(ids, n) is Some,
    ensures
        first_id_fault(ids, m) == first_id_fault(ids, n),
    decreases m - n,
{
    if n < m {
        lemma_first_id_fault_stays(ids, n, m - 1);
    }
}

/// Checks the identifiers of the data shards a node is configured with,
/// before any store is opened for them: identifier 0, an identifier above
/// `MAX_SHARDS` and an identifier named twice are faults, and the first of
/// them in the list is returned.
pub fn check_shard_ids(shard_ids: &Vec<u32>) -> (r: Result<(), NodeError>)
    ensures
        match first_id_fault(shard_ids@, shard_ids@.len() as int) {
            Some(fault) => r == Err::<(), NodeError>(fault),
            None => r == Ok::<(), NodeError>(()),
        },
{
    let ghost ids = shard_ids@;
    let mut i: usize = 0;
    while i < shard_ids.len()
        invariant
            i <= shard_ids.len(),
            ids == shard_ids@,
            first_id_fault(ids, i as int) is None,
        decreases shard_ids.len() - i,
    {
        let id = shard_ids[i];
        let mut twice = false;
        let mut k: usize = 0;
        while k < i
            invariant
                k <= i,
                i < shard_ids.len(),
                ids == shard_ids@,
                id == ids[i as int],
                twice == exists|j: int| 0 <= j < k && #[trigger] ids[j] == id,
            decreases i - k,
        {
            if shard_ids[k] == id {
                twice = true;
            }
            k += 1;
        }
        let fault = if id == 0 {
            Some(NodeError::ReservedShardId)
        } else if id > MAX_SHARDS {
            Some(NodeError::ShardIdOutOfRange)
        } else if twice {
            Some(NodeError::DuplicateShardId)
        } else {
            None
        };
        assert(fault == id_fault_of(ids, i as int));
        match fault {
            Some(e) => {
                proof {
                    lemma_first_id_fault_stays(ids, i + 1, ids.len() as int);
                }
                return Err(e);
            },
            None => {},
        }
        i += 1;
    }
    Ok(())
}

/// The fault in what a node is to be set up with, if there is one: the
/// first fault among the shards, or else a block store at the last block
/// number.
pub open spec fn setup_fault(
    shards: Seq<ShardConfig>,
    block_store: Seq<(Seq<u8>, Seq<u8>)>,
) -> Option<NodeError> {
    if first_fault(shards, shards.len() as int) is Some {
        first_fault(shards, shards.len() as int)
    } else if confirmed_block(block_store) == u64::MAX {
        Some(NodeError::HeightExhausted)
    } else {
        None
    }
}

/// Whether the identifiers rise strictly along `ids`.
pub open spec fn rising(ids: Seq<u32>) -> bool {
    forall|i: int, j: int| 0 <= i < j < ids.len() ==> ids[i] < ids[j]
}

/// The supervisor's record of a node: its address, and the shards that
/// have a consensus instance, the block shard first.
pub struct SnapchainNode {
    address: Vec<u8>,
    consensus_actors: Vec<u32>,
}

/// The hexadecimal digit of a number below 16.
pub open spec fn hex_digit(d: u8) -> Seq<char> {
    if d == 0 {
        "0"@
    } else if d == 1 {
        "1"@
    } else if d == 2 {
        "2"@
    } else if d == 3 {
        "3"@
    } else if d == 4 {
        "4"@
    } else if d == 5 {
        "5"@
    } else if d == 6 {
        "6"@
    } else if d == 7 {
        "7"@
    } else if d == 8 {
        "8"@
    } else if d == 9 {
        "9"@
    } else if d == 10 {
        "a"@
    } else if d == 11 {
        "b"@
    } else if d == 12 {
        "c"@
    } else if d == 13 {
        "d"@
    } else if d == 14 {
        "e"@
    } else {
        "f"@
    }
}

/// The two hexadecimal digits of a byte.
pub open spec fn hex_byte(b: u8) -> Seq<char> {
    hex_digit(b / 16) + hex_digit(b % 16)
}

/// The hexadecimal digits of the first `n` bytes of `bytes`.
pub open spec fn hex_prefix(bytes: Seq<u8>, n: nat) -> Seq<char>
    decreases n,
{
    if n == 0 || bytes.len() < n {
        Seq::empty()
    } else {
        hex_prefix(bytes, (n - 1) as nat) + hex_byte(bytes[n - 1])
    }
}

fn hex_digit_str(d: u8) -> (s: &'static str)
    ensures
        s@ == hex_digit(d),
{
    if d == 0 {
        "0"
    } else if d == 1 {
        "1"
    } else if d == 2 {
        "2"
    } else if d == 3 {
        "3"
    } else if d == 4 {
        "4"
    } else if d == 5 {
        "5"
    } else if d == 6 {
        "6"
    } else if d == 7 {
        "7"
    } else if d == 8 {
        "8"
    } else if d == 9 {
        "9"
    } else if d == 10 {
        "a"
    } else if d == 11 {
        "b"
    } else if d == 12 {
        "c"
    } else if d == 13 {
        "d"
    } else if d == 14 {
        "e"
    } else {
        "f"
    }
}

/// The decimal digits of `n`.
pub open spec fn decimal(n: nat) -> Seq<char>
    decreases n,
{
    if n < 10 {
        hex_digit(n as u8)
    } else {
        decimal(n / 10) + hex_digit((n % 10) as u8)
    }
}

pub fn decimal_string(n: u32) -> (s: String)
    ensures
        s@ == decimal(n as nat),
    decreases n,
{
    if n < 10 {
        String::from_str(hex_digit_str(n as u8))
    } else {
        let mut s = decimal_string(n / 10);
        s.append(hex_digit_str((n % 10) as u8));
        s
    }
}

/// Where the store of a data shard is kept: under the directory of the
/// node, in `shard` and the shard's number.
pub open spec fn shard_db_path_of(rocksdb_dir: Seq<char>, shard_id: u32) -> Seq<char> {
    rocksdb_dir + "/shard"@ + decimal(shard_id as nat)
}

pub fn shard_db_path(rocksdb_dir: &String, shard_id: u32) -> (path: String)
    ensures
        path@ == shard_db_path_of(rocksdb_dir@, shard_id),
{
    let mut path = copy_string(rocksdb_dir);
    path.append("/shard");
    let number = decimal_string(shard_id);
    path.append(number.as_str());
    path
}

pub fn copy_string(s: &String) -> (r: String)
    ensures
        r@ == s@,
{
    s.clone()
}

pub fn copy_opt_string(s: &Option<String>) -> (r: Option<String>)
    ensures
        opt_string_view(r) == opt_string_view(*s),
{
    match s {
        Some(s) => Some(copy_string(s)),
        None => None,
    }
}

/// The parameters of a node that starts alone in `shard` behind block
/// number `confirmed`.
fn make_params(shard: u32, confirmed: u64, address: &Vec<u8>, rpc_address: &Option<String>) -> (params:
    ConsensusParams)
    requires
        confirmed < u64::MAX,
    ensures
        params_for(params, shard, confirmed, address@, opt_string_view(*rpc_address)),
{
    let validator = SnapchainValidator {
        shard_index: shard,
        public_key: copy_bytes(address),
        rpc_address: copy_opt_string(rpc_address),
        current_height: confirmed,
    };
    let mut initial_validator_set: Vec<SnapchainValidator> = Vec::new();
    initial_validator_set.push(validator);
    ConsensusParams {
        start_height: Height::new(shard, confirmed + 1),
        initial_validator_set,
        address: copy_bytes(address),
        threshold_params: default_threshold_params(),
    }
}

/// Puts `id` into `ids` at its place in the rising order.
fn register(ids: &mut Vec<u32>, id: u32)
    requires
        rising(old(ids)@),
        !old(ids)@.contains(id),
    ensures
        rising(final(ids)@),
        forall|x: u32| final(ids)@.contains(x) <==> (x == id || old(ids)@.contains(x)),
        final(ids)@.len() == old(ids)@.len() + 1,
{
    let mut i: usize = 0;
    while i < ids.len() && ids[i] < id
        invariant
            i <= ids.len(),
            ids@ == old(ids)@,
            forall|j: int| 0 <= j < i ==> ids@[j] < id,
        decreases ids.len() - i,
    {
        i += 1;
    }
    proof {
        if i < ids.len() {
            assert(ids@.contains(ids@[i as int]));
        }
    }
    ids.insert(i, id);
    proof {
        let before = old(ids)@;
        let after = ids@;
        assert forall|x: u32| after.contains(x) <==> (x == id || before.contains(x)) by {
            if after.contains(x) {
                let j = after.index_of(x);
                if j < i {
                    assert(before[j] == x);
                } else if j > i {
                    assert(before[j - 1] == x);
                }
            }
            if x == id {
                assert(after[i as int] == x);
            }
            if before.contains(x) {
                let j = before.index_of(x);
                if j < i {
                    assert(after[j] == x);
                } else {
                    assert(after[j + 1] == x);
                }
            }
        }
        assert forall|a: int, b: int| 0 <= a < b < after.len() implies after[a] < after[b] by {
            if a > i {
                assert(after[a] == before[a - 1] && after[b] == before[b - 1]);
            } else if a == i {
                assert(after[b] == before[b - 1]);
                assert(before.contains(before[i as int]));
                if b - 1 > i {
                    assert(before[i as int] < before[b - 1]);
                }
            } else if b > i {
                assert(after[b] == before[b - 1]);
            }
        }
    }
}

impl SnapchainNode {
    /// The address of the node.
    pub closed spec fn address(&self) -> Seq<u8> {
        self.address@
    }

    /// The shards that have a consensus instance, in rising order: the
    /// block shard, then the data shards.
    pub closed spec fn actors(&self) -> Seq<u32> {
        self.consensus_actors@
    }

    /// Sets up a node with the address `public_key` for the shards in
    /// `shards`, and the block shard over `block_store`. A shard with
    /// identifier 0 or above `MAX_SHARDS`, a shard named twice, and a store
    /// at the last block number are faults: the first of them in `shards` is
    /// returned. Without a fault, every data shard gets a proposer over an
    /// engine over its store and the parameters to start behind its last
    /// committed chunk, and the block shard a proposer that waits for the
    /// chunks of that many data shards. The proposers have decided and
    /// gathered nothing yet; what a shard's proposer proposes first is
    /// chained to the last chunk in the shard's store.
    pub fn create(
        public_key: Vec<u8>,
        shards: Vec<ShardConfig>,
        rpc_address: Option<String>,
        block_store: BlockStore,
    ) -> (r: Result<NodeSetup, NodeError>)
        ensures
            match setup_fault(shards@, block_store@) {
                Some(fault) => r matches Err(e) && e == fault,
                None => r matches Ok(setup) && {
                        &&& setup.node.address() == public_key@
                        &&& rising(setup.node.actors())
                        &&& forall|x: u32|
                            setup.node.actors().contains(x) <==> (x == BLOCK_SHARD || exists|
                                i: int,
                            |
                                0 <= i < shards@.len() && (#[trigger] shards@[i]).shard_id == x)
                        &&& setup.shards@.len() == shards@.len()
                        &&& forall|i: int|
                            0 <= i < shards@.len() ==> {
                                &&& (#[trigger] setup.shards@[i]).shard_id == shards@[i].shard_id
                                &&& params_for(
                                    setup.shards@[i].params,
                                    shards@[i].shard_id,
                                    confirmed_block_number(shards@[i].store@),
                                    public_key@,
                                    opt_string_view(rpc_address),
                                )
                                &&& setup.shards@[i].proposer.shard() == shards@[i].shard_id
                                &&& setup.shards@[i].proposer.engine_shard()
                                    == shards@[i].shard_id
                                &&& setup.shards@[i].proposer.address() == public_key@
                                &&& setup.shards@[i].proposer.store() == shards@[i].store@
                                &&& setup.shards@[i].proposer.recent_chunks() == Seq::<
                                    ShardChunkView,
                                >::empty()
                                &&& setup.shards@[i].proposer.proposed() == Map::<
                                    ShardHashView,
                                    FullProposalView,
                                >::empty()
                                &&& setup.shards@[i].proposer.pending_transactions() == Seq::<
                                    TransactionView,
                                >::empty()
                            }
                        &&& params_for(
                            setup.block.params,
                            BLOCK_SHARD,
                            confirmed_block(block_store@),
                            public_key@,
                            opt_string_view(rpc_address),
                        )
                        &&& setup.block.proposer.shard() == BLOCK_SHARD
                        &&& setup.block.proposer.address() == public_key@
                        &&& setup.block.proposer.shards() == shards@.len()
                        &&& setup.block.proposer.store() == block_store@
                        &&& setup.block.proposer.proposed() == Map::<
                            ShardHashView,
                            FullProposalView,
                        >::empty()
                        &&& forall|n: u64|
                            setup.block.proposer.pending(n) == Seq::<ShardChunkView>::empty()
                        &&& setup.block.proposer.received() == Seq::<ShardChunkView>::empty()
                        &&& setup.block.proposer.wf()
                    },
            },
    {
        let ghost configured = shards@;
        let mut consensus_actors: Vec<u32> = Vec::new();
        consensus_actors.push(BLOCK_SHARD);
        assert(consensus_actors@[0] == BLOCK_SHARD);
        let mut setups: Vec<ShardSetup> = Vec::new();
        let mut rest = shards;
        let mut seen: Vec<u32> = Vec::new();
        let total: usize = rest.len();
        let mut configs: Vec<ShardConfig> = Vec::new();
        // The shards are taken from the back of the list; turn it round
        // first, so that they are set up in the order configured.
        while rest.len() > 0
            invariant
                rest@.len() + configs@.len() == total,
                total == configured.len(),
                forall|j: int| 0 <= j < rest@.len() ==> rest@[j] == configured[j],
                forall|j: int|
                    0 <= j < configs@.len() ==> configs@[j] == configured[total - 1 - j],
            decreases rest.len(),
        {
            let config = rest.pop().unwrap();
            configs.push(config);
        }
        let mut i: usize = 0;
        while i < total
            invariant
                i <= total,
                configured == shards@,
                total == configured.len(),
                forall|j: int|
                    0 <= j < consensus_actors@.len() ==> consensus_actors@[j] <= MAX_SHARDS,
                configs@.len() == total - i,
                forall|j: int|
                    0 <= j < configs@.len() ==> configs@[j] == configured[total - 1 - j],
                first_fault(configured, i as int) is None,
                seen@.len() == i,
                forall|j: int| 0 <= j < i ==> seen@[j] == (#[trigger] configured[j]).shard_id,
                rising(consensus_actors@),
                consensus_actors@.len() == i + 1,
                forall|x: u32|
                    consensus_actors@.contains(x) <==> (x == BLOCK_SHARD || exists|j: int|
                        0 <= j < i && (#[trigger] configured[j]).shard_id == x),
                setups@.len() == i,
                forall|j: int|
                    0 <= j < i ==> {
                        &&& (#[trigger] setups@[j]).shard_id == configured[j].shard_id
                        &&& params_for(
                            setups@[j].params,
                            configured[j].shard_id,
                            confirmed_block_number(configured[j].store@),
                            public_key@,
                            opt_string_view(rpc_address),
                        )
                        &&& setups@[j].proposer.shard() == configured[j].shard_id
                        &&& setups@[j].proposer.engine_shard() == configured[j].shard_id
                        &&& setups@[j].proposer.address() == public_key@
                        &&& setups@[j].proposer.store() == configured[j].store@
                        &&& setups@[j].proposer.recent_chunks() == Seq::<ShardChunkView>::empty()
                        &&& setups@[j].proposer.proposed() == Map::<
                            ShardHashView,
                            FullProposalView,
                        >::empty()
                        &&& setups@[j].proposer.pending_transactions() == Seq::<
                            TransactionView,
                        >::empty()
                    },
            decreases total - i,
        {
            let config = configs.pop().unwrap();
            assert(config == configured[i as int]);
            let shard_id = config.shard_id;
            if shard_id == 0 {
                assert(first_fault(configured, i + 1) == Some(NodeError::ReservedShardId));
                proof {
                    lemma_first_fault_stays(configured, i + 1, total as int);
                }
                return Err(NodeError::ReservedShardId);
            } else if shard_id > MAX_SHARDS {
                assert(first_fault(configured, i + 1) == Some(NodeError::ShardIdOutOfRange));
                proof {
                    lemma_first_fault_stays(configured, i + 1, total as int);
                }
                return Err(NodeError::ShardIdOutOfRange);
            }
            let mut k: usize = 0;
            let mut twice = false;
            while k < seen.len()
                invariant
                    k <= seen.len(),
                    seen@.len() == i,
                    i < configured.len(),
                    forall|j: int| 0 <= j < i ==> seen@[j] == (#[trigger] configured[j]).shard_id,
                    twice == exists|j: int|
                        0 <= j < k && (#[trigger] configured[j]).shard_id == shard_id,
                decreases seen.len() - k,
            {
                if seen[k] == shard_id {
                    twice = true;
                    assert(configured[k as int].shard_id == shard_id);
                }
                k += 1;
            }
            if twice {
                assert(first_fault(configured, i + 1) == Some(NodeError::DuplicateShardId));
                proof {
                    lemma_first_fault_stays(configured, i + 1, total as int);
                }
                return Err(NodeError::DuplicateShardId);
            }
            let store = config.store;
            let confirmed = match store.max_block_number() {
                Ok(n) => n,
                Err(_) => 0,
            };
            if confirmed == u64::MAX {
                assert(first_fault(configured, i + 1) == Some(NodeError::HeightExhausted));
                proof {
                    lemma_first_fault_stays(configured, i + 1, total as int);
                }
                return Err(NodeError::HeightExhausted);
            }
            assert(first_fault(configured, i + 1) is None);
            let params = make_params(shard_id, confirmed, &public_key, &rpc_address);
            let engine = ShardEngine::new(shard_id, store);
            let proposer = ShardProposer::new(copy_bytes(&public_key), shard_id, engine);
            proof {
                if consensus_actors@.contains(shard_id) {
                    let j = choose|j: int|
                        0 <= j < i && (#[trigger] configured[j]).shard_id == shard_id;
                    assert(false);
                }
            }
            let ghost actors_before = consensus_actors@;
            register(&mut consensus_actors, shard_id);
            proof {
                assert forall|j: int| 0 <= j < consensus_actors@.len() implies consensus_actors@[j]
                    <= MAX_SHARDS by {
                    let x = consensus_actors@[j];
                    assert(consensus_actors@.contains(x));
                    if x != shard_id {
                        let k = actors_before.index_of(x);
                        assert(actors_before[k] == x);
                    }
                }
                assert forall|x: u32|
                    consensus_actors@.contains(x) <==> (x == BLOCK_SHARD || exists|j: int|
                        0 <= j < i + 1 && (#[trigger] configured[j]).shard_id == x) by {
                    if x == shard_id {
                        assert(configured[i as int].shard_id == x);
                    }
                    if exists|j: int| 0 <= j < i + 1 && (#[trigger] configured[j]).shard_id == x {
                        let j = choose|j: int|
                            0 <= j < i + 1 && (#[trigger] configured[j]).shard_id == x;
                        if j < i {
                            assert(actors_before.contains(x));
                        }
                    }
                    if actors_before.contains(x) && x != BLOCK_SHARD {
                        let j = choose|j: int|
                            0 <= j < i && (#[trigger] configured[j]).shard_id == x;
                        assert(0 <= j < i + 1);
                    }
                }
            }
            seen.push(shard_id);
            setups.push(ShardSetup { shard_id, params, proposer });
            i += 1;
        }
        proof {
            lemma_rising_bound(consensus_actors@, total as int);
        }
        let confirmed = match block_store.max_block_number() {
            Ok(n) => n,
            Err(_) => 0,
        };
        if confirmed == u64::MAX {
            return Err(NodeError::HeightExhausted);
        }
        let params = make_params(BLOCK_SHARD, confirmed, &public_key, &rpc_address);
        let engine = BlockEngine::new(block_store);
        let proposer = BlockProposer::new(
            copy_bytes(&public_key),
            BLOCK_SHARD,
            total as u32,
            engine,
        );
        Ok(
            NodeSetup {
                node: SnapchainNode { address: public_key, consensus_actors },
                shards: setups,
                block: BlockSetup { params, proposer },
            },
        )
    }

    /// A short name for the node: the first two bytes of its address in
    /// hexadecimal digits, and nothing for an address shorter than that.
    pub fn id(&self) -> (name: String)
        ensures
            name@ == hex_prefix(self.address(), 2),
    {
        let mut name = String::from_str("");
        proof {
            reveal_strlit("");
            assert(name@ =~= Seq::<char>::empty());
            reveal_with_fuel(hex_prefix, 3);
        }
        if self.address.len() < 2 {
            return name;
        }
        let b0 = self.address[0];
        let b1 = self.address[1];
        name.append(hex_digit_str(b0 / 16));
        name.append(hex_digit_str(b0 % 16));
        name.append(hex_digit_str(b1 / 16));
        name.append(hex_digit_str(b1 % 16));
        assert(name@ =~= hex_prefix(self.address@, 2));
        name
    }

    /// The shards whose consensus instances are to be stopped: all of them,
    /// in rising order.
    pub fn stop(&self) -> (shards: Vec<u32>)
        ensures
            shards@ == self.actors(),
    {
        let mut shards: Vec<u32> = Vec::new();
        let mut i: usize = 0;
        while i < self.consensus_actors.len()
            invariant
                i <= self.consensus_actors.len(),
                shards@ == self.consensus_actors@.take(i as int),
            decreases self.consensus_actors.len() - i,
        {
            shards.push(self.consensus_actors[i]);
            i += 1;
            assert(shards@ =~= self.consensus_actors@.take(i as int));
        }
        assert(self.consensus_actors@.take(i as int) =~= self.consensus_actors@);
        shards
    }

    /// The heights at which the consensus instances are to be started: for
    /// every shard, in rising order, `block_number` in that shard.
    pub fn start_height(&self, block_number: u64) -> (heights: Vec<Height>)
        ensures
            heights@.len() == self.actors().len(),
            forall|i: int|
                0 <= i < heights@.len() ==> heights@[i] == (Height {
                    shard_index: self.actors()[i],
                    block_number,
                }),
    {
        let mut heights: Vec<Height> = Vec::new();
        let mut i: usize = 0;
        while i < self.consensus_actors.len()
            invariant
                i <= self.consensus_actors.len(),
                heights@.len() == i,
                forall|j: int|
                    0 <= j < i ==> heights@[j] == (Height {
                        shard_index: self.consensus_actors@[j],
                        block_number,
                    }),
            decreases self.consensus_actors.len() - i,
        {
            heights.push(Height::new(self.consensus_actors[i], block_number));
            i += 1;
        }
        heights
    }

    /// The place, among the shards in rising order, of the consensus
    /// instance that a message for `shard_id` goes to. `None` for a shard
    /// without an instance: such a message is dropped.
    pub fn dispatch(&self, shard_id: u32) -> (r: Option<usize>)
        ensures
            match r {
                Some(i) => i < self.actors().len() && self.actors()[i as int] == shard_id,
                None => !self.actors().contains(shard_id),
            },
    {
        let mut i: usize = 0;
        while i < self.consensus_actors.len()
            invariant
                i <= self.consensus_actors.len(),
                forall|j: int| 0 <= j < i ==> self.consensus_actors@[j] != shard_id,
            decreases self.consensus_actors.len() - i,
        {
            if self.consensus_actors[i] == shard_id {
                return Some(i);
            }
            i += 1;
        }
        None
    }
}

/// Along a rising list each identifier is at least its index.
pub proof fn lemma_rising_bound(ids: Seq<u32>, i: int)
    requires
        rising(ids),
        0 <= i < ids.len(),
    ensures
        ids[i] >= i,
    decreases i,
{
    if i > 0 {
        lemma_rising_bound(ids, i - 1);
    }
}

/// A fault found among the first shards stays the first fault of the list.
pub proof fn lemma_first_fault_stays(shards: Seq<ShardConfig>, n: int, m: int)
    requires
        0 <= n <= m,
        first_fault(shards, n) is Some,
    ensures
        first_fault(shards, m) == first_fault(shards, n),
    decreases m - n,
{
    if n < m {
        lemma_first_fault_stays(shards, n, m - 1);
    }
}

} // verus!
