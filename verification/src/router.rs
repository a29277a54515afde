//! The routing table of the node's query interface: every path it serves,
//! with the handler each one names, plus the description twin every route
//! gets.

use vstd::prelude::*;

verus! {

/// The request methods routes distinguish.
#[derive(Clone, Copy, PartialEq, Eq, Structural, Debug)]
pub enum HttpMethod {
    Get,
    Post,
}

/// Which handler serves a route.
#[derive(Clone, Copy, PartialEq, Eq, Structural, Debug)]
pub enum HandlerId {
    NodeVersion,
    Bootstrapped,
    CommitHash,
    ActiveChains,
    Protocols,
    ValidBlocks,
    HeadChain,
    GetChainId,
    ChainsBlockId,
    LiveBlocks,
    ChainsBlockIdHeader,
    ChainsBlockIdHeaderShell,
    MempoolPendingOperations,
    GetBlockProtocols,
    GetBlockHash,
    GetBlockOperationHashes,
    InjectOperation,
    ContextCycle,
    RollsOwnerCurrent,
    InjectBlock,
    PreapplyOperations,
    PreapplyBlock,
    ContextConstants,
    Cycle,
    ContextContract,
    GetContractCounter,
    GetContractManagerKey,
    BakingRights,
    EndorsingRights,
    VotesListings,
    RunOperation,
    ForgeOperations,
    CurrentLevel,
    MinimalValidTime,
    DescribeRoute,
}

/// One route: its method, its path, and its handler.
pub struct RouteEntry {
    pub method: HttpMethod,
    pub path: &'static str,
    pub handler: HandlerId,
}

/// The base routing table, without the sandbox-only route: method, path and
/// handler of every served path.
fn base_routes() -> (r: Vec<(HttpMethod, &'static str, HandlerId)>)
    ensures
        r@.len() == 33,
        r@[0].2 == HandlerId::NodeVersion && r@[0].0 == HttpMethod::Get,
        exists|i: int| 0 <= i < r@.len() && (#[trigger] r@[i]).2 == HandlerId::InjectOperation
            && r@[i].0 == HttpMethod::Post,
        forall|i: int| 0 <= i < r@.len() ==> (#[trigger] r@[i]).2 != HandlerId::InjectBlock && r@[
            i
        ].2 != HandlerId::DescribeRoute,
{
    let mut t: Vec<(HttpMethod, &'static str, HandlerId)> = Vec::new();
    t.push((HttpMethod::Get, "/version", HandlerId::NodeVersion));
    t.push((HttpMethod::Get, "/monitor/bootstrapped", HandlerId::Bootstrapped));
    t.push((HttpMethod::Get, "/monitor/commit_hash", HandlerId::CommitHash));
    t.push((HttpMethod::Get, "/monitor/active_chains", HandlerId::ActiveChains));
    t.push((HttpMethod::Get, "/monitor/protocols", HandlerId::Protocols));
    t.push((HttpMethod::Get, "/monitor/valid_blocks", HandlerId::ValidBlocks));
    t.push((HttpMethod::Get, "/monitor/heads/:chain_id", HandlerId::HeadChain));
    t.push((HttpMethod::Get, "/chains/:chain_id/chain_id", HandlerId::GetChainId));
    t.push((HttpMethod::Get, "/chains/:chain_id/blocks/:block_id", HandlerId::ChainsBlockId));
    t.push((HttpMethod::Get, "/chains/:chain_id/blocks/:block_id/live_blocks", HandlerId::LiveBlocks));
    t.push((HttpMethod::Get, "/chains/:chain_id/blocks/:block_id/header", HandlerId::ChainsBlockIdHeader));
    t.push((HttpMethod::Get, "/chains/:chain_id/blocks/:block_id/header/shell", HandlerId::ChainsBlockIdHeaderShell));
    t.push((HttpMethod::Get, "/chains/:chain_id/mempool/pending_operations", HandlerId::MempoolPendingOperations));
    t.push((HttpMethod::Get, "/chains/:chain_id/blocks/:block_id/protocols", HandlerId::GetBlockProtocols));
    t.push((HttpMethod::Get, "/chains/:chain_id/blocks/:block_id/hash", HandlerId::GetBlockHash));
    t.push((HttpMethod::Get, "/chains/:chain_id/blocks/:block_id/operation_hashes", HandlerId::GetBlockOperationHashes));
    t.push((HttpMethod::Post, "/injection/operation", HandlerId::InjectOperation));
    t.push((HttpMethod::Get, "/chains/:chain_id/blocks/:block_id/context/raw/bytes/cycle", HandlerId::ContextCycle));
    t.push((HttpMethod::Get, "/chains/:chain_id/blocks/:block_id/context/raw/bytes/rolls/owner/current", HandlerId::RollsOwnerCurrent));
    t.push((HttpMethod::Get, "/chains/:chain_id/blocks/:block_id/helpers/preapply/operations", HandlerId::PreapplyOperations));
    t.push((HttpMethod::Get, "/chains/:chain_id/blocks/:block_id/helpers/preapply/block", HandlerId::PreapplyBlock));
    t.push((HttpMethod::Get, "/chains/:chain_id/blocks/:block_id/context/constants", HandlerId::ContextConstants));
    t.push((HttpMethod::Get, "/chains/:chain_id/blocks/:block_id/context/raw/json/cycle/:cycle_id", HandlerId::Cycle));
    t.push((HttpMethod::Get, "/chains/:chain_id/blocks/:block_id/context/contracts/:pkh", HandlerId::ContextContract));
    t.push((HttpMethod::Get, "/chains/:chain_id/blocks/:block_id/context/contracts/:pkh/counter", HandlerId::GetContractCounter));
    t.push((HttpMethod::Get, "/chains/:chain_id/blocks/:block_id/context/contracts/:pkh/manager_key", HandlerId::GetContractManagerKey));
    t.push((HttpMethod::Get, "/chains/:chain_id/blocks/:block_id/helpers/baking_rights", HandlerId::BakingRights));
    t.push((HttpMethod::Get, "/chains/:chain_id/blocks/:block_id/helpers/endorsing_rights", HandlerId::EndorsingRights));
    t.push((HttpMethod::Get, "/chains/:chain_id/blocks/:block_id/votes/listings", HandlerId::VotesListings));
    t.push((HttpMethod::Get, "/chains/:chain_id/blocks/:block_id/helpers/scripts/run_operation", HandlerId::RunOperation));
    t.push((HttpMethod::Get, "/chains/:chain_id/blocks/:block_id/helpers/forge/operations", HandlerId::ForgeOperations));
    t.push((HttpMethod::Get, "/chains/:chain_id/blocks/:block_id/helpers/current_level", HandlerId::CurrentLevel));
    t.push((HttpMethod::Get, "/chains/:chain_id/blocks/:block_id/minimal_valid_time", HandlerId::MinimalValidTime));
    proof {
        assert(t@[16].2 == HandlerId::InjectOperation && t@[16].0 == HttpMethod::Post);
    }
    t
}

/// The full routing table. Every route is paired with a description twin, so
/// the table holds twice the served paths; sandbox mode serves one more path,
/// the block injection.
pub fn create_routes(is_sandbox: bool) -> (r: Vec<RouteEntry>)
    ensures
        !is_sandbox ==> r@.len() == 66,
        is_sandbox ==> r@.len() == 68,
        forall|i: int| 0 <= i < r@.len() ==> ((#[trigger] r@[i]).handler == HandlerId::DescribeRoute
            <==> i % 2 == 1),
        exists|i: int| 0 <= i < r@.len() && (#[trigger] r@[i]).handler
            == HandlerId::InjectOperation && r@[i].method == HttpMethod::Post,
        is_sandbox <==> exists|i: int|
            0 <= i < r@.len() && (#[trigger] r@[i]).handler == HandlerId::InjectBlock,
{
    let base = base_routes();
    let mut routes: Vec<RouteEntry> = Vec::new();
    let mut i: usize = 0;
    while i < base.len()
        invariant
            i <= base@.len(),
            base@.len() == 33,
            base@[0].2 == HandlerId::NodeVersion && base@[0].0 == HttpMethod::Get,
            exists|k: int| 0 <= k < base@.len() && (#[trigger] base@[k]).2
                == HandlerId::InjectOperation && base@[k].0 == HttpMethod::Post,
            forall|k: int| 0 <= k < base@.len() ==> (#[trigger] base@[k]).2
                != HandlerId::InjectBlock && base@[k].2 != HandlerId::DescribeRoute,
            routes@.len() == 2 * i,
            forall|k: int| 0 <= k < i ==> (#[trigger] routes@[2 * k]).method == base@[k].0
                && routes@[2 * k].path == base@[k].1 && routes@[2 * k].handler == base@[k].2,
            forall|k: int| 0 <= k < i ==> (#[trigger] routes@[2 * k + 1]).handler
                == HandlerId::DescribeRoute,
        decreases base@.len() - i,
    {
        let (method, path, handler) = base[i];
        routes.push(RouteEntry { method, path, handler });
        routes.push(RouteEntry { method, path, handler: HandlerId::DescribeRoute });
        i = i + 1;
    }
    if is_sandbox {
        routes.push(
            RouteEntry {
                method: HttpMethod::Post,
                path: "/injection/block",
                handler: HandlerId::InjectBlock,
            },
        );
        routes.push(
            RouteEntry {
                method: HttpMethod::Post,
                path: "/injection/block",
                handler: HandlerId::DescribeRoute,
            },
        );
    }
    proof {
        let k0 = choose|k: int|
            0 <= k < base@.len() && (#[trigger] base@[k]).2 == HandlerId::InjectOperation && base@[
            k
        ].0 == HttpMethod::Post;
        assert(routes@[2 * k0].handler == HandlerId::InjectOperation && routes@[2 * k0].method
            == HttpMethod::Post);
        if is_sandbox {
            assert(routes@[66].handler == HandlerId::InjectBlock);
        }
        assert forall|i2: int| 0 <= i2 < routes@.len() implies ((#[trigger] routes@[i2]).handler
            == HandlerId::DescribeRoute <==> i2 % 2 == 1) by {
            let k = i2 / 2;
            assert(i2 == 2 * k || i2 == 2 * k + 1);
            if i2 % 2 == 1 {
                assert(i2 == 2 * k + 1);
                if k < 33 {
                    assert(routes@[2 * k + 1].handler == HandlerId::DescribeRoute);
                }
            } else {
                assert(i2 == 2 * k);
                if k < 33 {
                    assert(routes@[2 * k].handler == base@[k].2);
                    assert(base@[k].2 != HandlerId::DescribeRoute);
                }
            }
        }
        if !is_sandbox {
            assert forall|i2: int|
                0 <= i2 < routes@.len() implies (#[trigger] routes@[i2]).handler
                != HandlerId::InjectBlock by {
                let k = i2 / 2;
                assert(i2 == 2 * k || i2 == 2 * k + 1);
            }
        }
    }
    routes
}

} // verus!
