//! The RPC front: what each request is answered with or dispatched as, and
//! the bootstrapped-monitor bookkeeping that streams the head to subscribed
//! callers until the node is bootstrapped.

use vstd::prelude::*;

verus! {

/// A request arriving over the RPC surface that the shell core decides on.
pub enum RpcRequest {
    /// An operation to inject into the mempool, with its hash and the
    /// caller's correlation id.
    InjectOperation { operation: Vec<u8>, operation_hash: Vec<u8>, rpc_id: u64 },
    /// Whether the mempool is running.
    MempoolStatus,
    /// The mempool's pending operations, streamed to the caller.
    GetPendingOperations { rpc_id: u64 },
    /// Ask every connected peer for its current head.
    RequestCurrentHeadFromConnectedPeers,
    /// Drop the named operations from the mempool pools.
    RemoveOperations { operation_hashes: Vec<Vec<u8>> },
}

/// What the core does with one RPC request.
pub enum RpcDecision {
    /// Feed the injection to the mempool, keyed by the caller's id.
    Dispatch { operation: Vec<u8>, operation_hash: Vec<u8>, rpc_id: u64 },
    /// Refuse the request with an error message.
    ReplyError { message: &'static str },
    /// Answer with the canonical empty JSON value.
    ReplyNull,
    /// Answer with the empty string.
    ReplyEmptyString,
    /// Hand the pending-operations stream to the mempool.
    DispatchPending { rpc_id: u64 },
    /// Ask the peers for their heads, then answer with the empty JSON value.
    AskHeads,
    /// Hand the removal to the mempool, then answer with the empty JSON
    /// value.
    DispatchRemove { operation_hashes: Vec<Vec<u8>> },
}

/// Decides one RPC request: an injection is dispatched once a local head
/// exists and refused before that; the mempool status is the empty string
/// while the mempool runs and the empty JSON value before it starts; the
/// remaining requests are handed to the mempool as they stand.
pub fn rpc_request_decision(head_ready: bool, running: bool, req: RpcRequest) -> (r: RpcDecision)
    ensures
        match req {
            RpcRequest::InjectOperation { ref operation, ref operation_hash, rpc_id } => {
                if head_ready {
                    (r matches RpcDecision::Dispatch { operation: o, operation_hash: h, rpc_id: i }
                        && o@ == operation@ && h@ == operation_hash@ && i == rpc_id)
                } else {
                    (r matches RpcDecision::ReplyError { message } && message@
                        == "head is not ready"@)
                }
            },
            RpcRequest::MempoolStatus => {
                &&& running ==> r is ReplyEmptyString
                &&& !running ==> r is ReplyNull
            },
            RpcRequest::GetPendingOperations { rpc_id } => (r
                matches RpcDecision::DispatchPending { rpc_id: i } && i == rpc_id),
            RpcRequest::RequestCurrentHeadFromConnectedPeers => r is AskHeads,
            RpcRequest::RemoveOperations { ref operation_hashes } => (r
                matches RpcDecision::DispatchRemove { operation_hashes: h } && h@
                == operation_hashes@),
        },
{
    match req {
        RpcRequest::InjectOperation { operation, operation_hash, rpc_id } => {
            if head_ready {
                RpcDecision::Dispatch { operation, operation_hash, rpc_id }
            } else {
                RpcDecision::ReplyError { message: "head is not ready" }
            }
        },
        RpcRequest::MempoolStatus => {
            if running {
                RpcDecision::ReplyEmptyString
            } else {
                RpcDecision::ReplyNull
            }
        },
        RpcRequest::GetPendingOperations { rpc_id } => RpcDecision::DispatchPending { rpc_id },
        RpcRequest::RequestCurrentHeadFromConnectedPeers => RpcDecision::AskHeads,
        RpcRequest::RemoveOperations { operation_hashes } => RpcDecision::DispatchRemove {
            operation_hashes,
        },
    }
}

/// The bootstrapped monitor: the callers subscribed to the bootstrapped
/// stream, and the last head they were told of, with whether the node counted
/// as bootstrapped at that head.
pub struct BootstrappedMonitor {
    /// Correlation ids of the callers still subscribed.
    pub requests: Vec<u64>,
    /// The last head: its hash, its timestamp, and whether the node was
    /// bootstrapped there. `None` before any head arrived.
    pub head: Option<(Vec<u8>, i64, bool)>,
}

impl BootstrappedMonitor {
    pub fn new() -> (r: BootstrappedMonitor)
        ensures
            r.requests@.len() == 0,
            r.head is None,
    {
        BootstrappedMonitor { requests: Vec::new(), head: None }
    }

    /// A caller subscribes. It is answered at once when a head is known
    /// (`respond`), and the stream closes at once when that head already
    /// counted as bootstrapped (`done`); only a caller whose stream stays
    /// open is remembered.
    pub fn subscribe(&mut self, rpc_id: u64) -> (r: (bool, bool))
        ensures
            r.0 == (final(self).head is Some),
            r.1 == (final(self).head matches Some((_, _, true))),
            final(self).head == old(self).head,
            if (old(self).head matches Some((_, _, true))) {
                final(self).requests@ == old(self).requests@
            } else {
                final(self).requests@ == old(self).requests@.push(rpc_id)
            },
    {
        match &self.head {
            Some((_, _, bootstrapped)) => {
                let done = *bootstrapped;
                if !done {
                    self.requests.push(rpc_id);
                }
                (true, done)
            },
            None => {
                self.requests.push(rpc_id);
                (false, false)
            },
        }
    }

    /// A new head arrives. Every subscribed caller is notified, in
    /// subscription order; when the node now counts as bootstrapped every
    /// stream closes, so nobody stays subscribed.
    pub fn new_block(&mut self, block: Vec<u8>, timestamp: i64, is_bootstrapped: bool) -> (notified:
        Vec<u64>)
        ensures
            notified@ == old(self).requests@,
            (final(self).head matches Some((b, t, s)) && b@ == block@ && t == timestamp && s
                == is_bootstrapped),
            if is_bootstrapped {
                final(self).requests@.len() == 0
            } else {
                final(self).requests@ == old(self).requests@
            },
    {
        let mut notified: Vec<u64> = Vec::new();
        let mut i: usize = 0;
        while i < self.requests.len()
            invariant
                i <= self.requests@.len(),
                notified@ == self.requests@.take(i as int),
                self.requests@ == old(self).requests@,
                self.head == old(self).head,
            decreases self.requests@.len() - i,
        {
            notified.push(self.requests[i]);
            i = i + 1;
            proof {
                assert(notified@ =~= self.requests@.take(i as int));
            }
        }
        proof {
            assert(self.requests@.take(self.requests@.len() as int) =~= self.requests@);
        }
        self.head = Some((block, timestamp, is_bootstrapped));
        if is_bootstrapped {
            self.requests = Vec::new();
        }
        notified
    }
}

} // verus!
