//! The read-only context protocol between a reader and the writer that owns
//! the context: its requests, its responses, and the pure serving step the
//! writer runs per request.

use vstd::prelude::*;
use crate::context::TezedgeContext;
use crate::messages::copy_bytes;

verus! {

/// What a read-only context reader may ask.
pub enum ContextRequest {
    GetContextHashId(Vec<u8>),
    GetHash(u64),
    GetValue(Vec<Vec<u8>>),
    GetShape(u64),
    ContainsObject(Vec<Vec<u8>>),
    ShutdownCall,
}

/// What the writer answers.
pub enum ContextResponse {
    GetContextHashIdResponse(Option<u64>),
    GetContextHashResponse(Option<Vec<u8>>),
    GetValueResponse(Option<Vec<u8>>),
    GetShapeResponse(Option<Vec<Vec<u8>>>),
    ContainsObjectResponse(bool),
    ShutdownResult,
}

/// A component with buffered writes that can be pushed out.
pub trait Flushable {
    fn flush(&self) -> Result<(), ContextIpcError>;
}

/// A component that may or may not survive a restart.
pub trait Persistable {
    fn is_persistent(&self) -> bool;
}

/// Why serving a context request failed.
#[derive(Clone, Copy, PartialEq, Eq, Structural, Debug)]
pub enum ContextIpcError {
    ChannelClosed,
    Timeout,
}

/// Serves one read-only request against the context: lookups answer from the
/// tree, and a shutdown request answers with the shutdown acknowledgement.
/// Returns whether serving should go on.
pub fn serve_context_request(context: &TezedgeContext, request: &ContextRequest) -> (r: (
    ContextResponse,
    bool,
))
    requires
        context.wf(),
    ensures
        match *request {
            ContextRequest::GetValue(ref key) => {
                &&& r.1
                &&& (if context.tree_view().dom().contains(
                    crate::context::joined_key(key.deep_view()),
                ) {
                    r.0 matches ContextResponse::GetValueResponse(v) && (v matches Some(b) && b@
                        == context.tree_view()[crate::context::joined_key(key.deep_view())]@)
                } else {
                    r.0 matches ContextResponse::GetValueResponse(v) && v is None
                })
            },
            ContextRequest::ContainsObject(ref key) => {
                &&& r.1
                &&& r.0 matches ContextResponse::ContainsObjectResponse(b) && b
                    == context.tree_view().dom().contains(
                    crate::context::joined_key(key.deep_view()),
                )
            },
            ContextRequest::GetContextHashId(ref context_hash) => {
                &&& r.1
                &&& (if context.hash_ids_view().dom().contains(context_hash@) {
                    r.0 == ContextResponse::GetContextHashIdResponse(
                        Some(context.hash_ids_view()[context_hash@]),
                    )
                } else {
                    r.0 == ContextResponse::GetContextHashIdResponse(None)
                })
            },
            ContextRequest::GetHash(id) => {
                &&& r.1
                &&& (if context.object_hashes_view().dom().contains(crate::wire::be_u64(id)) {
                    (r.0 matches ContextResponse::GetContextHashResponse(v) && (v matches Some(b)
                        && b@ == context.object_hashes_view()[crate::wire::be_u64(id)]@))
                } else {
                    r.0 == ContextResponse::GetContextHashResponse(None)
                })
            },
            ContextRequest::GetShape(id) => {
                &&& r.1
                &&& (if context.shapes_view().dom().contains(crate::wire::be_u64(id)) {
                    (r.0 matches ContextResponse::GetShapeResponse(v) && (v matches Some(d)
                        && d.deep_view() == context.shapes_view()[crate::wire::be_u64(
                        id,
                    )].deep_view()))
                } else {
                    r.0 == ContextResponse::GetShapeResponse(None)
                })
            },
            ContextRequest::ShutdownCall => r.0 is ShutdownResult && !r.1,
        },
{
    match request {
        ContextRequest::GetValue(key) => {
            match context.get_value(key) {
                Ok(v) => (ContextResponse::GetValueResponse(Some(copy_bytes(v))), true),
                Err(_) => (ContextResponse::GetValueResponse(None), true),
            }
        },
        ContextRequest::ContainsObject(key) => {
            let found = match context.get_value(key) {
                Ok(_) => true,
                Err(_) => false,
            };
            (ContextResponse::ContainsObjectResponse(found), true)
        },
        ContextRequest::GetContextHashId(context_hash) => {
            (ContextResponse::GetContextHashIdResponse(context.hash_id_of(context_hash)), true)
        },
        ContextRequest::GetHash(id) => {
            match context.object_hash_of(*id) {
                Some(b) => (ContextResponse::GetContextHashResponse(Some(copy_bytes(b))), true),
                None => (ContextResponse::GetContextHashResponse(None), true),
            }
        },
        ContextRequest::GetShape(id) => {
            match context.shape_of(*id) {
                Some(d) => {
                    let mut dirs: Vec<Vec<u8>> = Vec::new();
                    let mut i: usize = 0;
                    while i < d.len()
                        invariant
                            i <= d@.len(),
                            dirs.deep_view() == d.deep_view().take(i as int),
                        decreases d@.len() - i,
                    {
                        let ghost prefix = dirs.deep_view();
                        dirs.push(copy_bytes(&d[i]));
                        proof {
                            assert(dirs.deep_view() =~~= prefix.push(d.deep_view()[i as int]));
                            assert(prefix.push(d.deep_view()[i as int]) =~~= d.deep_view().take(
                                i as int + 1,
                            ));
                        }
                        i = i + 1;
                    }
                    proof {
                        assert(d.deep_view().take(d@.len() as int) =~~= d.deep_view());
                    }
                    (ContextResponse::GetShapeResponse(Some(dirs)), true)
                },
                None => (ContextResponse::GetShapeResponse(None), true),
            }
        },
        ContextRequest::ShutdownCall => (ContextResponse::ShutdownResult, false),
    }
}

} // verus!
