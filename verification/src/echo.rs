//! A small echo server over the action store: each client stream listens,
//! echoes what it hears, and returns to listening.

use vstd::prelude::*;
use crate::assoc::KeyMap;
use crate::store::{Dispatcher, Middleware, State};
use crate::wire::be_u64;

verus! {

/// Where one client stream stands.
#[derive(Clone, Copy, PartialEq, Eq, Structural, Debug)]
pub enum StreamState {
    Initial,
    Listening,
    Echoing,
    Disconnected,
    Error,
}

/// What can happen to the echo server.
pub enum EchoServerAction {
    Start,
    Started,
    Connected { stream_id: u64 },
    Listen { stream_id: u64 },
    Shout { stream_id: u64, data: Vec<u8> },
    Echo { stream_id: u64, data: Vec<u8> },
    EchoSent { stream_id: u64 },
    Disconnect { stream_id: u64 },
    Fail,
}

/// The echo server: not yet started, serving clients, or broken.
pub enum EchoServerState {
    Initial,
    Active { clients: KeyMap<StreamState> },
    Failed,
}

/// The bytes that key a stream in the client table.
pub open spec fn stream_key(stream_id: u64) -> Seq<u8> {
    be_u64(stream_id)
}

/// One client walk step: a stream in `from` moves to `to`; anything else
/// stays put.
pub open spec fn stream_step(
    pre: &EchoServerState,
    post: &EchoServerState,
    stream_id: u64,
    from: StreamState,
    to: StreamState,
) -> bool {
    match *pre {
        EchoServerState::Active { ref clients } => {
            if clients@.dom().contains(stream_key(stream_id)) && clients@[stream_key(stream_id)]
                == from {
                (*post matches EchoServerState::Active { .. }) && post->Active_clients@
                    == clients@.insert(stream_key(stream_id), to)
            } else {
                post == pre
            }
        },
        _ => post == pre,
    }
}

/// What one action does to the echo server, case by case. An unusable client
/// table (never produced by these transitions) freezes the state.
pub open spec fn echo_transition(
    pre: &EchoServerState,
    a: &EchoServerAction,
    post: &EchoServerState,
) -> bool {
    if !pre.wf() {
        post == pre
    } else {
        match *a {
            EchoServerAction::Start => {
                if *pre is Initial {
                    (*post matches EchoServerState::Active { clients }) && post->Active_clients@
                        == Map::<Seq<u8>, StreamState>::empty()
                } else {
                    post == pre
                }
            },
            EchoServerAction::Started => post == pre,
            EchoServerAction::Connected { stream_id } => {
                match *pre {
                    EchoServerState::Active { ref clients } => (*post
                        matches EchoServerState::Active { .. }) && post->Active_clients@
                        == clients@.insert(stream_key(stream_id), StreamState::Initial),
                    _ => post == pre,
                }
            },
            EchoServerAction::Listen { stream_id } => stream_step(
                pre,
                post,
                stream_id,
                StreamState::Initial,
                StreamState::Listening,
            ),
            EchoServerAction::Shout { stream_id, .. } => stream_step(
                pre,
                post,
                stream_id,
                StreamState::Listening,
                StreamState::Echoing,
            ),
            EchoServerAction::Echo { .. } => post == pre,
            EchoServerAction::EchoSent { stream_id } => stream_step(
                pre,
                post,
                stream_id,
                StreamState::Echoing,
                StreamState::Listening,
            ),
            EchoServerAction::Disconnect { stream_id } => {
                match *pre {
                    EchoServerState::Active { ref clients } => {
                        if clients@.dom().contains(stream_key(stream_id)) && clients@[stream_key(
                            stream_id,
                        )] != StreamState::Error && clients@[stream_key(stream_id)]
                            != StreamState::Disconnected {
                            (*post matches EchoServerState::Active { .. })
                                && post->Active_clients@ == clients@.insert(
                                stream_key(stream_id),
                                StreamState::Disconnected,
                            )
                        } else {
                            post == pre
                        }
                    },
                    _ => post == pre,
                }
            },
            EchoServerAction::Fail => {
                if *pre is Failed {
                    post == pre
                } else {
                    *post is Failed
                }
            },
        }
    }
}

impl EchoServerState {
    pub open spec fn wf(&self) -> bool {
        match self {
            EchoServerState::Active { clients } => clients.wf(),
            _ => true,
        }
    }

    /// Reads a client's state, when the server is active and knows the
    /// stream.
    pub fn with_stream(&self, stream_id: u64) -> (r: Option<StreamState>)
        requires
            self.wf(),
        ensures
            match *self {
                EchoServerState::Active { ref clients } => {
                    if clients@.dom().contains(stream_key(stream_id)) {
                        r == Some(clients@[stream_key(stream_id)])
                    } else {
                        r is None
                    }
                },
                _ => r is None,
            },
    {
        match self {
            EchoServerState::Active { clients } => {
                let mut key: Vec<u8> = Vec::new();
                crate::wire::put_u64_be(&mut key, stream_id);
                proof {
                    assert(key@ =~= stream_key(stream_id));
                }
                match clients.get(&key) {
                    Some(s) => Some(*s),
                    None => None,
                }
            },
            _ => None,
        }
    }

    /// Replaces a client's state, when the server is active and knows the
    /// stream.
    pub fn with_stream_mut(&mut self, stream_id: u64, next: StreamState)
        requires
            old(self).wf(),
        ensures
            final(self).wf(),
            match *old(self) {
                EchoServerState::Active { ref clients } => {
                    if clients@.dom().contains(stream_key(stream_id)) {
                        *final(self) matches EchoServerState::Active { clients: c1 } && c1@
                            == clients@.insert(stream_key(stream_id), next)
                    } else {
                        *final(self) == *old(self)
                    }
                },
                _ => *final(self) == *old(self),
            },
    {
        match self {
            EchoServerState::Active { clients } => {
                let mut key: Vec<u8> = Vec::new();
                crate::wire::put_u64_be(&mut key, stream_id);
                proof {
                    assert(key@ =~= stream_key(stream_id));
                }
                if clients.contains_key(&key) {
                    clients.insert(key, next);
                }
            },
            _ => {},
        }
    }

    /// Applies one action, exactly as `echo_transition` says: start
    /// activates the server, a connection registers a stream, and each
    /// stream walks listening and echoing as the actions prescribe.
    pub fn apply(&mut self, action: &EchoServerAction)
        requires
            old(self).wf(),
        ensures
            final(self).wf(),
            echo_transition(old(self), action, final(self)),
    {
        match action {
            EchoServerAction::Start => {
                if matches!(self, EchoServerState::Initial) {
                    *self = EchoServerState::Active { clients: KeyMap::new() };
                }
            },
            EchoServerAction::Started => {},
            EchoServerAction::Connected { stream_id } => {
                match self {
                    EchoServerState::Active { clients } => {
                        let mut key: Vec<u8> = Vec::new();
                        crate::wire::put_u64_be(&mut key, *stream_id);
                        proof {
                            assert(key@ =~= stream_key(*stream_id));
                        }
                        clients.insert(key, StreamState::Initial);
                    },
                    _ => {},
                }
            },
            EchoServerAction::Listen { stream_id } => {
                match self.with_stream(*stream_id) {
                    Some(StreamState::Initial) => {
                        self.with_stream_mut(*stream_id, StreamState::Listening);
                    },
                    _ => {},
                }
            },
            EchoServerAction::Shout { stream_id, .. } => {
                match self.with_stream(*stream_id) {
                    Some(StreamState::Listening) => {
                        self.with_stream_mut(*stream_id, StreamState::Echoing);
                    },
                    _ => {},
                }
            },
            EchoServerAction::Echo { .. } => {},
            EchoServerAction::EchoSent { stream_id } => {
                match self.with_stream(*stream_id) {
                    Some(StreamState::Echoing) => {
                        self.with_stream_mut(*stream_id, StreamState::Listening);
                    },
                    _ => {},
                }
            },
            EchoServerAction::Disconnect { stream_id } => {
                match self.with_stream(*stream_id) {
                    Some(StreamState::Error) => {},
                    Some(StreamState::Disconnected) => {},
                    Some(_) => {
                        self.with_stream_mut(*stream_id, StreamState::Disconnected);
                    },
                    None => {},
                }
            },
            EchoServerAction::Fail => {
                if !matches!(self, EchoServerState::Failed) {
                    *self = EchoServerState::Failed;
                }
            },
        }
    }
}

impl State<EchoServerAction> for EchoServerState {
    open spec fn transition(
        pre: &EchoServerState,
        action: &EchoServerAction,
        post: &EchoServerState,
    ) -> bool {
        echo_transition(pre, action, post)
    }

    fn reduce(&mut self, action: EchoServerAction) {
        if self.wf_check() {
            self.apply(&action);
        }
    }
}

impl EchoServerState {
    /// Whether the client table is usable; true for every state the server
    /// transitions build.
    pub fn wf_check(&self) -> (r: bool)
        ensures
            r == self.wf(),
    {
        match self {
            EchoServerState::Active { clients } => clients.check_wf(),
            _ => true,
        }
    }
}

/// The middleware that makes streams echo: a shout at a listening stream
/// dispatches the echo, and a completed echo dispatches the bookkeeping that
/// returns the stream to listening. The server's start dispatches the
/// started acknowledgement.
pub fn echo_server_middleware(
    state: &EchoServerState,
    action: EchoServerAction,
    dispatcher: &mut Dispatcher<EchoServerAction>,
) -> (r: Option<EchoServerAction>)
    requires
        state.wf(),
    ensures
        r is Some,
{
    match &action {
        EchoServerAction::Start => {
            if matches!(state, EchoServerState::Initial) {
                dispatcher.dispatch(EchoServerAction::Started);
            }
        },
        EchoServerAction::Shout { stream_id, data } => {
            match state.with_stream(*stream_id) {
                Some(StreamState::Listening) => {
                    dispatcher.dispatch(
                        EchoServerAction::Echo {
                            stream_id: *stream_id,
                            data: crate::messages::copy_bytes(data),
                        },
                    );
                },
                _ => {},
            }
        },
        EchoServerAction::Echo { stream_id, .. } => {
            match state.with_stream(*stream_id) {
                Some(StreamState::Echoing) => {
                    dispatcher.dispatch(EchoServerAction::EchoSent { stream_id: *stream_id });
                },
                _ => {},
            }
        },
        _ => {},
    }
    Some(action)
}

/// The middleware as a store stage.
pub struct EchoMiddleware;

impl Middleware<EchoServerState, EchoServerAction> for EchoMiddleware {
    fn apply(
        &mut self,
        state: &EchoServerState,
        action: EchoServerAction,
        dispatcher: &mut Dispatcher<EchoServerAction>,
    ) -> Option<EchoServerAction> {
        if state.wf_check() {
            echo_server_middleware(state, action, dispatcher)
        } else {
            Some(action)
        }
    }
}

} // verus!
