//! The network seam: low-level actions an abstract server exchanges with the
//! transport, and the pure dispatch of those actions into a network-aware
//! state.

use vstd::prelude::*;

verus! {

/// A transport stream's identity.
#[derive(Clone, Copy, PartialEq, Eq, Structural, Debug)]
pub struct StreamId(pub usize);

/// Why a network operation failed.
#[derive(Clone, Copy, PartialEq, Eq, Structural, Debug)]
pub enum NetworkError {
    ConnectionFailed,
    AlreadyListening,
    StreamIo(StreamId),
    StreamNotFound(StreamId),
    AlreadyReading(StreamId),
    AlreadyWriting(StreamId),
}

/// Low-level actions for an abstract server.
pub enum NetworkAction {
    /// Starts listening on the configured address.
    Listen,
    /// Initiates an outgoing connection.
    ConnectTo,
    /// Reads the given number of bytes from the stream.
    Read(StreamId, usize),
    /// Writes the bytes to the stream.
    Write(StreamId, Vec<u8>),
    /// The server is listening.
    Listening,
    /// An incoming connection was accepted.
    Accepted(StreamId),
    /// An outgoing connection was established.
    Connected(StreamId),
    /// A portion of incoming data is available.
    ReadReady(StreamId, Vec<u8>),
    /// The read side of the stream closed.
    ReadClosed(StreamId),
    /// The pending write completed.
    WriteReady(StreamId),
    /// The write side of the stream closed.
    WriteClosed(StreamId),
    /// The idle tick.
    Tick,
    /// An error occurred.
    Error(NetworkError),
}

/// A state capable of asynchronous reading and writing. The transport layer
/// drives it through `reduce`.
pub trait NetworkState {
    /// Whether the state is listening for incoming connections.
    fn is_listening(&self) -> bool;

    /// Whether the state is reading from the stream.
    fn is_reading(&self, stream_id: StreamId) -> bool;

    /// Whether the state is writing to the stream.
    fn is_writing(&self, stream_id: StreamId) -> bool;

    /// Start listening.
    fn start_listening(&mut self);

    /// A connection appeared, incoming or outgoing.
    fn connected(&mut self, stream_id: StreamId, incoming: bool);

    /// Start reading from the stream.
    fn start_read(&mut self, stream_id: StreamId, size: usize);

    /// Start writing to the stream.
    fn start_write(&mut self, stream_id: StreamId, bytes: Vec<u8>);

    /// Bytes arrived from the stream.
    fn read_done(&mut self, stream_id: StreamId, bytes: Vec<u8>);

    /// The read side closed.
    fn read_closed(&mut self, stream_id: StreamId);

    /// The pending write completed.
    fn write_done(&mut self, stream_id: StreamId);

    /// The write side closed.
    fn write_closed(&mut self, stream_id: StreamId);

    /// An error occurred.
    fn network_error(&mut self, error: NetworkError);

    /// The idle update.
    fn idle(&mut self);
}

/// Dispatches one network action into the state; request actions are handled
/// by the transport and change nothing here.
pub fn reduce<S: NetworkState>(state: &mut S, action: NetworkAction) {
    match action {
        NetworkAction::Listen => (),
        NetworkAction::ConnectTo => (),
        NetworkAction::Connected(stream_id) => state.connected(stream_id, false),
        NetworkAction::Accepted(stream_id) => state.connected(stream_id, true),
        NetworkAction::Listening => state.start_listening(),
        NetworkAction::Read(stream_id, size) => state.start_read(stream_id, size),
        NetworkAction::Write(stream_id, bytes) => state.start_write(stream_id, bytes),
        NetworkAction::ReadReady(stream_id, bytes) => state.read_done(stream_id, bytes),
        NetworkAction::ReadClosed(stream_id) => state.read_closed(stream_id),
        NetworkAction::WriteReady(stream_id) => state.write_done(stream_id),
        NetworkAction::WriteClosed(stream_id) => state.write_closed(stream_id),
        NetworkAction::Tick => state.idle(),
        NetworkAction::Error(err) => state.network_error(err),
    }
}

} // verus!
