//! Round trips and boundaries of the peer-message codec.

use shell_core::binary_message::{BinaryChunk, BinaryChunkError};
use shell_core::codec::{CONTENT_LENGTH_FIELD_BYTES, CONTENT_LENGTH_MAX, OPERATION_MAX_SIZE};
use shell_core::hash::operation_hash;
use shell_core::messages::{
    AckMessage, AdvertiseMessage, BlockHeader, BlockHeaderMessage, CurrentBranchMessage,
    CurrentHeadMessage, DeactivateMessage, GetBlockHeadersMessage, GetCurrentBranchMessage,
    GetCurrentHeadMessage, GetOperationsForBlocksMessage, GetOperationsMessage, Mempool, NackInfo,
    NomFrom, Operation, OperationMessage, OperationsForBlock, OperationsForBlocksMessage, Path,
    PathLeft, PathRight, PeerMessage, PeerMessageResponse, SwapMessage,
};
use shell_core::codec::NackMotive;
use shell_core::storage::{MempoolKey, MempoolOperationType, MempoolOperationTypeParseError};

fn hash(fill: u8) -> Vec<u8> {
    vec![fill; 32]
}

fn chain_id() -> Vec<u8> {
    vec![9, 8, 7, 6]
}

fn sample_header(level: i32) -> BlockHeader {
    BlockHeader::new(
        level,
        1,
        hash(0xaa),
        1_650_000_000,
        4,
        hash(0xbb),
        vec![vec![0], vec![0, 0, 0, 0, 0, 0, 0, 42]],
        hash(0xcc),
        vec![1, 2, 3, 4],
    )
}

fn roundtrip(msg: PeerMessage) -> PeerMessage {
    let resp = PeerMessageResponse::from_message(msg);
    let bytes = resp.as_bytes().expect("encoding should succeed");
    let back = PeerMessageResponse::from_bytes(&bytes).expect("decoding should succeed");
    assert_eq!(back.messages().len(), 1);
    // A second encoding of the decoded value must reproduce the bytes.
    let bytes2 = back.as_bytes().expect("re-encoding should succeed");
    assert_eq!(bytes, bytes2);
    let mut v = back.into_messages();
    v.pop().unwrap()
}

#[test]
fn roundtrip_simple_messages() {
    match roundtrip(PeerMessage::Disconnect) {
        PeerMessage::Disconnect => {}
        _ => panic!("expected the disconnect message back"),
    }
    match roundtrip(PeerMessage::Bootstrap) {
        PeerMessage::Bootstrap => {}
        _ => panic!("expected the bootstrap message back"),
    }
    match roundtrip(PeerMessage::GetCurrentBranch(GetCurrentBranchMessage::new(chain_id()))) {
        PeerMessage::GetCurrentBranch(m) => assert_eq!(m.chain_id(), &chain_id()),
        _ => panic!("expected the get-current-branch message back"),
    }
    match roundtrip(PeerMessage::Deactivate(DeactivateMessage::new(chain_id()))) {
        PeerMessage::Deactivate(m) => assert_eq!(m.deactivate(), &chain_id()),
        _ => panic!("expected the deactivate message back"),
    }
    match roundtrip(PeerMessage::GetCurrentHead(GetCurrentHeadMessage::new(chain_id()))) {
        PeerMessage::GetCurrentHead(m) => assert_eq!(m.chain_id(), &chain_id()),
        _ => panic!("expected the get-current-head message back"),
    }
}

#[test]
fn roundtrip_advertise_and_swap() {
    let points = vec![
        "[2001:db8::1]:9732".to_string(),
        "127.0.0.1:19732".to_string(),
        "pünkt:1".to_string(),
    ];
    match roundtrip(PeerMessage::Advertise(AdvertiseMessage::new(points.clone()))) {
        PeerMessage::Advertise(m) => assert_eq!(m.id(), &points),
        _ => panic!("expected the advertise message back"),
    }
    let swap = SwapMessage::new("10.0.0.7:9732".to_string(), vec![5; 16]);
    match roundtrip(PeerMessage::SwapRequest(swap)) {
        PeerMessage::SwapRequest(m) => {
            assert_eq!(m.point(), "10.0.0.7:9732");
            assert_eq!(m.peer_id(), &vec![5u8; 16]);
        }
        _ => panic!("expected the swap request back"),
    }
}

#[test]
fn roundtrip_heads_and_branches() {
    let mempool = Mempool::new(vec![hash(1), hash(2)], vec![hash(3)]);
    let head = CurrentHeadMessage::new(chain_id(), sample_header(77), mempool);
    match roundtrip(PeerMessage::CurrentHead(head)) {
        PeerMessage::CurrentHead(m) => {
            assert_eq!(m.chain_id(), &chain_id());
            assert_eq!(m.current_block_header().level(), 77);
            assert_eq!(m.current_mempool().known_valid(), &vec![hash(1), hash(2)]);
            assert_eq!(m.current_mempool().pending(), &vec![hash(3)]);
        }
        _ => panic!("expected the current-head message back"),
    }
    let branch = CurrentBranchMessage::new(chain_id(), sample_header(100), vec![hash(4), hash(5)]);
    match roundtrip(PeerMessage::CurrentBranch(branch)) {
        PeerMessage::CurrentBranch(m) => {
            assert_eq!(m.current_head().level(), 100);
            assert_eq!(m.history(), &vec![hash(4), hash(5)]);
        }
        _ => panic!("expected the current-branch message back"),
    }
    match roundtrip(PeerMessage::BlockHeader(BlockHeaderMessage::new(sample_header(42)))) {
        PeerMessage::BlockHeader(m) => {
            assert_eq!(m.block_header().level(), 42);
            assert_eq!(m.block_header().timestamp(), 1_650_000_000);
            assert_eq!(m.block_header().validation_pass(), 4);
            assert_eq!(m.block_header().fitness().len(), 2);
        }
        _ => panic!("expected the block-header message back"),
    }
    match roundtrip(PeerMessage::GetBlockHeaders(GetBlockHeadersMessage::new(vec![hash(6)]))) {
        PeerMessage::GetBlockHeaders(m) => assert_eq!(m.get_block_headers(), &vec![hash(6)]),
        _ => panic!("expected the get-block-headers message back"),
    }
}

#[test]
fn roundtrip_operations_messages() {
    let op = Operation::new(hash(0x11), vec![0, 1, 2, 3]);
    match roundtrip(PeerMessage::Operation(OperationMessage::new(op))) {
        PeerMessage::Operation(m) => {
            assert_eq!(m.operation().branch(), &hash(0x11));
            assert_eq!(m.operation().data(), &vec![0u8, 1, 2, 3]);
        }
        _ => panic!("expected the operation message back"),
    }
    match roundtrip(PeerMessage::GetOperations(GetOperationsMessage::new(vec![hash(7), hash(8)]))) {
        PeerMessage::GetOperations(m) => assert_eq!(m.get_operations().len(), 2),
        _ => panic!("expected the get-operations message back"),
    }
    let queries = vec![
        OperationsForBlock::new(hash(0x21), 0),
        OperationsForBlock::new(hash(0x21), 1),
    ];
    match roundtrip(PeerMessage::GetOperationsForBlocks(GetOperationsForBlocksMessage::new(queries)))
    {
        PeerMessage::GetOperationsForBlocks(m) => {
            assert_eq!(m.get_operations_for_blocks().len(), 2);
            assert_eq!(m.get_operations_for_blocks()[1].validation_pass(), 1);
        }
        _ => panic!("expected the get-operations-for-blocks message back"),
    }
    let path = Path::Left(Box::new(PathLeft {
        path: Path::Right(Box::new(PathRight { left: hash(0x31), path: Path::Op })),
        right: hash(0x32),
    }));
    let ops = vec![
        Operation::new(hash(0x41), vec![9, 9]),
        Operation::new(hash(0x42), vec![]),
    ];
    let msg = OperationsForBlocksMessage::new(OperationsForBlock::new(hash(0x21), 2), path, ops);
    match roundtrip(PeerMessage::OperationsForBlocks(msg)) {
        PeerMessage::OperationsForBlocks(m) => {
            assert_eq!(m.operations_for_block().block_hash(), &hash(0x21));
            assert_eq!(m.operations_for_block().validation_pass(), 2);
            assert_eq!(m.operations().len(), 2);
            match m.operation_hashes_path() {
                Path::Left(l) => {
                    assert_eq!(&l.right, &hash(0x32));
                    match &l.path {
                        Path::Right(r) => {
                            assert_eq!(&r.left, &hash(0x31));
                            assert!(matches!(r.path, Path::Op));
                        }
                        _ => panic!("expected a right node"),
                    }
                }
                _ => panic!("expected a left node"),
            }
        }
        _ => panic!("expected the operations-for-blocks message back"),
    }
}

#[test]
fn decode_rejects_trailing_garbage_and_bad_tags() {
    let resp = PeerMessageResponse::from_message(PeerMessage::Bootstrap);
    let mut bytes = resp.as_bytes().unwrap();
    bytes.push(0);
    assert!(PeerMessageResponse::from_bytes(&bytes).is_none());
    // An unsupported tag inside the frame is rejected.
    let unknown = vec![0, 0, 0, 2, 0x00, 0x41];
    assert!(PeerMessageResponse::from_bytes(&unknown).is_none());
}

#[test]
fn operation_size_boundary() {
    // The largest well-formed operation encodes to exactly the maximum.
    let op = Operation::new(hash(1), vec![7; OPERATION_MAX_SIZE - 32]);
    assert!(op.check_size());
    let mut bytes = Vec::new();
    op.encode(&mut bytes);
    assert_eq!(bytes.len(), OPERATION_MAX_SIZE);
    // One byte more is rejected by the size check and by the decoder.
    let big = Operation::new(hash(1), vec![7; OPERATION_MAX_SIZE - 31]);
    assert!(!big.check_size());
    let mut big_bytes = Vec::new();
    big.encode(&mut big_bytes);
    assert_eq!(big_bytes.len(), OPERATION_MAX_SIZE + 1);
    assert!(shell_core::messages::decode_operation_range(&big_bytes, 0, big_bytes.len()).is_none());
    let ok = shell_core::messages::decode_operation_range(&bytes, 0, bytes.len());
    assert!(ok.is_some());
}

#[test]
fn operation_hash_is_blake2b_of_encoding() {
    let op = Operation::new(hash(0x5a), vec![10, 20, 30]);
    let mut encoding = Vec::new();
    op.encode(&mut encoding);
    let expected: Vec<u8> = {
        let mut hasher = <blake2::Blake2b256 as blake2::Digest>::new();
        blake2::Digest::update(&mut hasher, encoding.as_slice());
        blake2::Digest::finalize(hasher).to_vec()
    };
    assert_eq!(operation_hash(&op), expected);
    assert_eq!(expected.len(), 32);
}

#[test]
fn test_binary_from_content() {
    let chunk = BinaryChunk::from_content(&vec![]).unwrap();
    assert_eq!(CONTENT_LENGTH_FIELD_BYTES, chunk.raw().len());
    assert_eq!(CONTENT_LENGTH_FIELD_BYTES, chunk.raw().capacity());

    let chunk = BinaryChunk::from_content(&vec![1]).unwrap();
    assert_eq!(CONTENT_LENGTH_FIELD_BYTES + 1, chunk.raw().len());
    assert_eq!(CONTENT_LENGTH_FIELD_BYTES + 1, chunk.raw().capacity());

    let chunk = BinaryChunk::from_content(&vec![1, 2, 3, 4, 5, 6, 7, 8, 9, 10, 11, 12, 13, 14, 15])
        .unwrap();
    assert_eq!(CONTENT_LENGTH_FIELD_BYTES + 15, chunk.raw().len());
    assert_eq!(CONTENT_LENGTH_FIELD_BYTES + 15, chunk.raw().capacity());

    let chunk = BinaryChunk::from_content(&vec![1; CONTENT_LENGTH_MAX]).unwrap();
    assert_eq!(CONTENT_LENGTH_FIELD_BYTES + CONTENT_LENGTH_MAX, chunk.raw().len());
    assert_eq!(CONTENT_LENGTH_FIELD_BYTES + CONTENT_LENGTH_MAX, chunk.raw().capacity());
}

#[test]
fn binary_chunk_raw_errors() {
    match BinaryChunk::from_content(&vec![0; CONTENT_LENGTH_MAX + 1]) {
        Err(e) => assert_eq!(e, BinaryChunkError::OverflowError),
        Ok(_) => panic!("an oversized content must be refused"),
    }
    match BinaryChunk::from_raw(vec![5]) {
        Err(e) => assert_eq!(e, BinaryChunkError::MissingSizeInformation),
        Ok(_) => panic!("a one-byte chunk must be refused"),
    }
    match BinaryChunk::from_raw(vec![0, 4, 1, 2, 3]) {
        Err(e) => assert_eq!(e, BinaryChunkError::IncorrectSizeInformation { expected: 4, actual: 5 }),
        Ok(_) => panic!("an inconsistent length must be refused"),
    }
    let good = BinaryChunk::from_raw(vec![0, 3, 1, 2, 3]).unwrap();
    assert_eq!(good.content(), &[1, 2, 3]);
}

#[test]
fn ack_round_trips_and_sizes() {
    let mut bytes = Vec::new();
    assert!(AckMessage::Ack.encode(&mut bytes));
    assert_eq!(bytes, vec![0x00]);
    assert!(matches!(AckMessage::from_bytes(&bytes), Some(AckMessage::Ack)));
    assert_eq!(AckMessage::size_from_chunk(&bytes).unwrap(), 1);

    let mut v0 = Vec::new();
    assert!(AckMessage::NackV0.encode(&mut v0));
    assert!(matches!(AckMessage::from_bytes(&v0), Some(AckMessage::NackV0)));

    let peers = vec!["1.2.3.4:9732".to_string(), "[::1]:9732".to_string()];
    let nack = AckMessage::Nack(NackInfo::new(NackMotive::TooManyConnections, &peers));
    let mut nb = Vec::new();
    assert!(nack.encode(&mut nb));
    assert_eq!(AckMessage::size_from_chunk(&nb).unwrap(), nb.len());
    match AckMessage::from_bytes(&nb) {
        Some(AckMessage::Nack(ni)) => {
            assert!(matches!(ni.motive(), NackMotive::TooManyConnections));
            assert_eq!(ni.potential_peers_to_connect(), &peers);
        }
        _ => panic!("expected the nack back"),
    }
    // An unknown motive tag is rejected.
    let bad = vec![0x01, 0x00, 0x09, 0, 0, 0, 0];
    assert!(AckMessage::from_bytes(&bad).is_none());
}

#[test]
fn nom_from_bytes_parses_responses() {
    let resp = PeerMessageResponse::from_message(PeerMessage::Disconnect);
    let bytes = resp.as_bytes().unwrap();
    let back = PeerMessageResponse::nom_from_bytes(bytes).unwrap();
    assert_eq!(back.messages().len(), 1);
    assert!(PeerMessageResponse::nom_from_bytes(vec![1, 2, 3]).is_err());
}

#[test]
fn mempool_key_schema_round_trip() {
    let key = MempoolKey {
        operation_type: MempoolOperationType::KnownValid,
        operation_hash: hash(0x77),
    };
    let bytes = key.encode().unwrap();
    assert_eq!(bytes.len(), 33);
    assert_eq!(bytes[0], 1);
    let back = MempoolKey::decode(&bytes).unwrap();
    assert!(matches!(back.operation_type, MempoolOperationType::KnownValid));
    assert_eq!(back.operation_hash, hash(0x77));
    assert!(MempoolKey::decode(&vec![0, 1, 2]).is_err());
    assert!(MempoolKey::decode(&{
        let mut b = vec![9u8];
        b.extend(hash(0).iter());
        b
    })
    .is_err());
    let short = MempoolKey { operation_type: MempoolOperationType::Pending, operation_hash: vec![1] };
    assert!(short.encode().is_err());
    assert_eq!(MempoolOperationType::from_u8(2).unwrap_err(), MempoolOperationTypeParseError(2));
    assert_eq!(MempoolOperationType::Pending.to_u8(), 0);
}
