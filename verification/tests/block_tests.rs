use connection_manager::block::{
    Block, BlockBody, BlockBodyV1, BlockHash, BlockHeader, BlockV1, BlockValidationError,
    BytesreprError, VersionedBlock, VersionedBlockBody, BLOCK_V1_TAG, BLOCK_V2_TAG,
};

fn sample_header(body_hash: BlockHash) -> BlockHeader {
    BlockHeader {
        parent_hash: BlockHash { value: 0x1234 },
        body_hash,
        era: 7,
        height: 1042,
    }
}

fn sample_v1() -> BlockV1 {
    let body = BlockBodyV1 {
        proposer: 11,
        deploy_count: 3,
    };
    let header = sample_header(body.hash());
    BlockV1 {
        hash: header.block_hash(),
        header,
        body,
    }
}

fn sample_v2() -> Block {
    let body = BlockBody {
        proposer: 12,
        transaction_count: 5,
        rewarded_signatures: 2,
    };
    let header = sample_header(body.hash());
    Block {
        hash: header.block_hash(),
        header,
        body,
    }
}

fn roundtrip(block: &VersionedBlock) {
    let bytes = block.to_bytes();
    assert_eq!(bytes.len(), block.serialized_length());
    let (decoded, rest) = VersionedBlock::from_bytes(&bytes).expect("decoding must succeed");
    assert_eq!(&decoded, block);
    assert!(rest.is_empty());
}

#[test]
fn bytesrepr_roundtrip() {
    let versioned_block = VersionedBlock::V1(sample_v1());
    roundtrip(&versioned_block);

    let versioned_block = VersionedBlock::V2(sample_v2());
    roundtrip(&versioned_block);
}

#[test]
fn from_bytes_keeps_remainder() {
    let block = VersionedBlock::V2(sample_v2());
    let mut bytes = block.to_bytes();
    bytes.push(0xAB);
    bytes.push(0xCD);
    let (decoded, rest) = VersionedBlock::from_bytes(&bytes).expect("decoding must succeed");
    assert_eq!(decoded, block);
    assert_eq!(rest, &[0xAB, 0xCD]);
}

#[test]
fn from_bytes_rejects_bad_input() {
    assert_eq!(
        VersionedBlock::from_bytes(&[]),
        Err(BytesreprError::EarlyEndOfStream)
    );
    assert_eq!(
        VersionedBlock::from_bytes(&[9]),
        Err(BytesreprError::Formatting)
    );
    assert_eq!(
        VersionedBlock::from_bytes(&[BLOCK_V1_TAG, 1, 2, 3]),
        Err(BytesreprError::EarlyEndOfStream)
    );
    let mut v2 = VersionedBlock::V2(sample_v2()).to_bytes();
    v2.pop();
    assert_eq!(
        VersionedBlock::from_bytes(&v2),
        Err(BytesreprError::EarlyEndOfStream)
    );
}

#[test]
fn tags_lead_the_encoding() {
    assert_eq!(VersionedBlock::V1(sample_v1()).to_bytes()[0], BLOCK_V1_TAG);
    assert_eq!(VersionedBlock::V2(sample_v2()).to_bytes()[0], BLOCK_V2_TAG);
    assert_eq!(VersionedBlock::V1(sample_v1()).serialized_length(), 57);
    assert_eq!(VersionedBlock::V2(sample_v2()).serialized_length(), 65);
}

#[test]
fn new_from_header_and_versioned_body_checks_the_body() {
    let body = BlockBody {
        proposer: 12,
        transaction_count: 5,
        rewarded_signatures: 2,
    };
    let header = sample_header(body.hash());
    let versioned_body = VersionedBlockBody::V2(body);
    let block = VersionedBlock::new_from_header_and_versioned_body(header, &versioned_body)
        .expect("a matching body must be accepted");
    assert_eq!(block.header(), &header);
    assert_eq!(block.hash(), &header.block_hash());
    assert_eq!(block.body(), versioned_body);
    assert_eq!(block.verify(), Ok(()));

    let wrong_header = sample_header(BlockHash { value: 0xDEAD });
    let err = VersionedBlock::new_from_header_and_versioned_body(wrong_header, &versioned_body)
        .expect_err("a mismatched body hash must be rejected");
    assert_eq!(*err, BlockValidationError::UnexpectedBodyHash);
}

#[test]
fn new_from_header_carries_legacy_bodies_over() {
    let legacy = BlockBodyV1 {
        proposer: 11,
        deploy_count: 3,
    };
    let current = BlockBody {
        proposer: 11,
        transaction_count: 3,
        rewarded_signatures: 0,
    };
    let header = sample_header(current.hash());
    let block =
        VersionedBlock::new_from_header_and_versioned_body(header, &VersionedBlockBody::V1(legacy))
            .expect("a matching legacy body must be accepted");
    assert_eq!(block.body(), VersionedBlockBody::V2(current));
}

#[test]
fn verify_detects_tampering() {
    let mut v1 = sample_v1();
    assert_eq!(VersionedBlock::V1(v1).verify(), Ok(()));
    v1.hash = BlockHash { value: v1.hash.value ^ 1 };
    assert_eq!(
        VersionedBlock::V1(v1).verify(),
        Err(BlockValidationError::UnexpectedBlockHash)
    );

    let mut v2 = sample_v2();
    assert_eq!(VersionedBlock::V2(v2).verify(), Ok(()));
    v2.header.body_hash = BlockHash { value: v2.header.body_hash.value ^ 1 };
    v2.hash = v2.header.block_hash();
    assert_eq!(
        VersionedBlock::V2(v2).verify(),
        Err(BlockValidationError::UnexpectedBodyHash)
    );
}

#[test]
fn getters_match_the_variant() {
    let v1 = sample_v1();
    let block = VersionedBlock::V1(v1);
    assert_eq!(block.header(), &v1.header);
    assert_eq!(block.hash(), &v1.hash);
    assert_eq!(block.body(), VersionedBlockBody::V1(v1.body));

    let v2 = sample_v2();
    let block = VersionedBlock::V2(v2);
    assert_eq!(block.header(), &v2.header);
    assert_eq!(block.hash(), &v2.hash);
    assert_eq!(block.body(), VersionedBlockBody::V2(v2.body));
    assert_eq!(Block::from_versioned(&block), v2);
}
