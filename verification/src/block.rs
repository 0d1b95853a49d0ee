//! A block that encapsulates different versioned variants.
//!
//! A block carries its own hash and a header that carries the digest of the
//! body, so its integrity can be checked with [`VersionedBlock::verify`].
//! Digests here are a compact 64-bit mix of the hashed fields: collision
//! resistance is not needed for the integrity check's contract, which only
//! relates the stored digests to the computed ones.
//!
//! Blocks have a tagged byte encoding, [`VersionedBlock::to_bytes`] and
//! [`VersionedBlock::from_bytes`], proved to round-trip.

use vstd::bytes::{
    lemma_auto_spec_u64_to_from_le_bytes, spec_u64_from_le_bytes, spec_u64_to_le_bytes,
    u64_from_le_bytes, u64_to_le_bytes,
};
use vstd::prelude::*;
use vstd::slice::slice_subrange;

verus! {

/// Tag for block v1.
pub const BLOCK_V1_TAG: u8 = 0;

/// Tag for block v2.
pub const BLOCK_V2_TAG: u8 = 1;

/// The number of bytes a v1 block encodes to: the tag and seven 64-bit
/// fields.
pub const BLOCK_V1_SERIALIZED_LENGTH: usize = 57;

/// The number of bytes a v2 block encodes to: the tag and eight 64-bit
/// fields.
pub const BLOCK_V2_SERIALIZED_LENGTH: usize = 65;

/// A deserialization failure.
#[derive(Clone, Copy, Debug, PartialEq, Eq, Structural)]
pub enum BytesreprError {
    /// The bytes do not begin with a known tag.
    Formatting,
    /// The bytes end before the value is complete.
    EarlyEndOfStream,
}

/// A block's integrity check failure.
#[derive(Clone, Copy, Debug, PartialEq, Eq, Structural)]
pub enum BlockValidationError {
    /// The block's stored hash is not the digest of its header.
    UnexpectedBlockHash,
    /// The header's body hash is not the digest of the block's body.
    UnexpectedBodyHash,
}

/// The digest of a block's header, or of a block's body.
#[derive(Clone, Copy, Debug, PartialEq, Eq, Structural)]
pub struct BlockHash {
    /// The digest value.
    pub value: u64,
}

/// Mixes a digest with one more 64-bit field.
pub open spec fn spec_mix(acc: u64, x: u64) -> u64 {
    (acc << 5) ^ (acc >> 59) ^ x
}

fn mix(acc: u64, x: u64) -> (r: u64)
    ensures
        r == spec_mix(acc, x),
{
    (acc << 5u64) ^ (acc >> 59u64) ^ x
}

/// A block header.
#[derive(Clone, Copy, Debug, PartialEq, Eq, Structural)]
pub struct BlockHeader {
    /// The hash of the parent block.
    pub parent_hash: BlockHash,
    /// The digest of the block's body.
    pub body_hash: BlockHash,
    /// The era the block belongs to.
    pub era: u64,
    /// The height of the block in the chain.
    pub height: u64,
}

impl BlockHeader {
    /// The digest of the header's fields.
    pub open spec fn spec_block_hash(self) -> BlockHash {
        BlockHash {
            value: spec_mix(
                spec_mix(spec_mix(self.parent_hash.value, self.body_hash.value), self.era),
                self.height,
            ),
        }
    }

    /// Computes the hash of this header.
    pub fn block_hash(&self) -> (h: BlockHash)
        ensures
            h == self.spec_block_hash(),
    {
        BlockHash {
            value: mix(mix(mix(self.parent_hash.value, self.body_hash.value), self.era), self.height),
        }
    }
}

/// The body of a v1 block.
#[derive(Clone, Copy, Debug, PartialEq, Eq, Structural)]
pub struct BlockBodyV1 {
    /// The proposer of the block.
    pub proposer: u64,
    /// The number of deploys the body carries.
    pub deploy_count: u64,
}

impl BlockBodyV1 {
    /// The digest of the body's fields.
    pub open spec fn spec_hash(self) -> BlockHash {
        BlockHash { value: spec_mix(self.proposer, self.deploy_count) }
    }

    /// Computes the hash of this body.
    pub fn hash(&self) -> (h: BlockHash)
        ensures
            h == self.spec_hash(),
    {
        BlockHash { value: mix(self.proposer, self.deploy_count) }
    }
}

/// The body of a current (v2) block.
#[derive(Clone, Copy, Debug, PartialEq, Eq, Structural)]
pub struct BlockBody {
    /// The proposer of the block.
    pub proposer: u64,
    /// The number of transactions the body carries.
    pub transaction_count: u64,
    /// The number of rewarded finality signatures.
    pub rewarded_signatures: u64,
}

impl BlockBody {
    /// The digest of the body's fields.
    pub open spec fn spec_hash(self) -> BlockHash {
        BlockHash {
            value: spec_mix(spec_mix(self.proposer, self.transaction_count), self.rewarded_signatures),
        }
    }

    /// Computes the hash of this body.
    pub fn hash(&self) -> (h: BlockHash)
        ensures
            h == self.spec_hash(),
    {
        BlockHash { value: mix(mix(self.proposer, self.transaction_count), self.rewarded_signatures) }
    }
}

/// A block body of either version.
#[derive(Clone, Copy, Debug, PartialEq, Eq, Structural)]
pub enum VersionedBlockBody {
    /// The legacy, initial version of the block body.
    V1(BlockBodyV1),
    /// The version 2 of the block body.
    V2(BlockBody),
}

impl VersionedBlockBody {
    /// Any versioned body, carried over into the current representation: a
    /// legacy body's deploys count as transactions, and it rewards no
    /// signatures.
    pub open spec fn spec_to_current(self) -> BlockBody {
        match self {
            VersionedBlockBody::V1(v1) => BlockBody {
                proposer: v1.proposer,
                transaction_count: v1.deploy_count,
                rewarded_signatures: 0,
            },
            VersionedBlockBody::V2(v2) => v2,
        }
    }

    /// Converts the body into the current representation.
    pub fn to_current(&self) -> (b: BlockBody)
        ensures
            b == self.spec_to_current(),
    {
        match self {
            VersionedBlockBody::V1(v1) => BlockBody {
                proposer: v1.proposer,
                transaction_count: v1.deploy_count,
                rewarded_signatures: 0,
            },
            VersionedBlockBody::V2(v2) => *v2,
        }
    }
}

/// The legacy, initial version of a block.
#[derive(Clone, Copy, Debug, PartialEq, Eq, Structural)]
pub struct BlockV1 {
    /// The hash of this block's header.
    pub hash: BlockHash,
    /// The block's header.
    pub header: BlockHeader,
    /// The block's body.
    pub body: BlockBodyV1,
}

/// The current version of a block.
#[derive(Clone, Copy, Debug, PartialEq, Eq, Structural)]
pub struct Block {
    /// The hash of this block's header.
    pub hash: BlockHash,
    /// The block's header.
    pub header: BlockHeader,
    /// The block's body.
    pub body: BlockBody,
}

/// The integrity check shared by both block versions: the stored hash must
/// be the header's digest, and the header's body hash must be the body's
/// digest, checked in that order.
pub open spec fn spec_verify_parts(hash: BlockHash, header: BlockHeader, body_hash: BlockHash) -> Result<
    (),
    BlockValidationError,
> {
    if hash != header.spec_block_hash() {
        Err(BlockValidationError::UnexpectedBlockHash)
    } else if header.body_hash != body_hash {
        Err(BlockValidationError::UnexpectedBodyHash)
    } else {
        Ok(())
    }
}

impl BlockV1 {
    /// Checks the integrity of the block by hashing its body and header.
    pub fn verify(&self) -> (r: Result<(), BlockValidationError>)
        ensures
            r == spec_verify_parts(self.hash, self.header, self.body.spec_hash()),
    {
        if self.hash != self.header.block_hash() {
            Err(BlockValidationError::UnexpectedBlockHash)
        } else if self.header.body_hash != self.body.hash() {
            Err(BlockValidationError::UnexpectedBodyHash)
        } else {
            Ok(())
        }
    }
}

impl Block {
    /// Checks the integrity of the block by hashing its body and header.
    pub fn verify(&self) -> (r: Result<(), BlockValidationError>)
        ensures
            r == spec_verify_parts(self.hash, self.header, self.body.spec_hash()),
    {
        if self.hash != self.header.block_hash() {
            Err(BlockValidationError::UnexpectedBlockHash)
        } else if self.header.body_hash != self.body.hash() {
            Err(BlockValidationError::UnexpectedBodyHash)
        } else {
            Ok(())
        }
    }

    /// The current block a versioned block holds. Only the current version
    /// can be taken out; a legacy block has no such representation.
    pub fn from_versioned(value: &VersionedBlock) -> (b: Block)
        requires
            value is V2,
        ensures
            VersionedBlock::V2(b) == *value,
    {
        match value {
            VersionedBlock::V1(_) => vstd::pervasive::unreached(),
            VersionedBlock::V2(v2) => *v2,
        }
    }
}

/// A block. It encapsulates different versions of the block.
#[derive(Clone, Copy, Debug, PartialEq, Eq, Structural)]
pub enum VersionedBlock {
    /// The legacy, initial version of the block.
    V1(BlockV1),
    /// The version 2 of the block.
    V2(Block),
}

impl VersionedBlock {
    /// The block's header.
    pub open spec fn spec_header(self) -> BlockHeader {
        match self {
            VersionedBlock::V1(v1) => v1.header,
            VersionedBlock::V2(v2) => v2.header,
        }
    }

    /// The hash of the block's header, as stored.
    pub open spec fn spec_stored_hash(self) -> BlockHash {
        match self {
            VersionedBlock::V1(v1) => v1.hash,
            VersionedBlock::V2(v2) => v2.hash,
        }
    }

    /// The block's body, in its own version.
    pub open spec fn spec_body(self) -> VersionedBlockBody {
        match self {
            VersionedBlock::V1(v1) => VersionedBlockBody::V1(v1.body),
            VersionedBlock::V2(v2) => VersionedBlockBody::V2(v2.body),
        }
    }

    /// What the block's integrity check reports.
    pub open spec fn spec_verify(self) -> Result<(), BlockValidationError> {
        match self {
            VersionedBlock::V1(v1) => spec_verify_parts(v1.hash, v1.header, v1.body.spec_hash()),
            VersionedBlock::V2(v2) => spec_verify_parts(v2.hash, v2.header, v2.body.spec_hash()),
        }
    }

    /// Builds a current-version block from a header and any versioned body,
    /// and checks its integrity: the build succeeds exactly when the header
    /// carries the digest of the given body.
    pub fn new_from_header_and_versioned_body(
        header: BlockHeader,
        versioned_block_body: &VersionedBlockBody,
    ) -> (r: Result<Self, Box<BlockValidationError>>)
        ensures
            match r {
                Ok(b) => header.body_hash == versioned_block_body.spec_to_current().spec_hash()
                    && b == VersionedBlock::V2(
                    Block {
                        hash: header.spec_block_hash(),
                        header,
                        body: versioned_block_body.spec_to_current(),
                    },
                ),
                Err(e) => header.body_hash != versioned_block_body.spec_to_current().spec_hash()
                    && *e == BlockValidationError::UnexpectedBodyHash,
            },
    {
        let body: BlockBody = versioned_block_body.to_current();
        let hash = header.block_hash();
        let block = VersionedBlock::V2(Block { hash, header, body });
        match block.verify() {
            Ok(_) => Ok(block),
            Err(err) => Err(Box::new(err)),
        }
    }

    /// Returns the reference to the header.
    pub fn header(&self) -> (h: &BlockHeader)
        ensures
            *h == self.spec_header(),
    {
        match self {
            VersionedBlock::V1(v1) => &v1.header,
            VersionedBlock::V2(v2) => &v2.header,
        }
    }

    /// The hash of this block's header.
    pub fn hash(&self) -> (h: &BlockHash)
        ensures
            *h == self.spec_stored_hash(),
    {
        match self {
            VersionedBlock::V1(v1) => &v1.hash,
            VersionedBlock::V2(v2) => &v2.hash,
        }
    }

    /// The block body.
    pub fn body(&self) -> (b: VersionedBlockBody)
        ensures
            b == self.spec_body(),
    {
        match self {
            VersionedBlock::V1(v1) => VersionedBlockBody::V1(v1.body),
            VersionedBlock::V2(v2) => VersionedBlockBody::V2(v2.body),
        }
    }

    /// Checks the integrity of the block by hashing its body and header.
    pub fn verify(&self) -> (r: Result<(), BlockValidationError>)
        ensures
            r == self.spec_verify(),
    {
        match self {
            VersionedBlock::V1(v1) => v1.verify(),
            VersionedBlock::V2(v2) => v2.verify(),
        }
    }

    /// The block's byte encoding: a version tag followed by the fields,
    /// each as eight little-endian bytes.
    pub open spec fn spec_serialized(self) -> Seq<u8> {
        match self {
            VersionedBlock::V1(v1) => seq![BLOCK_V1_TAG] + spec_u64_to_le_bytes(v1.hash.value)
                + spec_u64_to_le_bytes(v1.header.parent_hash.value) + spec_u64_to_le_bytes(
                v1.header.body_hash.value,
            ) + spec_u64_to_le_bytes(v1.header.era) + spec_u64_to_le_bytes(v1.header.height)
                + spec_u64_to_le_bytes(v1.body.proposer) + spec_u64_to_le_bytes(
                v1.body.deploy_count,
            ),
            VersionedBlock::V2(v2) => seq![BLOCK_V2_TAG] + spec_u64_to_le_bytes(v2.hash.value)
                + spec_u64_to_le_bytes(v2.header.parent_hash.value) + spec_u64_to_le_bytes(
                v2.header.body_hash.value,
            ) + spec_u64_to_le_bytes(v2.header.era) + spec_u64_to_le_bytes(v2.header.height)
                + spec_u64_to_le_bytes(v2.body.proposer) + spec_u64_to_le_bytes(
                v2.body.transaction_count,
            ) + spec_u64_to_le_bytes(v2.body.rewarded_signatures),
        }
    }

    /// Encodes the block.
    pub fn to_bytes(&self) -> (r: Vec<u8>)
        ensures
            r@ == self.spec_serialized(),
    {
        let mut buffer: Vec<u8> = Vec::new();
        match self {
            VersionedBlock::V1(v1) => {
                buffer.push(BLOCK_V1_TAG);
                proof {
                    assert(buffer@ =~= seq![BLOCK_V1_TAG]);
                }
                push_u64(&mut buffer, v1.hash.value);
                push_u64(&mut buffer, v1.header.parent_hash.value);
                push_u64(&mut buffer, v1.header.body_hash.value);
                push_u64(&mut buffer, v1.header.era);
                push_u64(&mut buffer, v1.header.height);
                push_u64(&mut buffer, v1.body.proposer);
                push_u64(&mut buffer, v1.body.deploy_count);
            },
            VersionedBlock::V2(v2) => {
                buffer.push(BLOCK_V2_TAG);
                proof {
                    assert(buffer@ =~= seq![BLOCK_V2_TAG]);
                }
                push_u64(&mut buffer, v2.hash.value);
                push_u64(&mut buffer, v2.header.parent_hash.value);
                push_u64(&mut buffer, v2.header.body_hash.value);
                push_u64(&mut buffer, v2.header.era);
                push_u64(&mut buffer, v2.header.height);
                push_u64(&mut buffer, v2.body.proposer);
                push_u64(&mut buffer, v2.body.transaction_count);
                push_u64(&mut buffer, v2.body.rewarded_signatures);
            },
        }
        buffer
    }

    /// The number of bytes the block encodes to.
    pub fn serialized_length(&self) -> (n: usize)
        ensures
            n == self.spec_serialized().len(),
    {
        proof {
            lemma_auto_spec_u64_to_from_le_bytes();
        }
        match self {
            VersionedBlock::V1(_) => BLOCK_V1_SERIALIZED_LENGTH,
            VersionedBlock::V2(_) => BLOCK_V2_SERIALIZED_LENGTH,
        }
    }

    /// Decodes a block from the front of `bytes`, returning it together
    /// with the remainder of the bytes.
    pub fn from_bytes(bytes: &[u8]) -> (r: Result<(Self, &[u8]), BytesreprError>)
        ensures
            match r {
                Ok(p) => spec_from_bytes(bytes@) matches Ok(q) && q.0 == p.0 && q.1 == p.1@,
                Err(e) => spec_from_bytes(bytes@) matches Err(e2) && e2 == e,
            },
    {
        proof {
            lemma_auto_spec_u64_to_from_le_bytes();
        }
        if bytes.len() < 1 {
            return Err(BytesreprError::EarlyEndOfStream);
        }
        let tag = *vstd::slice::slice_index_get(bytes, 0);
        if tag == BLOCK_V1_TAG {
            if bytes.len() < BLOCK_V1_SERIALIZED_LENGTH {
                return Err(BytesreprError::EarlyEndOfStream);
            }
            let block = VersionedBlock::V1(
                BlockV1 {
                    hash: BlockHash { value: read_u64(bytes, 1) },
                    header: BlockHeader {
                        parent_hash: BlockHash { value: read_u64(bytes, 9) },
                        body_hash: BlockHash { value: read_u64(bytes, 17) },
                        era: read_u64(bytes, 25),
                        height: read_u64(bytes, 33),
                    },
                    body: BlockBodyV1 {
                        proposer: read_u64(bytes, 41),
                        deploy_count: read_u64(bytes, 49),
                    },
                },
            );
            let rest = slice_subrange(bytes, BLOCK_V1_SERIALIZED_LENGTH, bytes.len());
            proof {
                assert(rest@ =~= bytes@.skip(BLOCK_V1_SERIALIZED_LENGTH as int));
            }
            Ok((block, rest))
        } else if tag == BLOCK_V2_TAG {
            if bytes.len() < BLOCK_V2_SERIALIZED_LENGTH {
                return Err(BytesreprError::EarlyEndOfStream);
            }
            let block = VersionedBlock::V2(
                Block {
                    hash: BlockHash { value: read_u64(bytes, 1) },
                    header: BlockHeader {
                        parent_hash: BlockHash { value: read_u64(bytes, 9) },
                        body_hash: BlockHash { value: read_u64(bytes, 17) },
                        era: read_u64(bytes, 25),
                        height: read_u64(bytes, 33),
                    },
                    body: BlockBody {
                        proposer: read_u64(bytes, 41),
                        transaction_count: read_u64(bytes, 49),
                        rewarded_signatures: read_u64(bytes, 57),
                    },
                },
            );
            let rest = slice_subrange(bytes, BLOCK_V2_SERIALIZED_LENGTH, bytes.len());
            proof {
                assert(rest@ =~= bytes@.skip(BLOCK_V2_SERIALIZED_LENGTH as int));
            }
            Ok((block, rest))
        } else {
            Err(BytesreprError::Formatting)
        }
    }
}

/// One 64-bit field read from the encoding, little endian, at `off`.
pub open spec fn spec_read_u64(s: Seq<u8>, off: int) -> u64 {
    spec_u64_from_le_bytes(s.subrange(off, off + 8))
}

/// What decoding a byte sequence yields: the too-short sequences that fail,
/// the unknown leading tags that fail, and for each known tag the decoded
/// block and the remainder.
pub open spec fn spec_from_bytes(bytes: Seq<u8>) -> Result<
    (VersionedBlock, Seq<u8>),
    BytesreprError,
> {
    if bytes.len() < 1 {
        Err(BytesreprError::EarlyEndOfStream)
    } else if bytes[0] == BLOCK_V1_TAG {
        if bytes.len() < BLOCK_V1_SERIALIZED_LENGTH {
            Err(BytesreprError::EarlyEndOfStream)
        } else {
            Ok(
                (
                    VersionedBlock::V1(
                        BlockV1 {
                            hash: BlockHash { value: spec_read_u64(bytes, 1) },
                            header: BlockHeader {
                                parent_hash: BlockHash { value: spec_read_u64(bytes, 9) },
                                body_hash: BlockHash { value: spec_read_u64(bytes, 17) },
                                era: spec_read_u64(bytes, 25),
                                height: spec_read_u64(bytes, 33),
                            },
                            body: BlockBodyV1 {
                                proposer: spec_read_u64(bytes, 41),
                                deploy_count: spec_read_u64(bytes, 49),
                            },
                        },
                    ),
                    bytes.skip(BLOCK_V1_SERIALIZED_LENGTH as int),
                ),
            )
        }
    } else if bytes[0] == BLOCK_V2_TAG {
        if bytes.len() < BLOCK_V2_SERIALIZED_LENGTH {
            Err(BytesreprError::EarlyEndOfStream)
        } else {
            Ok(
                (
                    VersionedBlock::V2(
                        Block {
                            hash: BlockHash { value: spec_read_u64(bytes, 1) },
                            header: BlockHeader {
                                parent_hash: BlockHash { value: spec_read_u64(bytes, 9) },
                                body_hash: BlockHash { value: spec_read_u64(bytes, 17) },
                                era: spec_read_u64(bytes, 25),
                                height: spec_read_u64(bytes, 33),
                            },
                            body: BlockBody {
                                proposer: spec_read_u64(bytes, 41),
                                transaction_count: spec_read_u64(bytes, 49),
                                rewarded_signatures: spec_read_u64(bytes, 57),
                            },
                        },
                    ),
                    bytes.skip(BLOCK_V2_SERIALIZED_LENGTH as int),
                ),
            )
        }
    } else {
        Err(BytesreprError::Formatting)
    }
}

/// Appends one 64-bit field to the encoding, little endian.
fn push_u64(buffer: &mut Vec<u8>, x: u64)
    ensures
        final (buffer)@ == old(buffer)@ + spec_u64_to_le_bytes(x),
{
    let mut w = u64_to_le_bytes(x);
    buffer.append(&mut w);
}

/// Reads one 64-bit field of the encoding, little endian, at `off`.
fn read_u64(bytes: &[u8], off: usize) -> (x: u64)
    requires
        off + 8 <= usize::MAX,
        off + 8 <= bytes@.len(),
    ensures
        x == spec_read_u64(bytes@, off as int),
{
    u64_from_le_bytes(slice_subrange(bytes, off, off + 8))
}

/// Decoding an encoded block succeeds, yields the block back, and leaves
/// exactly the trailing bytes.
pub proof fn lemma_serialization_roundtrip(b: VersionedBlock, rest: Seq<u8>)
    ensures
        spec_from_bytes(b.spec_serialized() + rest) matches Ok(q) && q.0 == b && q.1 == rest,
{
    lemma_auto_spec_u64_to_from_le_bytes();
    let s = b.spec_serialized() + rest;
    match b {
        VersionedBlock::V1(v1) => {
            assert(s.subrange(1, 9) =~= spec_u64_to_le_bytes(v1.hash.value));
            assert(s.subrange(9, 17) =~= spec_u64_to_le_bytes(v1.header.parent_hash.value));
            assert(s.subrange(17, 25) =~= spec_u64_to_le_bytes(v1.header.body_hash.value));
            assert(s.subrange(25, 33) =~= spec_u64_to_le_bytes(v1.header.era));
            assert(s.subrange(33, 41) =~= spec_u64_to_le_bytes(v1.header.height));
            assert(s.subrange(41, 49) =~= spec_u64_to_le_bytes(v1.body.proposer));
            assert(s.subrange(49, 57) =~= spec_u64_to_le_bytes(v1.body.deploy_count));
            assert(s.skip(BLOCK_V1_SERIALIZED_LENGTH as int) =~= rest);
        },
        VersionedBlock::V2(v2) => {
            assert(s.subrange(1, 9) =~= spec_u64_to_le_bytes(v2.hash.value));
            assert(s.subrange(9, 17) =~= spec_u64_to_le_bytes(v2.header.parent_hash.value));
            assert(s.subrange(17, 25) =~= spec_u64_to_le_bytes(v2.header.body_hash.value));
            assert(s.subrange(25, 33) =~= spec_u64_to_le_bytes(v2.header.era));
            assert(s.subrange(33, 41) =~= spec_u64_to_le_bytes(v2.header.height));
            assert(s.subrange(41, 49) =~= spec_u64_to_le_bytes(v2.body.proposer));
            assert(s.subrange(49, 57) =~= spec_u64_to_le_bytes(v2.body.transaction_count));
            assert(s.subrange(57, 65) =~= spec_u64_to_le_bytes(v2.body.rewarded_signatures));
            assert(s.skip(BLOCK_V2_SERIALIZED_LENGTH as int) =~= rest);
        },
    }
}

} // verus!
