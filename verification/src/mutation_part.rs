//! The parts of a table that a mutation works on.

use vstd::prelude::*;

use crate::error::ErrorCode;
use crate::read_partitions::BlockMeta;
use crate::read_partitions::FusePartInfo;

verus! {

/// Which block of which segment.
#[derive(Clone, Copy, Debug, PartialEq, Eq, Structural)]
pub struct BlockMetaIndex {
    pub segment_idx: usize,
    pub block_idx: usize,
}

#[derive(Clone, Copy, Debug, PartialEq, Eq, Structural)]
pub struct Statistics {
    pub row_count: u64,
}

/// A segment of which no row is left.
#[derive(Debug)]
pub struct DeletedSegment {
    /// segment index.
    pub index: usize,
    /// segment location and summary.
    /// location can be used for hash
    pub segment_info: ((String, u64), Statistics),
}

/// A block that is mutated; `C` is what is known of how its rows are clustered.
#[derive(Debug)]
pub struct MutationPartInfo<C> {
    pub index: BlockMetaIndex,
    pub cluster_stats: Option<C>,
    pub inner_part: PartInfo<C>,
    pub whole_block_mutation: bool,
}

impl<C> MutationPartInfo<C> {
    pub fn create(
        index: BlockMetaIndex,
        cluster_stats: Option<C>,
        inner_part: PartInfo<C>,
        whole_block_mutation: bool,
    ) -> (r: Self)
        ensures
            r == (MutationPartInfo { index, cluster_stats, inner_part, whole_block_mutation }),
    {
        MutationPartInfo { index, cluster_stats, inner_part, whole_block_mutation }
    }
}

#[derive(Debug)]
pub enum Mutation<C> {
    MutationDeletedSegment(DeletedSegment),
    MutationPartInfo(MutationPartInfo<C>),
}

/// A block for which virtual columns are made.
#[derive(Debug)]
pub struct VirtualColumnPartInfo {
    pub block: BlockMeta,
    pub index: BlockMetaIndex,
}

/// A part of any kind.
#[derive(Debug)]
pub enum PartInfo<C> {
    Fuse(FusePartInfo),
    Mutation(Box<Mutation<C>>),
    VirtualColumn(VirtualColumnPartInfo),
}

/// What a part is hashed by.
#[derive(Debug)]
pub enum HashedBy<'a> {
    /// The location of a segment.
    Segment(&'a (String, u64)),
    /// The location of a block.
    Block(&'a FusePartInfo),
    /// Nothing: all such parts have one hash.
    Nothing,
}

impl<C> PartInfo<C> {
    /// What a part is hashed by: a mutated block by the part that it wraps.
    pub fn hashed_by(&self) -> (r: HashedBy<'_>)
        ensures
            r == hash_source(*self),
        decreases self,
    {
        match self {
            PartInfo::Fuse(part) => HashedBy::Block(part),
            PartInfo::Mutation(mutation) => match &**mutation {
                Mutation::MutationDeletedSegment(segment) => HashedBy::Segment(&segment.segment_info.0),
                Mutation::MutationPartInfo(part) => part.inner_part.hashed_by(),
            },
            PartInfo::VirtualColumn(_) => HashedBy::Nothing,
        }
    }
}

pub open spec fn hash_source<'a, C>(part: PartInfo<C>) -> HashedBy<'a>
    decreases part,
{
    match part {
        PartInfo::Fuse(part) => HashedBy::Block(&part),
        PartInfo::Mutation(mutation) => match *mutation {
            Mutation::MutationDeletedSegment(segment) => HashedBy::Segment(&segment.segment_info.0),
            Mutation::MutationPartInfo(part) => hash_source(part.inner_part),
        },
        PartInfo::VirtualColumn(_) => HashedBy::Nothing,
    }
}

impl<C> Mutation<C> {
    pub fn from_part(info: &PartInfo<C>) -> (r: Result<&Mutation<C>, ErrorCode>)
        ensures
            match *info {
                PartInfo::Mutation(m) => r == Ok::<&Mutation<C>, ErrorCode>(&*m),
                _ => r matches Err(ErrorCode::Internal(m)) && m@ == "Cannot downcast from PartInfo to Mutation."@,
            },
    {
        match info {
            PartInfo::Mutation(mutation) => Ok(&**mutation),
            _ => Err(ErrorCode::Internal("Cannot downcast from PartInfo to Mutation.".to_owned())),
        }
    }
}

impl VirtualColumnPartInfo {
    pub fn create<C>(block: BlockMeta, index: BlockMetaIndex) -> (r: PartInfo<C>)
        ensures
            r == PartInfo::<C>::VirtualColumn(VirtualColumnPartInfo { block, index }),
    {
        PartInfo::VirtualColumn(VirtualColumnPartInfo { block, index })
    }

    pub fn from_part<C>(info: &PartInfo<C>) -> (r: Result<&VirtualColumnPartInfo, ErrorCode>)
        ensures
            match *info {
                PartInfo::VirtualColumn(p) => r == Ok::<&VirtualColumnPartInfo, ErrorCode>(&p),
                _ => r matches Err(ErrorCode::Internal(m)) && m@
                    == "Cannot downcast from PartInfo to VirtualColumnPartInfo."@,
            },
    {
        match info {
            PartInfo::VirtualColumn(part) => Ok(part),
            _ => Err(ErrorCode::Internal("Cannot downcast from PartInfo to VirtualColumnPartInfo.".to_owned())),
        }
    }
}

/// A part goes to the node of the block that it is about, however it is wrapped; the deletion of a
/// segment goes to that of the segment; a part of virtual columns goes anywhere.
pub proof fn parts_go_with_their_blocks<'a, C>(part: PartInfo<C>)
    ensures
        part matches PartInfo::Fuse(block) ==> hash_source::<'a, C>(part) == HashedBy::<'a>::Block(&block),
        part matches PartInfo::Mutation(m) ==> (*m matches Mutation::MutationPartInfo(inner) ==> hash_source::<'a, C>(
            part,
        ) == hash_source::<'a, C>(inner.inner_part)),
        part matches PartInfo::Mutation(m) ==> (*m matches Mutation::MutationDeletedSegment(segment) ==> hash_source::<
            'a,
            C,
        >(part) == HashedBy::<'a>::Segment(&segment.segment_info.0)),
        part is VirtualColumn ==> hash_source::<'a, C>(part) == HashedBy::<'a>::Nothing,
{
    reveal_with_fuel(hash_source, 2);
}

}
