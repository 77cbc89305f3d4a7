//! What can go wrong.
use vstd::prelude::*;

use crate::mem_wal::uuid::Uuid;
use crate::text::IntErrorKind;

verus! {

/// Why an operation failed.
#[derive(Debug, Clone)]
pub enum Error {
    /// A message carries no region id.
    MissingRegionId(RegionIdOwner),
    /// A region id has not sixteen bytes.
    MalformedUuid,
    /// A region spec has no fields.
    NoRegionFields,
    /// A bucket transform has no `num_buckets` parameter.
    MissingNumBuckets,
    /// The `num_buckets` parameter is not a number.
    InvalidNumBuckets(IntErrorKind),
    /// A region transform is not known.
    UnsupportedTransform(String),
    /// Rows are routed by bucket transforms only.
    UnsupportedRouting,
    /// No column has the field id.
    FieldNotFound { field_id: i32, num_columns: usize },
    /// Values of the type are not hashed.
    UnsupportedArrayType(String),
    /// The hash could not be computed.
    HashFailed,
    /// A file carries no RabitQ metadata.
    RabitMetadataNotFound,
    /// A quantizer is no flat one.
    NotFlatQuantizer,
    /// A quantizer is no flat binary one.
    NotFlatBinQuantizer,
    /// Stored bytes end too early.
    UnexpectedEnd,
    /// Stored data is of a kind that is not known.
    UnknownTypeTag(String),
    /// A target size of zero bytes was asked for.
    ZeroTargetSegmentBytes,
    /// Several bitmap segments cannot be merged into one.
    MergeNotSupported,
    /// A segment does not say which fragments it covers.
    MissingFragmentCoverage(Uuid),
    /// A segment has no index details.
    MissingIndexDetails(Uuid),
    /// A segment is not one of a bitmap index.
    NotBitmapSegment(Uuid),
    /// A built segment has another id than its source.
    SegmentUuidMismatch,
    /// An encoded dataset has no row id column.
    MissingRowIdColumn,
    /// An encoded dataset lacks a column.
    MissingColumn(&'static str),
    /// An encoded dataset lacks a metadata entry.
    MissingMetadata(&'static str),
    /// A metadata entry of an encoded dataset is not understood.
    MetadataParse { key: &'static str, value: String, error: String },
    /// The metadata of an encoded dataset names a fragment that is not there.
    UnknownFragment(u64),
    /// The metadata entries of an encoded dataset differ in their number of partitions.
    PartitionCountMismatch { fragments: usize, sizes: usize },
    /// Something could not be read or written.
    Io(String),
}

/// The messages that carry a region id.
#[derive(Debug, Clone, Copy, PartialEq, Eq, Structural)]
pub enum RegionIdOwner {
    MergedGeneration,
    RegionManifest,
}

/// The kinds of failures.
#[derive(Debug, Clone, Copy, PartialEq, Eq, Structural)]
pub enum ErrorKind {
    /// What was asked for makes no sense.
    InvalidInput,
    /// What was asked for is not supported.
    NotSupported,
    /// Something failed that should not fail.
    Internal,
    /// An index is not as it should be.
    Index,
    /// Data could not be read or written.
    Io,
}

impl Error {
    /// The kind of the failure.
    pub open spec fn spec_kind(&self) -> ErrorKind {
        match *self {
            Error::UnsupportedTransform(_)
            | Error::UnsupportedRouting
            | Error::UnsupportedArrayType(_) => ErrorKind::NotSupported,
            Error::HashFailed => ErrorKind::Internal,
            Error::RabitMetadataNotFound
            | Error::MissingFragmentCoverage(_)
            | Error::MissingIndexDetails(_)
            | Error::NotBitmapSegment(_) => ErrorKind::Index,
            Error::MalformedUuid
            | Error::UnexpectedEnd
            | Error::UnknownTypeTag(_)
            | Error::Io(_) => ErrorKind::Io,
            _ => ErrorKind::InvalidInput,
        }
    }

    /// The kind of the failure.
    pub fn kind(&self) -> (r: ErrorKind)
        ensures
            r == self.spec_kind(),
    {
        match self {
            Error::UnsupportedTransform(_)
            | Error::UnsupportedRouting
            | Error::UnsupportedArrayType(_) => ErrorKind::NotSupported,
            Error::HashFailed => ErrorKind::Internal,
            Error::RabitMetadataNotFound
            | Error::MissingFragmentCoverage(_)
            | Error::MissingIndexDetails(_)
            | Error::NotBitmapSegment(_) => ErrorKind::Index,
            Error::MalformedUuid
            | Error::UnexpectedEnd
            | Error::UnknownTypeTag(_)
            | Error::Io(_) => ErrorKind::Io,
            _ => ErrorKind::InvalidInput,
        }
    }
}

/// Which failures are of which kind.
pub proof fn law_kinds_of_failures(e: Error)
    ensures
        e.spec_kind() is NotSupported <==> e is UnsupportedTransform || e is UnsupportedRouting || e
            is UnsupportedArrayType,
        e.spec_kind() is Internal <==> e is HashFailed,
        e.spec_kind() is Index <==> e is RabitMetadataNotFound || e is MissingFragmentCoverage || e
            is MissingIndexDetails || e is NotBitmapSegment,
        e.spec_kind() is Io <==> e is MalformedUuid || e is UnexpectedEnd || e is UnknownTypeTag || e
            is Io,
{
}

} // verus!
