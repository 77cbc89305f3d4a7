//! Kinds of distance.
use vstd::prelude::*;

verus! {

/// The kind of distance between vectors.
#[derive(Debug, Clone, Copy, PartialEq, Eq, Structural)]
pub enum DistanceType {
    L2,
    Cosine,
    Dot,
    Hamming,
}

/// The kind of distance as it is stored.
#[derive(Debug, Clone, Copy, PartialEq, Eq, Structural)]
pub enum VectorMetricType {
    L2,
    Cosine,
    Dot,
    Hamming,
}

impl From<VectorMetricType> for DistanceType {
    fn from(proto: VectorMetricType) -> (r: Self) {
        match proto {
            VectorMetricType::L2 => DistanceType::L2,
            VectorMetricType::Cosine => DistanceType::Cosine,
            VectorMetricType::Dot => DistanceType::Dot,
            VectorMetricType::Hamming => DistanceType::Hamming,
        }
    }
}

impl vstd::std_specs::convert::FromSpecImpl<VectorMetricType> for DistanceType {
    open spec fn obeys_from_spec() -> bool {
        true
    }

    open spec fn from_spec(proto: VectorMetricType) -> Self {
        match proto {
            VectorMetricType::L2 => DistanceType::L2,
            VectorMetricType::Cosine => DistanceType::Cosine,
            VectorMetricType::Dot => DistanceType::Dot,
            VectorMetricType::Hamming => DistanceType::Hamming,
        }
    }
}

impl From<DistanceType> for VectorMetricType {
    fn from(mt: DistanceType) -> (r: Self) {
        match mt {
            DistanceType::L2 => VectorMetricType::L2,
            DistanceType::Cosine => VectorMetricType::Cosine,
            DistanceType::Dot => VectorMetricType::Dot,
            DistanceType::Hamming => VectorMetricType::Hamming,
        }
    }
}

impl vstd::std_specs::convert::FromSpecImpl<DistanceType> for VectorMetricType {
    open spec fn obeys_from_spec() -> bool {
        true
    }

    open spec fn from_spec(mt: DistanceType) -> Self {
        match mt {
            DistanceType::L2 => VectorMetricType::L2,
            DistanceType::Cosine => VectorMetricType::Cosine,
            DistanceType::Dot => VectorMetricType::Dot,
            DistanceType::Hamming => VectorMetricType::Hamming,
        }
    }
}

/// A kind of distance comes back from what is stored for it, and the other way round.
pub proof fn law_metric_round_trip(mt: DistanceType, proto: VectorMetricType)
    ensures
        <DistanceType as vstd::std_specs::convert::FromSpec<VectorMetricType>>::from_spec(
            <VectorMetricType as vstd::std_specs::convert::FromSpec<DistanceType>>::from_spec(mt),
        ) == mt,
        <VectorMetricType as vstd::std_specs::convert::FromSpec<DistanceType>>::from_spec(
            <DistanceType as vstd::std_specs::convert::FromSpec<VectorMetricType>>::from_spec(proto),
        ) == proto,
{
}

/// Each kind of distance is stored under its own name, and read from it.
pub proof fn law_metrics_keep_their_names(mt: DistanceType, proto: VectorMetricType)
    ensures
        <DistanceType as vstd::std_specs::convert::FromSpec<VectorMetricType>>::obeys_from_spec(),
        <VectorMetricType as vstd::std_specs::convert::FromSpec<DistanceType>>::obeys_from_spec(),
        ({
            let stored = <VectorMetricType as vstd::std_specs::convert::FromSpec<
                DistanceType,
            >>::from_spec(mt);
            let read = <DistanceType as vstd::std_specs::convert::FromSpec<
                VectorMetricType,
            >>::from_spec(proto);
            &&& mt is L2 <==> stored is L2
            &&& mt is Cosine <==> stored is Cosine
            &&& mt is Dot <==> stored is Dot
            &&& mt is Hamming <==> stored is Hamming
            &&& proto is L2 <==> read is L2
            &&& proto is Cosine <==> read is Cosine
            &&& proto is Dot <==> read is Dot
            &&& proto is Hamming <==> read is Hamming
        }),
{
}

} // verus!
