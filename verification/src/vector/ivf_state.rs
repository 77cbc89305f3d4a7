//! The state of an IVF index, as it is cached.
use vstd::prelude::*;

use crate::bytes::{push_le, read_le};
use crate::error::Error;
use crate::text::{copy_names, same_text};
use crate::vector::distance::DistanceType;
use crate::vector::quantizer::QuantizationType;

verus! {

/// The tag before the cached state of an IVF index.
pub const IVF_TYPE_TAG: &'static str = "IVF";

/// State of an IVF index, enough to build the index again without reading its global buffers.
///
/// `M` is the model of the partitions, `S` the kind of a sub-index.
#[derive(Debug)]
pub struct IvfIndexState<M, S> {
    /// Object-store path to the index file.
    pub index_file_path: String,
    pub uuid: String,
    /// The model of the index file (row layout of the sub-index).
    pub ivf: M,
    /// The model of the auxiliary file (row layout of the quantizer). The two files have
    /// independent row layouts.
    pub aux_ivf: M,
    pub distance_type: DistanceType,
    pub sub_index_metadata: Vec<String>,
    /// The metadata of the quantizer, as JSON.
    pub quantizer_metadata_json: String,
    /// Large quantizer data (PQ codebook, RQ rotation matrix).
    pub quantizer_extra_data: Option<Vec<u8>>,
    pub sub_index_type: S,
    pub quantization_type: QuantizationType,
    /// The cache key prefix of the index, needed to reach the shared cache again.
    pub cache_key_prefix: String,
    /// File sizes, which spare requests when the index is built again.
    pub index_file_size: u64,
    pub aux_file_size: u64,
}

/// The part of the state that is stored as a header. Kinds are held by their names.
#[derive(Debug)]
pub struct IvfIndexStateHeader {
    pub index_file_path: String,
    pub uuid: String,
    pub distance_type: String,
    pub sub_index_metadata: Vec<String>,
    pub sub_index_type: String,
    pub quantization_type: String,
    pub quantizer_metadata_json: String,
    pub cache_key_prefix: String,
    pub index_file_size: u64,
    pub aux_file_size: u64,
}

/// What gives the names of the kinds.
pub struct KindNames<A, B, C> {
    pub distance_type: A,
    pub sub_index_type: B,
    pub quantization_type: C,
}

/// What finds kinds by their names, and refuses names that are not known.
pub struct KindParsers<A, B, C> {
    pub distance_type: A,
    pub sub_index_type: B,
    pub quantization_type: C,
}

impl<A, B, C> KindNames<A, B, C> {
    /// Every kind has a name.
    pub open spec fn total<S>(&self) -> bool where
        A: Fn(&DistanceType) -> String,
        B: Fn(&S) -> String,
        C: Fn(&QuantizationType) -> String,
     {
        &&& forall|kind: &DistanceType| call_requires(self.distance_type, (kind,))
        &&& forall|kind: &S| call_requires(self.sub_index_type, (kind,))
        &&& forall|kind: &QuantizationType| call_requires(self.quantization_type, (kind,))
    }
}

impl<A, B, C> KindParsers<A, B, C> {
    /// Every name is answered.
    pub open spec fn total<S>(&self) -> bool where
        A: Fn(&str) -> Result<DistanceType, Error>,
        B: Fn(&str) -> Result<S, Error>,
        C: Fn(&str) -> Result<QuantizationType, Error>,
     {
        &&& forall|name: &str| call_requires(self.distance_type, (name,))
        &&& forall|name: &str| call_requires(self.sub_index_type, (name,))
        &&& forall|name: &str| call_requires(self.quantization_type, (name,))
    }
}

/// A part: its length in eight bytes, then its bytes.
pub open spec fn framed(part: Seq<u8>) -> Seq<u8> {
    crate::bytes::le_bytes(part.len(), 8) + part
}

/// The four parts of a cached state, one after the other.
pub open spec fn wire(header: Seq<u8>, ivf: Seq<u8>, extra: Seq<u8>, aux_ivf: Seq<u8>) -> Seq<u8> {
    framed(header) + framed(ivf) + framed(extra) + framed(aux_ivf)
}

/// What is read of the part at the start of `bytes`: the part, and what is left. None where the
/// bytes end too early.
pub open spec fn unframed(bytes: Seq<u8>) -> Option<(Seq<u8>, Seq<u8>)> {
    if bytes.len() < 8 {
        None
    } else {
        let n = crate::bytes::le_value(bytes.take(8)) as int;
        if bytes.len() - 8 < n {
            None
        } else {
            Some((bytes.subrange(8, 8 + n), bytes.skip(8 + n)))
        }
    }
}

/// A part comes back from its frame, whatever follows.
pub proof fn law_unframe_after_frame(part: Seq<u8>, rest: Seq<u8>)
    requires
        part.len() <= u64::MAX,
    ensures
        unframed(framed(part) + rest) == Some((part, rest)),
{
    crate::bytes::lemma_byte_ranges();
    crate::bytes::law_le_value_of_le_bytes(part.len(), 8);
    let bytes = framed(part) + rest;
    assert(bytes.take(8) =~= crate::bytes::le_bytes(part.len(), 8));
    assert(bytes.subrange(8, 8 + part.len() as int) =~= part);
    assert(bytes.skip(8 + part.len() as int) =~= rest);
}

/// The parts that stored bytes hold.
pub struct Parts {
    pub header: Seq<u8>,
    pub ivf: Seq<u8>,
    /// Extra data that is there and not empty.
    pub extra: Option<Seq<u8>>,
    /// None where the bytes were written before there was a model for the auxiliary file.
    pub aux_ivf: Option<Seq<u8>>,
}

/// What stored bytes hold. None where they end too early; a length that is missing where that of
/// the auxiliary model should stand is no such end.
pub open spec fn parts_of(bytes: Seq<u8>) -> Option<Parts> {
    match unframed(bytes) {
        None => None,
        Some((header, after_header)) => match unframed(after_header) {
            None => None,
            Some((ivf, after_ivf)) => match unframed(after_ivf) {
                None => None,
                Some((extra, after_extra)) => {
                    let extra = if extra.len() > 0 {
                        Some(extra)
                    } else {
                        None
                    };
                    if after_extra.len() < 8 {
                        Some(Parts { header, ivf, extra, aux_ivf: None })
                    } else {
                        match unframed(after_extra) {
                            None => None,
                            Some((aux_ivf, _)) => Some(
                                Parts { header, ivf, extra, aux_ivf: Some(aux_ivf) },
                            ),
                        }
                    }
                },
            },
        },
    }
}

/// The parts come back from what was written, whatever follows; extra data that is empty comes
/// back as none.
pub proof fn law_parts_after_wire(
    header: Seq<u8>,
    ivf: Seq<u8>,
    extra: Seq<u8>,
    aux_ivf: Seq<u8>,
    rest: Seq<u8>,
)
    requires
        header.len() <= u64::MAX,
        ivf.len() <= u64::MAX,
        extra.len() <= u64::MAX,
        aux_ivf.len() <= u64::MAX,
    ensures
        parts_of(wire(header, ivf, extra, aux_ivf) + rest) == Some(
            Parts {
                header,
                ivf,
                extra: if extra.len() > 0 {
                    Some(extra)
                } else {
                    None
                },
                aux_ivf: Some(aux_ivf),
            },
        ),
{
    let bytes = wire(header, ivf, extra, aux_ivf) + rest;
    let last = framed(aux_ivf) + rest;
    let third = framed(extra) + last;
    let second = framed(ivf) + third;
    assert(bytes =~= framed(header) + second);
    law_unframe_after_frame(header, second);
    law_unframe_after_frame(ivf, third);
    law_unframe_after_frame(extra, last);
    law_unframe_after_frame(aux_ivf, rest);
    crate::bytes::lemma_le_bytes_len(aux_ivf.len(), 8);
}

/// Bytes that end after the extra data are read as having no auxiliary model.
pub proof fn law_legacy_parts(header: Seq<u8>, ivf: Seq<u8>, extra: Seq<u8>)
    requires
        header.len() <= u64::MAX,
        ivf.len() <= u64::MAX,
        extra.len() <= u64::MAX,
    ensures
        parts_of(framed(header) + framed(ivf) + framed(extra)) == Some(
            Parts {
                header,
                ivf,
                extra: if extra.len() > 0 {
                    Some(extra)
                } else {
                    None
                },
                aux_ivf: None,
            },
        ),
{
    let none = Seq::<u8>::empty();
    let third = framed(extra) + none;
    let second = framed(ivf) + third;
    assert(framed(header) + framed(ivf) + framed(extra) =~= framed(header) + second);
    law_unframe_after_frame(header, second);
    law_unframe_after_frame(ivf, third);
    law_unframe_after_frame(extra, none);
}

/// Appends a part.
fn write_part(writer: &mut Vec<u8>, part: &[u8])
    ensures
        final(writer)@ == old(writer)@ + framed(part@),
{
    let ghost before = writer@;
    let n: usize = part.len();
    push_le(writer, n as u64, 8);
    writer.extend_from_slice(part);
    assert(writer@ =~= before + framed(part@));
}

/// Writes the four parts.
pub fn write_parts(header: &[u8], ivf: &[u8], extra: &[u8], aux_ivf: &[u8]) -> (r: Vec<u8>)
    ensures
        r@ == wire(header@, ivf@, extra@, aux_ivf@),
{
    let mut writer: Vec<u8> = Vec::new();
    write_part(&mut writer, header);
    write_part(&mut writer, ivf);
    write_part(&mut writer, extra);
    write_part(&mut writer, aux_ivf);
    assert(writer@ =~= wire(header@, ivf@, extra@, aux_ivf@));
    writer
}

/// Reads the length at `start`; none where the bytes end before it does.
fn read_length(bytes: &[u8], start: usize) -> (r: Option<u64>)
    requires
        start <= bytes@.len(),
    ensures
        match r {
            Some(n) => bytes@.len() - start >= 8 && n == crate::bytes::le_value(
                bytes@.skip(start as int).take(8),
            ),
            None => bytes@.len() - start < 8,
        },
{
    let total: usize = bytes.len();
    if total - start < 8 {
        return None;
    }
    let length: &[u8] = &bytes[start..start + 8];
    assert(length@ =~= bytes@.skip(start as int).take(8));
    Some(read_le(length))
}

/// Reads the part at `start`, as the place of its bytes.
fn read_part(bytes: &[u8], start: usize) -> (r: Option<(usize, usize)>)
    requires
        start <= bytes@.len(),
    ensures
        match r {
            Some((from, to)) => start <= from <= to <= bytes@.len() && unframed(
                bytes@.skip(start as int),
            ) == Some((bytes@.subrange(from as int, to as int), bytes@.skip(to as int))),
            None => unframed(bytes@.skip(start as int)) is None,
        },
{
    let total: usize = bytes.len();
    match read_length(bytes, start) {
        None => None,
        Some(n) => {
            let from: usize = start + 8;
            if n > (total - from) as u64 {
                return None;
            }
            let to: usize = from + n as usize;
            proof {
                let rest = bytes@.skip(start as int);
                assert(rest.subrange(8, 8 + n as int) =~= bytes@.subrange(from as int, to as int));
                assert(rest.skip(8 + n as int) =~= bytes@.skip(to as int));
            }
            Some((from, to))
        },
    }
}

impl<M, S> IvfIndexState<M, S> {
    /// The tag before the cached state.
    pub fn type_tag(&self) -> (r: &'static str)
        ensures
            r@ == IVF_TYPE_TAG@,
            r@ == "IVF"@,
    {
        IVF_TYPE_TAG
    }

    /// The extra data, empty where there is none.
    pub open spec fn extra(&self) -> Seq<u8> {
        match self.quantizer_extra_data {
            Some(data) => data@,
            None => Seq::empty(),
        }
    }

    /// The header says of the state what a header says besides its kinds.
    pub open spec fn matches_header(&self, header: IvfIndexStateHeader) -> bool {
        &&& header.index_file_path@ == self.index_file_path@
        &&& header.uuid@ == self.uuid@
        &&& header.sub_index_metadata@ == self.sub_index_metadata@
        &&& header.quantizer_metadata_json@ == self.quantizer_metadata_json@
        &&& header.cache_key_prefix@ == self.cache_key_prefix@
        &&& header.index_file_size == self.index_file_size
        &&& header.aux_file_size == self.aux_file_size
    }

    /// The header says of the state what a header says, with the kinds under their names.
    pub open spec fn has_header<A, B, C>(
        &self,
        header: IvfIndexStateHeader,
        names: KindNames<A, B, C>,
    ) -> bool where
        A: Fn(&DistanceType) -> String,
        B: Fn(&S) -> String,
        C: Fn(&QuantizationType) -> String,
     {
        &&& self.matches_header(header)
        &&& call_ensures(names.distance_type, (&self.distance_type,), header.distance_type)
        &&& call_ensures(names.sub_index_type, (&self.sub_index_type,), header.sub_index_type)
        &&& call_ensures(
            names.quantization_type,
            (&self.quantization_type,),
            header.quantization_type,
        )
    }

    /// The header of the state.
    pub fn header<A, B, C>(&self, names: &KindNames<A, B, C>) -> (r: IvfIndexStateHeader) where
        A: Fn(&DistanceType) -> String,
        B: Fn(&S) -> String,
        C: Fn(&QuantizationType) -> String,

        requires
            names.total::<S>(),
        ensures
            self.has_header(r, *names),
    {
        IvfIndexStateHeader {
            index_file_path: self.index_file_path.clone(),
            uuid: self.uuid.clone(),
            distance_type: (names.distance_type)(&self.distance_type),
            sub_index_metadata: copy_names(&self.sub_index_metadata),
            sub_index_type: (names.sub_index_type)(&self.sub_index_type),
            quantization_type: (names.quantization_type)(&self.quantization_type),
            quantizer_metadata_json: self.quantizer_metadata_json.clone(),
            cache_key_prefix: self.cache_key_prefix.clone(),
            index_file_size: self.index_file_size,
            aux_file_size: self.aux_file_size,
        }
    }

    /// What writing the state can give: the four parts, or the first failure among the header, the
    /// model of the index file and that of the auxiliary file.
    pub open spec fn written<A, B, C, H, N>(
        &self,
        names: KindNames<A, B, C>,
        encode_header: H,
        encode_ivf: N,
        r: Result<Vec<u8>, Error>,
    ) -> bool where
        A: Fn(&DistanceType) -> String,
        B: Fn(&S) -> String,
        C: Fn(&QuantizationType) -> String,
        H: Fn(&IvfIndexStateHeader) -> Result<Vec<u8>, Error>,
        N: Fn(&M) -> Result<Vec<u8>, Error>,
     {
        exists|header: IvfIndexStateHeader, header_json: Result<Vec<u8>, Error>|
            self.has_header(header, names) && #[trigger] call_ensures(
                encode_header,
                (&header,),
                header_json,
            ) && match header_json {
                Err(e) => r == Err::<Vec<u8>, Error>(e),
                Ok(header_json) => self.written_models(header_json@, encode_ivf, r),
            }
    }

    /// What writing the state can give once its header is encoded.
    pub open spec fn written_models<N: Fn(&M) -> Result<Vec<u8>, Error>>(
        &self,
        header_json: Seq<u8>,
        encode_ivf: N,
        r: Result<Vec<u8>, Error>,
    ) -> bool {
        exists|ivf: Result<Vec<u8>, Error>| #[trigger]
            call_ensures(encode_ivf, (&self.ivf,), ivf) && match ivf {
                Err(e) => r == Err::<Vec<u8>, Error>(e),
                Ok(ivf) => self.written_aux(header_json, ivf@, encode_ivf, r),
            }
    }

    /// What writing the state can give once its header and the model of the index file are encoded.
    pub open spec fn written_aux<N: Fn(&M) -> Result<Vec<u8>, Error>>(
        &self,
        header_json: Seq<u8>,
        ivf: Seq<u8>,
        encode_ivf: N,
        r: Result<Vec<u8>, Error>,
    ) -> bool {
        exists|aux: Result<Vec<u8>, Error>| #[trigger]
            call_ensures(encode_ivf, (&self.aux_ivf,), aux) && match aux {
                Err(e) => r == Err::<Vec<u8>, Error>(e),
                Ok(aux) => r matches Ok(bytes) && bytes@ == wire(
                    header_json,
                    ivf,
                    self.extra(),
                    aux@,
                ),
            }
    }

    /// Writes the state: header, model of the index file, extra data and model of the auxiliary
    /// file, each after its length.
    pub fn serialize<A, B, C, H, N>(
        &self,
        names: &KindNames<A, B, C>,
        encode_header: &H,
        encode_ivf: &N,
    ) -> (r: Result<Vec<u8>, Error>) where
        A: Fn(&DistanceType) -> String,
        B: Fn(&S) -> String,
        C: Fn(&QuantizationType) -> String,
        H: Fn(&IvfIndexStateHeader) -> Result<Vec<u8>, Error>,
        N: Fn(&M) -> Result<Vec<u8>, Error>,

        requires
            names.total::<S>(),
            forall|header: &IvfIndexStateHeader| call_requires(encode_header, (header,)),
            forall|ivf: &M| call_requires(encode_ivf, (ivf,)),
        ensures
            self.written(*names, *encode_header, *encode_ivf, r),
    {
        let header = self.header(names);
        let header_json = encode_header(&header);
        match header_json {
            Err(e) => Err(e),
            Ok(header_json) => {
                let r = self.serialize_models(header_json.as_slice(), encode_ivf);
                r
            },
        }
    }

    /// Writes the state after its header was encoded.
    fn serialize_models<N: Fn(&M) -> Result<Vec<u8>, Error>>(
        &self,
        header_json: &[u8],
        encode_ivf: &N,
    ) -> (r: Result<Vec<u8>, Error>)
        requires
            forall|ivf: &M| call_requires(encode_ivf, (ivf,)),
        ensures
            self.written_models(header_json@, *encode_ivf, r),
    {
        let ivf = encode_ivf(&self.ivf);
        match ivf {
            Err(e) => Err(e),
            Ok(ivf) => {
                let aux = encode_ivf(&self.aux_ivf);
                match aux {
                    Err(e) => {
                        assert(self.written_aux(
                            header_json@,
                            ivf@,
                            *encode_ivf,
                            Err::<Vec<u8>, Error>(e),
                        ));
                        Err(e)
                    },
                    Ok(aux) => {
                        let bytes = match &self.quantizer_extra_data {
                            Some(extra) => write_parts(
                                header_json,
                                ivf.as_slice(),
                                extra.as_slice(),
                                aux.as_slice(),
                            ),
                            None => write_parts(
                                header_json,
                                ivf.as_slice(),
                                &[],
                                aux.as_slice(),
                            ),
                        };
                        proof {
                            assert(self.extra().len() == 0 ==> self.extra()
                                =~= Seq::<u8>::empty());
                            assert(self.written_aux(
                                header_json@,
                                ivf@,
                                *encode_ivf,
                                Ok::<Vec<u8>, Error>(bytes),
                            ));
                        }
                        Ok(bytes)
                    },
                }
            },
        }
    }

    /// The state was made of that header, those models and that extra data.
    pub open spec fn made_of(
        &self,
        header: IvfIndexStateHeader,
        ivf: M,
        extra: Seq<u8>,
        aux_ivf: M,
    ) -> bool {
        &&& self.matches_header(header)
        &&& self.ivf == ivf
        &&& self.aux_ivf == aux_ivf
        &&& match self.quantizer_extra_data {
            Some(data) => extra.len() > 0 && data@ == extra,
            None => extra.len() == 0,
        }
    }

    /// What the kinds of a header can give once all else was read: the state with the kinds of
    /// those names, or the first failure among the kind of distance, that of the sub-index and that
    /// of the quantizer.
    pub open spec fn read_kinds<A, B, C>(
        header: IvfIndexStateHeader,
        ivf: M,
        extra: Seq<u8>,
        aux_ivf: M,
        parsers: KindParsers<A, B, C>,
        r: Result<IvfIndexState<M, S>, Error>,
    ) -> bool where
        A: Fn(&str) -> Result<DistanceType, Error>,
        B: Fn(&str) -> Result<S, Error>,
        C: Fn(&str) -> Result<QuantizationType, Error>,
     {
        exists|name: &str, kind: Result<DistanceType, Error>|
            name@ == header.distance_type@ && #[trigger] call_ensures(
                parsers.distance_type,
                (name,),
                kind,
            ) && match kind {
                Err(e) => r == Err::<IvfIndexState<M, S>, Error>(e),
                Ok(kind) => {
                    &&& Self::read_sub_index(header, ivf, extra, aux_ivf, parsers, r)
                    &&& r matches Ok(state) ==> state.distance_type == kind
                },
            }
    }

    /// What the kinds of a header can give once the kind of distance was found.
    pub open spec fn read_sub_index<A, B, C>(
        header: IvfIndexStateHeader,
        ivf: M,
        extra: Seq<u8>,
        aux_ivf: M,
        parsers: KindParsers<A, B, C>,
        r: Result<IvfIndexState<M, S>, Error>,
    ) -> bool where
        A: Fn(&str) -> Result<DistanceType, Error>,
        B: Fn(&str) -> Result<S, Error>,
        C: Fn(&str) -> Result<QuantizationType, Error>,
     {
        exists|name: &str, kind: Result<S, Error>|
            name@ == header.sub_index_type@ && #[trigger] call_ensures(
                parsers.sub_index_type,
                (name,),
                kind,
            ) && match kind {
                Err(e) => r == Err::<IvfIndexState<M, S>, Error>(e),
                Ok(kind) => {
                    &&& Self::read_quantization(header, ivf, extra, aux_ivf, parsers, r)
                    &&& r matches Ok(state) ==> state.sub_index_type == kind
                },
            }
    }

    /// What the kinds of a header can give once only that of the quantizer is left.
    pub open spec fn read_quantization<A, B, C>(
        header: IvfIndexStateHeader,
        ivf: M,
        extra: Seq<u8>,
        aux_ivf: M,
        parsers: KindParsers<A, B, C>,
        r: Result<IvfIndexState<M, S>, Error>,
    ) -> bool where
        A: Fn(&str) -> Result<DistanceType, Error>,
        B: Fn(&str) -> Result<S, Error>,
        C: Fn(&str) -> Result<QuantizationType, Error>,
     {
        exists|name: &str, kind: Result<QuantizationType, Error>|
            name@ == header.quantization_type@ && #[trigger] call_ensures(
                parsers.quantization_type,
                (name,),
                kind,
            ) && match kind {
                Err(e) => r == Err::<IvfIndexState<M, S>, Error>(e),
                Ok(kind) => r matches Ok(state) && state.quantization_type == kind
                    && state.made_of(header, ivf, extra, aux_ivf),
            }
    }

    /// Finds the kinds of a header, and puts the state together.
    fn with_kinds<A, B, C>(
        header: IvfIndexStateHeader,
        ivf: M,
        quantizer_extra_data: Option<Vec<u8>>,
        aux_ivf: M,
        parsers: &KindParsers<A, B, C>,
        Ghost(extra): Ghost<Seq<u8>>,
    ) -> (r: Result<IvfIndexState<M, S>, Error>) where
        A: Fn(&str) -> Result<DistanceType, Error>,
        B: Fn(&str) -> Result<S, Error>,
        C: Fn(&str) -> Result<QuantizationType, Error>,

        requires
            parsers.total::<S>(),
            match quantizer_extra_data {
                Some(data) => extra.len() > 0 && data@ == extra,
                None => extra.len() == 0,
            },
        ensures
            Self::read_kinds(header, ivf, extra, aux_ivf, *parsers, r),
    {
        let ghost given = header;
        let distance = (parsers.distance_type)(header.distance_type.as_str());
        let distance_type = match distance {
            Ok(kind) => kind,
            Err(e) => {
                return Err(e);
            },
        };
        let sub_index = (parsers.sub_index_type)(header.sub_index_type.as_str());
        let sub_index_type = match sub_index {
            Ok(kind) => kind,
            Err(e) => {
                let r = Err::<IvfIndexState<M, S>, Error>(e);
                assert(Self::read_sub_index(given, ivf, extra, aux_ivf, *parsers, r));
                return r;
            },
        };
        let quantization = (parsers.quantization_type)(header.quantization_type.as_str());
        let quantization_type = match quantization {
            Ok(kind) => kind,
            Err(e) => {
                let r = Err::<IvfIndexState<M, S>, Error>(e);
                assert(Self::read_quantization(given, ivf, extra, aux_ivf, *parsers, r));
                assert(Self::read_sub_index(given, ivf, extra, aux_ivf, *parsers, r));
                return r;
            },
        };
        let r = Ok::<IvfIndexState<M, S>, Error>(
            IvfIndexState {
                index_file_path: header.index_file_path,
                uuid: header.uuid,
                ivf,
                aux_ivf,
                distance_type,
                sub_index_metadata: header.sub_index_metadata,
                quantizer_metadata_json: header.quantizer_metadata_json,
                quantizer_extra_data,
                sub_index_type,
                quantization_type,
                cache_key_prefix: header.cache_key_prefix,
                index_file_size: header.index_file_size,
                aux_file_size: header.aux_file_size,
            },
        );
        assert(Self::read_quantization(given, ivf, extra, aux_ivf, *parsers, r));
        assert(Self::read_sub_index(given, ivf, extra, aux_ivf, *parsers, r));
        r
    }
}

impl<M: Clone, S> IvfIndexState<M, S> {
    /// What reading the state can give.
    ///
    /// The header is read and understood before the model of the index file, that before the extra
    /// data and the model of the auxiliary file, and the names of the kinds come last. Where the
    /// bytes end before the length of the last model, that of the index file stands for it.
    pub open spec fn read<P, D, E, A, B, C>(
        bytes: Seq<u8>,
        parse_header: P,
        decode_ivf: D,
        decode_aux_ivf: E,
        parsers: KindParsers<A, B, C>,
        r: Result<IvfIndexState<M, S>, Error>,
    ) -> bool where
        P: Fn(&[u8]) -> Result<IvfIndexStateHeader, Error>,
        D: Fn(&[u8]) -> Result<M, Error>,
        E: Fn(&[u8]) -> Result<M, Error>,
        A: Fn(&str) -> Result<DistanceType, Error>,
        B: Fn(&str) -> Result<S, Error>,
        C: Fn(&str) -> Result<QuantizationType, Error>,
     {
        match unframed(bytes) {
            None => r == Err::<IvfIndexState<M, S>, Error>(Error::UnexpectedEnd),
            Some((header_bytes, after_header)) => exists|
                h: &[u8],
                header: Result<IvfIndexStateHeader, Error>,
            |
                h@ == header_bytes && #[trigger] call_ensures(parse_header, (h,), header)
                    && match header {
                    Err(e) => r == Err::<IvfIndexState<M, S>, Error>(e),
                    Ok(header) => Self::read_models(
                        after_header,
                        header,
                        decode_ivf,
                        decode_aux_ivf,
                        parsers,
                        r,
                    ),
                },
        }
    }

    /// What reading the state after its header can give.
    pub open spec fn read_models<D, E, A, B, C>(
        bytes: Seq<u8>,
        header: IvfIndexStateHeader,
        decode_ivf: D,
        decode_aux_ivf: E,
        parsers: KindParsers<A, B, C>,
        r: Result<IvfIndexState<M, S>, Error>,
    ) -> bool where
        D: Fn(&[u8]) -> Result<M, Error>,
        E: Fn(&[u8]) -> Result<M, Error>,
        A: Fn(&str) -> Result<DistanceType, Error>,
        B: Fn(&str) -> Result<S, Error>,
        C: Fn(&str) -> Result<QuantizationType, Error>,
     {
        match unframed(bytes) {
            None => r == Err::<IvfIndexState<M, S>, Error>(Error::UnexpectedEnd),
            Some((ivf_bytes, after_ivf)) => exists|i: &[u8], ivf: Result<M, Error>|
                i@ == ivf_bytes && #[trigger] call_ensures(decode_ivf, (i,), ivf) && match ivf {
                    Err(e) => r == Err::<IvfIndexState<M, S>, Error>(e),
                    Ok(ivf) => Self::read_extra(
                        after_ivf,
                        header,
                        ivf,
                        decode_aux_ivf,
                        parsers,
                        r,
                    ),
                },
        }
    }

    /// What reading the state can give where there is no model of the auxiliary file: a copy of that
    /// of the index file stands for it.
    pub open spec fn read_without_aux<A, B, C>(
        header: IvfIndexStateHeader,
        ivf: M,
        extra: Seq<u8>,
        parsers: KindParsers<A, B, C>,
        r: Result<IvfIndexState<M, S>, Error>,
    ) -> bool where
        A: Fn(&str) -> Result<DistanceType, Error>,
        B: Fn(&str) -> Result<S, Error>,
        C: Fn(&str) -> Result<QuantizationType, Error>,
     {
        exists|aux: M| #[trigger] cloned(ivf, aux) && Self::read_kinds(
            header,
            ivf,
            extra,
            aux,
            parsers,
            r,
        )
    }

    /// What reading the state after the model of the index file can give.
    pub open spec fn read_extra<E, A, B, C>(
        bytes: Seq<u8>,
        header: IvfIndexStateHeader,
        ivf: M,
        decode_aux_ivf: E,
        parsers: KindParsers<A, B, C>,
        r: Result<IvfIndexState<M, S>, Error>,
    ) -> bool where
        E: Fn(&[u8]) -> Result<M, Error>,
        A: Fn(&str) -> Result<DistanceType, Error>,
        B: Fn(&str) -> Result<S, Error>,
        C: Fn(&str) -> Result<QuantizationType, Error>,
     {
        match unframed(bytes) {
            None => r == Err::<IvfIndexState<M, S>, Error>(Error::UnexpectedEnd),
            Some((extra, after_extra)) => if after_extra.len() < 8 {
                Self::read_without_aux(header, ivf, extra, parsers, r)
            } else {
                match unframed(after_extra) {
                    None => r == Err::<IvfIndexState<M, S>, Error>(Error::UnexpectedEnd),
                    Some((aux_bytes, _)) => exists|a: &[u8], aux: Result<M, Error>|
                        a@ == aux_bytes && #[trigger] call_ensures(decode_aux_ivf, (a,), aux)
                            && match aux {
                            Err(e) => r == Err::<IvfIndexState<M, S>, Error>(e),
                            Ok(aux) => Self::read_kinds(header, ivf, extra, aux, parsers, r),
                        },
                }
            },
        }
    }

    /// Reads a state that was written.
    pub fn deserialize<P, D, E, A, B, C>(
        bytes: &[u8],
        parse_header: &P,
        decode_ivf: &D,
        decode_aux_ivf: &E,
        parsers: &KindParsers<A, B, C>,
    ) -> (r: Result<IvfIndexState<M, S>, Error>) where
        P: Fn(&[u8]) -> Result<IvfIndexStateHeader, Error>,
        D: Fn(&[u8]) -> Result<M, Error>,
        E: Fn(&[u8]) -> Result<M, Error>,
        A: Fn(&str) -> Result<DistanceType, Error>,
        B: Fn(&str) -> Result<S, Error>,
        C: Fn(&str) -> Result<QuantizationType, Error>,

        requires
            forall|part: &[u8]| call_requires(parse_header, (part,)),
            forall|part: &[u8]| call_requires(decode_ivf, (part,)),
            forall|part: &[u8]| call_requires(decode_aux_ivf, (part,)),
            parsers.total::<S>(),
        ensures
            Self::read(bytes@, *parse_header, *decode_ivf, *decode_aux_ivf, *parsers, r),
    {
        assert(bytes@.skip(0) =~= bytes@);
        let (header_from, header_to) = match read_part(bytes, 0) {
            Some(part) => part,
            None => {
                return Err(Error::UnexpectedEnd);
            },
        };
        let header_bytes: &[u8] = &bytes[header_from..header_to];
        let header = parse_header(header_bytes);
        let header = match header {
            Ok(header) => header,
            Err(e) => {
                return Err(e);
            },
        };
        let r = Self::deserialize_models(
            bytes,
            header_to,
            header,
            decode_ivf,
            decode_aux_ivf,
            parsers,
        );
        r
    }

    /// Reads a state after its header.
    fn deserialize_models<D, E, A, B, C>(
        bytes: &[u8],
        start: usize,
        header: IvfIndexStateHeader,
        decode_ivf: &D,
        decode_aux_ivf: &E,
        parsers: &KindParsers<A, B, C>,
    ) -> (r: Result<IvfIndexState<M, S>, Error>) where
        D: Fn(&[u8]) -> Result<M, Error>,
        E: Fn(&[u8]) -> Result<M, Error>,
        A: Fn(&str) -> Result<DistanceType, Error>,
        B: Fn(&str) -> Result<S, Error>,
        C: Fn(&str) -> Result<QuantizationType, Error>,

        requires
            start <= bytes@.len(),
            forall|part: &[u8]| call_requires(decode_ivf, (part,)),
            forall|part: &[u8]| call_requires(decode_aux_ivf, (part,)),
            parsers.total::<S>(),
        ensures
            Self::read_models(
                bytes@.skip(start as int),
                header,
                *decode_ivf,
                *decode_aux_ivf,
                *parsers,
                r,
            ),
    {
        let (ivf_from, ivf_to) = match read_part(bytes, start) {
            Some(part) => part,
            None => {
                return Err(Error::UnexpectedEnd);
            },
        };
        let ivf_bytes: &[u8] = &bytes[ivf_from..ivf_to];
        let ivf = decode_ivf(ivf_bytes);
        let ivf = match ivf {
            Ok(ivf) => ivf,
            Err(e) => {
                return Err(e);
            },
        };
        let r = Self::deserialize_extra(bytes, ivf_to, header, ivf, decode_aux_ivf, parsers);
        r
    }

    /// Reads a state after the model of the index file.
    fn deserialize_extra<E, A, B, C>(
        bytes: &[u8],
        start: usize,
        header: IvfIndexStateHeader,
        ivf: M,
        decode_aux_ivf: &E,
        parsers: &KindParsers<A, B, C>,
    ) -> (r: Result<IvfIndexState<M, S>, Error>) where
        E: Fn(&[u8]) -> Result<M, Error>,
        A: Fn(&str) -> Result<DistanceType, Error>,
        B: Fn(&str) -> Result<S, Error>,
        C: Fn(&str) -> Result<QuantizationType, Error>,

        requires
            start <= bytes@.len(),
            forall|part: &[u8]| call_requires(decode_aux_ivf, (part,)),
            parsers.total::<S>(),
        ensures
            Self::read_extra(
                bytes@.skip(start as int),
                header,
                ivf,
                *decode_aux_ivf,
                *parsers,
                r,
            ),
    {
        let total: usize = bytes.len();
        let (extra_from, extra_to) = match read_part(bytes, start) {
            Some(part) => part,
            None => {
                return Err(Error::UnexpectedEnd);
            },
        };
        let ghost extra = bytes@.subrange(extra_from as int, extra_to as int);
        let quantizer_extra_data: Option<Vec<u8>> = if extra_to > extra_from {
            let part: &[u8] = &bytes[extra_from..extra_to];
            let mut data: Vec<u8> = Vec::with_capacity(part.len());
            data.extend_from_slice(part);
            assert(data@ =~= part@);
            Some(data)
        } else {
            None
        };
        if total - extra_to < 8 {
            let aux_ivf: M = ivf.clone();
            assert(cloned(ivf, aux_ivf));
            let r = Self::with_kinds(
                header,
                ivf,
                quantizer_extra_data,
                aux_ivf,
                parsers,
                Ghost(extra),
            );
            assert(Self::read_without_aux(header, ivf, extra, *parsers, r));
            return r;
        }
        let (aux_from, aux_to) = match read_part(bytes, extra_to) {
            Some(part) => part,
            None => {
                return Err(Error::UnexpectedEnd);
            },
        };
        let aux_bytes: &[u8] = &bytes[aux_from..aux_to];
        let aux = decode_aux_ivf(aux_bytes);
        match aux {
            Ok(aux_ivf) => {
                let r = Self::with_kinds(
                    header,
                    ivf,
                    quantizer_extra_data,
                    aux_ivf,
                    parsers,
                    Ghost(extra),
                );
                r
            },
            Err(e) => Err(e),
        }
    }
}

/// Reading a header gives back what was written of it.
pub open spec fn header_read_back<
    H: Fn(&IvfIndexStateHeader) -> Result<Vec<u8>, Error>,
    P: Fn(&[u8]) -> Result<IvfIndexStateHeader, Error>,
>(encode_header: H, parse_header: P) -> bool {
    forall|
        header: IvfIndexStateHeader,
        json: Vec<u8>,
        part: &[u8],
        read: Result<IvfIndexStateHeader, Error>,
    |
        #[trigger] call_ensures(encode_header, (&header,), Ok::<Vec<u8>, Error>(json)) && part@
            == json@ && #[trigger] call_ensures(parse_header, (part,), read) ==> (read matches Ok(h)
            && same_header(h, header))
}

/// Reading a model gives back the one that was written.
pub open spec fn model_read_back<
    M,
    N: Fn(&M) -> Result<Vec<u8>, Error>,
    D: Fn(&[u8]) -> Result<M, Error>,
>(encode_ivf: N, decode_ivf: D) -> bool {
    forall|model: M, bytes: Vec<u8>, part: &[u8], read: Result<M, Error>|
        #[trigger] call_ensures(encode_ivf, (&model,), Ok::<Vec<u8>, Error>(bytes)) && part@
            == bytes@ && #[trigger] call_ensures(decode_ivf, (part,), read) ==> read == Ok::<
            M,
            Error,
        >(model)
}

/// A kind is found by its name.
pub open spec fn kind_read_back<K, N: Fn(&K) -> String, P: Fn(&str) -> Result<K, Error>>(
    name: N,
    parse: P,
) -> bool {
    forall|kind: K, given: String, text: &str, read: Result<K, Error>|
        #[trigger] call_ensures(name, (&kind,), given) && text@ == given@
            && #[trigger] call_ensures(parse, (text,), read) ==> read == Ok::<K, Error>(kind)
}

/// Both headers say the same.
pub open spec fn same_header(a: IvfIndexStateHeader, b: IvfIndexStateHeader) -> bool {
    &&& a.index_file_path@ == b.index_file_path@
    &&& a.uuid@ == b.uuid@
    &&& a.distance_type@ == b.distance_type@
    &&& a.sub_index_metadata@ == b.sub_index_metadata@
    &&& a.sub_index_type@ == b.sub_index_type@
    &&& a.quantization_type@ == b.quantization_type@
    &&& a.quantizer_metadata_json@ == b.quantizer_metadata_json@
    &&& a.cache_key_prefix@ == b.cache_key_prefix@
    &&& a.index_file_size == b.index_file_size
    &&& a.aux_file_size == b.aux_file_size
}

impl<M, S> IvfIndexState<M, S> {
    /// Both states say the same, but for extra data that is empty in one and missing in the other.
    pub open spec fn same_state(&self, other: &Self) -> bool {
        &&& self.index_file_path@ == other.index_file_path@
        &&& self.uuid@ == other.uuid@
        &&& self.ivf == other.ivf
        &&& self.aux_ivf == other.aux_ivf
        &&& self.distance_type == other.distance_type
        &&& self.sub_index_metadata@ == other.sub_index_metadata@
        &&& self.quantizer_metadata_json@ == other.quantizer_metadata_json@
        &&& self.extra() == other.extra()
        &&& self.sub_index_type == other.sub_index_type
        &&& self.quantization_type == other.quantization_type
        &&& self.cache_key_prefix@ == other.cache_key_prefix@
        &&& self.index_file_size == other.index_file_size
        &&& self.aux_file_size == other.aux_file_size
    }
}

/// A state that was written is read back, every field of it; extra data that is empty comes back
/// as none.
pub proof fn law_state_round_trip<M: Clone, S, A, B, C, H, N, P, D, E, X, Y, Z>(
    state: IvfIndexState<M, S>,
    names: KindNames<A, B, C>,
    encode_header: H,
    encode_ivf: N,
    parse_header: P,
    decode_ivf: D,
    decode_aux_ivf: E,
    parsers: KindParsers<X, Y, Z>,
    bytes: Vec<u8>,
    r: Result<IvfIndexState<M, S>, Error>,
) where
    A: Fn(&DistanceType) -> String,
    B: Fn(&S) -> String,
    C: Fn(&QuantizationType) -> String,
    H: Fn(&IvfIndexStateHeader) -> Result<Vec<u8>, Error>,
    N: Fn(&M) -> Result<Vec<u8>, Error>,
    P: Fn(&[u8]) -> Result<IvfIndexStateHeader, Error>,
    D: Fn(&[u8]) -> Result<M, Error>,
    E: Fn(&[u8]) -> Result<M, Error>,
    X: Fn(&str) -> Result<DistanceType, Error>,
    Y: Fn(&str) -> Result<S, Error>,
    Z: Fn(&str) -> Result<QuantizationType, Error>,

    requires
        state.written(names, encode_header, encode_ivf, Ok::<Vec<u8>, Error>(bytes)),
        bytes@.len() <= u64::MAX,
        header_read_back(encode_header, parse_header),
        model_read_back(encode_ivf, decode_ivf),
        model_read_back(encode_ivf, decode_aux_ivf),
        kind_read_back(names.distance_type, parsers.distance_type),
        kind_read_back(names.sub_index_type, parsers.sub_index_type),
        kind_read_back(names.quantization_type, parsers.quantization_type),
        IvfIndexState::<M, S>::read(
            bytes@,
            parse_header,
            decode_ivf,
            decode_aux_ivf,
            parsers,
            r,
        ),
    ensures
        r matches Ok(back) && {
            &&& back.same_state(&state)
            &&& back.quantizer_extra_data matches Some(data) ==> data@.len() > 0
        },
{
    let written = Ok::<Vec<u8>, Error>(bytes);
    let (header, header_result) = choose|
        header: IvfIndexStateHeader,
        header_json: Result<Vec<u8>, Error>,
    |
        state.has_header(header, names) && #[trigger] call_ensures(
            encode_header,
            (&header,),
            header_json,
        ) && match header_json {
            Err(e) => written == Err::<Vec<u8>, Error>(e),
            Ok(header_json) => state.written_models(header_json@, encode_ivf, written),
        };
    let json = header_result->Ok_0;
    let ivf_result = choose|ivf: Result<Vec<u8>, Error>| #[trigger]
        call_ensures(encode_ivf, (&state.ivf,), ivf) && match ivf {
            Err(e) => written == Err::<Vec<u8>, Error>(e),
            Ok(ivf) => state.written_aux(json@, ivf@, encode_ivf, written),
        };
    let ivf = ivf_result->Ok_0;
    let aux_result = choose|aux: Result<Vec<u8>, Error>| #[trigger]
        call_ensures(encode_ivf, (&state.aux_ivf,), aux) && match aux {
            Err(e) => written == Err::<Vec<u8>, Error>(e),
            Ok(aux) => bytes@ == wire(json@, ivf@, state.extra(), aux@),
        };
    let aux = aux_result->Ok_0;
    let extra = state.extra();
    let none = Seq::<u8>::empty();
    let last = framed(aux@) + none;
    let third = framed(extra) + last;
    let second = framed(ivf@) + third;
    crate::bytes::lemma_le_bytes_len(json@.len(), 8);
    crate::bytes::lemma_le_bytes_len(ivf@.len(), 8);
    crate::bytes::lemma_le_bytes_len(extra.len(), 8);
    crate::bytes::lemma_le_bytes_len(aux@.len(), 8);
    assert(bytes@ =~= framed(json@) + second);
    law_unframe_after_frame(json@, second);
    law_unframe_after_frame(ivf@, third);
    law_unframe_after_frame(extra, last);
    law_unframe_after_frame(aux@, none);
    let (part, back_header) = choose|part: &[u8], h: Result<IvfIndexStateHeader, Error>|
        part@ == json@ && #[trigger] call_ensures(parse_header, (part,), h) && match h {
            Err(e) => r == Err::<IvfIndexState<M, S>, Error>(e),
            Ok(h) => IvfIndexState::<M, S>::read_models(
                second,
                h,
                decode_ivf,
                decode_aux_ivf,
                parsers,
                r,
            ),
        };
    assert(call_ensures(encode_header, (&header,), Ok::<Vec<u8>, Error>(json)));
    let h = back_header->Ok_0;
    assert(same_header(h, header));
    assert(call_ensures(encode_ivf, (&state.ivf,), Ok::<Vec<u8>, Error>(ivf)));
    assert(IvfIndexState::<M, S>::read_extra(third, h, state.ivf, decode_aux_ivf, parsers, r));
    assert(call_ensures(encode_ivf, (&state.aux_ivf,), Ok::<Vec<u8>, Error>(aux)));
    assert(IvfIndexState::<M, S>::read_kinds(h, state.ivf, extra, state.aux_ivf, parsers, r));
    assert(call_ensures(names.distance_type, (&state.distance_type,), header.distance_type));
    assert(IvfIndexState::<M, S>::read_sub_index(h, state.ivf, extra, state.aux_ivf, parsers, r));
    assert(call_ensures(names.sub_index_type, (&state.sub_index_type,), header.sub_index_type));
    assert(IvfIndexState::<M, S>::read_quantization(
        h,
        state.ivf,
        extra,
        state.aux_ivf,
        parsers,
        r,
    ));
    assert(call_ensures(
        names.quantization_type,
        (&state.quantization_type,),
        header.quantization_type,
    ));
    let back = r->Ok_0;
    assert(back.made_of(h, state.ivf, extra, state.aux_ivf));
    assert(back.extra() =~= extra);
}

/// Reads cached index data that stands behind a tag.
pub fn deserialize_vector_index_data<M: Clone, S, P, D, E, A, B, C>(
    tag: String,
    bytes: &[u8],
    parse_header: &P,
    decode_ivf: &D,
    decode_aux_ivf: &E,
    parsers: &KindParsers<A, B, C>,
) -> (r: Result<IvfIndexState<M, S>, Error>) where
    P: Fn(&[u8]) -> Result<IvfIndexStateHeader, Error>,
    D: Fn(&[u8]) -> Result<M, Error>,
    E: Fn(&[u8]) -> Result<M, Error>,
    A: Fn(&str) -> Result<DistanceType, Error>,
    B: Fn(&str) -> Result<S, Error>,
    C: Fn(&str) -> Result<QuantizationType, Error>,

    requires
        forall|part: &[u8]| call_requires(parse_header, (part,)),
        forall|part: &[u8]| call_requires(decode_ivf, (part,)),
        forall|part: &[u8]| call_requires(decode_aux_ivf, (part,)),
        parsers.total::<S>(),
    ensures
        tag@ == IVF_TYPE_TAG@ ==> IvfIndexState::<M, S>::read(
            bytes@,
            *parse_header,
            *decode_ivf,
            *decode_aux_ivf,
            *parsers,
            r,
        ),
        tag@ != IVF_TYPE_TAG@ ==> r == Err::<IvfIndexState<M, S>, Error>(
            Error::UnknownTypeTag(tag),
        ),
        tag@ != "IVF"@ ==> r == Err::<IvfIndexState<M, S>, Error>(Error::UnknownTypeTag(tag)),
{
    if same_text(&tag, IVF_TYPE_TAG) {
        IvfIndexState::deserialize(bytes, parse_header, decode_ivf, decode_aux_ivf, parsers)
    } else {
        Err(Error::UnknownTypeTag(tag))
    }
}

/// A frame is the length of its part in eight bytes, lowest first, and then the part.
pub proof fn law_frame_layout(part: Seq<u8>, k: nat)
    requires
        k < 8,
    ensures
        framed(part).len() == 8 + part.len(),
        framed(part)[k as int] == part.len() as int / vstd::arithmetic::power::pow(256, k) % 256,
        framed(part).subrange(8, 8 + part.len() as int) == part,
{
    crate::bytes::law_le_bytes_are_digits(part.len(), 8, k);
    assert(framed(part).subrange(8, 8 + part.len() as int) =~= part);
}

/// What is read of a part is what was framed: the bytes are the frame of the part and then what is
/// left. Bytes of which no part is read are no frame, whatever follows.
pub proof fn law_only_frames_are_read(bytes: Seq<u8>)
    ensures
        match unframed(bytes) {
            Some((part, rest)) => part.len() <= u64::MAX && bytes == framed(part) + rest,
            None => forall|part: Seq<u8>, rest: Seq<u8>|
                part.len() <= u64::MAX ==> bytes != #[trigger] (framed(part) + rest),
        },
{
    if let Some((part, rest)) = unframed(bytes) {
        let length = bytes.take(8);
        crate::bytes::lemma_byte_ranges();
        crate::bytes::lemma_le_value_range(length);
        crate::bytes::law_le_bytes_of_le_value(length);
        assert(bytes =~= length + part + rest);
        assert(framed(part) =~= length + part);
    } else {
        assert forall|part: Seq<u8>, rest: Seq<u8>| part.len() <= u64::MAX implies bytes != #[trigger] (
        framed(part) + rest) by {
            law_unframe_after_frame(part, rest);
        }
    }
}

/// The four parts stand in their order: header, model of the index file, extra data and model of the
/// auxiliary file, each behind eight bytes for its length.
pub proof fn law_wire_layout(header: Seq<u8>, ivf: Seq<u8>, extra: Seq<u8>, aux_ivf: Seq<u8>)
    ensures
        ({
            let a = 8 + header.len() as int;
            let b = a + 8 + ivf.len();
            let c = b + 8 + extra.len();
            let d = c + 8 + aux_ivf.len();
            let bytes = wire(header, ivf, extra, aux_ivf);
            &&& bytes.len() == d
            &&& bytes.subrange(0, 8) == crate::bytes::le_bytes(header.len(), 8)
            &&& bytes.subrange(8, a) == header
            &&& bytes.subrange(a, a + 8) == crate::bytes::le_bytes(ivf.len(), 8)
            &&& bytes.subrange(a + 8, b) == ivf
            &&& bytes.subrange(b, b + 8) == crate::bytes::le_bytes(extra.len(), 8)
            &&& bytes.subrange(b + 8, c) == extra
            &&& bytes.subrange(c, c + 8) == crate::bytes::le_bytes(aux_ivf.len(), 8)
            &&& bytes.subrange(c + 8, d) == aux_ivf
        }),
{
    let a = 8 + header.len() as int;
    let b = a + 8 + ivf.len();
    let c = b + 8 + extra.len();
    let d = c + 8 + aux_ivf.len();
    let bytes = wire(header, ivf, extra, aux_ivf);
    crate::bytes::lemma_le_bytes_len(header.len(), 8);
    crate::bytes::lemma_le_bytes_len(ivf.len(), 8);
    crate::bytes::lemma_le_bytes_len(extra.len(), 8);
    crate::bytes::lemma_le_bytes_len(aux_ivf.len(), 8);
    assert(bytes.subrange(0, 8) =~= crate::bytes::le_bytes(header.len(), 8));
    assert(bytes.subrange(8, a) =~= header);
    assert(bytes.subrange(a, a + 8) =~= crate::bytes::le_bytes(ivf.len(), 8));
    assert(bytes.subrange(a + 8, b) =~= ivf);
    assert(bytes.subrange(b, b + 8) =~= crate::bytes::le_bytes(extra.len(), 8));
    assert(bytes.subrange(b + 8, c) =~= extra);
    assert(bytes.subrange(c, c + 8) =~= crate::bytes::le_bytes(aux_ivf.len(), 8));
    assert(bytes.subrange(c + 8, d) =~= aux_ivf);
}

/// A header that belongs to a state says the same under each name, and holds the kinds by the names
/// that they are given.
pub proof fn law_header_of_a_state<M, S, A, B, C>(
    state: IvfIndexState<M, S>,
    header: IvfIndexStateHeader,
    names: KindNames<A, B, C>,
) where
    A: Fn(&DistanceType) -> String,
    B: Fn(&S) -> String,
    C: Fn(&QuantizationType) -> String,

    requires
        state.has_header(header, names),
    ensures
        header.index_file_path@ == state.index_file_path@,
        header.uuid@ == state.uuid@,
        header.sub_index_metadata@ == state.sub_index_metadata@,
        header.quantizer_metadata_json@ == state.quantizer_metadata_json@,
        header.cache_key_prefix@ == state.cache_key_prefix@,
        header.index_file_size == state.index_file_size,
        header.aux_file_size == state.aux_file_size,
        call_ensures(names.distance_type, (&state.distance_type,), header.distance_type),
        call_ensures(names.sub_index_type, (&state.sub_index_type,), header.sub_index_type),
        call_ensures(names.quantization_type, (&state.quantization_type,), header.quantization_type),
{
}

/// What is written of a state: the encoded header of the state, the encoded model of the index file,
/// the extra data or nothing, and the encoded model of the auxiliary file.
pub proof fn law_written_state<M, S, A, B, C, H, N>(
    state: IvfIndexState<M, S>,
    names: KindNames<A, B, C>,
    encode_header: H,
    encode_ivf: N,
    bytes: Vec<u8>,
) -> (r: (IvfIndexStateHeader, Vec<u8>, Vec<u8>, Vec<u8>)) where
    A: Fn(&DistanceType) -> String,
    B: Fn(&S) -> String,
    C: Fn(&QuantizationType) -> String,
    H: Fn(&IvfIndexStateHeader) -> Result<Vec<u8>, Error>,
    N: Fn(&M) -> Result<Vec<u8>, Error>,

    requires
        state.written(names, encode_header, encode_ivf, Ok::<Vec<u8>, Error>(bytes)),
    ensures
        state.has_header(r.0, names),
        call_ensures(encode_header, (&r.0,), Ok::<Vec<u8>, Error>(r.1)),
        call_ensures(encode_ivf, (&state.ivf,), Ok::<Vec<u8>, Error>(r.2)),
        call_ensures(encode_ivf, (&state.aux_ivf,), Ok::<Vec<u8>, Error>(r.3)),
        bytes@ == wire(
            r.1@,
            r.2@,
            match state.quantizer_extra_data {
                Some(data) => data@,
                None => Seq::<u8>::empty(),
            },
            r.3@,
        ),
{
    let written = Ok::<Vec<u8>, Error>(bytes);
    let (header, header_result) = choose|
        header: IvfIndexStateHeader,
        header_json: Result<Vec<u8>, Error>,
    |
        state.has_header(header, names) && #[trigger] call_ensures(
            encode_header,
            (&header,),
            header_json,
        ) && match header_json {
            Err(e) => written == Err::<Vec<u8>, Error>(e),
            Ok(header_json) => state.written_models(header_json@, encode_ivf, written),
        };
    let json = header_result->Ok_0;
    let ivf_result = choose|ivf: Result<Vec<u8>, Error>| #[trigger]
        call_ensures(encode_ivf, (&state.ivf,), ivf) && match ivf {
            Err(e) => written == Err::<Vec<u8>, Error>(e),
            Ok(ivf) => state.written_aux(json@, ivf@, encode_ivf, written),
        };
    let ivf = ivf_result->Ok_0;
    let aux_result = choose|aux: Result<Vec<u8>, Error>| #[trigger]
        call_ensures(encode_ivf, (&state.aux_ivf,), aux) && match aux {
            Err(e) => written == Err::<Vec<u8>, Error>(e),
            Ok(aux) => bytes@ == wire(json@, ivf@, state.extra(), aux@),
        };
    (header, json, ivf, aux_result->Ok_0)
}

/// A state that is put together from a header, two models and extra data has each under its own name;
/// extra data that is empty is none.
pub proof fn law_state_of_its_parts<M, S>(
    state: IvfIndexState<M, S>,
    header: IvfIndexStateHeader,
    ivf: M,
    extra: Seq<u8>,
    aux_ivf: M,
)
    requires
        state.made_of(header, ivf, extra, aux_ivf),
    ensures
        state.index_file_path@ == header.index_file_path@,
        state.uuid@ == header.uuid@,
        state.sub_index_metadata@ == header.sub_index_metadata@,
        state.quantizer_metadata_json@ == header.quantizer_metadata_json@,
        state.cache_key_prefix@ == header.cache_key_prefix@,
        state.index_file_size == header.index_file_size,
        state.aux_file_size == header.aux_file_size,
        state.ivf == ivf,
        state.aux_ivf == aux_ivf,
        state.quantizer_extra_data is Some <==> extra.len() > 0,
        state.quantizer_extra_data is Some ==> state.quantizer_extra_data->0@ == extra,
{
}

/// Reading the kinds of a header: a state that comes out has the kinds that their names are read as,
/// and is put together from the header, the models and the extra data.
pub proof fn law_kinds_of_a_read_state<M, S, A, B, C>(
    header: IvfIndexStateHeader,
    ivf: M,
    extra: Seq<u8>,
    aux_ivf: M,
    parsers: KindParsers<A, B, C>,
    state: IvfIndexState<M, S>,
) -> (names: (&'static str, &'static str, &'static str)) where
    A: Fn(&str) -> Result<DistanceType, Error>,
    B: Fn(&str) -> Result<S, Error>,
    C: Fn(&str) -> Result<QuantizationType, Error>,

    requires
        IvfIndexState::<M, S>::read_kinds(
            header,
            ivf,
            extra,
            aux_ivf,
            parsers,
            Ok::<IvfIndexState<M, S>, Error>(state),
        ),
    ensures
        names.0@ == header.distance_type@,
        names.1@ == header.sub_index_type@,
        names.2@ == header.quantization_type@,
        call_ensures(
            parsers.distance_type,
            (names.0,),
            Ok::<DistanceType, Error>(state.distance_type),
        ),
        call_ensures(parsers.sub_index_type, (names.1,), Ok::<S, Error>(state.sub_index_type)),
        call_ensures(
            parsers.quantization_type,
            (names.2,),
            Ok::<QuantizationType, Error>(state.quantization_type),
        ),
        state.made_of(header, ivf, extra, aux_ivf),
{
    let r = Ok::<IvfIndexState<M, S>, Error>(state);
    let (first, kind) = choose|name: &str, kind: Result<DistanceType, Error>|
        name@ == header.distance_type@ && #[trigger] call_ensures(
            parsers.distance_type,
            (name,),
            kind,
        ) && match kind {
            Err(e) => r == Err::<IvfIndexState<M, S>, Error>(e),
            Ok(kind) => {
                &&& IvfIndexState::<M, S>::read_sub_index(header, ivf, extra, aux_ivf, parsers, r)
                &&& r matches Ok(state) ==> state.distance_type == kind
            },
        };
    let (second, sub_kind) = choose|name: &str, kind: Result<S, Error>|
        name@ == header.sub_index_type@ && #[trigger] call_ensures(
            parsers.sub_index_type,
            (name,),
            kind,
        ) && match kind {
            Err(e) => r == Err::<IvfIndexState<M, S>, Error>(e),
            Ok(kind) => {
                &&& IvfIndexState::<M, S>::read_quantization(
                    header,
                    ivf,
                    extra,
                    aux_ivf,
                    parsers,
                    r,
                )
                &&& r matches Ok(state) ==> state.sub_index_type == kind
            },
        };
    let (third, last_kind) = choose|name: &str, kind: Result<QuantizationType, Error>|
        name@ == header.quantization_type@ && #[trigger] call_ensures(
            parsers.quantization_type,
            (name,),
            kind,
        ) && match kind {
            Err(e) => r == Err::<IvfIndexState<M, S>, Error>(e),
            Ok(kind) => r matches Ok(state) && state.quantization_type == kind && state.made_of(
                header,
                ivf,
                extra,
                aux_ivf,
            ),
        };
    (first, second, third)
}

/// A state that is read comes from the parts of the bytes: its header from the first, its model of
/// the index file from the second, its extra data from the third, and its model of the auxiliary file
/// from the fourth, or from that of the index file where there is no fourth.
pub proof fn law_read_state<M: Clone, S, P, D, E, A, B, C>(
    bytes: Seq<u8>,
    parse_header: P,
    decode_ivf: D,
    decode_aux_ivf: E,
    parsers: KindParsers<A, B, C>,
    state: IvfIndexState<M, S>,
) -> (r: (IvfIndexStateHeader, &'static [u8], &'static [u8])) where
    P: Fn(&[u8]) -> Result<IvfIndexStateHeader, Error>,
    D: Fn(&[u8]) -> Result<M, Error>,
    E: Fn(&[u8]) -> Result<M, Error>,
    A: Fn(&str) -> Result<DistanceType, Error>,
    B: Fn(&str) -> Result<S, Error>,
    C: Fn(&str) -> Result<QuantizationType, Error>,

    requires
        IvfIndexState::<M, S>::read(
            bytes,
            parse_header,
            decode_ivf,
            decode_aux_ivf,
            parsers,
            Ok::<IvfIndexState<M, S>, Error>(state),
        ),
    ensures
        parts_of(bytes) is Some,
        r.1@ == parts_of(bytes)->0.header,
        call_ensures(parse_header, (r.1,), Ok::<IvfIndexStateHeader, Error>(r.0)),
        r.2@ == parts_of(bytes)->0.ivf,
        call_ensures(decode_ivf, (r.2,), Ok::<M, Error>(state.ivf)),
        parts_of(bytes)->0.aux_ivf is None ==> cloned(state.ivf, state.aux_ivf),
        parts_of(bytes)->0.aux_ivf matches Some(aux) ==> exists|a: &[u8]|
            a@ == aux && #[trigger] call_ensures(
                decode_aux_ivf,
                (a,),
                Ok::<M, Error>(state.aux_ivf),
            ),
        IvfIndexState::<M, S>::read_kinds(
            r.0,
            state.ivf,
            match parts_of(bytes)->0.extra {
                Some(extra) => extra,
                None => Seq::<u8>::empty(),
            },
            state.aux_ivf,
            parsers,
            Ok::<IvfIndexState<M, S>, Error>(state),
        ),
{
    let ok = Ok::<IvfIndexState<M, S>, Error>(state);
    let (header_bytes, after_header) = unframed(bytes)->0;
    let (h, header_result) = choose|h: &[u8], header: Result<IvfIndexStateHeader, Error>|
        h@ == header_bytes && #[trigger] call_ensures(parse_header, (h,), header) && match header {
            Err(e) => ok == Err::<IvfIndexState<M, S>, Error>(e),
            Ok(header) => IvfIndexState::<M, S>::read_models(
                after_header,
                header,
                decode_ivf,
                decode_aux_ivf,
                parsers,
                ok,
            ),
        };
    let header = header_result->Ok_0;
    let (ivf_bytes, after_ivf) = unframed(after_header)->0;
    let (i, ivf_result) = choose|i: &[u8], ivf: Result<M, Error>|
        i@ == ivf_bytes && #[trigger] call_ensures(decode_ivf, (i,), ivf) && match ivf {
            Err(e) => ok == Err::<IvfIndexState<M, S>, Error>(e),
            Ok(ivf) => IvfIndexState::<M, S>::read_extra(
                after_ivf,
                header,
                ivf,
                decode_aux_ivf,
                parsers,
                ok,
            ),
        };
    let ivf = ivf_result->Ok_0;
    let (extra, after_extra) = unframed(after_ivf)->0;
    assert(extra.len() == 0 ==> extra =~= Seq::<u8>::empty());
    if after_extra.len() < 8 {
        let aux = choose|aux: M| #[trigger] cloned(ivf, aux) && IvfIndexState::<M, S>::read_kinds(
            header,
            ivf,
            extra,
            aux,
            parsers,
            ok,
        );
        let names = law_kinds_of_a_read_state(header, ivf, extra, aux, parsers, state);
    } else {
        let (aux_bytes, _rest) = unframed(after_extra)->0;
        let (a, aux_result) = choose|a: &[u8], aux: Result<M, Error>|
            a@ == aux_bytes && #[trigger] call_ensures(decode_aux_ivf, (a,), aux) && match aux {
                Err(e) => ok == Err::<IvfIndexState<M, S>, Error>(e),
                Ok(aux) => IvfIndexState::<M, S>::read_kinds(header, ivf, extra, aux, parsers, ok),
            };
        let aux = aux_result->Ok_0;
        let names = law_kinds_of_a_read_state(header, ivf, extra, aux, parsers, state);
        assert(call_ensures(decode_aux_ivf, (a,), Ok::<M, Error>(state.aux_ivf)));
    }
    (header, h, i)
}

/// What stored bytes hold are the frames at their start: of the header, of the model of the index
/// file, of the extra data, and, where eight bytes or more are left, of the model of the auxiliary
/// file.
pub proof fn law_parts_are_frames(bytes: Seq<u8>) -> (rest: Seq<u8>)
    requires
        parts_of(bytes) is Some,
    ensures
        ({
            let parts = parts_of(bytes)->0;
            let extra = match parts.extra {
                Some(extra) => extra,
                None => Seq::<u8>::empty(),
            };
            &&& parts.extra matches Some(data) ==> data.len() > 0
            &&& parts.aux_ivf matches Some(aux) ==> bytes == wire(
                parts.header,
                parts.ivf,
                extra,
                aux,
            ) + rest
            &&& parts.aux_ivf is None ==> rest.len() < 8 && bytes == framed(parts.header) + framed(
                parts.ivf,
            ) + framed(extra) + rest
        }),
{
    let (header, after_header) = unframed(bytes)->0;
    let (ivf, after_ivf) = unframed(after_header)->0;
    let (extra, after_extra) = unframed(after_ivf)->0;
    law_only_frames_are_read(bytes);
    law_only_frames_are_read(after_header);
    law_only_frames_are_read(after_ivf);
    assert(extra.len() == 0 ==> extra =~= Seq::<u8>::empty());
    if after_extra.len() < 8 {
        assert(bytes =~= framed(header) + framed(ivf) + framed(extra) + after_extra);
        after_extra
    } else {
        let (aux, rest) = unframed(after_extra)->0;
        law_only_frames_are_read(after_extra);
        assert(bytes =~= wire(header, ivf, extra, aux) + rest);
        rest
    }
}

/// Bytes that end too early give no state.
pub proof fn law_short_bytes_give_no_state<M: Clone, S, P, D, E, A, B, C>(
    bytes: Seq<u8>,
    parse_header: P,
    decode_ivf: D,
    decode_aux_ivf: E,
    parsers: KindParsers<A, B, C>,
    r: Result<IvfIndexState<M, S>, Error>,
) where
    P: Fn(&[u8]) -> Result<IvfIndexStateHeader, Error>,
    D: Fn(&[u8]) -> Result<M, Error>,
    E: Fn(&[u8]) -> Result<M, Error>,
    A: Fn(&str) -> Result<DistanceType, Error>,
    B: Fn(&str) -> Result<S, Error>,
    C: Fn(&str) -> Result<QuantizationType, Error>,

    requires
        IvfIndexState::<M, S>::read(bytes, parse_header, decode_ivf, decode_aux_ivf, parsers, r),
        parts_of(bytes) is None,
    ensures
        r is Err,
        bytes.len() < 8 ==> r == Err::<IvfIndexState<M, S>, Error>(Error::UnexpectedEnd),
{
    if r is Ok {
        let read = law_read_state(bytes, parse_header, decode_ivf, decode_aux_ivf, parsers, r->Ok_0);
    }
}

/// Writing a state fails only as encoding its header or one of its models does.
pub proof fn law_states_that_are_not_written<M, S, A, B, C, H, N>(
    state: IvfIndexState<M, S>,
    names: KindNames<A, B, C>,
    encode_header: H,
    encode_ivf: N,
    e: Error,
) -> (header: IvfIndexStateHeader) where
    A: Fn(&DistanceType) -> String,
    B: Fn(&S) -> String,
    C: Fn(&QuantizationType) -> String,
    H: Fn(&IvfIndexStateHeader) -> Result<Vec<u8>, Error>,
    N: Fn(&M) -> Result<Vec<u8>, Error>,

    requires
        state.written(names, encode_header, encode_ivf, Err::<Vec<u8>, Error>(e)),
    ensures
        state.has_header(header, names),
        call_ensures(encode_header, (&header,), Err::<Vec<u8>, Error>(e)) || call_ensures(
            encode_ivf,
            (&state.ivf,),
            Err::<Vec<u8>, Error>(e),
        ) || call_ensures(encode_ivf, (&state.aux_ivf,), Err::<Vec<u8>, Error>(e)),
{
    let written = Err::<Vec<u8>, Error>(e);
    let (header, header_result) = choose|
        header: IvfIndexStateHeader,
        header_json: Result<Vec<u8>, Error>,
    |
        state.has_header(header, names) && #[trigger] call_ensures(
            encode_header,
            (&header,),
            header_json,
        ) && match header_json {
            Err(e) => written == Err::<Vec<u8>, Error>(e),
            Ok(header_json) => state.written_models(header_json@, encode_ivf, written),
        };
    if header_result is Ok {
        let json = header_result->Ok_0;
        let ivf_result = choose|ivf: Result<Vec<u8>, Error>| #[trigger]
            call_ensures(encode_ivf, (&state.ivf,), ivf) && match ivf {
                Err(e) => written == Err::<Vec<u8>, Error>(e),
                Ok(ivf) => state.written_aux(json@, ivf@, encode_ivf, written),
            };
        if ivf_result is Ok {
            let ivf = ivf_result->Ok_0;
            let aux_result = choose|aux: Result<Vec<u8>, Error>| #[trigger]
                call_ensures(encode_ivf, (&state.aux_ivf,), aux) && match aux {
                    Err(e) => written == Err::<Vec<u8>, Error>(e),
                    Ok(aux) => false,
                };
        }
    }
    header
}

/// Finding the kinds of a header fails only as finding one of them by its name does.
pub proof fn law_kinds_that_are_not_found<M, S, A, B, C>(
    header: IvfIndexStateHeader,
    ivf: M,
    extra: Seq<u8>,
    aux_ivf: M,
    parsers: KindParsers<A, B, C>,
    e: Error,
) where
    A: Fn(&str) -> Result<DistanceType, Error>,
    B: Fn(&str) -> Result<S, Error>,
    C: Fn(&str) -> Result<QuantizationType, Error>,

    requires
        IvfIndexState::<M, S>::read_kinds(
            header,
            ivf,
            extra,
            aux_ivf,
            parsers,
            Err::<IvfIndexState<M, S>, Error>(e),
        ),
    ensures
        (exists|name: &str|
            name@ == header.distance_type@ && #[trigger] call_ensures(
                parsers.distance_type,
                (name,),
                Err::<DistanceType, Error>(e),
            )) || (exists|name: &str|
            name@ == header.sub_index_type@ && #[trigger] call_ensures(
                parsers.sub_index_type,
                (name,),
                Err::<S, Error>(e),
            )) || (exists|name: &str|
            name@ == header.quantization_type@ && #[trigger] call_ensures(
                parsers.quantization_type,
                (name,),
                Err::<QuantizationType, Error>(e),
            )),
{
    let r = Err::<IvfIndexState<M, S>, Error>(e);
    let (first, kind) = choose|name: &str, kind: Result<DistanceType, Error>|
        name@ == header.distance_type@ && #[trigger] call_ensures(
            parsers.distance_type,
            (name,),
            kind,
        ) && match kind {
            Err(e) => r == Err::<IvfIndexState<M, S>, Error>(e),
            Ok(kind) => IvfIndexState::<M, S>::read_sub_index(
                header,
                ivf,
                extra,
                aux_ivf,
                parsers,
                r,
            ),
        };
    if kind is Ok {
        let (second, sub_kind) = choose|name: &str, kind: Result<S, Error>|
            name@ == header.sub_index_type@ && #[trigger] call_ensures(
                parsers.sub_index_type,
                (name,),
                kind,
            ) && match kind {
                Err(e) => r == Err::<IvfIndexState<M, S>, Error>(e),
                Ok(kind) => IvfIndexState::<M, S>::read_quantization(
                    header,
                    ivf,
                    extra,
                    aux_ivf,
                    parsers,
                    r,
                ),
            };
        if sub_kind is Ok {
            let (third, last_kind) = choose|name: &str, kind: Result<QuantizationType, Error>|
                name@ == header.quantization_type@ && #[trigger] call_ensures(
                    parsers.quantization_type,
                    (name,),
                    kind,
                ) && match kind {
                    Err(e) => r == Err::<IvfIndexState<M, S>, Error>(e),
                    Ok(kind) => false,
                };
            assert(call_ensures(
                parsers.quantization_type,
                (third,),
                Err::<QuantizationType, Error>(e),
            ));
        } else {
            assert(call_ensures(parsers.sub_index_type, (second,), Err::<S, Error>(e)));
        }
    } else {
        assert(call_ensures(parsers.distance_type, (first,), Err::<DistanceType, Error>(e)));
    }
}

/// Bytes that hold all parts are read, but for what fails on one of them: reading the header, decoding
/// a model, or finding a kind of a header that was read.
pub proof fn law_states_that_are_not_read<M: Clone, S, P, D, E, A, B, C>(
    bytes: Seq<u8>,
    parse_header: P,
    decode_ivf: D,
    decode_aux_ivf: E,
    parsers: KindParsers<A, B, C>,
    e: Error,
) where
    P: Fn(&[u8]) -> Result<IvfIndexStateHeader, Error>,
    D: Fn(&[u8]) -> Result<M, Error>,
    E: Fn(&[u8]) -> Result<M, Error>,
    A: Fn(&str) -> Result<DistanceType, Error>,
    B: Fn(&str) -> Result<S, Error>,
    C: Fn(&str) -> Result<QuantizationType, Error>,

    requires
        parts_of(bytes) is Some,
        IvfIndexState::<M, S>::read(
            bytes,
            parse_header,
            decode_ivf,
            decode_aux_ivf,
            parsers,
            Err::<IvfIndexState<M, S>, Error>(e),
        ),
    ensures
        (exists|h: &[u8]|
            h@ == parts_of(bytes)->0.header && #[trigger] call_ensures(
                parse_header,
                (h,),
                Err::<IvfIndexStateHeader, Error>(e),
            )) || (exists|i: &[u8]|
            i@ == parts_of(bytes)->0.ivf && #[trigger] call_ensures(
                decode_ivf,
                (i,),
                Err::<M, Error>(e),
            )) || (exists|a: &[u8]|
            parts_of(bytes)->0.aux_ivf == Some(a@) && #[trigger] call_ensures(
                decode_aux_ivf,
                (a,),
                Err::<M, Error>(e),
            )) || (exists|name: &str| #[trigger]
            call_ensures(parsers.distance_type, (name,), Err::<DistanceType, Error>(e))) || (exists|
            name: &str,
        | #[trigger]
            call_ensures(parsers.sub_index_type, (name,), Err::<S, Error>(e))) || (exists|
            name: &str,
        | #[trigger]
            call_ensures(parsers.quantization_type, (name,), Err::<QuantizationType, Error>(e))),
{
    let r = Err::<IvfIndexState<M, S>, Error>(e);
    let (header_bytes, after_header) = unframed(bytes)->0;
    let (h, header_result) = choose|h: &[u8], header: Result<IvfIndexStateHeader, Error>|
        h@ == header_bytes && #[trigger] call_ensures(parse_header, (h,), header) && match header {
            Err(e) => r == Err::<IvfIndexState<M, S>, Error>(e),
            Ok(header) => IvfIndexState::<M, S>::read_models(
                after_header,
                header,
                decode_ivf,
                decode_aux_ivf,
                parsers,
                r,
            ),
        };
    if header_result is Err {
        assert(call_ensures(parse_header, (h,), Err::<IvfIndexStateHeader, Error>(e)));
    } else {
        let header = header_result->Ok_0;
        let (ivf_bytes, after_ivf) = unframed(after_header)->0;
        let (i, ivf_result) = choose|i: &[u8], ivf: Result<M, Error>|
            i@ == ivf_bytes && #[trigger] call_ensures(decode_ivf, (i,), ivf) && match ivf {
                Err(e) => r == Err::<IvfIndexState<M, S>, Error>(e),
                Ok(ivf) => IvfIndexState::<M, S>::read_extra(
                    after_ivf,
                    header,
                    ivf,
                    decode_aux_ivf,
                    parsers,
                    r,
                ),
            };
        if ivf_result is Err {
            assert(call_ensures(decode_ivf, (i,), Err::<M, Error>(e)));
        } else {
            let ivf = ivf_result->Ok_0;
            let (extra, after_extra) = unframed(after_ivf)->0;
            if after_extra.len() < 8 {
                let aux = choose|aux: M| #[trigger]
                    cloned(ivf, aux) && IvfIndexState::<M, S>::read_kinds(
                        header,
                        ivf,
                        extra,
                        aux,
                        parsers,
                        r,
                    );
                law_kinds_that_are_not_found::<M, S, A, B, C>(
                    header,
                    ivf,
                    extra,
                    aux,
                    parsers,
                    e,
                );
            } else {
                let (aux_bytes, _rest) = unframed(after_extra)->0;
                let (a, aux_result) = choose|a: &[u8], aux: Result<M, Error>|
                    a@ == aux_bytes && #[trigger] call_ensures(decode_aux_ivf, (a,), aux)
                        && match aux {
                        Err(e) => r == Err::<IvfIndexState<M, S>, Error>(e),
                        Ok(aux) => IvfIndexState::<M, S>::read_kinds(
                            header,
                            ivf,
                            extra,
                            aux,
                            parsers,
                            r,
                        ),
                    };
                if aux_result is Err {
                    assert(call_ensures(decode_aux_ivf, (a,), Err::<M, Error>(e)));
                } else {
                    law_kinds_that_are_not_found::<M, S, A, B, C>(
                        header,
                        ivf,
                        extra,
                        aux_result->Ok_0,
                        parsers,
                        e,
                    );
                }
            }
        }
    }
}

} // verus!
