//! Identifying a dataset so that it can be opened elsewhere.
use vstd::prelude::*;

use crate::bytes::copy_bytes;
use crate::error::Error;
use crate::string_map::StringMap;
use crate::text::copy_text;

verus! {

/// What identifies a dataset.
#[derive(Debug)]
pub struct TableIdentifier {
    pub uri: String,
    pub version: u64,
    pub manifest_etag: Option<String>,
    /// The manifest, if it is carried along.
    pub serialized_manifest: Option<Vec<u8>>,
    pub storage_options: StringMap,
}

/// What has to be known of a dataset to identify it.
#[derive(Debug)]
pub struct DatasetLocation {
    pub uri: String,
    pub version: u64,
    pub e_tag: Option<String>,
}

/// The identifier names the dataset, with that manifest and those options (none given: no options).
pub open spec fn identifies(
    id: TableIdentifier,
    dataset: DatasetLocation,
    manifest: Option<Seq<u8>>,
    options: Option<StringMap>,
) -> bool {
    &&& id.uri@ == dataset.uri@
    &&& id.version == dataset.version
    &&& id.manifest_etag == dataset.e_tag
    &&& match (id.serialized_manifest, manifest) {
        (Some(a), Some(b)) => a@ == b,
        (None, None) => true,
        _ => false,
    }
    &&& id.storage_options@ == match options {
        Some(options) => options@,
        None => Map::<Seq<char>, Seq<char>>::empty(),
    }
}

/// Builds an identifier.
fn build(
    dataset: &DatasetLocation,
    serialized_manifest: Option<Vec<u8>>,
    latest_storage_options: Result<Option<StringMap>, Error>,
) -> (r: Result<TableIdentifier, Error>)
    ensures
        match latest_storage_options {
            Err(e) => r == Err::<TableIdentifier, Error>(e),
            Ok(options) => r matches Ok(id) && identifies(
                id,
                *dataset,
                match serialized_manifest {
                    Some(m) => Some(m@),
                    None => None,
                },
                options,
            ),
        },
{
    match latest_storage_options {
        Err(e) => Err(e),
        Ok(options) => {
            let storage_options = match options {
                Some(options) => options,
                None => StringMap::new(),
            };
            Ok(
                TableIdentifier {
                    uri: dataset.uri.clone(),
                    version: dataset.version,
                    manifest_etag: copy_text(&dataset.e_tag),
                    serialized_manifest,
                    storage_options,
                },
            )
        },
    }
}

/// Builds an identifier from a dataset and its latest storage options, without its manifest.
///
/// The storage options let whoever opens the dataset reach its storage.
pub fn table_identifier_from_dataset(
    dataset: &DatasetLocation,
    latest_storage_options: Result<Option<StringMap>, Error>,
) -> (r: Result<TableIdentifier, Error>)
    ensures
        match latest_storage_options {
            Err(e) => r == Err::<TableIdentifier, Error>(e),
            Ok(options) => r matches Ok(id) && identifies(id, *dataset, None, options),
        },
{
    build(dataset, None, latest_storage_options)
}

/// Builds an identifier that carries the manifest, which then need not be read from storage.
pub fn table_identifier_from_dataset_with_manifest(
    dataset: &DatasetLocation,
    serialized_manifest: Vec<u8>,
    latest_storage_options: Result<Option<StringMap>, Error>,
) -> (r: Result<TableIdentifier, Error>)
    ensures
        match latest_storage_options {
            Err(e) => r == Err::<TableIdentifier, Error>(e),
            Ok(options) => r matches Ok(id) && identifies(
                id,
                *dataset,
                Some(serialized_manifest@),
                options,
            ),
        },
{
    build(dataset, Some(serialized_manifest), latest_storage_options)
}

/// How a dataset is opened.
#[derive(Debug)]
pub struct OpenPlan {
    pub uri: String,
    pub version: u64,
    /// The manifest to use in place of the stored one.
    pub serialized_manifest: Option<Vec<u8>>,
    /// The storage options to set, where there are any.
    pub storage_options: Option<StringMap>,
}

/// The plan opens the dataset of the identifier.
pub open spec fn opens(plan: OpenPlan, id: TableIdentifier) -> bool {
    &&& plan.uri@ == id.uri@
    &&& plan.version == id.version
    &&& match (plan.serialized_manifest, id.serialized_manifest) {
        (Some(a), Some(b)) => a@ == b@,
        (None, None) => true,
        _ => false,
    }
    &&& match plan.storage_options {
        Some(options) => id.storage_options@.dom().len() > 0 && options@ == id.storage_options@,
        None => id.storage_options@ == Map::<Seq<char>, Seq<char>>::empty(),
    }
}

/// Decides how the dataset of an identifier is opened.
pub fn open_dataset_from_table_identifier(table_id: &TableIdentifier) -> (r: OpenPlan)
    ensures
        opens(r, *table_id),
{
    let serialized_manifest = match &table_id.serialized_manifest {
        Some(bytes) => Some(copy_bytes(bytes)),
        None => None,
    };
    let count: usize = table_id.storage_options.len();
    let storage_options = if count == 0 {
        proof {
            assert(table_id.storage_options@.dom() =~= Set::<Seq<char>>::empty());
            assert(table_id.storage_options@ =~= Map::<Seq<char>, Seq<char>>::empty());
        }
        None
    } else {
        Some(table_id.storage_options.clone())
    };
    OpenPlan {
        uri: table_id.uri.clone(),
        version: table_id.version,
        serialized_manifest,
        storage_options,
    }
}

/// A dataset is opened as it was identified: at its place and version, with the manifest that was
/// carried along and under its storage options.
pub proof fn law_open_after_identify(
    dataset: DatasetLocation,
    manifest: Option<Seq<u8>>,
    options: Option<StringMap>,
    id: TableIdentifier,
    plan: OpenPlan,
)
    requires
        identifies(id, dataset, manifest, options),
        opens(plan, id),
    ensures
        plan.uri@ == dataset.uri@,
        plan.version == dataset.version,
        plan.serialized_manifest is Some <==> manifest is Some,
        plan.serialized_manifest matches Some(bytes) ==> manifest == Some(bytes@),
        plan.storage_options matches Some(o) ==> options matches Some(given) && o@ == given@,
        plan.storage_options is None ==> (options matches Some(given) ==> given@ == Map::<
            Seq<char>,
            Seq<char>,
        >::empty()),
{
}

/// An identifier carries the place, the version and the entity tag of its dataset, the manifest that
/// was given, and the storage options, none where there are none.
pub proof fn law_identifier_of_a_dataset(
    id: TableIdentifier,
    dataset: DatasetLocation,
    manifest: Option<Seq<u8>>,
    options: Option<StringMap>,
)
    requires
        identifies(id, dataset, manifest, options),
    ensures
        id.uri@ == dataset.uri@,
        id.version == dataset.version,
        id.manifest_etag is Some <==> dataset.e_tag is Some,
        id.manifest_etag is Some ==> id.manifest_etag->0@ == dataset.e_tag->0@,
        id.serialized_manifest is Some <==> manifest is Some,
        id.serialized_manifest is Some ==> id.serialized_manifest->0@ == manifest->0,
        options is Some ==> id.storage_options@ == options->0@,
        options is None ==> id.storage_options@ == Map::<Seq<char>, Seq<char>>::empty(),
{
}

/// A dataset is opened at the place and version of its identifier, with the manifest that it carries,
/// and with its storage options where there are any.
pub proof fn law_plan_to_open(plan: OpenPlan, id: TableIdentifier)
    requires
        opens(plan, id),
    ensures
        plan.uri@ == id.uri@,
        plan.version == id.version,
        plan.serialized_manifest is Some <==> id.serialized_manifest is Some,
        plan.serialized_manifest is Some ==> plan.serialized_manifest->0@
            == id.serialized_manifest->0@,
        plan.storage_options is Some ==> plan.storage_options->0@ == id.storage_options@
            && id.storage_options@ != Map::<Seq<char>, Seq<char>>::empty(),
        plan.storage_options is None ==> id.storage_options@ == Map::<Seq<char>, Seq<char>>::empty(),
{
    if plan.storage_options is Some {
        assert(Map::<Seq<char>, Seq<char>>::empty().dom().len() == 0);
    }
}

} // verus!
