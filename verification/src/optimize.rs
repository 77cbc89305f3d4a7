//! Options for optimizing indices.
use std::collections::HashMap;
use std::sync::Arc;

use vstd::prelude::*;

verus! {

/// Options for optimizing all indices.
#[non_exhaustive]
#[derive(Debug, Clone)]
pub struct OptimizeOptions {
    /// Number of existing index segments to merge for one column. Default: 1.
    ///
    /// Without a number, optimizing may either append a new segment or merge all existing ones,
    /// depending on whether a partition has to be split. With a number, that many of the latest
    /// segments are merged into one, together with newly built data. It is up to the caller to
    /// decide how many segments to merge or to keep.
    pub num_indices_to_merge: Option<usize>,
    /// The names of the indices to optimize; all where none are given.
    pub index_names: Option<Vec<String>>,
    /// Whether to retrain the whole index. Default: false.
    ///
    /// If true, the index is retrained on the current data, `num_indices_to_merge` is ignored, and
    /// all indices are merged into one. This helps where the data has changed a lot.
    pub retrain: bool,
    /// Transaction properties to store with the commit, to tell later where it came from.
    pub transaction_properties: Option<Arc<HashMap<String, String>>>,
}

impl Default for OptimizeOptions {
    fn default() -> (r: Self)
        ensures
            r.num_indices_to_merge == Some(1usize),
            r.index_names is None,
            !r.retrain,
            r.transaction_properties is None,
    {
        OptimizeOptions {
            num_indices_to_merge: Some(1),
            index_names: None,
            retrain: false,
            transaction_properties: None,
        }
    }
}

impl OptimizeOptions {
    /// The default options.
    pub fn new() -> (r: Self)
        ensures
            r.num_indices_to_merge == Some(1usize),
            r.index_names is None,
            !r.retrain,
            r.transaction_properties is None,
    {
        Self::default()
    }

    /// Options to merge that many of the latest segments.
    pub fn merge(num: usize) -> (r: Self)
        ensures
            r.num_indices_to_merge == Some(num),
            r.index_names is None,
            !r.retrain,
            r.transaction_properties is None,
    {
        OptimizeOptions {
            num_indices_to_merge: Some(num),
            index_names: None,
            retrain: false,
            transaction_properties: None,
        }
    }

    /// Options to append a segment and to merge none.
    pub fn append() -> (r: Self)
        ensures
            r.num_indices_to_merge == Some(0usize),
            r.index_names is None,
            !r.retrain,
            r.transaction_properties is None,
    {
        Self::merge(0)
    }

    /// Options to retrain the whole index.
    pub fn retrain() -> (r: Self)
        ensures
            r.num_indices_to_merge is None,
            r.index_names is None,
            r.retrain,
            r.transaction_properties is None,
    {
        OptimizeOptions {
            num_indices_to_merge: None,
            index_names: None,
            retrain: true,
            transaction_properties: None,
        }
    }

    /// The same options with another number of segments to merge.
    pub fn num_indices_to_merge(self, num: Option<usize>) -> (r: Self)
        ensures
            r == (OptimizeOptions { num_indices_to_merge: num, ..self }),
    {
        let mut options = self;
        options.num_indices_to_merge = num;
        options
    }

    /// The same options for the indices of those names.
    pub fn index_names(self, names: Vec<String>) -> (r: Self)
        ensures
            r == (OptimizeOptions { index_names: Some(names), ..self }),
    {
        let mut options = self;
        options.index_names = Some(names);
        options
    }

    /// The same options with transaction properties to store in the commit.
    pub fn transaction_properties(self, properties: HashMap<String, String>) -> (r: Self)
        ensures
            r == (OptimizeOptions {
                transaction_properties: Some(Arc::new(properties)),
                ..self
            }),
    {
        let mut options = self;
        options.transaction_properties = Some(Arc::new(properties));
        options
    }
}

} // verus!
