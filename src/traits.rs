//! The interface of anything that resolves models into locations.
use vstd::prelude::*;

verus! {

/// Resolves a model into the location of the file it names.
pub trait Retriever {
    type AssetModelType;

    type ErrorType;

    fn get(&self, asset_model: &Self::AssetModelType) -> Result<String, Self::ErrorType>;
}

} // verus!
