//! The ways in which an operation on assets can fail.

use vstd::prelude::*;
use vstd::string::StringExecFns;

verus! {

/// Why an operation on assets failed.
#[derive(Debug, Clone, PartialEq, Eq)]
pub enum AssetError {
    /// The type asked for is not the type of the asset, or of the map.
    InvalidType,
    /// The asset is still shared, so it cannot be handed out as an owned value.
    InvalidTake,
    /// The registry has no map under this kind.
    AssetTypeNotFound(String),
    /// The map has no asset under this name.
    AssetNotFound(String),
}

/// An [`AssetError`] with its names as sequences of characters.
pub enum AssetErrorView {
    InvalidType,
    InvalidTake,
    AssetTypeNotFound(Seq<char>),
    AssetNotFound(Seq<char>),
}

impl View for AssetError {
    type V = AssetErrorView;

    open spec fn view(&self) -> AssetErrorView {
        match self {
            AssetError::InvalidType => AssetErrorView::InvalidType,
            AssetError::InvalidTake => AssetErrorView::InvalidTake,
            AssetError::AssetTypeNotFound(kind) => AssetErrorView::AssetTypeNotFound(kind@),
            AssetError::AssetNotFound(name) => AssetErrorView::AssetNotFound(name@),
        }
    }
}

impl AssetErrorView {
    /// The error in words.
    pub open spec fn message(self) -> Seq<char> {
        match self {
            AssetErrorView::InvalidType => "Could not match asset types."@,
            AssetErrorView::InvalidTake =>
                "Could not convert to owned type. This probably means there are existing references to this value!"@,
            AssetErrorView::AssetTypeNotFound(kind) => "No asset map with type name '"@ + kind + "'"@,
            AssetErrorView::AssetNotFound(name) => "No asset found with name '"@ + name,
        }
    }
}

impl AssetError {
    /// The error in words.
    pub fn message(&self) -> (text: String)
        ensures
            text@ == self@.message(),
    {
        match self {
            AssetError::InvalidType => String::from_str("Could not match asset types."),
            AssetError::InvalidTake => String::from_str(
                "Could not convert to owned type. This probably means there are existing references to this value!",
            ),
            AssetError::AssetTypeNotFound(kind) => String::from_str("No asset map with type name '").concat(
                kind.as_str(),
            ).concat("'"),
            AssetError::AssetNotFound(name) => String::from_str("No asset found with name '").concat(name.as_str()),
        }
    }
}

} // verus!
