use crate::formats::obj::{Mesh, Scene};
use vstd::prelude::*;

verus! {

/// The static identity of a parsed asset's type. The cache compares this tag
/// before handing an asset back, so a caller can never receive a value of a
/// type other than the one its format declares.
#[derive(Clone, Copy, PartialEq, Eq, Structural, Debug)]
pub enum AssetTag {
    Bytes,
    Text,
    Mesh,
    Scene,
    Image,
}

/// Type-erased storage for a cached asset: a tagged union of every asset type
/// the crate's formats produce, carrying its type identity in the variant.
/// Retrieval checks the tag and only then yields the typed value, so no blind
/// reinterpretation of storage ever happens.
#[derive(Debug)]
pub enum AssetValue {
    Bytes(Vec<u8>),
    Text(String),
    Mesh(Mesh),
    Scene(Scene),
    Image(image::DynamicImage),
}

impl AssetValue {
    /// The recorded type identity of this asset.
    pub open spec fn tag_spec(&self) -> AssetTag {
        match self {
            AssetValue::Bytes(_) => AssetTag::Bytes,
            AssetValue::Text(_) => AssetTag::Text,
            AssetValue::Mesh(_) => AssetTag::Mesh,
            AssetValue::Scene(_) => AssetTag::Scene,
            AssetValue::Image(_) => AssetTag::Image,
        }
    }

    pub fn tag(&self) -> (t: AssetTag)
        ensures
            t == self.tag_spec(),
    {
        match self {
            AssetValue::Bytes(_) => AssetTag::Bytes,
            AssetValue::Text(_) => AssetTag::Text,
            AssetValue::Mesh(_) => AssetTag::Mesh,
            AssetValue::Scene(_) => AssetTag::Scene,
            AssetValue::Image(_) => AssetTag::Image,
        }
    }
}

} // verus!
