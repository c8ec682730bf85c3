pub mod img;
pub mod misc;
pub mod obj;

use crate::asset::{AssetTag, AssetValue};
use crate::error::Error;
use vstd::prelude::*;

verus! {

/// Marker for the types this crate's formats produce and the cache stores.
pub trait Asset {
}

impl Asset for Vec<u8> {

}

impl Asset for String {

}

impl Asset for obj::Mesh {

}

impl Asset for obj::Scene {

}

impl Asset for image::DynamicImage {

}

/// The format contract: a capability that parses a block of bytes into one
/// statically-fixed output type.
///
/// `tag` names the output type's identity; `format_id` names the format
/// type's own identity and feeds the cache key, so two format types are
/// cached apart even when their outputs coincide. Two instances of the same
/// format type that differ only in configuration share one identity: the
/// cache key deliberately ignores per-instance configuration.
///
/// A format type's identity is a hand-assigned constant, where a language
/// runtime would use an intrinsic type id: every format implementation must
/// pick an identity distinct from the others it is used alongside. Should two
/// format types nevertheless share an identity, the tag check on retrieval
/// still prevents a mistyped result; only the separation of their cache
/// entries is lost.
pub trait Format {
    type Output;

    /// The output type's identity.
    spec fn tag_spec() -> AssetTag;

    /// The format type's identity, folded into the cache key.
    spec fn id_spec() -> u64;

    /// The format's name, as it appears in error context.
    open spec fn label_spec() -> Seq<char> {
        Seq::<char>::empty()
    }

    fn tag() -> (t: AssetTag)
        ensures
            t == Self::tag_spec(),
    ;

    fn format_id() -> (r: u64)
        ensures
            r == Self::id_spec(),
    ;

    /// The format's name, for error context.
    fn label() -> (r: String)
        ensures
            r@ == Self::label_spec(),
    ;

    /// Parses the bytes of an opened source into the output type.
    fn parse(&self, src: &Vec<u8>) -> (r: Result<Self::Output, Error>);

    /// Boxes an output as a type-erased asset carrying this format's tag.
    fn into_asset(out: Self::Output) -> (a: AssetValue)
        ensures
            a.tag_spec() == Self::tag_spec(),
    ;

    /// Recovers the typed output from an erased asset: yields the value
    /// exactly when the asset's recorded tag is this format's tag.
    fn read_asset(a: &AssetValue) -> (r: Option<&Self::Output>)
        ensures
            r is Some <==> a.tag_spec() == Self::tag_spec(),
    ;
}

} // verus!
