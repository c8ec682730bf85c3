use crate::asset::{AssetTag, AssetValue};
use crate::error::{Error, Status};
use crate::formats::Format;
use vstd::prelude::*;
use vstd::string::StringExecFns;

verus! {

#[verifier::external_type_specification]
#[verifier::external_body]
pub struct ExDynamicImage(image::DynamicImage);

/// The image container kinds the decoder accepts.
#[derive(Clone, Copy, PartialEq, Eq, Structural, Debug)]
pub enum ImgContainer {
    Png,
    Jpeg,
}

impl ImgContainer {
    pub open spec fn code_spec(&self) -> int {
        match self {
            ImgContainer::Png => 0,
            ImgContainer::Jpeg => 1,
        }
    }
}

/// Whether the given bytes decode as an image of the given container kind.
/// The outcome is a function of the bytes and the kind alone.
pub uninterp spec fn img_decodes(bytes: Seq<u8>, container: int) -> bool;

/// Relies on image::load_from_memory_with_format: decoding an in-memory
/// buffer is deterministic in the buffer and the format tag, succeeding
/// exactly when the bytes are a well-formed image of that format.
#[verifier::external_body]
fn decode_image(bytes: &Vec<u8>, container: &ImgContainer) -> (r: Result<
    image::DynamicImage,
    String,
>)
    ensures
        r is Ok <==> img_decodes(bytes@, container.code_spec()),
{
    let fmt = match container {
        ImgContainer::Png => image::ImageFormat::Png,
        ImgContainer::Jpeg => image::ImageFormat::Jpeg,
    };
    match image::load_from_memory_with_format(bytes.as_slice(), fmt) {
        Ok(img) => Ok(img),
        Err(e) => Err(e.to_string()),
    }
}

/// The image format: decodes a byte buffer through the external image
/// library, parameterized by the container kind of the buffer.
pub struct Img(pub ImgContainer);

impl Format for Img {
    type Output = image::DynamicImage;

    open spec fn tag_spec() -> AssetTag {
        AssetTag::Image
    }

    open spec fn id_spec() -> u64 {
        3
    }

    fn tag() -> (t: AssetTag)
        ensures
            t == Self::tag_spec(),
    {
        AssetTag::Image
    }

    fn format_id() -> (r: u64)
        ensures
            r == Self::id_spec(),
    {
        3
    }

    open spec fn label_spec() -> Seq<char> {
        "Img"@
    }

    fn label() -> (r: String)
        ensures
            r@ == Self::label_spec(),
    {
        String::from_str("Img")
    }

    /// Succeeds exactly when the bytes decode under this container kind.
    fn parse(&self, src: &Vec<u8>) -> (r: Result<Self::Output, Error>)
        ensures
            r is Ok <==> img_decodes(src@, self.0.code_spec()),
    {
        match decode_image(src, &self.0) {
            Ok(img) => Ok(img),
            Err(msg) => Err(Error::new(Status::InvalidArgument, msg)),
        }
    }

    fn into_asset(out: Self::Output) -> (a: AssetValue)
        ensures
            a.tag_spec() == Self::tag_spec(),
    {
        AssetValue::Image(out)
    }

    fn read_asset(a: &AssetValue) -> (r: Option<&Self::Output>)
        ensures
            r is Some <==> a.tag_spec() == Self::tag_spec(),
    {
        match a {
            AssetValue::Image(img) => Some(img),
            _ => None,
        }
    }
}

} // verus!
