use crate::asset::{AssetTag, AssetValue};
use crate::error::{Error, Status};
use crate::formats::Format;
use vstd::prelude::*;
use vstd::string::{StringExecFns, StringSliceAdditionalSpecFns};
use vstd::utf8::{decode_utf8, valid_utf8};

verus! {

/// Relies on core::str::from_utf8: yields the decoded string exactly when the
/// bytes are valid UTF-8, and fails otherwise.
pub assume_specification<'a>[ core::str::from_utf8 ](v: &'a [u8]) -> (r: Result<
    &'a str,
    core::str::Utf8Error,
>)
    ensures
        r is Ok <==> valid_utf8(v@),
        r matches Ok(s) ==> s@ == decode_utf8(v@) && s.spec_bytes() == v@,
;

#[verifier::external_type_specification]
#[verifier::external_body]
pub struct ExUtf8Error(core::str::Utf8Error);

/// The raw-bytes format: hands a source's bytes back unchanged.
pub struct Bin;

impl Format for Bin {
    type Output = Vec<u8>;

    open spec fn tag_spec() -> AssetTag {
        AssetTag::Bytes
    }

    open spec fn id_spec() -> u64 {
        1
    }

    fn tag() -> (t: AssetTag)
        ensures
            t == Self::tag_spec(),
    {
        AssetTag::Bytes
    }

    fn format_id() -> (r: u64)
        ensures
            r == Self::id_spec(),
    {
        1
    }

    open spec fn label_spec() -> Seq<char> {
        "Bin"@
    }

    fn label() -> (r: String)
        ensures
            r@ == Self::label_spec(),
    {
        String::from_str("Bin")
    }

    /// Always succeeds, with exactly the source's bytes.
    fn parse(&self, src: &Vec<u8>) -> (r: Result<Self::Output, Error>)
        ensures
            r matches Ok(b) && b@ == src@,
    {
        let mut out: Vec<u8> = Vec::new();
        let mut i: usize = 0;
        while i < src.len()
            invariant
                i <= src.len(),
                out@ == src@.take(i as int),
            decreases src.len() - i,
        {
            out.push(src[i]);
            i = i + 1;
            proof {
                assert(src@.take(i as int) =~= src@.take(i as int - 1).push(src@[i as int - 1]));
            }
        }
        proof {
            assert(src@.take(src@.len() as int) =~= src@);
        }
        Ok(out)
    }

    fn into_asset(out: Self::Output) -> (a: AssetValue)
        ensures
            a.tag_spec() == Self::tag_spec(),
    {
        AssetValue::Bytes(out)
    }

    fn read_asset(a: &AssetValue) -> (r: Option<&Self::Output>)
        ensures
            r is Some <==> a.tag_spec() == Self::tag_spec(),
    {
        match a {
            AssetValue::Bytes(b) => Some(b),
            _ => None,
        }
    }
}

/// The text format: decodes a source's bytes as UTF-8.
pub struct Txt;

impl Format for Txt {
    type Output = String;

    open spec fn tag_spec() -> AssetTag {
        AssetTag::Text
    }

    open spec fn id_spec() -> u64 {
        2
    }

    fn tag() -> (t: AssetTag)
        ensures
            t == Self::tag_spec(),
    {
        AssetTag::Text
    }

    fn format_id() -> (r: u64)
        ensures
            r == Self::id_spec(),
    {
        2
    }

    open spec fn label_spec() -> Seq<char> {
        "Txt"@
    }

    fn label() -> (r: String)
        ensures
            r@ == Self::label_spec(),
    {
        String::from_str("Txt")
    }

    /// Succeeds exactly when the bytes are valid UTF-8, with their decoding.
    fn parse(&self, src: &Vec<u8>) -> (r: Result<Self::Output, Error>)
        ensures
            r is Ok <==> valid_utf8(src@),
            r matches Ok(s) ==> s@ == decode_utf8(src@),
    {
        match core::str::from_utf8(src.as_slice()) {
            Ok(s) => Ok(String::from_str(s)),
            Err(_) => Err(Error::text(Status::InvalidArgument, "text asset is not valid UTF-8")),
        }
    }

    fn into_asset(out: Self::Output) -> (a: AssetValue)
        ensures
            a.tag_spec() == Self::tag_spec(),
    {
        AssetValue::Text(out)
    }

    fn read_asset(a: &AssetValue) -> (r: Option<&Self::Output>)
        ensures
            r is Some <==> a.tag_spec() == Self::tag_spec(),
    {
        match a {
            AssetValue::Text(s) => Some(s),
            _ => None,
        }
    }
}

} // verus!
