//! The naming convention: how an identifier becomes a tag.

use vstd::prelude::*;
use vstd::string::StringExecFns;

verus! {

/// The lower camel case form of `identifier`: `field_url` becomes `fieldUrl`.
pub uninterp spec fn lower_camel_case(identifier: Seq<char>) -> Seq<char>;

/// `heck::ToLowerCamelCase::to_lower_camel_case` on a string slice.
#[verifier::external_body]
fn to_lower_camel_case(identifier: &str) -> (tag: String)
    ensures
        tag@ == lower_camel_case(identifier@),
{
    heck::ToLowerCamelCase::to_lower_camel_case(identifier)
}

/// The mathematical value of an optional string slice.
pub open spec fn opt_str(text: Option<&str>) -> Option<Seq<char>> {
    match text {
        Some(s) => Some(s@),
        None => None,
    }
}

/// The tag of the identifier `identifier`: the declared `rename` where
/// there is one, verbatim; else the identifier in lower camel case.
pub open spec fn tag_for(identifier: Seq<char>, rename: Option<Seq<char>>) -> Seq<char> {
    match rename {
        Some(tag) => tag,
        None => lower_camel_case(identifier),
    }
}

/// The tag under which the field or type `identifier` is written and read.
pub fn tag_name(identifier: &str, rename: Option<&str>) -> (tag: String)
    ensures
        tag@ == tag_for(identifier@, opt_str(rename)),
{
    match rename {
        Some(tag) => String::from_str(tag),
        None => to_lower_camel_case(identifier),
    }
}

} // verus!
