//! The endpoints of the Fontsource REST API.

use vstd::prelude::*;

verus! {

/// The base URL of the Fontsource API.
pub const FONTSOURCE_API: &'static str = "https://api.fontsource.org/";

/// The URL of the list of font families, relative to the API's base URL.
pub open spec fn font_list_url_of(api: Seq<char>) -> Seq<char> {
    api + "fontlist?family"@
}

/// The URL of a family's metadata, relative to the API's base URL.
pub open spec fn family_metadata_url_of(api: Seq<char>, family_id: Seq<char>) -> Seq<char> {
    api + "v1/fonts/"@ + family_id
}

/// The URL of the list of font families (a map from family ID to display
/// name).
pub fn font_list_url(api: &str) -> (r: String)
    ensures
        r@ == font_list_url_of(api@),
{
    let mut r = api.to_owned();
    r.append("fontlist?family");
    r
}

/// The URL of the metadata of the family with the given ID.
pub fn family_metadata_url(api: &str, family_id: &str) -> (r: String)
    ensures
        r@ == family_metadata_url_of(api@, family_id@),
{
    let mut r = api.to_owned();
    r.append("v1/fonts/");
    r.append(family_id);
    r
}

} // verus!
