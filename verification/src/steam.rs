//! The addresses at which Steam answers questions about Workshop items.

use crate::number::{decimal, write_decimal};
use crate::workshop::timestamps::names;
use vstd::prelude::*;
use vstd::string::*;

verus! {

broadcast use vstd::string::group_string_axioms;

/// The parameter that names the item `id` at the place `position` of a question about
/// several items.
pub open spec fn id_parameter(position: nat, id: Seq<char>) -> Seq<char> {
    "&publishedfileids%5B"@ + decimal(position) + "%5D="@ + id
}

/// The parameters that name the items `ids`, each at its place in `ids`.
pub open spec fn id_parameters(ids: Seq<Seq<char>>) -> Seq<char>
    decreases ids.len(),
{
    if ids.len() == 0 {
        Seq::empty()
    } else {
        id_parameters(ids.drop_last()) + id_parameter((ids.len() - 1) as nat, ids.last())
    }
}

/// The address that asks Steam, with the Web API key `key`, for the details of the
/// items `ids`.
pub open spec fn details_address(key: Seq<char>, ids: Seq<Seq<char>>) -> Seq<char> {
    "https://api.steampowered.com/IPublishedFileService/GetDetails/v1/?key="@ + key
        + id_parameters(ids)
        + "&short_description=true&includeforsaledata=false&includemetadata=false&appid=108600&strip_description_bbcode=true"@
}

/// The address of the page that lists the changes of the item `id`.
pub open spec fn changelog_address(id: Seq<char>) -> Seq<char> {
    "https://steamcommunity.com/sharedfiles/filedetails/changelog/"@ + id
}

/// The address of the page of the item `id`.
pub open spec fn item_address(id: Seq<char>) -> Seq<char> {
    "https://steamcommunity.com/sharedfiles/filedetails/?id="@ + id
}

/// The address that asks Steam, with the Web API key `key`, for the details of the
/// items `ids`.
pub fn details_url(key: &str, ids: &Vec<String>) -> (url: String)
    ensures
        url@ == details_address(key@, names(ids@)),
{
    let mut url = String::new();
    url.append("https://api.steampowered.com/IPublishedFileService/GetDetails/v1/?key=");
    url.append(key);
    let ghost head = url@;
    let ghost all = names(ids@);
    let mut i: usize = 0;
    while i < ids.len()
        invariant
            i <= ids.len(),
            all == names(ids@),
            url@ == head + id_parameters(all.take(i as int)),
        decreases ids.len() - i,
    {
        url.append("&publishedfileids%5B");
        write_decimal(i as u64, &mut url);
        url.append("%5D=");
        url.append(ids[i].as_str());
        assert(all.take(i + 1).drop_last() =~= all.take(i as int));
        i = i + 1;
    }
    assert(all.take(i as int) =~= all);
    url.append(
        "&short_description=true&includeforsaledata=false&includemetadata=false&appid=108600&strip_description_bbcode=true",
    );
    url
}

/// The address of the page that lists the changes of the item `id`.
pub fn changelog_url(id: &str) -> (url: String)
    ensures
        url@ == changelog_address(id@),
{
    let mut url = String::new();
    url.append("https://steamcommunity.com/sharedfiles/filedetails/changelog/");
    url.append(id);
    url
}

/// The address of the page of the item `id`.
pub fn item_url(id: &str) -> (url: String)
    ensures
        url@ == item_address(id@),
{
    let mut url = String::new();
    url.append("https://steamcommunity.com/sharedfiles/filedetails/?id=");
    url.append(id);
    url
}

} // verus!
