//! The URLs of the catalog's search pages.

use vstd::prelude::*;
use vstd::string::StringExecFns;

verus! {

/// What `application/x-www-form-urlencoded` serialisation makes of one name
/// or value: a function of the text alone.
pub uninterp spec fn form_encoded(text: Seq<char>) -> Seq<char>;

/// A query that grew by the pair `name`, `value`: an `&` if the query held
/// anything, then the encoded name, `=`, and the encoded value.
pub open spec fn with_pair(query: Seq<char>, name: Seq<char>, value: Seq<char>) -> Seq<char> {
    query + pair_separator(query) + form_encoded(name) + "="@ + form_encoded(value)
}

/// What stands between `query` and a pair appended to it.
pub open spec fn pair_separator(query: Seq<char>) -> Seq<char> {
    if query.len() > 0 {
        "&"@
    } else {
        Seq::empty()
    }
}

/// `append_pair` of `url::form_urlencoded::Serializer`, on a serializer made
/// for `query`. The pair is appended to what `query` held: after an `&` if
/// it held anything, the serialised name, `=`, and the serialised value.
#[verifier::external_body]
fn append_pair(query: &mut String, name: &str, value: &str)
    ensures
        final(query)@ == old(query)@ + pair_separator(old(query)@) + form_encoded(name@) + "="@
            + form_encoded(value@),
{
    url::form_urlencoded::Serializer::new(query).append_pair(name, value);
}

/// The query of the search page for `keyword`; the Japanese page says so in
/// a third pair.
pub open spec fn search_query(keyword: Seq<char>, japanese: bool) -> Seq<char> {
    let common = with_pair(
        with_pair(Seq::<char>::empty(), "keyword"@, keyword),
        "item-type"@,
        "all"@,
    );
    if japanese {
        with_pair(common, "lang"@, "ja"@)
    } else {
        common
    }
}

/// The location of a page: its base, a question mark, and its query.
pub open spec fn page_location(base_url: Seq<char>, query: Seq<char>) -> Seq<char> {
    base_url + "?"@ + query
}

/// Puts a base and a query that is already serialised together.
pub fn page_url(base_url: &str, query: &str) -> (url: String)
    ensures
        url@ == page_location(base_url@, query@),
{
    let mut url = String::from_str(base_url);
    url.append("?");
    url.append(query);
    url
}

/// The URL of the search page for `keyword` below `base_url`.
pub fn search_url(base_url: &str, keyword: &str, japanese: bool) -> (url: String)
    ensures
        url@ == page_location(base_url@, search_query(keyword@, japanese)),
{
    let mut query = String::new();
    append_pair(&mut query, "keyword", keyword);
    append_pair(&mut query, "item-type", "all");
    if japanese {
        append_pair(&mut query, "lang", "ja");
    }
    page_url(base_url, query.as_str())
}

} // verus!
