use vstd::prelude::*;

verus! {

/// Whether the `url` crate accepts `s` as an absolute URL.
pub uninterp spec fn url_parses(s: Seq<char>) -> bool;

/// The serialization of the URL parsed from `dest` once its query is set to `query`.
pub uninterp spec fn url_with_query(dest: Seq<char>, query: Option<Seq<char>>) -> Seq<char>;

/// Destinations and queries longer than this many characters are refused: the
/// `url` crate keeps offsets into a serialization as `u32`, and percent-encoding
/// may grow each character to twelve bytes.
pub const MAX_URL_PART: usize = 100_000_000;

pub open spec fn option_view(q: Option<&str>) -> Option<Seq<char>> {
    match q {
        Some(s) => Some(s@),
        None => None,
    }
}

/// Relies on `url::Url::parse`: whether it returns `Ok` depends on the text alone.
#[verifier::external_body]
pub(crate) fn url_is_valid(s: &str) -> (r: bool)
    ensures
        r == url_parses(s@),
{
    url::Url::parse(s).is_ok()
}

/// Relies on `url::Url::parse` followed by `url::Url::set_query` and the
/// serialization of the result: what comes out depends on the two texts alone.
/// `set_query` panics only where the serialization passes `u32::MAX` bytes.
#[verifier::external_body]
pub(crate) fn url_set_query(dest: &str, query: Option<&str>) -> (r: String)
    requires
        url_parses(dest@),
        dest@.len() <= MAX_URL_PART,
        query matches Some(q) ==> q@.len() <= MAX_URL_PART,
    ensures
        r@ == url_with_query(dest@, option_view(query)),
{
    match url::Url::parse(dest) {
        Ok(mut u) => {
            u.set_query(query);
            u.into()
        },
        Err(_) => String::new(),
    }
}

} // verus!
