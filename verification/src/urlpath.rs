use vstd::prelude::*;

verus! {

/// The path component (`url::Url::path`) of the absolute URL that
/// `url::Url::parse` reads from `input`; `None` where `Url::parse` refuses
/// `input`. What the url crate computes here (WHATWG URL parsing and
/// percent-encoding) is not spelled out.
pub uninterp spec fn parsed_url_path(input: Seq<char>) -> Option<Seq<char>>;

/// Parses `input` with `url::Url::parse` and hands back the parsed URL's
/// path, `Url::path`, as an owned string, or `None` where the parse fails.
/// Trusted: the contract claims only that the outcome depends on `input`
/// alone, as `parsed_url_path` names it; which inputs parse and what their
/// paths are is left to the url crate.
#[verifier::external_body]
pub(crate) fn get_path(input: &str) -> (path: Option<String>)
    ensures
        match path {
            Some(p) => parsed_url_path(input@) == Some(p@),
            None => parsed_url_path(input@) is None,
        },
{
    match url::Url::parse(input) {
        Ok(parsed) => Some(String::from(parsed.path())),
        Err(_) => None,
    }
}

} // verus!
