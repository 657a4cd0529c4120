//! URL validation: an optional link must be an absolute URL with an `http`
//! or `https` scheme.

use vstd::prelude::*;

verus! {

use crate::error::AppError;

/// The scheme that `url::Url::parse` extracts from `s`: `None` when `s` is
/// not a parsable absolute URL, else the scheme part. Parsing is
/// deterministic, so this is a function of the characters of `s` alone.
pub uninterp spec fn url_scheme_of(s: Seq<char>) -> Option<Seq<char>>;

/// Relies on url::Url::parse (deterministic in its input; Err exactly when
/// the string is not an absolute URL) and url::Url::scheme (the scheme part
/// of a parsed URL).
#[verifier::external_body]
pub(crate) fn parse_url_scheme(s: &str) -> (r: Option<String>)
    ensures
        match r {
            Some(sch) => url_scheme_of(s@) == Some(sch@),
            None => url_scheme_of(s@) is None,
        },
{
    match url::Url::parse(s) {
        Ok(u) => Some(u.scheme().to_owned()),
        Err(_) => None,
    }
}

/// The view of an optional string.
pub open spec fn opt_view(o: Option<String>) -> Option<Seq<char>> {
    match o {
        Some(s) => Some(s@),
        None => None,
    }
}

/// An absent URL passes; a present one must parse and carry scheme `http` or
/// `https`.
pub open spec fn spec_http_url_ok(opt: Option<Seq<char>>) -> bool {
    match opt {
        None => true,
        Some(u) => match url_scheme_of(u) {
            Some(sch) => sch == "http"@ || sch == "https"@,
            None => false,
        },
    }
}

pub fn validate_http_url(opt: &Option<String>) -> (r: Result<(), AppError>)
    ensures
        r is Ok <==> spec_http_url_ok(opt_view(*opt)),
        r matches Err(e) ==> e is Validation,
        (opt matches Some(u) && url_scheme_of(u@) is None)
            ==> (r matches Err(e) && e matches AppError::Validation(m) && m@ == "invalid_url"@),
        (opt matches Some(u) && url_scheme_of(u@) is Some && !spec_http_url_ok(opt_view(*opt)))
            ==> (r matches Err(e) && e matches AppError::Validation(m) && m@
            == "unsupported_scheme"@),
{
    match opt {
        None => Ok(()),
        Some(u) => {
            match parse_url_scheme(u.as_str()) {
                None => Err(AppError::validation("invalid_url".to_owned())),
                Some(sch) => {
                    let http: String = "http".to_owned();
                    let https: String = "https".to_owned();
                    if sch == http || sch == https {
                        Ok(())
                    } else {
                        Err(AppError::validation("unsupported_scheme".to_owned()))
                    }
                },
            }
        },
    }
}

} // verus!
