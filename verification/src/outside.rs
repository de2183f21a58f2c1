//! The two calls this library makes into other crates, with what it takes on
//! trust about them. Nothing in this file is proved.

use vstd::prelude::*;

verus! {

/// `http::Uri`, carried through unread.
#[verifier::external_type_specification]
#[verifier::external_body]
pub struct ExUri(http::Uri);

/// `http::uri::InvalidUri`, the reason a text was refused, carried through unread.
#[verifier::external_type_specification]
#[verifier::external_body]
pub struct ExInvalidUri(http::uri::InvalidUri);

/// What `http::Uri`'s `FromStr` makes of `text`.
pub uninterp spec fn uri_parsed(text: Seq<char>) -> Result<http::Uri, http::uri::InvalidUri>;

/// Calls `<http::Uri as FromStr>::from_str`. The parser reads nothing but the
/// text, so what it returns is fixed by the text; the contract gives that
/// result a name and claims no more of it.
#[verifier::external_body]
pub(crate) fn parse_uri(text: &str) -> (parsed: Result<http::Uri, http::uri::InvalidUri>)
    ensures
        parsed == uri_parsed(text@),
{
    text.parse::<http::Uri>()
}

/// Calls `chrono::Utc::now` and then `DateTime::timestamp`: the wall clock in
/// whole seconds since the Unix epoch. Nothing is claimed of the reading. The
/// call panics where the system clock stands before the epoch.
#[verifier::external_body]
pub(crate) fn clock_seconds() -> (now: i64) {
    chrono::Utc::now().timestamp()
}

} // verus!
