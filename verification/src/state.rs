//! The states of the URL parser, the codes that end it, and the special schemes.

use vstd::prelude::*;
use crate::text::str_eq;

verus! {

#[derive(Copy, Clone, Debug, PartialEq, Eq, Structural)]
pub enum State {
    Authority,
    SchemeStart,
    Scheme,
    Host,
    NoScheme,
    Fragment,
    Relative,
    RelativeSlash,
    File,
    FileHost,
    FileSlash,
    PathOrAuthority,
    SpecialAuthorityIgnoreSlashes,
    SpecialAuthoritySlashes,
    SpecialRelativeOrAuthority,
    Query,
    Path,
    PathStart,
    OpaquePath,
    Port,
}

#[derive(Copy, Clone, Debug, PartialEq, Eq, Structural)]
pub enum Code {
    Failure,
    Exit,
}

/// The special schemes with their default ports: ftp 21, file (none),
/// http 80, https 443, ws 80, wss 443; `None` for any other scheme.
pub open spec fn special_scheme(s: Seq<char>) -> Option<Option<Seq<char>>> {
    if s == "ftp"@ {
        Some(Some("21"@))
    } else if s == "file"@ {
        Some(None)
    } else if s == "http"@ {
        Some(Some("80"@))
    } else if s == "https"@ {
        Some(Some("443"@))
    } else if s == "ws"@ {
        Some(Some("80"@))
    } else if s == "wss"@ {
        Some(Some("443"@))
    } else {
        None
    }
}

/// Whether `scheme` is special, and its default port.
pub fn special_scheme_port(scheme: &str) -> (r: Option<Option<String>>)
    ensures
        match r {
            None => special_scheme(scheme@) is None,
            Some(None) => special_scheme(scheme@) == Some(None::<Seq<char>>),
            Some(Some(p)) => special_scheme(scheme@) == Some(Some(p@)),
        },
{
    if str_eq(scheme, "ftp") {
        Some(Some("21".to_owned()))
    } else if str_eq(scheme, "file") {
        Some(None)
    } else if str_eq(scheme, "http") {
        Some(Some("80".to_owned()))
    } else if str_eq(scheme, "https") {
        Some(Some("443".to_owned()))
    } else if str_eq(scheme, "ws") {
        Some(Some("80".to_owned()))
    } else if str_eq(scheme, "wss") {
        Some(Some("443".to_owned()))
    } else {
        None
    }
}

/// Whether `scheme` is a special scheme.
pub fn is_special_scheme(scheme: &str) -> (r: bool)
    ensures
        r == special_scheme(scheme@) is Some,
{
    match special_scheme_port(scheme) {
        Some(_) => true,
        None => false,
    }
}

} // verus!
