//! The URL parser as a state machine over the code points of its input: the
//! abstract state, one step of each state, and a run to the end.

use vstd::prelude::*;
use vstd::string::*;
use crate::encode_sets::{EncodeSet, spec_utf8_percent_encode};
use crate::number::{decimal, spec_u32_from_str_radix};
use crate::parser::spec_parse_host;
use crate::platform::{is_ascii_alpha_char, spec_is_normalized_windows_drive_letter, spec_is_windows_drive_letter,
    spec_starts_with_windows_drive_letter};
use crate::state::{Code, State, special_scheme};
use crate::string::{spec_is_double_dot_path_segment, spec_is_single_dot_path_segment};
use crate::text::{ascii_lower, char_at_spec, unicode_lowercase};
use crate::url::UrlView;

verus! {

/// The abstract state of the parser.
pub struct MachineView {
    pub buffer: Seq<char>,
    pub at_sign_seen: bool,
    pub inside_brackets: bool,
    pub password_token_seen: bool,
    pub pointer: int,
    pub failure: bool,
    pub state_override: bool,
    pub encoding_override: Seq<char>,
    pub is_special_url: bool,
    pub state: State,
    pub base: Option<UrlView>,
    pub url: UrlView,
    pub input: Seq<char>,
}

/// The code point of the input at index `i`.
pub open spec fn chr(m: MachineView, i: int) -> Option<char> {
    char_at_spec(m.input, i)
}

/// The code point at the pointer, or `None` (the end of input).
pub open spec fn code_at(m: MachineView) -> Option<char> {
    chr(m, m.pointer)
}

/// `c` is the ASCII code point `b`.
pub open spec fn is_code(c: Option<char>, b: u8) -> bool {
    c matches Some(x) && x as u32 == b as u32
}

/// An ASCII alphanumeric code point.
pub open spec fn is_ascii_alphanumeric_char(c: char) -> bool {
    is_ascii_alpha_char(c) || ('0' <= c && c <= '9')
}

/// The end of input, '/', '?' or '#', or '\' in a special URL.
pub open spec fn ends_authority(m: MachineView, c: Option<char>) -> bool {
    c is None || is_code(c, 0x2F) || is_code(c, 0x3F) || is_code(c, 0x23) || (m.is_special_url
        && is_code(c, 0x5C))
}

/// Shortening a URL's path: the last segment goes, except a lone
/// normalized Windows drive letter of a file URL.
pub open spec fn shorten_path(url: UrlView) -> UrlView {
    if url.scheme == "file"@ && url.path.len() == 1 && spec_is_normalized_windows_drive_letter(
        url.path[0],
    ) {
        url
    } else if url.path.len() == 0 {
        url
    } else {
        UrlView { path: url.path.drop_last(), ..url }
    }
}

pub open spec fn scheme_start_step(m: MachineView, c: Option<char>) -> (MachineView, Option<Code>) {
    if c matches Some(b) && is_ascii_alpha_char(b) {
        (
            MachineView {
                buffer: m.buffer.push(ascii_lower(c->0)),
                state: State::Scheme,
                ..m
            },
            None,
        )
    } else if !m.state_override {
        (MachineView { state: State::NoScheme, pointer: m.pointer - 1, ..m }, None)
    } else {
        (m, Some(Code::Failure))
    }
}

/// With a state override, the scheme cannot change between special and
/// not special, to "file" with credentials or a port, or from "file" with an empty host.
pub open spec fn scheme_override_exits(m: MachineView) -> bool {
    let buffer_special = special_scheme(m.buffer) is Some;
    ||| (m.is_special_url && !buffer_special)
    ||| (!m.is_special_url && buffer_special)
    ||| ((m.url.username.len() > 0 || m.url.password.len() > 0 || m.url.port is Some) && m.buffer
        == "file"@)
    ||| (m.url.scheme == "file"@ && m.url.host == Some(Seq::<char>::empty()))
}

pub open spec fn scheme_step(m: MachineView, c: Option<char>) -> (MachineView, Option<Code>) {
    if (c matches Some(b) && is_ascii_alphanumeric_char(b)) || is_code(c, 0x2B) || is_code(c, 0x2D)
        || is_code(c, 0x2E) {
        (MachineView { buffer: m.buffer.push(ascii_lower(c->0)), ..m }, None)
    } else if is_code(c, 0x3A) {
        if m.state_override && scheme_override_exits(m) {
            (m, Some(Code::Exit))
        } else {
            let m1 = MachineView {
                is_special_url: special_scheme(m.buffer) is Some,
                url: UrlView { scheme: m.buffer, ..m.url },
                ..m
            };
            let default_port = match special_scheme(m1.url.scheme) {
                Some(p) => p,
                None => None,
            };
            if m.state_override {
                if default_port is Some && m1.url.port == default_port {
                    (MachineView { url: UrlView { port: None, ..m1.url }, ..m1 }, Some(Code::Exit))
                } else {
                    (m1, Some(Code::Exit))
                }
            } else {
                let m2 = MachineView { buffer: Seq::empty(), ..m1 };
                if m2.url.scheme == "file"@ {
                    (MachineView { state: State::File, ..m2 }, None)
                } else if m2.is_special_url && m2.base is Some && m2.base->0.scheme == m2.url.scheme {
                    (MachineView { state: State::SpecialRelativeOrAuthority, ..m2 }, None)
                } else if m2.is_special_url {
                    (MachineView { state: State::SpecialAuthoritySlashes, ..m2 }, None)
                } else if chr(m2, m2.pointer + 1) == Some('/') {
                    (
                        MachineView {
                            state: State::PathOrAuthority,
                            pointer: m2.pointer + 1,
                            ..m2
                        },
                        None,
                    )
                } else {
                    (
                        MachineView {
                            url: UrlView { path: seq![Seq::empty()], opaque_path: true, ..m2.url },
                            state: State::OpaquePath,
                            ..m2
                        },
                        None,
                    )
                }
            }
        }
    } else if !m.state_override {
        (MachineView { buffer: Seq::empty(), state: State::NoScheme, pointer: -1, ..m }, None)
    } else {
        (m, Some(Code::Failure))
    }
}

pub open spec fn host_step(m: MachineView, c: Option<char>) -> (MachineView, Option<Code>) {
    if m.state_override && m.url.scheme == "file"@ {
        (MachineView { pointer: m.pointer - 1, state: State::FileHost, ..m }, None)
    } else if is_code(c, 0x3A) && !m.inside_brackets {
        if m.buffer.len() == 0 {
            (m, Some(Code::Failure))
        } else {
            let host = spec_parse_host(m.buffer, !m.is_special_url);
            if host.len() == 0 {
                (m, Some(Code::Failure))
            } else {
                (
                    MachineView {
                        url: UrlView { host: Some(host), ..m.url },
                        buffer: Seq::empty(),
                        state: State::Port,
                        ..m
                    },
                    None,
                )
            }
        }
    } else if ends_authority(m, c) {
        let m1 = MachineView { pointer: m.pointer - 1, ..m };
        if m1.is_special_url && m1.buffer.len() == 0 {
            (m1, Some(Code::Failure))
        } else if m1.state_override && m1.buffer.len() == 0 && (m1.url.port is Some
            || m1.url.username.len() > 0 || m1.url.password.len() > 0) {
            (m1, Some(Code::Exit))
        } else {
            let host = spec_parse_host(m1.buffer, !m1.is_special_url);
            if host.len() == 0 && m1.buffer.len() > 0 {
                (m1, Some(Code::Failure))
            } else {
                let m2 = MachineView {
                    url: UrlView { host: Some(host), ..m1.url },
                    buffer: Seq::empty(),
                    state: State::PathStart,
                    ..m1
                };
                if m2.state_override {
                    (m2, Some(Code::Exit))
                } else {
                    (m2, None)
                }
            }
        }
    } else {
        let b = c->0;
        let inside = if b == '[' {
            true
        } else if b == ']' {
            false
        } else {
            m.inside_brackets
        };
        (MachineView { inside_brackets: inside, buffer: m.buffer.push(b), ..m }, None)
    }
}

pub open spec fn no_scheme_step(m: MachineView, c: Option<char>) -> (MachineView, Option<Code>) {
    if m.base is None || (m.base->0.opaque_path && !is_code(c, 0x23)) {
        (m, Some(Code::Failure))
    } else if m.base->0.opaque_path {
        let base = m.base->0;
        (
            MachineView {
                is_special_url: special_scheme(base.scheme) is Some,
                url: UrlView {
                    scheme: base.scheme,
                    path: base.path,
                    opaque_path: true,
                    query: base.query,
                    fragment: Some(Seq::empty()),
                    ..m.url
                },
                state: State::Fragment,
                ..m
            },
            None,
        )
    } else if m.base->0.scheme != "file"@ {
        (MachineView { state: State::Relative, pointer: m.pointer - 1, ..m }, None)
    } else {
        (MachineView { state: State::File, pointer: m.pointer - 1, ..m }, None)
    }
}

/// The user and password of the userinfo: for each code point of the
/// buffer, the first ':' starts the password, any other code point is
/// appended percent-encoded with the userinfo set.
pub open spec fn userinfo_fold(cs: Seq<char>, pts: bool, user: Seq<char>, pass: Seq<char>) -> (bool, Seq<char>, Seq<char>)
    decreases cs.len(),
{
    if cs.len() == 0 {
        (pts, user, pass)
    } else if cs[0] == ':' && !pts {
        userinfo_fold(cs.drop_first(), true, user, pass)
    } else {
        let enc = spec_utf8_percent_encode(seq![cs[0]], EncodeSet::UserInfo);
        if pts {
            userinfo_fold(cs.drop_first(), pts, user, pass + enc)
        } else {
            userinfo_fold(cs.drop_first(), pts, user + enc, pass)
        }
    }
}

/// The buffer at an '@', with "%40" in front after an earlier '@'.
pub open spec fn at_buffer(m: MachineView) -> Seq<char> {
    if m.at_sign_seen {
        "%40"@ + m.buffer
    } else {
        m.buffer
    }
}

pub open spec fn authority_step(m: MachineView, c: Option<char>) -> (MachineView, Option<Code>) {
    if is_code(c, 0x40) {
        let buffer = at_buffer(m);
        let (pts, user, pass) = userinfo_fold(
            buffer,
            m.password_token_seen,
            m.url.username,
            m.url.password,
        );
        (
            MachineView {
                at_sign_seen: true,
                password_token_seen: pts,
                url: UrlView { username: user, password: pass, ..m.url },
                buffer: Seq::empty(),
                ..m
            },
            None,
        )
    } else if ends_authority(m, c) {
        if m.at_sign_seen && m.buffer.len() == 0 {
            (m, Some(Code::Failure))
        } else {
            (
                MachineView {
                    pointer: m.pointer - (m.buffer.len() + 1),
                    buffer: Seq::empty(),
                    state: State::Host,
                    ..m
                },
                None,
            )
        }
    } else {
        (MachineView { buffer: m.buffer.push(c->0), ..m }, None)
    }
}

/// The authority state keeps the pointer within an `i32` when it moves back.
pub open spec fn authority_ok(m: MachineView, c: Option<char>) -> bool {
    (!is_code(c, 0x40) && ends_authority(m, c) && !(m.at_sign_seen && m.buffer.len() == 0))
        ==> m.buffer.len() + 1 <= i32::MAX && m.pointer - (m.buffer.len() + 1) >= i32::MIN
}

pub open spec fn fragment_step(m: MachineView, c: Option<char>) -> (MachineView, Option<Code>) {
    if c is Some {
        (
            MachineView {
                url: UrlView {
                    fragment: Some(
                        spec_utf8_percent_encode(
                            m.input.subrange(m.pointer, m.input.len() as int),
                            EncodeSet::Fragment,
                        ),
                    ),
                    ..m.url
                },
                ..m
            },
            Some(Code::Exit),
        )
    } else {
        (m, Some(Code::Exit))
    }
}

pub open spec fn special_authority_ignore_slashes_step(m: MachineView, c: Option<char>) -> (MachineView, Option<Code>) {
    if !is_code(c, 0x2F) && !is_code(c, 0x5C) {
        (MachineView { state: State::Authority, pointer: m.pointer - 1, ..m }, None)
    } else {
        (m, None)
    }
}

pub open spec fn special_authority_slashes_step(m: MachineView, c: Option<char>) -> (MachineView, Option<Code>) {
    if is_code(c, 0x2F) && chr(m, m.pointer + 1) == Some('/') {
        (
            MachineView {
                state: State::SpecialAuthorityIgnoreSlashes,
                pointer: m.pointer + 1,
                ..m
            },
            None,
        )
    } else {
        (
            MachineView {
                state: State::SpecialAuthorityIgnoreSlashes,
                pointer: m.pointer - 1,
                ..m
            },
            None,
        )
    }
}

pub open spec fn special_relative_or_authority_step(m: MachineView, c: Option<char>) -> (MachineView, Option<Code>) {
    if is_code(c, 0x2F) && chr(m, m.pointer + 1) == Some('/') {
        (
            MachineView {
                state: State::SpecialAuthorityIgnoreSlashes,
                pointer: m.pointer + 1,
                ..m
            },
            None,
        )
    } else {
        (MachineView { state: State::Relative, pointer: m.pointer - 1, ..m }, None)
    }
}

pub open spec fn path_or_authority_step(m: MachineView, c: Option<char>) -> (MachineView, Option<Code>) {
    if is_code(c, 0x2F) {
        (MachineView { state: State::Authority, ..m }, None)
    } else {
        (MachineView { state: State::Path, pointer: m.pointer - 1, ..m }, None)
    }
}

/// The text of an opaque path.
pub open spec fn opaque_text(path: Seq<Seq<char>>) -> Seq<char> {
    if path.len() > 0 {
        path[0]
    } else {
        Seq::empty()
    }
}

pub open spec fn opaque_path_step(m: MachineView, c: Option<char>) -> (MachineView, Option<Code>) {
    if is_code(c, 0x3F) {
        (
            MachineView {
                url: UrlView { query: Some(Seq::empty()), ..m.url },
                state: State::Query,
                ..m
            },
            None,
        )
    } else if is_code(c, 0x23) {
        (
            MachineView {
                url: UrlView { fragment: Some(Seq::empty()), ..m.url },
                state: State::Fragment,
                ..m
            },
            None,
        )
    } else if c is Some {
        let enc = spec_utf8_percent_encode(seq![c->0], EncodeSet::C0Control);
        (
            MachineView {
                url: UrlView { path: seq![opaque_text(m.url.path) + enc], ..m.url },
                ..m
            },
            None,
        )
    } else {
        (m, None)
    }
}

pub open spec fn relative_step(m: MachineView, c: Option<char>) -> (MachineView, Option<Code>) {
    let base = m.base->0;
    let m1 = MachineView {
        is_special_url: special_scheme(base.scheme) is Some,
        url: UrlView { scheme: base.scheme, ..m.url },
        ..m
    };
    if is_code(c, 0x2F) || (m1.is_special_url && is_code(c, 0x5C)) {
        (MachineView { state: State::RelativeSlash, ..m1 }, None)
    } else {
        let m2 = MachineView {
            url: UrlView {
                username: base.username,
                password: base.password,
                host: base.host,
                port: base.port,
                path: base.path,
                query: base.query,
                ..m1.url
            },
            ..m1
        };
        if is_code(c, 0x3F) {
            (
                MachineView {
                    url: UrlView { query: Some(Seq::empty()), ..m2.url },
                    state: State::Query,
                    ..m2
                },
                None,
            )
        } else if is_code(c, 0x23) {
            (
                MachineView {
                    url: UrlView { fragment: Some(Seq::empty()), ..m2.url },
                    state: State::Fragment,
                    ..m2
                },
                None,
            )
        } else if c is Some {
            (
                MachineView {
                    url: shorten_path(UrlView { query: None, ..m2.url }),
                    state: State::Path,
                    pointer: m2.pointer - 1,
                    ..m2
                },
                None,
            )
        } else {
            (m2, None)
        }
    }
}

pub open spec fn relative_slash_step(m: MachineView, c: Option<char>) -> (MachineView, Option<Code>) {
    if m.is_special_url && (is_code(c, 0x2F) || is_code(c, 0x5C)) {
        (MachineView { state: State::SpecialAuthorityIgnoreSlashes, ..m }, None)
    } else if is_code(c, 0x2F) {
        (MachineView { state: State::Authority, ..m }, None)
    } else {
        let base = m.base->0;
        (
            MachineView {
                url: UrlView {
                    username: base.username,
                    password: base.password,
                    host: base.host,
                    port: base.port,
                    ..m.url
                },
                state: State::Path,
                pointer: m.pointer - 1,
                ..m
            },
            None,
        )
    }
}

/// The relative slash state reads the base unless it moves on to an authority state.
pub open spec fn relative_slash_ok(m: MachineView, c: Option<char>) -> bool {
    (m.is_special_url && is_code(c, 0x5C)) || is_code(c, 0x2F) || m.base is Some
}

pub open spec fn path_start_step(m: MachineView, c: Option<char>) -> (MachineView, Option<Code>) {
    if m.is_special_url {
        if !is_code(c, 0x2F) && !is_code(c, 0x5C) {
            (MachineView { state: State::Path, pointer: m.pointer - 1, ..m }, None)
        } else {
            (MachineView { state: State::Path, ..m }, None)
        }
    } else if !m.state_override && is_code(c, 0x3F) {
        (
            MachineView {
                url: UrlView { query: Some(Seq::empty()), ..m.url },
                state: State::Query,
                ..m
            },
            None,
        )
    } else if !m.state_override && is_code(c, 0x23) {
        (
            MachineView {
                url: UrlView { fragment: Some(Seq::empty()), ..m.url },
                state: State::Fragment,
                ..m
            },
            None,
        )
    } else if c is Some {
        if !is_code(c, 0x2F) {
            (MachineView { state: State::Path, pointer: m.pointer - 1, ..m }, None)
        } else {
            (MachineView { state: State::Path, ..m }, None)
        }
    } else if m.state_override && m.url.host is None {
        (MachineView { url: UrlView { path: m.url.path.push(Seq::empty()), ..m.url }, ..m }, None)
    } else {
        (m, None)
    }
}

/// The port from the digits of the buffer, as `u16::from_str_radix` reads them.
pub open spec fn port_value(buffer: Seq<char>) -> Option<nat> {
    match spec_u32_from_str_radix(buffer, 10) {
        Some(v) => if v <= 0xFFFF {
            Some(v as nat)
        } else {
            None
        },
        None => None,
    }
}

pub open spec fn port_step(m: MachineView, c: Option<char>) -> (MachineView, Option<Code>) {
    if c matches Some(b) && '0' <= b && b <= '9' {
        (MachineView { buffer: m.buffer.push(c->0), ..m }, None)
    } else if ends_authority(m, c) || m.state_override {
        if m.buffer.len() > 0 {
            match port_value(m.buffer) {
                None => (m, Some(Code::Failure)),
                Some(v) => {
                    let port = decimal(v);
                    let new_port = match special_scheme(m.url.scheme) {
                        Some(Some(default_port)) => if port == default_port {
                            None
                        } else {
                            Some(port)
                        },
                        _ => Some(port),
                    };
                    (
                        MachineView {
                            url: UrlView { port: new_port, ..m.url },
                            buffer: Seq::empty(),
                            state: State::PathStart,
                            pointer: m.pointer - 1,
                            ..m
                        },
                        None,
                    )
                },
            }
        } else if m.state_override {
            (m, Some(Code::Exit))
        } else {
            (MachineView { state: State::PathStart, pointer: m.pointer - 1, ..m }, None)
        }
    } else {
        (m, Some(Code::Failure))
    }
}

pub open spec fn query_step(m: MachineView, c: Option<char>) -> (MachineView, Option<Code>) {
    let m1 = if m.encoding_override != "utf-8"@ && (!m.is_special_url || m.url.scheme == "ws"@
        || m.url.scheme == "wss"@) {
        MachineView { encoding_override: "utf-8"@, ..m }
    } else {
        m
    };
    if (!m1.state_override && is_code(c, 0x23)) || c is None {
        let set = if m1.is_special_url {
            EncodeSet::SpecialQuery
        } else {
            EncodeSet::Query
        };
        let query = match m1.url.query {
            Some(q) => Some(q + spec_utf8_percent_encode(m1.buffer, set)),
            None => None,
        };
        let m2 = MachineView {
            url: UrlView { query: query, ..m1.url },
            buffer: Seq::empty(),
            ..m1
        };
        if is_code(c, 0x23) {
            (MachineView { state: State::Fragment, ..m2 }, None)
        } else {
            (m2, None)
        }
    } else {
        match chr(m1, m1.pointer) {
            Some(ch) => (MachineView { buffer: m1.buffer.push(ch), ..m1 }, None),
            None => (m1, None),
        }
    }
}

/// The end of a path segment in the path state.
pub open spec fn ends_segment(m: MachineView, c: Option<char>) -> bool {
    c is None || is_code(c, 0x2F) || (m.is_special_url && is_code(c, 0x5C)) || (!m.state_override
        && (is_code(c, 0x3F) || is_code(c, 0x23)))
}

/// A slash that ends a segment (so that no empty segment is appended).
pub open spec fn is_slash(m: MachineView, c: Option<char>) -> bool {
    is_code(c, 0x2F) || (m.is_special_url && is_code(c, 0x5C))
}

pub open spec fn path_step(m: MachineView, c: Option<char>) -> (MachineView, Option<Code>) {
    if ends_segment(m, c) {
        let url1 = if spec_is_double_dot_path_segment(unicode_lowercase(m.buffer)) {
            let shortened = shorten_path(m.url);
            if !is_slash(m, c) {
                UrlView { path: shortened.path.push(Seq::empty()), ..shortened }
            } else {
                shortened
            }
        } else if spec_is_single_dot_path_segment(m.buffer) && !is_slash(m, c) {
            UrlView { path: m.url.path.push(Seq::empty()), ..m.url }
        } else if !spec_is_single_dot_path_segment(m.buffer) {
            let segment = if m.url.scheme == "file"@ && m.url.path.len() == 0
                && spec_is_windows_drive_letter(m.buffer) {
                seq![m.buffer[0], ':']
            } else {
                m.buffer
            };
            UrlView { path: m.url.path.push(segment), ..m.url }
        } else {
            m.url
        };
        let m2 = MachineView { url: url1, buffer: Seq::empty(), ..m };
        if is_code(c, 0x3F) {
            (
                MachineView {
                    url: UrlView { query: Some(Seq::empty()), ..m2.url },
                    state: State::Query,
                    ..m2
                },
                None,
            )
        } else if is_code(c, 0x23) {
            (
                MachineView {
                    url: UrlView { fragment: Some(Seq::empty()), ..m2.url },
                    state: State::Fragment,
                    ..m2
                },
                None,
            )
        } else {
            (m2, None)
        }
    } else {
        match chr(m, m.pointer) {
            Some(ch) => (
                MachineView {
                    buffer: m.buffer + spec_utf8_percent_encode(seq![ch], EncodeSet::Path),
                    ..m
                },
                None,
            ),
            None => (m, None),
        }
    }
}

pub open spec fn file_slash_step(m: MachineView, c: Option<char>) -> (MachineView, Option<Code>) {
    if is_code(c, 0x2F) || is_code(c, 0x5C) {
        (MachineView { state: State::FileHost, ..m }, None)
    } else {
        let url1 = if m.base is Some && m.base->0.scheme == "file"@ {
            let base = m.base->0;
            let with_host = UrlView { host: base.host, ..m.url };
            if !spec_starts_with_windows_drive_letter(m.input, m.pointer) && base.path.len() > 0
                && spec_is_normalized_windows_drive_letter(base.path[0]) {
                UrlView { path: with_host.path.push(base.path[0]), ..with_host }
            } else {
                with_host
            }
        } else {
            m.url
        };
        (MachineView { url: url1, state: State::Path, pointer: m.pointer - 1, ..m }, None)
    }
}

pub open spec fn file_step(m: MachineView, c: Option<char>) -> (MachineView, Option<Code>) {
    let m1 = MachineView {
        url: UrlView { scheme: "file"@, host: Some(Seq::empty()), ..m.url },
        is_special_url: true,
        ..m
    };
    if is_code(c, 0x2F) || is_code(c, 0x5C) {
        (MachineView { state: State::FileSlash, ..m1 }, None)
    } else if m1.base is Some && m1.base->0.scheme == "file"@ {
        let base = m1.base->0;
        let m2 = MachineView {
            url: UrlView { host: base.host, path: base.path, query: base.query, ..m1.url },
            ..m1
        };
        if is_code(c, 0x3F) {
            (
                MachineView {
                    url: UrlView { query: Some(Seq::empty()), ..m2.url },
                    state: State::Query,
                    ..m2
                },
                None,
            )
        } else if is_code(c, 0x23) {
            (
                MachineView {
                    url: UrlView { fragment: Some(Seq::empty()), ..m2.url },
                    state: State::Fragment,
                    ..m2
                },
                None,
            )
        } else if c is Some {
            let url3 = UrlView { query: None, ..m2.url };
            let url4 = if !spec_starts_with_windows_drive_letter(m2.input, m2.pointer) {
                shorten_path(url3)
            } else {
                UrlView { path: Seq::empty(), ..url3 }
            };
            (MachineView { url: url4, state: State::Path, pointer: m2.pointer - 1, ..m2 }, None)
        } else {
            (m2, None)
        }
    } else {
        (MachineView { state: State::Path, pointer: m1.pointer - 1, ..m1 }, None)
    }
}

/// The end of a file host: the end of input, '/', '\\', '?' or '#'.
pub open spec fn ends_file_host(c: Option<char>) -> bool {
    c is None || is_code(c, 0x2F) || is_code(c, 0x5C) || is_code(c, 0x3F) || is_code(c, 0x23)
}

pub open spec fn file_host_step(m: MachineView, c: Option<char>) -> (MachineView, Option<Code>) {
    if !ends_file_host(c) {
        (MachineView { buffer: m.buffer.push(c->0), ..m }, None)
    } else {
        let m1 = MachineView { pointer: m.pointer - 1, ..m };
        if !m1.state_override && spec_is_windows_drive_letter(m1.buffer) {
            (MachineView { state: State::Path, ..m1 }, None)
        } else if m1.buffer.len() == 0 {
            let m2 = MachineView { url: UrlView { host: Some(Seq::empty()), ..m1.url }, ..m1 };
            if m2.state_override {
                (m2, Some(Code::Exit))
            } else {
                (MachineView { state: State::PathStart, ..m2 }, None)
            }
        } else {
            let host = spec_parse_host(m1.buffer, !m1.is_special_url);
            if host.len() == 0 {
                (m1, Some(Code::Failure))
            } else {
                let host2 = if host == "localhost"@ {
                    Seq::<char>::empty()
                } else {
                    host
                };
                let m2 = MachineView { url: UrlView { host: Some(host2), ..m1.url }, ..m1 };
                if m2.state_override {
                    (m2, Some(Code::Exit))
                } else {
                    (MachineView { buffer: Seq::empty(), state: State::PathStart, ..m2 }, None)
                }
            }
        }
    }
}

/// One step of the machine at the code `c`.
#[verifier::opaque]
pub open spec fn step(m: MachineView, c: Option<char>) -> (MachineView, Option<Code>) {
    match m.state {
        State::Authority => authority_step(m, c),
        State::SchemeStart => scheme_start_step(m, c),
        State::Scheme => scheme_step(m, c),
        State::Host => host_step(m, c),
        State::NoScheme => no_scheme_step(m, c),
        State::Fragment => fragment_step(m, c),
        State::Relative => relative_step(m, c),
        State::RelativeSlash => relative_slash_step(m, c),
        State::File => file_step(m, c),
        State::FileHost => file_host_step(m, c),
        State::FileSlash => file_slash_step(m, c),
        State::PathOrAuthority => path_or_authority_step(m, c),
        State::SpecialAuthorityIgnoreSlashes => special_authority_ignore_slashes_step(m, c),
        State::SpecialAuthoritySlashes => special_authority_slashes_step(m, c),
        State::SpecialRelativeOrAuthority => special_relative_or_authority_step(m, c),
        State::Query => query_step(m, c),
        State::Path => path_step(m, c),
        State::PathStart => path_start_step(m, c),
        State::OpaquePath => opaque_path_step(m, c),
        State::Port => port_step(m, c),
    }
}

/// The step at the code `c` does not panic.
#[verifier::opaque]
pub open spec fn step_ok(m: MachineView, c: Option<char>) -> bool {
    match m.state {
        State::Authority => authority_ok(m, c),
        State::Relative => m.base is Some,
        State::RelativeSlash => relative_slash_ok(m, c),
        _ => true,
    }
}

/// The number of codes the machine walks: the input's code points and the end.
pub open spec fn code_count(m: MachineView) -> int {
    m.input.len() as int + 1
}

/// The run of the machine from `m`, for at most `fuel` steps: it stops at
/// the end of the codes, on failure (recording it) or on exit; after any
/// other step the pointer moves on by one.
pub open spec fn run(m: MachineView, fuel: nat) -> MachineView
    decreases fuel,
{
    if fuel == 0 || !(m.pointer < code_count(m)) {
        m
    } else {
        let (m2, r) = step(m, code_at(m));
        match r {
            Some(Code::Failure) => MachineView { failure: true, ..m2 },
            Some(Code::Exit) => m2,
            None => run(MachineView { pointer: m2.pointer + 1, ..m2 }, (fuel - 1) as nat),
        }
    }
}

/// The run from `m` panics nowhere: the pointer it reads at is never
/// negative, and no step panics.
pub open spec fn run_ok(m: MachineView, fuel: nat) -> bool
    decreases fuel,
{
    if fuel == 0 || !(m.pointer < code_count(m)) {
        true
    } else {
        &&& m.pointer >= 0
        &&& step_ok(m, code_at(m))
        &&& {
            let (m2, r) = step(m, code_at(m));
            r is None ==> run_ok(MachineView { pointer: m2.pointer + 1, ..m2 }, (fuel - 1) as nat)
        }
    }
}

/// Enough steps for a run on an input of `n` code points.
pub open spec fn run_fuel(n: int) -> nat {
    (22 * (n + 3)) as nat
}

/// The order in which the states follow one another.
pub open spec fn rank(s: State) -> int {
    match s {
        State::SchemeStart => 0,
        State::Scheme => 1,
        State::NoScheme => 2,
        State::SpecialRelativeOrAuthority => 3,
        State::Relative => 4,
        State::RelativeSlash => 5,
        State::SpecialAuthoritySlashes => 6,
        State::PathOrAuthority => 7,
        State::SpecialAuthorityIgnoreSlashes => 8,
        State::Authority => 9,
        State::Host => 10,
        State::File => 11,
        State::FileSlash => 12,
        State::FileHost => 13,
        State::Port => 14,
        State::PathStart => 15,
        State::Path => 16,
        State::OpaquePath => 17,
        State::Query => 18,
        State::Fragment => 19,
    }
}

/// Whether a step that neither fails nor exits keeps the state and the
/// pointer or moves to a later state, and leaves the input alone.
pub open spec fn progresses(m: MachineView, c: Option<char>) -> bool {
    let (m2, r) = step(m, c);
    &&& m2.input == m.input
    &&& m2.state_override == m.state_override
    &&& m2.pointer <= m.pointer + 1
    &&& r is None ==> ((m2.state == m.state && m2.pointer == m.pointer) || rank(m2.state) > rank(
        m.state,
    ))
}

/// A step that neither fails nor exits either keeps the state and the
/// pointer, or moves to a later state; it never changes the input.
pub proof fn lemma_step_progress(m: MachineView, c: Option<char>)
    requires
        m.pointer >= 0,
    ensures
        progresses(m, c),
{
    reveal(step);
    match m.state {
        State::Authority => {
            assert(progresses(m, c));
        },
        State::SchemeStart => {
            assert(progresses(m, c));
        },
        State::Scheme => {
            assert(progresses(m, c));
        },
        State::Host => {
            assert(progresses(m, c));
        },
        State::NoScheme => {
            assert(progresses(m, c));
        },
        State::Fragment => {
            assert(progresses(m, c));
        },
        State::Relative => {
            assert(progresses(m, c));
        },
        State::RelativeSlash => {
            assert(progresses(m, c));
        },
        State::File => {
            assert(progresses(m, c));
        },
        State::FileHost => {
            assert(progresses(m, c));
        },
        State::FileSlash => {
            assert(progresses(m, c));
        },
        State::PathOrAuthority => {
            assert(progresses(m, c));
        },
        State::SpecialAuthorityIgnoreSlashes => {
            assert(progresses(m, c));
        },
        State::SpecialAuthoritySlashes => {
            assert(progresses(m, c));
        },
        State::SpecialRelativeOrAuthority => {
            assert(progresses(m, c));
        },
        State::Query => {
            assert(progresses(m, c));
        },
        State::Path => {
            assert(progresses(m, c));
        },
        State::PathStart => {
            assert(progresses(m, c));
        },
        State::OpaquePath => {
            assert(progresses(m, c));
        },
        State::Port => {
            assert(progresses(m, c));
        },
    }
}

} // verus!

verus! {

/// The input without leading code points up to U+0020.
pub open spec fn trim_start(s: Seq<char>) -> Seq<char>
    decreases s.len(),
{
    if s.len() > 0 && s[0] <= ' ' {
        trim_start(s.drop_first())
    } else {
        s
    }
}

/// The input without trailing code points up to U+0020.
pub open spec fn trim_end(s: Seq<char>) -> Seq<char>
    decreases s.len(),
{
    if s.len() > 0 && s.last() <= ' ' {
        trim_end(s.drop_last())
    } else {
        s
    }
}

/// An ASCII tab or newline.
pub open spec fn is_tab_or_newline(c: char) -> bool {
    c == '\t' || c == '\n' || c == '\r'
}

/// The input without ASCII tabs and newlines.
pub open spec fn remove_tab_newline(s: Seq<char>) -> Seq<char>
    decreases s.len(),
{
    if s.len() == 0 {
        s
    } else if is_tab_or_newline(s.last()) {
        remove_tab_newline(s.drop_last())
    } else {
        remove_tab_newline(s.drop_last()).push(s.last())
    }
}

/// The input that the parser walks: trimmed of C0 controls and spaces at
/// both ends, without tabs and newlines.
pub open spec fn clean_input(s: Seq<char>) -> Seq<char> {
    remove_tab_newline(trim_end(trim_start(s)))
}

/// The machine before its first step.
pub open spec fn initial_machine(
    input: Seq<char>,
    base: Option<UrlView>,
    encoding_override: Option<Seq<char>>,
    state_override: Option<State>,
) -> MachineView {
    MachineView {
        buffer: Seq::empty(),
        at_sign_seen: false,
        inside_brackets: false,
        password_token_seen: false,
        pointer: 0,
        failure: false,
        state_override: state_override is Some,
        encoding_override: match encoding_override {
            Some(e) => e,
            None => "utf-8"@,
        },
        is_special_url: false,
        state: match state_override {
            Some(s) => s,
            None => State::SchemeStart,
        },
        base: base,
        url: crate::url::empty_url(),
        input: clean_input(input),
    }
}

/// The parser's final state on an input.
pub open spec fn spec_parse_url(
    input: Seq<char>,
    base: Option<UrlView>,
    encoding_override: Option<Seq<char>>,
    state_override: Option<State>,
) -> MachineView {
    let m = initial_machine(input, base, encoding_override, state_override);
    run(m, run_fuel(m.input.len() as int))
}

/// The parser runs on the input without panicking: the input fits the
/// `i32` pointer, and no step of the run panics.
pub open spec fn parse_url_ok(
    input: Seq<char>,
    base: Option<UrlView>,
    encoding_override: Option<Seq<char>>,
    state_override: Option<State>,
) -> bool {
    let m = initial_machine(input, base, encoding_override, state_override);
    &&& code_count(m) + 2 <= i32::MAX
    &&& run_ok(m, run_fuel(m.input.len() as int))
}

/// The measure that each step of a run decreases.
pub open spec fn measure(m: MachineView) -> int {
    (20 - rank(m.state)) * (code_count(m) + 2) + (code_count(m) - (if m.pointer < 0 {
        0
    } else {
        m.pointer
    }))
}

} // verus!

verus! {

/// After a step that neither fails nor exits, and the pointer moving on by
/// one, the measure is smaller, where it was not negative.
pub proof fn lemma_measure_decreases(m: MachineView, m2: MachineView)
    requires
        m2.input == m.input,
        (m2.state == m.state && m2.pointer == m.pointer) || rank(m2.state) > rank(m.state),
        0 <= m.pointer < code_count(m),
    ensures
        measure(MachineView { pointer: m2.pointer + 1, ..m2 }) < measure(m),
        measure(m) >= 1,
{
    let cc = code_count(m);
    let r0 = rank(m.state);
    let r1 = rank(m2.state);
    assert(0 <= r0 <= 19 && 0 <= r1 <= 19);
    assert((20 - r0) * (cc + 2) >= cc + 2) by (nonlinear_arith)
        requires
            0 <= r0 <= 19,
            cc >= 1,
    ;
    if r1 > r0 {
        assert((20 - r1) * (cc + 2) <= (20 - r0) * (cc + 2) - (cc + 2)) by (nonlinear_arith)
            requires
                r1 > r0,
                cc >= 1,
        ;
    }
}

/// The measure of the machine before its first step is below the fuel of its run.
pub proof fn lemma_initial_measure(m: MachineView)
    requires
        m.pointer == 0,
    ensures
        measure(m) < run_fuel(m.input.len() as int),
{
    let cc = code_count(m);
    let r0 = rank(m.state);
    assert(0 <= r0 <= 19);
    assert((20 - r0) * (cc + 2) <= 20 * (cc + 2)) by (nonlinear_arith)
        requires
            0 <= r0 <= 19,
            cc >= 1,
    ;
}

} // verus!
