//! The URL parser: a state machine that walks the code points of its input.

use vstd::prelude::*;
use vstd::string::*;
use crate::encode_sets::{EncodeSet, spec_utf8_percent_encode, utf8_percent_encode};
use crate::machine_spec::{MachineView, code_at, is_code, is_ascii_alphanumeric_char, ends_authority, shorten_path, scheme_start_step, scheme_override_exits, scheme_step, host_step, no_scheme_step, userinfo_fold, at_buffer, authority_step, authority_ok, fragment_step, special_authority_ignore_slashes_step, special_authority_slashes_step, special_relative_or_authority_step, path_or_authority_step, opaque_text, opaque_path_step, relative_step, relative_slash_step, relative_slash_ok, path_start_step, port_value, port_step, query_step, is_slash, path_step, file_slash_step, file_step, file_host_step, step, step_ok, code_count, run, run_ok, run_fuel, lemma_step_progress, trim_start, trim_end, remove_tab_newline, clean_input, initial_machine, spec_parse_url, parse_url_ok, measure, lemma_measure_decreases, lemma_initial_measure};
use crate::parser::parse_host;
use crate::platform::{is_ascii_alpha_char, is_normalized_windows_drive_letter, is_windows_drive_letter,
    starts_with_windows_drive_letter};
use crate::state::{Code, State, special_scheme, special_scheme_port, is_special_scheme};
use crate::string::{is_double_dot_path_segment, is_single_dot_path_segment};
use crate::text::{char_at, char_ascii_lower, push_char, str_eq, substring_from, to_lowercase,
    views};
use crate::url::{URL, UrlView, opt_view, opt_url_view, clone_opt, clone_strings};

verus! {

/// The parser's state: the buffer and flags of the URL parsing steps, the
/// pointer into the input, and the URL record that it fills in.
pub struct URLStateMachine {
    pub buffer: String,
    pub at_sign_seen: bool,
    pub inside_brackets: bool,
    pub password_token_seen: bool,
    pub pointer: i32,
    pub failure: bool,
    pub state_override: bool,
    pub encoding_override: String,
    pub is_special_url: bool,
    pub state: State,
    pub base: Option<URL>,
    pub url: URL,
    pub input: String,
}

impl View for URLStateMachine {
    type V = MachineView;

    open spec fn view(&self) -> MachineView {
        MachineView {
            buffer: self.buffer@,
            at_sign_seen: self.at_sign_seen,
            inside_brackets: self.inside_brackets,
            password_token_seen: self.password_token_seen,
            pointer: self.pointer as int,
            failure: self.failure,
            state_override: self.state_override,
            encoding_override: self.encoding_override@,
            is_special_url: self.is_special_url,
            state: self.state,
            base: opt_url_view(self.base),
            url: self.url@,
            input: self.input@,
        }
    }
}

/// A step can run: the pointer is at a code and moving it stays within an `i32`.
pub open spec fn stepping(m: MachineView) -> bool {
    &&& 0 <= m.pointer < code_count(m)
    &&& code_count(m) + 2 <= i32::MAX
}

/// `c` is an ASCII alpha code point.
fn is_alpha_code(c: Option<char>) -> (r: bool)
    ensures
        r == (c matches Some(x) && is_ascii_alpha_char(x)),
{
    match c {
        Some(x) => ('A' <= x && x <= 'Z') || ('a' <= x && x <= 'z'),
        None => false,
    }
}

/// `c` is an ASCII alphanumeric code point.
fn is_alphanumeric_code(c: Option<char>) -> (r: bool)
    ensures
        r == (c matches Some(x) && is_ascii_alphanumeric_char(x)),
{
    match c {
        Some(x) => ('A' <= x && x <= 'Z') || ('a' <= x && x <= 'z') || ('0' <= x && x <= '9'),
        None => false,
    }
}

/// `c` is an ASCII digit.
fn is_digit_code(c: Option<char>) -> (r: bool)
    ensures
        r == (c matches Some(x) && '0' <= x && x <= '9'),
{
    match c {
        Some(x) => '0' <= x && x <= '9',
        None => false,
    }
}

/// A string of one code point.
fn char_string(c: char) -> (r: String)
    ensures
        r@ == seq![c],
{
    let mut s = String::new();
    push_char(&mut s, c);
    proof {
        assert(s@ =~= seq![c]);
    }
    s
}

/// Appends a segment to a path.
fn push_segment(path: &mut Vec<String>, segment: String)
    ensures
        views(final(path)@) == views(old(path)@).push(segment@),
{
    path.push(segment);
    proof {
        assert(views(path@) =~= views(old(path)@).push(segment@));
    }
}

fn is_code_exec(c: Option<char>, b: u8) -> (r: bool)
    ensures
        r == is_code(c, b),
{
    match c {
        Some(x) => x as u32 == b as u32,
        None => false,
    }
}

fn opt_is_empty(o: &Option<String>) -> (r: bool)
    ensures
        r == (opt_view(*o) == Some(Seq::<char>::empty())),
{
    match o {
        Some(s) => {
            let r = s.as_str().unicode_len() == 0;
            proof {
                if r {
                    assert(s@ =~= Seq::<char>::empty());
                }
            }
            r
        },
        None => false,
    }
}

fn opt_eq_str(o: &Option<String>, s: &String) -> (r: bool)
    ensures
        r == (opt_view(*o) == Some(s@)),
{
    match o {
        Some(x) => str_eq(x.as_str(), s.as_str()),
        None => false,
    }
}

fn str_nonempty(s: &String) -> (r: bool)
    ensures
        r == (s@.len() > 0),
{
    s.as_str().unicode_len() > 0
}

impl URLStateMachine {
    fn shorten_url(&mut self)
        ensures
            final(self)@ == (MachineView { url: shorten_path(old(self)@.url), ..old(self)@ }),
    {
        // If url's scheme is "file", path's size is 1, and path[0] is a normalized Windows drive letter, then return.
        if str_eq(self.url.scheme.as_str(), "file") && self.url.path.len() == 1
            && is_normalized_windows_drive_letter(self.url.path[0].as_str()) {
            proof {
                assert(views(self.url.path@)[0] == self.url.path@[0]@);
            }
            return;
        }
        if self.url.path.len() > 0 {
            self.url.path.pop();
            proof {
                assert(views(self.url.path@) =~= views(old(self).url.path@).drop_last());
            }
        }
        proof {
            assert(self@.url =~= shorten_path(old(self)@.url));
        }
    }

    fn scheme_start_state(&mut self, code: Option<char>) -> (r: Option<Code>)
        requires
            stepping(old(self)@),
        ensures
            (final(self)@, r) == scheme_start_step(old(self)@, code),
    {
        // If c is an ASCII alpha, append c, lowercased, to buffer, and set state to scheme state.
        if is_alpha_code(code) {
            let c = char_ascii_lower(code.unwrap());
            push_char(&mut self.buffer, c);
            self.state = State::Scheme;
        }
        // Otherwise, if state override is not given, set state to no scheme state and decrease pointer by 1.
        else if !self.state_override {
            self.state = State::NoScheme;
            self.pointer = self.pointer - 1;
        }
        // Otherwise, validation error, return failure.
        else {
            return Some(Code::Failure);
        }
        None
    }
}

} // verus!

verus! {

impl URLStateMachine {
    fn scheme_override_exits_exec(&self) -> (r: bool)
        ensures
            r == scheme_override_exits(self@),
    {
        let is_buffer_special = is_special_scheme(self.buffer.as_str());
        (self.is_special_url && !is_buffer_special) || (!self.is_special_url && is_buffer_special)
            || ((str_nonempty(&self.url.username) || str_nonempty(&self.url.password)
            || self.url.port.is_some()) && str_eq(self.buffer.as_str(), "file")) || (str_eq(
            self.url.scheme.as_str(),
            "file",
        ) && opt_is_empty(&self.url.host))
    }

    fn base_scheme_is(&self, scheme: &String) -> (r: bool)
        ensures
            r == (self@.base is Some && self@.base->0.scheme == scheme@),
    {
        match &self.base {
            Some(b) => str_eq(b.scheme.as_str(), scheme.as_str()),
            None => false,
        }
    }

    fn scheme_state(&mut self, code: Option<char>) -> (r: Option<Code>)
        requires
            stepping(old(self)@),
        ensures
            (final(self)@, r) == scheme_step(old(self)@, code),
    {
        let ghost m = self@;
        // If c is an ASCII alphanumeric, U+002B (+), U+002D (-), or U+002E (.), append c, lowercased, to buffer.
        if is_alphanumeric_code(code) || is_code_exec(code, 43) || is_code_exec(code, 45)
            || is_code_exec(code, 46) {
            let c = char_ascii_lower(code.unwrap());
            push_char(&mut self.buffer, c);
        }
        // Otherwise, if c is U+003A (:), then:
        else if is_code_exec(code, 58) {
            let is_buffer_special = is_special_scheme(self.buffer.as_str());
            // If state override is given and the scheme may not change this way, then return.
            if self.state_override {
                if self.scheme_override_exits_exec() {
                    return Some(Code::Exit);
                }
            }
            // Set url's scheme to buffer.
            self.is_special_url = is_buffer_special;
            self.url.scheme = self.buffer.clone();
            // If state override is given, then:
            if self.state_override {
                // If url's port is url's scheme's default port, then set url's port to null.
                match special_scheme_port(self.url.scheme.as_str()) {
                    Some(Some(port)) => {
                        if opt_eq_str(&self.url.port, &port) {
                            self.url.port = None;
                        }
                    },
                    _ => {},
                }
                // Return.
                return Some(Code::Exit);
            }
            // Set buffer to the empty string.
            self.buffer = String::new();
            // If url's scheme is "file", then set state to file state.
            if str_eq(self.url.scheme.as_str(), "file") {
                self.state = State::File;
            }
            // Otherwise, if url is special, base is non-null, and base's scheme is url's scheme:
            else if self.is_special_url && self.base_scheme_is(&self.url.scheme) {
                self.state = State::SpecialRelativeOrAuthority;
            }
            // Otherwise, if url is special, set state to special authority slashes state.
            else if self.is_special_url {
                self.state = State::SpecialAuthoritySlashes;
            }
            // Otherwise, if remaining starts with an U+002F (/), set state to path or authority state and increase pointer by 1.
            else if char_at(self.input.as_str(), (self.pointer + 1) as usize) == Some('/') {
                self.state = State::PathOrAuthority;
                self.pointer = self.pointer + 1;
            }
            // Otherwise, set url's path to the empty string and set state to opaque path state.
            else {
                let mut path: Vec<String> = Vec::new();
                path.push(String::new());
                self.url.path = path;
                self.url.opaque_path = true;
                self.state = State::OpaquePath;
                proof {
                    assert(views(self.url.path@) =~= seq![Seq::<char>::empty()]);
                }
            }
        }
        // Otherwise, if state override is not given, set buffer to the empty string, state to no scheme state,
        // and start over (from the first code point in input).
        else if !self.state_override {
            self.buffer = String::new();
            self.state = State::NoScheme;
            self.pointer = -1;
        }
        // Otherwise, validation error, return failure.
        else {
            return Some(Code::Failure);
        }
        proof {
            assert(self@.url =~= scheme_step(m, code).0.url);
        }
        None
    }

    fn no_scheme_state(&mut self, code: Option<char>) -> (r: Option<Code>)
        requires
            stepping(old(self)@),
        ensures
            (final(self)@, r) == no_scheme_step(old(self)@, code),
    {
        // If base is null, or base has an opaque path and c is not U+0023 (#), validation error, return failure.
        let base = match &self.base {
            None => {
                return Some(Code::Failure);
            },
            Some(b) => b,
        };
        if base.opaque_path && !is_code_exec(code, 35) {
            return Some(Code::Failure);
        }
        // Otherwise, if base has an opaque path and c is U+0023 (#), set url's scheme to base's scheme,
        // url's path to base's path, url's query to base's query, url's fragment to the empty string,
        // and set state to fragment state.
        if base.opaque_path {
            let special = is_special_scheme(base.scheme.as_str());
            let scheme = base.scheme.clone();
            let path = clone_strings(&base.path);
            let query = clone_opt(&base.query);
            self.is_special_url = special;
            self.url.scheme = scheme;
            self.url.path = path;
            self.url.opaque_path = true;
            self.url.query = query;
            self.url.fragment = Some(String::new());
            self.state = State::Fragment;
            proof {
                assert(self@.url =~= no_scheme_step(old(self)@, code).0.url);
            }
        }
        // Otherwise, if base's scheme is not "file", set state to relative state and decrease pointer by 1.
        else if !str_eq(base.scheme.as_str(), "file") {
            self.state = State::Relative;
            self.pointer = self.pointer - 1;
        }
        // Otherwise, set state to file state and decrease pointer by 1.
        else {
            self.state = State::File;
            self.pointer = self.pointer - 1;
        }
        None
    }
}

} // verus!

verus! {

impl URLStateMachine {
    fn ends_authority_exec(&self, code: Option<char>) -> (r: bool)
        ensures
            r == ends_authority(self@, code),
    {
        code.is_none() || is_code_exec(code, 47) || is_code_exec(code, 63) || is_code_exec(code, 35)
            || (self.is_special_url && is_code_exec(code, 92))
    }

    fn host_state(&mut self, code: Option<char>) -> (r: Option<Code>)
        requires
            stepping(old(self)@),
        ensures
            (final(self)@, r) == host_step(old(self)@, code),
    {
        let ghost m = self@;
        // If state override is given and url's scheme is "file", then decrease pointer by 1 and set state to file host state.
        if self.state_override && str_eq(self.url.scheme.as_str(), "file") {
            self.pointer = self.pointer - 1;
            self.state = State::FileHost;
        }
        // Otherwise, if c is U+003A (:) and insideBrackets is false, then:
        else if is_code_exec(code, 58) && !self.inside_brackets {
            // If buffer is the empty string, validation error, return failure.
            if self.buffer.as_str().unicode_len() == 0 {
                return Some(Code::Failure);
            }
            // Let host be the result of host parsing buffer with url is not special.
            let host = parse_host(self.buffer.clone(), !self.is_special_url);
            // If host is failure, then return failure.
            if host.as_str().unicode_len() == 0 {
                return Some(Code::Failure);
            }
            // Set url's host to host, buffer to the empty string, and state to port state.
            self.url.host = Some(host);
            self.buffer = String::new();
            self.state = State::Port;
        }
        // Otherwise, if c is the EOF code point, '/', '?', '#', or '\' in a special URL:
        else if self.ends_authority_exec(code) {
            // then decrease pointer by 1, and then:
            self.pointer = self.pointer - 1;
            // If url is special and buffer is the empty string, validation error, return failure.
            if self.is_special_url && self.buffer.as_str().unicode_len() == 0 {
                return Some(Code::Failure);
            }
            // Otherwise, if state override is given, buffer is the empty string, and either url includes credentials or url's port is non-null, return.
            else if self.state_override && self.buffer.as_str().unicode_len() == 0 && (
            self.url.port.is_some() || str_nonempty(&self.url.username) || str_nonempty(
                &self.url.password,
            )) {
                return Some(Code::Exit);
            }
            // Let host be the result of host parsing buffer with url is not special; an
            // empty buffer (of a URL that is not special) gives the empty host.
            let host = parse_host(self.buffer.clone(), !self.is_special_url);
            // If host is failure, then return failure.
            if host.as_str().unicode_len() == 0 && self.buffer.as_str().unicode_len() > 0 {
                return Some(Code::Failure);
            }
            // Set url's host to host, buffer to the empty string, and state to path start state.
            self.url.host = Some(host);
            self.buffer = String::new();
            self.state = State::PathStart;
            // If state override is given, then return.
            if self.state_override {
                return Some(Code::Exit);
            }
        } else {
            let b = code.unwrap();
            // If c is U+005B ([), then set insideBrackets to true.
            if b == '[' {
                self.inside_brackets = true;
            }
            // If c is U+005D (]), then set insideBrackets to false.
            else if b == ']' {
                self.inside_brackets = false;
            }
            push_char(&mut self.buffer, b);
        }
        None
    }

    fn at_buffer_exec(&self) -> (r: String)
        ensures
            r@ == at_buffer(self@),
    {
        if self.at_sign_seen {
            let mut t = "%40".to_owned();
            t.append(self.buffer.as_str());
            t
        } else {
            self.buffer.clone()
        }
    }

    fn authority_state(&mut self, code: Option<char>) -> (r: Option<Code>)
        requires
            stepping(old(self)@),
            authority_ok(old(self)@, code),
        ensures
            (final(self)@, r) == authority_step(old(self)@, code),
    {
        let ghost m = self@;
        // If c is U+0040 (@), then:
        if is_code_exec(code, 64) {
            // If atSignSeen is true, then prepend '%40' to buffer.
            let buffer = self.at_buffer_exec();
            self.at_sign_seen = true;
            let ghost b0 = buffer@;
            let mut pts = self.password_token_seen;
            let mut username = self.url.username.clone();
            let mut password = self.url.password.clone();
            let n = buffer.as_str().unicode_len();
            let mut i: usize = 0;
            proof {
                assert(b0.skip(0) =~= b0);
            }
            // For each codePoint in buffer:
            while i < n
                invariant
                    b0 == buffer@,
                    n == b0.len(),
                    i <= n,
                    userinfo_fold(b0, m.password_token_seen, m.url.username, m.url.password)
                        == userinfo_fold(b0.skip(i as int), pts, username@, password@),
                decreases n - i,
            {
                proof {
                    assert(b0.skip(i as int).drop_first() =~= b0.skip(i + 1));
                }
                let c = buffer.as_str().get_char(i);
                // If codePoint is U+003A (:) and passwordTokenSeen is false, then set passwordTokenSeen to true and continue.
                if c == ':' && !pts {
                    pts = true;
                    i = i + 1;
                    continue;
                }
                // Let encodedCodePoints be the result of running UTF-8 percent-encode codePoint using the userinfo percent-encode set.
                let encoded_code_points = utf8_percent_encode(
                    char_string(c).as_str(),
                    EncodeSet::UserInfo,
                );
                // If passwordTokenSeen is true, then append encodedCodePoints to url's password.
                if pts {
                    password.append(encoded_code_points.as_str());
                } else {
                    // Otherwise, append encodedCodePoints to url's username.
                    username.append(encoded_code_points.as_str());
                }
                i = i + 1;
            }
            proof {
                assert(b0.skip(n as int) =~= Seq::<char>::empty());
            }
            self.password_token_seen = pts;
            self.url.username = username;
            self.url.password = password;
            self.buffer = String::new();
        }
        // Otherwise, if c is the EOF code point, '/', '?', '#', or '\' in a special URL:
        else if self.ends_authority_exec(code) {
            let blen = self.buffer.as_str().unicode_len();
            // If atSignSeen is true and buffer is the empty string, validation error, return failure.
            if self.at_sign_seen && blen == 0 {
                return Some(Code::Failure);
            }
            // Decrease pointer by the number of code points in buffer plus one, set buffer to the empty string, and set state to host state.
            self.pointer = self.pointer - (blen + 1) as i32;
            self.buffer = String::new();
            self.state = State::Host;
        }
        // Otherwise, append c to buffer.
        else {
            push_char(&mut self.buffer, code.unwrap());
        }
        proof {
            assert(self@.url =~= authority_step(m, code).0.url);
        }
        None
    }

    fn fragment_state(&mut self, code: Option<char>) -> (r: Option<Code>)
        requires
            stepping(old(self)@),
            code == code_at(old(self)@),
        ensures
            (final(self)@, r) == fragment_step(old(self)@, code),
    {
        // If c is not the EOF code point, then percent-encode the rest of the input as the fragment.
        if code.is_some() {
            let fragment = substring_from(self.input.as_str(), self.pointer as usize);
            self.url.fragment = Some(utf8_percent_encode(fragment.as_str(), EncodeSet::Fragment));
            proof {
                assert(self@.url =~= fragment_step(old(self)@, code).0.url);
            }
        }
        Some(Code::Exit)
    }
}

} // verus!

verus! {

impl URLStateMachine {
    fn special_authority_ignore_slashes_state(&mut self, code: Option<char>) -> (r: Option<Code>)
        requires
            stepping(old(self)@),
        ensures
            (final(self)@, r) == special_authority_ignore_slashes_step(old(self)@, code),
    {
        // If c is neither U+002F (/) nor U+005C (\), then set state to authority state and decrease pointer by 1.
        if !is_code_exec(code, 47) && !is_code_exec(code, 92) {
            self.state = State::Authority;
            self.pointer = self.pointer - 1;
        }
        None
    }

    fn special_authority_slashes_state(&mut self, code: Option<char>) -> (r: Option<Code>)
        requires
            stepping(old(self)@),
        ensures
            (final(self)@, r) == special_authority_slashes_step(old(self)@, code),
    {
        self.state = State::SpecialAuthorityIgnoreSlashes;
        // If c is U+002F (/) and remaining starts with U+002F (/), increase pointer by 1.
        if is_code_exec(code, 47) && char_at(self.input.as_str(), (self.pointer + 1) as usize)
            == Some('/') {
            self.pointer = self.pointer + 1;
        } else {
            // Otherwise, validation error, decrease pointer by 1.
            self.pointer = self.pointer - 1;
        }
        None
    }

    fn special_relative_or_authority_state(&mut self, code: Option<char>) -> (r: Option<Code>)
        requires
            stepping(old(self)@),
        ensures
            (final(self)@, r) == special_relative_or_authority_step(old(self)@, code),
    {
        // If c is U+002F (/) and remaining starts with U+002F (/),
        // then set state to special authority ignore slashes state and increase pointer by 1.
        if is_code_exec(code, 47) && char_at(self.input.as_str(), (self.pointer + 1) as usize)
            == Some('/') {
            self.state = State::SpecialAuthorityIgnoreSlashes;
            self.pointer = self.pointer + 1;
        }
        // Otherwise, validation error, set state to relative state and decrease pointer by 1.
        else {
            self.state = State::Relative;
            self.pointer = self.pointer - 1;
        }
        None
    }

    fn path_or_authority_state(&mut self, code: Option<char>) -> (r: Option<Code>)
        requires
            stepping(old(self)@),
        ensures
            (final(self)@, r) == path_or_authority_step(old(self)@, code),
    {
        // If c is U+002F (/), then set state to authority state.
        if is_code_exec(code, 47) {
            self.state = State::Authority;
        }
        // Otherwise, set state to path state, and decrease pointer by 1.
        else {
            self.state = State::Path;
            self.pointer = self.pointer - 1;
        }
        None
    }

    fn opaque_path_state(&mut self, code: Option<char>) -> (r: Option<Code>)
        requires
            stepping(old(self)@),
        ensures
            (final(self)@, r) == opaque_path_step(old(self)@, code),
    {
        let ghost m = self@;
        if is_code_exec(code, 63) {
            // If c is U+003F (?), then set url's query to the empty string and state to query state.
            self.url.query = Some(String::new());
            self.state = State::Query;
        } else if is_code_exec(code, 35) {
            // Otherwise, if c is U+0023 (#), set url's fragment to the empty string and state to fragment state.
            self.url.fragment = Some(String::new());
            self.state = State::Fragment;
        } else if code.is_some() {
            // Otherwise, if c is not the EOF code point, UTF-8 percent-encode c using the C0 control
            // percent-encode set and append the result to url's path.
            let mut text = if self.url.path.len() > 0 {
                self.url.path[0].clone()
            } else {
                String::new()
            };
            let encoded = utf8_percent_encode(char_string(code.unwrap()).as_str(), EncodeSet::C0Control);
            text.append(encoded.as_str());
            let mut path: Vec<String> = Vec::new();
            path.push(text);
            self.url.path = path;
            proof {
                assert(views(self.url.path@) =~= seq![opaque_text(m.url.path) + spec_utf8_percent_encode(seq![code->0], EncodeSet::C0Control)]);
            }
        }
        proof {
            assert(self@.url =~= opaque_path_step(m, code).0.url);
        }
        None
    }

    fn relative_state(&mut self, code: Option<char>) -> (r: Option<Code>)
        requires
            stepping(old(self)@),
            old(self)@.base is Some,
        ensures
            (final(self)@, r) == relative_step(old(self)@, code),
    {
        let ghost m = self@;
        // Set url's scheme to base's scheme.
        let base = self.base.as_ref().unwrap();
        self.is_special_url = is_special_scheme(base.scheme.as_str());
        self.url.scheme = base.scheme.clone();
        // If c is U+002F (/), or url is special and c is U+005C (\), then set state to relative slash state.
        if is_code_exec(code, 47) || (self.is_special_url && is_code_exec(code, 92)) {
            self.state = State::RelativeSlash;
        }
        // Otherwise:
        else {
            // Set url's username, password, host, port, path and query to base's.
            self.url.username = base.username.clone();
            self.url.password = base.password.clone();
            self.url.host = clone_opt(&base.host);
            self.url.port = clone_opt(&base.port);
            self.url.path = clone_strings(&base.path);
            self.url.query = clone_opt(&base.query);
            // If c is U+003F (?), then set url's query to the empty string, and state to query state.
            if is_code_exec(code, 63) {
                self.url.query = Some(String::new());
                self.state = State::Query;
            }
            // Otherwise, if c is U+0023 (#), set url's fragment to the empty string and state to fragment state.
            else if is_code_exec(code, 35) {
                self.url.fragment = Some(String::new());
                self.state = State::Fragment;
            }
            // Otherwise, if c is not the EOF code point
            else if code.is_some() {
                self.url.query = None;
                self.shorten_url();
                self.state = State::Path;
                self.pointer = self.pointer - 1;
            }
        }
        proof {
            assert(self@.url =~= relative_step(m, code).0.url);
        }
        None
    }

    fn relative_slash_state(&mut self, code: Option<char>) -> (r: Option<Code>)
        requires
            stepping(old(self)@),
            relative_slash_ok(old(self)@, code),
        ensures
            (final(self)@, r) == relative_slash_step(old(self)@, code),
    {
        let ghost m = self@;
        // If url is special and c is U+002F (/) or U+005C (\), then:
        // Set state to special authority ignore slashes state.
        if self.is_special_url && (is_code_exec(code, 47) || is_code_exec(code, 92)) {
            self.state = State::SpecialAuthorityIgnoreSlashes;
        }
        // Otherwise, if c is U+002F (/), then set state to authority state.
        else if is_code_exec(code, 47) {
            self.state = State::Authority;
        }
        // Otherwise, set url's username, password, host and port to base's, state to path state,
        // and then, decrease pointer by 1.
        else {
            let base = self.base.as_ref().unwrap();
            self.url.username = base.username.clone();
            self.url.password = base.password.clone();
            self.url.host = clone_opt(&base.host);
            self.url.port = clone_opt(&base.port);
            self.state = State::Path;
            self.pointer = self.pointer - 1;
        }
        proof {
            assert(self@.url =~= relative_slash_step(m, code).0.url);
        }
        None
    }

    fn path_start_state(&mut self, code: Option<char>) -> (r: Option<Code>)
        requires
            stepping(old(self)@),
        ensures
            (final(self)@, r) == path_start_step(old(self)@, code),
    {
        let ghost m = self@;
        // If url is special, then:
        if self.is_special_url {
            // Set state to path state.
            self.state = State::Path;
            // If c is neither U+002F (/) nor U+005C (\), then decrease pointer by 1.
            if !is_code_exec(code, 47) && !is_code_exec(code, 92) {
                self.pointer = self.pointer - 1;
            }
        }
        // Otherwise, if state override is not given and c is U+003F (?), set url's query to the empty string and state to query state.
        else if !self.state_override && is_code_exec(code, 63) {
            self.url.query = Some(String::new());
            self.state = State::Query;
        }
        // Otherwise, if state override is not given and c is U+0023 (#), set url's fragment to the
        // empty string and state to fragment state.
        else if !self.state_override && is_code_exec(code, 35) {
            self.url.fragment = Some(String::new());
            self.state = State::Fragment;
        }
        // Otherwise, if c is not the EOF code point:
        else if code.is_some() {
            // Set state to path state.
            self.state = State::Path;
            // If c is not U+002F (/), then decrease pointer by 1.
            if !is_code_exec(code, 47) {
                self.pointer = self.pointer - 1;
            }
        }
        // Otherwise, if state override is given and url's host is null, append the empty string to url's path.
        else if self.state_override && self.url.host.is_none() {
            push_segment(&mut self.url.path, String::new());
        }
        proof {
            assert(self@.url =~= path_start_step(m, code).0.url);
        }
        None
    }
}

} // verus!

verus! {

impl URLStateMachine {
    fn port_state(&mut self, code: Option<char>) -> (r: Option<Code>)
        requires
            stepping(old(self)@),
        ensures
            (final(self)@, r) == port_step(old(self)@, code),
    {
        let ghost m = self@;
        // If c is an ASCII digit, append c to buffer.
        if is_digit_code(code) {
            push_char(&mut self.buffer, code.unwrap());
        }
        // Otherwise, if c is the EOF code point, '/', '?', '#', '\' in a special URL, or state override is given:
        else if self.ends_authority_exec(code) || self.state_override {
            // If buffer is not the empty string, then:
            if self.buffer.as_str().unicode_len() > 0 {
                // Let port be the value that buffer represents in radix 10.
                let port_value = crate::number::u32_from_str_radix(self.buffer.as_str(), 10);
                // If port is greater than 2^16 - 1, validation error, return failure.
                let value = match port_value {
                    Some(v) => {
                        if v > 0xFFFF {
                            return Some(Code::Failure);
                        }
                        v
                    },
                    None => {
                        return Some(Code::Failure);
                    },
                };
                let port = crate::number::u64_to_decimal(value as u64);
                // Set url's port to null, if port is url's scheme's default port; otherwise to port.
                match special_scheme_port(self.url.scheme.as_str()) {
                    Some(Some(default_port)) => {
                        if str_eq(port.as_str(), default_port.as_str()) {
                            self.url.port = None;
                        } else {
                            self.url.port = Some(port);
                        }
                    },
                    _ => {
                        self.url.port = Some(port);
                    },
                }
                // Set buffer to the empty string.
                self.buffer = String::new();
            }
            // If state override is given, then return.
            else if self.state_override {
                return Some(Code::Exit);
            }
            // Set state to path start state and decrease pointer by 1.
            self.state = State::PathStart;
            self.pointer = self.pointer - 1;
        }
        // Otherwise, validation error, return failure.
        else {
            return Some(Code::Failure);
        }
        proof {
            assert(self@.url =~= port_step(m, code).0.url);
        }
        None
    }

    fn query_state(&mut self, code: Option<char>) -> (r: Option<Code>)
        requires
            stepping(old(self)@),
        ensures
            (final(self)@, r) == query_step(old(self)@, code),
    {
        let ghost m = self@;
        // If encoding is not UTF-8 and url is not special or url's scheme is "ws" or "wss", then set encoding to UTF-8.
        if !str_eq(self.encoding_override.as_str(), "utf-8") && (!self.is_special_url || str_eq(
            self.url.scheme.as_str(),
            "ws",
        ) || str_eq(self.url.scheme.as_str(), "wss")) {
            self.encoding_override = "utf-8".to_owned();
        }
        // If state override is not given and c is U+0023 (#), or c is the EOF code point:
        if (!self.state_override && is_code_exec(code, 35)) || code.is_none() {
            // Let queryPercentEncodeSet be the special-query percent-encode set if url is special; otherwise the query percent-encode set.
            let encoding_set = if self.is_special_url {
                EncodeSet::SpecialQuery
            } else {
                EncodeSet::Query
            };
            // Percent-encode buffer with queryPercentEncodeSet and append the result to url's query.
            match &self.url.query {
                Some(query) => {
                    let mut q = query.clone();
                    q.append(utf8_percent_encode(self.buffer.as_str(), encoding_set).as_str());
                    self.url.query = Some(q);
                },
                None => {},
            }
            // Set buffer to the empty string.
            self.buffer = String::new();
            // If c is U+0023 (#), then set state to fragment state.
            if is_code_exec(code, 35) {
                self.state = State::Fragment;
            }
        }
        // Otherwise, if c is not the EOF code point: append c to buffer.
        else {
            match char_at(self.input.as_str(), self.pointer as usize) {
                Some(c) => {
                    push_char(&mut self.buffer, c);
                },
                None => {},
            }
        }
        proof {
            assert(self@.url =~= query_step(m, code).0.url);
        }
        None
    }

    fn path_state(&mut self, code: Option<char>) -> (r: Option<Code>)
        requires
            stepping(old(self)@),
        ensures
            (final(self)@, r) == path_step(old(self)@, code),
    {
        let ghost m = self@;
        let is_slash = is_code_exec(code, 47) || (self.is_special_url && is_code_exec(code, 92));
        // If c is the EOF code point or '/', url is special and c is '\',
        // or state override is not given and c is '?' or '#':
        if code.is_none() || is_code_exec(code, 47) || (self.is_special_url && is_code_exec(code, 92))
            || (!self.state_override && (is_code_exec(code, 63) || is_code_exec(code, 35))) {
            // If buffer is a double-dot path segment, then:
            if is_double_dot_path_segment(to_lowercase(self.buffer.as_str()).as_str()) {
                // Shorten url's path.
                self.shorten_url();
                // If neither c is '/', nor url is special and c is '\', append the empty string to url's path.
                if !is_slash {
                    push_segment(&mut self.url.path, String::new());
                }
            }
            // Otherwise, if buffer is a single-dot path segment and if neither c is '/',
            // nor url is special and c is '\', append the empty string to url's path.
            else if is_single_dot_path_segment(self.buffer.as_str()) && !is_slash {
                push_segment(&mut self.url.path, String::new());
            }
            // Otherwise, if buffer is not a single-dot path segment, then:
            else if !is_single_dot_path_segment(self.buffer.as_str()) {
                // If url's scheme is "file", url's path is empty, and buffer is a Windows drive letter,
                // then replace the second code point in buffer with U+003A (:).
                if str_eq(self.url.scheme.as_str(), "file") && self.url.path.len() == 0
                    && is_windows_drive_letter(self.buffer.as_str()) {
                    let mut letter = char_string(self.buffer.as_str().get_char(0));
                    push_char(&mut letter, ':');
                    self.buffer = letter;
                    proof {
                        assert(self.buffer@ =~= seq![m.buffer[0], ':']);
                    }
                }
                // Append buffer to url's path.
                push_segment(&mut self.url.path, self.buffer.clone());
            }
            // Set buffer to the empty string.
            self.buffer = String::new();
            // If c is U+003F (?), then set url's query to the empty string and state to query state.
            if is_code_exec(code, 63) {
                self.url.query = Some(String::new());
                self.state = State::Query;
            } else if is_code_exec(code, 35) {
                // If c is U+0023 (#), then set url's fragment to the empty string and state to fragment state.
                self.url.fragment = Some(String::new());
                self.state = State::Fragment;
            }
        }
        // Otherwise, percent-encode c with the path percent-encode set and append it to buffer.
        else {
            match char_at(self.input.as_str(), self.pointer as usize) {
                Some(c) => {
                    let encoded = utf8_percent_encode(char_string(c).as_str(), EncodeSet::Path);
                    self.buffer.append(encoded.as_str());
                },
                None => {},
            }
        }
        proof {
            assert(self@.url =~= path_step(m, code).0.url);
        }
        None
    }
}

} // verus!

verus! {

impl URLStateMachine {
    fn file_slash_state(&mut self, code: Option<char>) -> (r: Option<Code>)
        requires
            stepping(old(self)@),
        ensures
            (final(self)@, r) == file_slash_step(old(self)@, code),
    {
        let ghost m = self@;
        // If c is U+002F (/) or U+005C (\), then set state to file host state.
        if is_code_exec(code, 47) || is_code_exec(code, 92) {
            self.state = State::FileHost;
        }
        // Otherwise:
        else {
            // If base is non-null and base's scheme is "file", then:
            match self.base.as_ref() {
                Some(base) => {
                    if str_eq(base.scheme.as_str(), "file") {
                        // Set url's host to base's host.
                        self.url.host = clone_opt(&base.host);
                        // If the code point substring from pointer to the end of input does not start with a Windows drive
                        // letter and base's path[0] is a normalized Windows drive letter, then append base's path[0] to url's path.
                        if !starts_with_windows_drive_letter(
                            self.input.as_str(),
                            self.pointer as usize,
                        ) && base.path.len() > 0 && is_normalized_windows_drive_letter(
                            base.path[0].as_str(),
                        ) {
                            proof {
                                assert(views(base.path@)[0] == base.path@[0]@);
                            }
                            push_segment(&mut self.url.path, base.path[0].clone());
                        }
                    }
                },
                None => {},
            }
            // Set state to path state, and decrease pointer by 1.
            self.state = State::Path;
            self.pointer = self.pointer - 1;
        }
        proof {
            assert(self@.url =~= file_slash_step(m, code).0.url);
        }
        None
    }

    fn file_state(&mut self, code: Option<char>) -> (r: Option<Code>)
        requires
            stepping(old(self)@),
        ensures
            (final(self)@, r) == file_step(old(self)@, code),
    {
        let ghost m = self@;
        // Set url's scheme to "file".
        self.url.scheme = "file".to_owned();
        self.is_special_url = true;
        // Set url's host to the empty string.
        self.url.host = Some(String::new());
        // If c is U+002F (/) or U+005C (\), then set state to file slash state.
        if is_code_exec(code, 47) || is_code_exec(code, 92) {
            self.state = State::FileSlash;
        }
        // Otherwise, if base is non-null and base's scheme is "file":
        else if self.base.is_some() && str_eq(self.base.as_ref().unwrap().scheme.as_str(), "file") {
            let base = self.base.as_ref().unwrap();
            // Set url's host to base's host, url's path to a clone of base's path, and url's query to base's query.
            self.url.host = clone_opt(&base.host);
            self.url.path = clone_strings(&base.path);
            self.url.query = clone_opt(&base.query);
            // If c is U+003F (?), then set url's query to the empty string and state to query state.
            if is_code_exec(code, 63) {
                self.url.query = Some(String::new());
                self.state = State::Query;
            }
            // Otherwise, if c is U+0023 (#), set url's fragment to the empty string and state to fragment state.
            else if is_code_exec(code, 35) {
                self.url.fragment = Some(String::new());
                self.state = State::Fragment;
            }
            // Otherwise, if c is not the EOF code point:
            else if code.is_some() {
                // Set url's query to null.
                self.url.query = None;
                // If the code point substring from pointer to the end of input does not start with a Windows drive letter, then shorten url's path.
                if !starts_with_windows_drive_letter(self.input.as_str(), self.pointer as usize) {
                    self.shorten_url();
                }
                // Otherwise, set url's path to an empty list.
                else {
                    self.url.path = Vec::new();
                    proof {
                        assert(views(self.url.path@) =~= Seq::<Seq<char>>::empty());
                    }
                }
                // Set state to path state and decrease pointer by 1.
                self.state = State::Path;
                self.pointer = self.pointer - 1;
            }
        }
        // Otherwise, set state to path state, and decrease pointer by 1.
        else {
            self.state = State::Path;
            self.pointer = self.pointer - 1;
        }
        proof {
            reveal_strlit("file");
            assert(self@.url =~= file_step(m, code).0.url);
        }
        None
    }

    fn file_host_state(&mut self, code: Option<char>) -> (r: Option<Code>)
        requires
            stepping(old(self)@),
        ensures
            (final(self)@, r) == file_host_step(old(self)@, code),
    {
        let ghost m = self@;
        // If c is the EOF code point, U+002F (/), U+005C (\), U+003F (?), or U+0023 (#),
        // then decrease pointer by 1 and then:
        if !(code.is_none() || is_code_exec(code, 47) || is_code_exec(code, 92) || is_code_exec(
            code,
            63,
        ) || is_code_exec(code, 35)) {
            // Otherwise, append c to buffer.
            push_char(&mut self.buffer, code.unwrap());
        } else {
            self.pointer = self.pointer - 1;
            // If state override is not given and buffer is a Windows drive letter, validation error, set state to path state.
            if !self.state_override && is_windows_drive_letter(self.buffer.as_str()) {
                self.state = State::Path;
            }
            // Otherwise, if buffer is the empty string, then:
            else if self.buffer.as_str().unicode_len() == 0 {
                // Set url's host to the empty string.
                self.url.host = Some(String::new());
                // If state override is given, then return.
                if self.state_override {
                    return Some(Code::Exit);
                }
                // Set state to path start state.
                self.state = State::PathStart;
            }
            // Otherwise, run these steps:
            else {
                // Let host be the result of host parsing buffer with url is not special.
                let mut host = parse_host(self.buffer.clone(), !self.is_special_url);
                // If host is failure, then return failure.
                if host.as_str().unicode_len() == 0 {
                    return Some(Code::Failure);
                }
                // If host is "localhost", then set host to the empty string.
                if str_eq(host.as_str(), "localhost") {
                    host = String::new();
                }
                // Set url's host to host.
                self.url.host = Some(host);
                // If state override is given, then return.
                if self.state_override {
                    return Some(Code::Exit);
                }
                // Set buffer to the empty string and state to path start state.
                self.buffer = String::new();
                self.state = State::PathStart;
            }
        }
        None
    }
}

} // verus!

verus! {

impl URLStateMachine {
    fn step(&mut self, code: Option<char>) -> (r: Option<Code>)
        requires
            stepping(old(self)@),
            code == code_at(old(self)@),
            step_ok(old(self)@, code),
        ensures
            (final(self)@, r) == step(old(self)@, code),
    {
        reveal(step);
        reveal(step_ok);
        match self.state {
            State::Authority => self.authority_state(code),
            State::SchemeStart => self.scheme_start_state(code),
            State::Scheme => self.scheme_state(code),
            State::Host => self.host_state(code),
            State::NoScheme => self.no_scheme_state(code),
            State::Fragment => self.fragment_state(code),
            State::Relative => self.relative_state(code),
            State::RelativeSlash => self.relative_slash_state(code),
            State::File => self.file_state(code),
            State::FileHost => self.file_host_state(code),
            State::FileSlash => self.file_slash_state(code),
            State::PathOrAuthority => self.path_or_authority_state(code),
            State::SpecialAuthorityIgnoreSlashes => self.special_authority_ignore_slashes_state(code),
            State::SpecialAuthoritySlashes => self.special_authority_slashes_state(code),
            State::SpecialRelativeOrAuthority => self.special_relative_or_authority_state(code),
            State::Query => self.query_state(code),
            State::Path => self.path_state(code),
            State::PathStart => self.path_start_state(code),
            State::OpaquePath => self.opaque_path_state(code),
            State::Port => self.port_state(code),
        }
    }

    /// Whether the step at `code` runs without panicking.
    fn step_ok_exec(&self, code: Option<char>) -> (r: bool)
        requires
            stepping(self@),
            code == code_at(self@),
        ensures
            r == step_ok(self@, code),
    {
        reveal(step_ok);
        match self.state {
            State::Authority => {
                if !is_code_exec(code, 64) && self.ends_authority_exec(code) {
                    let blen = self.buffer.as_str().unicode_len();
                    if self.at_sign_seen && blen == 0 {
                        true
                    } else {
                        blen < 0x7FFF_FFFF && (self.pointer as i64) - (blen as i64 + 1)
                            >= -0x8000_0000i64
                    }
                } else {
                    true
                }
            },
            State::Relative => self.base.is_some(),
            State::RelativeSlash => (self.is_special_url && is_code_exec(code, 92))
                || is_code_exec(code, 47) || self.base.is_some(),
            _ => true,
        }
    }
}

} // verus!

verus! {

/// The input trimmed of C0 controls and spaces at both ends, without ASCII
/// tabs and newlines.
pub fn clean_input_exec(input: &str) -> (r: String)
    ensures
        r@ == clean_input(input@),
{
    let ghost s = input@;
    let n = input.unicode_len();
    let mut i: usize = 0;
    proof {
        assert(s.subrange(0, n as int) =~= s);
    }
    while i < n && input.get_char(i) <= ' '
        invariant
            n == s.len(),
            s == input@,
            i <= n,
            trim_start(s) == trim_start(s.subrange(i as int, n as int)),
        decreases n - i,
    {
        proof {
            assert(s.subrange(i as int, n as int).drop_first() =~= s.subrange(i + 1, n as int));
        }
        i = i + 1;
    }
    proof {
        assert(trim_start(s.subrange(i as int, n as int)) == s.subrange(i as int, n as int));
    }
    let mut j: usize = n;
    while j > i && input.get_char(j - 1) <= ' '
        invariant
            n == s.len(),
            s == input@,
            i <= j <= n,
            trim_end(trim_start(s)) == trim_end(s.subrange(i as int, j as int)),
        decreases j,
    {
        proof {
            assert(s.subrange(i as int, j as int).drop_last() =~= s.subrange(i as int, j - 1));
        }
        j = j - 1;
    }
    proof {
        assert(trim_end(s.subrange(i as int, j as int)) == s.subrange(i as int, j as int));
    }
    let ghost t = s.subrange(i as int, j as int);
    let mut out = String::new();
    let mut k: usize = i;
    proof {
        assert(t.subrange(0, 0) =~= Seq::<char>::empty());
    }
    while k < j
        invariant
            n == s.len(),
            s == input@,
            i <= k <= j <= n,
            t == s.subrange(i as int, j as int),
            out@ == remove_tab_newline(t.subrange(0, k - i)),
        decreases j - k,
    {
        let c = input.get_char(k);
        proof {
            assert(t.subrange(0, k - i + 1).drop_last() =~= t.subrange(0, k - i));
            assert(t.subrange(0, k - i + 1).last() == c);
        }
        if !(c == '\t' || c == '\n' || c == '\r') {
            push_char(&mut out, c);
        }
        k = k + 1;
    }
    proof {
        assert(t.subrange(0, j - i) =~= t);
    }
    out
}

impl URLStateMachine {
    /// Runs the machine to its end. Returns false, with nothing said of the
    /// machine, where a step of the run would panic.
    #[verifier::rlimit(60)]
    #[verifier::spinoff_prover]
    fn drive(&mut self) -> (ok: bool)
        requires
            code_count(old(self)@) + 2 <= i32::MAX,
            old(self)@.pointer == 0,
        ensures
            ok == run_ok(old(self)@, run_fuel(old(self)@.input.len() as int)),
            ok ==> final(self)@ == run(old(self)@, run_fuel(old(self)@.input.len() as int)),
    {
        let ghost m0 = self@;
        let ghost fuel0 = run_fuel(m0.input.len() as int);
        let ghost mut fuel: nat = fuel0;
        let n = self.input.as_str().unicode_len();
        let total: i32 = (n + 1) as i32;
        proof {
            lemma_initial_measure(m0);
        }
        while self.pointer < total
            invariant
                n == self@.input.len(),
                m0 == old(self)@,
                fuel0 == run_fuel(m0.input.len() as int),
                total == n + 1,
                self@.input == m0.input,
                code_count(self@) + 2 <= i32::MAX,
                fuel > measure(self@),
                run(m0, fuel0) == run(self@, fuel),
                run_ok(m0, fuel0) == run_ok(self@, fuel),
            decreases fuel,
        {
            proof {
                if self@.pointer >= 0 {
                    lemma_measure_decreases(self@, self@);
                }
            }
            if self.pointer < 0 {
                return false;
            }
            let code = if (self.pointer as usize) < n {
                Some(self.input.as_str().get_char(self.pointer as usize))
            } else {
                None
            };
            if !self.step_ok_exec(code) {
                return false;
            }
            let ghost before = self@;
            let result = self.step(code);
            proof {
                lemma_step_progress(before, code);
            }
            match result {
                Some(Code::Failure) => {
                    self.failure = true;
                    return true;
                },
                Some(Code::Exit) => {
                    return true;
                },
                None => {},
            }
            proof {
                lemma_measure_decreases(before, self@);
            }
            self.pointer = self.pointer + 1;
            proof {
                fuel = (fuel - 1) as nat;
            }
        }
        true
    }

    /// Parses `input` against an optional `base`, with an optional encoding
    /// and an optional state to start in (a state override).
    pub fn new(
        input: &str,
        base: Option<URL>,
        encoding_override: Option<String>,
        state_override: Option<State>,
    ) -> (r: URLStateMachine)
        requires
            parse_url_ok(input@, opt_url_view(base), opt_view(encoding_override), state_override),
        ensures
            r.failure == r@.failure,
            r.url@ == r@.url,
            r@ == spec_parse_url(
                input@,
                opt_url_view(base),
                opt_view(encoding_override),
                state_override,
            ),
    {
        let machine = Self::start(input, base, encoding_override, state_override);
        let mut machine = machine;
        let ok = machine.drive();
        machine
    }

    /// Parses `input` as `new` does, but returns `None` where `new` would
    /// panic: on an input too long for the `i32` pointer, or where a step
    /// of the run panics.
    pub fn parse(
        input: &str,
        base: Option<URL>,
        encoding_override: Option<String>,
        state_override: Option<State>,
    ) -> (r: Option<URLStateMachine>)
        ensures
            match r {
                Some(machine) => machine.failure == machine@.failure && machine.url@ == machine@.url
                    && parse_url_ok(
                    input@,
                    opt_url_view(base),
                    opt_view(encoding_override),
                    state_override,
                ) && machine@ == spec_parse_url(
                    input@,
                    opt_url_view(base),
                    opt_view(encoding_override),
                    state_override,
                ),
                None => !parse_url_ok(
                    input@,
                    opt_url_view(base),
                    opt_view(encoding_override),
                    state_override,
                ),
            },
    {
        let ghost m0 = initial_machine(
            input@,
            opt_url_view(base),
            opt_view(encoding_override),
            state_override,
        );
        let trimmed = clean_input_exec(input);
        if trimmed.as_str().unicode_len() > 0x7FFF_FFFC {
            return None;
        }
        let mut machine = Self::start(input, base, encoding_override, state_override);
        if machine.drive() {
            Some(machine)
        } else {
            None
        }
    }

    /// The machine before its first step.
    fn start(
        input: &str,
        base: Option<URL>,
        encoding_override: Option<String>,
        state_override: Option<State>,
    ) -> (r: URLStateMachine)
        ensures
            r@ == initial_machine(
                input@,
                opt_url_view(base),
                opt_view(encoding_override),
                state_override,
            ),
    {
        // Remove leading and trailing C0 controls and spaces, and all ASCII tabs and newlines.
        let trimmed_input = clean_input_exec(input);
        let machine = URLStateMachine {
            buffer: String::new(),
            at_sign_seen: false,
            inside_brackets: false,
            password_token_seen: false,
            pointer: 0,
            failure: false,
            state_override: state_override.is_some(),
            encoding_override: match encoding_override {
                Some(e) => e,
                None => "utf-8".to_owned(),
            },
            is_special_url: false,
            state: match state_override {
                Some(s) => s,
                None => State::SchemeStart,
            },
            base: base,
            url: URL::new(),
            input: trimmed_input,
        };
        machine
    }
}

} // verus!
