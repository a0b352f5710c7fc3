//! The `URL` object that JavaScript sees: the parts of a parsed URL as strings.

use vstd::prelude::*;
use vstd::string::*;
use crate::machine::URLStateMachine;
use crate::machine_spec::{opaque_text, parse_url_ok, spec_parse_url};
use crate::state::{is_special_scheme, special_scheme};
use crate::text::{push_char, str_eq};
use crate::url::{UrlView, URL as UrlRecord};

verus! {

pub struct URL {
    hash: String,
    host: String,
    hostname: String,
    href: String,
    origin: String,
    password: String,
    pathname: String,
    port: String,
    protocol: String,
    search: String,
}

/// The parts of a `URL` object.
pub struct UrlObjectView {
    pub hash: Seq<char>,
    pub host: Seq<char>,
    pub hostname: Seq<char>,
    pub href: Seq<char>,
    pub origin: Seq<char>,
    pub password: Seq<char>,
    pub pathname: Seq<char>,
    pub port: Seq<char>,
    pub protocol: Seq<char>,
    pub search: Seq<char>,
}

impl View for URL {
    type V = UrlObjectView;

    closed spec fn view(&self) -> UrlObjectView {
        UrlObjectView {
            hash: self.hash@,
            host: self.host@,
            hostname: self.hostname@,
            href: self.href@,
            origin: self.origin@,
            password: self.password@,
            pathname: self.pathname@,
            port: self.port@,
            protocol: self.protocol@,
            search: self.search@,
        }
    }
}

/// The parts of a URL that did not parse: all empty.
pub open spec fn empty_parts() -> UrlObjectView {
    UrlObjectView {
        hash: Seq::empty(),
        host: Seq::empty(),
        hostname: Seq::empty(),
        href: Seq::empty(),
        origin: Seq::empty(),
        password: Seq::empty(),
        pathname: Seq::empty(),
        port: Seq::empty(),
        protocol: Seq::empty(),
        search: Seq::empty(),
    }
}

/// A host as it is written: an IPv6 address (the only host that holds a
/// ':') in brackets, any other host as it is.
pub open spec fn host_text(h: Seq<char>) -> Seq<char> {
    if h.contains(':') {
        seq!['['] + h + seq![']']
    } else {
        h
    }
}

/// The host of a URL as it is written, or nothing.
pub open spec fn hostname_of(u: UrlView) -> Seq<char> {
    match u.host {
        Some(h) => host_text(h),
        None => Seq::empty(),
    }
}

/// The port of a URL, or nothing.
pub open spec fn port_of(u: UrlView) -> Seq<char> {
    match u.port {
        Some(p) => p,
        None => Seq::empty(),
    }
}

/// The host and, after a ':', the port of a URL.
pub open spec fn host_of(u: UrlView) -> Seq<char> {
    match u.port {
        Some(p) => hostname_of(u) + seq![':'] + p,
        None => hostname_of(u),
    }
}

/// A list of path segments, each written after a '/'.
pub open spec fn path_list_text(path: Seq<Seq<char>>) -> Seq<char>
    decreases path.len(),
{
    if path.len() == 0 {
        Seq::empty()
    } else {
        path_list_text(path.drop_last()) + seq!['/'] + path.last()
    }
}

/// The path of a URL as it is written.
pub open spec fn pathname_of(u: UrlView) -> Seq<char> {
    if u.opaque_path {
        opaque_text(u.path)
    } else {
        path_list_text(u.path)
    }
}

/// `c` and the text, where the text is present and not empty.
pub open spec fn marked(c: char, o: Option<Seq<char>>) -> Seq<char> {
    match o {
        Some(s) => if s.len() > 0 {
            seq![c] + s
        } else {
            Seq::empty()
        },
        None => Seq::empty(),
    }
}

/// `c` and the text, where the text is present.
pub open spec fn marked_always(c: char, o: Option<Seq<char>>) -> Seq<char> {
    match o {
        Some(s) => seq![c] + s,
        None => Seq::empty(),
    }
}

/// The credentials of a URL followed by '@', where there are any.
pub open spec fn credentials_of(u: UrlView) -> Seq<char> {
    if u.username.len() > 0 || u.password.len() > 0 {
        u.username + (if u.password.len() > 0 {
            seq![':'] + u.password
        } else {
            Seq::empty()
        }) + seq!['@']
    } else {
        Seq::empty()
    }
}

/// What comes between the scheme's ':' and the path.
pub open spec fn authority_of(u: UrlView) -> Seq<char> {
    if u.host is Some {
        seq!['/', '/'] + credentials_of(u) + host_of(u)
    } else if !u.opaque_path && u.path.len() > 1 && u.path[0].len() == 0 {
        seq!['/', '.']
    } else {
        Seq::empty()
    }
}

/// The serialization of a URL.
pub open spec fn href_of(u: UrlView) -> Seq<char> {
    u.scheme + seq![':'] + authority_of(u) + pathname_of(u) + marked_always('?', u.query)
        + marked_always('#', u.fragment)
}

/// The origin of a URL: scheme, "://" and host for a special scheme other
/// than "file", otherwise "null".
pub open spec fn origin_of(u: UrlView) -> Seq<char> {
    if special_scheme(u.scheme) is Some && u.scheme != seq!['f', 'i', 'l', 'e'] {
        u.scheme + seq![':', '/', '/'] + host_of(u)
    } else {
        seq!['n', 'u', 'l', 'l']
    }
}

/// The parts of a parsed URL.
pub open spec fn parts_of(u: UrlView) -> UrlObjectView {
    UrlObjectView {
        hash: marked('#', u.fragment),
        host: host_of(u),
        hostname: hostname_of(u),
        href: href_of(u),
        origin: origin_of(u),
        password: u.password,
        pathname: pathname_of(u),
        port: port_of(u),
        protocol: u.scheme + seq![':'],
        search: marked('?', u.query),
    }
}

/// The URL record that parsing `input` gives, or `None` where parsing
/// fails (or cannot run).
pub open spec fn parsed(input: Seq<char>, base: Option<UrlView>) -> Option<UrlView> {
    let m = spec_parse_url(input, base, None, None);
    if parse_url_ok(input, base, None, None) && !m.failure {
        Some(m.url)
    } else {
        None
    }
}

/// The URL record of `input` against the URL that `base` parses to, if a base is given.
pub open spec fn parsed_with_base(input: Seq<char>, base: Option<Seq<char>>) -> Option<UrlView> {
    match base {
        None => parsed(input, None),
        Some(b) => match parsed(b, None) {
            None => None,
            Some(bu) => parsed(input, Some(bu)),
        },
    }
}

fn parse_record(input: &str, base: Option<UrlRecord>) -> (r: Option<UrlRecord>)
    ensures
        match r {
            Some(u) => parsed(input@, crate::url::opt_url_view(base)) == Some(u@),
            None => parsed(input@, crate::url::opt_url_view(base)) is None,
        },
{
    match URLStateMachine::parse(input, base, None, None) {
        Some(machine) => if machine.failure {
            None
        } else {
            Some(machine.url)
        },
        None => None,
    }
}

fn append_char(s: &mut String, c: char)
    ensures
        final(s)@ == old(s)@.push(c),
{
    push_char(s, c);
}

fn host_text_exec(h: &str) -> (r: String)
    ensures
        r@ == host_text(h@),
{
    let n = h.unicode_len();
    let mut i: usize = 0;
    while i < n
        invariant
            n == h@.len(),
            i <= n,
            forall|j: int| 0 <= j < i ==> h@[j] != ':',
        decreases n - i,
    {
        if h.get_char(i) == ':' {
            let mut r = String::new();
            append_char(&mut r, '[');
            r.append(h);
            append_char(&mut r, ']');
            proof {
                assert(h@.contains(':')) by {
                    assert(h@[i as int] == ':');
                }
                assert(r@ =~= seq!['['] + h@ + seq![']']);
            }
            return r;
        }
        i = i + 1;
    }
    proof {
        if h@.contains(':') {
            let k = choose|k: int| 0 <= k < h@.len() && h@[k] == ':';
            assert(h@[k] != ':');
        }
    }
    h.to_owned()
}

fn marked_exec(c: char, o: &Option<String>, always: bool) -> (r: String)
    ensures
        always ==> r@ == marked_always(c, crate::url::opt_view(*o)),
        !always ==> r@ == marked(c, crate::url::opt_view(*o)),
{
    let mut r = String::new();
    match o {
        Some(s) => {
            if always || s.as_str().unicode_len() > 0 {
                append_char(&mut r, c);
                r.append(s.as_str());
            }
        },
        None => {},
    }
    proof {
        assert(r@ =~= (if always {
            marked_always(c, crate::url::opt_view(*o))
        } else {
            marked(c, crate::url::opt_view(*o))
        }));
    }
    r
}

fn pathname_exec(u: &UrlRecord) -> (r: String)
    ensures
        r@ == pathname_of(u@),
{
    if u.opaque_path {
        if u.path.len() > 0 {
            proof {
                assert(crate::text::views(u.path@)[0] == u.path@[0]@);
            }
            return u.path[0].clone();
        }
        return String::new();
    }
    let ghost p = u@.path;
    let mut r = String::new();
    let mut i: usize = 0;
    proof {
        assert(p.take(0) =~= Seq::<Seq<char>>::empty());
    }
    while i < u.path.len()
        invariant
            p == u@.path,
            p.len() == u.path@.len(),
            i <= p.len(),
            r@ == path_list_text(p.take(i as int)),
        decreases u.path.len() - i,
    {
        append_char(&mut r, '/');
        r.append(u.path[i].as_str());
        proof {
            assert(crate::text::views(u.path@)[i as int] == u.path@[i as int]@);
            assert(p.take(i + 1).drop_last() =~= p.take(i as int));
            assert(r@ =~= path_list_text(p.take(i + 1)));
        }
        i = i + 1;
    }
    proof {
        assert(p.take(p.len() as int) =~= p);
    }
    r
}

fn host_exec(u: &UrlRecord) -> (r: (String, String, String))
    ensures
        r.0@ == hostname_of(u@),
        r.1@ == host_of(u@),
        r.2@ == port_of(u@),
{
    let hostname = match &u.host {
        Some(h) => host_text_exec(h.as_str()),
        None => String::new(),
    };
    let mut host = hostname.clone();
    let port = match &u.port {
        Some(p) => {
            append_char(&mut host, ':');
            host.append(p.as_str());
            p.clone()
        },
        None => String::new(),
    };
    proof {
        assert(host@ =~= host_of(u@));
    }
    (hostname, host, port)
}

fn parts_exec(u: &UrlRecord) -> (r: URL)
    ensures
        r@ == parts_of(u@),
{
    let (hostname, host, port) = host_exec(u);
    let pathname = pathname_exec(u);
    let mut protocol = u.scheme.clone();
    append_char(&mut protocol, ':');
    proof {
        assert(protocol@ =~= u@.scheme + seq![':']);
    }
    let mut authority = String::new();
    if u.host.is_some() {
        append_char(&mut authority, '/');
        append_char(&mut authority, '/');
        let ul = u.username.as_str().unicode_len();
        let pl = u.password.as_str().unicode_len();
        if ul > 0 || pl > 0 {
            authority.append(u.username.as_str());
            if pl > 0 {
                append_char(&mut authority, ':');
                authority.append(u.password.as_str());
            }
            append_char(&mut authority, '@');
        }
        authority.append(host.as_str());
    } else if !u.opaque_path && u.path.len() > 1 && u.path[0].as_str().unicode_len() == 0 {
        append_char(&mut authority, '/');
        append_char(&mut authority, '.');
    }
    proof {
        assert(crate::text::views(u.path@).len() == u.path@.len());
        if u.path@.len() > 0 {
            assert(crate::text::views(u.path@)[0] == u.path@[0]@);
        }
        assert(authority@ =~= authority_of(u@));
    }
    let mut href = protocol.clone();
    href.append(authority.as_str());
    href.append(pathname.as_str());
    href.append(marked_exec('?', &u.query, true).as_str());
    href.append(marked_exec('#', &u.fragment, true).as_str());
    let mut origin = String::new();
    if is_special_scheme(u.scheme.as_str()) && !str_eq(u.scheme.as_str(), "file") {
        origin.append(u.scheme.as_str());
        append_char(&mut origin, ':');
        append_char(&mut origin, '/');
        append_char(&mut origin, '/');
        origin.append(host.as_str());
    } else {
        append_char(&mut origin, 'n');
        append_char(&mut origin, 'u');
        append_char(&mut origin, 'l');
        append_char(&mut origin, 'l');
    }
    proof {
        reveal_strlit("file");
        assert("file"@ =~= seq!['f', 'i', 'l', 'e']);
        assert(href@ =~= href_of(u@));
        assert(origin@ =~= origin_of(u@));
    }
    let r = URL {
        hash: marked_exec('#', &u.fragment, false),
        host: host,
        hostname: hostname,
        href: href,
        origin: origin,
        password: u.password.clone(),
        pathname: pathname,
        port: port,
        protocol: protocol,
        search: marked_exec('?', &u.query, false),
    };
    proof {
        assert(r@ =~= parts_of(u@));
    }
    r
}

impl URL {
    /// Parses `url`, against `base` where one is given, and holds the parts
    /// of the result; every part is empty where parsing fails.
    pub fn new(url: String, base: Option<String>) -> (r: URL)
        ensures
            r@ == match parsed_with_base(url@, crate::url::opt_view(base)) {
                Some(u) => parts_of(u),
                None => empty_parts(),
            },
    {
        let base_record = match base {
            None => None,
            Some(b) => match parse_record(b.as_str(), None) {
                None => {
                    return URL::empty();
                },
                Some(u) => Some(u),
            },
        };
        match parse_record(url.as_str(), base_record) {
            Some(u) => parts_exec(&u),
            None => URL::empty(),
        }
    }

    fn empty() -> (r: URL)
        ensures
            r@ == empty_parts(),
    {
        let r = URL {
            hash: String::new(),
            host: String::new(),
            hostname: String::new(),
            href: String::new(),
            origin: String::new(),
            password: String::new(),
            pathname: String::new(),
            port: String::new(),
            protocol: String::new(),
            search: String::new(),
        };
        proof {
            assert(r@ =~= empty_parts());
        }
        r
    }

    pub fn get_hash(&self) -> (r: String)
        ensures
            r@ == self@.hash,
    {
        self.hash.clone()
    }

    pub fn get_host(&self) -> (r: String)
        ensures
            r@ == self@.host,
    {
        self.host.clone()
    }

    pub fn get_hostname(&self) -> (r: String)
        ensures
            r@ == self@.hostname,
    {
        self.hostname.clone()
    }

    pub fn get_href(&self) -> (r: String)
        ensures
            r@ == self@.href,
    {
        self.href.clone()
    }

    pub fn get_origin(&self) -> (r: String)
        ensures
            r@ == self@.origin,
    {
        self.origin.clone()
    }

    pub fn get_password(&self) -> (r: String)
        ensures
            r@ == self@.password,
    {
        self.password.clone()
    }

    pub fn get_pathname(&self) -> (r: String)
        ensures
            r@ == self@.pathname,
    {
        self.pathname.clone()
    }

    pub fn get_port(&self) -> (r: String)
        ensures
            r@ == self@.port,
    {
        self.port.clone()
    }

    pub fn get_protocol(&self) -> (r: String)
        ensures
            r@ == self@.protocol,
    {
        self.protocol.clone()
    }

    pub fn get_search(&self) -> (r: String)
        ensures
            r@ == self@.search,
    {
        self.search.clone()
    }
}

} // verus!
