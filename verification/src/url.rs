//! The URL record that the parser fills in.

use vstd::prelude::*;
use crate::text::views;

verus! {

/// A URL record: scheme, credentials, host, port, path, query and fragment.
/// A URL with an opaque path holds that path as the one item of `path`,
/// with `opaque_path` set.
#[derive(Debug)]
pub struct URL {
    pub scheme: String,
    pub username: String,
    pub password: String,
    pub host: Option<String>,
    pub port: Option<String>,
    pub path: Vec<String>,
    pub opaque_path: bool,
    pub query: Option<String>,
    pub fragment: Option<String>,
}

/// The code points of an optional string.
pub open spec fn opt_view(o: Option<String>) -> Option<Seq<char>> {
    match o {
        Some(s) => Some(s@),
        None => None,
    }
}

/// A URL record as code point sequences.
pub struct UrlView {
    pub scheme: Seq<char>,
    pub username: Seq<char>,
    pub password: Seq<char>,
    pub host: Option<Seq<char>>,
    pub port: Option<Seq<char>>,
    pub path: Seq<Seq<char>>,
    pub opaque_path: bool,
    pub query: Option<Seq<char>>,
    pub fragment: Option<Seq<char>>,
}

impl View for URL {
    type V = UrlView;

    open spec fn view(&self) -> UrlView {
        UrlView {
            scheme: self.scheme@,
            username: self.username@,
            password: self.password@,
            host: opt_view(self.host),
            port: opt_view(self.port),
            path: views(self.path@),
            opaque_path: self.opaque_path,
            query: opt_view(self.query),
            fragment: opt_view(self.fragment),
        }
    }
}

/// The empty URL record: empty scheme and credentials, no host, port,
/// query or fragment, and an empty path.
pub open spec fn empty_url() -> UrlView {
    UrlView {
        scheme: Seq::empty(),
        username: Seq::empty(),
        password: Seq::empty(),
        host: None,
        port: None,
        path: Seq::empty(),
        opaque_path: false,
        query: None,
        fragment: None,
    }
}

/// The optional views of an optional URL.
pub open spec fn opt_url_view(o: Option<URL>) -> Option<UrlView> {
    match o {
        Some(u) => Some(u@),
        None => None,
    }
}

/// A copy of an optional string.
pub fn clone_opt(o: &Option<String>) -> (r: Option<String>)
    ensures
        opt_view(r) == opt_view(*o),
{
    match o {
        Some(s) => Some(s.clone()),
        None => None,
    }
}

/// A copy of a list of strings.
pub fn clone_strings(v: &Vec<String>) -> (r: Vec<String>)
    ensures
        views(r@) == views(v@),
{
    let mut r: Vec<String> = Vec::new();
    let mut i: usize = 0;
    while i < v.len()
        invariant
            i <= v@.len(),
            r@.len() == i,
            forall|j: int| 0 <= j < i ==> #[trigger] r@[j]@ == v@[j]@,
        decreases v.len() - i,
    {
        r.push(v[i].clone());
        i = i + 1;
    }
    proof {
        assert(views(r@) =~= views(v@));
    }
    r
}

impl URL {
    pub fn new() -> (r: Self)
        ensures
            r@ == empty_url(),
    {
        let r = URL {
            scheme: String::new(),
            username: String::new(),
            password: String::new(),
            host: None,
            port: None,
            path: Vec::new(),
            opaque_path: false,
            query: None,
            fragment: None,
        };
        proof {
            assert(r@.path =~= Seq::<Seq<char>>::empty());
        }
        r
    }

    /// A copy of this URL record.
    pub fn copy(&self) -> (r: Self)
        ensures
            r@ == self@,
    {
        URL {
            scheme: self.scheme.clone(),
            username: self.username.clone(),
            password: self.password.clone(),
            host: clone_opt(&self.host),
            port: clone_opt(&self.port),
            path: clone_strings(&self.path),
            opaque_path: self.opaque_path,
            query: clone_opt(&self.query),
            fragment: clone_opt(&self.fragment),
        }
    }
}

impl Clone for URL {
    fn clone(&self) -> (r: Self)
        ensures
            r@ == self@,
    {
        self.copy()
    }
}

impl Default for URL {
    fn default() -> (r: Self)
        ensures
            r@ == empty_url(),
    {
        URL::new()
    }
}

} // verus!
