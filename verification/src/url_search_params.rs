//! `URLSearchParams`: an ordered list of name/value pairs, as a query
//! string holds them.

use vstd::prelude::*;
use vstd::string::*;
use crate::text::{char_at, push_char, split_char, split_on, str_eq, substring_from, views};

verus! {

/// A name/value pair as code point sequences.
pub type PairView = (Seq<char>, Seq<char>);

/// The code points of a list of pairs.
pub open spec fn pair_views(v: Seq<(String, String)>) -> Seq<PairView> {
    v.map_values(|p: (String, String)| (p.0@, p.1@))
}

pub struct URLSearchParams {
    params: Vec<(String, String)>,
}

impl View for URLSearchParams {
    type V = Seq<PairView>;

    closed spec fn view(&self) -> Seq<PairView> {
        pair_views(self.params@)
    }
}

/// The pairs whose name is not `name`, in order.
pub open spec fn without_name(ps: Seq<PairView>, name: Seq<char>) -> Seq<PairView>
    decreases ps.len(),
{
    if ps.len() == 0 {
        ps
    } else if ps.last().0 == name {
        without_name(ps.drop_last(), name)
    } else {
        without_name(ps.drop_last(), name).push(ps.last())
    }
}

/// The pairs whose name is `name`, in order.
pub open spec fn with_name(ps: Seq<PairView>, name: Seq<char>) -> Seq<PairView>
    decreases ps.len(),
{
    if ps.len() == 0 {
        ps
    } else if ps.last().0 == name {
        with_name(ps.drop_last(), name).push(ps.last())
    } else {
        with_name(ps.drop_last(), name)
    }
}

/// The values of the pairs named `name`, in order.
pub open spec fn values_named(ps: Seq<PairView>, name: Seq<char>) -> Seq<Seq<char>> {
    with_name(ps, name).map_values(|p: PairView| p.1)
}

/// The value of the first pair named `name`.
pub open spec fn first_value(ps: Seq<PairView>, name: Seq<char>) -> Option<Seq<char>> {
    let named = with_name(ps, name);
    if named.len() == 0 {
        None
    } else {
        Some(named[0].1)
    }
}

/// Some pair is named `name`.
pub open spec fn has_name(ps: Seq<PairView>, name: Seq<char>) -> bool {
    exists|i: int| 0 <= i < ps.len() && #[trigger] ps[i].0 == name
}

/// `k` is the index of the first pair named `name`.
pub open spec fn is_first_named(ps: Seq<PairView>, name: Seq<char>, k: int) -> bool {
    &&& 0 <= k < ps.len()
    &&& ps[k].0 == name
    &&& forall|j: int| 0 <= j < k ==> #[trigger] ps[j].0 != name
}

/// The pairs after setting `name` to `value`: the first pair of that name
/// takes the value and keeps its place, the later pairs of that name go; a
/// name that no pair has is appended with the value.
pub open spec fn set_pairs(ps: Seq<PairView>, name: Seq<char>, value: Seq<char>) -> Seq<PairView> {
    if has_name(ps, name) {
        let k = choose|k: int| is_first_named(ps, name, k);
        ps.take(k).push((name, value)) + without_name(ps.skip(k + 1), name)
    } else {
        ps.push((name, value))
    }
}

/// The names in `ns` other than `name`, in order.
pub open spec fn other_names(ns: Seq<Seq<char>>, name: Seq<char>) -> Seq<Seq<char>>
    decreases ns.len(),
{
    if ns.len() == 0 {
        ns
    } else if ns.last() == name {
        other_names(ns.drop_last(), name)
    } else {
        other_names(ns.drop_last(), name).push(ns.last())
    }
}

/// The names of the pairs, each once, the name of a later pair before that
/// of an earlier one.
pub open spec fn recent_names(ps: Seq<PairView>) -> Seq<Seq<char>>
    decreases ps.len(),
{
    if ps.len() == 0 {
        Seq::empty()
    } else {
        seq![ps.last().0] + other_names(recent_names(ps.drop_last()), ps.last().0)
    }
}

/// The pairs written "name=value" and joined with "&".
pub open spec fn serialize_pairs(ps: Seq<PairView>) -> Seq<char>
    decreases ps.len(),
{
    if ps.len() == 0 {
        Seq::empty()
    } else {
        let head = serialize_pairs(ps.drop_last());
        let sep = if ps.len() > 1 {
            "&"@
        } else {
            Seq::empty()
        };
        head + sep + ps.last().0 + "="@ + ps.last().1
    }
}

/// `a` comes before `b` or equals it, code point by code point.
pub open spec fn name_le(a: Seq<char>, b: Seq<char>) -> bool
    decreases a.len(),
{
    if a.len() == 0 {
        true
    } else if b.len() == 0 {
        false
    } else if a[0] != b[0] {
        a[0] < b[0]
    } else {
        name_le(a.drop_first(), b.drop_first())
    }
}

/// The pairs are in order of their names.
pub open spec fn sorted_by_name(ps: Seq<PairView>) -> bool {
    forall|i: int, j: int| 0 <= i < j < ps.len() ==> name_le(#[trigger] ps[i].0, #[trigger] ps[j].0)
}

/// `r` is `ps` sorted by name, pairs of one name keeping their order.
pub open spec fn is_stable_sort_by_name(ps: Seq<PairView>, r: Seq<PairView>) -> bool {
    &&& r.len() == ps.len()
    &&& sorted_by_name(r)
    &&& forall|name: Seq<char>| #[trigger] with_name(r, name) == with_name(ps, name)
}

/// The pairs of a query string: the string without a leading '?', split on
/// '&'; each part split on '=' gives a pair of its first two pieces, if it has two.
pub open spec fn query_pairs(parts: Seq<Seq<char>>) -> Seq<PairView>
    decreases parts.len(),
{
    if parts.len() == 0 {
        Seq::empty()
    } else {
        let rest = query_pairs(parts.drop_last());
        let kv = split_on(parts.last(), '=');
        if kv.len() >= 2 {
            rest.push((kv[0], kv[1]))
        } else {
            rest
        }
    }
}

/// A query string without its leading '?'.
pub open spec fn strip_question_mark(s: Seq<char>) -> Seq<char> {
    if s.len() > 0 && s[0] == '?' {
        s.subrange(1, s.len() as int)
    } else {
        s
    }
}

/// The pairs of a query string.
pub open spec fn parse_query(s: Seq<char>) -> Seq<PairView> {
    query_pairs(split_on(strip_question_mark(s), '&'))
}

/// The pairs of a list of entries: the first two items of each entry that has two.
pub open spec fn entry_pairs(entries: Seq<Seq<Seq<char>>>) -> Seq<PairView>
    decreases entries.len(),
{
    if entries.len() == 0 {
        Seq::empty()
    } else {
        let rest = entry_pairs(entries.drop_last());
        let e = entries.last();
        if e.len() >= 2 {
            rest.push((e[0], e[1]))
        } else {
            rest
        }
    }
}

/// The views of a list of lists of strings.
pub open spec fn nested_views(v: Seq<Vec<String>>) -> Seq<Seq<Seq<char>>> {
    v.map_values(|e: Vec<String>| views(e@))
}

fn clone_pair(p: &(String, String)) -> (r: (String, String))
    ensures
        r.0@ == p.0@,
        r.1@ == p.1@,
{
    (p.0.clone(), p.1.clone())
}

} // verus!

verus! {

pub proof fn lemma_with_name_push(ps: Seq<PairView>, p: PairView, name: Seq<char>)
    ensures
        with_name(ps.push(p), name) == if p.0 == name {
            with_name(ps, name).push(p)
        } else {
            with_name(ps, name)
        },
        without_name(ps.push(p), name) == if p.0 == name {
            without_name(ps, name)
        } else {
            without_name(ps, name).push(p)
        },
{
    assert(ps.push(p).drop_last() =~= ps);
}

pub proof fn lemma_with_name_concat(a: Seq<PairView>, b: Seq<PairView>, name: Seq<char>)
    ensures
        with_name(a + b, name) == with_name(a, name) + with_name(b, name),
    decreases b.len(),
{
    if b.len() == 0 {
        assert(a + b =~= a);
        assert(with_name(a, name) + with_name(b, name) =~= with_name(a, name));
    } else {
        lemma_with_name_concat(a, b.drop_last(), name);
        assert((a + b).drop_last() =~= a + b.drop_last());
        if b.last().0 == name {
            assert(with_name(a, name) + with_name(b, name) =~= (with_name(a, name) + with_name(
                b.drop_last(),
                name,
            )).push(b.last()));
        }
    }
}

pub proof fn lemma_has_name(ps: Seq<PairView>, name: Seq<char>)
    ensures
        has_name(ps, name) <==> with_name(ps, name).len() > 0,
    decreases ps.len(),
{
    if ps.len() > 0 {
        lemma_has_name(ps.drop_last(), name);
        if has_name(ps, name) && ps.last().0 != name {
            let i = choose|i: int| 0 <= i < ps.len() && #[trigger] ps[i].0 == name;
            assert(ps.drop_last()[i].0 == name);
        }
        if has_name(ps.drop_last(), name) {
            let i = choose|i: int| 0 <= i < ps.drop_last().len() && #[trigger] ps.drop_last()[i].0 == name;
            assert(ps[i].0 == name);
        }
        if ps.last().0 == name {
            assert(ps[ps.len() - 1].0 == name);
        }
    }
}

impl URLSearchParams {
    /// Create a new URLSearchParams instance: empty, or with the pairs of a
    /// query string (a leading '?' dropped; pairs separated by '&'; each
    /// part that holds an '=' gives the pieces before and after its first '=',
    /// up to a next '=').
    pub fn new(init: Option<String>) -> (r: URLSearchParams)
        ensures
            r@ == match init {
                None => Seq::<PairView>::empty(),
                Some(s) => parse_query(s@),
            },
    {
        let mut params: Vec<(String, String)> = Vec::new();
        match init {
            None => {
                proof {
                    assert(pair_views(params@) =~= Seq::<PairView>::empty());
                }
            },
            Some(value) => {
                let stripped = if char_at(value.as_str(), 0) == Some('?') {
                    substring_from(value.as_str(), 1)
                } else {
                    value
                };
                let parts = split_char(stripped.as_str(), '&');
                let ghost ps = split_on(strip_question_mark(value@), '&');
                proof {
                    assert(views(parts@) == ps);
                    assert(ps.subrange(0, 0) =~= Seq::<Seq<char>>::empty());
                    assert(pair_views(params@) =~= Seq::<PairView>::empty());
                }
                let mut i: usize = 0;
                while i < parts.len()
                    invariant
                        views(parts@) == ps,
                        i <= parts@.len(),
                        pair_views(params@) == query_pairs(ps.subrange(0, i as int)),
                    decreases parts.len() - i,
                {
                    let kv = split_char(parts[i].as_str(), '=');
                    proof {
                        assert(ps.subrange(0, i + 1).drop_last() =~= ps.subrange(0, i as int));
                        assert(ps.subrange(0, i + 1).last() == parts@[i as int]@);
                    }
                    if kv.len() >= 2 {
                        let ghost before = pair_views(params@);
                        params.push((kv[0].clone(), kv[1].clone()));
                        proof {
                            assert(views(kv@)[0] == kv@[0]@);
                            assert(views(kv@)[1] == kv@[1]@);
                            assert(pair_views(params@) =~= before.push((kv@[0]@, kv@[1]@)));
                        }
                    }
                    i = i + 1;
                }
                proof {
                    assert(ps.subrange(0, parts@.len() as int) =~= ps);
                }
            },
        }
        URLSearchParams { params }
    }

    /// A URLSearchParams of the first two items of each entry that has at least two.
    pub fn from_pairs(entries: Vec<Vec<String>>) -> (r: URLSearchParams)
        ensures
            r@ == entry_pairs(nested_views(entries@)),
    {
        let ghost es = nested_views(entries@);
        let mut params: Vec<(String, String)> = Vec::new();
        let mut i: usize = 0;
        proof {
            assert(es.subrange(0, 0) =~= Seq::<Seq<Seq<char>>>::empty());
            assert(pair_views(params@) =~= Seq::<PairView>::empty());
        }
        while i < entries.len()
            invariant
                es == nested_views(entries@),
                i <= entries@.len(),
                pair_views(params@) == entry_pairs(es.subrange(0, i as int)),
            decreases entries.len() - i,
        {
            proof {
                assert(es.subrange(0, i + 1).drop_last() =~= es.subrange(0, i as int));
                assert(es.subrange(0, i + 1).last() == views(entries@[i as int]@));
            }
            if entries[i].len() >= 2 {
                let ghost before = pair_views(params@);
                params.push((entries[i][0].clone(), entries[i][1].clone()));
                proof {
                    let e = entries@[i as int];
                    assert(views(e@)[0] == e@[0]@);
                    assert(views(e@)[1] == e@[1]@);
                    assert(pair_views(params@) =~= before.push((e@[0]@, e@[1]@)));
                }
            }
            i = i + 1;
        }
        proof {
            assert(es.subrange(0, entries@.len() as int) =~= es);
        }
        URLSearchParams { params }
    }

    /// Appends a specified key-value pair as a new search parameter.
    pub fn append(&mut self, name: String, value: String)
        ensures
            final(self)@ == old(self)@.push((name@, value@)),
    {
        let ghost nv = name@;
        let ghost vv = value@;
        self.params.push((name, value));
        proof {
            assert(pair_views(self.params@) =~= pair_views(old(self).params@).push((nv, vv)));
        }
    }

    /// The key/value pairs, in the same order as they appear in the query string.
    pub fn entries(&self) -> (r: Vec<(String, String)>)
        ensures
            pair_views(r@) == self@,
    {
        let mut r: Vec<(String, String)> = Vec::new();
        let mut i: usize = 0;
        while i < self.params.len()
            invariant
                i <= self.params@.len(),
                r@.len() == i,
                forall|j: int|
                    0 <= j < i ==> (#[trigger] r@[j]).0@ == self.params@[j].0@ && r@[j].1@
                        == self.params@[j].1@,
            decreases self.params.len() - i,
        {
            r.push(clone_pair(&self.params[i]));
            i = i + 1;
        }
        proof {
            assert(pair_views(r@) =~= pair_views(self.params@));
        }
        r
    }

    /// Deletes the given search parameter and all its associated values from the list
    /// of all search parameters.
    pub fn delete(&mut self, name: String)
        ensures
            final(self)@ == without_name(old(self)@, name@),
    {
        let ghost old_ps = self@;
        let mut kept: Vec<(String, String)> = Vec::new();
        let mut i: usize = 0;
        proof {
            assert(old_ps.subrange(0, 0) =~= Seq::<PairView>::empty());
            assert(pair_views(kept@) =~= Seq::<PairView>::empty());
        }
        while i < self.params.len()
            invariant
                old_ps == pair_views(self.params@),
                i <= self.params@.len(),
                pair_views(kept@) == without_name(old_ps.subrange(0, i as int), name@),
            decreases self.params.len() - i,
        {
            proof {
                assert(old_ps.subrange(0, i + 1) =~= old_ps.subrange(0, i as int).push(old_ps[i as int]));
                lemma_with_name_push(old_ps.subrange(0, i as int), old_ps[i as int], name@);
            }
            if !str_eq(self.params[i].0.as_str(), name.as_str()) {
                let ghost before = pair_views(kept@);
                kept.push(clone_pair(&self.params[i]));
                proof {
                    assert(pair_views(kept@) =~= before.push(old_ps[i as int]));
                }
            }
            i = i + 1;
        }
        proof {
            assert(old_ps.subrange(0, old_ps.len() as int) =~= old_ps);
        }
        self.params = kept;
    }

    /// Returns a string if the given search parameter is found; otherwise `null`.
    pub fn get(&self, name: String) -> (r: Option<String>)
        ensures
            crate::url::opt_view(r) == first_value(self@, name@),
    {
        let ghost ps = self@;
        let mut i: usize = 0;
        proof {
            assert(ps.subrange(0, 0) =~= Seq::<PairView>::empty());
        }
        while i < self.params.len()
            invariant
                ps == pair_views(self.params@),
                i <= self.params@.len(),
                with_name(ps.subrange(0, i as int), name@).len() == 0,
            decreases self.params.len() - i,
        {
            proof {
                assert(ps.subrange(0, i + 1) =~= ps.subrange(0, i as int).push(ps[i as int]));
                lemma_with_name_push(ps.subrange(0, i as int), ps[i as int], name@);
            }
            if str_eq(self.params[i].0.as_str(), name.as_str()) {
                proof {
                    lemma_with_name_concat(ps.subrange(0, i + 1), ps.subrange(i + 1, ps.len() as int), name@);
                    assert(ps.subrange(0, i + 1) + ps.subrange(i + 1, ps.len() as int) =~= ps);
                    assert(with_name(ps.subrange(0, i + 1), name@) =~= seq![ps[i as int]]);
                }
                return Some(self.params[i].1.clone());
            }
            i = i + 1;
        }
        proof {
            assert(ps.subrange(0, ps.len() as int) =~= ps);
        }
        None
    }

    /// Returns all the values associated with a given search parameter, in order.
    pub fn get_all(&self, name: String) -> (r: Vec<String>)
        ensures
            views(r@) == values_named(self@, name@),
    {
        let ghost ps = self@;
        let mut r: Vec<String> = Vec::new();
        let mut i: usize = 0;
        proof {
            assert(ps.subrange(0, 0) =~= Seq::<PairView>::empty());
            assert(views(r@) =~= values_named(ps.subrange(0, 0), name@));
        }
        while i < self.params.len()
            invariant
                ps == pair_views(self.params@),
                i <= self.params@.len(),
                views(r@) == values_named(ps.subrange(0, i as int), name@),
            decreases self.params.len() - i,
        {
            proof {
                assert(ps.subrange(0, i + 1) =~= ps.subrange(0, i as int).push(ps[i as int]));
                lemma_with_name_push(ps.subrange(0, i as int), ps[i as int], name@);
            }
            if str_eq(self.params[i].0.as_str(), name.as_str()) {
                let ghost before = views(r@);
                r.push(self.params[i].1.clone());
                proof {
                    assert(views(r@) =~= before.push(ps[i as int].1));
                    assert(values_named(ps.subrange(0, i + 1), name@) =~= values_named(
                        ps.subrange(0, i as int),
                        name@,
                    ).push(ps[i as int].1));
                }
            } else {
                proof {
                    assert(values_named(ps.subrange(0, i + 1), name@) =~= values_named(
                        ps.subrange(0, i as int),
                        name@,
                    ));
                }
            }
            i = i + 1;
        }
        proof {
            assert(ps.subrange(0, ps.len() as int) =~= ps);
        }
        r
    }

    /// Returns a boolean value that indicates whether a parameter with the specified name exists.
    pub fn has(&self, name: String) -> (r: bool)
        ensures
            r == has_name(self@, name@),
    {
        let ghost ps = self@;
        let mut i: usize = 0;
        while i < self.params.len()
            invariant
                ps == pair_views(self.params@),
                i <= self.params@.len(),
                forall|j: int| 0 <= j < i ==> #[trigger] ps[j].0 != name@,
            decreases self.params.len() - i,
        {
            if str_eq(self.params[i].0.as_str(), name.as_str()) {
                proof {
                    assert(ps[i as int].0 == name@);
                }
                return true;
            }
            i = i + 1;
        }
        false
    }

    /// Returns the keys, each once: the key of a later pair comes before
    /// that of an earlier one.
    pub fn keys(&self) -> (r: Vec<String>)
        ensures
            views(r@) == recent_names(self@),
    {
        let ghost ps = self@;
        let mut r: Vec<String> = Vec::new();
        let mut i: usize = 0;
        proof {
            assert(ps.take(0) =~= Seq::<PairView>::empty());
            assert(views(r@) =~= Seq::<Seq<char>>::empty());
        }
        while i < self.params.len()
            invariant
                ps == pair_views(self.params@),
                i <= self.params@.len(),
                views(r@) == recent_names(ps.take(i as int)),
            decreases self.params.len() - i,
        {
            let name = &self.params[i].0;
            let mut next: Vec<String> = Vec::new();
            next.push(name.clone());
            let mut j: usize = 0;
            proof {
                assert(views(r@).take(0) =~= Seq::<Seq<char>>::empty());
                assert(views(next@) =~= seq![name@] + other_names(views(r@).take(0), name@));
            }
            while j < r.len()
                invariant
                    j <= r@.len(),
                    views(next@) == seq![name@] + other_names(views(r@).take(j as int), name@),
                decreases r.len() - j,
            {
                proof {
                    assert(views(r@).take(j + 1) =~= views(r@).take(j as int).push(r@[j as int]@));
                    assert(views(r@).take(j + 1).drop_last() =~= views(r@).take(j as int));
                }
                if !str_eq(r[j].as_str(), name.as_str()) {
                    let ghost before = views(next@);
                    next.push(r[j].clone());
                    proof {
                        assert(views(next@) =~= before.push(r@[j as int]@));
                    }
                }
                j = j + 1;
            }
            proof {
                assert(views(r@).take(r@.len() as int) =~= views(r@));
                assert(ps.take(i + 1).drop_last() =~= ps.take(i as int));
                assert(ps.take(i + 1).last() == ps[i as int]);
            }
            r = next;
            i = i + 1;
        }
        proof {
            assert(ps.take(ps.len() as int) =~= ps);
        }
        r
    }

    /// Returns all values, in order.
    pub fn values(&self) -> (r: Vec<String>)
        ensures
            views(r@) == self@.map_values(|p: PairView| p.1),
    {
        let mut r: Vec<String> = Vec::new();
        let mut i: usize = 0;
        while i < self.params.len()
            invariant
                i <= self.params@.len(),
                r@.len() == i,
                forall|j: int| 0 <= j < i ==> #[trigger] r@[j]@ == self.params@[j].1@,
            decreases self.params.len() - i,
        {
            r.push(self.params[i].1.clone());
            i = i + 1;
        }
        proof {
            assert(views(r@) =~= self@.map_values(|p: PairView| p.1));
        }
        r
    }

    /// Sets the value associated with a given search parameter to the given value.
    /// If there were several matching values, this method deletes the others.
    /// If the search parameter doesn't exist, this method creates it.
    pub fn set(&mut self, name: String, value: String)
        ensures
            final(self)@ == set_pairs(old(self)@, name@, value@),
    {
        let ghost ps = self@;
        let n = self.params.len();
        let mut k: usize = 0;
        while k < n && !str_eq(self.params[k].0.as_str(), name.as_str())
            invariant
                ps == pair_views(self.params@),
                n == ps.len(),
                k <= n,
                forall|j: int| 0 <= j < k ==> #[trigger] ps[j].0 != name@,
            decreases n - k,
        {
            k = k + 1;
        }
        if k == n {
            proof {
                if has_name(ps, name@) {
                    let j = choose|j: int| 0 <= j < ps.len() && #[trigger] ps[j].0 == name@;
                    assert(ps[j].0 != name@);
                }
            }
            self.append(name, value);
            return;
        }
        proof {
            assert(is_first_named(ps, name@, k as int));
            assert(has_name(ps, name@)) by {
                assert(ps[k as int].0 == name@);
            }
            let c = choose|c: int| is_first_named(ps, name@, c);
            if c < k {
                assert(ps[c].0 != name@);
            }
            if k < c {
                assert(ps[k as int].0 != name@);
            }
            assert(c == k);
        }
        let ghost head = ps.take(k as int).push((name@, value@));
        let mut out: Vec<(String, String)> = Vec::new();
        let mut i: usize = 0;
        proof {
            assert(pair_views(out@) =~= ps.take(0));
        }
        while i < k
            invariant
                ps == pair_views(self.params@),
                k < n == ps.len(),
                i <= k,
                pair_views(out@) == ps.take(i as int),
            decreases k - i,
        {
            let ghost before = pair_views(out@);
            out.push(clone_pair(&self.params[i]));
            proof {
                assert(pair_views(out@) =~= before.push(ps[i as int]));
                assert(ps.take(i + 1) =~= ps.take(i as int).push(ps[i as int]));
            }
            i = i + 1;
        }
        let ghost before = pair_views(out@);
        out.push((name.clone(), value));
        i = k + 1;
        proof {
            assert(pair_views(out@) =~= before.push((name@, value@)));
            assert(ps.subrange(k + 1, k + 1) =~= Seq::<PairView>::empty());
            assert(pair_views(out@) =~= head + without_name(ps.subrange(k + 1, i as int), name@));
        }
        while i < n
            invariant
                ps == pair_views(self.params@),
                k < n == ps.len(),
                k + 1 <= i <= n,
                pair_views(out@) == head + without_name(ps.subrange(k + 1, i as int), name@),
            decreases n - i,
        {
            proof {
                assert(ps.subrange(k + 1, i + 1) =~= ps.subrange(k + 1, i as int).push(ps[i as int]));
                lemma_with_name_push(ps.subrange(k + 1, i as int), ps[i as int], name@);
            }
            if !str_eq(self.params[i].0.as_str(), name.as_str()) {
                let ghost before = pair_views(out@);
                out.push(clone_pair(&self.params[i]));
                proof {
                    assert(pair_views(out@) =~= before.push(ps[i as int]));
                    assert(head + without_name(ps.subrange(k + 1, i as int), name@).push(ps[i as int])
                        =~= (head + without_name(ps.subrange(k + 1, i as int), name@)).push(ps[i as int]));
                }
            }
            i = i + 1;
        }
        proof {
            assert(ps.subrange(k + 1, n as int) =~= ps.skip(k + 1));
        }
        self.params = out;
    }

    /// Returns a query string suitable for use in a URL.
    pub fn to_js_string(&self) -> (r: String)
        ensures
            r@ == serialize_pairs(self@),
    {
        let ghost ps = self@;
        let mut out = String::new();
        let mut i: usize = 0;
        proof {
            assert(ps.subrange(0, 0) =~= Seq::<PairView>::empty());
            reveal_strlit("&");
            reveal_strlit("=");
        }
        while i < self.params.len()
            invariant
                ps == pair_views(self.params@),
                i <= self.params@.len(),
                out@ == serialize_pairs(ps.subrange(0, i as int)),
            decreases self.params.len() - i,
        {
            proof {
                assert(ps.subrange(0, i + 1).drop_last() =~= ps.subrange(0, i as int));
            }
            if i > 0 {
                out.append("&");
            }
            out.append(self.params[i].0.as_str());
            out.append("=");
            out.append(self.params[i].1.as_str());
            proof {
                assert(out@ =~= serialize_pairs(ps.subrange(0, i + 1)));
            }
            i = i + 1;
        }
        proof {
            assert(ps.subrange(0, ps.len() as int) =~= ps);
        }
        out
    }
}

} // verus!

verus! {

pub proof fn lemma_name_le_reflexive(a: Seq<char>)
    ensures
        name_le(a, a),
    decreases a.len(),
{
    if a.len() > 0 {
        lemma_name_le_reflexive(a.drop_first());
    }
}

pub proof fn lemma_name_le_total(a: Seq<char>, b: Seq<char>)
    ensures
        name_le(a, b) || name_le(b, a),
    decreases a.len(),
{
    if a.len() > 0 && b.len() > 0 && a[0] == b[0] {
        lemma_name_le_total(a.drop_first(), b.drop_first());
    }
}

pub proof fn lemma_name_le_transitive(a: Seq<char>, b: Seq<char>, c: Seq<char>)
    requires
        name_le(a, b),
        name_le(b, c),
    ensures
        name_le(a, c),
    decreases a.len(),
{
    if a.len() > 0 && b.len() > 0 && c.len() > 0 && a[0] == b[0] && b[0] == c[0] {
        lemma_name_le_transitive(a.drop_first(), b.drop_first(), c.drop_first());
    }
}

pub proof fn lemma_name_le_antisymmetric(a: Seq<char>, b: Seq<char>)
    requires
        name_le(a, b),
        name_le(b, a),
    ensures
        a == b,
    decreases a.len(),
{
    if a.len() > 0 && b.len() > 0 {
        lemma_name_le_antisymmetric(a.drop_first(), b.drop_first());
        assert(a =~= seq![a[0]] + a.drop_first());
        assert(b =~= seq![b[0]] + b.drop_first());
    } else {
        assert(a =~= b);
    }
}

/// Compares two names code point by code point.
fn name_le_exec(a: &str, b: &str) -> (r: bool)
    ensures
        r == name_le(a@, b@),
{
    let n = a.unicode_len();
    let m = b.unicode_len();
    let mut i: usize = 0;
    proof {
        assert(a@.skip(0) =~= a@);
        assert(b@.skip(0) =~= b@);
    }
    while i < n && i < m
        invariant
            n == a@.len(),
            m == b@.len(),
            i <= n,
            i <= m,
            name_le(a@, b@) == name_le(a@.skip(i as int), b@.skip(i as int)),
        decreases n - i,
    {
        let ca = a.get_char(i);
        let cb = b.get_char(i);
        if ca != cb {
            return ca < cb;
        }
        proof {
            assert(a@.skip(i as int).drop_first() =~= a@.skip(i + 1));
            assert(b@.skip(i as int).drop_first() =~= b@.skip(i + 1));
        }
        i = i + 1;
    }
    i == n
}

impl URLSearchParams {
    /// Sorts all key/value pairs contained in this object in place.
    /// The sort order is according to unicode code points of the keys;
    /// pairs with equal keys keep their relative order.
    pub fn sort(&mut self)
        ensures
            is_stable_sort_by_name(old(self)@, final(self)@),
    {
        let ghost ps = self@;
        let mut out: Vec<(String, String)> = Vec::new();
        let mut i: usize = 0;
        proof {
            assert(ps.subrange(0, 0) =~= Seq::<PairView>::empty());
            assert(pair_views(out@) =~= Seq::<PairView>::empty());
        }
        while i < self.params.len()
            invariant
                ps == pair_views(self.params@),
                i <= self.params@.len(),
                pair_views(out@).len() == i,
                sorted_by_name(pair_views(out@)),
                forall|name: Seq<char>| #[trigger] with_name(pair_views(out@), name) == with_name(
                    ps.subrange(0, i as int),
                    name,
                ),
            decreases self.params.len() - i,
        {
            let ghost o = pair_views(out@);
            let ghost x = ps[i as int];
            // The place of the pair: after every pair whose key is not above its key.
            let mut j: usize = 0;
            while j < out.len() && name_le_exec(out[j].0.as_str(), self.params[i].0.as_str())
                invariant
                    o == pair_views(out@),
                    x == pair_views(self.params@)[i as int],
                    i < self.params@.len(),
                    j <= out@.len(),
                    forall|k: int| 0 <= k < j ==> name_le(#[trigger] o[k].0, x.0),
                decreases out.len() - j,
            {
                j = j + 1;
            }
            proof {
                assert forall|k: int| j <= k < o.len() implies !name_le(#[trigger] o[k].0, x.0) by {
                    if name_le(o[k].0, x.0) {
                        assert(name_le(o[j as int].0, o[k].0));
                        lemma_name_le_transitive(o[j as int].0, o[k].0, x.0);
                    }
                }
            }
            out.insert(j, clone_pair(&self.params[i]));
            proof {
                let o2 = pair_views(out@);
                let left = o.subrange(0, j as int);
                let right = o.subrange(j as int, o.len() as int);
                assert(o2 =~= left + seq![x] + right);
                assert(o =~= left + right);
                assert forall|a: int, b: int| 0 <= a < b < o2.len() implies name_le(
                    #[trigger] o2[a].0,
                    #[trigger] o2[b].0,
                ) by {
                    if a < j && b == j {
                    } else if a == j && b > j {
                        lemma_name_le_total(o[b - 1].0, x.0);
                    } else if a < j && b > j {
                        assert(name_le(o[a].0, o[b - 1].0));
                    } else {
                    }
                }
                assert forall|name: Seq<char>| #[trigger] with_name(o2, name) == with_name(
                    ps.subrange(0, i + 1),
                    name,
                ) by {
                    lemma_with_name_concat(left + seq![x], right, name);
                    lemma_with_name_concat(left, seq![x], name);
                    lemma_with_name_concat(left, right, name);
                    assert(ps.subrange(0, i + 1) =~= ps.subrange(0, i as int).push(x));
                    lemma_with_name_push(ps.subrange(0, i as int), x, name);
                    assert(seq![x] =~= Seq::<PairView>::empty().push(x));
                    lemma_with_name_push(Seq::<PairView>::empty(), x, name);
                    if x.0 == name {
                        assert forall|k: int| 0 <= k < right.len() implies #[trigger] right[k].0 != name by {
                            lemma_name_le_reflexive(x.0);
                            assert(!name_le(o[j + k].0, x.0));
                        }
                        lemma_with_name_none(right, name);
                    }
                }
            }
            i = i + 1;
        }
        proof {
            assert(ps.subrange(0, ps.len() as int) =~= ps);
        }
        self.params = out;
    }
}

/// No pair of `ps` is named `name`: none is kept.
pub proof fn lemma_with_name_none(ps: Seq<PairView>, name: Seq<char>)
    requires
        forall|k: int| 0 <= k < ps.len() ==> #[trigger] ps[k].0 != name,
    ensures
        with_name(ps, name) == Seq::<PairView>::empty(),
    decreases ps.len(),
{
    if ps.len() > 0 {
        assert forall|k: int| 0 <= k < ps.drop_last().len() implies #[trigger] ps.drop_last()[k].0
            != name by {
            assert(ps[k].0 != name);
        }
        lemma_with_name_none(ps.drop_last(), name);
        assert(ps[ps.len() - 1].0 != name);
    }
}

} // verus!
