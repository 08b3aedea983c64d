//! The reconciliation cache: the previous snapshot of a store, searched by
//! exact remote path, and the naming of snapshot files.

use vstd::prelude::*;
use crate::text::opt_view;
use crate::types::{Episode, Movie, Season, TvShow};

verus! {

/// An entity with a remote path, its identity within one store.
pub trait Located: Sized {
    spec fn location(&self) -> Option<Seq<char>>;

    fn path_ref(&self) -> (r: &Option<String>)
        ensures
            opt_view(*r) == self.location(),
    ;
}

impl Located for Movie {
    open spec fn location(&self) -> Option<Seq<char>> {
        opt_view(self.path)
    }

    fn path_ref(&self) -> (r: &Option<String>) {
        &self.path
    }
}

impl Located for TvShow {
    open spec fn location(&self) -> Option<Seq<char>> {
        opt_view(self.path)
    }

    fn path_ref(&self) -> (r: &Option<String>) {
        &self.path
    }
}

impl Located for Season {
    open spec fn location(&self) -> Option<Seq<char>> {
        opt_view(self.path)
    }

    fn path_ref(&self) -> (r: &Option<String>) {
        &self.path
    }
}

impl Located for Episode {
    open spec fn location(&self) -> Option<Seq<char>> {
        opt_view(self.path)
    }

    fn path_ref(&self) -> (r: &Option<String>) {
        &self.path
    }
}

/// Index of the first item located at `p`.
pub open spec fn first_at<T: Located>(s: Seq<T>, p: Seq<char>) -> Option<int>
    decreases s.len(),
{
    if s.len() == 0 {
        None
    } else if s[0].location() == Some(p) {
        Some(0)
    } else {
        match first_at(s.skip(1), p) {
            Some(i) => Some(i + 1),
            None => None,
        }
    }
}

/// Whether some item is located at `p`.
pub open spec fn has_path<T: Located>(s: Seq<T>, p: Seq<char>) -> bool {
    exists|i: int| 0 <= i < s.len() && (#[trigger] s[i]).location() == Some(p)
}

/// No two items share a path.
pub open spec fn distinct_paths<T: Located>(s: Seq<T>) -> bool {
    forall|i: int, j: int|
        0 <= i < s.len() && 0 <= j < s.len() && i != j && (#[trigger] s[i]).location() is Some
            ==> s[i].location() != (#[trigger] s[j]).location()
}

proof fn lemma_first_at<T: Located>(s: Seq<T>, p: Seq<char>, k: Option<int>)
    requires
        match k {
            Some(i) => 0 <= i < s.len() && s[i].location() == Some(p)
                && forall|j: int| 0 <= j < i ==> (#[trigger] s[j]).location() != Some(p),
            None => forall|j: int| 0 <= j < s.len() ==> (#[trigger] s[j]).location() != Some(p),
        },
    ensures
        first_at(s, p) == k,
    decreases s.len(),
{
    if s.len() > 0 && s[0].location() != Some(p) {
        let t = s.skip(1);
        let k2 = match k {
            Some(i) => Some(i - 1),
            None => None,
        };
        assert forall|j: int| 0 <= j < t.len() implies t[j] == s[j + 1] by {}
        lemma_first_at(t, p, k2);
    }
}

/// The search result is the first item at `p`, and there is one exactly
/// when some item is at `p`.
pub proof fn lemma_first_at_found<T: Located>(s: Seq<T>, p: Seq<char>)
    ensures
        first_at(s, p) is Some <==> has_path(s, p),
        first_at(s, p) is Some ==> {
            let i = first_at(s, p)->0;
            0 <= i < s.len() && s[i].location() == Some(p)
        },
    decreases s.len(),
{
    if s.len() > 0 && s[0].location() != Some(p) {
        let t = s.skip(1);
        lemma_first_at_found(t, p);
        if has_path(s, p) {
            let i = choose|i: int| 0 <= i < s.len() && (#[trigger] s[i]).location() == Some(p);
            assert(t[i - 1] == s[i]);
        }
        if has_path(t, p) {
            let i = choose|i: int| 0 <= i < t.len() && (#[trigger] t[i]).location() == Some(p);
            assert(t[i] == s[i + 1]);
        }
    } else if s.len() > 0 {
        assert(s[0].location() == Some(p));
    }
}

/// A snapshot whose paths are distinct answers the lookup of each of its own
/// paths with the very entity that carries it: reconciling against the
/// output of a crawl finds every item of that crawl.
pub proof fn lemma_snapshot_finds_itself<T: Located>(s: Seq<T>, i: int)
    requires
        distinct_paths(s),
        0 <= i < s.len(),
        s[i].location() is Some,
    ensures
        first_at(s, s[i].location()->0) == Some(i),
{
    let p = s[i].location()->0;
    assert forall|j: int| 0 <= j < i implies (#[trigger] s[j]).location() != Some(p) by {
        assert(s[i].location() != s[j].location());
    }
    lemma_first_at(s, p, Some(i));
}

/// The position of the first item located at `path`.
pub fn find_by_path<T: Located>(items: &Vec<T>, path: &String) -> (r: Option<usize>)
    ensures
        r is None ==> first_at(items@, path@) is None,
        r is Some ==> first_at(items@, path@) == Some(r->0 as int),
        r is Some <==> has_path(items@, path@),
        r is Some ==> r->0 < items.len() && items@[r->0 as int].location() == Some(path@),
{
    proof {
        lemma_first_at_found(items@, path@);
    }
    let mut i: usize = 0;
    while i < items.len()
        invariant
            i <= items.len(),
            forall|j: int| 0 <= j < i ==> (#[trigger] items@[j]).location() != Some(path@),
        decreases items.len() - i,
    {
        let found = match items[i].path_ref() {
            Some(p) => p.eq(path),
            None => false,
        };
        if found {
            proof {
                lemma_first_at(items@, path@, Some(i as int));
            }
            return Some(i);
        }
        i = i + 1;
    }
    proof {
        lemma_first_at(items@, path@, None);
    }
    None
}

/// How many of the leading pending entries (path, name) are found in the
/// cache.
pub open spec fn hit_run<T: Located>(cache: Seq<T>, pending: Seq<(Seq<char>, Seq<char>)>) -> nat
    decreases pending.len(),
{
    if pending.len() == 0 {
        0
    } else if has_path(cache, pending[0].0) {
        1 + hit_run(cache, pending.skip(1))
    } else {
        0
    }
}

/// The models of the cached entities at the paths of the first `n` pending
/// entries.
pub open spec fn cached_copies<T: Located + View>(
    cache: Seq<T>,
    pending: Seq<(Seq<char>, Seq<char>)>,
    n: int,
) -> Seq<T::V> {
    Seq::new(n as nat, |j: int| cache[first_at(cache, pending[j].0)->0]@)
}

pub proof fn lemma_hit_run<T: Located>(cache: Seq<T>, pending: Seq<(Seq<char>, Seq<char>)>, n: int)
    requires
        0 <= n <= pending.len(),
        forall|j: int| 0 <= j < n ==> has_path(cache, (#[trigger] pending[j]).0),
        n < pending.len() ==> !has_path(cache, pending[n].0),
    ensures
        hit_run(cache, pending) == n,
    decreases pending.len(),
{
    if n > 0 {
        let t = pending.skip(1);
        assert forall|j: int| 0 <= j < t.len() implies t[j] == pending[j + 1] by {}
        assert(has_path(cache, pending[0].0));
        lemma_hit_run(cache, t, n - 1);
    }
}

/// When the cache holds the path of every pending entry, all of them are
/// copied from the cache and none is left to resolve; against a snapshot
/// with distinct paths, each copy is the snapshot's own entity at that path.
pub proof fn lemma_all_cached<T: Located>(cache: Seq<T>, pending: Seq<(Seq<char>, Seq<char>)>)
    requires
        forall|j: int| 0 <= j < pending.len() ==> has_path(cache, (#[trigger] pending[j]).0),
    ensures
        hit_run(cache, pending) == pending.len(),
        distinct_paths(cache) ==> forall|j: int| 0 <= j < pending.len() ==> {
            let i = first_at(cache, (#[trigger] pending[j]).0)->0;
            &&& 0 <= i < cache.len()
            &&& cache[i].location() == Some(pending[j].0)
            &&& forall|k: int| 0 <= k < cache.len() && cache[k].location() == Some(pending[j].0) ==> k == i
        },
{
    lemma_hit_run(cache, pending, pending.len() as int);
    assert forall|j: int| 0 <= j < pending.len() implies {
        let i = first_at(cache, (#[trigger] pending[j]).0)->0;
        distinct_paths(cache) ==> {
            &&& 0 <= i < cache.len()
            &&& cache[i].location() == Some(pending[j].0)
            &&& forall|k: int| 0 <= k < cache.len() && cache[k].location() == Some(pending[j].0) ==> k == i
        }
    } by {
        lemma_first_at_found(cache, pending[j].0);
        let i = first_at(cache, pending[j].0)->0;
        if distinct_paths(cache) {
            assert forall|k: int| 0 <= k < cache.len() && cache[k].location() == Some(pending[j].0) implies k == i by {
                if k != i {
                    assert(cache[i].location() != cache[k].location());
                }
            }
        }
    }
}

/// `<store>_store.json`, the name of the snapshot file of a store.
pub fn store_file_name(store: &str) -> (r: String)
    ensures
        r@ == store@ + "_store.json"@,
{
    let mut r = String::from_str(store);
    r.append("_store.json");
    r
}

/// What a load of a snapshot comes to: the snapshot that was read, or, when
/// it could not be read or parsed (`None`), an empty collection together with
/// the request to write an empty snapshot back in its place.
pub fn settle_snapshot<T>(read: Option<Vec<T>>) -> (r: (Vec<T>, bool))
    ensures
        match read {
            Some(v) => r.0@ == v@ && !r.1,
            None => r.0@.len() == 0 && r.1,
        },
{
    match read {
        Some(v) => (v, false),
        None => (Vec::new(), true),
    }
}

} // verus!
