//! The crawl of a movie folder, as a state machine that the caller drives:
//! it asks for directory listings and for resolutions, and is handed back the
//! outcomes. Files already in the previous snapshot are copied from it and
//! never resolved again.
//!
//! The collection a crawl produces holds exactly the files this walk met:
//! an entity of the previous snapshot whose path was not met again (the file
//! was removed or renamed, or its branch could not be listed this time) is
//! not carried over, and a failed resolution leaves its file out until a
//! later crawl resolves it.

use vstd::prelude::*;
use crate::cache::{cached_copies, distinct_paths, find_by_path, first_at, has_path, hit_run, lemma_all_cached, lemma_first_at_found, lemma_hit_run, Located};
use crate::names::{parse_name, stem, title_spec, year_spec};
use crate::paths::{dir_entries, entries, file_entries, is_below, strs, Entry};
use crate::text::opt_view;
use crate::types::{models, Movie, MovieModel};
use crate::walk::{last_fresh, Walk, WalkModel};

verus! {

/// A file to resolve: its remote path, and the title and year read from its
/// name.
#[derive(Debug)]
pub struct MovieQuery {
    pub path: String,
    pub title: String,
    pub year: Option<String>,
}

/// What the crawl needs next.
#[derive(Debug)]
pub enum MovieStep {
    /// Change to this directory and list it; answer with `on_listing`.
    List(String),
    /// Resolve this file with the metadata provider; answer with
    /// `on_resolved`.
    Resolve(MovieQuery),
    /// The walk is complete.
    Done,
}

pub struct MovieCrawlModel {
    pub walk: WalkModel,
    pub cache: Seq<Movie>,
    pub pending: Seq<(Seq<char>, Seq<char>)>,
    pub listing: Option<Seq<char>>,
    pub awaiting: Option<Seq<char>>,
    pub movies: Seq<MovieModel>,
}

pub struct MovieCrawl {
    walk: Walk,
    cache: Vec<Movie>,
    files: Vec<Entry>,
    next_file: usize,
    listing: Option<String>,
    awaiting: Option<String>,
    movies: Vec<Movie>,
}

impl View for MovieCrawl {
    type V = MovieCrawlModel;

    closed spec fn view(&self) -> MovieCrawlModel {
        MovieCrawlModel {
            walk: self.walk@,
            cache: self.cache@,
            pending: entries(self.files@).skip(self.next_file as int),
            listing: opt_view(self.listing),
            awaiting: opt_view(self.awaiting),
            movies: models(self.movies),
        }
    }
}

impl MovieCrawl {
    pub closed spec fn wf(&self) -> bool {
        &&& self.walk.wf()
        &&& self.next_file <= self.files@.len()
        &&& self.listing is Some ==> self.walk@.visited.contains(self.listing->0@)
        &&& self.listing is Some ==> self.next_file == self.files@.len()
        &&& forall|i: int| 0 <= i < self.files@.len() ==> is_below((#[trigger] self.files@[i]).path@, self.walk@.root)
        &&& self.awaiting is Some ==> is_below(self.awaiting->0@, self.walk@.root)
        &&& forall|i: int| 0 <= i < self.movies@.len() ==> (#[trigger] self.movies@[i]).path is Some
    }

    /// A crawl of the tree under `root`, against the previous snapshot
    /// `cache`.
    pub fn new(root: String, cache: Vec<Movie>) -> (c: MovieCrawl)
        ensures
            c.wf(),
            c@.walk.stack == seq![root@],
            c@.walk.visited.len() == 0,
            c@.walk.root == root@,
            c@.cache == cache@,
            c@.pending.len() == 0,
            c@.listing is None,
            c@.awaiting is None,
            c@.movies.len() == 0,
    {
        let c = MovieCrawl {
            walk: Walk::new(root),
            cache,
            files: Vec::new(),
            next_file: 0,
            listing: None,
            awaiting: None,
            movies: Vec::new(),
        };
        assert(c@.movies =~= Seq::<MovieModel>::empty());
        c
    }

    /// The next thing the crawl needs. Pending files found in the cache are
    /// copied from it, in order, up to the first that is not: that one is to
    /// be resolved, and is never one whose path the cache holds. Once no
    /// file is pending, the next unvisited directory is to be listed; when
    /// none is left, the crawl is done.
    pub fn next_step(&mut self) -> (r: MovieStep)
        requires
            old(self).wf(),
        ensures
            final(self).wf(),
            final(self)@.cache == old(self)@.cache,
            final(self)@.walk.root == old(self)@.walk.root,
            final(self)@.walk.pushed == old(self)@.walk.pushed,
            ({
                let pend = old(self)@.pending;
                let n = hit_run(old(self)@.cache, pend) as int;
                &&& final(self)@.movies == old(self)@.movies + cached_copies(old(self)@.cache, pend, n)
                &&& match r {
                    MovieStep::Resolve(q) => {
                        &&& n < pend.len()
                        &&& q.path@ == pend[n].0
                        &&& !has_path(old(self)@.cache, q.path@)
                        &&& q.title@ == title_spec(stem(pend[n].1))
                        &&& opt_view(q.year) == year_spec(stem(pend[n].1))
                        &&& final(self)@.pending == pend.skip(n + 1)
                        &&& final(self)@.awaiting == Some(q.path@)
                        &&& final(self)@.listing is None
                        &&& final(self)@.walk == old(self)@.walk
                    },
                    MovieStep::List(d) => {
                        &&& n == pend.len()
                        &&& final(self)@.pending.len() == 0
                        &&& final(self)@.listing == Some(d@)
                        &&& final(self)@.awaiting is None
                        &&& !old(self)@.walk.visited.contains(d@)
                        &&& final(self)@.walk.visited == old(self)@.walk.visited.push(d@)
                        &&& {
                            let k = last_fresh(old(self)@.walk.stack, old(self)@.walk.visited);
                            &&& k >= 0
                            &&& d@ == old(self)@.walk.stack[k]
                            &&& final(self)@.walk.stack == old(self)@.walk.stack.take(k)
                        }
                    },
                    MovieStep::Done => {
                        &&& n == pend.len()
                        &&& final(self)@.pending.len() == 0
                        &&& final(self)@.listing is None
                        &&& final(self)@.awaiting is None
                        &&& last_fresh(old(self)@.walk.stack, old(self)@.walk.visited) == -1
                        &&& final(self)@.walk.stack.len() == 0
                        &&& final(self)@.walk.visited == old(self)@.walk.visited
                        &&& forall|p: Seq<char>| #[trigger] old(self)@.walk.pushed.contains(p)
                            ==> final(self)@.walk.visited.contains(p)
                    },
                }
            }),
    {
        self.listing = None;
        self.awaiting = None;
        let ghost pend = entries(self.files@).skip(self.next_file as int);
        let ghost i0 = self.next_file as int;
        let ghost m0 = models(self.movies);
        while self.next_file < self.files.len()
            invariant
                self.wf(),
                self.listing is None,
                self.awaiting is None,
                self.cache@ == old(self)@.cache,
                self.walk@ == old(self)@.walk,
                self.files@ == old(self).files@,
                0 <= i0 <= self.next_file,
                m0 == old(self)@.movies,
                pend == old(self)@.pending,
                pend == entries(self.files@).skip(i0),
                pend.len() == self.files@.len() - i0,
                forall|j: int| 0 <= j < self.next_file - i0 ==> has_path(self.cache@, (#[trigger] pend[j]).0),
                models(self.movies) == m0 + cached_copies(self.cache@, pend, self.next_file - i0),
            decreases self.files.len() - self.next_file,
        {
            let i = self.next_file;
            proof {
                assert(entries(self.files@).len() == self.files@.len());
                assert(pend[i - i0] == entries(self.files@)[i as int]);
                assert(entries(self.files@)[i as int] == (self.files@[i as int].path@, self.files@[i as int].name@));
            }
            match find_by_path(&self.cache, &self.files[i].path) {
                Some(k) => {
                    let m = self.cache[k].clone();
                    let ghost before = self.movies@;
                    self.movies.push(m);
                    self.next_file = i + 1;
                    proof {
                        assert(models(self.movies) =~= before.map_values(|x: Movie| x@).push(m@));
                        assert(has_path(self.cache@, pend[i - i0].0));
                        assert(cached_copies(self.cache@, pend, self.next_file - i0) =~= cached_copies(self.cache@, pend, i - i0).push(m@));
                        assert(models(self.movies) =~= m0 + cached_copies(self.cache@, pend, self.next_file - i0));
                    }
                },
                None => {
                    let parsed = parse_name(self.files[i].name.as_str());
                    let q = MovieQuery { path: self.files[i].path.clone(), title: parsed.title, year: parsed.year };
                    self.awaiting = Some(self.files[i].path.clone());
                    self.next_file = i + 1;
                    proof {
                        lemma_hit_run(self.cache@, pend, i - i0);
                        assert(entries(self.files@).skip(self.next_file as int) =~= pend.skip(i - i0 + 1));
                    }
                    return MovieStep::Resolve(q);
                },
            }
        }
        proof {
            lemma_hit_run(self.cache@, pend, self.next_file - i0);
            assert(entries(self.files@).skip(self.next_file as int).len() == 0);
        }
        match self.walk.next_dir() {
            Some(d) => {
                self.listing = Some(d.clone());
                assert(self.walk@.visited[self.walk@.visited.len() - 1] == d@);
                MovieStep::List(d)
            },
            None => MovieStep::Done,
        }
    }

    /// Takes the listing of the directory last asked for (`None` when it
    /// could not be entered or listed, and the branch is abandoned): its
    /// subdirectories join the walk and its files become pending. Without a
    /// listing awaited, nothing changes.
    pub fn on_listing(&mut self, names: Option<Vec<String>>)
        requires
            old(self).wf(),
        ensures
            final(self).wf(),
            final(self)@.cache == old(self)@.cache,
            final(self)@.movies == old(self)@.movies,
            final(self)@.awaiting == old(self)@.awaiting,
            final(self)@.listing is None,
            final(self)@.walk.root == old(self)@.walk.root,
            final(self)@.walk.visited == old(self)@.walk.visited,
            match (old(self)@.listing, names) {
                (Some(d), Some(ns)) => {
                    let added = dir_entries(d, strs(ns@)).map_values(|e: (Seq<char>, Seq<char>)| e.0);
                    &&& final(self)@.pending == file_entries(d, strs(ns@))
                    &&& final(self)@.walk.stack == old(self)@.walk.stack + added
                    &&& final(self)@.walk.pushed == old(self)@.walk.pushed + added.to_set()
                },
                _ => final(self)@.pending == old(self)@.pending && final(self)@.walk == old(self)@.walk,
            },
    {
        let listing = self.listing.take();
        match (listing, names) {
            (Some(d), Some(ns)) => {
                let files = self.walk.expand(&d, &ns);
                self.files = files;
                self.next_file = 0;
                assert(entries(self.files@).skip(0) =~= entries(self.files@));
            },
            _ => {},
        }
    }

    /// Takes the outcome of the resolution last asked for: the movie, which
    /// is recorded with the file's path, or `None` when it failed and the
    /// file is skipped. Without a resolution awaited, nothing changes.
    pub fn on_resolved(&mut self, movie: Option<Movie>)
        requires
            old(self).wf(),
        ensures
            final(self).wf(),
            final(self)@.cache == old(self)@.cache,
            final(self)@.pending == old(self)@.pending,
            final(self)@.listing == old(self)@.listing,
            final(self)@.walk == old(self)@.walk,
            final(self)@.awaiting is None,
            match (old(self)@.awaiting, movie) {
                (Some(p), Some(m)) => final(self)@.movies == old(self)@.movies.push(
                    MovieModel { path: Some(p), ..m@ },
                ),
                _ => final(self)@.movies == old(self)@.movies,
            },
    {
        let awaiting = self.awaiting.take();
        match (awaiting, movie) {
            (Some(p), Some(m)) => {
                let stamped = Movie { path: Some(p), ..m };
                self.movies.push(stamped);
                assert(models(self.movies) =~= old(self)@.movies.push(MovieModel { path: Some(p@), ..m@ }));
            },
            _ => {},
        }
    }

    /// The movies found so far, in the order they were found.
    pub fn into_movies(self) -> (r: Vec<Movie>)
        requires
            self.wf(),
        ensures
            models(r) == self@.movies,
            forall|i: int| 0 <= i < r@.len() ==> (#[trigger] r@[i]).path is Some,
    {
        self.movies
    }
}

/// The movies that a directory's pending files add over the steps of a
/// crawl, when each file to resolve is resolved to `resolved(file)`: the
/// leading run of cached files is copied, the next file is resolved and
/// recorded with its path, and so on.
pub open spec fn process_files(
    cache: Seq<Movie>,
    files: Seq<(Seq<char>, Seq<char>)>,
    resolved: spec_fn((Seq<char>, Seq<char>)) -> MovieModel,
) -> Seq<MovieModel>
    decreases files.len(),
{
    let n = hit_run(cache, files) as int;
    if n >= files.len() {
        cached_copies(cache, files, n)
    } else {
        cached_copies(cache, files, n).push(MovieModel { path: Some(files[n].0), ..resolved(files[n]) })
            + process_files(cache, files.skip(n + 1), resolved)
    }
}

/// `process_files` is what the steps add. A `next_step` on pending files
/// `files` appends `cached_copies(cache, files, n)` for the leading run of `n`
/// cached files; when a file is left it asks for `files[n]`, whose answer
/// `on_resolved` appends with the file's path, and `files.skip(n + 1)` stays
/// pending. So the movies a crawl adds over a directory's files are
/// `process_files` of them, whatever order of steps the caller drives.
pub proof fn lemma_process_step(
    cache: Seq<Movie>,
    files: Seq<(Seq<char>, Seq<char>)>,
    resolved: spec_fn((Seq<char>, Seq<char>)) -> MovieModel,
)
    ensures
        ({
            let n = hit_run(cache, files) as int;
            &&& n <= files.len()
            &&& n == files.len() ==> process_files(cache, files, resolved) == cached_copies(cache, files, n)
            &&& n < files.len() ==> process_files(cache, files, resolved) == cached_copies(cache, files, n).push(
                MovieModel { path: Some(files[n].0), ..resolved(files[n]) },
            ) + process_files(cache, files.skip(n + 1), resolved)
        }),
{
    lemma_hit_run_bounds(cache, files);
}

/// How many resolutions the crawl asks for over those files.
pub open spec fn resolutions(cache: Seq<Movie>, files: Seq<(Seq<char>, Seq<char>)>) -> nat
    decreases files.len(),
{
    let n = hit_run(cache, files) as int;
    if n >= files.len() {
        0
    } else {
        1 + resolutions(cache, files.skip(n + 1))
    }
}

proof fn lemma_hit_run_bounds(cache: Seq<Movie>, files: Seq<(Seq<char>, Seq<char>)>)
    ensures
        hit_run(cache, files) <= files.len(),
        forall|j: int| 0 <= j < hit_run(cache, files) ==> has_path(cache, (#[trigger] files[j]).0),
    decreases files.len(),
{
    if files.len() > 0 && has_path(cache, files[0].0) {
        let t = files.skip(1);
        lemma_hit_run_bounds(cache, t);
        assert forall|j: int| 0 <= j < hit_run(cache, files) implies has_path(cache, (#[trigger] files[j]).0) by {
            if j > 0 {
                assert(files[j] == t[j - 1]);
            }
        }
    }
}

/// Each movie that the files add carries the path of its file, in order.
proof fn lemma_process_paths(
    cache: Seq<Movie>,
    files: Seq<(Seq<char>, Seq<char>)>,
    resolved: spec_fn((Seq<char>, Seq<char>)) -> MovieModel,
)
    ensures
        process_files(cache, files, resolved).len() == files.len(),
        forall|j: int| 0 <= j < files.len() ==> (#[trigger] process_files(cache, files, resolved)[j]).path == Some(files[j].0),
    decreases files.len(),
{
    lemma_hit_run_bounds(cache, files);
    let n = hit_run(cache, files) as int;
    let copies = cached_copies(cache, files, n);
    assert forall|j: int| 0 <= j < n implies (#[trigger] copies[j]).path == Some(files[j].0) by {
        lemma_first_at_found(cache, files[j].0);
    }
    if n < files.len() {
        let rest = files.skip(n + 1);
        lemma_process_paths(cache, rest, resolved);
        let out = process_files(cache, files, resolved);
        let head = copies.push(MovieModel { path: Some(files[n].0), ..resolved(files[n]) });
        assert forall|j: int| 0 <= j < files.len() implies (#[trigger] out[j]).path == Some(files[j].0) by {
            if j < n {
                assert(out[j] == copies[j]);
            } else if j == n {
                assert(out[j] == head[j]);
            } else {
                assert(out[j] == process_files(cache, rest, resolved)[j - n - 1]);
                assert(rest[j - n - 1] == files[j]);
            }
        }
    }
}

/// A second crawl reproduces the first. When a crawl of a directory's files
/// resolved every file it asked for, crawling the same files again against a
/// snapshot with distinct paths that holds each movie the first crawl added
/// copies exactly those movies, in the same order, and asks for no
/// resolution at all.
pub proof fn lemma_second_crawl_identical(
    first_cache: Seq<Movie>,
    files: Seq<(Seq<char>, Seq<char>)>,
    resolved: spec_fn((Seq<char>, Seq<char>)) -> MovieModel,
    snapshot: Seq<Movie>,
    resolved_again: spec_fn((Seq<char>, Seq<char>)) -> MovieModel,
)
    requires
        distinct_paths(snapshot),
        forall|j: int| 0 <= j < files.len() ==> exists|i: int|
            0 <= i < snapshot.len() && snapshot[i]@ == #[trigger] process_files(first_cache, files, resolved)[j],
    ensures
        process_files(snapshot, files, resolved_again) == process_files(first_cache, files, resolved),
        resolutions(snapshot, files) == 0,
{
    let first = process_files(first_cache, files, resolved);
    lemma_process_paths(first_cache, files, resolved);
    assert forall|j: int| 0 <= j < files.len() implies has_path(snapshot, (#[trigger] files[j]).0) by {
        let x = first[j];
        let i = choose|i: int| 0 <= i < snapshot.len() && snapshot[i]@ == x;
        assert(snapshot[i].location() == Some(files[j].0));
    }
    lemma_all_cached(snapshot, files);
    let n = files.len() as int;
    let again = process_files(snapshot, files, resolved_again);
    assert(again == cached_copies(snapshot, files, n));
    assert forall|j: int| 0 <= j < n implies again[j] == first[j] by {
        let x = first[j];
        let i = choose|i: int| 0 <= i < snapshot.len() && snapshot[i]@ == x;
        assert(snapshot[i].location() == Some(files[j].0));
        assert(again[j] == snapshot[first_at(snapshot, files[j].0)->0]@);
    }
    assert(again =~= first);
}

} // verus!
