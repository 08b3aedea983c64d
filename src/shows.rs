//! The crawl of a show folder, as a state machine that the caller drives.
//! Directories right below the root are shows; directories right below a
//! show are seasons; the tree below a season holds its episode files. The
//! previous snapshot is searched level by level: a season is looked up only
//! among the seasons of the cached show at the same path, an episode only
//! among the episodes of the cached season at the same path, so a miss at
//! any level has the whole subtree resolved afresh. As with movies, the
//! collection produced holds exactly what this walk met; nothing of the
//! previous snapshot is carried over on its own. Within a season, path is
//! the identity of an episode: a file at a path the season already holds
//! (a name listed twice) is taken once.

use vstd::prelude::*;
use crate::cache::{distinct_paths, find_by_path, first_at, has_path, Located};
use crate::names::{episode_number, episode_spec, parse_name, season_number, season_spec, stem, title_spec, year_spec};
use crate::paths::{dir_entries, entries, file_entries, is_below, join_spec, split_listing, strs, Entry};
use crate::text::opt_view;
use crate::types::{models, Episode, EpisodeModel, Season, SeasonModel, ShowModel, TvShow};
use crate::walk::{last_fresh, lemma_listing_descends, within, Walk, WalkModel};

verus! {

/// A show directory to resolve: its path, and the title and year read from
/// its name.
#[derive(Debug)]
pub struct ShowQuery {
    pub path: String,
    pub title: String,
    pub year: Option<String>,
}

/// A season directory to resolve.
#[derive(Debug)]
pub struct SeasonQuery {
    pub path: String,
    pub show_id: i32,
    pub season_number: i32,
}

/// An episode file to resolve.
#[derive(Debug)]
pub struct EpisodeQuery {
    pub path: String,
    pub show_id: i32,
    pub season_number: i32,
    pub episode_number: i32,
}

/// What the crawl needs next.
#[derive(Debug)]
pub enum ShowStep {
    /// Change to this directory and list it; answer with `on_listing`.
    List(String),
    /// Resolve this show; answer with `on_show`.
    ResolveShow(ShowQuery),
    /// Resolve this season; answer with `on_season`.
    ResolveSeason(SeasonQuery),
    /// Resolve this episode; answer with `on_episode`.
    ResolveEpisode(EpisodeQuery),
    /// The walk is complete.
    Done,
}

/// What a crawl waits for from its caller.
pub enum Awaiting {
    Nothing,
    /// The listing of the folder's root.
    RootListing,
    /// The listing of the open show's directory.
    ShowListing,
    /// The listing of this directory of the open season's tree.
    TreeListing(Seq<char>),
    /// The resolution of the show at this path.
    Show(Seq<char>),
    /// The resolution of the season at this path.
    Season(Seq<char>),
    /// The resolution of the episode at this path.
    Episode(Seq<char>),
}

/// The seasons of a show, none when it has no list.
pub open spec fn seasons_of(s: TvShow) -> Seq<Season> {
    match s.seasons {
        Some(v) => v@,
        None => Seq::empty(),
    }
}

/// The episodes of a season, none when it has no list.
pub open spec fn episodes_of(s: Season) -> Seq<Episode> {
    match s.episodes {
        Some(v) => v@,
        None => Seq::empty(),
    }
}

/// The seasons of the cached show at path `p`, if the cache holds one.
pub open spec fn cached_seasons(cache: Seq<TvShow>, p: Seq<char>) -> Seq<Season> {
    match first_at(cache, p) {
        Some(i) => seasons_of(cache[i]),
        None => Seq::empty(),
    }
}

/// The episodes of the season at path `p` among `seasons`, if there is one.
pub open spec fn cached_episodes(seasons: Seq<Season>, p: Seq<char>) -> Seq<Episode> {
    match first_at(seasons, p) {
        Some(i) => episodes_of(seasons[i]),
        None => Seq::empty(),
    }
}

/// A complete season: its episodes are listed and each lies strictly below
/// the season's directory.
pub open spec fn season_contained(s: Season) -> bool {
    &&& s.path is Some
    &&& s.episodes is Some
    &&& forall|i: int| 0 <= i < episodes_of(s).len() ==> {
        let e = #[trigger] episodes_of(s)[i];
        e.path is Some && is_below(e.path->0@, s.path->0@)
    }
}

/// A complete show: its seasons are listed, each complete and strictly below
/// the show's directory.
pub open spec fn show_contained(s: TvShow) -> bool {
    &&& s.path is Some
    &&& s.seasons is Some
    &&& forall|i: int| 0 <= i < seasons_of(s).len() ==> {
        let x = #[trigger] seasons_of(s)[i];
        season_contained(x) && is_below(x.path->0@, s.path->0@)
    }
}

pub open spec fn opt_index(o: Option<usize>) -> Option<int> {
    match o {
        Some(i) => Some(i as int),
        None => None,
    }
}

struct SeasonFrame {
    season: Season,
    cached: Option<usize>,
    walk: Walk,
    files: Vec<Entry>,
    file_dirs: Ghost<Seq<Seq<char>>>,
    next_file: usize,
    episodes: Vec<Episode>,
}

struct ShowFrame {
    show: TvShow,
    cached: Option<usize>,
    listed: bool,
    dirs: Vec<Entry>,
    next_dir: usize,
    season: Option<SeasonFrame>,
    seasons: Vec<Season>,
}

enum Wait {
    Nothing,
    Root,
    ShowDir,
    SeasonTree(String),
    Show(String),
    Season(String),
    Episode(String),
}

pub struct ShowCrawl {
    cache: Vec<TvShow>,
    root: String,
    root_listed: bool,
    show_dirs: Vec<Entry>,
    next_show: usize,
    show: Option<ShowFrame>,
    wait: Wait,
    shows: Vec<TvShow>,
}

enum EpisodeAdvance {
    Resolve(EpisodeQuery),
    List(String),
    Finished,
}

enum SeasonAdvance {
    Resolve(SeasonQuery),
    List(String),
    Opened,
    Finished,
}

impl SeasonFrame {
    spec fn path(&self) -> Seq<char> {
        self.season.path->0@
    }

    spec fn wf(&self, known: Seq<Episode>) -> bool {
        &&& self.season.path is Some
        &&& self.walk.wf()
        &&& self.walk@.root == self.path()
        &&& self.next_file <= self.files@.len()
        &&& forall|i: int| 0 <= i < self.files@.len() ==> is_below((#[trigger] self.files@[i]).path@, self.path())
        &&& self.file_dirs@.len() == self.files@.len()
        &&& forall|i: int| 0 <= i < self.file_dirs@.len() ==> within(#[trigger] self.file_dirs@[i], self.path())
        &&& forall|i: int| 0 <= i < self.files@.len() ==>
            (#[trigger] self.files@[i]).path@ == join_spec(self.file_dirs@[i], self.files@[i].name@)
        &&& forall|i: int| 0 <= i < self.episodes@.len() ==> {
            let e = #[trigger] self.episodes@[i];
            e.path is Some && is_below(e.path->0@, self.path())
        }
        &&& distinct_paths(self.episodes@)
        &&& self.cached is None ==> known.len() == 0
    }

    fn open(season: Season, cached: Option<usize>) -> (r: SeasonFrame)
        requires
            season.path is Some,
        ensures
            r.season == season,
            r.cached == cached,
            r.walk.wf(),
            r.walk@.root == r.path(),
            r.walk@ == (WalkModel { stack: seq![r.path()], visited: Seq::empty(), root: r.path(), pushed: set![r.path()] }),
            r.next_file == 0,
            r.files@.len() == 0,
            r.file_dirs@.len() == 0,
            r.episodes@.len() == 0,
    {
        let root = match &season.path {
            Some(p) => p.clone(),
            None => String::new(),
        };
        SeasonFrame {
            season,
            cached,
            walk: Walk::new(root),
            files: Vec::new(),
            file_dirs: Ghost(Seq::empty()),
            next_file: 0,
            episodes: Vec::new(),
        }
    }

    /// Copies the pending files found among `known`, skips those without an
    /// episode number, and stops at the first to resolve; with no file
    /// pending, the next directory of the season's tree is to be listed.
    fn advance(&mut self, known: &Vec<Episode>, show_id: i32) -> (r: EpisodeAdvance)
        requires
            old(self).wf(known@),
        ensures
            final(self).wf(known@),
            final(self).season == old(self).season,
            final(self).cached == old(self).cached,
            final(self).walk@.root == old(self).walk@.root,
            final(self).episodes@.len() >= old(self).episodes@.len(),
            final(self).episodes@.take(old(self).episodes@.len() as int) == old(self).episodes@,
            ({
                let pend = entries(old(self).files@).skip(old(self).next_file as int);
                let scan = episode_scan(known@, models(old(self).episodes), pend);
                &&& models(final(self).episodes) == models(old(self).episodes) + scan.0
                &&& match r {
                    EpisodeAdvance::Resolve(q) => {
                        &&& scan.1 < pend.len()
                        &&& q.path@ == pend[scan.1 as int].0
                        &&& episode_spec(pend[scan.1 as int].1) == Some(q.episode_number)
                        &&& entries(final(self).files@).skip(final(self).next_file as int) == pend.skip(scan.1 as int + 1)
                    },
                    _ => scan.1 == pend.len() && final(self).next_file == final(self).files@.len(),
                }
            }),
            match r {
                EpisodeAdvance::Resolve(q) => {
                    &&& !has_path(known@, q.path@)
                    &&& !has_path(final(self).episodes@, q.path@)
                    &&& exists|d: Seq<char>, n: Seq<char>|
                        within(d, old(self).path()) && q.path@ == join_spec(d, n) && episode_spec(n) == Some(q.episode_number)
                    &&& is_below(q.path@, old(self).path())
                    &&& q.show_id == show_id
                    &&& q.season_number == old(self).season.season_number
                    &&& final(self).walk == old(self).walk
                },
                EpisodeAdvance::List(d) => {
                    &&& final(self).walk@.visited.contains(d@)
                    &&& within(d@, old(self).path())
                    &&& d@ == old(self).walk@.stack[last_fresh(old(self).walk@.stack, old(self).walk@.visited)]
                    &&& last_fresh(old(self).walk@.stack, old(self).walk@.visited) >= 0
                    &&& final(self).walk@ == (WalkModel {
                        stack: old(self).walk@.stack.take(last_fresh(old(self).walk@.stack, old(self).walk@.visited)),
                        visited: old(self).walk@.visited.push(d@),
                        ..old(self).walk@
                    })
                    &&& final(self).next_file == final(self).files@.len()
                },
                EpisodeAdvance::Finished => last_fresh(old(self).walk@.stack, old(self).walk@.visited) == -1,
            },
    {
        let ghost pend = entries(self.files@).skip(self.next_file as int);
        proof {
            assert(pend.skip(0) =~= pend);
            assert(models(self.episodes).skip(self.episodes@.len() as int) =~= Seq::<EpisodeModel>::empty());
            assert(Seq::<EpisodeModel>::empty() + episode_scan(known@, models(self.episodes), pend).0
                =~= episode_scan(known@, models(self.episodes), pend).0);
        }
        while self.next_file < self.files.len()
            invariant
                self.wf(known@),
                self.season == old(self).season,
                self.cached == old(self).cached,
                self.walk == old(self).walk,
                self.files == old(self).files,
                self.file_dirs == old(self).file_dirs,
                self.episodes@.len() >= old(self).episodes@.len(),
                self.episodes@.take(old(self).episodes@.len() as int) == old(self).episodes@,
                old(self).next_file <= self.next_file,
                pend == entries(self.files@).skip(old(self).next_file as int),
                pend.len() == self.files@.len() - old(self).next_file,
                episode_scan(known@, models(old(self).episodes), pend).0 == models(self.episodes).skip(old(self).episodes@.len() as int)
                    + episode_scan(known@, models(self.episodes), pend.skip(self.next_file - old(self).next_file)).0,
                episode_scan(known@, models(old(self).episodes), pend).1 == (self.next_file - old(self).next_file)
                    + episode_scan(known@, models(self.episodes), pend.skip(self.next_file - old(self).next_file)).1,
                models(self.episodes).take(old(self).episodes@.len() as int) == models(old(self).episodes),
            decreases self.files.len() - self.next_file,
        {
            let i = self.next_file;
            let ghost j = i - old(self).next_file;
            let ghost rest = pend.skip(j);
            proof {
                assert(rest.len() > 0);
                assert(rest[0] == entries(self.files@)[i as int]);
                assert(entries(self.files@)[i as int] == (self.files@[i as int].path@, self.files@[i as int].name@));
                assert(rest.skip(1) =~= pend.skip(j + 1));
            }
            self.next_file = i + 1;
            proof {
                lemma_holds_path(self.episodes@, rest[0].0);
            }
            if find_by_path(&self.episodes, &self.files[i].path).is_some() {
                proof {
                    assert(episode_scan(known@, models(self.episodes), rest).0
                        =~= episode_scan(known@, models(self.episodes), pend.skip(j + 1)).0);
                }
                continue;
            }
            match find_by_path(known, &self.files[i].path) {
                Some(k) => {
                    let e = known[k].clone();
                    proof {
                        assert(e@.path == known@[k as int]@.path);
                        assert(opt_view(e.path) == Some(self.files@[i as int].path@));
                    }
                    let ghost before = self.episodes@;
                    self.episodes.push(e);
                    assert(self.episodes@.take(old(self).episodes@.len() as int) =~= before.take(old(self).episodes@.len() as int));
                    proof {
                        let l = old(self).episodes@.len() as int;
                        let mb = before.map_values(|x: Episode| x@);
                        assert(models(self.episodes) =~= mb.push(e@));
                        assert(e@ == known@[first_at(known@, rest[0].0)->0]@);
                        assert(models(self.episodes).skip(l) =~= mb.skip(l).push(e@));
                        assert(models(self.episodes).take(l) =~= mb.take(l));
                        assert(episode_scan(known@, mb, rest).0 =~= seq![e@] + episode_scan(known@, models(self.episodes), pend.skip(j + 1)).0);
                        assert(episode_scan(known@, models(old(self).episodes), pend).0 =~= models(self.episodes).skip(l)
                            + episode_scan(known@, models(self.episodes), pend.skip(j + 1)).0);
                        assert forall|a: int, b: int|
                            0 <= a < self.episodes@.len() && 0 <= b < self.episodes@.len() && a != b
                                && (#[trigger] self.episodes@[a]).location() is Some
                            implies self.episodes@[a].location() != (#[trigger] self.episodes@[b]).location() by {
                            let n = before.len() as int;
                            if a < n && b < n {
                                assert(self.episodes@[a] == before[a] && self.episodes@[b] == before[b]);
                            } else if a == n {
                                assert(self.episodes@[b] == before[b]);
                            } else {
                                assert(self.episodes@[a] == before[a]);
                            }
                        }
                    }
                },
                None => match episode_number(self.files[i].name.as_str()) {
                    Some(n) => {
                        proof {
                            assert(episode_scan(known@, models(self.episodes), rest).1 == 0);
                            assert(pend.skip(j).skip(1) =~= pend.skip(j + 1));
                            assert(entries(self.files@).skip(self.next_file as int) =~= pend.skip(j + 1));
                            let f = self.files@[i as int];
                            assert(within(self.file_dirs@[i as int], self.path()));
                            assert(f.path@ == join_spec(self.file_dirs@[i as int], f.name@) && episode_spec(f.name@) == Some(n));
                        }
                        let q = EpisodeQuery {
                            path: self.files[i].path.clone(),
                            show_id,
                            season_number: self.season.season_number,
                            episode_number: n,
                        };
                        return EpisodeAdvance::Resolve(q);
                    },
                    None => {},
                },
            }
        }
        proof {
            assert(pend.skip(self.next_file - old(self).next_file).len() == 0);
            assert(models(self.episodes) =~= models(old(self).episodes) + models(self.episodes).skip(old(self).episodes@.len() as int));
        }
        match self.walk.next_dir() {
            Some(d) => {
                let ghost last = self.walk@.visited.len() - 1;
                assert(self.walk@.visited[last] == d@);
                assert(self.walk@.pushed.contains(self.walk@.visited[last]));
                EpisodeAdvance::List(d)
            },
            None => EpisodeAdvance::Finished,
        }
    }
}

/// The episodes known for a season frame: those of the cached season it was
/// opened from, if any.
spec fn known_episodes(known: Seq<Season>, cached: Option<usize>) -> Seq<Episode> {
    match cached {
        Some(k) => episodes_of(known[k as int]),
        None => Seq::empty(),
    }
}

impl ShowFrame {
    spec fn path(&self) -> Seq<char> {
        self.show.path->0@
    }

    spec fn wf(&self, known: Seq<Season>) -> bool {
        &&& self.show.path is Some
        &&& self.next_dir <= self.dirs@.len()
        &&& !self.listed ==> self.dirs@.len() == 0 && self.season is None
        &&& forall|i: int| 0 <= i < self.dirs@.len() ==> is_below((#[trigger] self.dirs@[i]).path@, self.path())
        &&& forall|i: int| 0 <= i < self.dirs@.len() ==> (#[trigger] self.dirs@[i]).path@ == join_spec(self.path(), self.dirs@[i].name@)
        &&& forall|i: int| 0 <= i < self.seasons@.len() ==> {
            let x = #[trigger] self.seasons@[i];
            season_contained(x) && is_below(x.path->0@, self.path())
        }
        &&& self.cached is None ==> known.len() == 0
        &&& self.season is Some ==> {
            let sf = self.season->0;
            &&& sf.wf(known_episodes(known, sf.cached))
            &&& is_below(sf.path(), self.path())
            &&& opt_index(sf.cached) == first_at(known, sf.path())
            &&& sf.cached is Some ==> sf.cached->0 < known.len()
        }
    }

    fn open(show: TvShow, cached: Option<usize>) -> (r: ShowFrame)
        requires
            show.path is Some,
        ensures
            r.show == show,
            r.cached == cached,
            !r.listed,
            r.dirs@.len() == 0,
            r.next_dir == 0,
            r.season is None,
            r.seasons@.len() == 0,
    {
        ShowFrame { show, cached, listed: false, dirs: Vec::new(), next_dir: 0, season: None, seasons: Vec::new() }
    }

    /// Lists the show's directory first; then opens the pending season
    /// directories found among `known` as cached seasons, skips those without
    /// a season number, and stops at the first to resolve.
    fn advance(&mut self, known: &Vec<Season>) -> (r: SeasonAdvance)
        requires
            old(self).wf(known@),
            old(self).season is None,
        ensures
            final(self).wf(known@),
            final(self).show == old(self).show,
            final(self).cached == old(self).cached,
            final(self).seasons == old(self).seasons,
            final(self).listed,
            final(self).dirs == old(self).dirs,
            old(self).next_dir <= final(self).next_dir,
            old(self).listed ==> {
                let pend = entries(old(self).dirs@).skip(old(self).next_dir as int);
                let k = season_skip(known@, pend) as int;
                let rest = entries(final(self).dirs@).skip(final(self).next_dir as int);
                &&& k <= pend.len()
                &&& match r {
                    SeasonAdvance::Opened => {
                        &&& k < pend.len()
                        &&& has_path(known@, pend[k].0)
                        &&& final(self).season->0.season@ == known@[first_at(known@, pend[k].0)->0]@
                        &&& rest == pend.skip(k + 1)
                    },
                    SeasonAdvance::Resolve(q) => {
                        &&& k < pend.len()
                        &&& !has_path(known@, pend[k].0)
                        &&& q.path@ == pend[k].0
                        &&& season_spec(pend[k].1) == Some(q.season_number)
                        &&& rest == pend.skip(k + 1)
                    },
                    SeasonAdvance::Finished => k == pend.len(),
                    SeasonAdvance::List(_) => false,
                }
            },
            match r {
                SeasonAdvance::Resolve(q) => {
                    &&& old(self).listed
                    &&& final(self).season is None
                    &&& exists|n: Seq<char>| q.path@ == join_spec(old(self).path(), n) && season_spec(n) == Some(q.season_number)
                    &&& !has_path(known@, q.path@)
                    &&& is_below(q.path@, old(self).path())
                    &&& q.show_id == old(self).show.id
                },
                SeasonAdvance::List(d) => {
                    &&& !old(self).listed
                    &&& d@ == old(self).path()
                    &&& final(self).season is None
                    &&& final(self).next_dir == final(self).dirs@.len()
                },
                SeasonAdvance::Opened => {
                    &&& old(self).listed
                    &&& final(self).season is Some
                    &&& final(self).season->0.walk@.visited.len() == 0
                    &&& final(self).season->0.walk@.stack == seq![final(self).season->0.walk@.root]
                    &&& final(self).season->0.next_file == final(self).season->0.files@.len()
                    &&& old(self).next_dir < final(self).next_dir
                },
                SeasonAdvance::Finished => {
                    &&& old(self).listed
                    &&& final(self).season is None
                    &&& final(self).next_dir == final(self).dirs@.len()
                },
            },
    {
        if !self.listed {
            self.listed = true;
            let d = match &self.show.path {
                Some(p) => p.clone(),
                None => String::new(),
            };
            return SeasonAdvance::List(d);
        }
        let ghost pend = entries(self.dirs@).skip(self.next_dir as int);
        assert(pend.skip(0) =~= pend);
        while self.next_dir < self.dirs.len()
            invariant
                self.wf(known@),
                self.listed,
                old(self).listed,
                self.season is None,
                self.show == old(self).show,
                self.cached == old(self).cached,
                self.seasons == old(self).seasons,
                self.dirs == old(self).dirs,
                old(self).next_dir <= self.next_dir,
                pend == entries(self.dirs@).skip(old(self).next_dir as int),
                pend.len() == self.dirs@.len() - old(self).next_dir,
                season_skip(known@, pend) == (self.next_dir - old(self).next_dir)
                    + season_skip(known@, pend.skip(self.next_dir - old(self).next_dir)),
            decreases self.dirs.len() - self.next_dir,
        {
            let i = self.next_dir;
            let ghost j = i - old(self).next_dir;
            let ghost rest = pend.skip(j);
            proof {
                assert(rest.len() > 0);
                assert(rest[0] == entries(self.dirs@)[i as int]);
                assert(entries(self.dirs@)[i as int] == (self.dirs@[i as int].path@, self.dirs@[i as int].name@));
                assert(rest.skip(1) =~= pend.skip(j + 1));
                assert(entries(self.dirs@).skip(i + 1) =~= pend.skip(j + 1));
            }
            self.next_dir = i + 1;
            match find_by_path(known, &self.dirs[i].path) {
                Some(k) => {
                    let s = known[k].clone();
                    proof {
                        assert(s@.path == known@[k as int]@.path);
                        assert(opt_view(s.path) == Some(self.dirs@[i as int].path@));
                    }
                    let sf = SeasonFrame::open(s, Some(k));
                    proof {
                        assert(known_episodes(known@, sf.cached) == episodes_of(known@[k as int]));
                    }
                    self.season = Some(sf);
                    return SeasonAdvance::Opened;
                },
                None => match season_number(self.dirs[i].name.as_str()) {
                    Some(n) => {
                        proof {
                            let f = self.dirs@[i as int];
                            assert(f.path@ == join_spec(self.path(), f.name@) && season_spec(f.name@) == Some(n));
                        }
                        let q = SeasonQuery { path: self.dirs[i].path.clone(), show_id: self.show.id, season_number: n };
                        return SeasonAdvance::Resolve(q);
                    },
                    None => {},
                },
            }
        }
        proof {
            assert(pend.skip(self.next_dir - old(self).next_dir).len() == 0);
        }
        SeasonAdvance::Finished
    }
}

/// Whether one of the episodes `have` is at path `p`.
pub open spec fn holds_path(have: Seq<EpisodeModel>, p: Seq<char>) -> bool {
    exists|i: int| 0 <= i < have.len() && (#[trigger] have[i]).path == Some(p)
}

/// How a season's pending files are taken, up to the first to resolve, when
/// the season already holds the episodes `have`: a file at a path the season
/// already holds adds nothing, a file whose path `known` holds is copied from
/// it, a file whose name gives no episode number adds nothing. The result is
/// what the files taken add and how many were taken.
pub open spec fn episode_scan(
    known: Seq<Episode>,
    have: Seq<EpisodeModel>,
    files: Seq<(Seq<char>, Seq<char>)>,
) -> (Seq<EpisodeModel>, nat)
    decreases files.len(),
{
    if files.len() == 0 {
        (Seq::empty(), 0)
    } else if holds_path(have, files[0].0) {
        let r = episode_scan(known, have, files.skip(1));
        (r.0, r.1 + 1)
    } else if has_path(known, files[0].0) {
        let c = known[first_at(known, files[0].0)->0]@;
        let r = episode_scan(known, have.push(c), files.skip(1));
        (seq![c] + r.0, r.1 + 1)
    } else if episode_spec(files[0].1) is None {
        let r = episode_scan(known, have, files.skip(1));
        (r.0, r.1 + 1)
    } else {
        (Seq::empty(), 0)
    }
}

proof fn lemma_holds_path(v: Seq<Episode>, p: Seq<char>)
    ensures
        has_path(v, p) == holds_path(v.map_values(|x: Episode| x@), p),
{
    let m = v.map_values(|x: Episode| x@);
    if has_path(v, p) {
        let i = choose|i: int| 0 <= i < v.len() && (#[trigger] v[i]).location() == Some(p);
        assert(m[i].path == Some(p));
    }
    if holds_path(m, p) {
        let i = choose|i: int| 0 <= i < m.len() && (#[trigger] m[i]).path == Some(p);
        assert(v[i].location() == Some(p));
    }
}

/// How many of the leading pending season directories are skipped: those
/// that `known` does not hold and whose name gives no season number.
pub open spec fn season_skip(known: Seq<Season>, dirs: Seq<(Seq<char>, Seq<char>)>) -> nat
    decreases dirs.len(),
{
    if dirs.len() == 0 {
        0
    } else if !has_path(known, dirs[0].0) && season_spec(dirs[0].1) is None {
        1 + season_skip(known, dirs.skip(1))
    } else {
        0
    }
}

/// What a step may add to the finished shows: nothing, or the open show
/// `show` with its seasons set, which are its finished seasons `seasons`,
/// possibly followed by the open season `season` with its episodes set to
/// `episodes`.
pub open spec fn adds_open_show(
    found: Seq<TvShow>,
    before: Seq<TvShow>,
    show: Option<ShowModel>,
    seasons: Seq<SeasonModel>,
    season: Option<SeasonModel>,
    episodes: Seq<EpisodeModel>,
) -> bool {
    ||| found == before
    ||| {
        let last = found.last()@;
        let v = last.seasons->0;
        &&& show is Some
        &&& found.len() == before.len() + 1
        &&& found.take(before.len() as int) == before
        &&& last == (ShowModel { seasons: last.seasons, ..show->0 })
        &&& last.seasons is Some
        &&& {
            ||| v == seasons
            ||| {
                &&& season is Some
                &&& v.len() == seasons.len() + 1
                &&& v.take(seasons.len() as int) == seasons
                &&& v.last() == (SeasonModel { episodes: v.last().episodes, ..season->0 })
                &&& v.last().episodes == Some(episodes)
            }
        }
    }
}

spec fn season_grown(v: Seq<Season>, ss0: Seq<Season>, z0: Option<Season>, ea: Seq<EpisodeModel>) -> bool {
    ||| v == ss0
    ||| {
        let x = v.last();
        &&& z0 is Some
        &&& v.len() == ss0.len() + 1
        &&& v.take(ss0.len() as int) == ss0
        &&& x == (Season { episodes: x.episodes, ..z0->0 })
        &&& x.episodes is Some
        &&& models(x.episodes->0) == ea
    }
}

spec fn found_grown(
    f: Seq<TvShow>,
    f0: Seq<TvShow>,
    s0: Option<TvShow>,
    ss0: Seq<Season>,
    z0: Option<Season>,
    ea: Seq<EpisodeModel>,
) -> bool {
    ||| f == f0
    ||| {
        let x = f.last();
        &&& s0 is Some
        &&& f.len() == f0.len() + 1
        &&& f.take(f0.len() as int) == f0
        &&& x == (TvShow { seasons: x.seasons, ..s0->0 })
        &&& x.seasons is Some
        &&& season_grown(x.seasons->0@, ss0, z0, ea)
    }
}

/// Where a step that began on a listed show with no open season stands.
spec fn season_step(c: &ShowCrawl, fo: ShowFrame, found0: Seq<TvShow>) -> bool {
    let pend = entries(fo.dirs@).skip(fo.next_dir as int);
    let known = known_seasons(c.cache@, fo.cached);
    let k = season_skip(known, pend) as int;
    ||| (c.shows@ == found0 && c.show == Some(fo))
    ||| {
        let fr = c.show->0;
        let sf = fr.season->0;
        &&& c.shows@ == found0
        &&& c.show is Some
        &&& fr.show == fo.show
        &&& fr.cached == fo.cached
        &&& fr.dirs == fo.dirs
        &&& fr.seasons == fo.seasons
        &&& k < pend.len()
        &&& has_path(known, pend[k].0)
        &&& fr.season is Some
        &&& sf.season@ == known[first_at(known, pend[k].0)->0]@
        &&& entries(fr.dirs@).skip(fr.next_dir as int) == pend.skip(k + 1)
        &&& sf.walk@.visited.len() == 0
        &&& sf.walk@.stack == seq![sf.walk@.root]
        &&& sf.next_file == sf.files@.len()
    }
    ||| (k >= pend.len() && c.shows@.len() == found0.len() + 1)
}

proof fn lemma_found_models(
    f: Seq<TvShow>,
    f0: Seq<TvShow>,
    s0: Option<TvShow>,
    ss0: Seq<Season>,
    z0: Option<Season>,
    ea: Seq<EpisodeModel>,
)
    requires
        found_grown(f, f0, s0, ss0, z0, ea),
    ensures
        adds_open_show(
            f,
            f0,
            match s0 {
                Some(x) => Some(x@),
                None => None,
            },
            ss0.map_values(|x: Season| x@),
            match z0 {
                Some(x) => Some(x@),
                None => None,
            },
            ea,
        ),
{
    if f != f0 {
        let x = f.last();
        let v = x.seasons->0@;
        let mv = v.map_values(|y: Season| y@);
        assert(x@.seasons == Some(mv));
        if v != ss0 {
            let y = v.last();
            let ev = y.episodes->0@;
            assert(mv.take(ss0.len() as int) =~= ss0.map_values(|y: Season| y@));
            assert(mv.last() == y@);
            assert(y@.episodes == Some(ev.map_values(|e: Episode| e@)));
        } else {
            assert(mv =~= ss0.map_values(|y: Season| y@));
        }
    }
}

/// Two crawl states that agree on everything above the open season.
pub open spec fn same_above_season(a: &ShowCrawl, b: &ShowCrawl) -> bool {
    &&& a.cache() == b.cache()
    &&& a.root() == b.root()
    &&& a.root_listed() == b.root_listed()
    &&& a.found() == b.found()
    &&& a.pending_shows() == b.pending_shows()
    &&& a.open_show() == b.open_show()
    &&& a.show_listed() == b.show_listed()
    &&& a.open_seasons() == b.open_seasons()
    &&& a.pending_seasons() == b.pending_seasons()
}

/// Two crawl states that agree on everything but the open season's
/// episodes and what they wait for.
pub open spec fn same_but_episodes(a: &ShowCrawl, b: &ShowCrawl) -> bool {
    &&& same_above_season(a, b)
    &&& a.open_season() == b.open_season()
    &&& a.season_walk() == b.season_walk()
    &&& a.pending_files() == b.pending_files()
}

/// Two crawl states that differ at most in what they wait for.
pub open spec fn same_progress(a: &ShowCrawl, b: &ShowCrawl) -> bool {
    &&& same_but_episodes(a, b)
    &&& a.open_episodes() == b.open_episodes()
}

/// The seasons known for a show frame: those of the cached show it was
/// opened from, if any.
spec fn known_seasons(cache: Seq<TvShow>, cached: Option<usize>) -> Seq<Season> {
    match cached {
        Some(i) => seasons_of(cache[i as int]),
        None => Seq::empty(),
    }
}

impl ShowCrawl {
    pub closed spec fn wf(&self) -> bool {
        &&& self.next_show <= self.show_dirs@.len()
        &&& !self.root_listed ==> self.show_dirs@.len() == 0 && self.show is None
        &&& forall|i: int| 0 <= i < self.show_dirs@.len() ==> (#[trigger] self.show_dirs@[i]).path@ == join_spec(self.root@, self.show_dirs@[i].name@)
        &&& forall|i: int| 0 <= i < self.shows@.len() ==> show_contained(#[trigger] self.shows@[i])
        &&& self.show is Some ==> {
            let f = self.show->0;
            &&& f.wf(known_seasons(self.cache@, f.cached))
            &&& opt_index(f.cached) == first_at(self.cache@, f.path())
            &&& f.cached is Some ==> f.cached->0 < self.cache@.len()
        }
        &&& match self.wait {
            Wait::Nothing => true,
            Wait::Root => self.show is None && self.root_listed,
            Wait::ShowDir => self.show is Some && self.show->0.season is None && self.show->0.listed,
            Wait::SeasonTree(d) => {
                &&& self.show is Some
                &&& self.show->0.season is Some
                &&& self.show->0.season->0.walk@.visited.contains(d@)
            },
            Wait::Show(p) => self.show is None && self.root_listed && !has_path(self.cache@, p@),
            Wait::Season(p) => {
                let f = self.show->0;
                &&& self.show is Some
                &&& f.season is None
                &&& f.listed
                &&& !has_path(known_seasons(self.cache@, f.cached), p@)
                &&& is_below(p@, f.path())
            },
            Wait::Episode(p) => {
                let f = self.show->0;
                let sf = f.season->0;
                &&& self.show is Some
                &&& f.season is Some
                &&& !has_path(known_episodes(known_seasons(self.cache@, f.cached), sf.cached), p@)
                &&& !has_path(sf.episodes@, p@)
                &&& is_below(p@, sf.path())
            },
        }
    }

    /// The folder's root directory.
    pub closed spec fn root(&self) -> Seq<char> {
        self.root@
    }

    /// The previous snapshot crawled against.
    pub closed spec fn cache(&self) -> Seq<TvShow> {
        self.cache@
    }

    /// The shows completed so far.
    pub closed spec fn found(&self) -> Seq<TvShow> {
        self.shows@
    }

    /// The path of the show being explored.
    pub closed spec fn show_path(&self) -> Option<Seq<char>> {
        match self.show {
            Some(f) => Some(f.path()),
            None => None,
        }
    }

    /// The id of the show being explored.
    pub closed spec fn show_id(&self) -> Option<i32> {
        match self.show {
            Some(f) => Some(f.show.id),
            None => None,
        }
    }

    /// The path of the season being explored.
    pub closed spec fn season_path(&self) -> Option<Seq<char>> {
        match self.show {
            Some(f) => match f.season {
                Some(sf) => Some(sf.path()),
                None => None,
            },
            None => None,
        }
    }

    /// The number of the season being explored.
    pub closed spec fn season_number(&self) -> Option<i32> {
        match self.show {
            Some(f) => match f.season {
                Some(sf) => Some(sf.season.season_number),
                None => None,
            },
            None => None,
        }
    }

    /// The path whose resolution is awaited.
    pub closed spec fn awaited(&self) -> Option<Seq<char>> {
        match self.wait {
            Wait::Show(p) => Some(p@),
            Wait::Season(p) => Some(p@),
            Wait::Episode(p) => Some(p@),
            _ => None,
        }
    }

    /// What the crawl waits for.
    pub closed spec fn waiting(&self) -> Awaiting {
        match self.wait {
            Wait::Nothing => Awaiting::Nothing,
            Wait::Root => Awaiting::RootListing,
            Wait::ShowDir => Awaiting::ShowListing,
            Wait::SeasonTree(d) => Awaiting::TreeListing(d@),
            Wait::Show(p) => Awaiting::Show(p@),
            Wait::Season(p) => Awaiting::Season(p@),
            Wait::Episode(p) => Awaiting::Episode(p@),
        }
    }

    /// Whether the root has been asked for.
    pub closed spec fn root_listed(&self) -> bool {
        self.root_listed
    }

    /// The show directories not taken yet, as (path, name).
    pub closed spec fn pending_shows(&self) -> Seq<(Seq<char>, Seq<char>)> {
        entries(self.show_dirs@).skip(self.next_show as int)
    }

    /// The show being explored, as opened (before its seasons are set).
    pub closed spec fn open_show(&self) -> Option<ShowModel> {
        match self.show {
            Some(f) => Some(f.show@),
            None => None,
        }
    }

    /// Whether the open show's directory has been asked for.
    pub closed spec fn show_listed(&self) -> bool {
        match self.show {
            Some(f) => f.listed,
            None => false,
        }
    }

    /// The finished seasons of the open show.
    pub closed spec fn open_seasons(&self) -> Seq<SeasonModel> {
        match self.show {
            Some(f) => models(f.seasons),
            None => Seq::empty(),
        }
    }

    /// The season directories of the open show not taken yet.
    pub closed spec fn pending_seasons(&self) -> Seq<(Seq<char>, Seq<char>)> {
        match self.show {
            Some(f) => entries(f.dirs@).skip(f.next_dir as int),
            None => Seq::empty(),
        }
    }

    /// The season being explored, as opened (before its episodes are set).
    pub closed spec fn open_season(&self) -> Option<SeasonModel> {
        match self.show {
            Some(f) => match f.season {
                Some(sf) => Some(sf.season@),
                None => None,
            },
            None => None,
        }
    }

    /// The episodes found so far in the open season.
    pub closed spec fn open_episodes(&self) -> Seq<EpisodeModel> {
        match self.show {
            Some(f) => match f.season {
                Some(sf) => models(sf.episodes),
                None => Seq::empty(),
            },
            None => Seq::empty(),
        }
    }

    /// The walk over the open season's tree.
    pub closed spec fn season_walk(&self) -> Option<WalkModel> {
        match self.show {
            Some(f) => match f.season {
                Some(sf) => Some(sf.walk@),
                None => None,
            },
            None => None,
        }
    }

    /// The files of the open season's tree not taken yet.
    pub closed spec fn pending_files(&self) -> Seq<(Seq<char>, Seq<char>)> {
        match self.show {
            Some(f) => match f.season {
                Some(sf) => entries(sf.files@).skip(sf.next_file as int),
                None => Seq::empty(),
            },
            None => Seq::empty(),
        }
    }

    spec fn frame_show(&self) -> Option<TvShow> {
        match self.show {
            Some(f) => Some(f.show),
            None => None,
        }
    }

    spec fn frame_seasons(&self) -> Seq<Season> {
        match self.show {
            Some(f) => f.seasons@,
            None => Seq::empty(),
        }
    }

    spec fn frame_season(&self) -> Option<Season> {
        match self.show {
            Some(f) => match f.season {
                Some(sf) => Some(sf.season),
                None => None,
            },
            None => None,
        }
    }

    spec fn frame(&self) -> Option<ShowFrame> {
        self.show
    }

    spec fn frame_sf(&self) -> Option<SeasonFrame> {
        match self.show {
            Some(f) => f.season,
            None => None,
        }
    }

    spec fn frame_episodes(&self) -> Seq<Episode> {
        match self.show {
            Some(f) => match f.season {
                Some(sf) => sf.episodes@,
                None => Seq::empty(),
            },
            None => Seq::empty(),
        }
    }

    spec fn c1(&self) -> int {
        self.show_dirs@.len() - self.next_show
    }

    spec fn c2(&self) -> int {
        if self.show is Some { 1 } else { 0 }
    }

    spec fn c3(&self) -> int {
        if self.show is Some {
            self.show->0.dirs@.len() - self.show->0.next_dir
        } else {
            0
        }
    }

    spec fn c4(&self) -> int {
        if self.show is Some && self.show->0.season is Some { 1 } else { 0 }
    }

    /// A crawl of the show folder at `root`, against the previous snapshot
    /// `cache`.
    pub fn new(root: String, cache: Vec<TvShow>) -> (c: ShowCrawl)
        ensures
            c.wf(),
            c.cache() == cache@,
            c.root() == root@,
            !c.root_listed(),
            c.found().len() == 0,
            c.show_path() is None,
            c.waiting() is Nothing,
    {
        ShowCrawl {
            cache,
            root,
            root_listed: false,
            show_dirs: Vec::new(),
            next_show: 0,
            show: None,
            wait: Wait::Nothing,
            shows: Vec::new(),
        }
    }

    /// The next thing the crawl needs. The root is listed first; each show
    /// directory is then taken from the cache or resolved, its directory
    /// listed, each season directory taken from the cached show's seasons or
    /// resolved, and the season's tree walked, each episode file taken from
    /// the cached season's episodes or resolved. Nothing whose path the
    /// relevant cached list holds is ever resolved.
    #[verifier::rlimit(100)]
    pub fn next_step(&mut self) -> (r: ShowStep)
        requires
            old(self).wf(),
        ensures
            final(self).wf(),
            final(self).cache() == old(self).cache(),
            final(self).root() == old(self).root(),
            !old(self).root_listed() ==> r is List && r->List_0@ == old(self).root() && final(self).root_listed()
                && final(self).waiting() is RootListing,
            old(self).root_listed() && old(self).open_show() is None ==> {
                let pend = old(self).pending_shows();
                let cache = old(self).cache();
                &&& final(self).found() == old(self).found()
                &&& pend.len() == 0 ==> r is Done
                &&& pend.len() > 0 && has_path(cache, pend[0].0) ==> {
                    &&& r is List
                    &&& r->List_0@ == pend[0].0
                    &&& final(self).open_show() == Some(cache[first_at(cache, pend[0].0)->0]@)
                    &&& final(self).show_listed()
                    &&& final(self).pending_seasons().len() == 0
                    &&& final(self).pending_shows() == pend.skip(1)
                }
                &&& pend.len() > 0 && !has_path(cache, pend[0].0) ==> {
                    &&& r is ResolveShow
                    &&& r->ResolveShow_0.path@ == pend[0].0
                    &&& r->ResolveShow_0.title@ == title_spec(stem(pend[0].1))
                    &&& opt_view(r->ResolveShow_0.year) == year_spec(stem(pend[0].1))
                    &&& final(self).pending_shows() == pend.skip(1)
                }
            },
            old(self).show_listed() && old(self).open_season() is None ==> {
                let pend = old(self).pending_seasons();
                let known = cached_seasons(old(self).cache(), old(self).show_path()->0);
                let k = season_skip(known, pend) as int;
                &&& k < pend.len() && has_path(known, pend[k].0) ==> {
                    &&& r is List
                    &&& r->List_0@ == pend[k].0
                    &&& final(self).open_season() == Some(known[first_at(known, pend[k].0)->0]@)
                    &&& final(self).pending_seasons() == pend.skip(k + 1)
                }
                &&& k < pend.len() && !has_path(known, pend[k].0) ==> {
                    &&& r is ResolveSeason
                    &&& r->ResolveSeason_0.path@ == pend[k].0
                    &&& season_spec(pend[k].1) == Some(r->ResolveSeason_0.season_number)
                    &&& final(self).pending_seasons() == pend.skip(k + 1)
                }
                &&& k >= pend.len() ==> final(self).found().len() == old(self).found().len() + 1
            },
            old(self).open_show() is Some && !old(self).show_listed() ==> {
                &&& r is List
                &&& Some(r->List_0@) == old(self).show_path()
                &&& final(self).show_listed()
                &&& final(self).waiting() is ShowListing
                &&& final(self).found() == old(self).found()
            },
            old(self).season_walk() is Some ==> {
                let pend = old(self).pending_files();
                let known = cached_episodes(
                    cached_seasons(old(self).cache(), old(self).show_path()->0),
                    old(self).season_path()->0,
                );
                let scan = episode_scan(known, old(self).open_episodes(), pend);
                let w = old(self).season_walk()->0;
                let k = last_fresh(w.stack, w.visited);
                let eps = old(self).open_episodes() + scan.0;
                let cs = SeasonModel { episodes: Some(eps), ..old(self).open_season()->0 };
                &&& scan.1 < pend.len() ==> r is ResolveEpisode
                &&& scan.1 >= pend.len() && k >= 0 ==> {
                    &&& r is List
                    &&& r->List_0@ == w.stack[k]
                    &&& final(self).season_walk() == Some(
                        WalkModel { stack: w.stack.take(k), visited: w.visited.push(w.stack[k]), ..w },
                    )
                    &&& final(self).waiting() == Awaiting::TreeListing(w.stack[k])
                    &&& final(self).open_season() == old(self).open_season()
                    &&& final(self).open_episodes() == eps
                    &&& final(self).pending_files().len() == 0
                    &&& same_above_season(final(self), old(self))
                }
                &&& scan.1 >= pend.len() && k < 0 ==> {
                    ||| {
                        &&& final(self).found() == old(self).found()
                        &&& final(self).open_show() == old(self).open_show()
                        &&& final(self).open_seasons() == old(self).open_seasons().push(cs)
                    }
                    ||| {
                        &&& final(self).found().len() == old(self).found().len() + 1
                        &&& final(self).found().last()@.seasons == Some(old(self).open_seasons().push(cs))
                    }
                }
            },
            old(self).season_walk() is Some && r is ResolveEpisode ==> {
                let pend = old(self).pending_files();
                let known = cached_episodes(
                    cached_seasons(old(self).cache(), old(self).show_path()->0),
                    old(self).season_path()->0,
                );
                let scan = episode_scan(known, old(self).open_episodes(), pend);
                &&& final(self).open_episodes() == old(self).open_episodes() + scan.0
                &&& scan.1 < pend.len()
                &&& r->ResolveEpisode_0.path@ == pend[scan.1 as int].0
                &&& episode_spec(pend[scan.1 as int].1) == Some(r->ResolveEpisode_0.episode_number)
                &&& final(self).pending_files() == pend.skip(scan.1 as int + 1)
            },
            adds_open_show(
                final(self).found(),
                old(self).found(),
                old(self).open_show(),
                old(self).open_seasons(),
                old(self).open_season(),
                old(self).open_episodes() + episode_scan(
                    cached_episodes(cached_seasons(old(self).cache(), old(self).show_path()->0), old(self).season_path()->0),
                    old(self).open_episodes(),
                    old(self).pending_files(),
                ).0,
            ),
            match r {
                ShowStep::ResolveShow(q) => {
                    &&& !has_path(final(self).cache(), q.path@)
                    &&& exists|n: Seq<char>| {
                        &&& q.path@ == join_spec(final(self).root(), n)
                        &&& q.title@ == title_spec(stem(n))
                        &&& opt_view(q.year) == year_spec(stem(n))
                    }
                    &&& final(self).show_path() is None
                    &&& final(self).awaited() == Some(q.path@)
                },
                ShowStep::ResolveSeason(q) => {
                    let sp = final(self).show_path()->0;
                    &&& final(self).show_path() is Some
                    &&& final(self).season_path() is None
                    &&& !has_path(cached_seasons(final(self).cache(), sp), q.path@)
                    &&& exists|n: Seq<char>| q.path@ == join_spec(sp, n) && season_spec(n) == Some(q.season_number)
                    &&& is_below(q.path@, sp)
                    &&& final(self).show_id() == Some(q.show_id)
                    &&& final(self).awaited() == Some(q.path@)
                },
                ShowStep::ResolveEpisode(q) => {
                    let sp = final(self).show_path()->0;
                    let zp = final(self).season_path()->0;
                    &&& final(self).show_path() is Some
                    &&& final(self).season_path() is Some
                    &&& !has_path(cached_episodes(cached_seasons(final(self).cache(), sp), zp), q.path@)
                    &&& exists|d: Seq<char>, n: Seq<char>|
                        within(d, zp) && q.path@ == join_spec(d, n) && episode_spec(n) == Some(q.episode_number)
                    &&& is_below(q.path@, zp)
                    &&& final(self).show_id() == Some(q.show_id)
                    &&& final(self).season_number() == Some(q.season_number)
                    &&& final(self).awaited() == Some(q.path@)
                },
                ShowStep::List(d) => {
                    &&& final(self).awaited() is None
                    &&& {
                        ||| d@ == final(self).root()
                        ||| final(self).season_path() is None && final(self).show_path() == Some(d@)
                        ||| final(self).season_path() is Some && within(d@, final(self).season_path()->0)
                    }
                },
                ShowStep::Done => {
                    &&& final(self).root_listed()
                    &&& final(self).pending_shows().len() == 0
                    &&& final(self).open_show() is None
                    &&& final(self).show_path() is None
                    &&& final(self).awaited() is None
                },
            },
    {
        self.wait = Wait::Nothing;
        let empty_seasons: Vec<Season> = Vec::new();
        let empty_episodes: Vec<Episode> = Vec::new();
        let ghost found0 = self.shows@;
        let ghost s0 = self.frame_show();
        let ghost ss0 = self.frame_seasons();
        let ghost z0 = self.frame_season();
        let ghost e0 = self.frame_episodes();
        let ghost sfo = self.frame_sf();
        let ghost fo = self.frame();
        let ghost next0 = self.next_show;
        let ghost mut closed = false;
        let ghost ea: Seq<EpisodeModel> = match sfo {
            Some(sf) => models(sf.episodes) + episode_scan(
                known_episodes(known_seasons(self.cache@, fo->0.cached), sf.cached),
                models(sf.episodes),
                entries(sf.files@).skip(sf.next_file as int),
            ).0,
            None => Seq::empty(),
        };
        proof {
            if sfo is None {
                assert(old(self).pending_files() =~= Seq::<(Seq<char>, Seq<char>)>::empty());
                assert(old(self).open_episodes() =~= Seq::<EpisodeModel>::empty());
                assert(ea =~= old(self).open_episodes() + episode_scan(
                    cached_episodes(cached_seasons(old(self).cache(), old(self).show_path()->0), old(self).season_path()->0),
                    old(self).open_episodes(),
                    old(self).pending_files(),
                ).0);
            } else {
                let f = fo->0;
                assert(cached_seasons(old(self).cache(), f.path()) == known_seasons(old(self).cache@, f.cached));
                assert(cached_episodes(known_seasons(old(self).cache@, f.cached), sfo->0.path())
                    == known_episodes(known_seasons(old(self).cache@, f.cached), sfo->0.cached));
            }
        }
        proof {
            assert(old(self).open_seasons() == ss0.map_values(|x: Season| x@));
            assert(old(self).open_episodes() == e0.map_values(|x: Episode| x@));
        }
        loop
            invariant
                self.wf(),
                found0 == old(self).shows@,
                old(self).open_show() == (match s0 {
                    Some(x) => Some(x@),
                    None => None,
                }),
                old(self).open_seasons() == ss0.map_values(|x: Season| x@),
                old(self).open_season() == (match z0 {
                    Some(x) => Some(x@),
                    None => None,
                }),
                old(self).open_episodes() == e0.map_values(|x: Episode| x@),
                found_grown(self.shows@, found0, s0, ss0, z0, ea),
                ea == old(self).open_episodes() + episode_scan(
                    cached_episodes(cached_seasons(old(self).cache(), old(self).show_path()->0), old(self).season_path()->0),
                    old(self).open_episodes(),
                    old(self).pending_files(),
                ).0,
                sfo is Some ==> ea == models(sfo->0.episodes) + episode_scan(
                    known_episodes(known_seasons(old(self).cache@, fo->0.cached), sfo->0.cached),
                    models(sfo->0.episodes),
                    entries(sfo->0.files@).skip(sfo->0.next_file as int),
                ).0,
                self.shows@ != found0 ==> self.show is None || !self.show->0.listed,
                old(self).frame_sf() == sfo,
                old(self).frame() == fo,
                fo is Some && fo->0.listed && fo->0.season is None ==> season_step(self, fo->0, found0),
                fo is Some && fo->0.listed && fo->0.season is None ==> {
                    &&& old(self).pending_seasons() == entries(fo->0.dirs@).skip(fo->0.next_dir as int)
                    &&& old(self).show_path() == Some(fo->0.path())
                    &&& cached_seasons(old(self).cache(), fo->0.path()) == known_seasons(old(self).cache@, fo->0.cached)
                    &&& old(self).show_listed()
                    &&& old(self).open_season() is None
                },
                old(self).show_listed() && old(self).open_season() is None ==> fo is Some && fo->0.listed
                    && fo->0.season is None,
                next0 == old(self).next_show,
                fo is Some && !fo->0.listed ==> self.show == fo && self.shows@ == found0,
                sfo is Some && !closed ==> self.show == fo && self.shows@ == found0 && self.next_show == next0,
                closed ==> sfo is Some && old(self).open_season() is Some,
                old(self).season_walk() is Some <==> sfo is Some,
                sfo is Some ==> {
                    let sf = sfo->0;
                    &&& fo is Some
                    &&& old(self).season_walk() == Some(sf.walk@)
                    &&& old(self).pending_files() == entries(sf.files@).skip(sf.next_file as int)
                    &&& old(self).open_episodes() == models(sf.episodes)
                    &&& old(self).open_season() == Some(sf.season@)
                    &&& cached_episodes(cached_seasons(old(self).cache(), old(self).show_path()->0), old(self).season_path()->0)
                        == known_episodes(known_seasons(old(self).cache@, fo->0.cached), sf.cached)
                },
                closed ==> {
                    let sf = sfo->0;
                    let pend = entries(sf.files@).skip(sf.next_file as int);
                    let kn = known_episodes(known_seasons(old(self).cache@, fo->0.cached), sf.cached);
                    &&& episode_scan(kn, models(sf.episodes), pend).1 >= pend.len()
                    &&& last_fresh(sf.walk@.stack, sf.walk@.visited) < 0
                },
                closed ==> {
                    let cs = SeasonModel { episodes: Some(ea), ..old(self).open_season()->0 };
                    &&& self.shows@ == found0 ==> {
                        &&& self.show is Some
                        &&& self.show->0.listed
                        &&& self.show->0.show == fo->0.show
                        &&& models(self.show->0.seasons) == old(self).open_seasons().push(cs)
                    }
                    &&& self.shows@ != found0 ==> {
                        &&& self.shows@.len() == found0.len() + 1
                        &&& self.shows@.last()@.seasons == Some(old(self).open_seasons().push(cs))
                    }
                },
                old(self).pending_shows() == entries(self.show_dirs@).skip(next0 as int),
                old(self).show_dirs == self.show_dirs,
                fo is None && old(self).root_listed ==> {
                    let pend = entries(self.show_dirs@).skip(next0 as int);
                    ||| (self.show is None && self.next_show == next0 && self.shows@ == found0)
                    ||| {
                        let fr = self.show->0;
                        &&& self.show is Some
                        &&& !fr.listed
                        &&& self.shows@ == found0
                        &&& pend.len() > 0
                        &&& has_path(self.cache@, pend[0].0)
                        &&& fr.show@ == self.cache@[first_at(self.cache@, pend[0].0)->0]@
                        &&& self.next_show == next0 + 1
                    }
                },
                self.show is Some && self.show->0.season is Some ==> {
                    let sf = self.show->0.season->0;
                    ||| Some(sf) == sfo
                    ||| (sf.walk@.visited.len() == 0 && sf.walk@.stack == seq![sf.walk@.root]
                        && sf.next_file == sf.files@.len())
                },
                self.shows@ == found0 && self.show is Some && self.show->0.listed ==> {
                    let fr = self.show->0;
                    &&& s0 is Some
                    &&& fr.show == s0->0
                    &&& season_grown(fr.seasons@, ss0, z0, ea)
                    &&& fo is Some
                    &&& fr.cached == fo->0.cached
                    &&& fr.season is Some ==> {
                        let sf = fr.season->0;
                        ||| (fr.seasons@ == ss0 && z0 == Some(sf.season) && sf.episodes@.len() >= e0.len()
                            && sf.episodes@.take(e0.len() as int) == e0)
                        ||| (sf.walk@.visited.len() == 0 && sf.walk@.stack == seq![sf.walk@.root])
                    }
                },
                self.cache@ == old(self).cache@,
                self.root == old(self).root,
                !old(self).root_listed ==> !self.root_listed,
                old(self).root_listed ==> self.root_listed,
                self.wait is Nothing,
                empty_seasons@.len() == 0,
                empty_episodes@.len() == 0,
            decreases self.c1(), self.c2(), self.c3(), self.c4(),
        {
            match self.show.take() {
                Some(mut frame) => {
                    let ghost f0 = frame;
                    let known: &Vec<Season> = match frame.cached {
                        Some(i) => match &self.cache[i].seasons {
                            Some(v) => v,
                            None => &empty_seasons,
                        },
                        None => &empty_seasons,
                    };
                    assert(known@ == known_seasons(self.cache@, frame.cached));
                    assert(known@ == cached_seasons(self.cache@, frame.path()));
                    match frame.season.take() {
                        Some(mut sf) => {
                            let known_eps: &Vec<Episode> = match sf.cached {
                                Some(k) => match &known[k].episodes {
                                    Some(v) => v,
                                    None => &empty_episodes,
                                },
                                None => &empty_episodes,
                            };
                            assert(known_eps@ == known_episodes(known@, sf.cached));
                            assert(known_eps@ == cached_episodes(known@, sf.path()));
                            let show_id = frame.show.id;
                            let ghost sf0 = sf;
                            match sf.advance(known_eps, show_id) {
                                EpisodeAdvance::Resolve(q) => {
                                    self.wait = Wait::Episode(q.path.clone());
                                    frame.season = Some(sf);
                                    self.show = Some(frame);
                                    proof {
                                        lemma_found_models(self.shows@, found0, s0, ss0, z0, ea);
                                        assert(Some(sf0) == sfo);
                                        assert(old(self).season_walk() is Some);
                                        assert(old(self).show_path() == Some(f0.path()));
                                        assert(old(self).season_path() == Some(sf0.path()));
                                        assert(old(self).pending_files() == entries(sf0.files@).skip(sf0.next_file as int));
                                        assert(old(self).open_episodes() == models(sf0.episodes));
                                        assert(self.open_episodes() == models(sf.episodes));
                                        assert(self.pending_files() == entries(sf.files@).skip(sf.next_file as int));
                                    }
                                    return ShowStep::ResolveEpisode(q);
                                },
                                EpisodeAdvance::List(d) => {
                                    self.wait = Wait::SeasonTree(d.clone());
                                    frame.season = Some(sf);
                                    self.show = Some(frame);
                                    proof {
                                        lemma_found_models(self.shows@, found0, s0, ss0, z0, ea);
                                        if sfo is Some && !closed {
                                            assert(Some(sf0) == sfo);
                                            assert(f0 == fo->0);
                                            assert(self.season_walk() == Some(sf.walk@));
                                            assert(self.open_episodes() == models(sf.episodes));
                                            assert(self.pending_files() =~= Seq::<(Seq<char>, Seq<char>)>::empty());
                                            assert(self.open_season() == old(self).open_season());
                                            assert(self.open_seasons() == old(self).open_seasons());
                                            assert(self.pending_seasons() == old(self).pending_seasons());
                                            assert(self.open_show() == old(self).open_show());
                                            let w = sf0.walk@;
                                            let k = last_fresh(w.stack, w.visited);
                                            assert(k >= 0);
                                            assert(d@ == w.stack[k]);
                                            assert(self.waiting() == Awaiting::TreeListing(w.stack[k]));
                                            assert(self.season_walk() == Some(
                                                WalkModel { stack: w.stack.take(k), visited: w.visited.push(w.stack[k]), ..w }));
                                            assert(same_above_season(self, old(self)));
                                        }
                                        if fo is Some && fo->0.listed && fo->0.season is None {
                                            let fr = fo->0;
                                            let pend = entries(fr.dirs@).skip(fr.next_dir as int);
                                            let kn = known_seasons(self.cache@, fr.cached);
                                            let k = season_skip(kn, pend) as int;
                                            assert(f0.season is Some);
                                            assert(f0.listed);
                                            assert(k < pend.len() && has_path(kn, pend[k].0));
                                            assert(!sf0.walk@.visited.contains(sf0.walk@.root));
                                            assert(sf0.walk@.stack.last() == sf0.walk@.root);
                                            assert(last_fresh(sf0.walk@.stack, sf0.walk@.visited) == 0);
                                            assert(d@ == sf0.walk@.root);
                                            crate::cache::lemma_first_at_found(kn, pend[k].0);
                                            assert(sf0.season@ == kn[first_at(kn, pend[k].0)->0]@);
                                            assert(d@ == pend[k].0);
                                            assert(old(self).pending_seasons() == pend);
                                            assert(old(self).show_path() == Some(fr.path()));
                                            assert(cached_seasons(old(self).cache(), fr.path()) == kn);
                                            assert(self.open_season() == Some(sf0.season@));
                                            assert(self.pending_seasons() == pend.skip(k + 1));
                                        }
                                    }
                                    return ShowStep::List(d);
                                },
                                EpisodeAdvance::Finished => {
                                    let done = Season { episodes: Some(sf.episodes), ..sf.season };
                                    proof {
                                        assert(episodes_of(done) == sf.episodes@);
                                        assert(season_contained(done));
                                    }
                                    frame.seasons.push(done);
                                    proof {
                                        assert(frame.seasons@.last() == done);
                                        assert forall|i: int| 0 <= i < frame.seasons@.len() implies {
                                            let x = #[trigger] frame.seasons@[i];
                                            season_contained(x) && is_below(x.path->0@, frame.path())
                                        } by {
                                            if i < frame.seasons@.len() - 1 {
                                                assert(frame.seasons@[i] == f0.seasons@[i]);
                                            }
                                        }
                                    }
                                    self.show = Some(frame);
                                    proof {
                                        if self.shows@ == found0 && f0.listed {
                                            if sf0.walk@.visited.len() == 0 && sf0.walk@.stack == seq![sf0.walk@.root] {
                                                assert(!sf0.walk@.visited.contains(sf0.walk@.root));
                                                assert(sf0.walk@.stack.last() == sf0.walk@.root);
                                                assert(last_fresh(sf0.walk@.stack, sf0.walk@.visited) == 0);
                                            }
                                            assert(f0.seasons@ == ss0);
                                            assert(frame.seasons@.take(ss0.len() as int) =~= ss0);
                                            assert(Some(sf0) == sfo);
                                            assert(models(sf.episodes) == ea);
                                            assert(frame.seasons@.last() == done);
                                        }
                                        if sfo is Some && !closed {
                                            assert(Some(sf0) == sfo);
                                            assert(f0.cached == fo->0.cached);
                                            assert(f0 == fo->0);
                                            assert(models(sf.episodes) == ea);
                                            assert(done@ == SeasonModel { episodes: Some(ea), ..old(self).open_season()->0 });
                                            assert(models(frame.seasons) =~= old(self).open_seasons().push(done@));
                                        }
                                    }
                                    proof {
                                        closed = true;
                                    }
                                },
                            }
                        },
                        None => {
                            match frame.advance(known) {
                                SeasonAdvance::Resolve(q) => {
                                    self.wait = Wait::Season(q.path.clone());
                                    self.show = Some(frame);
                                    proof {
                                        lemma_found_models(self.shows@, found0, s0, ss0, z0, ea);
                                    }
                                    return ShowStep::ResolveSeason(q);
                                },
                                SeasonAdvance::List(d) => {
                                    self.wait = Wait::ShowDir;
                                    self.show = Some(frame);
                                    proof {
                                        lemma_found_models(self.shows@, found0, s0, ss0, z0, ea);
                                        if fo is None && old(self).root_listed {
                                            let pend = entries(self.show_dirs@).skip(next0 as int);
                                            crate::cache::lemma_first_at_found(self.cache@, pend[0].0);
                                            assert(d@ == pend[0].0);
                                            assert(entries(self.show_dirs@).skip(self.next_show as int) =~= pend.skip(1));
                                            assert(self.pending_seasons() =~= Seq::<(Seq<char>, Seq<char>)>::empty());
                                        }
                                    }
                                    return ShowStep::List(d);
                                },
                                SeasonAdvance::Opened => {
                                    self.show = Some(frame);
                                },
                                SeasonAdvance::Finished => {
                                    let ghost before = self.shows@;
                                    let done = TvShow { seasons: Some(frame.seasons), ..frame.show };
                                    proof {
                                        assert(seasons_of(done) == frame.seasons@);
                                        assert(show_contained(done));
                                    }
                                    self.shows.push(done);
                                    proof {
                                        assert(self.shows@.take(before.len() as int) =~= before);
                                        assert(self.shows@.last() == done);
                                        assert(done@.seasons == Some(models(frame.seasons)));
                                        assert forall|i: int| 0 <= i < self.shows@.len() implies show_contained(#[trigger] self.shows@[i]) by {
                                            if i < before.len() {
                                                assert(self.shows@[i] == before[i]);
                                            }
                                        }
                                    }
                                },
                            }
                        },
                    }
                },
                None => {
                    if !self.root_listed {
                        self.root_listed = true;
                        self.wait = Wait::Root;
                        proof {
                            lemma_found_models(self.shows@, found0, s0, ss0, z0, ea);
                        }
                        return ShowStep::List(self.root.clone());
                    }
                    if self.next_show < self.show_dirs.len() {
                        let i = self.next_show;
                        self.next_show = i + 1;
                        match find_by_path(&self.cache, &self.show_dirs[i].path) {
                            Some(k) => {
                                let s = self.cache[k].clone();
                                proof {
                                    assert(s@.path == self.cache@[k as int]@.path);
                                    assert(opt_view(s.path) == Some(self.show_dirs@[i as int].path@));
                                }
                                let f = ShowFrame::open(s, Some(k));
                                assert(f.path() == self.show_dirs@[i as int].path@);
                                self.show = Some(f);
                                proof {
                                    if fo is None && old(self).root_listed {
                                        let pend = entries(self.show_dirs@).skip(next0 as int);
                                        assert(pend[0] == entries(self.show_dirs@)[i as int]);
                                        assert(entries(self.show_dirs@)[i as int].0 == self.show_dirs@[i as int].path@);
                                    }
                                }
                            },
                            None => {
                                let parsed = parse_name(self.show_dirs[i].name.as_str());
                                proof {
                                    let f = self.show_dirs@[i as int];
                                    assert(f.path@ == join_spec(self.root@, f.name@));
                                }
                                let q = ShowQuery { path: self.show_dirs[i].path.clone(), title: parsed.title, year: parsed.year };
                                self.wait = Wait::Show(self.show_dirs[i].path.clone());
                                proof {
                                    let n = self.show_dirs@[i as int].name@;
                                    assert(q.path@ == join_spec(self.root(), n) && q.title@ == title_spec(stem(n))
                                        && opt_view(q.year) == year_spec(stem(n)));
                                    assert(self.awaited() == Some(q.path@));
                                    assert(self.show_path() is None);
                                    assert(!has_path(self.cache(), q.path@));
                                }
                                proof {
                                    lemma_found_models(self.shows@, found0, s0, ss0, z0, ea);
                                }
                                return ShowStep::ResolveShow(q);
                            },
                        }
                    } else {
                        assert(entries(self.show_dirs@).skip(self.next_show as int).len() == 0);
                        proof {
                            lemma_found_models(self.shows@, found0, s0, ss0, z0, ea);
                        }
                        return ShowStep::Done;
                    }
                },
            }
        }
    }

    /// Takes the listing of the directory last asked for (`None` when it
    /// could not be entered or listed, and the branch is abandoned). At the
    /// root and at a show, its subdirectories become pending shows or
    /// seasons; in a season's tree, its subdirectories join the walk and its
    /// files become pending episodes.
    pub fn on_listing(&mut self, names: Option<Vec<String>>)
        requires
            old(self).wf(),
        ensures
            final(self).wf(),
            final(self).cache() == old(self).cache(),
            final(self).found() == old(self).found(),
            final(self).show_path() == old(self).show_path(),
            final(self).season_path() == old(self).season_path(),
            final(self).awaited() is None,
            final(self).waiting() is Nothing,
            final(self).root() == old(self).root(),
            final(self).root_listed() == old(self).root_listed(),
            final(self).open_show() == old(self).open_show(),
            final(self).show_listed() == old(self).show_listed(),
            final(self).open_seasons() == old(self).open_seasons(),
            final(self).open_season() == old(self).open_season(),
            final(self).open_episodes() == old(self).open_episodes(),
            match (old(self).waiting(), names) {
                (Awaiting::RootListing, Some(ns)) => {
                    &&& final(self).pending_shows() == dir_entries(old(self).root(), strs(ns@))
                    &&& final(self).pending_seasons() == old(self).pending_seasons()
                    &&& final(self).season_walk() == old(self).season_walk()
                    &&& final(self).pending_files() == old(self).pending_files()
                },
                (Awaiting::ShowListing, Some(ns)) => {
                    &&& final(self).pending_shows() == old(self).pending_shows()
                    &&& final(self).pending_seasons() == dir_entries(old(self).show_path()->0, strs(ns@))
                    &&& final(self).season_walk() == old(self).season_walk()
                    &&& final(self).pending_files() == old(self).pending_files()
                },
                (Awaiting::TreeListing(d), Some(ns)) => {
                    let w0 = old(self).season_walk()->0;
                    let w = final(self).season_walk()->0;
                    let added = dir_entries(d, strs(ns@)).map_values(|e: (Seq<char>, Seq<char>)| e.0);
                    &&& final(self).pending_shows() == old(self).pending_shows()
                    &&& final(self).pending_seasons() == old(self).pending_seasons()
                    &&& final(self).season_walk() is Some
                    &&& w.root == w0.root
                    &&& w.visited == w0.visited
                    &&& w.stack == w0.stack + added
                    &&& w.pushed == w0.pushed + added.to_set()
                    &&& final(self).pending_files() == file_entries(d, strs(ns@))
                },
                _ => same_progress(final(self), old(self)),
            },
    {
        let mut wait = Wait::Nothing;
        std::mem::swap(&mut self.wait, &mut wait);
        let ns = match names {
            Some(ns) => ns,
            None => return,
        };
        match wait {
            Wait::Root => {
                let (dirs, _files) = split_listing(&self.root, &ns);
                proof {
                    lemma_listing_descends(self.root@, strs(ns@));
                    assert forall|i: int| 0 <= i < dirs@.len() implies (#[trigger] dirs@[i]).path@ == join_spec(self.root@, dirs@[i].name@) by {
                        assert(entries(dirs@)[i] == (dirs@[i].path@, dirs@[i].name@));
                        assert(dir_entries(self.root@, strs(ns@))[i] == entries(dirs@)[i]);
                    }
                }
                self.show_dirs = dirs;
                self.next_show = 0;
                assert(entries(self.show_dirs@).skip(0) =~= entries(self.show_dirs@));
            },
            Wait::ShowDir => {
                let mut frame = self.show.take().unwrap();
                let sp = match &frame.show.path {
                    Some(p) => p.clone(),
                    None => String::new(),
                };
                let (dirs, _files) = split_listing(&sp, &ns);
                proof {
                    lemma_listing_descends(sp@, strs(ns@));
                    assert forall|i: int| 0 <= i < dirs@.len() implies is_below((#[trigger] dirs@[i]).path@, sp@)
                        && dirs@[i].path@ == join_spec(sp@, dirs@[i].name@) by {
                        assert(entries(dirs@)[i] == (dirs@[i].path@, dirs@[i].name@));
                        assert(dir_entries(sp@, strs(ns@))[i] == entries(dirs@)[i]);
                    }
                }
                frame.dirs = dirs;
                frame.next_dir = 0;
                assert(entries(frame.dirs@).skip(0) =~= entries(frame.dirs@));
                self.show = Some(frame);
            },
            Wait::SeasonTree(d) => {
                let mut frame = self.show.take().unwrap();
                let mut sf = frame.season.take().unwrap();
                proof {
                    let v = sf.walk@.visited;
                    let m = choose|m: int| 0 <= m < v.len() && v[m] == d@;
                    assert(sf.walk@.pushed.contains(v[m]));
                    assert(within(d@, sf.path()));
                }
                let files = sf.walk.expand(&d, &ns);
                sf.file_dirs = Ghost(Seq::new(files@.len(), |i: int| d@));
                sf.files = files;
                sf.next_file = 0;
                assert(entries(sf.files@).skip(0) =~= entries(sf.files@));
                frame.season = Some(sf);
                self.show = Some(frame);
            },
            _ => {},
        }
    }

    /// Takes the outcome of the show resolution last asked for: the show is
    /// explored next, with the directory's path; `None` skips the directory.
    pub fn on_show(&mut self, show: Option<TvShow>)
        requires
            old(self).wf(),
        ensures
            final(self).wf(),
            final(self).waiting() is Nothing,
            match (old(self).waiting(), show) {
                (Awaiting::Show(p), Some(sh)) => {
                    &&& final(self).cache() == old(self).cache()
                    &&& final(self).root() == old(self).root()
                    &&& final(self).root_listed() == old(self).root_listed()
                    &&& final(self).found() == old(self).found()
                    &&& final(self).pending_shows() == old(self).pending_shows()
                    &&& final(self).open_show() == Some(ShowModel { path: Some(p), seasons: None, ..sh@ })
                    &&& final(self).show_path() == Some(p)
                    &&& !final(self).show_listed()
                    &&& final(self).open_seasons().len() == 0
                    &&& final(self).pending_seasons().len() == 0
                    &&& final(self).open_season() is None
                },
                _ => same_progress(final(self), old(self)),
            },
    {
        let mut wait = Wait::Nothing;
        std::mem::swap(&mut self.wait, &mut wait);
        let path = match wait {
            Wait::Show(p) => Some(p),
            _ => None,
        };
        match (path, show) {
            (Some(p), Some(s)) => {
                proof {
                    crate::cache::lemma_first_at_found(self.cache@, p@);
                }
                let stamped = TvShow { path: Some(p), seasons: None, ..s };
                self.show = Some(ShowFrame::open(stamped, None));
                assert(self.open_seasons() =~= Seq::<SeasonModel>::empty());
                assert(self.pending_seasons() =~= Seq::<(Seq<char>, Seq<char>)>::empty());
            },
            _ => {},
        }
    }

    /// Takes the outcome of the season resolution last asked for: the season
    /// is explored next, with the directory's path; `None` skips the
    /// directory.
    pub fn on_season(&mut self, season: Option<Season>)
        requires
            old(self).wf(),
        ensures
            final(self).wf(),
            final(self).waiting() is Nothing,
            same_above_season(final(self), old(self)),
            match (old(self).waiting(), season) {
                (Awaiting::Season(p), Some(se)) => {
                    &&& final(self).open_season() == Some(SeasonModel { path: Some(p), episodes: None, ..se@ })
                    &&& final(self).season_path() == Some(p)
                    &&& final(self).open_episodes().len() == 0
                    &&& final(self).pending_files().len() == 0
                    &&& final(self).season_walk() == Some(
                        WalkModel { stack: seq![p], visited: Seq::empty(), root: p, pushed: set![p] },
                    )
                },
                _ => same_progress(final(self), old(self)),
            },
    {
        let mut wait = Wait::Nothing;
        std::mem::swap(&mut self.wait, &mut wait);
        let path = match wait {
            Wait::Season(p) => Some(p),
            _ => None,
        };
        match (path, season) {
            (Some(p), Some(s)) => {
                let mut frame = self.show.take().unwrap();
                proof {
                    crate::cache::lemma_first_at_found(known_seasons(self.cache@, frame.cached), p@);
                }
                let stamped = Season { path: Some(p), episodes: None, ..s };
                frame.season = Some(SeasonFrame::open(stamped, None));
                self.show = Some(frame);
                assert(self.open_episodes() =~= Seq::<EpisodeModel>::empty());
                assert(self.pending_files() =~= Seq::<(Seq<char>, Seq<char>)>::empty());
            },
            _ => {},
        }
    }

    /// Takes the outcome of the episode resolution last asked for: the
    /// episode is recorded with the file's path; `None` skips the file.
    pub fn on_episode(&mut self, episode: Option<Episode>)
        requires
            old(self).wf(),
        ensures
            final(self).wf(),
            final(self).waiting() is Nothing,
            same_but_episodes(final(self), old(self)),
            match (old(self).waiting(), episode) {
                (Awaiting::Episode(p), Some(e)) => final(self).open_episodes() == old(self).open_episodes().push(
                    EpisodeModel { path: Some(p), ..e@ },
                ),
                _ => final(self).open_episodes() == old(self).open_episodes(),
            },
    {
        let mut wait = Wait::Nothing;
        std::mem::swap(&mut self.wait, &mut wait);
        let path = match wait {
            Wait::Episode(p) => Some(p),
            _ => None,
        };
        match (path, episode) {
            (Some(p), Some(e)) => {
                let mut frame = self.show.take().unwrap();
                let mut sf = frame.season.take().unwrap();
                let ghost before = sf.episodes@;
                let stamped = Episode { path: Some(p), ..e };
                sf.episodes.push(stamped);
                proof {
                    assert(models(sf.episodes) =~= before.map_values(|x: Episode| x@).push(EpisodeModel { path: Some(p@), ..e@ }));
                    assert forall|i: int| 0 <= i < sf.episodes@.len() implies {
                        let x = #[trigger] sf.episodes@[i];
                        x.path is Some && is_below(x.path->0@, sf.path())
                    } by {
                        if i < before.len() {
                            assert(sf.episodes@[i] == before[i]);
                        }
                    }
                    assert forall|a: int, b: int|
                        0 <= a < sf.episodes@.len() && 0 <= b < sf.episodes@.len() && a != b
                            && (#[trigger] sf.episodes@[a]).location() is Some
                        implies sf.episodes@[a].location() != (#[trigger] sf.episodes@[b]).location() by {
                        let n = before.len() as int;
                        if a < n && b < n {
                            assert(sf.episodes@[a] == before[a] && sf.episodes@[b] == before[b]);
                        } else if a == n {
                            assert(sf.episodes@[b] == before[b]);
                        } else {
                            assert(sf.episodes@[a] == before[a]);
                        }
                    }
                }
                frame.season = Some(sf);
                self.show = Some(frame);
            },
            _ => {},
        }
    }

    /// The shows completed, in the order they were found. Each holds its
    /// seasons, each season its episodes, and every season lies strictly
    /// below its show's directory, every episode strictly below its season's.
    pub fn into_shows(self) -> (r: Vec<TvShow>)
        requires
            self.wf(),
        ensures
            r@ == self.found(),
            forall|i: int| 0 <= i < r@.len() ==> show_contained(#[trigger] r@[i]),
    {
        self.shows
    }
}

} // verus!
