//! The iterative depth-first walk over remote directories: an explicit stack
//! of paths still to list, and the record of the directories already listed,
//! so that each directory is visited once.

use vstd::prelude::*;
use crate::text::holds_char;
use crate::paths::{dir_entries, entries, entry_view, file_entries, is_below, is_dir_name, is_special, join_spec, split_listing, strs, Entry};

verus! {

/// What a walk has done so far: the paths waiting on the stack (top last),
/// the directories visited in order, the starting directory, and every path
/// ever put on the stack.
pub struct WalkModel {
    pub stack: Seq<Seq<char>>,
    pub visited: Seq<Seq<char>>,
    pub root: Seq<char>,
    pub pushed: Set<Seq<char>>,
}

pub struct Walk {
    stack: Vec<String>,
    visited: Vec<String>,
    root: Ghost<Seq<char>>,
    pushed: Ghost<Set<Seq<char>>>,
}

/// Index of the topmost stack entry not yet visited, or `-1`.
pub open spec fn last_fresh(stack: Seq<Seq<char>>, visited: Seq<Seq<char>>) -> int
    decreases stack.len(),
{
    if stack.len() == 0 {
        -1
    } else if !visited.contains(stack.last()) {
        stack.len() - 1
    } else {
        last_fresh(stack.drop_last(), visited)
    }
}

/// The root itself, or a path strictly below it.
pub open spec fn within(p: Seq<char>, root: Seq<char>) -> bool {
    p == root || is_below(p, root)
}

proof fn lemma_last_fresh_bounds(stack: Seq<Seq<char>>, visited: Seq<Seq<char>>)
    ensures
        -1 <= last_fresh(stack, visited) < stack.len(),
        last_fresh(stack, visited) >= 0 ==> !visited.contains(stack[last_fresh(stack, visited)]),
        forall|j: int| last_fresh(stack, visited) < j < stack.len() ==> visited.contains(#[trigger] stack[j]),
    decreases stack.len(),
{
    if stack.len() > 0 && visited.contains(stack.last()) {
        lemma_last_fresh_bounds(stack.drop_last(), visited);
        assert forall|j: int| last_fresh(stack, visited) < j < stack.len() implies visited.contains(#[trigger] stack[j]) by {
            if j < stack.len() - 1 {
                assert(stack.drop_last()[j] == stack[j]);
            }
        }
    }
}

/// A listing never leads the walk back to the listed directory or to one of
/// its ancestors: each directory it adds is `dir + "/" + name` for a listed
/// name other than `.` and `..`, and so lies strictly below `dir`.
pub proof fn lemma_listing_descends(dir: Seq<char>, names: Seq<Seq<char>>)
    ensures
        forall|i: int| 0 <= i < dir_entries(dir, names).len() ==> {
            let e = #[trigger] dir_entries(dir, names)[i];
            &&& names.contains(e.1)
            &&& !is_special(e.1)
            &&& e.0 == join_spec(dir, e.1)
            &&& is_below(e.0, dir)
        },
    decreases names.len(),
{
    if names.len() > 0 {
        lemma_listing_descends(dir, names.drop_last());
        let n = names.last();
        let rest = dir_entries(dir, names.drop_last());
        assert forall|i: int| 0 <= i < dir_entries(dir, names).len() implies {
            let e = #[trigger] dir_entries(dir, names)[i];
            &&& names.contains(e.1)
            &&& !is_special(e.1)
            &&& e.0 == join_spec(dir, e.1)
            &&& is_below(e.0, dir)
        } by {
            let e = dir_entries(dir, names)[i];
            if i < rest.len() {
                assert(e == rest[i]);
                assert(names.drop_last().contains(e.1));
                let k = choose|k: int| 0 <= k < names.drop_last().len() && names.drop_last()[k] == e.1;
                assert(names[k] == e.1);
                assert(names.contains(e.1));
            } else {
                assert(is_dir_name(n));
                assert(e == (join_spec(dir, n), n));
                assert(names[names.len() - 1] == n);
                assert(names.contains(e.1));
                if is_special(n) {
                    assert(n[0] == '.');
                    assert(holds_char(n, '.'));
                }
            }
            assert(join_spec(dir, e.1).take(dir.len() as int) =~= dir);
            assert(join_spec(dir, e.1)[dir.len() as int] == '/');
        }
    }
}

proof fn lemma_below_trans(p: Seq<char>, dir: Seq<char>, root: Seq<char>)
    requires
        is_below(p, dir),
        within(dir, root),
    ensures
        is_below(p, root),
{
    if dir != root {
        assert(p.take(root.len() as int) =~= dir.take(dir.len() as int).take(root.len() as int));
        assert(p.take(dir.len() as int).take(root.len() as int) =~= p.take(root.len() as int));
        assert(p[root.len() as int] == p.take(dir.len() as int)[root.len() as int]);
    }
}

impl View for Walk {
    type V = WalkModel;

    closed spec fn view(&self) -> WalkModel {
        WalkModel { stack: strs(self.stack@), visited: strs(self.visited@), root: self.root@, pushed: self.pushed@ }
    }
}

impl Walk {
    /// The walk's invariant: no directory is visited twice; every path ever
    /// pushed is still on the stack or visited; the root was pushed; every
    /// pushed path lies within the root.
    pub open spec fn wf(&self) -> bool {
        let m = self@;
        &&& m.visited.no_duplicates()
        &&& m.pushed.contains(m.root)
        &&& forall|p: Seq<char>| #[trigger] m.pushed.contains(p) ==> m.stack.contains(p) || m.visited.contains(p)
        &&& forall|i: int| 0 <= i < m.stack.len() ==> m.pushed.contains(#[trigger] m.stack[i])
        &&& forall|i: int| 0 <= i < m.visited.len() ==> m.pushed.contains(#[trigger] m.visited[i])
        &&& forall|p: Seq<char>| #[trigger] m.pushed.contains(p) ==> within(p, m.root)
    }

    /// A walk that starts at `root`.
    pub fn new(root: String) -> (w: Walk)
        ensures
            w.wf(),
            w@.stack == seq![root@],
            w@.visited == Seq::<Seq<char>>::empty(),
            w@.root == root@,
            w@.pushed == set![root@],
    {
        let ghost r = root@;
        let ghost start = set![r];
        let mut stack: Vec<String> = Vec::new();
        stack.push(root);
        let w = Walk { stack, visited: Vec::new(), root: Ghost(r), pushed: Ghost(start) };
        assert(w@.stack =~= seq![r]);
        assert(w@.visited =~= Seq::<Seq<char>>::empty());
        assert(w@.stack[0] == r);
        w
    }

    /// Pops the topmost path not visited yet and records it as visited; the
    /// visited paths above it are dropped. `None` once the stack holds only
    /// visited paths, and then every path ever pushed has been visited.
    pub fn next_dir(&mut self) -> (r: Option<String>)
        requires
            old(self).wf(),
        ensures
            final(self).wf(),
            final(self)@.root == old(self)@.root,
            final(self)@.pushed == old(self)@.pushed,
            ({
                let k = last_fresh(old(self)@.stack, old(self)@.visited);
                match r {
                    Some(p) => {
                        &&& k >= 0
                        &&& p@ == old(self)@.stack[k]
                        &&& !old(self)@.visited.contains(p@)
                        &&& final(self)@.stack == old(self)@.stack.take(k)
                        &&& final(self)@.visited == old(self)@.visited.push(p@)
                    },
                    None => {
                        &&& k == -1
                        &&& final(self)@.stack.len() == 0
                        &&& final(self)@.visited == old(self)@.visited
                        &&& forall|p: Seq<char>| #[trigger] old(self)@.pushed.contains(p) ==> final(self)@.visited.contains(p)
                    },
                }
            }),
    {
        let ghost s0 = self@.stack;
        let ghost k = last_fresh(s0, self@.visited);
        proof {
            lemma_last_fresh_bounds(s0, self@.visited);
        }
        while self.stack.len() > 0
            invariant
                self@.visited == old(self)@.visited,
                self@.root == old(self)@.root,
                self@.pushed == old(self)@.pushed,
                old(self).wf(),
                s0 == old(self)@.stack,
                k == last_fresh(s0, self@.visited),
                self@.stack.len() <= s0.len(),
                self@.stack == s0.take(self@.stack.len() as int),
                k < self@.stack.len(),
                forall|j: int| k < j < s0.len() ==> self@.visited.contains(#[trigger] s0[j]),
                k >= 0 ==> !self@.visited.contains(s0[k]),
                self.visited@.len() == old(self).visited@.len(),
            decreases self.stack.len(),
        {
            let ghost before = self.stack@;
            let p = self.stack.pop().unwrap();
            proof {
                assert(strs(self.stack@) =~= s0.take(self.stack@.len() as int));
                assert(strs(before)[before.len() - 1] == p@);
                assert(s0.take(before.len() as int)[before.len() - 1] == p@);
            }
            if !contains_path(&self.visited, &p) {
                let q = p.clone();
                self.visited.push(q);
                proof {
                    assert(self@.visited =~= old(self)@.visited.push(p@));
                    assert(old(self)@.visited.push(p@).last() == p@);
                    assert forall|x: Seq<char>| #[trigger] self@.pushed.contains(x) implies self@.stack.contains(x) || self@.visited.contains(x) by {
                        if old(self)@.stack.contains(x) {
                            let j = choose|j: int| 0 <= j < s0.len() && s0[j] == x;
                            if j < self@.stack.len() {
                                assert(self@.stack[j] == x);
                            } else if j > k {
                                assert(old(self)@.visited.contains(x));
                                let m = choose|m: int| 0 <= m < old(self)@.visited.len() && old(self)@.visited[m] == x;
                                assert(self@.visited[m] == x);
                            } else {
                                assert(self@.visited[self@.visited.len() - 1] == x);
                            }
                        } else {
                            let m = choose|m: int| 0 <= m < old(self)@.visited.len() && old(self)@.visited[m] == x;
                            assert(self@.visited[m] == x);
                        }
                    }
                    assert forall|i: int| 0 <= i < self@.visited.len() implies self@.pushed.contains(#[trigger] self@.visited[i]) by {
                        if i < old(self)@.visited.len() {
                            assert(self@.visited[i] == old(self)@.visited[i]);
                        } else {
                            assert(self@.visited[i] == s0[k]);
                        }
                    }
                    assert forall|i: int| 0 <= i < self@.stack.len() implies self@.pushed.contains(#[trigger] self@.stack[i]) by {
                        assert(self@.stack[i] == s0[i]);
                    }
                }
                return Some(p);
            }
        }
        proof {
            assert forall|x: Seq<char>| #[trigger] old(self)@.pushed.contains(x) implies self@.visited.contains(x) by {
                if old(self)@.stack.contains(x) {
                    let j = choose|j: int| 0 <= j < s0.len() && s0[j] == x;
                    assert(self@.visited.contains(s0[j]));
                }
            }
        }
        None
    }

    /// Takes a listing of `dir`: its subdirectories are pushed in listing
    /// order, and its files are returned, each as full path and name.
    pub fn expand(&mut self, dir: &String, names: &Vec<String>) -> (files: Vec<Entry>)
        requires
            old(self).wf(),
            within(dir@, old(self)@.root),
        ensures
            final(self).wf(),
            final(self)@.root == old(self)@.root,
            final(self)@.visited == old(self)@.visited,
            final(self)@.stack == old(self)@.stack + dir_entries(dir@, strs(names@)).map_values(|e: (Seq<char>, Seq<char>)| e.0),
            final(self)@.pushed == old(self)@.pushed + dir_entries(dir@, strs(names@)).map_values(|e: (Seq<char>, Seq<char>)| e.0).to_set(),
            entries(files@) == file_entries(dir@, strs(names@)),
            forall|i: int| 0 <= i < files@.len() ==> is_below((#[trigger] files@[i]).path@, old(self)@.root),
            forall|i: int| 0 <= i < files@.len() ==> (#[trigger] files@[i]).path@ == join_spec(dir@, files@[i].name@),
    {
        let (dirs, files) = split_listing(dir, names);
        let ghost added = dir_entries(dir@, strs(names@)).map_values(|e: (Seq<char>, Seq<char>)| e.0);
        proof {
            lemma_listing_descends(dir@, strs(names@));
        }
        let mut i: usize = 0;
        while i < dirs.len()
            invariant
                i <= dirs.len(),
                entries(dirs@) == dir_entries(dir@, strs(names@)),
                added == dir_entries(dir@, strs(names@)).map_values(|e: (Seq<char>, Seq<char>)| e.0),
                self@.stack == old(self)@.stack + added.take(i as int),
                self@.pushed == old(self)@.pushed + added.take(i as int).to_set(),
                self@.visited == old(self)@.visited,
                self@.root == old(self)@.root,
                self.wf(),
                within(dir@, self@.root),
                forall|j: int| 0 <= j < added.len() ==> is_below(#[trigger] added[j], dir@),
            decreases dirs.len() - i,
        {
            let p = dirs[i].path.clone();
            proof {
                assert(entries(dirs@)[i as int] == entry_view(dirs@[i as int]));
                assert(added[i as int] == p@);
                lemma_below_trans(p@, dir@, self@.root);
            }
            let ghost prev = self.stack@;
            self.stack.push(p);
            proof {
                assert(strs(self.stack@) =~= strs(prev).push(p@));
                let ghost old_pushed = self.pushed@;
                self.pushed = Ghost(old_pushed.insert(p@));
                assert(added.take(i + 1) =~= added.take(i as int).push(p@));
                added.take(i as int).lemma_push_to_set_commute(p@);
                assert(self@.stack =~= old(self)@.stack + added.take(i + 1));
                assert(self@.pushed =~= old(self)@.pushed + added.take(i + 1).to_set());
                assert(self@.stack[self@.stack.len() - 1] == p@);
                assert forall|x: Seq<char>| #[trigger] self@.pushed.contains(x) implies self@.stack.contains(x) || self@.visited.contains(x) by {
                    if x != p@ {
                        if old_pushed.contains(x) {
                            let s_prev = old(self)@.stack + added.take(i as int);
                            if s_prev.contains(x) {
                                let j = choose|j: int| 0 <= j < s_prev.len() && s_prev[j] == x;
                                assert(self@.stack[j] == x);
                            }
                        }
                    }
                }
                assert forall|j: int| 0 <= j < self@.stack.len() implies self@.pushed.contains(#[trigger] self@.stack[j]) by {
                    if j < self@.stack.len() - 1 {
                        let s_prev = old(self)@.stack + added.take(i as int);
                        assert(self@.stack[j] == s_prev[j]);
                    }
                }
            }
            i = i + 1;
        }
        proof {
            assert(added.take(dirs.len() as int) =~= added);
            assert forall|j: int| 0 <= j < files@.len() implies is_below((#[trigger] files@[j]).path@, old(self)@.root)
                && files@[j].path@ == join_spec(dir@, files@[j].name@) by {
                lemma_file_below(dir@, strs(names@), j);
                assert(entries(files@)[j] == entry_view(files@[j]));
                lemma_below_trans(files@[j].path@, dir@, old(self)@.root);
            }
        }
        files
    }
}

proof fn lemma_file_below(dir: Seq<char>, names: Seq<Seq<char>>, i: int)
    requires
        0 <= i < file_entries(dir, names).len(),
    ensures
        is_below(file_entries(dir, names)[i].0, dir),
        file_entries(dir, names)[i].0 == join_spec(dir, file_entries(dir, names)[i].1),
    decreases names.len(),
{
    let rest = file_entries(dir, names.drop_last());
    if i < rest.len() {
        lemma_file_below(dir, names.drop_last(), i);
    } else {
        let n = names.last();
        assert(join_spec(dir, n).take(dir.len() as int) =~= dir);
        assert(join_spec(dir, n)[dir.len() as int] == '/');
    }
}

/// Whether `p` is one of `paths`.
pub fn contains_path(paths: &Vec<String>, p: &String) -> (r: bool)
    ensures
        r == strs(paths@).contains(p@),
{
    let mut i: usize = 0;
    while i < paths.len()
        invariant
            i <= paths.len(),
            forall|j: int| 0 <= j < i ==> paths@[j]@ != p@,
        decreases paths.len() - i,
    {
        if paths[i].eq(p) {
            assert(strs(paths@)[i as int] == p@);
            return true;
        }
        i = i + 1;
    }
    proof {
        if strs(paths@).contains(p@) {
            let j = choose|j: int| 0 <= j < strs(paths@).len() && strs(paths@)[j] == p@;
            assert(paths@[j]@ == p@);
        }
    }
    false
}

} // verus!
