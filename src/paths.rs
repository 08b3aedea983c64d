//! Remote paths and directory listings: how a listed name becomes a child
//! path, and which names are directories, files, or the self and parent
//! entries.

use vstd::prelude::*;
use crate::text::{contains_char, holds_char};

verus! {

/// The characters of each string, in order.
pub open spec fn strs(v: Seq<String>) -> Seq<Seq<char>> {
    v.map_values(|s: String| s@)
}

/// `dir + "/" + name`.
pub open spec fn join_spec(dir: Seq<char>, name: Seq<char>) -> Seq<char> {
    dir + seq!['/'] + name
}

/// `p` lies strictly below `dir`: it starts with `dir + "/"`.
pub open spec fn is_below(p: Seq<char>, dir: Seq<char>) -> bool {
    p.len() > dir.len() + 1 && p.take(dir.len() as int) == dir && p[dir.len() as int] == '/'
}

/// The entries of a listing that name no child: the self (`.`) and parent
/// (`..`) entries, and an empty name.
pub open spec fn is_special(n: Seq<char>) -> bool {
    n.len() == 0 || n == seq!['.'] || n == seq!['.', '.']
}

/// A non-empty name without a `.` names a directory.
pub open spec fn is_dir_name(n: Seq<char>) -> bool {
    n.len() > 0 && !holds_char(n, '.')
}

/// A name with a `.` that is not the self or parent entry names a file.
pub open spec fn is_file_name(n: Seq<char>) -> bool {
    holds_char(n, '.') && !is_special(n)
}

/// A listed entry: its full path and its bare name.
pub struct Entry {
    pub path: String,
    pub name: String,
}

pub open spec fn entry_view(e: Entry) -> (Seq<char>, Seq<char>) {
    (e.path@, e.name@)
}

pub open spec fn entries(v: Seq<Entry>) -> Seq<(Seq<char>, Seq<char>)> {
    v.map_values(|e: Entry| entry_view(e))
}

/// The directories of a listing of `dir`, in listing order.
pub open spec fn dir_entries(dir: Seq<char>, names: Seq<Seq<char>>) -> Seq<(Seq<char>, Seq<char>)>
    decreases names.len(),
{
    if names.len() == 0 {
        Seq::empty()
    } else {
        let rest = dir_entries(dir, names.drop_last());
        if is_dir_name(names.last()) {
            rest.push((join_spec(dir, names.last()), names.last()))
        } else {
            rest
        }
    }
}

/// The files of a listing of `dir`, in listing order.
pub open spec fn file_entries(dir: Seq<char>, names: Seq<Seq<char>>) -> Seq<(Seq<char>, Seq<char>)>
    decreases names.len(),
{
    if names.len() == 0 {
        Seq::empty()
    } else {
        let rest = file_entries(dir, names.drop_last());
        if is_file_name(names.last()) {
            rest.push((join_spec(dir, names.last()), names.last()))
        } else {
            rest
        }
    }
}

/// `dir + "/" + name`.
pub fn join(dir: &str, name: &str) -> (r: String)
    ensures
        r@ == join_spec(dir@, name@),
{
    let mut r = String::from_str(dir);
    r.append("/");
    r.append(name);
    proof {
        reveal_strlit("/");
    }
    r
}

/// Whether a listed name is the self (`.`) or parent (`..`) entry, or empty.
pub fn is_special_name(n: &str) -> (r: bool)
    ensures
        r == is_special(n@),
{
    let len = n.unicode_len();
    if len == 0 {
        true
    } else if len == 1 {
        let r = n.get_char(0) == '.';
        assert(r ==> n@ =~= seq!['.']);
        r
    } else if len == 2 {
        let r = n.get_char(0) == '.' && n.get_char(1) == '.';
        assert(r ==> n@ =~= seq!['.', '.']);
        r
    } else {
        false
    }
}

/// Splits a listing of `dir` into its directories and its files, each as full
/// path and name, in listing order; the self and parent entries are dropped.
pub fn split_listing(dir: &String, names: &Vec<String>) -> (r: (Vec<Entry>, Vec<Entry>))
    ensures
        entries(r.0@) == dir_entries(dir@, strs(names@)),
        entries(r.1@) == file_entries(dir@, strs(names@)),
{
    let mut dirs: Vec<Entry> = Vec::new();
    let mut files: Vec<Entry> = Vec::new();
    let mut i: usize = 0;
    while i < names.len()
        invariant
            i <= names.len(),
            entries(dirs@) == dir_entries(dir@, strs(names@.take(i as int))),
            entries(files@) == file_entries(dir@, strs(names@.take(i as int))),
        decreases names.len() - i,
    {
        let n = &names[i];
        proof {
            assert(strs(names@.take(i + 1)).drop_last() =~= strs(names@.take(i as int)));
            assert(strs(names@.take(i + 1)).last() == n@);
        }
        let dotted = contains_char(n.as_str(), '.');
        if n.unicode_len() == 0 {
            assert(!is_dir_name(n@) && !is_file_name(n@));
            assert(entries(dirs@) =~= dir_entries(dir@, strs(names@.take(i + 1))));
            assert(entries(files@) =~= file_entries(dir@, strs(names@.take(i + 1))));
        } else if !dotted {
            let e = Entry { path: join(dir.as_str(), n.as_str()), name: n.clone() };
            dirs.push(e);
            assert(entries(dirs@) =~= dir_entries(dir@, strs(names@.take(i + 1))));
        } else if !is_special_name(n.as_str()) {
            let e = Entry { path: join(dir.as_str(), n.as_str()), name: n.clone() };
            files.push(e);
            assert(entries(files@) =~= file_entries(dir@, strs(names@.take(i + 1))));
        }
        i = i + 1;
    }
    assert(names@.take(names.len() as int) =~= names@);
    (dirs, files)
}

} // verus!
