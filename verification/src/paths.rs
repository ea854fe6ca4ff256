//! Names, stems and extensions of the paths of files.
//!
//! A path here is a text of components separated by `/`. Its file name is
//! its last component, read as `std::path` reads a path on a system whose
//! only separator is `/`: separators at the end are skipped, and so is a
//! component `.` behind a separator; a path that ends in the component `..`,
//! or has no component but `.`, names no file. A path that names no file
//! has the empty file name.
use vstd::prelude::*;

verus! {

/// One more than the index of the last `c` before index `to`; zero when
/// there is none.
pub open spec fn end_of_last(s: Seq<char>, c: char, to: int) -> int
    decreases to,
{
    if to <= 0 || to > s.len() {
        0
    } else if s[to - 1] == c {
        to
    } else {
        end_of_last(s, c, to - 1)
    }
}

/// Where the last component of `path[..to]` ends: before the separators
/// at the end, and before each `.` that stands alone behind a separator.
pub open spec fn name_end(path: Seq<char>, to: int) -> int
    decreases to,
{
    if to <= 0 || to > path.len() {
        0
    } else if path[to - 1] == '/' {
        name_end(path, to - 1)
    } else if to >= 2 && path[to - 1] == '.' && path[to - 2] == '/' {
        name_end(path, to - 2)
    } else {
        to
    }
}

/// The last component of `path`, whatever it is.
pub open spec fn last_component(path: Seq<char>) -> Seq<char> {
    let end = name_end(path, path.len() as int);
    path.subrange(end_of_last(path, '/', end), end)
}

/// The name of the file that `path` names: its last component, unless that
/// is `.` or `..`. It is empty where the path names no file.
pub open spec fn file_name(path: Seq<char>) -> Seq<char> {
    let name = last_component(path);
    if name == "."@ || name == ".."@ {
        Seq::empty()
    } else {
        name
    }
}

/// Where the extension of a file name begins: after its last `.`, unless
/// the name has no `.`, or its only `.` is its first character, or the name
/// is `..`.
pub open spec fn extension_start(name: Seq<char>) -> Option<int> {
    let after_dot = end_of_last(name, '.', name.len() as int);
    if after_dot <= 1 || name == ".."@ {
        None
    } else {
        Some(after_dot)
    }
}

/// The extension of the file that `path` names, without the dot.
pub open spec fn extension(path: Seq<char>) -> Option<Seq<char>> {
    let name = file_name(path);
    match extension_start(name) {
        Some(start) => Some(name.skip(start)),
        None => None,
    }
}

/// The file name of `path` without its extension and the dot before it.
pub open spec fn file_stem(path: Seq<char>) -> Seq<char> {
    let name = file_name(path);
    match extension_start(name) {
        Some(start) => name.take(start - 1),
        None => name,
    }
}

/// Executable form of [`end_of_last`], for the whole of `v`.
pub fn end_of_last_char(v: &Vec<char>, c: char) -> (r: usize)
    ensures
        r == end_of_last(v@, c, v@.len() as int),
        r <= v@.len(),
{
    end_of_last_before(v, c, v.len())
}

/// Executable form of [`end_of_last`].
fn end_of_last_before(v: &Vec<char>, c: char, to: usize) -> (r: usize)
    requires
        to <= v@.len(),
    ensures
        r == end_of_last(v@, c, to as int),
        r <= to,
{
    let mut i: usize = to;
    while i > 0 && v[i - 1] != c
        invariant
            i <= to <= v@.len(),
            end_of_last(v@, c, to as int) == end_of_last(v@, c, i as int),
        decreases i,
    {
        i -= 1;
    }
    i
}

/// Executable form of [`name_end`], for the whole of `path`.
pub fn name_end_of(path: &Vec<char>) -> (r: usize)
    ensures
        r == name_end(path@, path@.len() as int),
        r <= path@.len(),
{
    let mut i: usize = path.len();
    loop
        invariant
            i <= path@.len(),
            name_end(path@, path@.len() as int) == name_end(path@, i as int),
        ensures
            i <= path@.len(),
            i == name_end(path@, path@.len() as int),
        decreases i,
    {
        if i == 0 {
            break ;
        } else if path[i - 1] == '/' {
            i -= 1;
        } else if i >= 2 && path[i - 1] == '.' && path[i - 2] == '/' {
            i -= 2;
        } else {
            break ;
        }
    }
    i
}

/// Executable form of [`file_name`].
pub fn file_name_chars(path: &Vec<char>) -> (r: Vec<char>)
    ensures
        r@ == file_name(path@),
{
    let end = name_end_of(path);
    let start = end_of_last_before(path, '/', end);
    let name = crate::text::copy_range(path, start, end);
    let dot = crate::text::to_chars(".");
    let dots = crate::text::to_chars("..");
    if crate::text::chars_eq(&name, &dot) || crate::text::chars_eq(&name, &dots) {
        Vec::new()
    } else {
        name
    }
}

/// Executable form of [`extension_start`].
fn extension_start_of(name: &Vec<char>) -> (r: Option<usize>)
    ensures
        match r {
            Some(start) => extension_start(name@) == Some(start as int) && 1 < start <= name@.len(),
            None => extension_start(name@) is None,
        },
{
    let after_dot = end_of_last_char(name, '.');
    let dots = crate::text::to_chars("..");
    if after_dot <= 1 || crate::text::chars_eq(name, &dots) {
        None
    } else {
        Some(after_dot)
    }
}

/// The extension of the file that `path` names, without the dot.
pub fn extension_of(path: &str) -> (r: Option<String>)
    ensures
        match r {
            Some(ext) => extension(path@) == Some(ext@),
            None => extension(path@) is None,
        },
{
    let chars = crate::text::to_chars(path);
    let name = file_name_chars(&chars);
    match extension_start_of(&name) {
        Some(start) => {
            let ext = crate::text::copy_range(&name, start, name.len());
            Some(crate::text::from_chars(&ext))
        },
        None => None,
    }
}

/// The file name of `path` without its extension.
pub fn file_stem_of(path: &str) -> (r: String)
    ensures
        r@ == file_stem(path@),
{
    let chars = crate::text::to_chars(path);
    let name = file_name_chars(&chars);
    match extension_start_of(&name) {
        Some(start) => {
            let stem = crate::text::copy_range(&name, 0, start - 1);
            crate::text::from_chars(&stem)
        },
        None => crate::text::from_chars(&name),
    }
}

} // verus!
