//! File names and paths.

use crate::text;
use vstd::prelude::*;
use vstd::string::*;

verus! {

// ---- Joining ----------------------------------------------------------------

/// Whether a path begins at the root of the file system.
pub open spec fn is_absolute(path: Seq<char>) -> bool {
    path.len() > 0 && path[0] == '/'
}

/// A directory as what stands in it begins: with one slash at its end, unless it is
/// the empty path.
pub open spec fn stem(directory: Seq<char>) -> Seq<char> {
    if directory.len() == 0 || directory.last() == '/' {
        directory
    } else {
        directory.push('/')
    }
}

/// The path of `name` seen from `directory`; a name that is an absolute path stands for
/// itself.
pub open spec fn joined(directory: Seq<char>, name: Seq<char>) -> Seq<char> {
    if is_absolute(name) {
        name
    } else {
        stem(directory) + name
    }
}

/// The path of `name` seen from `directory`.
pub fn join(directory: &str, name: &str) -> (path: String)
    ensures
        path@ == joined(directory@, name@),
{
    let chars = text::to_chars(name);
    if chars.len() > 0 && chars[0] == '/' {
        return name.to_owned();
    }
    let mut path = text::to_chars(directory);
    let size: usize = path.len();
    if size > 0 && path[size - 1] != '/' {
        path.push('/');
    }
    text::push_all(&mut path, chars.as_slice());
    text::from_chars(path.as_slice())
}

/// The path of the number `n` seen from `directory`.
pub fn join_number(directory: &str, n: u64) -> (path: String)
    ensures
        path@ == joined(directory@, text::decimal(n as nat)),
{
    join(directory, text::from_chars(text::decimal_chars(n).as_slice()).as_str())
}

/// Names in one directory that differ have paths that differ.
pub proof fn names_have_their_own_paths(directory: Seq<char>, a: Seq<char>, b: Seq<char>)
    requires
        a != b,
        !is_absolute(a),
        !is_absolute(b),
    ensures
        joined(directory, a) != joined(directory, b),
{
    let n = stem(directory).len() as int;
    assert(joined(directory, a).skip(n) =~= a);
    assert(joined(directory, b).skip(n) =~= b);
}

/// What stands in a directory has another path than the directory.
pub proof fn names_stand_below_their_directory(directory: Seq<char>, name: Seq<char>)
    requires
        name.len() > 0,
        !is_absolute(name),
    ensures
        joined(directory, name) != directory,
{
    assert(joined(directory, name).len() > directory.len());
}

// ---- Names ------------------------------------------------------------------

/// Whether the parts of a path from the `k`th on are empty or name the directory
/// that they stand in.
pub open spec fn go_nowhere(parts: Seq<Seq<char>>, k: int) -> bool {
    forall|i: int|
        k <= i < parts.len() ==> (#[trigger] parts[i]).len() == 0 || parts[i] == "."@
}

/// The one name that a path consists of: it is relative, leads through no other
/// directory, and is not `.` or `..`.
pub open spec fn single_name(path: Seq<char>) -> Option<Seq<char>> {
    let parts = text::split_on(path, '/');
    if parts[0].len() > 0 && parts[0] != "."@ && parts[0] != ".."@ && go_nowhere(parts, 1) {
        Some(parts[0])
    } else {
        None
    }
}

fn goes_nowhere(parts: &Vec<&[char]>) -> (b: bool)
    requires
        parts@.len() >= 1,
    ensures
        b == go_nowhere(text::slice_views(parts@), 1),
{
    let ghost all = text::slice_views(parts@);
    let dot = text::to_chars(".");
    let mut i: usize = 1;
    while i < parts.len()
        invariant
            all == text::slice_views(parts@),
            dot@ == "."@,
            1 <= i <= parts@.len(),
            forall|j: int|
                1 <= j < i ==> (#[trigger] all[j]).len() == 0 || all[j] == "."@,
        decreases parts@.len() - i,
    {
        assert(all[i as int] == parts@[i as int]@);
        if parts[i].len() != 0 && !text::chars_eq(parts[i], dot.as_slice()) {
            return false;
        }
        i = i + 1;
    }
    true
}

/// The one name that a path consists of.
pub fn find_single_name(path: &str) -> (r: Option<&str>)
    ensures
        text::opt_str_view(r) == single_name(path@),
{
    let chars = text::to_chars(path);
    let parts = text::split_char(chars.as_slice(), '/');
    let ghost all = text::slice_views(parts@);
    assert(all[0] == parts@[0]@);
    let dot = text::to_chars(".");
    let dots = text::to_chars("..");
    let name = parts[0];
    if name.len() == 0 || text::chars_eq(name, dot.as_slice()) || text::chars_eq(
        name,
        dots.as_slice(),
    ) || !goes_nowhere(&parts) {
        return None;
    }
    proof {
        text::lemma_next_at(path@, '/', 0);
    }
    let end: usize = text::find_char(chars.as_slice(), '/', 0);
    assert(name@ == path@.subrange(0, end as int));
    Some(path.substring_char(0, end))
}

/// A single name has no separator in it, and leads neither up nor nowhere.
pub proof fn a_single_name_stays_in_its_directory(path: Seq<char>)
    requires
        single_name(path) is Some,
    ensures
        !single_name(path)->0.contains('/'),
        single_name(path)->0.len() > 0,
        single_name(path)->0 != "."@,
        single_name(path)->0 != ".."@,
{
    text::lemma_next_at(path, '/', 0);
    let end = text::next_at(path, '/', 0);
    let name = single_name(path)->0;
    assert(name =~= path.subrange(0, end));
    assert forall|i: int| 0 <= i < name.len() implies name[i] != '/' by {
        assert(name[i] == path[i]);
    }
}

} // verus!
