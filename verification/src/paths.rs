//! Path-string helpers: the final component of a path and its extension.
//!
//! Paths are plain strings whose components are separated by `/`. The
//! extension of a file name is everything after its last `.`, provided that
//! dot is not the name's first character (so a name like `.config` has no
//! extension, while `photo.jpg` has the extension `jpg`).

use vstd::prelude::*;

verus! {

/// The final path component: the suffix of `path` after its last `/`.
/// A path that ends in `/`, or is empty, has an empty final component.
pub open spec fn file_name_of(path: Seq<char>) -> Seq<char>
    decreases path.len(),
{
    if path.len() == 0 {
        Seq::empty()
    } else if path.last() == '/' {
        Seq::empty()
    } else {
        file_name_of(path.drop_last()).push(path.last())
    }
}

/// The extension of a file name: the suffix after the last `.`, unless the
/// only `.` is the leading character (or there is no `.` at all).
pub open spec fn extension_of(name: Seq<char>) -> Option<Seq<char>>
    decreases name.len(),
{
    if name.len() <= 1 {
        None
    } else if name.last() == '.' {
        Some(Seq::empty())
    } else {
        match extension_of(name.drop_last()) {
            Some(e) => Some(e.push(name.last())),
            None => None,
        }
    }
}

/// A suffix holding no `/`, whose preceding character (if any) is `/`,
/// is exactly the final path component.
proof fn lemma_file_name_is_suffix(path: Seq<char>, i: int)
    requires
        0 <= i <= path.len(),
        forall|j: int| i <= j < path.len() ==> path[j] != '/',
        i > 0 ==> path[i - 1] == '/',
    ensures
        file_name_of(path) == path.subrange(i, path.len() as int),
    decreases path.len(),
{
    if i == path.len() {
        assert(file_name_of(path) =~= path.subrange(i, path.len() as int));
    } else {
        lemma_file_name_is_suffix(path.drop_last(), i);
        assert(file_name_of(path) =~= path.subrange(i, path.len() as int));
    }
}

/// Returns the final path component of `path`, as `file_name_of` gives it.
pub fn file_name_component(path: &str) -> (r: String)
    ensures
        r@ == file_name_of(path@),
{
    let n = path.unicode_len();
    let mut i = n;
    while i > 0 && path.get_char(i - 1) != '/'
        invariant
            0 <= i <= n,
            n == path@.len(),
            forall|j: int| i <= j < n ==> path@[j] != '/',
        decreases i,
    {
        i = i - 1;
    }
    proof {
        lemma_file_name_is_suffix(path@, i as int);
    }
    let name = path.substring_char(i, n);
    name.to_owned()
}

/// A suffix of `name` holding no `.`, preceded by a `.` that is not the
/// first character, is exactly the extension.
proof fn lemma_extension_is_suffix(name: Seq<char>, d: int)
    requires
        1 <= d < name.len(),
        name[d] == '.',
        forall|j: int| d < j < name.len() ==> name[j] != '.',
    ensures
        extension_of(name) == Some(name.subrange(d + 1, name.len() as int)),
    decreases name.len(),
{
    if d == name.len() - 1 {
        assert(name.last() == '.');
        assert(name.subrange(d + 1, name.len() as int) =~= Seq::<char>::empty());
    } else {
        lemma_extension_is_suffix(name.drop_last(), d);
        assert(name.drop_last().subrange(d + 1, name.drop_last().len() as int).push(name.last())
            =~= name.subrange(d + 1, name.len() as int));
    }
}

/// A name whose characters past the first hold no `.` has no extension.
proof fn lemma_no_extension(name: Seq<char>)
    requires
        forall|j: int| 1 <= j < name.len() ==> name[j] != '.',
    ensures
        extension_of(name) is None,
    decreases name.len(),
{
    if name.len() > 1 {
        lemma_no_extension(name.drop_last());
    }
}

/// Returns the extension of the final component of `path`, as
/// `extension_of(file_name_of(path))` gives it.
pub fn extension_component(path: &str) -> (r: Option<String>)
    ensures
        match r {
            Some(e) => extension_of(file_name_of(path@)) == Some(e@),
            None => extension_of(file_name_of(path@)) is None,
        },
{
    let name = file_name_component(path);
    let n = name.as_str().unicode_len();
    let mut i = n;
    while i > 1 && name.as_str().get_char(i - 1) != '.'
        invariant
            0 <= i <= n,
            n == name@.len(),
            forall|j: int| i <= j < n ==> name@[j] != '.',
        decreases i,
    {
        i = i - 1;
    }
    if i <= 1 {
        proof {
            lemma_no_extension(name@);
        }
        None
    } else {
        proof {
            lemma_extension_is_suffix(name@, i - 1);
        }
        let ext = name.as_str().substring_char(i, n);
        Some(ext.to_owned())
    }
}

} // verus!
