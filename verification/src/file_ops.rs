//! Recursive discovery of files in a directory tree.
//!
//! The tree is held as plain data: an [`FsEntry`] is either a file or a
//! directory with its child entries, each carrying its full path. The
//! surrounding application reads the filesystem into this form; everything
//! here is pure logic over it.
//!
//! A directory that could not be read is held as a `Dir` whose `readable`
//! flag is false. Discovery skips such a subtree, continues elsewhere, and
//! reports the skipped directory's path, so one unreadable directory never
//! loses the rest of the scan.
//!
//! Extension matching is exact and case-sensitive, as the extension set is
//! given (`JPG` does not match `jpg`).

use vstd::prelude::*;

use crate::paths::{extension_of, file_name_of};

verus! {

/// One node of an in-memory directory tree, carrying its full path.
pub enum FsEntry {
    File { path: String },
    Dir { path: String, readable: bool, entries: Vec<FsEntry> },
}

/// The path of a tree node.
pub open spec fn entry_path(e: FsEntry) -> Seq<char> {
    match e {
        FsEntry::File { path } => path@,
        FsEntry::Dir { path, .. } => path@,
    }
}

/// Does the extension of the path's final component belong, exactly and
/// case-sensitively, to the accepted set? A path without an extension
/// never matches.
pub open spec fn matches_extensions(path: Seq<char>, exts: Seq<Seq<char>>) -> bool {
    match extension_of(file_name_of(path)) {
        Some(e) => exts.contains(e),
        None => false,
    }
}

/// The file paths a scan of the node yields, in visiting order: a matching
/// file's own path, or the files gathered from a readable directory's
/// entries. An unreadable directory yields nothing.
pub open spec fn discovered_files(t: FsEntry, exts: Seq<Seq<char>>) -> Seq<Seq<char>>
    decreases t,
{
    match t {
        FsEntry::File { path } => if matches_extensions(path@, exts) {
            seq![path@]
        } else {
            Seq::empty()
        },
        FsEntry::Dir { readable, entries, .. } => if readable {
            discovered_files_of(entries@, exts)
        } else {
            Seq::empty()
        },
    }
}

/// The files gathered from a sequence of sibling entries, in order.
pub open spec fn discovered_files_of(s: Seq<FsEntry>, exts: Seq<Seq<char>>) -> Seq<Seq<char>>
    decreases s,
{
    if s.len() == 0 {
        Seq::empty()
    } else {
        discovered_files_of(s.drop_last(), exts) + discovered_files(s.last(), exts)
    }
}

/// The unreadable directories a scan of the node reaches, in visiting order.
pub open spec fn skipped_dirs(t: FsEntry) -> Seq<Seq<char>>
    decreases t,
{
    match t {
        FsEntry::File { .. } => Seq::empty(),
        FsEntry::Dir { path, readable, entries } => if readable {
            skipped_dirs_of(entries@)
        } else {
            seq![path@]
        },
    }
}

/// The unreadable directories reached from a sequence of sibling entries.
pub open spec fn skipped_dirs_of(s: Seq<FsEntry>) -> Seq<Seq<char>>
    decreases s,
{
    if s.len() == 0 {
        Seq::empty()
    } else {
        skipped_dirs_of(s.drop_last()) + skipped_dirs(s.last())
    }
}

/// What a discovery call on `root` yields: nothing when the root is not a
/// directory, else the files of the recursive scan.
pub open spec fn discovery_files(root: FsEntry, exts: Seq<Seq<char>>) -> Seq<Seq<char>> {
    match root {
        FsEntry::Dir { .. } => discovered_files(root, exts),
        FsEntry::File { .. } => Seq::empty(),
    }
}

/// The unreadable directories a discovery call on `root` reports.
pub open spec fn discovery_skipped(root: FsEntry) -> Seq<Seq<char>> {
    match root {
        FsEntry::Dir { .. } => skipped_dirs(root),
        FsEntry::File { .. } => Seq::empty(),
    }
}

/// The default extension set for images: `jpg`, `png`, `jpeg`.
pub open spec fn default_image_extensions() -> Seq<Seq<char>> {
    seq!["jpg"@, "png"@, "jpeg"@]
}

/// Is every directory in the tree readable?
pub open spec fn all_readable(t: FsEntry) -> bool
    decreases t,
{
    match t {
        FsEntry::File { .. } => true,
        FsEntry::Dir { readable, entries, .. } => readable && forall|i: int|
            0 <= i < entries@.len() ==> all_readable(#[trigger] entries@[i]),
    }
}

/// Does the tree hold a regular file with path `p`, at any depth?
pub open spec fn tree_contains_file(t: FsEntry, p: Seq<char>) -> bool
    decreases t,
{
    match t {
        FsEntry::File { path } => path@ == p,
        FsEntry::Dir { entries, .. } => exists|i: int|
            0 <= i < entries@.len() && tree_contains_file(#[trigger] entries@[i], p),
    }
}

/// The paths of files in the tree whose extension belongs to `exts`.
pub open spec fn matching_file_paths(t: FsEntry, exts: Seq<Seq<char>>) -> Set<Seq<char>> {
    Set::new(|p: Seq<char>| tree_contains_file(t, p) && matches_extensions(p, exts))
}

proof fn lemma_discovered_files_exact_of(s: Seq<FsEntry>, exts: Seq<Seq<char>>)
    requires
        forall|i: int| 0 <= i < s.len() ==> all_readable(#[trigger] s[i]),
    ensures
        discovered_files_of(s, exts).to_set() == Set::new(
            |p: Seq<char>|
                (exists|i: int| 0 <= i < s.len() && tree_contains_file(#[trigger] s[i], p))
                    && matches_extensions(p, exts),
        ),
    decreases s,
{
    let want = Set::new(
        |p: Seq<char>|
            (exists|i: int| 0 <= i < s.len() && tree_contains_file(#[trigger] s[i], p))
                && matches_extensions(p, exts),
    );
    if s.len() == 0 {
        assert(discovered_files_of(s, exts).to_set() =~= want);
    } else {
        let front = s.drop_last();
        lemma_discovered_files_exact_of(front, exts);
        lemma_discovered_files_exact(s.last(), exts);
        let a = discovered_files_of(front, exts);
        let b = discovered_files(s.last(), exts);
        assert forall|p: Seq<char>| #[trigger] (a + b).contains(p) implies a.contains(p)
            || b.contains(p) by {
            let i = choose|i: int| 0 <= i < (a + b).len() && (a + b)[i] == p;
            if i < a.len() {
                assert(a[i] == p);
            } else {
                assert(b[i - a.len()] == p);
            }
        }
        assert forall|p: Seq<char>| a.contains(p) || b.contains(p) implies #[trigger] (a
            + b).contains(p) by {
            if a.contains(p) {
                let i = choose|i: int| 0 <= i < a.len() && a[i] == p;
                assert((a + b)[i] == p);
            } else {
                let i = choose|i: int| 0 <= i < b.len() && b[i] == p;
                assert((a + b)[a.len() + i] == p);
            }
        }
        assert forall|p: Seq<char>| want.contains(p) implies (a + b).to_set().contains(p) by {
            let i = choose|i: int| 0 <= i < s.len() && tree_contains_file(s[i], p);
            if i < front.len() {
                assert(front[i] == s[i]);
                assert(a.to_set().contains(p));
            } else {
                assert(s[i] == s.last());
                assert(b.to_set().contains(p));
            }
        }
        assert forall|p: Seq<char>| (a + b).to_set().contains(p) implies want.contains(p) by {
            if a.contains(p) {
                assert(a.to_set().contains(p));
                let i = choose|i: int| 0 <= i < front.len() && tree_contains_file(front[i], p);
                assert(s[i] == front[i]);
                assert(tree_contains_file(s[i], p));
            } else {
                assert(b.contains(p));
                assert(b.to_set().contains(p));
                assert(matching_file_paths(s.last(), exts).contains(p));
                assert(tree_contains_file(s.last(), p));
                assert(s[s.len() - 1] == s.last());
            }
        }
        assert(discovered_files_of(s, exts).to_set() =~= want);
    }
}

proof fn lemma_discovered_files_exact(t: FsEntry, exts: Seq<Seq<char>>)
    requires
        all_readable(t),
    ensures
        discovered_files(t, exts).to_set() == matching_file_paths(t, exts),
    decreases t,
{
    match t {
        FsEntry::File { path } => {
            if matches_extensions(path@, exts) {
                assert(seq![path@].contains(path@)) by {
                    assert(seq![path@][0] == path@);
                }
                assert(discovered_files(t, exts).to_set() =~= matching_file_paths(t, exts));
            } else {
                assert(discovered_files(t, exts).to_set() =~= matching_file_paths(t, exts));
            }
        },
        FsEntry::Dir { entries, .. } => {
            lemma_discovered_files_exact_of(entries@, exts);
            assert(discovered_files(t, exts).to_set() =~= matching_file_paths(t, exts));
        },
    }
}

/// Law: on a tree whose directories are all readable, discovery returns
/// exactly the set of file paths in the tree whose extension belongs to the
/// accepted set — independent of nesting depth and of the order in which
/// the result lists them.
pub proof fn lemma_discovery_exact(root: FsEntry, exts: Seq<Seq<char>>)
    requires
        root is Dir,
        all_readable(root),
    ensures
        discovery_files(root, exts).to_set() == matching_file_paths(root, exts),
{
    lemma_discovered_files_exact(root, exts);
}

/// Law: discovery is idempotent. Two scans of one unchanged tree yield the
/// same set of paths, whatever order each scan lists them in; this is so
/// because each scan's result is pinned to the same function of the tree.
pub proof fn lemma_discovery_idempotent(
    root: FsEntry,
    exts: Seq<Seq<char>>,
    first: Seq<Seq<char>>,
    second: Seq<Seq<char>>,
)
    requires
        first == discovery_files(root, exts),
        second == discovery_files(root, exts),
    ensures
        first.to_set() == second.to_set(),
{
}

/// What one discovery call returns: the matching file paths, and the paths
/// of directories that could not be read and were skipped.
pub struct DiscoveryOutcome {
    pub files: Vec<String>,
    pub skipped: Vec<String>,
}

/// Does `extensions` hold a member whose characters equal `ext`'s?
fn contains_extension(extensions: &Vec<String>, ext: &String) -> (b: bool)
    ensures
        b == extensions.deep_view().contains(ext@),
{
    let mut k: usize = 0;
    while k < extensions.len()
        invariant
            0 <= k <= extensions.len(),
            forall|j: int| 0 <= j < k ==> extensions.deep_view()[j] != ext@,
        decreases extensions.len() - k,
    {
        if extensions[k] == *ext {
            assert(extensions.deep_view()[k as int] == ext@);
            return true;
        }
        k = k + 1;
    }
    assert(forall|j: int| 0 <= j < extensions.deep_view().len()
        ==> extensions.deep_view()[j] != ext@);
    false
}

/// Does the path's extension belong to the accepted set?
fn has_matching_extension(path: &String, extensions: &Vec<String>) -> (b: bool)
    ensures
        b == matches_extensions(path@, extensions.deep_view()),
{
    match crate::paths::extension_component(path.as_str()) {
        Some(e) => contains_extension(extensions, &e),
        None => false,
    }
}

/// Walks `entry`, appending matching file paths to `files` and the paths of
/// unreadable directories to `skipped`, in visiting order.
#[verifier::loop_isolation(false)]
fn add_file_paths_to_vector(
    entry: &FsEntry,
    files: &mut Vec<String>,
    skipped: &mut Vec<String>,
    extensions: &Vec<String>,
)
    ensures
        final(files).deep_view() == old(files).deep_view()
            + discovered_files(*entry, extensions.deep_view()),
        final(skipped).deep_view() == old(skipped).deep_view() + skipped_dirs(*entry),
    decreases *entry,
{
    match entry {
        FsEntry::File { path } => {
            if has_matching_extension(path, extensions) {
                files.push(path.clone());
            }
            assert(files.deep_view() =~= old(files).deep_view()
                + discovered_files(*entry, extensions.deep_view()));
            assert(skipped.deep_view() =~= old(skipped).deep_view() + skipped_dirs(*entry));
        },
        FsEntry::Dir { path, readable, entries } => {
            if !*readable {
                skipped.push(path.clone());
                assert(files.deep_view() =~= old(files).deep_view()
                    + discovered_files(*entry, extensions.deep_view()));
                assert(skipped.deep_view() =~= old(skipped).deep_view() + skipped_dirs(*entry));
            } else {
                let mut i: usize = 0;
                while i < entries.len()
                    invariant
                        0 <= i <= entries.len(),
                        files.deep_view() == old(files).deep_view()
                            + discovered_files_of(
                                entries@.subrange(0, i as int),
                                extensions.deep_view(),
                            ),
                        skipped.deep_view() == old(skipped).deep_view()
                            + skipped_dirs_of(entries@.subrange(0, i as int)),
                    decreases entries.len() - i,
                {
                    add_file_paths_to_vector(&entries[i], files, skipped, extensions);
                    proof {
                        let pre = entries@.subrange(0, i as int);
                        let post = entries@.subrange(0, i + 1 as int);
                        assert(post.drop_last() =~= pre);
                        assert(post.last() == entries@[i as int]);
                    }
                    i = i + 1;
                }
                proof {
                    assert(entries@.subrange(0, entries@.len() as int) =~= entries@);
                }
            }
        },
    }
}

/// Scans the tree under `root` and returns the paths of the files whose
/// extension belongs, exactly and case-sensitively, to `extensions`,
/// together with the paths of any unreadable directories that were skipped.
/// A root that is not a directory yields an empty outcome.
pub fn get_file_paths_with_extensions(root: &FsEntry, extensions: &Vec<String>) -> (r:
    DiscoveryOutcome)
    ensures
        r.files.deep_view() == discovery_files(*root, extensions.deep_view()),
        r.skipped.deep_view() == discovery_skipped(*root),
{
    let mut files: Vec<String> = Vec::new();
    let mut skipped: Vec<String> = Vec::new();
    match root {
        FsEntry::Dir { .. } => {
            add_file_paths_to_vector(root, &mut files, &mut skipped, extensions);
        },
        FsEntry::File { .. } => {
        },
    }
    assert(files.deep_view() =~= discovery_files(*root, extensions.deep_view()));
    assert(skipped.deep_view() =~= discovery_skipped(*root));
    DiscoveryOutcome { files, skipped }
}

/// Scans the tree under `root` for image files: those with extension `jpg`,
/// `png` or `jpeg`.
pub fn get_all_image_paths(root: &FsEntry) -> (r: DiscoveryOutcome)
    ensures
        r.files.deep_view() == discovery_files(*root, default_image_extensions()),
        r.skipped.deep_view() == discovery_skipped(*root),
{
    let extensions: Vec<String> = vec![
        "jpg".to_owned(),
        "png".to_owned(),
        "jpeg".to_owned(),
    ];
    assert(extensions.deep_view() =~= default_image_extensions());
    get_file_paths_with_extensions(root, &extensions)
}

/// The paths of the direct child directories among a sequence of entries.
pub open spec fn direct_subdirectory_paths(s: Seq<FsEntry>) -> Seq<Seq<char>>
    decreases s,
{
    if s.len() == 0 {
        Seq::empty()
    } else {
        direct_subdirectory_paths(s.drop_last()) + (match s.last() {
            FsEntry::Dir { path, .. } => seq![path@],
            FsEntry::File { .. } => Seq::empty(),
        })
    }
}

/// The direct child directories a listing of `root` yields: only the
/// immediate children, never deeper ones, and nothing when the root is not
/// a readable directory.
pub open spec fn subdirectories_of(root: FsEntry) -> Seq<Seq<char>> {
    match root {
        FsEntry::Dir { readable, entries, .. } => if readable {
            direct_subdirectory_paths(entries@)
        } else {
            Seq::empty()
        },
        FsEntry::File { .. } => Seq::empty(),
    }
}

/// Returns the paths of the immediate child directories of `root`, in entry
/// order. A root that is not a directory, or that cannot be read, yields an
/// empty listing; deeper descendants are never included.
#[verifier::loop_isolation(false)]
pub fn get_sub_directories(root: &FsEntry) -> (r: Vec<String>)
    ensures
        r.deep_view() == subdirectories_of(*root),
{
    let mut result: Vec<String> = Vec::new();
    match root {
        FsEntry::Dir { readable, entries, .. } => {
            if *readable {
                let mut i: usize = 0;
                while i < entries.len()
                    invariant
                        0 <= i <= entries.len(),
                        result.deep_view() == direct_subdirectory_paths(
                            entries@.subrange(0, i as int),
                        ),
                    decreases entries.len() - i,
                {
                    match &entries[i] {
                        FsEntry::Dir { path, .. } => {
                            result.push(path.clone());
                        },
                        FsEntry::File { .. } => {
                        },
                    }
                    proof {
                        let pre = entries@.subrange(0, i as int);
                        let post = entries@.subrange(0, i + 1 as int);
                        assert(post.drop_last() =~= pre);
                        assert(post.last() == entries@[i as int]);
                        assert(result.deep_view() =~= direct_subdirectory_paths(post));
                    }
                    i = i + 1;
                }
                proof {
                    assert(entries@.subrange(0, entries@.len() as int) =~= entries@);
                }
            }
        },
        FsEntry::File { .. } => {
        },
    }
    assert(result.deep_view() =~= subdirectories_of(*root));
    result
}

} // verus!
