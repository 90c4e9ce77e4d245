//! The layout of the zip archive that carries the container directories to
//! the target machine.
use crate::docker::joined_path;
use crate::text::{
    chars_of, occurs_at_exec, owned, string_of_range, trim_both, trim_char, trim_end, trim_start,
};
use vstd::string::*;
use vstd::prelude::*;

verus! {

/// `path` relative to `prefix` (`Path::strip_prefix`). A path that extends
/// the prefix as text lies under it when the prefix ends with `/` or the rest
/// starts with `/`; the rest, without leading and trailing `/`, is the
/// relative path. A prefix with trailing `/` also covers the path it names.
/// This is `Path::strip_prefix` on every path a walk of the directory
/// `prefix` yields (see [`lemma_walk_path_relative`]); on paths that match
/// the prefix only after collapsing `//` or `/./`, such as `a/b` under `a//b`,
/// it gives `None` where `Path::strip_prefix` matches.
pub open spec fn strip_path_prefix(prefix: Seq<char>, path: Seq<char>) -> Option<Seq<char>> {
    if prefix.len() == 0 {
        Some(path)
    } else if prefix.len() <= path.len() && path.subrange(0, prefix.len() as int) == prefix {
        let rest = path.subrange(prefix.len() as int, path.len() as int);
        if rest.len() == 0 || prefix.last() == '/' || rest[0] == '/' {
            Some(trim_both(rest, '/'))
        } else {
            None
        }
    } else if path.len() > 0 && trim_end(prefix, '/') == path {
        Some(Seq::empty())
    } else {
        None
    }
}

/// The name under which `path` is stored in an archive of the directory
/// `prefix`; `None` when `path` does not lie under `prefix`.
pub fn zip_entry_name(prefix: &str, path: &str) -> (r: Option<String>)
    ensures
        r matches Some(name) ==> strip_path_prefix(prefix@, path@) == Some(name@),
        r is None ==> strip_path_prefix(prefix@, path@) is None,
{
    let pv = chars_of(prefix);
    let v = chars_of(path);
    let pl = pv.len();
    let n = v.len();
    if pl == 0 {
        return Some(owned(path));
    }
    if pl <= n && occurs_at_exec(&v, &pv, 0) {
        if pl == n || pv[pl - 1] == '/' || v[pl] == '/' {
            let rest = string_of_range(&v, pl, n);
            return Some(trim_char(rest.as_str(), '/'));
        } else {
            return None;
        }
    }
    let mut j: usize = pl;
    assert(pv@.subrange(0, pl as int) =~= pv@);
    while j > 0 && pv[j - 1] == '/'
        invariant
            pl == pv@.len(),
            pv@ == prefix@,
            j <= pl,
            trim_end(prefix@, '/') == trim_end(pv@.subrange(0, j as int), '/'),
        decreases j,
    {
        assert(pv@.subrange(0, j as int).drop_last() =~= pv@.subrange(0, j - 1));
        j = j - 1;
    }
    assert(trim_end(prefix@, '/') == pv@.subrange(0, j as int));
    if n > 0 && j == n && occurs_at_exec(&pv, &v, 0) {
        return Some(String::new());
    }
    None
}

/// The path `names` joined by single `/`.
pub open spec fn join_names(names: Seq<Seq<char>>) -> Seq<char>
    decreases names.len(),
{
    if names.len() == 0 {
        Seq::empty()
    } else if names.len() == 1 {
        names[0]
    } else {
        join_names(names.drop_last()) + "/"@ + names.last()
    }
}

/// Each of `names` is a non-empty name without `/`.
pub open spec fn proper_names(names: Seq<Seq<char>>) -> bool {
    forall|i: int| 0 <= i < names.len() ==> (#[trigger] names[i]).len() > 0 && forall|k: int|
        0 <= k < names[i].len() ==> names[i][k] != '/'
}

/// The path a walk of the directory `root` yields for the entry reached
/// through `names` (`root.join(names[0]).join(names[1])...`).
pub open spec fn walk_path(root: Seq<char>, names: Seq<Seq<char>>) -> Seq<char> {
    if names.len() == 0 {
        root
    } else if root.len() == 0 || root.last() == '/' {
        root + join_names(names)
    } else {
        root + "/"@ + join_names(names)
    }
}

proof fn lemma_join_names_ends(names: Seq<Seq<char>>)
    requires
        names.len() > 0,
        proper_names(names),
    ensures
        join_names(names).len() > 0,
        join_names(names)[0] == names[0][0],
        join_names(names).last() == names.last().last(),
    decreases names.len(),
{
    if names.len() > 1 {
        reveal_strlit("/");
        let front = names.drop_last();
        assert(proper_names(front)) by {
            assert forall|i: int| 0 <= i < front.len() implies (#[trigger] front[i]).len() > 0
                && forall|k: int| 0 <= k < front[i].len() ==> front[i][k] != '/' by {
                assert(front[i] == names[i]);
            }
        }
        lemma_join_names_ends(front);
        assert(names[names.len() - 1].len() > 0);
    }
}

/// A walked path lies under the walked directory, and its relative path is
/// its names joined by `/`, whatever separators end the directory's name.
pub proof fn lemma_walk_path_relative(root: Seq<char>, names: Seq<Seq<char>>)
    requires
        proper_names(names),
    ensures
        strip_path_prefix(root, walk_path(root, names)) == Some(join_names(names)),
{
    reveal_strlit("/");
    let path = walk_path(root, names);
    if root.len() == 0 {
        if names.len() == 0 {
            assert(path =~= Seq::<char>::empty());
        }
    } else {
        assert(path.subrange(0, root.len() as int) =~= root);
        let rest = path.subrange(root.len() as int, path.len() as int);
        if names.len() == 0 {
            assert(rest =~= Seq::<char>::empty());
        } else {
            lemma_join_names_ends(names);
            let j = join_names(names);
            assert(names[names.len() - 1].len() > 0);
            if root.last() == '/' {
                assert(rest =~= j);
                assert(trim_start(j, '/') == j);
            } else {
                assert(rest =~= "/"@ + j);
                assert(rest.drop_first() =~= j);
                assert(trim_start(rest, '/') == trim_start(j, '/'));
                assert(trim_start(j, '/') == j);
            }
            assert(trim_end(j, '/') == j);
        }
    }
}

/// An entry archived from the directory `src` is extracted to the same
/// relative place under `dest`: storing the walked path under the name
/// [`strip_path_prefix`] gives, and extracting that name under `dest`
/// (`joined_path`), yields the path the same names reach from `dest`.
pub proof fn lemma_archive_round_trip(src: Seq<char>, dest: Seq<char>, names: Seq<Seq<char>>)
    requires
        names.len() > 0,
        proper_names(names),
    ensures
        strip_path_prefix(src, walk_path(src, names)) matches Some(name) && joined_path(dest, name)
            == walk_path(dest, names),
{
    reveal_strlit("/");
    lemma_walk_path_relative(src, names);
    lemma_join_names_ends(names);
    assert(names[0].len() > 0);
    assert(join_names(names)[0] != '/');
}

/// What an archive of a directory holds for one path below it.
#[derive(Debug, PartialEq, Eq)]
pub enum ZipEntryAction {
    /// The file's contents, under this name.
    AddFile(String),
    /// A directory entry of this name.
    AddDirectory(String),
    /// Nothing: the archived directory itself.
    Skip,
}

/// The archive entry for the path stored as `name`: a file is stored with its
/// contents, any other path as a directory entry, except the archived
/// directory itself, whose name is empty.
pub fn zip_entry_action(name: String, is_file: bool) -> (r: ZipEntryAction)
    ensures
        is_file ==> r == ZipEntryAction::AddFile(name),
        !is_file && name@.len() > 0 ==> r == ZipEntryAction::AddDirectory(name),
        !is_file && name@.len() == 0 ==> r == ZipEntryAction::Skip,
{
    if is_file {
        ZipEntryAction::AddFile(name)
    } else if name.as_str().unicode_len() > 0 {
        ZipEntryAction::AddDirectory(name)
    } else {
        ZipEntryAction::Skip
    }
}

} // verus!
