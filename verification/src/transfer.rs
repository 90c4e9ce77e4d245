//! A directory tree read into memory, and the SFTP operations that recreate
//! it on the target machine.
use vstd::prelude::*;

verus! {

/// A file or directory, with the directory's entries or the file's bytes.
#[derive(Debug, PartialEq, Eq)]
pub struct Entry {
    pub path: String,
    pub inner: FileInner,
}

/// What an [`Entry`] holds.
#[derive(Debug, PartialEq, Eq)]
pub enum FileInner {
    Directory(Vec<Entry>),
    File(Vec<u8>),
}

/// One SFTP operation on the target machine.
#[derive(Debug, PartialEq, Eq)]
pub enum SftpAction {
    /// Create the directory at this path.
    CreateDir(String),
    /// Create the file at this path and write these bytes into it.
    WriteFile(String, Vec<u8>),
}

/// An SFTP operation, by the paths and bytes it uses.
pub enum SftpStep {
    CreateDir(Seq<char>),
    WriteFile(Seq<char>, Seq<u8>),
}

/// The operation `a` stands for.
pub open spec fn step_of(a: SftpAction) -> SftpStep {
    match a {
        SftpAction::CreateDir(p) => SftpStep::CreateDir(p@),
        SftpAction::WriteFile(p, d) => SftpStep::WriteFile(p@, d@),
    }
}

/// The operations a sequence of actions stands for.
pub open spec fn steps_of(s: Seq<SftpAction>) -> Seq<SftpStep> {
    s.map_values(|a: SftpAction| step_of(a))
}

/// The operations that recreate `e`: a directory is created before its
/// entries are recreated in order; a file is written whole.
pub open spec fn entry_plan(e: Entry) -> Seq<SftpStep>
    decreases e,
{
    match e.inner {
        FileInner::File(data) => seq![SftpStep::WriteFile(e.path@, data@)],
        FileInner::Directory(entries) => seq![SftpStep::CreateDir(e.path@)] + entries_plan(
            entries@,
        ),
    }
}

/// The operations that recreate each of `es`, in order.
pub open spec fn entries_plan(es: Seq<Entry>) -> Seq<SftpStep>
    decreases es,
{
    if es.len() == 0 {
        Seq::empty()
    } else {
        entry_plan(es[0]) + entries_plan(es.subrange(1, es.len() as int))
    }
}

/// The number of files and directories in `e`, itself included.
pub open spec fn entry_count(e: Entry) -> nat
    decreases e,
{
    match e.inner {
        FileInner::File(_) => 1,
        FileInner::Directory(entries) => 1 + entries_count(entries@),
    }
}

/// The number of files and directories in each of `es`, summed.
pub open spec fn entries_count(es: Seq<Entry>) -> nat
    decreases es,
{
    if es.len() == 0 {
        0
    } else {
        entry_count(es[0]) + entries_count(es.subrange(1, es.len() as int))
    }
}

/// Recreating a tree takes one operation for each file and directory in it,
/// and the first creates (or writes) its root.
pub proof fn lemma_plan_covers_tree(e: Entry)
    ensures
        entry_plan(e).len() == entry_count(e),
        entry_plan(e)[0] == (match e.inner {
            FileInner::File(data) => SftpStep::WriteFile(e.path@, data@),
            FileInner::Directory(_) => SftpStep::CreateDir(e.path@),
        }),
    decreases e,
{
    match e.inner {
        FileInner::File(_) => {},
        FileInner::Directory(entries) => {
            lemma_plans_cover_trees(entries@);
        },
    }
}

/// See [`lemma_plan_covers_tree`].
pub proof fn lemma_plans_cover_trees(es: Seq<Entry>)
    ensures
        entries_plan(es).len() == entries_count(es),
    decreases es,
{
    if es.len() > 0 {
        lemma_plan_covers_tree(es[0]);
        lemma_plans_cover_trees(es.subrange(1, es.len() as int));
    }
}

/// `f` is `e` or lies somewhere below it.
pub open spec fn in_tree(f: Entry, e: Entry) -> bool
    decreases e,
{
    f == e || match e.inner {
        FileInner::Directory(entries) => in_forest(f, entries@),
        FileInner::File(_) => false,
    }
}

/// `f` is one of `es` or lies below one of them.
pub open spec fn in_forest(f: Entry, es: Seq<Entry>) -> bool
    decreases es,
{
    es.len() > 0 && (in_tree(f, es[0]) || in_forest(f, es.subrange(1, es.len() as int)))
}

/// Some file in `e` has path `p` and bytes `d`.
pub open spec fn has_file(e: Entry, p: Seq<char>, d: Seq<u8>) -> bool {
    exists|f: Entry|
        #![trigger in_tree(f, e)]
        in_tree(f, e) && f.path@ == p && f.inner is File && f.inner->File_0@ == d
}

/// Some file in `es` has path `p` and bytes `d`.
pub open spec fn forest_has_file(es: Seq<Entry>, p: Seq<char>, d: Seq<u8>) -> bool {
    exists|f: Entry|
        #![trigger in_forest(f, es)]
        in_forest(f, es) && f.path@ == p && f.inner is File && f.inner->File_0@ == d
}

/// Every file in the tree is written, at its own path, with its own bytes.
pub proof fn lemma_plan_writes_every_file(e: Entry, f: Entry)
    requires
        in_tree(f, e),
        f.inner is File,
    ensures
        entry_plan(e).contains(SftpStep::WriteFile(f.path@, f.inner->File_0@)),
    decreases e,
{
    if f == e {
        assert(entry_plan(e)[0] == SftpStep::WriteFile(f.path@, f.inner->File_0@));
    } else {
        match e.inner {
            FileInner::Directory(entries) => {
                lemma_forest_writes_every_file(entries@, f);
                let w = SftpStep::WriteFile(f.path@, f.inner->File_0@);
                let k = choose|k: int| 0 <= k < entries_plan(entries@).len() && entries_plan(entries@)[k] == w;
                let plan = entry_plan(e);
                assert(plan[k + 1] == w);
            },
            FileInner::File(_) => {},
        }
    }
}

/// See [`lemma_plan_writes_every_file`].
pub proof fn lemma_forest_writes_every_file(es: Seq<Entry>, f: Entry)
    requires
        in_forest(f, es),
        f.inner is File,
    ensures
        entries_plan(es).contains(SftpStep::WriteFile(f.path@, f.inner->File_0@)),
    decreases es,
{
    let w = SftpStep::WriteFile(f.path@, f.inner->File_0@);
    let first = entry_plan(es[0]);
    let rest = es.subrange(1, es.len() as int);
    if in_tree(f, es[0]) {
        lemma_plan_writes_every_file(es[0], f);
        let k = choose|k: int| 0 <= k < first.len() && first[k] == w;
        assert(entries_plan(es)[k] == w);
    } else {
        lemma_forest_writes_every_file(rest, f);
        let k = choose|k: int| 0 <= k < entries_plan(rest).len() && entries_plan(rest)[k] == w;
        assert(entries_plan(es)[first.len() + k] == w);
    }
}

/// Every file written by the plan is a file of the tree, written at its own
/// path with its own bytes: no write carries another file's bytes.
pub proof fn lemma_plan_writes_only_files(e: Entry, i: int)
    requires
        0 <= i < entry_plan(e).len(),
        entry_plan(e)[i] is WriteFile,
    ensures
        has_file(e, entry_plan(e)[i]->WriteFile_0, entry_plan(e)[i]->WriteFile_1),
    decreases e,
{
    let step = entry_plan(e)[i];
    match e.inner {
        FileInner::File(data) => {
            assert(in_tree(e, e));
        },
        FileInner::Directory(entries) => {
            assert(i > 0);
            assert(entries_plan(entries@)[i - 1] == step);
            lemma_forest_writes_only_files(entries@, i - 1);
            let f = choose|f: Entry|
                #![trigger in_forest(f, entries@)]
                in_forest(f, entries@) && f.path@ == step->WriteFile_0 && f.inner is File && f.inner->File_0@ == step->WriteFile_1;
            assert(in_tree(f, e));
        },
    }
}

/// See [`lemma_plan_writes_only_files`].
pub proof fn lemma_forest_writes_only_files(es: Seq<Entry>, i: int)
    requires
        0 <= i < entries_plan(es).len(),
        entries_plan(es)[i] is WriteFile,
    ensures
        forest_has_file(es, entries_plan(es)[i]->WriteFile_0, entries_plan(es)[i]->WriteFile_1),
    decreases es,
{
    let step = entries_plan(es)[i];
    let first = entry_plan(es[0]);
    let rest = es.subrange(1, es.len() as int);
    if i < first.len() {
        assert(first[i] == step);
        lemma_plan_writes_only_files(es[0], i);
        let f = choose|f: Entry|
            #![trigger in_tree(f, es[0])]
            in_tree(f, es[0]) && f.path@ == step->WriteFile_0 && f.inner is File && f.inner->File_0@ == step->WriteFile_1;
        assert(in_forest(f, es));
    } else {
        assert(entries_plan(rest)[i - first.len()] == step);
        lemma_forest_writes_only_files(rest, i - first.len());
        let f = choose|f: Entry|
            #![trigger in_forest(f, rest)]
            in_forest(f, rest) && f.path@ == step->WriteFile_0 && f.inner is File && f.inner->File_0@ == step->WriteFile_1;
        assert(in_forest(f, es));
    }
}

/// A copy of `v`.
fn copy_bytes(v: &Vec<u8>) -> (r: Vec<u8>)
    ensures
        r@ == v@,
{
    let mut r: Vec<u8> = Vec::new();
    let mut i: usize = 0;
    while i < v.len()
        invariant
            i <= v@.len(),
            r@ == v@.subrange(0, i as int),
        decreases v@.len() - i,
    {
        r.push(v[i]);
        i = i + 1;
        assert(r@ =~= v@.subrange(0, i as int));
    }
    assert(r@ =~= v@);
    r
}

/// Appends the operations that recreate `e` to `out`.
fn push_plan(e: &Entry, out: &mut Vec<SftpAction>)
    ensures
        steps_of(final(out)@) == steps_of(old(out)@) + entry_plan(*e),
    decreases e,
{
    match &e.inner {
        FileInner::File(data) => {
            let ghost before = out@;
            out.push(SftpAction::WriteFile(e.path.clone(), copy_bytes(data)));
            assert(steps_of(out@) =~= steps_of(before) + entry_plan(*e));
        },
        FileInner::Directory(entries) => {
            let ghost before = out@;
            out.push(SftpAction::CreateDir(e.path.clone()));
            assert(steps_of(out@) =~= steps_of(before) + seq![SftpStep::CreateDir(e.path@)]);
            let n = entries.len();
            let mut i: usize = 0;
            assert(entries@.subrange(0, n as int) =~= entries@);
            while i < n
                invariant
                    n == entries@.len(),
                    i <= n,
                    e.inner == FileInner::Directory(*entries),
                    steps_of(out@) + entries_plan(entries@.subrange(i as int, n as int)) == steps_of(
                        before,
                    ) + seq![SftpStep::CreateDir(e.path@)] + entries_plan(entries@),
                decreases n - i,
            {
                let ghost mid = out@;
                let ghost rest = entries@.subrange(i as int, n as int);
                assert(rest[0] == entries@[i as int]);
                assert(rest.subrange(1, rest.len() as int) =~= entries@.subrange(i + 1, n as int));
                proof {
                    assert(decreases_to!(*e => e.inner));
                    assert(decreases_to!(e.inner => e.inner->Directory_0));
                    assert(decreases_to!(*entries => entries@));
                    assert(decreases_to!(entries@ => entries@[i as int]));
                    assert(decreases_to!(*e => entries@[i as int]));
                }
                push_plan(&entries[i], out);
                assert(steps_of(out@) + entries_plan(entries@.subrange(i + 1, n as int)) =~= steps_of(
                    mid,
                ) + entries_plan(rest));
                i = i + 1;
            }
            assert(entries@.subrange(n as int, n as int) =~= Seq::<Entry>::empty());
            assert(steps_of(out@) =~= steps_of(before) + entry_plan(*e));
        },
    }
}

impl Entry {
    /// The SFTP operations that recreate this tree on the target machine:
    /// each directory is created before its entries, in order, and each file
    /// is written whole.
    pub fn transfer_plan(&self) -> (r: Vec<SftpAction>)
        ensures
            steps_of(r@) == entry_plan(*self),
    {
        let mut out: Vec<SftpAction> = Vec::new();
        push_plan(self, &mut out);
        assert(steps_of(Seq::<SftpAction>::empty()) =~= Seq::<SftpStep>::empty());
        assert(steps_of(out@) =~= entry_plan(*self));
        out
    }
}

} // verus!
