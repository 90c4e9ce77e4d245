//! Migration of Docker containers: each container is checkpointed, its
//! filesystem exported, re-imported on the target machine as a new container,
//! and the checkpoint moved into the new container's directory to restore it.
use crate::container_map::ContainerMap;
use crate::entropy::{random_passphrase, random_u64};
use crate::text::{
    after_last, chars_of, decimal, decimal_string, lemma_decimal_injective, owned, prefix_before,
    prefix_before_char, push_text, remove_all, remove_all_str, segment_after_last, string_of_range,
    trim_both, trim_char,
};
use vstd::prelude::*;

verus! {

/// A checkpoint taken of a running container.
#[derive(Debug, Clone)]
pub struct Checkpoint {
    pub checkpoint_name: String,
    pub container_id: String,
}

/// A container image imported from an exported archive, and the container
/// created from it. `container_id` is the file stem of the archive.
#[derive(Debug)]
pub struct ImportedContainer {
    pub container_id: String,
    pub new_container_id: String,
}

/// The options of the commit that turns a running container into an image.
#[derive(Debug)]
pub struct CommitPlan {
    pub container: String,
    pub repo: String,
    pub tag: String,
    pub comment: String,
    pub author: String,
    pub pause: bool,
}

/// The configuration of a container to be created from an imported image.
#[derive(Debug)]
pub struct ContainerConfig {
    pub name: String,
    pub image: String,
    pub cmd: Vec<String>,
}

/// What restoring one checkpoint on the target machine does: the checkpoint
/// directory of the old container is moved into the directory of the new
/// container, which is then started from the checkpoint.
#[derive(Debug)]
pub struct RestoreStep {
    /// Directory that holds the checkpoints of the old container.
    pub checkpoints_dir: String,
    /// Directory of this checkpoint, which must exist before the move.
    pub checkpoint_path: String,
    /// Directory of the new container, into which `checkpoints_dir` moves.
    pub target_dir: String,
    pub checkpoint_name: String,
    /// The new container, started from the checkpoint.
    pub container_name: String,
}

// ---------------------------------------------------------------------------
// Specifications
// ---------------------------------------------------------------------------

/// Name of the Docker repository tag given to committed containers.
pub open spec fn commit_tag() -> Seq<char> {
    "checkpointedlatest"@
}

/// The name of the checkpoint drawn with nonce `n`: its decimal digits.
pub open spec fn checkpoint_name_of(n: u64) -> Seq<char> {
    decimal(n as nat)
}

/// The directory that holds the checkpoints of container `id`.
pub open spec fn checkpoints_dir_of(id: Seq<char>) -> Seq<char> {
    "/var/lib/docker/containers/"@ + id + "/checkpoints"@
}

/// The directory of the container `id`.
pub open spec fn container_dir_of(id: Seq<char>) -> Seq<char> {
    "/var/lib/docker/containers/"@ + id + "/"@
}

/// The file an exported container is written to.
pub open spec fn export_path_of(id: Seq<char>) -> Seq<char> {
    "containers/"@ + id + ".tar.gz"@
}

/// The name under which an imported container is looked up: its id up to
/// the first dot.
pub open spec fn old_name_of(container_id: Seq<char>) -> Seq<char> {
    prefix_before(container_id, '.')
}

/// The part of `s` before its last `c`, if `c` occurs.
pub open spec fn before_last(s: Seq<char>, c: char) -> Option<Seq<char>>
    decreases s.len(),
{
    if s.len() == 0 {
        None
    } else if s.last() == c {
        Some(s.drop_last())
    } else {
        before_last(s.drop_last(), c)
    }
}

/// The stem of a file name (`Path::file_stem`): the name without its last
/// extension; a name without a dot, or whose only dot is its first
/// character, is its own stem, and so is "..".
pub open spec fn stem_of(name: Seq<char>) -> Seq<char> {
    if name == seq!['.', '.'] {
        name
    } else {
        match before_last(name, '.') {
            None => name,
            Some(b) => if b.len() == 0 {
                name
            } else {
                b
            },
        }
    }
}

proof fn lemma_before_last_shape(s: Seq<char>, c: char)
    ensures
        before_last(s, c) is None ==> forall|i: int| 0 <= i < s.len() ==> s[i] != c,
        before_last(s, c) matches Some(b) ==> b.len() < s.len() && s.subrange(0, b.len() as int)
            == b && s[b.len() as int] == c && forall|i: int| b.len() < i < s.len() ==> s[i] != c,
    decreases s.len(),
{
    if s.len() > 0 && s.last() != c {
        lemma_before_last_shape(s.drop_last(), c);
        if let Some(b) = before_last(s, c) {
            let t = s.drop_last();
            assert(t.subrange(0, b.len() as int) =~= s.subrange(0, b.len() as int));
            assert(s[b.len() as int] == t[b.len() as int]);
            assert forall|i: int| b.len() < i < s.len() implies s[i] != c by {
                if i < s.len() - 1 {
                    assert(s[i] == t[i]);
                }
            }
        } else {
            assert forall|i: int| 0 <= i < s.len() implies s[i] != c by {
                if i < s.len() - 1 {
                    assert(s[i] == s.drop_last()[i]);
                }
            }
        }
    } else if s.len() > 0 {
        assert(s.subrange(0, s.len() - 1) =~= s.drop_last());
    }
}

/// The stem of a file name is the name up to its last dot, or the whole name
/// when it has no dot, when its only dot is its first character, or when it
/// is `..`.
pub proof fn lemma_stem_is_name_before_last_dot(name: Seq<char>)
    ensures
        stem_of(name).len() <= name.len(),
        name.subrange(0, stem_of(name).len() as int) == stem_of(name),
        stem_of(name).len() < name.len() ==> {
            &&& stem_of(name).len() > 0
            &&& name[stem_of(name).len() as int] == '.'
            &&& forall|i: int| stem_of(name).len() < i < name.len() ==> name[i] != '.'
        },
        (forall|i: int| 0 <= i < name.len() ==> name[i] != '.') ==> stem_of(name) == name,
{
    lemma_before_last_shape(name, '.');
    assert(name.subrange(0, name.len() as int) =~= name);
}

/// The map after recording each imported container under its old name.
pub open spec fn import_all(m: Map<Seq<char>, Seq<char>>, s: Seq<ImportedContainer>) -> Map<
    Seq<char>,
    Seq<char>,
>
    decreases s.len(),
{
    if s.len() == 0 {
        m
    } else {
        import_all(m, s.drop_last()).insert(
            old_name_of(s.last().container_id@),
            s.last().new_container_id@,
        )
    }
}

/// The restore step of `cp` when its container has become `new_id`.
pub open spec fn restore_step_matches(step: RestoreStep, cp: Checkpoint, new_id: Seq<char>) -> bool {
    &&& step.checkpoints_dir@ == checkpoints_dir_of(cp.container_id@)
    &&& step.checkpoint_path@ == checkpoints_dir_of(cp.container_id@) + "/"@ + cp.checkpoint_name@
    &&& step.target_dir@ == container_dir_of(new_id)
    &&& step.checkpoint_name@ == cp.checkpoint_name@
    &&& step.container_name@ == new_id
}

/// The command that starts the restore on the target machine.
pub open spec fn restore_command_of(archive: Seq<char>, checkpoints_json: Seq<char>) -> Seq<char> {
    "nohup sudo RUST_BACKTRACE=1 RUST_LOG=info DOCKER_HOST=unix:///var/run/docker.sock ./hydra restore "@
        + archive + " '"@ + checkpoints_json + "' > output.txt & disown"@
}

/// The path an archive entry is extracted to (`Path::join`): an absolute
/// entry name stands for itself, otherwise it is appended to `dest` with one
/// separator.
pub open spec fn joined_path(dest: Seq<char>, name: Seq<char>) -> Seq<char> {
    if name.len() > 0 && name[0] == '/' {
        name
    } else if dest.len() == 0 || dest.last() == '/' {
        dest + name
    } else {
        dest + "/"@ + name
    }
}

// ---------------------------------------------------------------------------
// Laws
// ---------------------------------------------------------------------------

/// After importing, the old name of an imported container leads to the new
/// container created for it, unless a later import has the same old name.
pub proof fn lemma_import_records_new_container(
    m: Map<Seq<char>, Seq<char>>,
    s: Seq<ImportedContainer>,
    i: int,
)
    requires
        0 <= i < s.len(),
        forall|j: int|
            i < j < s.len() ==> old_name_of(s[j].container_id@) != old_name_of(
                s[i].container_id@,
            ),
    ensures
        import_all(m, s).contains_key(old_name_of(s[i].container_id@)),
        import_all(m, s)[old_name_of(s[i].container_id@)] == s[i].new_container_id@,
    decreases s.len(),
{
    if i < s.len() - 1 {
        lemma_import_records_new_container(m, s.drop_last(), i);
    }
}

/// Importing leaves the record of every name that no imported container has
/// as old name as it was.
pub proof fn lemma_import_keeps_other_names(
    m: Map<Seq<char>, Seq<char>>,
    s: Seq<ImportedContainer>,
    k: Seq<char>,
)
    requires
        forall|j: int| 0 <= j < s.len() ==> old_name_of(s[j].container_id@) != k,
    ensures
        import_all(m, s).contains_key(k) == m.contains_key(k),
        m.contains_key(k) ==> import_all(m, s)[k] == m[k],
    decreases s.len(),
{
    if s.len() > 0 {
        lemma_import_keeps_other_names(m, s.drop_last(), k);
    }
}

/// Checkpoints taken from distinct nonces have distinct names.
pub proof fn lemma_checkpoint_names_distinct(a: u64, b: u64)
    requires
        a != b,
    ensures
        checkpoint_name_of(a) != checkpoint_name_of(b),
{
    lemma_decimal_injective(a as nat, b as nat);
}

// ---------------------------------------------------------------------------
// Functions
// ---------------------------------------------------------------------------

/// The checkpoints of the given containers, the one of `container_ids[i]`
/// named by the decimal digits of `nonces[i]`.
pub fn checkpoints_from_nonces(container_ids: &Vec<String>, nonces: &Vec<u64>) -> (r: Vec<
    Checkpoint,
>)
    requires
        container_ids@.len() == nonces@.len(),
    ensures
        r@.len() == container_ids@.len(),
        forall|i: int|
            0 <= i < r@.len() ==> (#[trigger] r@[i]).container_id@ == container_ids@[i]@
                && r@[i].checkpoint_name@ == checkpoint_name_of(nonces@[i]),
{
    let n = container_ids.len();
    let mut r: Vec<Checkpoint> = Vec::new();
    let mut i: usize = 0;
    while i < n
        invariant
            n == container_ids@.len(),
            n == nonces@.len(),
            i <= n,
            r@.len() == i,
            forall|j: int|
                0 <= j < i ==> (#[trigger] r@[j]).container_id@ == container_ids@[j]@
                    && r@[j].checkpoint_name@ == checkpoint_name_of(nonces@[j]),
        decreases n - i,
    {
        let name = decimal_string(nonces[i]);
        r.push(Checkpoint { checkpoint_name: name, container_id: container_ids[i].clone() });
        i = i + 1;
    }
    r
}

/// The commit of container `container_id` into repository `repo`.
pub fn commit_plan_with_repo(container_id: &str, repo: String) -> (p: CommitPlan)
    ensures
        p.container@ == container_id@,
        p.repo@ == repo@,
        p.tag@ == commit_tag(),
        p.comment@ == "Autocheckpointed by hydra"@,
        p.author@ == "hydra"@,
        !p.pause,
{
    CommitPlan {
        container: owned(container_id),
        repo,
        tag: owned("checkpointedlatest"),
        comment: owned("Autocheckpointed by hydra"),
        author: owned("hydra"),
        pause: false,
    }
}

/// The commit of container `container_id` into a repository named by two
/// random words.
pub fn commit_plan(container_id: &str) -> (p: CommitPlan)
    ensures
        p.container@ == container_id@,
        p.repo@.len() > 0,
        p.tag@ == commit_tag(),
        p.comment@ == "Autocheckpointed by hydra"@,
        p.author@ == "hydra"@,
        !p.pause,
{
    let repo = random_passphrase(2);
    commit_plan_with_repo(container_id, repo)
}

/// The file the export of container `container_id` is written to.
pub fn export_path(container_id: &str) -> (r: String)
    ensures
        r@ == export_path_of(container_id@),
        r@ == "containers/"@ + container_id@ + ".tar.gz"@,
{
    let mut r = owned("containers/");
    push_text(&mut r, container_id);
    push_text(&mut r, ".tar.gz");
    r
}

/// The remote path an exported container file named `file_name` is copied to.
pub fn remote_container_path(file_name: &str) -> (r: String)
    ensures
        r@ == "containers/"@ + file_name@,
{
    let mut r = owned("containers/");
    push_text(&mut r, file_name);
    r
}

/// The stem of the file name `name` (see [`stem_of`]).
pub fn file_stem(name: &str) -> (r: String)
    ensures
        r@ == stem_of(name@),
{
    let v = chars_of(name);
    let n = v.len();
    if n == 2 && v[0] == '.' && v[1] == '.' {
        assert(name@ =~= seq!['.', '.']);
        return owned(name);
    }
    assert(name@ != seq!['.', '.']);
    let mut j: usize = n;
    assert(v@.subrange(0, n as int) =~= v@);
    while j > 0 && v[j - 1] != '.'
        invariant
            n == v@.len(),
            v@ == name@,
            j <= n,
            before_last(name@, '.') == before_last(v@.subrange(0, j as int), '.'),
        decreases j,
    {
        assert(v@.subrange(0, j as int).drop_last() =~= v@.subrange(0, j - 1));
        j = j - 1;
    }
    if j <= 1 {
        proof {
            if j == 1 {
                assert(v@.subrange(0, 1).drop_last() =~= Seq::<char>::empty());
            }
        }
        owned(name)
    } else {
        assert(v@.subrange(0, j as int).drop_last() =~= v@.subrange(0, j - 1));
        string_of_range(&v, 0, j - 1)
    }
}

/// The configuration of the container created from the image `image_id`
/// imported for `container_id`: named after the container, it runs
/// `/bin/sh -c sleep 10`.
pub fn container_config(container_id: &str, image_id: &str) -> (c: ContainerConfig)
    ensures
        c.name@ == container_id@,
        c.image@ == image_id@,
        c.cmd@.len() == 4,
        c.cmd@[0]@ == "/bin/sh"@,
        c.cmd@[1]@ == "-c"@,
        c.cmd@[2]@ == "sleep"@,
        c.cmd@[3]@ == "10"@,
{
    let mut cmd: Vec<String> = Vec::new();
    cmd.push(owned("/bin/sh"));
    cmd.push(owned("-c"));
    cmd.push(owned("sleep"));
    cmd.push(owned("10"));
    ContainerConfig { name: owned(container_id), image: owned(image_id), cmd }
}

/// The image id reported by `docker import`: its output without surrounding
/// newlines and with every `sha256:` removed.
pub fn normalize_image_id(output: &str) -> (r: String)
    ensures
        r@ == remove_all(trim_both(output@, '\n'), "sha256:"@),
{
    let trimmed = trim_char(output, '\n');
    remove_all_str(trimmed.as_str(), "sha256:")
}

/// The command run on the target machine to restore the checkpoints from
/// `archive`, given the checkpoints as JSON.
pub fn restore_command(archive: &str, checkpoints_json: &str) -> (r: String)
    ensures
        r@ == restore_command_of(archive@, checkpoints_json@),
        r@ == "nohup sudo RUST_BACKTRACE=1 RUST_LOG=info DOCKER_HOST=unix:///var/run/docker.sock ./hydra restore "@
            + archive@ + " '"@ + checkpoints_json@ + "' > output.txt & disown"@,
{
    let mut r = owned(
        "nohup sudo RUST_BACKTRACE=1 RUST_LOG=info DOCKER_HOST=unix:///var/run/docker.sock ./hydra restore ",
    );
    push_text(&mut r, archive);
    push_text(&mut r, " '");
    push_text(&mut r, checkpoints_json);
    push_text(&mut r, "' > output.txt & disown");
    r
}

/// The path the archive entry `name` is extracted to under `dest`.
pub fn extraction_path(dest: &str, name: &str) -> (r: String)
    ensures
        r@ == joined_path(dest@, name@),
        name@.len() > 0 && name@[0] == '/' ==> r@ == name@,
        !(name@.len() > 0 && name@[0] == '/') && (dest@.len() == 0 || dest@.last() == '/') ==> r@
            == dest@ + name@,
        !(name@.len() > 0 && name@[0] == '/') && dest@.len() > 0 && dest@.last() != '/' ==> r@
            == dest@ + "/"@ + name@,
{
    let nv = chars_of(name);
    if nv.len() > 0 && nv[0] == '/' {
        return owned(name);
    }
    let dv = chars_of(dest);
    let mut r = owned(dest);
    if !(dv.len() == 0 || dv[dv.len() - 1] == '/') {
        push_text(&mut r, "/");
    }
    push_text(&mut r, name);
    r
}

/// The name of the container whose directory is the archive entry `name`:
/// its last `/`-separated segment.
pub fn archive_dir_name(name: &str) -> (r: String)
    ensures
        r@ == after_last(name@, '/'),
{
    segment_after_last(name, '/')
}

/// `c` does not occur in `s`.
pub open spec fn lacks(s: Seq<char>, c: char) -> bool {
    forall|i: int| 0 <= i < s.len() ==> s[i] != c
}

proof fn lemma_after_last_append(p: Seq<char>, q: Seq<char>, c: char)
    requires
        lacks(q, c),
    ensures
        after_last(p + q, c) == after_last(p, c) + q,
    decreases q.len(),
{
    if q.len() == 0 {
        assert(p + q =~= p);
        assert(after_last(p, c) + q =~= after_last(p, c));
    } else {
        let pq = p + q;
        assert(pq.drop_last() =~= p + q.drop_last());
        assert(pq.last() == q.last());
        lemma_after_last_append(p, q.drop_last(), c);
        assert(after_last(p, c) + q =~= (after_last(p, c) + q.drop_last()).push(q.last()));
    }
}

proof fn lemma_before_last_append(x: Seq<char>, y: Seq<char>, c: char)
    requires
        before_last(y, c) is Some,
    ensures
        before_last(x + y, c) == Some(x + before_last(y, c)->0),
    decreases y.len(),
{
    let xy = x + y;
    assert(xy.drop_last() =~= x + y.drop_last());
    assert(xy.last() == y.last());
    if y.last() != c {
        lemma_before_last_append(x, y.drop_last(), c);
    }
}

proof fn lemma_prefix_before_append(x: Seq<char>, y: Seq<char>, c: char)
    requires
        lacks(x, c),
    ensures
        prefix_before(x + y, c) == x + prefix_before(y, c),
    decreases x.len(),
{
    if x.len() == 0 {
        assert(x + y =~= y);
        assert(x + prefix_before(y, c) =~= prefix_before(y, c));
    } else {
        let xy = x + y;
        assert(xy[0] == x[0]);
        assert(xy.drop_first() =~= x.drop_first() + y);
        lemma_prefix_before_append(x.drop_first(), y, c);
        assert(x + prefix_before(y, c) =~= seq![x[0]] + (x.drop_first() + prefix_before(y, c)));
    }
}

/// The name of the file that the export of container `id` is written to.
pub open spec fn export_file_name_of(id: Seq<char>) -> Seq<char> {
    after_last(export_path_of(id), '/')
}

/// A container exported to its file and imported from it again is recorded
/// under its own id, provided the id holds neither a dot nor a slash (as the
/// hexadecimal ids Docker gives containers do).
pub proof fn lemma_export_import_round_trip(id: Seq<char>)
    requires
        lacks(id, '.'),
        lacks(id, '/'),
    ensures
        old_name_of(stem_of(export_file_name_of(id))) == id,
{
    reveal_strlit("containers/");
    reveal_strlit(".tar.gz");
    reveal_strlit(".tar");
    let dir = "containers/"@;
    let ext = ".tar.gz"@;
    assert(lacks(ext, '/'));
    assert(export_path_of(id) =~= dir + (id + ext));
    assert(lacks(id + ext, '/'));
    lemma_after_last_append(dir, id + ext, '/');
    assert(dir.last() == '/');
    assert(after_last(dir, '/') =~= Seq::<char>::empty());
    assert(export_file_name_of(id) =~= id + ext);
    reveal_with_fuel(before_last, 4);
    assert(before_last(ext, '.') == Some(".tar"@)) by {
        assert(ext.last() == 'z');
        assert(ext.drop_last().last() == 'g');
        assert(ext.drop_last().drop_last().last() == '.');
        assert(ext.drop_last().drop_last().drop_last() =~= ".tar"@);
    }
    lemma_before_last_append(id, ext, '.');
    assert((id + ext).len() >= 7);
    assert(id + ext != seq!['.', '.']);
    assert(stem_of(id + ext) == id + ".tar"@);
    lemma_prefix_before_append(id, ".tar"@, '.');
    assert(".tar"@[0] == '.');
    assert(prefix_before(".tar"@, '.') =~= Seq::<char>::empty());
    assert(id + Seq::<char>::empty() =~= id);
}

/// The names recorded by importing are those recorded before and the old
/// names of the imported containers.
pub proof fn lemma_import_keys(m: Map<Seq<char>, Seq<char>>, s: Seq<ImportedContainer>, k: Seq<char>)
    ensures
        import_all(m, s).contains_key(k) <==> (m.contains_key(k) || exists|i: int|
            0 <= i < s.len() && old_name_of(#[trigger] s[i].container_id@) == k),
    decreases s.len(),
{
    if s.len() > 0 {
        lemma_import_keys(m, s.drop_last(), k);
        if exists|i: int| 0 <= i < s.len() && old_name_of(#[trigger] s[i].container_id@) == k {
            let i = choose|i: int| 0 <= i < s.len() && old_name_of(#[trigger] s[i].container_id@) == k;
            if i < s.len() - 1 {
                assert(s.drop_last()[i] == s[i]);
            }
        }
        if exists|i: int|
            0 <= i < s.len() - 1 && old_name_of(#[trigger] s.drop_last()[i].container_id@) == k {
            let i = choose|i: int|
                0 <= i < s.len() - 1 && old_name_of(#[trigger] s.drop_last()[i].container_id@) == k;
            assert(s[i] == s.drop_last()[i]);
        }
    }
}

/// Each import comes from the file of one of `ids`.
pub open spec fn imports_from(ids: Seq<Seq<char>>, imported: Seq<ImportedContainer>) -> bool {
    forall|i: int|
        0 <= i < imported.len() ==> exists|j: int|
            0 <= j < ids.len() && (#[trigger] imported[i]).container_id@ == stem_of(
                export_file_name_of(#[trigger] ids[j]),
            )
}

/// The file of each of `ids` is imported.
pub open spec fn imports_all_of(ids: Seq<Seq<char>>, imported: Seq<ImportedContainer>) -> bool {
    forall|j: int|
        0 <= j < ids.len() ==> exists|i: int|
            0 <= i < imported.len() && (#[trigger] imported[i]).container_id@ == stem_of(
                export_file_name_of(#[trigger] ids[j]),
            )
}

/// Each of `ids` is free of dots and slashes.
pub open spec fn plain_ids(ids: Seq<Seq<char>>) -> bool {
    forall|j: int| 0 <= j < ids.len() ==> lacks(#[trigger] ids[j], '.') && lacks(ids[j], '/')
}

proof fn lemma_key_is_exported(ids: Seq<Seq<char>>, imported: Seq<ImportedContainer>, k: Seq<char>)
    requires
        plain_ids(ids),
        imports_from(ids, imported),
        import_all(Map::empty(), imported).contains_key(k),
    ensures
        ids.contains(k),
{
    lemma_import_keys(Map::empty(), imported, k);
    let i = choose|i: int|
        0 <= i < imported.len() && old_name_of(#[trigger] imported[i].container_id@) == k;
    let j = choose|j: int|
        0 <= j < ids.len() && (#[trigger] imported[i]).container_id@ == stem_of(
            export_file_name_of(#[trigger] ids[j]),
        );
    lemma_export_import_round_trip(ids[j]);
    assert(ids[j] == k);
}

proof fn lemma_exported_is_key(ids: Seq<Seq<char>>, imported: Seq<ImportedContainer>, j: int)
    requires
        plain_ids(ids),
        imports_all_of(ids, imported),
        0 <= j < ids.len(),
    ensures
        import_all(Map::empty(), imported).contains_key(ids[j]),
{
    let i = choose|i: int|
        0 <= i < imported.len() && (#[trigger] imported[i]).container_id@ == stem_of(
            export_file_name_of(#[trigger] ids[j]),
        );
    lemma_export_import_round_trip(ids[j]);
    assert(old_name_of(imported[i].container_id@) == ids[j]);
    lemma_import_keys(Map::empty(), imported, ids[j]);
}

/// Exporting the running containers `ids` and importing every exported file
/// into an empty map records exactly the exported ids: each import comes from
/// the file of some exported id, and each exported id's file is imported.
pub proof fn lemma_exported_ids_become_keys(ids: Seq<Seq<char>>, imported: Seq<ImportedContainer>)
    requires
        plain_ids(ids),
        imports_from(ids, imported),
        imports_all_of(ids, imported),
    ensures
        import_all(Map::empty(), imported).dom() == ids.to_set(),
{
    let m = import_all(Map::<Seq<char>, Seq<char>>::empty(), imported);
    assert forall|k: Seq<char>| m.dom().contains(k) implies ids.to_set().contains(k) by {
        lemma_key_is_exported(ids, imported, k);
    }
    assert forall|k: Seq<char>| ids.to_set().contains(k) implies m.dom().contains(k) by {
        let j = choose|j: int| 0 <= j < ids.len() && ids[j] == k;
        lemma_exported_is_key(ids, imported, j);
    }
    assert(m.dom() =~= ids.to_set());
}

/// The restore command runs `./hydra restore` on the archive with the
/// checkpoints JSON as one single-quoted argument: the JSON stands verbatim
/// between the quotes, right after the archive and a space.
pub proof fn lemma_restore_command_carries_checkpoints(archive: Seq<char>, json: Seq<char>)
    ensures
        restore_command_of(archive, json)
            == "nohup sudo RUST_BACKTRACE=1 RUST_LOG=info DOCKER_HOST=unix:///var/run/docker.sock ./hydra restore "@
            + archive + " '"@ + json + "' > output.txt & disown"@,
        ({
            let c = restore_command_of(archive, json);
            let k: int = 98 + archive.len() as int + 2;
            &&& c.subrange(98, 98 + archive.len() as int) == archive
            &&& c[98 + archive.len() as int] == ' '
            &&& c[k - 1] == '\''
            &&& c.subrange(k, k + json.len() as int) == json
            &&& c[k + json.len() as int] == '\''
        }),
{
    reveal_strlit(
        "nohup sudo RUST_BACKTRACE=1 RUST_LOG=info DOCKER_HOST=unix:///var/run/docker.sock ./hydra restore ",
    );
    reveal_strlit(" '");
    reveal_strlit("' > output.txt & disown");
    let head = "nohup sudo RUST_BACKTRACE=1 RUST_LOG=info DOCKER_HOST=unix:///var/run/docker.sock ./hydra restore "@;
    assert(head.len() == 98);
    let c = restore_command_of(archive, json);
    let k: int = 98 + archive.len() as int + 2;
    assert(c.subrange(98, 98 + archive.len() as int) =~= archive);
    assert(c.subrange(k, k + json.len() as int) =~= json);
}

/// Extracting an entry joins its name to the destination as `Path::join`
/// does: an absolute name stands for itself; a relative name (directory
/// entries ending in `/` included) follows the destination, after a `/`
/// unless the destination is empty or already ends with one.
pub proof fn lemma_extraction_joins(dest: Seq<char>, name: Seq<char>)
    ensures
        name.len() > 0 && name[0] == '/' ==> joined_path(dest, name) == name,
        !(name.len() > 0 && name[0] == '/') && dest.len() > 0 && dest.last() != '/' ==> joined_path(
            dest,
            name,
        ) == dest + "/"@ + name,
        !(name.len() > 0 && name[0] == '/') && (dest.len() == 0 || dest.last() == '/')
            ==> joined_path(dest, name) == dest + name,
        !(name.len() > 0 && name[0] == '/') ==> joined_path(dest, name).subrange(
            0,
            dest.len() as int,
        ) == dest,
        !(name.len() > 0 && name[0] == '/') ==> {
            let j = joined_path(dest, name);
            j.subrange(j.len() - name.len(), j.len() as int) == name
        },
{
    reveal_strlit("/");
    let j = joined_path(dest, name);
    if !(name.len() > 0 && name[0] == '/') {
        assert(j.subrange(0, dest.len() as int) =~= dest);
        assert(j.subrange(j.len() - name.len(), j.len() as int) =~= name);
    }
}

/// A restore step moves the old container's checkpoint directory into the
/// directory named by the full id of the new container, and starts that
/// container.
pub proof fn lemma_restore_step_literal(step: RestoreStep, cp: Checkpoint, id: Seq<char>)
    requires
        restore_step_matches(step, cp, id),
    ensures
        step.target_dir@ == "/var/lib/docker/containers/"@ + id + "/"@,
        step.target_dir@.subrange(27, 27 + id.len() as int) == id,
        step.target_dir@.len() == 27 + id.len() + 1,
        step.checkpoints_dir@ == "/var/lib/docker/containers/"@ + cp.container_id@
            + "/checkpoints"@,
        step.checkpoint_path@ == step.checkpoints_dir@ + "/"@ + cp.checkpoint_name@,
        step.container_name@ == id,
        step.checkpoint_name@ == cp.checkpoint_name@,
{
    reveal_strlit("/var/lib/docker/containers/");
    reveal_strlit("/");
    assert(step.target_dir@.subrange(27, 27 + id.len() as int) =~= id);
}

/// The checkpoints and container map that a migration builds up.
pub struct DockerBackend {
    checkpoints: Vec<Checkpoint>,
    container_names: ContainerMap,
}

impl DockerBackend {
    /// The checkpoints taken on this machine.
    pub closed spec fn checkpoint_list(&self) -> Seq<Checkpoint> {
        self.checkpoints@
    }

    /// The map from old container names to the ids of their replacements.
    pub closed spec fn names(&self) -> Map<Seq<char>, Seq<char>> {
        self.container_names@
    }

    /// No checkpoints and no container records.
    pub fn new() -> (b: Self)
        ensures
            b.checkpoint_list().len() == 0,
            b.names() == Map::<Seq<char>, Seq<char>>::empty(),
    {
        DockerBackend { checkpoints: Vec::new(), container_names: ContainerMap::new() }
    }

    /// The checkpoints taken on this machine.
    pub fn checkpoints(&self) -> (r: &Vec<Checkpoint>)
        ensures
            r@ == self.checkpoint_list(),
    {
        &self.checkpoints
    }

    /// The map from old container names to the ids of their replacements.
    pub fn container_names(&self) -> (r: &ContainerMap)
        ensures
            r@ == self.names(),
    {
        &self.container_names
    }

    /// Fresh checkpoints for the running containers `container_ids`, each
    /// named by the decimal digits of a random 64-bit number.
    pub fn checkpoint_all_containers(&self, container_ids: &Vec<String>) -> (r: Vec<Checkpoint>)
        ensures
            r@.len() == container_ids@.len(),
            forall|i: int|
                0 <= i < r@.len() ==> (#[trigger] r@[i]).container_id@ == container_ids@[i]@
                    && exists|n: u64| r@[i].checkpoint_name@ == #[trigger] checkpoint_name_of(n),
    {
        let n = container_ids.len();
        let mut nonces: Vec<u64> = Vec::new();
        let mut i: usize = 0;
        while i < n
            invariant
                n == container_ids@.len(),
                i <= n,
                nonces@.len() == i,
            decreases n - i,
        {
            nonces.push(random_u64());
            i = i + 1;
        }
        let r = checkpoints_from_nonces(container_ids, &nonces);
        assert forall|i: int| #![trigger r@[i]] 0 <= i < r@.len() implies exists|n: u64|
            r@[i].checkpoint_name@ == #[trigger] checkpoint_name_of(n) by {
            assert(r@[i].checkpoint_name@ == checkpoint_name_of(nonces@[i]));
        }
        r
    }

    /// Keeps `checkpoints` as the checkpoints of this machine.
    pub fn record_checkpoints(&mut self, checkpoints: Vec<Checkpoint>)
        ensures
            final(self).checkpoint_list() == checkpoints@,
            final(self).names() == old(self).names(),
    {
        self.checkpoints = checkpoints;
    }

    /// Records each imported container under its old name.
    pub fn import_containers(&mut self, imported: &Vec<ImportedContainer>)
        ensures
            final(self).names() == import_all(old(self).names(), imported@),
            final(self).checkpoint_list() == old(self).checkpoint_list(),
    {
        let n = imported.len();
        let mut i: usize = 0;
        while i < n
            invariant
                n == imported@.len(),
                i <= n,
                self.names() == import_all(old(self).names(), imported@.subrange(0, i as int)),
                self.checkpoint_list() == old(self).checkpoint_list(),
            decreases n - i,
        {
            let key = prefix_before_char(imported[i].container_id.as_str(), '.');
            let value = imported[i].new_container_id.clone();
            self.container_names.insert(key, value);
            assert(imported@.subrange(0, i + 1).drop_last() =~= imported@.subrange(0, i as int));
            i = i + 1;
        }
        assert(imported@.subrange(0, n as int) =~= imported@);
    }

    /// What restoring each of `checkpoints` does, in order. Every checkpoint's
    /// container must have a recorded replacement.
    pub fn restore_containers(&self, checkpoints: &Vec<Checkpoint>) -> (r: Vec<RestoreStep>)
        requires
            forall|i: int|
                0 <= i < checkpoints@.len() ==> self.names().contains_key(
                    (#[trigger] checkpoints@[i]).container_id@,
                ),
        ensures
            r@.len() == checkpoints@.len(),
            forall|i: int|
                0 <= i < r@.len() ==> restore_step_matches(
                    #[trigger] r@[i],
                    checkpoints@[i],
                    self.names()[checkpoints@[i].container_id@],
                ),
            forall|i: int|
                0 <= i < r@.len() ==> {
                    &&& (#[trigger] r@[i]).target_dir@ == "/var/lib/docker/containers/"@
                        + self.names()[checkpoints@[i].container_id@] + "/"@
                    &&& r@[i].container_name@ == self.names()[checkpoints@[i].container_id@]
                    &&& r@[i].checkpoints_dir@ == "/var/lib/docker/containers/"@
                        + checkpoints@[i].container_id@ + "/checkpoints"@
                    &&& r@[i].checkpoint_name@ == checkpoints@[i].checkpoint_name@
                },
    {
        proof {
            assert forall|step: RestoreStep, cp: Checkpoint, id: Seq<char>|
                #![trigger restore_step_matches(step, cp, id)]
                restore_step_matches(step, cp, id) implies step.target_dir@
                == "/var/lib/docker/containers/"@ + id + "/"@ && step.checkpoints_dir@
                == "/var/lib/docker/containers/"@ + cp.container_id@ + "/checkpoints"@ by {
                lemma_restore_step_literal(step, cp, id);
            }
        }
        let n = checkpoints.len();
        let mut r: Vec<RestoreStep> = Vec::new();
        let mut i: usize = 0;
        while i < n
            invariant
                n == checkpoints@.len(),
                i <= n,
                r@.len() == i,
                forall|k: int|
                    0 <= k < n ==> self.names().contains_key(
                        (#[trigger] checkpoints@[k]).container_id@,
                    ),
                forall|k: int|
                    0 <= k < i ==> restore_step_matches(
                        #[trigger] r@[k],
                        checkpoints@[k],
                        self.names()[checkpoints@[k].container_id@],
                    ),
            decreases n - i,
        {
            let cp = &checkpoints[i];
            assert(self.names().contains_key(checkpoints@[i as int].container_id@));
            let new_id = match self.container_names.get(&cp.container_id) {
                Some(v) => v,
                None => {
                    assert(false);
                    String::new()
                },
            };
            let mut dir = owned("/var/lib/docker/containers/");
            push_text(&mut dir, cp.container_id.as_str());
            push_text(&mut dir, "/checkpoints");
            let mut path = dir.clone();
            push_text(&mut path, "/");
            push_text(&mut path, cp.checkpoint_name.as_str());
            let mut target = owned("/var/lib/docker/containers/");
            push_text(&mut target, new_id.as_str());
            push_text(&mut target, "/");
            r.push(
                RestoreStep {
                    checkpoints_dir: dir,
                    checkpoint_path: path,
                    target_dir: target,
                    checkpoint_name: cp.checkpoint_name.clone(),
                    container_name: new_id,
                },
            );
            i = i + 1;
        }
        r
    }
}

/// Once containers have been imported, restoring a checkpoint of an imported
/// container moves the checkpoint into the directory of the container created
/// for it and starts that container.
pub proof fn lemma_restore_targets_imported(
    m: Map<Seq<char>, Seq<char>>,
    imported: Seq<ImportedContainer>,
    i: int,
    cp: Checkpoint,
    step: RestoreStep,
)
    requires
        0 <= i < imported.len(),
        forall|j: int|
            i < j < imported.len() ==> old_name_of(imported[j].container_id@) != old_name_of(
                imported[i].container_id@,
            ),
        cp.container_id@ == old_name_of(imported[i].container_id@),
        restore_step_matches(step, cp, import_all(m, imported)[cp.container_id@]),
    ensures
        step.container_name@ == imported[i].new_container_id@,
        step.target_dir@ == container_dir_of(imported[i].new_container_id@),
        step.checkpoints_dir@ == checkpoints_dir_of(cp.container_id@),
{
    lemma_import_records_new_container(m, imported, i);
}

} // verus!
