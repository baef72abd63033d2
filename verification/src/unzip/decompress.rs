//! Extraction of one archive, and the passthrough copy.
//!
//! An archive is opened from its bytes in memory; the zip crate lists and
//! decompresses the entries behind trusted wrappers. Everything downstream of
//! those calls is verified: which entries are written where, which failures
//! abort the archive, and which extracted files become follow-up tasks. The
//! filesystem work itself is returned as a plan of `Effect`s for the caller
//! to perform, in order.

use vstd::prelude::*;

use crate::paths;
use crate::paths::{file_name_of, join_of, opt_bytes_view, parent_of};
use crate::unzip::{head_of, spec_classify, CompleteState, Task, TaskType, TaskView};

verus! {

#[verifier::external_type_specification]
#[verifier::external_body]
#[verifier::reject_recursive_types(R)]
pub struct ExZipArchive<R>(zip::ZipArchive<R>);

#[verifier::external_type_specification]
#[verifier::external_body]
#[verifier::reject_recursive_types(T)]
pub struct ExCursor<T>(std::io::Cursor<T>);

/// An archive read from a buffer of bytes held in memory.
pub type MemArchive = zip::ZipArchive<std::io::Cursor<Vec<u8>>>;

/// Whether a byte string parses as a ZIP archive: what `zip::ZipArchive::new`
/// accepts, a fixed function of the bytes alone.
pub uninterp spec fn zip_opens(bytes: Seq<u8>) -> bool;

/// What an archive holds: per entry, its sanitized relative path (`None` when
/// the stored name would escape the output root or is not valid UTF-8) and
/// its directory flag, in the archive's own entry order.
pub uninterp spec fn zip_names(a: MemArchive) -> Seq<(Option<Seq<u8>>, bool)>;

/// The outcome of reading entry `i` without a password: the decompressed
/// bytes, or a failure (an encrypted or corrupt entry).
pub uninterp spec fn zip_read_plain(a: MemArchive, i: int) -> Result<Seq<u8>, ()>;

/// The outcome of reading entry `i` decrypting with password `pw`.
pub uninterp spec fn zip_read_decrypt(a: MemArchive, i: int, pw: Seq<u8>) -> Result<Seq<u8>, ()>;

/// Reading entries moves the archive's internal reader but never changes
/// what the archive holds.
pub open spec fn archive_unchanged(a1: MemArchive, a2: MemArchive) -> bool {
    &&& zip_names(a2) == zip_names(a1)
    &&& forall|j: int| #[trigger] zip_read_plain(a2, j) == zip_read_plain(a1, j)
    &&& forall|j: int, pw: Seq<u8>|
        #[trigger] zip_read_decrypt(a2, j, pw) == zip_read_decrypt(a1, j, pw)
}

pub proof fn lemma_archive_unchanged_trans(a: MemArchive, b: MemArchive, c: MemArchive)
    requires
        archive_unchanged(a, b),
        archive_unchanged(b, c),
    ensures
        archive_unchanged(a, c),
{
    assert forall|j: int| #[trigger] zip_read_plain(c, j) == zip_read_plain(a, j) by {
        assert(zip_read_plain(b, j) == zip_read_plain(a, j));
    }
    assert forall|j: int, pw: Seq<u8>|
        #[trigger] zip_read_decrypt(c, j, pw) == zip_read_decrypt(a, j, pw) by {
        assert(zip_read_decrypt(b, j, pw) == zip_read_decrypt(a, j, pw));
    }
}

/// Relies on `zip::ZipArchive::new` over an in-memory cursor: it accepts or
/// rejects the bytes as a ZIP archive, deciding by the bytes alone.
#[verifier::external_body]
fn open_archive(bytes: Vec<u8>) -> (r: Result<MemArchive, ()>)
    ensures
        r is Ok <==> zip_opens(bytes@),
{
    match zip::ZipArchive::new(std::io::Cursor::new(bytes)) {
        Ok(a) => Ok(a),
        Err(_) => Err(()),
    }
}

/// Relies on `zip::ZipArchive::len`: the number of entries the archive holds.
#[verifier::external_body]
fn archive_len(a: &MemArchive) -> (n: usize)
    ensures
        n == zip_names(*a).len(),
{
    a.len()
}

/// One entry as handed out by the archive: its sanitized name (when it has
/// one), its directory flag, and its decompressed bytes.
pub struct RawEntry {
    pub name: Option<Vec<u8>>,
    pub is_dir: bool,
    pub data: Vec<u8>,
}

/// Relies on `zip::ZipArchive::by_index`, and on the entry's
/// `ZipFile::enclosed_name`, `ZipFile::is_dir` and `std::io::Read::read_to_end`:
/// the entry's sanitized path, directory flag and decompressed bytes are fixed
/// functions of the archive value and the index; reading only advances the
/// archive's reader.
#[verifier::external_body]
fn read_entry_plain(a: &mut MemArchive, i: usize) -> (r: Result<RawEntry, ()>)
    requires
        i < zip_names(*old(a)).len(),
    ensures
        archive_unchanged(*old(a), *final(a)),
        match r {
            Ok(e) => {
                &&& zip_read_plain(*old(a), i as int) == Ok::<Seq<u8>, ()>(e.data@)
                &&& opt_bytes_view(e.name) == zip_names(*old(a))[i as int].0
                &&& e.is_dir == zip_names(*old(a))[i as int].1
            },
            Err(_) => zip_read_plain(*old(a), i as int) is Err,
        },
{
    match a.by_index(i) {
        Ok(mut f) => {
            let name = match f.enclosed_name() {
                Some(p) => p.to_str().map(|s| s.as_bytes().to_vec()),
                None => None,
            };
            let is_dir = f.is_dir();
            let mut data = Vec::new();
            match std::io::Read::read_to_end(&mut f, &mut data) {
                Ok(_) => Ok(RawEntry { name, is_dir, data }),
                Err(_) => Err(()),
            }
        },
        Err(_) => Err(()),
    }
}

/// Relies on `zip::ZipArchive::by_index_decrypt` the same way: the password
/// is applied to the entry, and the outcome is a fixed function of the
/// archive value, the index and the password.
#[verifier::external_body]
fn read_entry_decrypt(a: &mut MemArchive, i: usize, pw: &Vec<u8>) -> (r: Result<RawEntry, ()>)
    requires
        i < zip_names(*old(a)).len(),
    ensures
        archive_unchanged(*old(a), *final(a)),
        match r {
            Ok(e) => {
                &&& zip_read_decrypt(*old(a), i as int, pw@) == Ok::<Seq<u8>, ()>(e.data@)
                &&& opt_bytes_view(e.name) == zip_names(*old(a))[i as int].0
                &&& e.is_dir == zip_names(*old(a))[i as int].1
            },
            Err(_) => zip_read_decrypt(*old(a), i as int, pw@) is Err,
        },
{
    match a.by_index_decrypt(i, pw.as_slice()) {
        Ok(mut f) => {
            let name = match f.enclosed_name() {
                Some(p) => p.to_str().map(|s| s.as_bytes().to_vec()),
                None => None,
            };
            let is_dir = f.is_dir();
            let mut data = Vec::new();
            match std::io::Read::read_to_end(&mut f, &mut data) {
                Ok(_) => Ok(RawEntry { name, is_dir, data }),
                Err(_) => Err(()),
            }
        },
        Err(_) => Err(()),
    }
}

/// One step of filesystem work the caller is to perform, in plan order.
#[derive(Debug, PartialEq, Eq)]
pub enum Effect {
    /// Create a directory and its parents; an error here is tolerated.
    MkDir(Vec<u8>),
    /// Write a file with the given bytes, creating it.
    Write(Vec<u8>, Vec<u8>),
    /// Copy the file at the first path to the second.
    Copy(Vec<u8>, Vec<u8>),
}

/// The mathematical image of an `Effect`.
pub ghost enum EffectView {
    MkDir(Seq<u8>),
    Write(Seq<u8>, Seq<u8>),
    Copy(Seq<u8>, Seq<u8>),
}

impl View for Effect {
    type V = EffectView;

    open spec fn view(&self) -> EffectView {
        match self {
            Effect::MkDir(p) => EffectView::MkDir(p@),
            Effect::Write(p, d) => EffectView::Write(p@, d@),
            Effect::Copy(s, d) => EffectView::Copy(s@, d@),
        }
    }
}

/// The views of a batch of tasks.
pub open spec fn task_views_of(v: Seq<Task>) -> Seq<TaskView> {
    v.map_values(|t: Task| t@)
}

/// The views of a plan of effects.
pub open spec fn effect_views_of(v: Seq<Effect>) -> Seq<EffectView> {
    v.map_values(|e: Effect| e@)
}

/// What running one task produces: the ordered batch of tasks (the run task
/// first, now terminal, then every newly discovered unrun task), and the
/// ordered plan of filesystem effects.
pub struct Outcome {
    pub batch: Vec<Task>,
    pub effects: Vec<Effect>,
}

/// The outcome of reading entry `i` with an optional password.
pub open spec fn entry_read(a: MemArchive, pw: Option<Seq<u8>>, i: int) -> Result<Seq<u8>, ()> {
    match pw {
        None => zip_read_plain(a, i),
        Some(p) => zip_read_decrypt(a, i, p),
    }
}

/// An entry is bad when reading or decrypting it fails, or when it has no
/// safe name to write under.
pub open spec fn entry_bad(a: MemArchive, pw: Option<Seq<u8>>, i: int) -> bool {
    entry_read(a, pw, i) is Err || zip_names(a)[i].0 is None
}

/// Where entry `i` of the archive lands under the output directory `out`.
pub open spec fn entry_path(a: MemArchive, out: Seq<u8>, i: int) -> Seq<u8> {
    join_of(out, zip_names(a)[i].0.unwrap())
}

/// The decompressed bytes of a good entry.
pub open spec fn entry_data(a: MemArchive, pw: Option<Seq<u8>>, i: int) -> Seq<u8> {
    entry_read(a, pw, i).unwrap()
}

/// The filesystem effects of one good entry: a directory entry creates its
/// directory; a file entry creates its parent directory and is written.
pub open spec fn entry_effects_at(a: MemArchive, pw: Option<Seq<u8>>, out: Seq<u8>, i: int) -> Seq<
    EffectView,
> {
    let p = entry_path(a, out, i);
    if zip_names(a)[i].1 {
        seq![EffectView::MkDir(p)]
    } else {
        seq![EffectView::MkDir(parent_of(p)), EffectView::Write(p, entry_data(a, pw, i))]
    }
}

/// The follow-up tasks of one good entry: a written file that classifies as
/// an archive becomes a new unrun task, with the same password, rooted at
/// its own parent directory; anything opaque is final.
pub open spec fn entry_follows_at(a: MemArchive, pw: Option<Seq<u8>>, out: Seq<u8>, i: int) -> Seq<
    TaskView,
> {
    if zip_names(a)[i].1 {
        Seq::<TaskView>::empty()
    } else {
        let p = entry_path(a, out, i);
        let t = spec_classify(head_of(entry_data(a, pw, i)), p);
        if t is File {
            Seq::<TaskView>::empty()
        } else {
            seq![TaskView {
                input: p,
                output: parent_of(p),
                password: pw,
                task_type: t,
                task_state: CompleteState::Retry,
            }]
        }
    }
}

/// The effects of the first `n` entries, in entry order.
pub open spec fn effects_upto(a: MemArchive, pw: Option<Seq<u8>>, out: Seq<u8>, n: int) -> Seq<
    EffectView,
>
    decreases n,
{
    if n <= 0 {
        Seq::<EffectView>::empty()
    } else {
        effects_upto(a, pw, out, n - 1) + entry_effects_at(a, pw, out, n - 1)
    }
}

/// The follow-up tasks of the first `n` entries, in entry order.
pub open spec fn follows_upto(a: MemArchive, pw: Option<Seq<u8>>, out: Seq<u8>, n: int) -> Seq<
    TaskView,
>
    decreases n,
{
    if n <= 0 {
        Seq::<TaskView>::empty()
    } else {
        follows_upto(a, pw, out, n - 1) + entry_follows_at(a, pw, out, n - 1)
    }
}

/// The index of the first bad entry among the first `n`, or `n` when every
/// one of them is good.
pub open spec fn first_bad(a: MemArchive, pw: Option<Seq<u8>>, n: int) -> int
    decreases n,
{
    if n <= 0 {
        0
    } else {
        let p = first_bad(a, pw, n - 1);
        if p < n - 1 {
            p
        } else if entry_bad(a, pw, n - 1) {
            n - 1
        } else {
            n
        }
    }
}

pub proof fn lemma_first_bad_found(a: MemArchive, pw: Option<Seq<u8>>, i: int, n: int)
    requires
        0 <= i < n,
        first_bad(a, pw, i) == i,
        entry_bad(a, pw, i),
    ensures
        first_bad(a, pw, n) == i,
    decreases n,
{
    if n > i + 1 {
        lemma_first_bad_found(a, pw, i, n - 1);
    }
}

/// What extraction of an opened archive returns, exactly, in terms of the
/// archive's model: everything before the first bad entry takes effect; a
/// bad entry anywhere fails the task and stops the batch at it; a fully good
/// archive succeeds and carries every follow-up task, in entry order.
pub open spec fn extract_post(
    t: TaskView,
    a: MemArchive,
    batch: Seq<TaskView>,
    effects: Seq<EffectView>,
) -> bool {
    let n = zip_names(a).len() as int;
    let fb = first_bad(a, t.password, n);
    &&& effects == effects_upto(a, t.password, t.output, fb)
    &&& batch == if fb < n {
        seq![t.with_state(CompleteState::Failed)]
    } else {
        seq![t.with_state(CompleteState::Success)] + follows_upto(a, t.password, t.output, n)
    }
}

/// Run every entry of an opened archive, in the archive's own order. The
/// first bad entry (a failed read or decrypt, or an entry with no safe name)
/// aborts the archive: the task comes back `Failed`, the batch holds it
/// alone, and the effects planned for earlier entries stand (no rollback).
/// A fully good archive comes back `Success`, followed by its follow-ups.
pub fn extract_entries(task: Task, archive: MemArchive) -> (r: Outcome)
    requires
        task.task_state is Retry,
    ensures
        extract_post(task@, archive, task_views_of(r.batch@), effect_views_of(r.effects@)),
{
    let ghost a0 = archive;
    let ghost pw = opt_bytes_view(task.password);
    let ghost out = task.output@;
    let mut ar = archive;
    let n = archive_len(&ar);
    let mut effects: Vec<Effect> = Vec::new();
    let mut follows: Vec<Task> = Vec::new();
    let mut i: usize = 0;
    let mut bad = false;
    proof {
        assert(effect_views_of(effects@) =~= effects_upto(a0, pw, out, 0));
        assert(task_views_of(follows@) =~= follows_upto(a0, pw, out, 0));
    }
    while i < n && !bad
        invariant
            archive_unchanged(a0, ar),
            n == zip_names(a0).len(),
            pw == opt_bytes_view(task.password),
            out == task.output@,
            i <= n,
            !bad ==> first_bad(a0, pw, i as int) == i,
            bad ==> i < n && first_bad(a0, pw, i as int) == i && entry_bad(a0, pw, i as int),
            effect_views_of(effects@) == effects_upto(a0, pw, out, i as int),
            task_views_of(follows@) == follows_upto(a0, pw, out, i as int),
        decreases n - i + (if bad { 0int } else { 1int }),
    {
        let ghost ar_pre = ar;
        let entry = match &task.password {
            None => read_entry_plain(&mut ar, i),
            Some(p) => read_entry_decrypt(&mut ar, i, p),
        };
        proof {
            lemma_archive_unchanged_trans(a0, ar_pre, ar);
        }
        match entry {
            Err(_) => {
                proof {
                    assert(entry_read(a0, pw, i as int) is Err);
                }
                bad = true;
            },
            Ok(e) => {
                proof {
                    assert(entry_read(a0, pw, i as int) == Ok::<Seq<u8>, ()>(e.data@));
                    assert(opt_bytes_view(e.name) == zip_names(a0)[i as int].0);
                    assert(e.is_dir == zip_names(a0)[i as int].1);
                }
                match e.name {
                    None => {
                        bad = true;
                    },
                    Some(name) => {
                        let p = paths::join(&task.output, &name);
                        proof {
                            assert(p@ == entry_path(a0, out, i as int));
                        }
                        let ghost eff0 = effects@;
                        let ghost fol0 = follows@;
                        if e.is_dir {
                            effects.push(Effect::MkDir(p));
                            proof {
                                assert(effect_views_of(effects@) =~= effect_views_of(eff0)
                                    + entry_effects_at(a0, pw, out, i as int));
                                assert(task_views_of(follows@) =~= follows_upto(
                                    a0,
                                    pw,
                                    out,
                                    i as int,
                                ) + entry_follows_at(a0, pw, out, i as int));
                            }
                        } else {
                            let par = paths::parent(&p);
                            let h = crate::unzip::head_bytes(&e.data);
                            let cls = crate::unzip::classify(&h, &p);
                            effects.push(Effect::MkDir(paths::clone_bytes(&par)));
                            if cls != TaskType::File {
                                let follow = Task {
                                    input: paths::clone_bytes(&p),
                                    output: par,
                                    password: paths::clone_opt_bytes(&task.password),
                                    task_type: cls,
                                    task_state: CompleteState::Retry,
                                };
                                follows.push(follow);
                            }
                            effects.push(Effect::Write(p, e.data));
                            proof {
                                assert(effect_views_of(effects@) =~= effect_views_of(eff0)
                                    + entry_effects_at(a0, pw, out, i as int));
                                assert(task_views_of(follows@) =~= task_views_of(fol0)
                                    + entry_follows_at(a0, pw, out, i as int));
                            }
                        }
                        i = i + 1;
                    },
                }
            },
        }
    }
    if bad {
        proof {
            lemma_first_bad_found(a0, pw, i as int, n as int);
        }
        let mut t = task;
        t.failed();
        let mut batch: Vec<Task> = Vec::new();
        batch.push(t);
        proof {
            assert(task_views_of(batch@) =~= seq![task@.with_state(CompleteState::Failed)]);
        }
        Outcome { batch, effects }
    } else {
        let mut t = task;
        t.success();
        let mut batch: Vec<Task> = Vec::new();
        batch.push(t);
        let ghost fol = follows@;
        batch.append(&mut follows);
        proof {
            assert(task_views_of(batch@) =~= seq![task@.with_state(CompleteState::Success)]
                + task_views_of(fol));
        }
        Outcome { batch, effects }
    }
}

/// Law (round-trip completeness): the plan for the first `n` entries holds
/// every one of them, in entry order: each directory entry's directory is
/// created, and each file entry is written with exactly its decompressed
/// bytes under the output root.
pub proof fn lemma_effects_complete(
    a: MemArchive,
    pw: Option<Seq<u8>>,
    out: Seq<u8>,
    n: int,
    i: int,
)
    requires
        0 <= i < n,
    ensures
        zip_names(a)[i].1 ==> effects_upto(a, pw, out, n).contains(
            EffectView::MkDir(entry_path(a, out, i)),
        ),
        !zip_names(a)[i].1 ==> effects_upto(a, pw, out, n).contains(
            EffectView::Write(entry_path(a, out, i), entry_data(a, pw, i)),
        ),
    decreases n,
{
    let pre = effects_upto(a, pw, out, n - 1);
    let full = effects_upto(a, pw, out, n);
    if i == n - 1 {
        if zip_names(a)[i].1 {
            assert(full[pre.len() as int] == EffectView::MkDir(entry_path(a, out, i)));
        } else {
            assert(full[pre.len() as int + 1] == EffectView::Write(
                entry_path(a, out, i),
                entry_data(a, pw, i),
            ));
        }
    } else {
        lemma_effects_complete(a, pw, out, n - 1, i);
        if zip_names(a)[i].1 {
            let x = EffectView::MkDir(entry_path(a, out, i));
            let k = choose|k: int| 0 <= k < pre.len() && pre[k] == x;
            assert(full[k] == x);
        } else {
            let x = EffectView::Write(entry_path(a, out, i), entry_data(a, pw, i));
            let k = choose|k: int| 0 <= k < pre.len() && pre[k] == x;
            assert(full[k] == x);
        }
    }
}

/// Law (no task from nowhere): every follow-up task points at a file the
/// plan wrote: its input is the landing path of some file entry, its type is
/// what that entry's bytes classify as under that path, and the plan holds
/// the write of exactly those bytes.
pub proof fn lemma_followup_written(a: MemArchive, pw: Option<Seq<u8>>, out: Seq<u8>, n: int, j: int)
    requires
        0 <= j < follows_upto(a, pw, out, n).len(),
    ensures
        exists|i: int|
            {
                &&& 0 <= i < n
                &&& !zip_names(a)[i].1
                &&& follows_upto(a, pw, out, n)[j].input == entry_path(a, out, i)
                &&& follows_upto(a, pw, out, n)[j].task_type == spec_classify(
                    head_of(entry_data(a, pw, i)),
                    entry_path(a, out, i),
                )
                &&& #[trigger] effects_upto(a, pw, out, n).contains(
                    EffectView::Write(entry_path(a, out, i), entry_data(a, pw, i)),
                )
            },
    decreases n,
{
    let fl_pre = follows_upto(a, pw, out, n - 1);
    let fl = follows_upto(a, pw, out, n);
    let ef_pre = effects_upto(a, pw, out, n - 1);
    let ef = effects_upto(a, pw, out, n);
    if j < fl_pre.len() {
        lemma_followup_written(a, pw, out, n - 1, j);
        let i = choose|i: int|
            {
                &&& 0 <= i < n - 1
                &&& !zip_names(a)[i].1
                &&& follows_upto(a, pw, out, n - 1)[j].input == entry_path(a, out, i)
                &&& follows_upto(a, pw, out, n - 1)[j].task_type == spec_classify(
                    head_of(entry_data(a, pw, i)),
                    entry_path(a, out, i),
                )
                &&& #[trigger] effects_upto(a, pw, out, n - 1).contains(
                    EffectView::Write(entry_path(a, out, i), entry_data(a, pw, i)),
                )
            };
        let x = EffectView::Write(entry_path(a, out, i), entry_data(a, pw, i));
        let k = choose|k: int| 0 <= k < ef_pre.len() && ef_pre[k] == x;
        assert(ef[k] == x);
        assert(ef.contains(x));
        assert(fl[j] == fl_pre[j]);
    } else {
        let m = n - 1;
        assert(fl[j] == entry_follows_at(a, pw, out, m)[j - fl_pre.len()]);
        assert(entry_follows_at(a, pw, out, m).len() > 0);
        assert(!zip_names(a)[m].1);
        assert(fl[j].input == entry_path(a, out, m));
        assert(fl[j].task_type == spec_classify(head_of(entry_data(a, pw, m)), entry_path(a, out, m)));
        lemma_effects_complete(a, pw, out, n, m);
    }
}

/// The batch shape every run keeps: the run task first, now terminal (and
/// alone when it failed); after it only unrun tasks, each carrying the run
/// task's password, each typed as an archive (an opaque file never becomes a
/// follow-up task), each writing into the directory holding its input.
pub open spec fn batch_wf(t: TaskView, batch: Seq<TaskView>) -> bool {
    &&& batch.len() >= 1
    &&& (batch[0] == t.with_state(CompleteState::Success) || batch[0] == t.with_state(
        CompleteState::Failed,
    ))
    &&& (batch[0].task_state is Failed ==> batch.len() == 1)
    &&& forall|j: int|
        1 <= j < batch.len() ==> {
            &&& (#[trigger] batch[j]).task_state is Retry
            &&& batch[j].password == t.password
            &&& batch[j].task_type != TaskType::File
            &&& batch[j].output == parent_of(batch[j].input)
        }
}

pub proof fn lemma_follows_upto_facts(a: MemArchive, pw: Option<Seq<u8>>, out: Seq<u8>, n: int)
    ensures
        forall|j: int|
            0 <= j < follows_upto(a, pw, out, n).len() ==> {
                &&& (#[trigger] follows_upto(a, pw, out, n)[j]).task_state is Retry
                &&& follows_upto(a, pw, out, n)[j].password == pw
                &&& follows_upto(a, pw, out, n)[j].task_type != TaskType::File
                &&& follows_upto(a, pw, out, n)[j].output == parent_of(
                    follows_upto(a, pw, out, n)[j].input,
                )
            },
    decreases n,
{
    if n > 0 {
        lemma_follows_upto_facts(a, pw, out, n - 1);
        assert forall|j: int| 0 <= j < follows_upto(a, pw, out, n).len() implies {
            &&& (#[trigger] follows_upto(a, pw, out, n)[j]).task_state is Retry
            &&& follows_upto(a, pw, out, n)[j].password == pw
            &&& follows_upto(a, pw, out, n)[j].task_type != TaskType::File
            &&& follows_upto(a, pw, out, n)[j].output == parent_of(
                follows_upto(a, pw, out, n)[j].input,
            )
        } by {
            if j < follows_upto(a, pw, out, n - 1).len() {
                assert(follows_upto(a, pw, out, n)[j] == follows_upto(a, pw, out, n - 1)[j]);
            } else {
                assert(follows_upto(a, pw, out, n)[j] == entry_follows_at(a, pw, out, n - 1)[j
                    - follows_upto(a, pw, out, n - 1).len()]);
            }
        }
    }
}

/// Law: whatever the archive held, an extraction batch is well-formed: run
/// task first and terminal, failure leaves it alone, and every follow-up is
/// unrun, non-opaque, keeps the password, and outputs beside its input.
pub proof fn lemma_extract_batch_wf(
    t: TaskView,
    a: MemArchive,
    batch: Seq<TaskView>,
    effects: Seq<EffectView>,
)
    requires
        extract_post(t, a, batch, effects),
    ensures
        batch_wf(t, batch),
{
    let n = zip_names(a).len() as int;
    let fb = first_bad(a, t.password, n);
    if fb < n {
    } else {
        lemma_follows_upto_facts(a, t.password, t.output, n);
        assert forall|j: int| 1 <= j < batch.len() implies {
            &&& (#[trigger] batch[j]).task_state is Retry
            &&& batch[j].password == t.password
            &&& batch[j].task_type != TaskType::File
            &&& batch[j].output == parent_of(batch[j].input)
        } by {
            assert(batch[j] == follows_upto(a, t.password, t.output, n)[j - 1]);
        }
    }
}

/// What `zip_decompress` promises of its result. The failure to open is
/// pinned to the bytes; an opened archive's exact outcome is `extract_post`
/// for the archive the bytes denote; and the batch shape always holds.
pub open spec fn zip_post(
    t: TaskView,
    bytes: Seq<u8>,
    batch: Seq<TaskView>,
    effects: Seq<EffectView>,
) -> bool {
    &&& (!zip_opens(bytes) ==> batch == seq![t.with_state(CompleteState::Failed)] && effects
        == Seq::<EffectView>::empty())
    &&& (zip_opens(bytes) ==> exists|a: MemArchive| #[trigger] extract_post(t, a, batch, effects))
    &&& batch_wf(t, batch)
}

/// Extract the archive whose bytes are `data` for `task`. Bytes that do not
/// open as a ZIP archive fail the task by itself (a bzip2-typed task also
/// lands here: its bytes are not a ZIP container, so it fails rather than
/// aborting the run).
pub fn zip_decompress(task: Task, data: Vec<u8>) -> (r: Outcome)
    requires
        task.task_state is Retry,
    ensures
        zip_post(task@, data@, task_views_of(r.batch@), effect_views_of(r.effects@)),
{
    match open_archive(data) {
        Err(_) => {
            let mut t = task;
            t.failed();
            let mut batch: Vec<Task> = Vec::new();
            batch.push(t);
            let effects: Vec<Effect> = Vec::new();
            proof {
                assert(task_views_of(batch@) =~= seq![task@.with_state(CompleteState::Failed)]);
                assert(effect_views_of(effects@) =~= Seq::<EffectView>::empty());
            }
            Outcome { batch, effects }
        },
        Ok(archive) => {
            let ghost a0 = archive;
            let r = extract_entries(task, archive);
            proof {
                lemma_extract_batch_wf(
                    task@,
                    a0,
                    task_views_of(r.batch@),
                    effect_views_of(r.effects@),
                );
            }
            r
        },
    }
}

/// What `Task::run` promises, by the task's type: ZIP- and bzip2-typed tasks
/// go through the extractor over the bytes handed in (`zip_post`); RAR and
/// opaque files are passed through by copy and always succeed.
pub open spec fn run_post(
    t: TaskView,
    data: Option<Seq<u8>>,
    batch: Seq<TaskView>,
    effects: Seq<EffectView>,
) -> bool {
    match t.task_type {
        TaskType::Zip | TaskType::BZip => data is Some && zip_post(
            t,
            data.unwrap(),
            batch,
            effects,
        ),
        TaskType::Rar | TaskType::File => {
            &&& batch == seq![t.with_state(CompleteState::Success)]
            &&& effects == seq![EffectView::Copy(
                t.input,
                join_of(t.output, file_name_of(t.input)),
            )]
        },
    }
}

/// The passthrough: the input file is copied, byte for byte, into the output
/// directory under its own file name, and the task succeeds. The recursion
/// base case: never a follow-up task. RAR archives land here too: they are
/// classified but no decoder is wired to them, so they are relocated, never
/// unpacked.
pub fn copy(task: Task) -> (r: Outcome)
    requires
        task.task_state is Retry,
    ensures
        task_views_of(r.batch@) == seq![task@.with_state(CompleteState::Success)],
        effect_views_of(r.effects@) == seq![EffectView::Copy(
            task@.input,
            join_of(task@.output, file_name_of(task@.input)),
        )],
{
    let name = paths::file_name(&task.input);
    let dest = paths::join(&task.output, &name);
    let source = paths::clone_bytes(&task.input);
    let mut t = task;
    t.success();
    let mut batch: Vec<Task> = Vec::new();
    batch.push(t);
    let mut effects: Vec<Effect> = Vec::new();
    effects.push(Effect::Copy(source, dest));
    proof {
        assert(task_views_of(batch@) =~= seq![task@.with_state(CompleteState::Success)]);
        assert(effect_views_of(effects@) =~= seq![EffectView::Copy(
            task@.input,
            join_of(task@.output, file_name_of(task@.input)),
        )]);
    }
    Outcome { batch, effects }
}

} // verus!
