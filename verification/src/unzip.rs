//! Recursive extraction: classification, tasks, and the scheduler.
//!
//! A `Task` binds one input file to an output directory, carries the optional
//! archive password, the archive type derived from the file's leading bytes,
//! and a completion state. Tasks start unrun (`Retry`), run exactly once, and
//! end `Success` or `Failed`. The `Scheduler` drives a FIFO queue of tasks and
//! keeps exact success/failure accounting.

pub mod decompress;

use vstd::prelude::*;

use crate::paths::{
    clone_bytes, ext_of, join_of, opt_bytes_view, parent_of, strip_prefix_of,
};
use crate::paths;

verus! {

/// The archive format a task's input was classified as. `File` is anything
/// the extractor must not unpack: unrecognized content and opaque containers.
#[derive(Clone, Copy, Debug, PartialEq, Eq, Structural)]
pub enum TaskType {
    Zip,
    BZip,
    Rar,
    File,
}

/// A task's completion state. `Retry` means "not yet executed": a task is
/// created in `Retry` and moves exactly once, to `Success` or `Failed`.
#[derive(Clone, Copy, Debug, PartialEq, Eq, Structural)]
pub enum CompleteState {
    Success,
    Retry,
    Failed,
}

/// True of an 8-byte head beginning `50 4B 03 04`: a ZIP container.
pub open spec fn zip_magic(h: Seq<u8>) -> bool {
    h.len() >= 8 && h[0] == 0x50 && h[1] == 0x4B && h[2] == 0x03 && h[3] == 0x04
}

/// True of an 8-byte head beginning `42 5A 68`: a bzip2 stream.
pub open spec fn bzip_magic(h: Seq<u8>) -> bool {
    h.len() >= 8 && h[0] == 0x42 && h[1] == 0x5A && h[2] == 0x68
}

/// True of an 8-byte head beginning `52 61 72 21`: a RAR archive.
pub open spec fn rar_magic(h: Seq<u8>) -> bool {
    h.len() >= 8 && h[0] == 0x52 && h[1] == 0x61 && h[2] == 0x72 && h[3] == 0x21
}

/// The opaque-container allowlist: `apk` and `jar` are valid ZIP containers
/// that must not be unpacked.
pub open spec fn opaque_ext(e: Option<Seq<u8>>) -> bool {
    e == Some(seq![97u8, 112u8, 107u8]) || e == Some(seq![106u8, 97u8, 114u8])
}

/// What a file classifies as, from its head (its first bytes, at most 8: a
/// file shorter than 8 bytes yields a head shorter than 8) and its path. A
/// short head is never an archive; a ZIP head with an `apk`/`jar` extension
/// is opaque.
pub open spec fn spec_classify(head: Seq<u8>, path: Seq<u8>) -> TaskType {
    if zip_magic(head) {
        if opaque_ext(ext_of(path)) {
            TaskType::File
        } else {
            TaskType::Zip
        }
    } else if bzip_magic(head) {
        TaskType::BZip
    } else if rar_magic(head) {
        TaskType::Rar
    } else {
        TaskType::File
    }
}

/// The first bytes of a file's content, at most 8: what `spec_classify` reads.
pub open spec fn head_of(d: Seq<u8>) -> Seq<u8> {
    if d.len() <= 8 {
        d
    } else {
        d.subrange(0, 8)
    }
}

/// Copy of the first bytes of `d`, at most 8.
pub fn head_bytes(d: &Vec<u8>) -> (r: Vec<u8>)
    ensures
        r@ == head_of(d@),
{
    if d.len() <= 8 {
        clone_bytes(d)
    } else {
        proof {
            assert(d@.subrange(0, 8) =~= head_of(d@));
        }
        paths::copy_range(d, 0, 8)
    }
}

/// Classify a file from its head bytes and its path.
pub fn classify(head: &Vec<u8>, path: &Vec<u8>) -> (t: TaskType)
    ensures
        t == spec_classify(head@, path@),
{
    if head.len() >= 8 && head[0] == 0x50 && head[1] == 0x4B && head[2] == 0x03 && head[3] == 0x04 {
        let apk: Vec<u8> = vec![97u8, 112u8, 107u8];
        let jar: Vec<u8> = vec![106u8, 97u8, 114u8];
        match paths::extension(path) {
            Some(e) => {
                if paths::bytes_eq(&e, &apk) || paths::bytes_eq(&e, &jar) {
                    TaskType::File
                } else {
                    TaskType::Zip
                }
            },
            None => TaskType::Zip,
        }
    } else if head.len() >= 8 && head[0] == 0x42 && head[1] == 0x5A && head[2] == 0x68 {
        TaskType::BZip
    } else if head.len() >= 8 && head[0] == 0x52 && head[1] == 0x61 && head[2] == 0x72 && head[3]
        == 0x21 {
        TaskType::Rar
    } else {
        TaskType::File
    }
}

/// Law: a ZIP-signature head classifies by the extension alone: opaque
/// container extensions give `File`, every other extension gives `Zip`.
pub proof fn lemma_classify_zip_signature(head: Seq<u8>, path: Seq<u8>)
    requires
        zip_magic(head),
    ensures
        opaque_ext(ext_of(path)) ==> spec_classify(head, path) == TaskType::File,
        !opaque_ext(ext_of(path)) ==> spec_classify(head, path) == TaskType::Zip,
{
}

/// Law: an opaque-container extension keeps a file out of the extractor
/// whatever its bytes, as long as the bytes do not carry the bzip2 or RAR
/// signature: those two arms never consult the extension, so a bzip2-headed
/// `.apk` still classifies as `BZip`.
pub proof fn lemma_opaque_ext_is_never_unpacked(head: Seq<u8>, path: Seq<u8>)
    requires
        opaque_ext(ext_of(path)),
        !bzip_magic(head),
        !rar_magic(head),
    ensures
        spec_classify(head, path) == TaskType::File,
{
}

/// Law: a file under 8 bytes in length classifies as `File`, whatever its
/// bytes and whatever its extension.
pub proof fn lemma_classify_short_file(data: Seq<u8>, path: Seq<u8>)
    requires
        data.len() < 8,
    ensures
        spec_classify(head_of(data), path) == TaskType::File,
{
}

/// The mathematical image of a `Task`.
pub ghost struct TaskView {
    pub input: Seq<u8>,
    pub output: Seq<u8>,
    pub password: Option<Seq<u8>>,
    pub task_type: TaskType,
    pub task_state: CompleteState,
}

impl TaskView {
    /// The same task with its state replaced.
    pub open spec fn with_state(self, s: CompleteState) -> TaskView {
        TaskView { task_state: s, ..self }
    }
}

/// One unit of work: process the file at `input` into the directory `output`.
#[derive(Debug)]
pub struct Task {
    pub input: Vec<u8>,
    pub output: Vec<u8>,
    pub password: Option<Vec<u8>>,
    pub task_type: TaskType,
    pub task_state: CompleteState,
}

impl View for Task {
    type V = TaskView;

    open spec fn view(&self) -> TaskView {
        TaskView {
            input: self.input@,
            output: self.output@,
            password: opt_bytes_view(self.password),
            task_type: self.task_type,
            task_state: self.task_state,
        }
    }
}

/// The report line for a task: ` <input> -> <output>`.
pub open spec fn display_of(t: TaskView) -> Seq<u8> {
    seq![32u8] + t.input + seq![32u8, 45u8, 62u8, 32u8] + t.output
}

impl Task {
    /// A fresh, unrun task. Its type comes from the head bytes of the input
    /// file alone (plus the opaque-extension rule on the input path).
    pub fn new(input: Vec<u8>, output: Vec<u8>, password: Option<Vec<u8>>, head: &Vec<u8>) -> (t:
        Task)
        ensures
            t.input == input,
            t.output == output,
            t.password == password,
            t.task_type == spec_classify(head@, input@),
            t.task_state is Retry,
    {
        let task_type = classify(head, &input);
        Task { input, output, password, task_type, task_state: CompleteState::Retry }
    }

    /// The task's completion state.
    pub fn state(&self) -> (s: CompleteState)
        ensures
            s == self.task_state,
    {
        self.task_state
    }

    /// Move the task to `Success`; everything else is kept.
    pub fn success(&mut self)
        ensures
            *final(self) == (Task { task_state: CompleteState::Success, ..*old(self) }),
    {
        self.task_state = CompleteState::Success;
    }

    /// Move the task to `Failed`; everything else is kept.
    pub fn failed(&mut self)
        ensures
            *final(self) == (Task { task_state: CompleteState::Failed, ..*old(self) }),
    {
        self.task_state = CompleteState::Failed;
    }

    /// Run the task, dispatching purely on its type: ZIP- and bzip2-typed
    /// tasks are extracted from the bytes of the input file, which the
    /// caller reads and hands in; RAR and opaque files take the passthrough.
    /// The batch comes back with the run task leading, terminal, and every
    /// newly discovered unrun task after it, in entry order.
    pub fn run(self, data: Option<Vec<u8>>) -> (r: decompress::Outcome)
        requires
            self.task_state is Retry,
            (self.task_type is Zip || self.task_type is BZip) ==> data is Some,
        ensures
            decompress::run_post(
                self@,
                opt_bytes_view(data),
                decompress::task_views_of(r.batch@),
                decompress::effect_views_of(r.effects@),
            ),
    {
        match self.task_type {
            TaskType::Zip | TaskType::BZip => {
                match data {
                    Some(d) => decompress::zip_decompress(self, d),
                    None => {
                        // Unreachable: archive-typed tasks always come with bytes.
                        proof {
                            assert(false);
                        }
                        decompress::Outcome { batch: Vec::new(), effects: Vec::new() }
                    },
                }
            },
            TaskType::Rar | TaskType::File => decompress::copy(self),
        }
    }

    /// The bytes of the task's report line.
    pub fn display_bytes(&self) -> (r: Vec<u8>)
        ensures
            r@ == display_of(self@),
    {
        let mut r: Vec<u8> = vec![32u8];
        paths::push_all(&mut r, &self.input);
        let arrow: Vec<u8> = vec![32u8, 45u8, 62u8, 32u8];
        paths::push_all(&mut r, &arrow);
        paths::push_all(&mut r, &self.output);
        r
    }
}

/// Decides what cleanup mode deletes once a task is finished: the task's
/// input file, only in cleanup mode and only after success. Deletion itself
/// is the caller's.
pub fn cleanup_target(mode: bool, done: &Task) -> (r: Option<Vec<u8>>)
    ensures
        r is Some <==> (mode && done.task_state is Success),
        r matches Some(p) ==> p@ == done.input@,
{
    if mode && done.task_state == CompleteState::Success {
        Some(clone_bytes(&done.input))
    } else {
        None
    }
}

/// The extraction command's configuration.
pub struct UnZipCli {
    /// Path of the file or directory to extract.
    pub input: Vec<u8>,
    /// Destination root; the current directory when absent.
    pub output: Option<Vec<u8>>,
    /// Password applied to every encrypted archive met, nested ones included.
    pub password: Option<Vec<u8>>,
    /// Cleanup mode: delete each successfully processed input file.
    pub mode: bool,
}

impl UnZipCli {
    /// Whether cleanup mode is enabled.
    pub fn get_mode(&self) -> (r: bool)
        ensures
            r == self.mode,
    {
        self.mode
    }
}

/// The output directory of the task seeded for `file`, found under
/// `input_root` during the initial walk: the root's relative structure is
/// mirrored under `output_root`.
pub open spec fn initial_output_of(
    file: Seq<u8>,
    input_root: Seq<u8>,
    root_is_dir: bool,
    output_root: Seq<u8>,
) -> Option<Seq<u8>> {
    match strip_prefix_of(file, input_root) {
        None => None,
        Some(rel) => Some(
            if root_is_dir {
                parent_of(join_of(output_root, rel))
            } else {
                join_of(output_root, rel)
            },
        ),
    }
}

/// Compute the output directory for one file met during the initial walk.
/// `None` when the file does not lie under the input root.
pub fn initial_output_for(
    file: &Vec<u8>,
    input_root: &Vec<u8>,
    root_is_dir: bool,
    output_root: &Vec<u8>,
) -> (r: Option<Vec<u8>>)
    ensures
        opt_bytes_view(r) == initial_output_of(file@, input_root@, root_is_dir, output_root@),
{
    match paths::strip_prefix(file, input_root) {
        None => None,
        Some(rel) => {
            let joined = paths::join(output_root, &rel);
            if root_is_dir {
                Some(paths::parent(&joined))
            } else {
                Some(joined)
            }
        },
    }
}

/// Drives a FIFO queue of tasks to quiescence and keeps the counts.
///
/// Well-formedness ties the counters to the queue: every task ever handed to
/// the scheduler is counted exactly once, as succeeded, as failed, as still
/// queued, or as the one task popped and not yet merged back.
pub struct Scheduler {
    pub queue: std::collections::VecDeque<Task>,
    pub success: u64,
    pub failed: u64,
    /// How many popped tasks await their batch: zero or one.
    pub in_flight: Ghost<nat>,
    /// How many tasks were ever handed to the scheduler.
    pub created: Ghost<nat>,
}

impl Scheduler {
    /// The accounting invariant, and: everything queued is unrun.
    pub open spec fn wf(self) -> bool {
        &&& self.created@ == self.success as nat + self.failed as nat + self.queue@.len()
            + self.in_flight@
        &&& self.in_flight@ <= 1
        &&& forall|i: int|
            0 <= i < self.queue@.len() ==> (#[trigger] self.queue@[i]).task_state is Retry
    }

    /// An empty scheduler.
    pub fn new() -> (s: Scheduler)
        ensures
            s.wf(),
            s.queue@.len() == 0,
            s.success == 0,
            s.failed == 0,
            s.in_flight@ == 0,
            s.created@ == 0,
    {
        Scheduler {
            queue: std::collections::VecDeque::new(),
            success: 0,
            failed: 0,
            in_flight: Ghost(0),
            created: Ghost(0),
        }
    }

    /// Seed one unrun task at the back of the queue.
    pub fn push_initial(&mut self, t: Task)
        requires
            old(self).wf(),
            t.task_state is Retry,
        ensures
            final(self).wf(),
            final(self).queue@ == old(self).queue@.push(t),
            final(self).success == old(self).success,
            final(self).failed == old(self).failed,
            final(self).in_flight@ == old(self).in_flight@,
            final(self).created@ == old(self).created@ + 1,
    {
        self.queue.push_back(t);
        self.created = Ghost(self.created@ + 1);
    }

    /// Pop the front task for running. `None` exactly when the queue is empty.
    pub fn pop(&mut self) -> (r: Option<Task>)
        requires
            old(self).wf(),
            old(self).in_flight@ == 0,
        ensures
            final(self).wf(),
            final(self).success == old(self).success,
            final(self).failed == old(self).failed,
            final(self).created@ == old(self).created@,
            match r {
                Some(t) => {
                    &&& old(self).queue@.len() > 0
                    &&& t == old(self).queue@[0]
                    &&& t.task_state is Retry
                    &&& final(self).queue@ == old(self).queue@.subrange(
                        1,
                        old(self).queue@.len() as int,
                    )
                    &&& final(self).in_flight@ == 1
                },
                None => {
                    &&& old(self).queue@.len() == 0
                    &&& final(self).queue@ == old(self).queue@
                    &&& final(self).in_flight@ == old(self).in_flight@
                },
            },
    {
        let r = self.queue.pop_front();
        match r {
            Some(t) => {
                self.in_flight = Ghost(1);
                proof {
                    assert forall|i: int|
                        0 <= i < self.queue@.len() implies (#[trigger] self.queue@[i]).task_state
                            is Retry by {
                        assert(self.queue@[i] == old(self).queue@[i + 1]);
                    }
                }
                Some(t)
            },
            None => None,
        }
    }

    /// Merge the batch a run produced: the first task is the popped one, now
    /// terminal, and is tallied; every later task is new, unrun, and queued.
    /// Returns the terminal task for reporting.
    pub fn merge(&mut self, batch: Vec<Task>) -> (done: Task)
        requires
            old(self).wf(),
            old(self).in_flight@ == 1,
            batch@.len() >= 1,
            batch@[0].task_state is Success || batch@[0].task_state is Failed,
            forall|i: int| 1 <= i < batch@.len() ==> (#[trigger] batch@[i]).task_state is Retry,
            old(self).success + old(self).failed + batch@.len() < u64::MAX,
        ensures
            final(self).wf(),
            done == batch@[0],
            final(self).success == old(self).success + (if batch@[0].task_state is Success {
                1int
            } else {
                0int
            }),
            final(self).failed == old(self).failed + (if batch@[0].task_state is Failed {
                1int
            } else {
                0int
            }),
            final(self).queue@ == old(self).queue@ + batch@.subrange(1, batch@.len() as int),
            final(self).in_flight@ == 0,
            final(self).created@ == old(self).created@ + batch@.len() - 1,
    {
        let mut rest = batch;
        let done = rest.remove(0);
        match done.state() {
            CompleteState::Success => {
                self.success = self.success + 1;
            },
            CompleteState::Failed => {
                self.failed = self.failed + 1;
            },
            CompleteState::Retry => {
                proof {
                    assert(false);
                }
            },
        }
        self.in_flight = Ghost(0);
        self.created = Ghost((self.created@ + batch@.len() - 1) as nat);
        let ghost rest0 = rest@;
        proof {
            assert(rest0 =~= batch@.subrange(1, batch@.len() as int));
            assert(batch@.subrange(1, batch@.len() as int).len() == batch@.len() - 1);
            assert(self.queue@ =~= old(self).queue@ + rest0.subrange(0, 0));
            assert(rest@ =~= rest0.subrange(0, rest0.len() as int));
        }
        while rest.len() > 0
            invariant
                batch@.len() >= 1,
                rest0 == batch@.subrange(1, batch@.len() as int),
                rest@.len() <= rest0.len(),
                rest@ == rest0.subrange(
                    rest0.len() - rest@.len(),
                    rest0.len() as int,
                ),
                self.queue@ == old(self).queue@ + rest0.subrange(
                    0,
                    rest0.len() - rest@.len(),
                ),
                self.success == old(self).success + (if batch@[0].task_state is Success {
                    1int
                } else {
                    0int
                }),
                self.failed == old(self).failed + (if batch@[0].task_state is Failed {
                    1int
                } else {
                    0int
                }),
                self.in_flight@ == 0,
                self.created@ == old(self).created@ + batch@.len() - 1,
                forall|i: int| 1 <= i < batch@.len() ==> (#[trigger] batch@[i]).task_state is Retry,
                forall|i: int|
                    0 <= i < self.queue@.len() ==> (#[trigger] self.queue@[i]).task_state is Retry,
            decreases rest.len(),
        {
            let ghost k = rest0.len() - rest@.len();
            proof {
                assert(rest@ == rest0.subrange(k, rest0.len() as int));
                assert(rest@[0] == rest0.subrange(k, rest0.len() as int)[0]);
                assert(rest@[0] == rest0[k]);
            }
            let t = rest.remove(0);
            proof {
                assert(t == rest0[k]);
                assert(rest0[k] == batch@.subrange(1, batch@.len() as int)[k]);
                assert(batch@.subrange(1, batch@.len() as int).len() == batch@.len() - 1);
                assert(batch@.subrange(1, batch@.len() as int)[k] == batch@[k + 1]);
                assert(t == batch@[k + 1]);
                assert(t.task_state is Retry);
            }
            self.queue.push_back(t);
            proof {
                assert(rest@ =~= rest0.subrange(rest0.len() - rest@.len(), rest0.len() as int));
                assert(self.queue@ =~= old(self).queue@ + rest0.subrange(
                    0,
                    rest0.len() - rest@.len(),
                ));
            }
        }
        proof {
            assert(self.queue@ =~= old(self).queue@ + batch@.subrange(1, batch@.len() as int));
        }
        done
    }

    /// Whether the queue still holds work.
    pub fn is_empty(&self) -> (r: bool)
        ensures
            r <==> self.queue@.len() == 0,
    {
        self.queue.len() == 0
    }

    /// The success and failure counts, in that order.
    pub fn counts(&self) -> (r: (u64, u64))
        ensures
            r.0 == self.success,
            r.1 == self.failed,
    {
        (self.success, self.failed)
    }
}

/// Law: when the queue has emptied and no popped task is outstanding, the
/// success and failure counters sum to the number of tasks ever handed to
/// the scheduler: no task is lost, none is counted twice.
pub proof fn lemma_counts_account_for_all_tasks(s: Scheduler)
    requires
        s.wf(),
        s.queue@.len() == 0,
        s.in_flight@ == 0,
    ensures
        s.success as nat + s.failed as nat == s.created@,
{
}

} // verus!
