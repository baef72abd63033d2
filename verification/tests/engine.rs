use std::io::Write;

use towerzip::unzip::decompress::Effect;
use towerzip::unzip::{cleanup_target, CompleteState, Scheduler, Task, TaskType};
use zip::write::SimpleFileOptions;

/// An in-memory stand-in for the output tree: a list of (path, bytes) files.
type FakeFs = Vec<(Vec<u8>, Vec<u8>)>;

fn read_fs(fs: &FakeFs, path: &[u8]) -> Vec<u8> {
    fs.iter().find(|(p, _)| p == path).map(|(_, d)| d.clone()).unwrap()
}

fn write_fs(fs: &mut FakeFs, path: Vec<u8>, data: Vec<u8>) {
    fs.retain(|(p, _)| p != &path);
    fs.push((path, data));
}

fn remove_fs(fs: &mut FakeFs, path: &[u8]) {
    fs.retain(|(p, _)| p != path);
}

fn exists_fs(fs: &FakeFs, path: &[u8]) -> bool {
    fs.iter().any(|(p, _)| p == path)
}

fn apply_effects(fs: &mut FakeFs, effects: Vec<Effect>) {
    for e in effects {
        match e {
            Effect::MkDir(_) => {},
            Effect::Write(p, d) => write_fs(fs, p, d),
            Effect::Copy(src, dst) => {
                let d = read_fs(fs, &src);
                write_fs(fs, dst, d);
            },
        }
    }
}

/// Drive the scheduler to quiescence over the fake tree, the way the
/// command-line front end drives it over the real one.
fn run_engine(seed: Vec<Task>, fs: &mut FakeFs, cleanup: bool) -> (u64, u64, Vec<Vec<u8>>) {
    let mut sched = Scheduler::new();
    for t in seed {
        sched.push_initial(t);
    }
    let mut reports = Vec::new();
    while let Some(task) = sched.pop() {
        let data = match task.task_type {
            TaskType::Zip | TaskType::BZip => Some(read_fs(fs, &task.input)),
            _ => None,
        };
        let r = task.run(data);
        apply_effects(fs, r.effects);
        let done = sched.merge(r.batch);
        let prefix: &[u8] = match done.state() {
            CompleteState::Success => b"Success:",
            CompleteState::Failed => b"Failed:",
            CompleteState::Retry => b"Retry:",
        };
        let mut line = prefix.to_vec();
        line.extend(done.display_bytes());
        reports.push(line);
        if let Some(p) = cleanup_target(cleanup, &done) {
            remove_fs(fs, &p);
        }
    }
    let (s, f) = sched.counts();
    (s, f, reports)
}

fn build_zip(entries: &[(&str, &[u8])]) -> Vec<u8> {
    let mut w = zip::ZipWriter::new(std::io::Cursor::new(Vec::new()));
    for (name, data) in entries {
        w.start_file(*name, SimpleFileOptions::default()).unwrap();
        w.write_all(data).unwrap();
    }
    w.finish().unwrap().into_inner()
}

fn seed_task(fs: &FakeFs, input: &[u8], output: &[u8]) -> Task {
    let bytes = read_fs(fs, input);
    let head: Vec<u8> = bytes.iter().copied().take(8).collect();
    Task::new(input.to_vec(), output.to_vec(), None, &head)
}

#[test]
fn nested_archives_unpack_to_the_bottom() {
    // A contains sub/B.zip; B contains the opaque f.txt. Extraction reports
    // A and then B, in order, and f.txt lands at B's relative location under
    // A's extraction tree. The opaque file spawns no task of its own, so no
    // third report exists.
    let inner = build_zip(&[("f.txt", b"innermost")]);
    let outer = build_zip(&[("sub/B.zip", &inner)]);
    let mut fs: FakeFs = Vec::new();
    write_fs(&mut fs, b"in/A.zip".to_vec(), outer);
    let seed = vec![seed_task(&fs, b"in/A.zip", b"out")];
    let (s, f, reports) = run_engine(seed, &mut fs, false);
    assert_eq!((s, f), (2, 0));
    assert_eq!(reports[0], b"Success: in/A.zip -> out".to_vec());
    assert_eq!(reports[1], b"Success: out/sub/B.zip -> out/sub".to_vec());
    assert_eq!(read_fs(&fs, b"out/sub/f.txt"), b"innermost".to_vec());
}

#[test]
fn counts_sum_to_tasks_created() {
    // Two seeds, one of which nests one archive and one of which is broken:
    // every task ever created is counted exactly once.
    let inner = build_zip(&[("x.txt", b"x")]);
    let good = build_zip(&[("inner.zip", &inner)]);
    let mut fs: FakeFs = Vec::new();
    write_fs(&mut fs, b"in/good.zip".to_vec(), good);
    write_fs(&mut fs, b"in/bad.zip".to_vec(), b"PK\x03\x04 but not really a zip".to_vec());
    let seed = vec![seed_task(&fs, b"in/good.zip", b"out"), seed_task(&fs, b"in/bad.zip", b"out")];
    let (s, f, reports) = run_engine(seed, &mut fs, false);
    assert_eq!((s, f), (2, 1));
    assert_eq!(reports.len(), 3);
}

#[test]
fn cleanup_mode_deletes_successful_inputs() {
    let inner = build_zip(&[("f.txt", b"leaf")]);
    let outer = build_zip(&[("B.zip", &inner)]);
    let mut fs: FakeFs = Vec::new();
    write_fs(&mut fs, b"in/A.zip".to_vec(), outer);
    let seed = vec![seed_task(&fs, b"in/A.zip", b"out")];
    let (s, _, _) = run_engine(seed, &mut fs, true);
    assert_eq!(s, 2);
    assert!(!exists_fs(&fs, b"in/A.zip"));
    assert!(!exists_fs(&fs, b"out/B.zip"));
    assert!(exists_fs(&fs, b"out/f.txt"));
}

#[test]
fn without_cleanup_inputs_survive() {
    let archive = build_zip(&[("f.txt", b"leaf")]);
    let mut fs: FakeFs = Vec::new();
    write_fs(&mut fs, b"in/A.zip".to_vec(), archive);
    let seed = vec![seed_task(&fs, b"in/A.zip", b"out")];
    let (s, _, _) = run_engine(seed, &mut fs, false);
    assert_eq!(s, 1);
    assert!(exists_fs(&fs, b"in/A.zip"));
}

#[test]
fn cleanup_decision_requires_mode_and_success() {
    let mut t = Task {
        input: b"in/a.txt".to_vec(),
        output: b"out".to_vec(),
        password: None,
        task_type: TaskType::File,
        task_state: CompleteState::Retry,
    };
    t.success();
    assert_eq!(cleanup_target(true, &t), Some(b"in/a.txt".to_vec()));
    assert_eq!(cleanup_target(false, &t), None);
    t.failed();
    assert_eq!(cleanup_target(true, &t), None);
}

#[test]
fn scheduler_is_first_in_first_out() {
    let mut sched = Scheduler::new();
    assert!(sched.pop().is_none());
    let mk = |name: &[u8]| Task {
        input: name.to_vec(),
        output: b"out".to_vec(),
        password: None,
        task_type: TaskType::File,
        task_state: CompleteState::Retry,
    };
    sched.push_initial(mk(b"one"));
    sched.push_initial(mk(b"two"));
    let first = sched.pop().unwrap();
    assert_eq!(first.input, b"one".to_vec());
    let mut done = first;
    done.failed();
    let reported = sched.merge(vec![done]);
    assert_eq!(reported.state(), CompleteState::Failed);
    let second = sched.pop().unwrap();
    assert_eq!(second.input, b"two".to_vec());
    let mut done2 = second;
    done2.success();
    sched.merge(vec![done2]);
    assert!(sched.is_empty());
    assert_eq!(sched.counts(), (1, 1));
}
