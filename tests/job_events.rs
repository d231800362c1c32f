use motion_split::job::{Disconnected, ExtractTask, FileTask, JobState, Update};
use tokio::sync::mpsc::{unbounded_channel, UnboundedReceiver};

fn drain(rx: &mut UnboundedReceiver<Update>) -> Vec<Update> {
    let mut out = Vec::new();
    while let Ok(u) = rx.try_recv() {
        out.push(u);
    }
    out
}

fn progress(u: &Update) -> (String, u32, u32) {
    match u {
        Update::Progress { path, done, total } => (path.clone(), *done, *total),
        Update::Error(m) => panic!("unexpected error event: {}", m),
    }
}

/// Runs a job over files with the given contents, every group's work
/// succeeding, and returns what it published.
fn run(dedup: bool, contents: &[&[u8]]) -> Vec<Update> {
    let task = FileTask::new("/in".to_string(), "/out".to_string(), dedup, false, false);
    let mut grouping = task.grouping();
    for (i, c) in contents.iter().enumerate() {
        grouping.add_file(i as u64, format!("/in/{}.jpg", i), c);
    }
    let mut job = task.start(grouping).unwrap();
    let (tx, mut rx) = unbounded_channel();
    while let Some(work) = job.current_work() {
        let work = work.unwrap();
        assert_eq!(work.copy_to, None);
        assert_eq!(work.extract, None);
        job.report(&tx, Ok(())).unwrap();
    }
    job.finish(&tx).unwrap();
    assert_eq!(job.state(), JobState::Finished);
    drain(&mut rx)
}

#[test]
fn done_values_count_up_then_final_event() {
    let events = run(false, &[b"a", b"b", b"c", b"d"]);
    assert_eq!(events.len(), 5);
    for (i, e) in events.iter().take(4).enumerate() {
        let (path, done, total) = progress(e);
        assert_eq!(path, format!("/in/{}.jpg", i));
        assert_eq!(done, i as u32);
        assert_eq!(total, 4);
    }
    assert_eq!(progress(&events[4]), ("/in".to_string(), 4, 4));
}

#[test]
fn three_identical_photos_give_one_group() {
    let events = run(true, &[b"same", b"same", b"same"]);
    assert_eq!(events.len(), 2);
    assert_eq!(progress(&events[0]), ("/in/0.jpg".to_string(), 0, 1));
    assert_eq!(progress(&events[1]), ("/in".to_string(), 1, 1));
}

#[test]
fn empty_job_publishes_only_the_final_event() {
    let events = run(true, &[]);
    assert_eq!(events.len(), 1);
    assert_eq!(progress(&events[0]), ("/in".to_string(), 0, 0));
}

#[test]
fn failed_group_is_reported_and_the_job_goes_on() {
    let task = FileTask::new("/in".to_string(), "/out".to_string(), false, false, true);
    let mut grouping = task.grouping();
    grouping.add_file(0, "/in/a.jpg".to_string(), b"a");
    grouping.add_file(1, "/in/b.jpg".to_string(), b"b");
    let mut job = task.start(grouping).unwrap();
    assert_eq!(job.total(), 2);
    let (tx, mut rx) = unbounded_channel();
    let work = job.current_work().unwrap().unwrap();
    assert_eq!(work.source, "/in/a.jpg");
    assert_eq!(work.extract, Some("/in/a.jpg".to_string()));
    job.report(&tx, Err("disk full".to_string())).unwrap();
    let work = job.current_work().unwrap().unwrap();
    assert_eq!(work.source, "/in/b.jpg");
    job.report(&tx, Ok(())).unwrap();
    assert!(job.current_work().is_none());
    job.finish(&tx).unwrap();
    let events = drain(&mut rx);
    assert_eq!(events.len(), 3);
    match &events[0] {
        Update::Error(m) => assert_eq!(m, "disk full"),
        _ => panic!("expected an error event"),
    }
    assert_eq!(progress(&events[1]), ("/in/b.jpg".to_string(), 1, 2));
    assert_eq!(progress(&events[2]), ("/in".to_string(), 2, 2));
}

#[test]
fn renaming_job_plans_a_dated_copy() {
    let task = FileTask::new("/in".to_string(), "/out".to_string(), true, true, true);
    let mut grouping = task.grouping();
    grouping.add_file(0, "/in/s/IMG-20220504_1.jpg".to_string(), b"x");
    let job = task.start(grouping).unwrap();
    let work = job.current_work().unwrap().unwrap();
    assert_eq!(work.copy_to, Some("/out/s/2022-05-04_IMG-20220504_1.jpg".to_string()));
    assert_eq!(work.extract, Some("/out/s/2022-05-04_IMG-20220504_1.jpg".to_string()));
}

#[test]
fn dropped_watcher_disconnects_the_job() {
    let task = FileTask::new("/in".to_string(), "/out".to_string(), false, false, false);
    let mut grouping = task.grouping();
    grouping.add_file(0, "/in/a.jpg".to_string(), b"a");
    grouping.add_file(1, "/in/b.jpg".to_string(), b"b");
    let mut job = task.start(grouping).unwrap();
    let (tx, rx) = unbounded_channel();
    job.report(&tx, Ok(())).unwrap();
    drop(rx);
    assert_eq!(job.report(&tx, Ok(())), Err(Disconnected));
    assert_eq!(job.state(), JobState::Disconnected);
}

#[test]
fn extract_task_announces_each_file() {
    let mut task = ExtractTask::new("/in".to_string());
    let files = vec!["/in/a".to_string(), "/in/b".to_string()];
    let (tx, mut rx) = unbounded_channel();
    task.announce(&tx, &files).unwrap();
    let events = drain(&mut rx);
    assert_eq!(events.len(), 3);
    assert_eq!(progress(&events[0]), ("/in/a".to_string(), 0, 2));
    assert_eq!(progress(&events[1]), ("/in/b".to_string(), 1, 2));
    assert_eq!(progress(&events[2]), ("/in".to_string(), 2, 2));
    drop(rx);
    assert_eq!(task.announce(&tx, &files), Err(Disconnected));
}
