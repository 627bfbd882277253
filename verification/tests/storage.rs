use crony::at::At;
use crony::error::Error;
use crony::history::{HistoryEntry, TaskResult};
use crony::moment::Moment;
use crony::save::{append_to_history, read_history_file, read_tasks, Stored};
use crony::service::RequestContent;
use crony::task::Task;
use crony::upcoming::nearest_values;

fn task(id: u64, name: &str) -> Task {
    Task {
        id,
        name: name.to_string(),
        at: At::parse("s=*").unwrap(),
        shell: Some("/bin/bash -c".to_string()),
        cmd: "true".to_string(),
    }
}

fn entry(task_id: u64) -> HistoryEntry {
    HistoryEntry {
        task_id,
        task_name: "t".to_string(),
        started_at: Moment::new(2024, 1, 1, 0, 0, 0, 0).unwrap(),
        ended_at: Moment::new(2024, 1, 1, 0, 0, 5, 0).unwrap(),
        result: TaskResult::Success,
    }
}

#[test]
fn tasks_file() {
    assert_eq!(read_tasks(Stored::Absent).map(|t| t.len()), Ok(0));
    assert_eq!(read_tasks(Stored::Unreadable).map(|t| t.len()), Err(Error::Corrupt));
    let read = read_tasks(Stored::Read(vec![task(1, "b"), task(2, "a"), task(3, "b")])).unwrap();
    let seen: Vec<(u64, &str)> = read.values().iter().map(|t| (t.id, t.name.as_str())).collect();
    assert_eq!(seen, vec![(2, "a"), (3, "b")]);
    assert_eq!(read_tasks(Stored::Read(vec![])).map(|t| t.len()), Ok(0));
}

#[test]
fn history_file() {
    assert!(matches!(read_history_file(Stored::Absent), Ok(None)));
    assert!(matches!(read_history_file(Stored::Unreadable), Err(Error::Corrupt)));
    let read = read_history_file(Stored::Read(vec![entry(1), entry(2)])).unwrap().unwrap();
    assert_eq!(read.entries().len(), 2);
    assert_eq!(read.entries()[1].task_id, 2);
    let first = append_to_history(Stored::Absent, entry(7)).unwrap();
    assert_eq!(first.entries().len(), 1);
    assert_eq!(first.entries()[0].task_id, 7);
    let more = append_to_history(Stored::Read(vec![entry(1), entry(2)]), entry(7)).unwrap();
    let ids: Vec<u64> = more.entries().iter().map(|e| e.task_id).collect();
    assert_eq!(ids, vec![1, 2, 7]);
    assert!(matches!(append_to_history(Stored::Unreadable, entry(7)), Err(Error::Corrupt)));
}

#[test]
fn request_tags() {
    let all = [
        (RequestContent::Hello, "Hello"),
        (RequestContent::Stop, "Stop"),
        (RequestContent::ReloadTasks, "ReloadTasks"),
        (RequestContent::RunningTasks, "RunningTasks"),
        (RequestContent::Scheduled, "Scheduled"),
    ];
    for (request, tag) in all {
        assert_eq!(request.tag(), tag);
        assert_eq!(RequestContent::from_tag(tag), Some(request));
    }
    assert_eq!(RequestContent::from_tag("hello"), None);
    assert_eq!(RequestContent::from_tag(""), None);
    assert_eq!(RequestContent::from_tag("Stop "), None);
}

#[test]
fn candidates_nearest_first() {
    assert_eq!(nearest_values(&[10, 50, 45], 45, 60), vec![(0, 45, false), (5, 50, false), (25, 10, true)]);
    assert_eq!(nearest_values(&[12, 1, 6, 7], 6, 12), vec![(0, 6, false), (1, 7, false), (6, 12, false), (7, 1, true)]);
    assert_eq!(nearest_values(&[3, 3], 3, 12), vec![(0, 3, false), (0, 3, false)]);
    assert_eq!(nearest_values(&[], 3, 12), vec![]);
}
