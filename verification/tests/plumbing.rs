use crony::at::At;
use crony::datetime::human_duration;
use crony::error::Error;
use crony::history::{History, HistoryEntry, TaskResult};
use crony::ipc::{frame, serve_client, ClientAction, ClientEvent, Request, Response, CLIENT_PAUSE_MS};
use crony::moment::Moment;
use crony::paths::{join_path, Paths};
use crony::runner::{command_line, ended_banner, finish, log_line, started_banner, use_log_files, DEFAULT_SHELL_CMD};
use crony::service::EngineArgs;
use crony::task::Task;
use crony::text::{chars_of, find_from, join, read_number, split};

fn moment(year: i32, month: u8, day: u8, hour: u8, minute: u8, second: u8) -> Moment {
    Moment::new(year, month, day, hour, minute, second, 0).unwrap()
}

fn entry(task_id: u64, result: TaskResult) -> HistoryEntry {
    HistoryEntry {
        task_id,
        task_name: "t".to_string(),
        started_at: moment(2024, 1, 1, 0, 0, 0),
        ended_at: moment(2024, 1, 1, 0, 0, 5),
        result,
    }
}

#[test]
fn task_result_text() {
    assert_eq!(TaskResult::Success.encode(), "OK");
    assert_eq!(TaskResult::Failed { code: None }.encode(), "FAILED:-");
    assert_eq!(TaskResult::Failed { code: Some(3) }.encode(), "FAILED:3");
    assert_eq!(TaskResult::Failed { code: Some(-7) }.encode(), "FAILED:-7");
    assert_eq!(TaskResult::Failed { code: Some(i32::MIN) }.encode(), "FAILED:-2147483648");
    assert_eq!(TaskResult::Failed { code: Some(i32::MAX) }.encode(), "FAILED:2147483647");
    assert_eq!(TaskResult::parse("OK"), Ok(TaskResult::Success));
    assert_eq!(TaskResult::parse("FAILED:-"), Ok(TaskResult::Failed { code: None }));
    assert_eq!(TaskResult::parse("FAILED:0"), Ok(TaskResult::Failed { code: Some(0) }));
    assert_eq!(TaskResult::parse("FAILED:+12"), Ok(TaskResult::Failed { code: Some(12) }));
    assert_eq!(TaskResult::parse("FAILED:-2147483648"), Ok(TaskResult::Failed { code: Some(i32::MIN) }));
    assert_eq!(TaskResult::parse("FAILED:2147483647"), Ok(TaskResult::Failed { code: Some(i32::MAX) }));
    for text in ["", "ok", "OK ", "FAILED", "FAILED:", "FAILED:x", "FAILED:--1", "FAILED:2147483648", "FAILED:-2147483649", "FAILED:1 ", "FAILED:+", "FAILED:+-1"] {
        assert_eq!(TaskResult::parse(text), Err(Error::Corrupt), "{text:?}");
    }
    for result in [TaskResult::Success, TaskResult::Failed { code: None }, TaskResult::Failed { code: Some(1) }, TaskResult::Failed { code: Some(-255) }] {
        assert_eq!(TaskResult::parse(&result.encode()), Ok(result));
    }
    assert_eq!(TaskResult::Success.describe(), "success");
    assert_eq!(TaskResult::Failed { code: None }.describe(), "failed (no exit code)");
    assert_eq!(TaskResult::Failed { code: Some(2) }.describe(), "failed with code 2");
    assert_eq!(TaskResult::Failed { code: Some(-2) }.describe(), "failed with code -2");
    assert_eq!(TaskResult::from_exit(true, Some(0)), TaskResult::Success);
    assert_eq!(TaskResult::from_exit(false, Some(9)), TaskResult::Failed { code: Some(9) });
    assert_eq!(TaskResult::from_exit(false, None), TaskResult::Failed { code: None });
}

#[test]
fn history_of_runs() {
    let mut history = History::empty();
    assert_eq!(history.entries().len(), 0);
    assert!(history.find_last_for(1).is_none());
    history.append(entry(1, TaskResult::Success));
    history.append(entry(2, TaskResult::Failed { code: Some(1) }));
    history.append(entry(1, TaskResult::Failed { code: None }));
    assert_eq!(history.entries().len(), 3);
    let of_one = history.for_task(1);
    assert_eq!(of_one.len(), 2);
    assert!(of_one[0].succeeded());
    assert!(!of_one[1].succeeded());
    assert_eq!(history.for_task(3).len(), 0);
    assert_eq!(history.find_last_for(1).map(|e| e.result), Some(TaskResult::Failed { code: None }));
    assert_eq!(history.find_last_for(2).map(|e| e.result), Some(TaskResult::Failed { code: Some(1) }));
    let ok = HistoryEntry::success(4, "n".to_string(), moment(2024, 1, 1, 0, 0, 0), moment(2024, 1, 1, 0, 0, 1));
    assert!(ok.succeeded());
    let bad = HistoryEntry::failure(4, "n".to_string(), moment(2024, 1, 1, 0, 0, 0), moment(2024, 1, 1, 0, 0, 1), Some(2));
    assert_eq!(bad.result, TaskResult::Failed { code: Some(2) });
}

#[test]
fn runner_parts() {
    let mut task = Task {
        id: 9,
        name: "job".to_string(),
        at: At::parse("s=*").unwrap(),
        shell: None,
        cmd: "echo 'a b'".to_string(),
    };
    assert_eq!(DEFAULT_SHELL_CMD, "/bin/sh -c");
    assert_eq!(command_line(&task), vec!["/bin/sh", "-c", "echo 'a b'"]);
    task.shell = Some("bash --norc -c".to_string());
    assert_eq!(command_line(&task), vec!["bash", "--norc", "-c", "echo 'a b'"]);
    task.shell = Some("zsh".to_string());
    assert_eq!(command_line(&task), vec!["zsh", "echo 'a b'"]);
    task.shell = Some("a  b".to_string());
    assert_eq!(command_line(&task), vec!["a", "", "b", "echo 'a b'"]);
    assert!(use_log_files(&EngineArgs { direct_output: false }));
    assert!(!use_log_files(&EngineArgs { direct_output: true }));
    assert_eq!(started_banner("now"), "=======> Started on now\n\n");
    assert_eq!(ended_banner("then"), "\n=======> Ended on then\n\n\n");
    assert_eq!(log_line("12:00", "hello", true), "[12:00] hello\n");
    assert_eq!(log_line("12:00", "hello", false), "[12:00] hello");
    let done = finish(&task, moment(2024, 1, 1, 0, 0, 0), moment(2024, 1, 1, 0, 0, 9), false, Some(3));
    assert_eq!(done.task_id, 9);
    assert_eq!(done.task_name, "job");
    assert_eq!(done.started_at, moment(2024, 1, 1, 0, 0, 0));
    assert_eq!(done.ended_at, moment(2024, 1, 1, 0, 0, 9));
    assert_eq!(done.result, TaskResult::Failed { code: Some(3) });
    assert!(finish(&task, moment(2024, 1, 1, 0, 0, 0), moment(2024, 1, 1, 0, 0, 9), true, Some(0)).succeeded());
}

#[test]
fn wire_protocol() {
    let request = Request::new(77, "ask");
    assert_eq!(request.id, 77);
    let response: Response<u8> = request.answer(5);
    assert_eq!(response.for_id, 77);
    assert_eq!(response.checked(77), Ok(5));
    let other: Response<u8> = request.answer(5);
    assert_eq!(other.checked(78), Err(Error::ProtocolError));
    let drawn = Request::draw("ask");
    assert_eq!(drawn.content, "ask");
    assert_eq!(drawn.answer(1u8).checked(drawn.id), Ok(1u8));
    assert_eq!(frame("{\"id\":1}"), "{\"id\":1}\n");
    assert_eq!(frame(""), "\n");
    assert_eq!(serve_client(ClientEvent::ReadFailed), ClientAction::Close);
    assert_eq!(serve_client(ClientEvent::WriteFailed), ClientAction::Close);
    assert_eq!(serve_client(ClientEvent::Nothing), ClientAction::Read { report: false, pause_ms: CLIENT_PAUSE_MS });
    assert_eq!(serve_client(ClientEvent::Undecodable), ClientAction::Read { report: true, pause_ms: 100 });
    assert_eq!(serve_client(ClientEvent::Unencodable), ClientAction::Read { report: true, pause_ms: 100 });
    assert_eq!(serve_client(ClientEvent::Request), ClientAction::Answer);
    assert_eq!(serve_client(ClientEvent::Written), ClientAction::Read { report: false, pause_ms: 0 });
}

#[test]
fn paths_below_the_data_directory() {
    let paths = Paths::new("/data/crony".to_string());
    assert_eq!(paths.data_dir, "/data/crony");
    assert_eq!(paths.daemon_dir, "/data/crony/daemon");
    assert_eq!(paths.tasks_dir, "/data/crony/tasks");
    assert_eq!(paths.tasks_file, "/data/crony/tasks.json");
    assert_eq!(paths.history_file, "/data/crony/history.json");
    assert_eq!(paths.daemon_socket_file, "/data/crony/daemon/daemon.sock");
    assert_eq!(paths.daemon_log_file, "/data/crony/daemon/daemon.log");
    assert_eq!(paths.task_log_file("backup"), "/data/crony/tasks/backup.log");
    assert_eq!(Paths::new("/data/".to_string()).tasks_file, "/data/tasks.json");
    assert_eq!(Paths::new("".to_string()).tasks_file, "tasks.json");
    assert_eq!(join_path("/a", "/b"), "/b");
    assert_eq!(join_path("a", "b"), "a/b");
    for (base, name) in [("/a", "b"), ("/a/", "b"), ("", "b"), ("/a", "/b"), ("a/b", "c.log"), ("/", "x")] {
        let expected = std::path::Path::new(base).join(name);
        assert_eq!(join_path(base, name), expected.to_str().unwrap());
    }
}

#[test]
fn durations_in_words() {
    assert_eq!(human_duration(0), "0s");
    assert_eq!(human_duration(59), "59s");
    assert_eq!(human_duration(60), "60s");
    assert_eq!(human_duration(61), "1m1s");
    assert_eq!(human_duration(3600), "60m0s");
    assert_eq!(human_duration(3601), "1h1s");
    assert_eq!(human_duration(86400), "24h0s");
    assert_eq!(human_duration(86401), "1D1s");
    assert_eq!(human_duration(93784), "1D2h3m4s");
    assert_eq!(human_duration(2 * 86400 + 3600 * 5 + 60 * 59 + 59), "2D5h59m59s");
}

#[test]
fn text_helpers() {
    assert_eq!(chars_of("añb"), vec!['a', 'ñ', 'b']);
    let chars = chars_of("ab,12,x");
    assert_eq!(find_from(&chars, 0, chars.len(), ','), 2);
    assert_eq!(find_from(&chars, 3, chars.len(), ','), 5);
    assert_eq!(find_from(&chars, 6, chars.len(), ','), 7);
    assert_eq!(find_from(&chars, 0, 2, ','), 2);
    assert_eq!(read_number(&chars, 3, 5), Some(12));
    assert_eq!(read_number(&chars, 0, 2), None);
    assert_eq!(read_number(&chars, 3, 3), None);
    let big = chars_of("0255256");
    assert_eq!(read_number(&big, 0, 4), Some(255));
    assert_eq!(read_number(&big, 4, 7), None);
    assert_eq!(split("a b  c", ' '), vec!["a", "b", "", "c"]);
    assert_eq!(split("", ' '), vec![""]);
    assert_eq!(split(" x ", ' '), vec!["", "x", ""]);
    assert_eq!(join(&vec!["a".to_string(), "b".to_string(), "c".to_string()], ", "), "a, b, c");
    assert_eq!(join(&vec![], ","), "");
    assert_eq!(join(&vec!["one".to_string()], ","), "one");
    for text in ["a b  c", "", " x ", "no-space"] {
        assert_eq!(join(&split(text, ' '), " "), text);
    }
}
