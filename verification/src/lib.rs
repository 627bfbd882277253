//! The scheduling engine of a time-based job runner: the recurrence of a task and the search
//! for its upcoming moment, the scheduler's queue, the state that the background service
//! shares with its clients, and the rules around them. Clocks, files, sockets and processes
//! stay with the caller, who hands in plain values and acts on what comes back.

/// Recurrences: their selectors, their patterns and their canonical text.
pub mod at;
/// Durations in words.
pub mod datetime;
/// What the operations fail with.
pub mod error;
/// The results of runs and the history that keeps them.
pub mod history;
/// Requests and responses on the wire, and the steps of a client's handler.
pub mod ipc;
/// Wall-clock moments, their order on the time line and the calendar behind it.
pub mod moment;
/// Where the files are kept.
pub mod paths;
/// Registration and removal of tasks.
pub mod registry;
/// The law that reading a written pattern gives the recurrence back.
pub mod roundtrip;
/// What the run of one task is made of: command line, log lines, history entry.
pub mod runner;
/// What is kept in the tasks file and the history file.
pub mod save;
/// The scheduler's plan: which task waits for which moment, and which runs.
pub mod scheduler;
/// The state of the service, the requests of its clients and the steps of its life.
pub mod service;
/// Tasks and the task set.
pub mod task;
/// Texts: digits, numbers, splitting and joining.
pub mod text;
/// The search for the upcoming moment of a recurrence.
pub mod upcoming;
