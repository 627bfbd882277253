use vstd::prelude::*;
use crate::error::Error;
use crate::history::{History, HistoryEntry};
use crate::task::{names_ascend, Task, TaskView, Tasks};

verus! {

/// What was found where a file is kept.
pub enum Stored<T> {
    /// No file is there.
    Absent,
    /// The file is there, and what it holds cannot be read as what it should hold.
    Unreadable,
    /// What the file holds.
    Read(T),
}

/// Whether `task` is the last task of `list` that has its name.
pub open spec fn last_of_its_name(list: Seq<Task>, until: int, task: TaskView) -> bool {
    exists|i: int|
        0 <= i < until && (#[trigger] list[i])@ == task && forall|j: int|
            i < j < until ==> (#[trigger] list[j])@.name != task.name
}

/// The task set that is kept in the tasks file: the empty set where there is no file, the
/// tasks that were read otherwise, the last one of each name. A file that cannot be read as
/// tasks is `Corrupt`.
#[verifier::spinoff_prover]
pub fn read_tasks(stored: Stored<Vec<Task>>) -> (r: Result<Tasks, Error>)
    ensures
        match stored {
            Stored::Absent => r matches Ok(tasks) && tasks@.len() == 0,
            Stored::Unreadable => r matches Err(e) && e == Error::Corrupt,
            Stored::Read(list) => r matches Ok(tasks) && names_ascend(tasks@) && forall|
                t: TaskView,
            |
                #![trigger tasks@.contains(t)]
                tasks@.contains(t) <==> last_of_its_name(list@, list@.len() as int, t),
        },
{
    match stored {
        Stored::Absent => Ok(Tasks::new()),
        Stored::Unreadable => Err(Error::Corrupt),
        Stored::Read(list) => {
            let mut tasks = Tasks::new();
            let mut i: usize = 0;
            assert(forall|t: TaskView| !tasks@.contains(t));
            while i < list.len()
                invariant
                    i <= list.len(),
                    i > 0 ==> names_ascend(tasks@),
                    tasks@.len() == 0 || i > 0,
                    forall|t: TaskView|
                        #![trigger tasks@.contains(t)]
                        tasks@.contains(t) <==> last_of_its_name(list@, i as int, t),
                decreases list.len() - i,
            {
                let ghost before = tasks@;
                let task = list[i].duplicate();
                assert(task@ == list@[i as int]@);
                tasks.insert(task);
                proof {
                    let added = list@[i as int]@;
                    assert forall|t: TaskView|
                        #![trigger tasks@.contains(t)]
                        tasks@.contains(t) <==> last_of_its_name(list@, i + 1, t) by {
                        if last_of_its_name(list@, i + 1, t) {
                            let k = choose|k: int|
                                0 <= k < i + 1 && (#[trigger] list@[k])@ == t && forall|j: int|
                                    k < j < i + 1 ==> (#[trigger] list@[j])@.name != t.name;
                            if k < i {
                                assert(list@[i as int]@.name != t.name);
                                assert(last_of_its_name(list@, i as int, t));
                                assert(before.contains(t));
                            }
                        }
                        if t == added {
                            assert(last_of_its_name(list@, i + 1, t));
                        } else if before.contains(t) && t.name != added.name {
                            assert(last_of_its_name(list@, i as int, t));
                            let k = choose|k: int|
                                0 <= k < i && (#[trigger] list@[k])@ == t && forall|j: int|
                                    k < j < i ==> (#[trigger] list@[j])@.name != t.name;
                            assert(last_of_its_name(list@, i + 1, t));
                        }
                    }
                }
                i = i + 1;
            }
            proof {
                if list.len() == 0 {
                    assert(names_ascend(tasks@));
                }
            }
            Ok(tasks)
        },
    }
}

/// The history that is kept in the history file: none where there is no file. A file that
/// cannot be read as a history is `Corrupt`.
pub fn read_history_file(stored: Stored<Vec<HistoryEntry>>) -> (r: Result<Option<History>, Error>)
    ensures
        match stored {
            Stored::Absent => r matches Ok(None),
            Stored::Unreadable => r matches Err(e) && e == Error::Corrupt,
            Stored::Read(entries) => r matches Ok(Some(history)) && history@ == entries@,
        },
{
    match stored {
        Stored::Absent => Ok(None),
        Stored::Unreadable => Err(Error::Corrupt),
        Stored::Read(entries) => Ok(Some(History::from_entries(entries))),
    }
}

/// The history to write back after a run: what the history file holds, or nothing where
/// there is no file, and `entry` behind it. A file that cannot be read as a history is
/// `Corrupt`, and nothing is to be written.
pub fn append_to_history(stored: Stored<Vec<HistoryEntry>>, entry: HistoryEntry) -> (r: Result<
    History,
    Error,
>)
    ensures
        match stored {
            Stored::Absent => r matches Ok(history) && history@ == seq![entry],
            Stored::Unreadable => r matches Err(e) && e == Error::Corrupt,
            Stored::Read(entries) => r matches Ok(history) && history@ == entries@.push(entry),
        },
{
    let mut history = match stored {
        Stored::Absent => History::empty(),
        Stored::Unreadable => {
            return Err(Error::Corrupt);
        },
        Stored::Read(entries) => History::from_entries(entries),
    };
    history.append(entry);
    assert(Seq::<HistoryEntry>::empty().push(entry) =~= seq![entry]);
    Ok(history)
}

} // verus!
