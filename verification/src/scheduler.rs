use vstd::prelude::*;
use std::collections::HashMap;
use vstd::std_specs::iter::IteratorSpec;
use crate::error::Error;
use crate::moment::{second_precision, Moment};
use crate::task::{first_of_id, has_id, Task, TaskView, Tasks};
use crate::upcoming::{get_new_upcoming_moment, get_upcoming_moment, new_upcoming, upcoming};

verus! {

broadcast use vstd::std_specs::hash::group_hash_axioms;

/// Whether the moment `a` lies before `b`, fractions of a second included.
pub open spec fn earlier(a: Moment, b: Moment) -> bool {
    a.total_seconds() < b.total_seconds() || (a.total_seconds() == b.total_seconds()
        && a.nanosecond < b.nanosecond)
}

/// Where a task stands with the scheduler.
#[derive(Clone, Copy, Debug, PartialEq, Eq, Structural)]
pub enum Slot {
    /// The task waits in the queue for the moment of its next run.
    Waiting(Moment),
    /// The task was handed out, for a run planned for the given moment, and has not come
    /// back.
    Running(Moment),
}

/// The queue that a plan holds: for each waiting task, the moment of its next run.
pub open spec fn waiting(plan: Map<u64, Slot>) -> Map<u64, Moment> {
    Map::new(
        |id: u64| plan.contains_key(id) && plan[id] is Waiting,
        |id: u64| plan[id]->Waiting_0,
    )
}

/// The tasks of a plan that were handed out: for each, the moment that its run was planned
/// for.
pub open spec fn handed_out(plan: Map<u64, Slot>) -> Map<u64, Moment> {
    Map::new(
        |id: u64| plan.contains_key(id) && plan[id] is Running,
        |id: u64| plan[id]->Running_0,
    )
}

/// Whether `planned` is the earliest moment that a task of the queue waits for.
pub open spec fn is_soonest(queue: Map<u64, Moment>, planned: Moment) -> bool {
    &&& exists|id: u64| queue.contains_key(id) && #[trigger] queue[id] == planned
    &&& forall|other: u64| queue.contains_key(other) ==> !earlier(#[trigger] queue[other], planned)
}

/// The waiting task that is planned first: none of the others is planned earlier.
#[verifier::spinoff_prover]
pub fn soonest(plan: &HashMap<u64, Slot>) -> (r: Option<(u64, Moment)>)
    requires
        forall|id: u64|
            waiting(plan@).contains_key(id) ==> (#[trigger] waiting(plan@)[id]).valid(),
    ensures
        match r {
            Some((id, at)) => waiting(plan@).contains_key(id) && waiting(plan@)[id] == at
                && is_soonest(waiting(plan@), at),
            None => forall|id: u64| !waiting(plan@).contains_key(id),
        },
{
    let mut best: Option<(u64, Moment)> = None;
    for entry in it: plan.iter()
        invariant
            forall|id: u64|
                waiting(plan@).contains_key(id) ==> (#[trigger] waiting(plan@)[id]).valid(),
            it.seq() == vstd::std_specs::hash::spec_hash_map_iter(plan).remaining(),
            match best {
                Some((id, at)) => waiting(plan@).contains_key(id) && waiting(plan@)[id] == at
                    && forall|i: int|
                    0 <= i < it.index() && (#[trigger] it.seq()[i]).1 is Waiting ==> !earlier(
                        it.seq()[i].1->Waiting_0,
                        at,
                    ),
                None => forall|i: int|
                    0 <= i < it.index() ==> !((#[trigger] it.seq()[i]).1 is Waiting),
            },
    {
        let (id, slot) = entry;
        assert(plan@.contains_key(*it.seq()[it.index() as int].0));
        assert(plan@.contains_key(*id) && plan@[*id] == *slot);
        match slot {
            Slot::Waiting(at) => {
                assert(waiting(plan@).contains_key(*id) && waiting(plan@)[*id] == *at);
                let better = match best {
                    None => true,
                    Some((_, planned)) => planned.is_after(at),
                };
                if better {
                    best = Some((*id, *at));
                }
            },
            Slot::Running(_) => {},
        }
    }
    proof {
        let all = vstd::std_specs::hash::spec_hash_map_iter(plan).remaining();
        assert forall|id: u64| waiting(plan@).contains_key(id) implies best is Some && !earlier(
            #[trigger] waiting(plan@)[id],
            best.unwrap().1,
        ) by {
            assert(all.contains((&id, &plan@[id])));
            let i = choose|i: int| 0 <= i < all.len() && all[i] == (&id, &plan@[id]);
            assert(all[i].1 is Waiting);
        }
    }
    best
}

/// Time to sleep while nothing is due: the nanoseconds left of the running second.
pub fn short_sleep_nanos(now: &Moment) -> (r: u64)
    requires
        now.nanosecond < 1_000_000_000,
    ensures
        r == 1_000_000_000 - now.nanosecond,
        0 < r <= 1_000_000_000,
{
    (1_000_000_000 - now.nanosecond) as u64
}

/// Lateness, in seconds, beyond which a dispatch is taken as the sign that the host has slept.
pub const LATE_LIMIT: i64 = 60;

/// Seconds to wait more before going on, after a dispatch that late.
pub const SETTLE_SECONDS: u64 = 30;

/// What the scheduler decides when it looks at its queue.
pub enum Tick {
    /// Nothing is due. Sleep to the end of the second; `announce` holds the moment of the
    /// next run where it was not announced before.
    Idle { announce: Option<Moment> },
    /// A task is due: run `task`, planned for `planned_for` and `late` seconds late, in a
    /// worker of its own; where `settle` is set, wait `SETTLE_SECONDS` before looking again.
    Dispatch { task: Task, planned_for: Moment, late: i64, settle: bool },
}

/// The queue of the scheduler and the tasks that it has handed out, over one task set.
pub struct Scheduler {
    tasks: Tasks,
    plan: HashMap<u64, Slot>,
    last_displayed_planned: Option<Moment>,
}

impl Scheduler {
    #[verifier::type_invariant]
    spec fn inv(self) -> bool {
        &&& forall|id: u64|
            self.plan@.contains_key(id) ==> has_id(self.tasks@, id) && match #[trigger] self.plan@[id] {
                Slot::Waiting(at) => at.valid() && at.nanosecond == 0,
                Slot::Running(at) => at.valid() && at.nanosecond == 0,
            }
        &&& forall|i: int| 0 <= i < self.tasks@.len() ==> (#[trigger] self.tasks@[i]).at.wf()
    }

    /// The task set.
    pub closed spec fn tasks(&self) -> Seq<TaskView> {
        self.tasks@
    }

    /// The queue: for each waiting task, by its id, the moment of its next run.
    pub closed spec fn queue(&self) -> Map<u64, Moment> {
        waiting(self.plan@)
    }

    /// The tasks that were handed out and have not come back: by id, the moment that the run
    /// was planned for.
    pub closed spec fn in_flight(&self) -> Map<u64, Moment> {
        handed_out(self.plan@)
    }

    /// The tasks that have left the scheduler because their recurrence has no further date.
    pub closed spec fn retired(&self) -> Set<u64> {
        Set::new(|id: u64| has_id(self.tasks@, id) && !self.plan@.contains_key(id))
    }

    /// The moment of the next run that was announced last.
    pub closed spec fn announced(&self) -> Option<Moment> {
        self.last_displayed_planned
    }

    /// What holds of the scheduler in every state: each task of the set, by its id, either
    /// waits in the queue, or runs, or has left the scheduler, and never two of these; and the
    /// planned moments are whole seconds.
    pub open spec fn coherent(&self) -> bool {
        &&& forall|id: u64|
            #![trigger has_id(self.tasks(), id)]
            has_id(self.tasks(), id) <==> self.queue().contains_key(id)
                || self.in_flight().contains_key(id) || self.retired().contains(id)
        &&& forall|id: u64|
            #![trigger self.queue().contains_key(id)]
            #![trigger self.in_flight().contains_key(id)]
            !(self.queue().contains_key(id) && self.in_flight().contains_key(id))
        &&& forall|id: u64|
            #![trigger self.retired().contains(id)]
            self.retired().contains(id) ==> !self.queue().contains_key(id)
                && !self.in_flight().contains_key(id)
        &&& forall|id: u64|
            self.queue().contains_key(id) ==> (#[trigger] self.queue()[id]).valid()
                && self.queue()[id].nanosecond == 0
        &&& forall|id: u64|
            self.in_flight().contains_key(id) ==> (#[trigger] self.in_flight()[id]).valid()
                && self.in_flight()[id].nanosecond == 0
    }

    /// Where the task `task_id` stands: in the queue, handed out, or neither.
    pub fn slot(&self, task_id: u64) -> (r: Option<Slot>)
        ensures
            self.coherent(),
            match r {
                Some(Slot::Waiting(at)) => self.queue().contains_key(task_id)
                    && self.queue()[task_id] == at,
                Some(Slot::Running(at)) => self.in_flight().contains_key(task_id)
                    && self.in_flight()[task_id] == at,
                None => !self.queue().contains_key(task_id) && !self.in_flight().contains_key(
                    task_id,
                ),
            },
    {
        proof {
            use_type_invariant(self);
        }
        match self.plan.get(&task_id) {
            Some(slot) => Some(*slot),
            None => None,
        }
    }

    /// Plans every task of `tasks` for its upcoming moment after `now`.
    #[verifier::spinoff_prover]
    pub fn new(tasks: Tasks, now: Moment) -> (r: Result<Scheduler, Error>)
        requires
            now.valid(),
        ensures
            match r {
                Ok(s) => {
                    &&& s.coherent()
                    &&& s.tasks() == tasks@
                    &&& s.in_flight() == Map::<u64, Moment>::empty()
                    &&& s.retired() == Set::<u64>::empty()
                    &&& s.announced() is None
                    &&& forall|id: u64| s.queue().contains_key(id) <==> has_id(tasks@, id)
                    &&& forall|id: u64|
                        s.queue().contains_key(id) ==> exists|i: int|
                            0 <= i < tasks@.len() && (#[trigger] tasks@[i]).id == id && upcoming(
                                tasks@[i].at,
                                now,
                                Ok(s.queue()[id]),
                            ) && forall|j: int|
                                i < j < tasks@.len() ==> (#[trigger] tasks@[j]).id != id
                    &&& forall|i: int|
                        0 <= i < tasks@.len() ==> (#[trigger] tasks@[i]).at.wf()
                },
                Err(e) => exists|i: int|
                    0 <= i < tasks@.len() && if (#[trigger] tasks@[i]).at.wf() {
                        e == Error::NoSuchDate && upcoming(
                            tasks@[i].at,
                            now,
                            Err(Error::NoSuchDate),
                        )
                    } else {
                        e == Error::InvalidPattern
                    },
            },
    {
        let mut plan: HashMap<u64, Slot> = HashMap::new();
        let list = tasks.values();
        let mut i: usize = 0;
        while i < list.len()
            invariant
                i <= list.len(),
                now.valid(),
                list@.map_values(|t: Task| t@) == tasks@,
                forall|id: u64|
                    plan@.contains_key(id) <==> exists|j: int|
                        0 <= j < i && (#[trigger] tasks@[j]).id == id,
                forall|id: u64|
                    plan@.contains_key(id) ==> (#[trigger] plan@[id]) is Waiting
                        && plan@[id]->Waiting_0.valid() && plan@[id]->Waiting_0.nanosecond == 0
                        && exists|j: int|
                        0 <= j < i && (#[trigger] tasks@[j]).id == id && upcoming(
                            tasks@[j].at,
                            now,
                            Ok(plan@[id]->Waiting_0),
                        ) && forall|k: int| j < k < i ==> (#[trigger] tasks@[k]).id != id,
                forall|j: int| 0 <= j < i ==> (#[trigger] tasks@[j]).at.wf(),
            decreases list.len() - i,
        {
            let task = &list[i];
            assert(tasks@[i as int] == task@);
            if !task.at.is_valid() {
                return Err(Error::InvalidPattern);
            }
            match get_upcoming_moment(now, &task.at) {
                Ok(planned) => {
                    plan.insert(task.id, Slot::Waiting(planned));
                },
                Err(e) => {
                    return Err(e);
                },
            }
            i = i + 1;
        }
        let s = Scheduler { tasks, plan, last_displayed_planned: None };
        proof {
            assert(s.in_flight() =~= Map::<u64, Moment>::empty());
            assert(s.retired() =~= Set::<u64>::empty());
        }
        Ok(s)
    }

    /// Looks at the queue at the moment `now`. Where the task that is planned first is due,
    /// it leaves the queue and is handed out; else nothing changes but what was announced.
    #[verifier::spinoff_prover]
    pub fn tick(&mut self, now: Moment) -> (r: Tick)
        requires
            now.valid(),
        ensures
            final(self).coherent(),
            final(self).tasks() == old(self).tasks(),
            final(self).retired() == old(self).retired(),
            match r {
                Tick::Idle { announce } => {
                    &&& final(self).queue() == old(self).queue()
                    &&& final(self).in_flight() == old(self).in_flight()
                    &&& forall|id: u64|
                        old(self).queue().contains_key(id) ==> now.total_seconds() < (
                        #[trigger] old(self).queue()[id]).total_seconds()
                    &&& match announce {
                        Some(planned) => is_soonest(old(self).queue(), planned) && old(
                            self,
                        ).announced() != Some(planned) && final(self).announced() == Some(planned),
                        None => final(self).announced() == old(self).announced() && ((forall|
                            id: u64,
                        |
                            !old(self).queue().contains_key(id)) || (old(self).announced() is Some
                            && is_soonest(old(self).queue(), old(self).announced().unwrap()))),
                    }
                },
                Tick::Dispatch { task, planned_for, late, settle } => {
                    &&& old(self).queue().contains_key(task@.id)
                    &&& old(self).queue()[task@.id] == planned_for
                    &&& is_soonest(old(self).queue(), planned_for)
                    &&& planned_for.total_seconds() <= now.total_seconds()
                    &&& first_of_id(old(self).tasks(), task@.id, task@)
                    &&& final(self).queue() == old(self).queue().remove(task@.id)
                    &&& final(self).in_flight() == old(self).in_flight().insert(
                        task@.id,
                        planned_for,
                    )
                    &&& final(self).announced() == old(self).announced()
                    &&& late == now.total_seconds() - planned_for.total_seconds()
                    &&& settle == (late > LATE_LIMIT)
                },
            },
    {
        proof {
            use_type_invariant(&*self);
        }
        let now = second_precision(now);
        match soonest(&self.plan) {
            None => Tick::Idle { announce: None },
            Some((task_id, planned_for)) => {
                if planned_for.is_after(&now) {
                    let known = match self.last_displayed_planned {
                        Some(shown) => shown == planned_for,
                        None => false,
                    };
                    if known {
                        Tick::Idle { announce: None }
                    } else {
                        self.last_displayed_planned = Some(planned_for);
                        Tick::Idle { announce: Some(planned_for) }
                    }
                } else {
                    match self.tasks.find_by_id(task_id) {
                        None => Tick::Idle { announce: None },
                        Some(found) => {
                            let task = found.duplicate();
                            let mut plan: HashMap<u64, Slot> = HashMap::new();
                            core::mem::swap(&mut plan, &mut self.plan);
                            plan.insert(task_id, Slot::Running(planned_for));
                            self.plan = plan;
                            proof {
                                assert(final(self).queue() =~= old(self).queue().remove(task_id));
                                assert(final(self).in_flight() =~= old(self).in_flight().insert(
                                    task_id,
                                    planned_for,
                                ));
                                assert(final(self).retired() =~= old(self).retired());
                            }
                            let late = now.seconds_since(&planned_for);
                            Tick::Dispatch { task, planned_for, late, settle: late > LATE_LIMIT }
                        },
                    }
                }
            },
        }
    }

    /// Takes back the task `task_id` after its run, at the moment `now`: plans its next run
    /// with [`get_new_upcoming_moment`] and puts it into the queue. A task whose recurrence
    /// has no further date leaves the scheduler.
    #[verifier::spinoff_prover]
    pub fn complete(&mut self, task_id: u64, now: Moment) -> (r: Result<Moment, Error>)
        requires
            now.valid(),
        ensures
            final(self).coherent(),
            final(self).tasks() == old(self).tasks(),
            final(self).announced() == old(self).announced(),
            match r {
                Ok(next) => {
                    &&& old(self).in_flight().contains_key(task_id)
                    &&& exists|task: TaskView|
                        first_of_id(old(self).tasks(), task_id, task) && #[trigger] new_upcoming(
                            task.at,
                            now,
                            old(self).in_flight()[task_id],
                            Ok(next),
                        )
                    &&& final(self).queue() == old(self).queue().insert(task_id, next)
                    &&& final(self).in_flight() == old(self).in_flight().remove(task_id)
                    &&& final(self).retired() == old(self).retired()
                    &&& old(self).in_flight()[task_id].total_seconds() <= now.total_seconds()
                        ==> old(self).in_flight()[task_id].total_seconds() < next.total_seconds()
                },
                Err(e) => if old(self).in_flight().contains_key(task_id) {
                    &&& e == Error::NoSuchDate
                    &&& exists|task: TaskView|
                        first_of_id(old(self).tasks(), task_id, task) && #[trigger] new_upcoming(
                            task.at,
                            now,
                            old(self).in_flight()[task_id],
                            Err(Error::NoSuchDate),
                        )
                    &&& final(self).queue() == old(self).queue()
                    &&& final(self).in_flight() == old(self).in_flight().remove(task_id)
                    &&& final(self).retired() == old(self).retired().insert(task_id)
                } else {
                    &&& e == Error::NoSuchTask
                    &&& final(self).queue() == old(self).queue()
                    &&& final(self).in_flight() == old(self).in_flight()
                    &&& final(self).retired() == old(self).retired()
                },
            },
    {
        proof {
            use_type_invariant(&*self);
        }
        let planned_for = match self.plan.get(&task_id) {
            Some(Slot::Running(planned)) => *planned,
            _ => {
                return Err(Error::NoSuchTask);
            },
        };
        let found = match self.tasks.find_by_id(task_id) {
            Some(task) => get_new_upcoming_moment(now, &task.at, planned_for),
            None => Err(Error::NoSuchTask),
        };
        self.put_back(task_id, found)
    }

    /// Puts a task that was handed out into the queue for the moment `found`, or takes it out
    /// of the plan where it has none.
    #[verifier::spinoff_prover]
    fn put_back(&mut self, task_id: u64, found: Result<Moment, Error>) -> (r: Result<Moment, Error>)
        requires
            old(self).in_flight().contains_key(task_id),
            found matches Ok(next) ==> next.valid() && next.nanosecond == 0,
        ensures
            r == found,
            final(self).coherent(),
            final(self).tasks() == old(self).tasks(),
            final(self).announced() == old(self).announced(),
            final(self).in_flight() == old(self).in_flight().remove(task_id),
            match found {
                Ok(next) => final(self).queue() == old(self).queue().insert(task_id, next)
                    && final(self).retired() == old(self).retired(),
                Err(_) => final(self).queue() == old(self).queue() && final(self).retired()
                    == old(self).retired().insert(task_id),
            },
    {
        proof {
            use_type_invariant(&*self);
        }
        let ghost before = self.plan@;
        let mut plan: HashMap<u64, Slot> = HashMap::new();
        core::mem::swap(&mut plan, &mut self.plan);
        match found {
            Ok(next) => {
                plan.insert(task_id, Slot::Waiting(next));
                self.plan = plan;
                proof {
                    assert(self.plan@ == before.insert(task_id, Slot::Waiting(next)));
                    assert(waiting(self.plan@) =~= waiting(before).insert(task_id, next));
                    assert(handed_out(self.plan@) =~= handed_out(before).remove(task_id));
                    assert(final(self).retired() =~= old(self).retired());
                }
            },
            Err(_) => {
                plan.remove(&task_id);
                self.plan = plan;
                proof {
                    assert(self.plan@ == before.remove(task_id));
                    assert(waiting(self.plan@) =~= waiting(before));
                    assert(handed_out(self.plan@) =~= handed_out(before).remove(task_id));
                    assert(final(self).retired() =~= old(self).retired().insert(task_id));
                }
            },
        }
        found
    }

    /// The waiting tasks with the moments of their next runs, in no particular order.
    #[verifier::spinoff_prover]
    pub fn scheduled(&self) -> (r: Vec<(Task, Moment)>)
        ensures
            forall|i: int|
                0 <= i < r@.len() ==> self.queue().contains_key((#[trigger] r@[i]).0@.id)
                    && self.queue()[r@[i].0@.id] == r@[i].1 && first_of_id(
                    self.tasks(),
                    r@[i].0@.id,
                    r@[i].0@,
                ),
            forall|id: u64|
                self.queue().contains_key(id) ==> exists|i: int|
                    0 <= i < r@.len() && (#[trigger] r@[i]).0@.id == id,
            forall|i: int, j: int|
                0 <= i < j < r@.len() ==> (#[trigger] r@[i]).0@.id != (#[trigger] r@[j]).0@.id,
    {
        proof {
            use_type_invariant(self);
        }
        let mut out: Vec<(Task, Moment)> = Vec::new();
        let ghost mut places: Seq<int> = Seq::empty();
        for entry in it: self.plan.iter()
            invariant
                it.seq() == vstd::std_specs::hash::spec_hash_map_iter(&self.plan).remaining(),
                it.seq().no_duplicates(),
                it.index() <= it.seq().len(),
                forall|id: u64| self.plan@.contains_key(id) ==> has_id(self.tasks@, id),
                out@.len() == places.len(),
                forall|i: int| 0 <= i < places.len() ==> 0 <= (#[trigger] places[i]) < it.index(),
                forall|i: int|
                    0 <= i < out@.len() ==> *it.seq()[places[i]].0 == (#[trigger] out@[i]).0@.id
                        && *it.seq()[places[i]].1 == Slot::Waiting(out@[i].1) && first_of_id(
                        self.tasks@,
                        out@[i].0@.id,
                        out@[i].0@,
                    ),
                forall|i: int, j: int|
                    0 <= i < j < places.len() ==> (#[trigger] places[i]) < (#[trigger] places[j]),
                forall|k: int|
                    0 <= k < it.index() && (#[trigger] it.seq()[k]).1 is Waiting ==> exists|i: int|
                        0 <= i < places.len() && #[trigger] places[i] == k,
        {
            let (id, slot) = entry;
            assert(self.plan@.contains_key(*it.seq()[it.index() as int].0));
            match slot {
                Slot::Waiting(at) => {
                    match self.tasks.find_by_id(*id) {
                        Some(task) => {
                            out.push((task.duplicate(), *at));
                            proof {
                                let old_places = places;
                                places = places.push(it.index() as int);
                                assert forall|i: int, j: int|
                                    0 <= i < j < places.len() implies (#[trigger] places[i]) < (
                                #[trigger] places[j]) by {
                                    if j < old_places.len() {
                                        assert(places[i] == old_places[i] && places[j]
                                            == old_places[j]);
                                    } else {
                                        assert(places[i] == old_places[i]);
                                        assert(old_places[i] < it.index());
                                    }
                                }
                                assert forall|i: int| 0 <= i < places.len() implies 0 <= (
                                #[trigger] places[i]) < it.index() + 1 by {
                                    if i < old_places.len() {
                                        assert(places[i] == old_places[i]);
                                    }
                                }
                                assert forall|i: int| 0 <= i < out@.len() implies *it.seq()[places[i]].0
                                    == (#[trigger] out@[i]).0@.id && *it.seq()[places[i]].1
                                    == Slot::Waiting(out@[i].1) && first_of_id(
                                    self.tasks@,
                                    out@[i].0@.id,
                                    out@[i].0@,
                                ) by {
                                    if i < old_places.len() {
                                        assert(places[i] == old_places[i]);
                                    }
                                }
                                assert forall|k: int|
                                    0 <= k < it.index() + 1 && (#[trigger] it.seq()[k]).1 is Waiting implies exists|
                                    i: int,
                                |
                                    0 <= i < places.len() && #[trigger] places[i] == k by {
                                    if k < it.index() {
                                        let i = choose|i: int|
                                            0 <= i < old_places.len() && #[trigger] old_places[i]
                                                == k;
                                        assert(places[i] == k);
                                    } else {
                                        assert(places[places.len() - 1] == k);
                                    }
                                }
                            }
                        },
                        None => {
                            assert(false);
                        },
                    }
                },
                Slot::Running(_) => {},
            }
        }
        proof {
            let all = vstd::std_specs::hash::spec_hash_map_iter(&self.plan).remaining();
            assert forall|i: int| 0 <= i < out@.len() implies self.queue().contains_key(
                (#[trigger] out@[i]).0@.id,
            ) && self.queue()[out@[i].0@.id] == out@[i].1 by {
                assert(self.plan@.contains_key(*all[places[i]].0));
            }
            assert forall|id: u64| self.queue().contains_key(id) implies exists|i: int|
                0 <= i < out@.len() && (#[trigger] out@[i]).0@.id == id by {
                assert(all.contains((&id, &self.plan@[id])));
                let k = choose|k: int| 0 <= k < all.len() && all[k] == (&id, &self.plan@[id]);
                assert(all[k].1 is Waiting);
                let i = choose|i: int| 0 <= i < places.len() && #[trigger] places[i] == k;
                assert(out@[i].0@.id == id);
            }
            assert forall|i: int, j: int| 0 <= i < j < out@.len() implies (#[trigger] out@[i]).0@.id
                != (#[trigger] out@[j]).0@.id by {
                assert(places[i] < places[j]);
                assert(self.plan@.contains_key(*all[places[i]].0));
                assert(self.plan@.contains_key(*all[places[j]].0));
                if out@[i].0@.id == out@[j].0@.id {
                    assert(all[places[i]] == all[places[j]]);
                }
            }
        }
        out
    }
}

} // verus!
