use vstd::prelude::*;
use crate::at::{At, AtView};
use crate::text::chars_of;

verus! {

/// A registered task: a command, the shell that runs it and the recurrence that plans it.
#[derive(Clone, Debug, PartialEq, Eq)]
pub struct Task {
    pub id: u64,
    pub name: String,
    pub at: At,
    pub shell: Option<String>,
    pub cmd: String,
}

/// A task as a mathematical value.
pub struct TaskView {
    pub id: u64,
    pub name: Seq<char>,
    pub at: AtView,
    pub shell: Option<Seq<char>>,
    pub cmd: Seq<char>,
}

impl View for Task {
    type V = TaskView;

    open spec fn view(&self) -> TaskView {
        TaskView {
            id: self.id,
            name: self.name@,
            at: self.at@,
            shell: match self.shell {
                Some(shell) => Some(shell@),
                None => None,
            },
            cmd: self.cmd@,
        }
    }
}

/// The characters that a task name is made of: letters, digits, `-` and `_`.
pub open spec fn is_name_char(c: char) -> bool {
    ('a' <= c && c <= 'z') || ('A' <= c && c <= 'Z') || ('0' <= c && c <= '9') || c == '-' || c
        == '_'
}

/// A task name: at least one character, each a letter, a digit, `-` or `_`.
pub open spec fn valid_name(name: Seq<char>) -> bool {
    name.len() > 0 && forall|i: int| 0 <= i < name.len() ==> is_name_char(#[trigger] name[i])
}

/// Dictionary order of texts by the numbers of their characters: the order in which the
/// task set keeps its names.
pub open spec fn text_before(a: Seq<char>, b: Seq<char>) -> bool
    decreases a.len(),
{
    if b.len() == 0 {
        false
    } else if a.len() == 0 {
        true
    } else if a[0] != b[0] {
        (a[0] as int) < (b[0] as int)
    } else {
        text_before(a.skip(1), b.skip(1))
    }
}

/// Of two different texts, one comes before the other; no text comes before itself.
pub proof fn lemma_text_order_total(a: Seq<char>, b: Seq<char>)
    ensures
        a == b || text_before(a, b) || text_before(b, a),
        !(text_before(a, b) && text_before(b, a)),
        a == b ==> !text_before(a, b),
    decreases a.len(),
{
    if a.len() == 0 || b.len() == 0 {
        if a.len() == 0 && b.len() == 0 {
            assert(a =~= b);
        }
    } else if a[0] == b[0] {
        lemma_text_order_total(a.skip(1), b.skip(1));
        if a.skip(1) == b.skip(1) {
            assert(a =~= seq![a[0]] + a.skip(1));
            assert(b =~= seq![b[0]] + b.skip(1));
        }
    }
}

/// The order of texts is transitive.
pub proof fn lemma_text_order_transitive(a: Seq<char>, b: Seq<char>, c: Seq<char>)
    requires
        text_before(a, b),
        text_before(b, c),
    ensures
        text_before(a, c),
    decreases a.len(),
{
    if a.len() > 0 && a[0] == b[0] && b[0] == c[0] {
        lemma_text_order_transitive(a.skip(1), b.skip(1), c.skip(1));
    }
}

/// Tells whether the text `a` comes before the text `b`.
pub fn comes_before(a: &str, b: &str) -> (r: bool)
    ensures
        r == text_before(a@, b@),
{
    let x = chars_of(a);
    let y = chars_of(b);
    let mut i: usize = 0;
    assert(x@.skip(0) == x@ && y@.skip(0) == y@);
    while i < x.len() && i < y.len() && x[i] == y[i]
        invariant
            i <= x.len(),
            i <= y.len(),
            x@ == a@,
            y@ == b@,
            text_before(a@, b@) == text_before(x@.skip(i as int), y@.skip(i as int)),
        decreases x.len() - i,
    {
        assert(x@.skip(i as int).skip(1) == x@.skip(i + 1));
        assert(y@.skip(i as int).skip(1) == y@.skip(i + 1));
        i = i + 1;
    }
    if i == y.len() {
        false
    } else if i == x.len() {
        true
    } else {
        x[i] < y[i]
    }
}

/// Tells whether two texts are the same.
pub fn same_text(a: &str, b: &str) -> (r: bool)
    ensures
        r == (a@ == b@),
{
    proof {
        lemma_text_order_total(a@, b@);
    }
    !comes_before(a, b) && !comes_before(b, a)
}

impl Task {
    /// Tells whether `name` can name a task.
    pub fn is_valid_name(name: &str) -> (r: bool)
        ensures
            r == valid_name(name@),
    {
        let chars = chars_of(name);
        if chars.len() == 0 {
            return false;
        }
        let mut i: usize = 0;
        while i < chars.len()
            invariant
                i <= chars.len(),
                chars@ == name@,
                forall|j: int| 0 <= j < i ==> is_name_char(#[trigger] chars@[j]),
            decreases chars.len() - i,
        {
            let c = chars[i];
            if !(('a' <= c && c <= 'z') || ('A' <= c && c <= 'Z') || ('0' <= c && c <= '9') || c
                == '-' || c == '_') {
                assert(!is_name_char(name@[i as int]));
                return false;
            }
            i = i + 1;
        }
        true
    }

    /// A copy of the task.
    pub fn duplicate(&self) -> (r: Task)
        ensures
            r@ == self@,
    {
        Task {
            id: self.id,
            name: self.name.clone(),
            at: self.at.duplicate(),
            shell: match &self.shell {
                Some(shell) => Some(shell.clone()),
                None => None,
            },
            cmd: self.cmd.clone(),
        }
    }

    /// Tells whether the two tasks agree in everything but their ids.
    pub fn same_but_id(&self, other: &Task) -> (r: bool)
        ensures
            r == (self@ == TaskView { id: self.id, ..other@ }),
    {
        let same_shell = match (&self.shell, &other.shell) {
            (Some(a), Some(b)) => *a == *b,
            (None, None) => true,
            _ => false,
        };
        same_shell && self.name == other.name && self.cmd == other.cmd && self.at.same_as(
            &other.at,
        )
    }
}

/// The names come in the order of texts, each before the next.
pub open spec fn names_ascend(tasks: Seq<TaskView>) -> bool {
    forall|i: int, j: int|
        0 <= i < j < tasks.len() ==> text_before(
            (#[trigger] tasks[i]).name,
            (#[trigger] tasks[j]).name,
        )
}

/// Place of the task named `name`, if one is there.
pub open spec fn named(tasks: Seq<TaskView>, name: Seq<char>, i: int) -> bool {
    0 <= i < tasks.len() && tasks[i].name == name
}

/// Whether a task named `name` is in the set.
pub open spec fn has_name(tasks: Seq<TaskView>, name: Seq<char>) -> bool {
    exists|i: int| named(tasks, name, i)
}

/// Whether a task of the set has the id `id`.
pub open spec fn has_id(tasks: Seq<TaskView>, id: u64) -> bool {
    exists|i: int| 0 <= i < tasks.len() && (#[trigger] tasks[i]).id == id
}

/// Whether `task` is the first task of the set, in the order of the names, that has the id
/// `id`.
pub open spec fn first_of_id(tasks: Seq<TaskView>, id: u64, task: TaskView) -> bool {
    exists|i: int|
        0 <= i < tasks.len() && #[trigger] tasks[i] == task && task.id == id && forall|j: int|
            0 <= j < i ==> (#[trigger] tasks[j]).id != id
}

/// The task set: the tasks by name, in the order of their names.
pub struct Tasks {
    list: Vec<Task>,
}

impl View for Tasks {
    type V = Seq<TaskView>;

    closed spec fn view(&self) -> Seq<TaskView> {
        self.list@.map_values(|t: Task| t@)
    }
}

impl Tasks {
    #[verifier::type_invariant]
    spec fn ordered(self) -> bool {
        names_ascend(self.list@.map_values(|t: Task| t@))
    }

    /// The empty task set.
    pub fn new() -> (r: Tasks)
        ensures
            r@.len() == 0,
    {
        Tasks { list: Vec::new() }
    }

    /// Number of tasks.
    pub fn len(&self) -> (r: usize)
        ensures
            r == self@.len(),
    {
        self.list.len()
    }

    /// The tasks, in the order of their names.
    pub fn values(&self) -> (r: &Vec<Task>)
        ensures
            r@.map_values(|t: Task| t@) == self@,
            names_ascend(self@),
    {
        proof {
            use_type_invariant(self);
        }
        &self.list
    }

    /// Place of the first task whose name does not come before `name`.
    fn position(&self, name: &str) -> (r: usize)
        ensures
            r <= self@.len(),
            names_ascend(self@),
            forall|j: int| 0 <= j < r ==> text_before((#[trigger] self@[j]).name, name@),
            r < self@.len() ==> !text_before(self@[r as int].name, name@),
    {
        proof {
            use_type_invariant(self);
        }
        let mut i: usize = 0;
        while i < self.list.len() && comes_before(self.list[i].name.as_str(), name)
            invariant
                i <= self.list.len(),
                forall|j: int| 0 <= j < i ==> text_before((#[trigger] self@[j]).name, name@),
            decreases self.list.len() - i,
        {
            i = i + 1;
        }
        i
    }

    /// The task named `name`, if there is one.
    pub fn get(&self, name: &str) -> (r: Option<&Task>)
        ensures
            names_ascend(self@),
            match r {
                Some(task) => task@.name == name@ && self@.contains(task@),
                None => !has_name(self@, name@),
            },
    {
        let i = self.position(name);
        if i < self.list.len() && same_text(self.list[i].name.as_str(), name) {
            assert(self@[i as int] == self.list[i as int]@);
            Some(&self.list[i])
        } else {
            proof {
                assert forall|k: int| !named(self@, name@, k) by {
                    if named(self@, name@, k) {
                        lemma_text_order_total(self@[k].name, name@);
                        if k > i {
                            lemma_text_order_total(self@[i as int].name, name@);
                            lemma_text_order_transitive(
                                name@,
                                self@[i as int].name,
                                self@[k].name,
                            );
                        }
                    }
                }
            }
            None
        }
    }

    /// The first task, in the order of the names, whose id is `id`.
    pub fn find_by_id(&self, id: u64) -> (r: Option<&Task>)
        ensures
            match r {
                Some(task) => first_of_id(self@, id, task@),
                None => !has_id(self@, id),
            },
    {
        let mut i: usize = 0;
        while i < self.list.len()
            invariant
                i <= self.list.len(),
                forall|j: int| 0 <= j < i ==> (#[trigger] self@[j]).id != id,
            decreases self.list.len() - i,
        {
            if self.list[i].id == id {
                assert(self@[i as int] == self.list[i as int]@);
                return Some(&self.list[i]);
            }
            i = i + 1;
        }
        None
    }

    /// Puts `task` into the set, in the place of the task of the same name if there is one.
    /// Gives back the task that was replaced.
    pub fn insert(&mut self, task: Task) -> (r: Option<Task>)
        ensures
            names_ascend(final(self)@),
            final(self)@.contains(task@),
            forall|t: TaskView|
                #![trigger final(self)@.contains(t)]
                final(self)@.contains(t) <==> (t == task@ || (old(self)@.contains(t) && t.name
                    != task@.name)),
            match r {
                Some(replaced) => replaced@.name == task@.name && old(self)@.contains(replaced@),
                None => !has_name(old(self)@, task@.name),
            },
    {
        let i = self.position(task.name.as_str());
        let ghost before = self@;
        let ghost added = task@;
        proof {
            assert forall|k: int|
                i <= k < before.len() && before[k].name != added.name implies text_before(
                added.name,
                #[trigger] before[k].name,
            ) by {
                lemma_text_order_total(before[i as int].name, added.name);
                lemma_text_order_total(before[k].name, added.name);
                if k > i && !text_before(added.name, before[k].name) {
                    if before[i as int].name == added.name {
                    } else {
                        lemma_text_order_transitive(
                            added.name,
                            before[i as int].name,
                            before[k].name,
                        );
                    }
                }
            }
        }
        if i < self.list.len() && same_text(self.list[i].name.as_str(), task.name.as_str()) {
            let mut list: Vec<Task> = Vec::new();
            core::mem::swap(&mut list, &mut self.list);
            let replaced = list.remove(i);
            list.insert(i, task);
            proof {
                let after = list@.map_values(|t: Task| t@);
                assert(after =~= before.update(i as int, added));
                assert(replaced@ == before[i as int]);
                assert(after[i as int] == added);
                assert(names_ascend(after)) by {
                    assert forall|x: int, y: int| 0 <= x < y < after.len() implies text_before(
                        (#[trigger] after[x]).name,
                        (#[trigger] after[y]).name,
                    ) by {
                        assert(after[x].name == before[x].name);
                        assert(after[y].name == before[y].name);
                    }
                }
                assert forall|t: TaskView| after.contains(t) <==> (t == added || (before.contains(t)
                    && t.name != added.name)) by {
                    if after.contains(t) {
                        let k = choose|k: int| 0 <= k < after.len() && after[k] == t;
                        if k != i {
                            assert(before[k] == t);
                            lemma_text_order_total(before[k].name, before[i as int].name);
                        }
                    }
                    if before.contains(t) && t.name != added.name {
                        let k = choose|k: int| 0 <= k < before.len() && before[k] == t;
                        assert(after[k] == t);
                    }
                }
                assert(before.contains(before[i as int]));
            }
            self.list = list;
            Some(replaced)
        } else {
            proof {
                assert forall|k: int| !named(before, added.name, k) by {
                    if named(before, added.name, k) {
                        lemma_text_order_total(before[k].name, added.name);
                    }
                }
            }
            let mut list: Vec<Task> = Vec::new();
            core::mem::swap(&mut list, &mut self.list);
            list.insert(i, task);
            proof {
                let after = list@.map_values(|t: Task| t@);
                assert(after =~= before.insert(i as int, added));
                assert(after[i as int] == added);
                assert(names_ascend(after)) by {
                    assert forall|x: int, y: int| 0 <= x < y < after.len() implies text_before(
                        (#[trigger] after[x]).name,
                        (#[trigger] after[y]).name,
                    ) by {
                        if y < i {
                            assert(after[x] == before[x] && after[y] == before[y]);
                        } else if y == i {
                            assert(after[x] == before[x]);
                        } else if x < i {
                            assert(after[x] == before[x] && after[y] == before[y - 1]);
                        } else if x == i {
                            assert(after[y] == before[y - 1]);
                            assert(!named(before, added.name, y - 1));
                        } else {
                            assert(after[x] == before[x - 1] && after[y] == before[y - 1]);
                        }
                    }
                }
                assert forall|t: TaskView| after.contains(t) <==> (t == added || (before.contains(t)
                    && t.name != added.name)) by {
                    if after.contains(t) {
                        let k = choose|k: int| 0 <= k < after.len() && after[k] == t;
                        if k < i {
                            assert(before[k] == t);
                            lemma_text_order_total(before[k].name, added.name);
                        } else if k > i {
                            assert(before[k - 1] == t);
                            assert(!named(before, added.name, k - 1));
                        }
                    }
                    if before.contains(t) && t.name != added.name {
                        let k = choose|k: int| 0 <= k < before.len() && before[k] == t;
                        if k < i {
                            assert(after[k] == t);
                        } else {
                            assert(after[k + 1] == t);
                        }
                    }
                }
                assert(!has_name(before, added.name));
            }
            self.list = list;
            None
        }
    }

    /// Takes the task named `name` out of the set, if there is one, and gives it back.
    pub fn remove(&mut self, name: &str) -> (r: Option<Task>)
        ensures
            names_ascend(final(self)@),
            forall|t: TaskView|
                #![trigger final(self)@.contains(t)]
                final(self)@.contains(t) <==> (old(self)@.contains(t) && t.name != name@),
            match r {
                Some(removed) => removed@.name == name@ && old(self)@.contains(removed@),
                None => !has_name(old(self)@, name@) && final(self)@ == old(self)@,
            },
    {
        let i = self.position(name);
        let ghost before = self@;
        if i < self.list.len() && same_text(self.list[i].name.as_str(), name) {
            let mut list: Vec<Task> = Vec::new();
            core::mem::swap(&mut list, &mut self.list);
            let removed = list.remove(i);
            proof {
                let after = list@.map_values(|t: Task| t@);
                assert(after =~= before.remove(i as int));
                assert(removed@ == before[i as int]);
                assert(before.contains(before[i as int]));
                assert(names_ascend(after)) by {
                    assert forall|x: int, y: int| 0 <= x < y < after.len() implies text_before(
                        (#[trigger] after[x]).name,
                        (#[trigger] after[y]).name,
                    ) by {
                        let bx = if x < i {
                            x
                        } else {
                            x + 1
                        };
                        let by = if y < i {
                            y
                        } else {
                            y + 1
                        };
                        assert(after[x] == before[bx] && after[y] == before[by]);
                    }
                }
                assert forall|t: TaskView| after.contains(t) <==> (before.contains(t) && t.name
                    != name@) by {
                    if after.contains(t) {
                        let k = choose|k: int| 0 <= k < after.len() && after[k] == t;
                        if k < i {
                            assert(before[k] == t);
                            lemma_text_order_total(before[k].name, before[i as int].name);
                        } else {
                            assert(before[k + 1] == t);
                            lemma_text_order_total(before[k + 1].name, before[i as int].name);
                        }
                    }
                    if before.contains(t) && t.name != name@ {
                        let k = choose|k: int| 0 <= k < before.len() && before[k] == t;
                        if k < i {
                            assert(after[k] == t);
                        } else {
                            assert(after[k - 1] == t);
                        }
                    }
                }
            }
            self.list = list;
            Some(removed)
        } else {
            proof {
                assert forall|k: int| !named(before, name@, k) by {
                    if named(before, name@, k) {
                        lemma_text_order_total(before[k].name, name@);
                        if k > i {
                            lemma_text_order_total(before[i as int].name, name@);
                            lemma_text_order_transitive(name@, before[i as int].name, before[k].name);
                        }
                    }
                }
                assert forall|t: TaskView| before.contains(t) implies t.name != name@ by {
                    let k = choose|k: int| 0 <= k < before.len() && before[k] == t;
                    assert(!named(before, name@, k));
                }
            }
            None
        }
    }
}

} // verus!
