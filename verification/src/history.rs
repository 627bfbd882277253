use vstd::prelude::*;
use crate::error::Error;
use crate::moment::Moment;
use crate::text::{
    chars_of, decimal_text, decimal_value, is_digit, is_number, lemma_decimal_round_trip,
    lemma_decimal_text_is_number, lemma_decimal_value_grows, push_decimal,
};

verus! {

/// How the run of a task ended.
#[derive(Clone, Copy, Debug, PartialEq, Eq, Structural)]
pub enum TaskResult {
    /// The command ended with a clean exit status.
    Success,
    /// The command failed, with the exit code where it had one.
    Failed { code: Option<i32> },
}

/// The text of a result: `OK`, or `FAILED:` and then the exit code, `-` where there is none.
pub open spec fn result_text(result: TaskResult) -> Seq<char> {
    match result {
        TaskResult::Success => seq!['O', 'K'],
        TaskResult::Failed { code: None } => failed_prefix().push('-'),
        TaskResult::Failed { code: Some(code) } => failed_prefix() + signed_text(code as int),
    }
}

/// The text `FAILED:`.
pub open spec fn failed_prefix() -> Seq<char> {
    seq!['F', 'A', 'I', 'L', 'E', 'D', ':']
}

/// The decimal text of a number, with `-` before it where it is negative.
pub open spec fn signed_text(n: int) -> Seq<char> {
    if n < 0 {
        seq!['-'] + decimal_text(-n)
    } else {
        decimal_text(n)
    }
}

/// The number that a text stands for: digits, with `+` or `-` before them or not, that give a
/// number of 32 bits.
pub open spec fn signed_value(s: Seq<char>) -> Option<i32> {
    if s.len() > 0 && s[0] == '-' {
        if is_number(s.skip(1)) && decimal_value(s.skip(1)) <= 0x8000_0000 {
            Some((-decimal_value(s.skip(1))) as i32)
        } else {
            None
        }
    } else {
        let digits = if s.len() > 0 && s[0] == '+' {
            s.skip(1)
        } else {
            s
        };
        if is_number(digits) && decimal_value(digits) <= 0x7fff_ffff {
            Some(decimal_value(digits) as i32)
        } else {
            None
        }
    }
}

/// The result that a text stands for.
pub open spec fn result_of(s: Seq<char>) -> Option<TaskResult> {
    if s =~= seq!['O', 'K'] {
        Some(TaskResult::Success)
    } else if s.len() >= 7 && s.take(7) =~= failed_prefix() {
        if s.skip(7) =~= seq!['-'] {
            Some(TaskResult::Failed { code: None })
        } else {
            match signed_value(s.skip(7)) {
                Some(code) => Some(TaskResult::Failed { code: Some(code) }),
                None => None,
            }
        }
    } else {
        None
    }
}

/// Reads the digits of `chars` from `from` on as a number of at most `limit`.
fn read_digits(chars: &[char], from: usize, limit: u64) -> (r: Option<u64>)
    requires
        from <= chars@.len(),
        limit <= 0x8000_0000,
    ensures
        match r {
            Some(value) => is_number(chars@.skip(from as int)) && value == decimal_value(
                chars@.skip(from as int),
            ) && value <= limit,
            None => !(is_number(chars@.skip(from as int)) && decimal_value(
                chars@.skip(from as int),
            ) <= limit),
        },
{
    let ghost text = chars@.skip(from as int);
    if from == chars.len() {
        return None;
    }
    let mut value: u64 = 0;
    let mut i = from;
    while i < chars.len()
        invariant
            from <= i <= chars@.len(),
            text == chars@.skip(from as int),
            limit <= 0x8000_0000,
            forall|j: int| 0 <= j < i - from ==> is_digit(#[trigger] text[j]),
            value == decimal_value(text.take(i - from)),
            value <= limit,
        decreases chars@.len() - i,
    {
        let c = chars[i];
        if !('0' <= c && c <= '9') {
            assert(!is_digit(text[i - from]));
            return None;
        }
        let next = value * 10 + (c as u64 - 48);
        proof {
            assert(text.take(i - from + 1).drop_last() == text.take(i - from));
            assert(decimal_value(text.take(i - from + 1)) == next);
        }
        if next > limit {
            proof {
                if is_number(text) {
                    lemma_decimal_value_grows(text, i - from + 1);
                }
            }
            return None;
        }
        value = next;
        i = i + 1;
    }
    assert(text.take(chars@.len() - from) == text);
    Some(value)
}

impl TaskResult {
    /// The result of a command that has ended: a success where its exit status is clean, a
    /// failure with its exit code otherwise.
    pub fn from_exit(success: bool, code: Option<i32>) -> (r: TaskResult)
        ensures
            r == if success {
                TaskResult::Success
            } else {
                TaskResult::Failed { code }
            },
    {
        if success {
            TaskResult::Success
        } else {
            TaskResult::Failed { code }
        }
    }

    /// Reads a result as [`TaskResult::encode`] writes it.
    #[verifier::spinoff_prover]
    pub fn parse(input: &str) -> (r: Result<TaskResult, Error>)
        ensures
            match r {
                Ok(result) => result_of(input@) == Some(result),
                Err(e) => e == Error::Corrupt && result_of(input@) is None,
            },
    {
        let chars = chars_of(input);
        let all = chars.as_slice();
        let n = all.len();
        if n == 2 && all[0] == 'O' && all[1] == 'K' {
            assert(input@ =~= seq!['O', 'K']);
            return Ok(TaskResult::Success);
        }
        assert(!(input@ =~= seq!['O', 'K'])) by {
            if input@ =~= seq!['O', 'K'] {
                assert(input@[0] == 'O' && input@[1] == 'K');
            }
        }
        if !(n >= 7 && all[0] == 'F' && all[1] == 'A' && all[2] == 'I' && all[3] == 'L' && all[4]
            == 'E' && all[5] == 'D' && all[6] == ':') {
            assert(!(input@.len() >= 7 && input@.take(7) =~= failed_prefix())) by {
                if input@.len() >= 7 && input@.take(7) =~= failed_prefix() {
                    assert(forall|i: int| 0 <= i < 7 ==> input@[i] == input@.take(7)[i]);
                }
            }
            return Err(Error::Corrupt);
        }
        assert(input@.take(7) =~= failed_prefix());
        let ghost code = input@.skip(7);
        if n == 8 && all[7] == '-' {
            assert(code =~= seq!['-']);
            return Ok(TaskResult::Failed { code: None });
        }
        assert(!(code =~= seq!['-'])) by {
            if code =~= seq!['-'] {
                assert(code[0] == '-');
            }
        }
        if n > 7 && all[7] == '-' {
            assert(code.skip(1) == all@.skip(8));
            match read_digits(all, 8, 0x8000_0000) {
                Some(value) => Ok(TaskResult::Failed { code: Some((0 - value as i64) as i32) }),
                None => Err(Error::Corrupt),
            }
        } else {
            let start: usize = if n > 7 && all[7] == '+' {
                8
            } else {
                7
            };
            assert(start == 8 ==> code.skip(1) == all@.skip(8));
            match read_digits(all, start, 0x7fff_ffff) {
                Some(value) => Ok(TaskResult::Failed { code: Some(value as i32) }),
                None => Err(Error::Corrupt),
            }
        }
    }

    /// Writes the result: see [`result_text`].
    pub fn encode(&self) -> (r: String)
        ensures
            r@ == result_text(*self),
    {
        proof {
            reveal_strlit("OK");
            reveal_strlit("FAILED:");
            reveal_strlit("-");
        }
        match self {
            TaskResult::Success => {
                let r = String::from_str("OK");
                assert(r@ =~= seq!['O', 'K']);
                r
            },
            TaskResult::Failed { code } => {
                let mut r = String::from_str("FAILED:");
                assert(r@ =~= failed_prefix());
                match code {
                    None => {
                        r.append("-");
                        assert(r@ =~= failed_prefix().push('-'));
                    },
                    Some(code) => {
                        push_signed(&mut r, *code);
                    },
                }
                r
            },
        }
    }

    /// Says in words how the run ended.
    pub fn describe(&self) -> (r: String)
        ensures
            r@ == match *self {
                TaskResult::Success => "success"@,
                TaskResult::Failed { code: None } => "failed (no exit code)"@,
                TaskResult::Failed { code: Some(code) } => "failed with code "@ + signed_text(
                    code as int,
                ),
            },
    {
        match self {
            TaskResult::Success => String::from_str("success"),
            TaskResult::Failed { code: None } => String::from_str("failed (no exit code)"),
            TaskResult::Failed { code: Some(code) } => {
                let mut r = String::from_str("failed with code ");
                push_signed(&mut r, *code);
                r
            },
        }
    }
}

/// Appends the decimal text of `n`, with its sign where it is negative.
pub fn push_signed(out: &mut String, n: i32)
    ensures
        final(out)@ == old(out)@ + signed_text(n as int),
{
    if n < 0 {
        proof {
            reveal_strlit("-");
        }
        out.append("-");
        push_decimal(out, (0 - n as i64) as u64);
        assert(final(out)@ =~= old(out)@ + signed_text(n as int));
    } else {
        push_decimal(out, n as u64);
    }
}

/// What was written of a result is read as that result.
#[verifier::spinoff_prover]
pub proof fn lemma_result_round_trip(result: TaskResult)
    ensures
        result_of(result_text(result)) == Some(result),
{
    let text = result_text(result);
    match result {
        TaskResult::Success => {},
        TaskResult::Failed { code: None } => {
            assert(text.take(7) =~= failed_prefix());
            assert(text.skip(7) =~= seq!['-']);
        },
        TaskResult::Failed { code: Some(code) } => {
            let n = code as int;
            let digits = if n < 0 {
                decimal_text(-n)
            } else {
                decimal_text(n)
            };
            lemma_decimal_text_is_number(if n < 0 {
                -n
            } else {
                n
            });
            lemma_decimal_round_trip(if n < 0 {
                -n
            } else {
                n
            });
            assert(text.take(7) =~= failed_prefix());
            assert(text.skip(7) =~= signed_text(n));
            assert(text[7] == signed_text(n)[0]);
            if n < 0 {
                assert(signed_text(n).skip(1) =~= digits);
                assert(!(text.skip(7) =~= seq!['-']));
            } else {
                assert(is_digit(digits[0]));
                assert(!(text.skip(7) =~= seq!['-'])) by {
                    if text.skip(7) =~= seq!['-'] {
                        assert(text.skip(7)[0] == '-');
                    }
                }
            }
            assert(text.len() > 2);
        },
    }
}

/// One run of a task.
#[derive(Clone, Debug, PartialEq, Eq)]
pub struct HistoryEntry {
    pub task_id: u64,
    pub task_name: String,
    pub started_at: Moment,
    pub ended_at: Moment,
    pub result: TaskResult,
}

impl HistoryEntry {
    /// Tells whether the run was a success.
    pub fn succeeded(&self) -> (r: bool)
        ensures
            r == (self.result == TaskResult::Success),
    {
        match self.result {
            TaskResult::Success => true,
            TaskResult::Failed { code: _ } => false,
        }
    }

    /// The entry of a run that was a success.
    pub fn success(task_id: u64, task_name: String, started_at: Moment, ended_at: Moment) -> (r:
        HistoryEntry)
        ensures
            r == (HistoryEntry {
                task_id,
                task_name,
                started_at,
                ended_at,
                result: TaskResult::Success,
            }),
    {
        HistoryEntry { task_id, task_name, started_at, ended_at, result: TaskResult::Success }
    }

    /// The entry of a run that failed.
    pub fn failure(
        task_id: u64,
        task_name: String,
        started_at: Moment,
        ended_at: Moment,
        exit_code: Option<i32>,
    ) -> (r: HistoryEntry)
        ensures
            r == (HistoryEntry {
                task_id,
                task_name,
                started_at,
                ended_at,
                result: TaskResult::Failed { code: exit_code },
            }),
    {
        HistoryEntry {
            task_id,
            task_name,
            started_at,
            ended_at,
            result: TaskResult::Failed { code: exit_code },
        }
    }
}

/// The runs that were made, in the order in which they ended.
pub struct History {
    entries: Vec<HistoryEntry>,
}

impl View for History {
    type V = Seq<HistoryEntry>;

    closed spec fn view(&self) -> Seq<HistoryEntry> {
        self.entries@
    }
}

impl History {
    /// The history that holds no run.
    pub fn empty() -> (r: History)
        ensures
            r@ == Seq::<HistoryEntry>::empty(),
    {
        History { entries: Vec::new() }
    }

    /// The history that holds the runs of `entries`, oldest first.
    pub fn from_entries(entries: Vec<HistoryEntry>) -> (r: History)
        ensures
            r@ == entries@,
    {
        History { entries }
    }

    /// The runs, oldest first.
    pub fn entries(&self) -> (r: &[HistoryEntry])
        ensures
            r@ == self@,
    {
        self.entries.as_slice()
    }

    /// Adds a run behind the others.
    pub fn append(&mut self, entry: HistoryEntry)
        ensures
            final(self)@ == old(self)@.push(entry),
    {
        self.entries.push(entry);
    }

    /// The runs of the task `task_id`, oldest first.
    #[verifier::spinoff_prover]
    pub fn for_task(&self, task_id: u64) -> (r: Vec<&HistoryEntry>)
        ensures
            r@.map_values(|e: &HistoryEntry| *e) == self@.filter(
                |e: HistoryEntry| e.task_id == task_id,
            ),
    {
        let ghost wanted = |e: HistoryEntry| e.task_id == task_id;
        let mut out: Vec<&HistoryEntry> = Vec::new();
        let mut i: usize = 0;
        assert(self@.take(0).filter(wanted) =~= Seq::<HistoryEntry>::empty()) by {
            reveal(Seq::filter);
        }
        while i < self.entries.len()
            invariant
                i <= self.entries.len(),
                wanted == |e: HistoryEntry| e.task_id == task_id,
                out@.map_values(|e: &HistoryEntry| *e) == self@.take(i as int).filter(wanted),
            decreases self.entries.len() - i,
        {
            let ghost before = out@.map_values(|e: &HistoryEntry| *e);
            proof {
                assert(self@.take(i + 1).drop_last() == self@.take(i as int));
                reveal(Seq::filter);
            }
            if self.entries[i].task_id == task_id {
                out.push(&self.entries[i]);
                assert(out@.map_values(|e: &HistoryEntry| *e) =~= before.push(self@[i as int]));
            }
            i = i + 1;
        }
        assert(self@.take(self@.len() as int) == self@);
        out
    }

    /// The last run of the task `task_id`, if it has run.
    pub fn find_last_for(&self, task_id: u64) -> (r: Option<&HistoryEntry>)
        ensures
            match r {
                Some(entry) => exists|i: int|
                    0 <= i < self@.len() && #[trigger] self@[i] == *entry && entry.task_id
                        == task_id && forall|j: int|
                        i < j < self@.len() ==> (#[trigger] self@[j]).task_id != task_id,
                None => forall|j: int|
                    0 <= j < self@.len() ==> (#[trigger] self@[j]).task_id != task_id,
            },
    {
        let mut i: usize = self.entries.len();
        while i > 0
            invariant
                i <= self.entries.len(),
                forall|j: int| i <= j < self@.len() ==> (#[trigger] self@[j]).task_id != task_id,
            decreases i,
        {
            i = i - 1;
            if self.entries[i].task_id == task_id {
                return Some(&self.entries[i]);
            }
        }
        None
    }
}

} // verus!
