use vstd::prelude::*;
use crate::error::Error;
use crate::moment::Moment;
use crate::text::{
    chars_of, decimal_text, find_first, find_from, join, joined, push_decimal, read_number,
    small_number,
};

verus! {

/// Selector for the admissible values of one calendar field.
#[derive(Clone, Debug, PartialEq, Eq)]
pub enum Occurrences {
    /// The smallest value the field can take.
    First,
    /// Every value the field can take.
    Every,
    /// Exactly one value.
    Once(u8),
    /// Any of the listed values.
    Multiple(Vec<u8>),
}

/// A selector as a mathematical value.
pub enum OccurrencesView {
    First,
    Every,
    Once(u8),
    Multiple(Seq<u8>),
}

impl OccurrencesView {
    /// Whether the value `v` of a field whose smallest value is `lowest` is selected.
    pub open spec fn selects(self, v: int, lowest: int) -> bool {
        match self {
            OccurrencesView::First => v == lowest,
            OccurrencesView::Every => true,
            OccurrencesView::Once(x) => v == x as int,
            OccurrencesView::Multiple(xs) => exists|i: int|
                0 <= i < xs.len() && #[trigger] xs[i] as int == v,
        }
    }

    /// Every value that is named lies between `lowest` and `highest`, and a list names at
    /// least one value.
    pub open spec fn in_range(self, lowest: int, highest: int) -> bool {
        match self {
            OccurrencesView::First => true,
            OccurrencesView::Every => true,
            OccurrencesView::Once(x) => lowest <= x as int <= highest,
            OccurrencesView::Multiple(xs) => xs.len() > 0 && forall|i: int|
                0 <= i < xs.len() ==> lowest <= #[trigger] xs[i] as int <= highest,
        }
    }
}

/// The numbers below 256 that a text lists, separated by commas; none where the text is no
/// such list.
pub open spec fn list_of(s: Seq<char>) -> Option<Seq<u8>>
    decreases s.len(),
{
    let k = find_first(s, ',');
    match small_number(s.take(k)) {
        None => None,
        Some(v) => if 0 <= k < s.len() {
            match list_of(s.skip(k + 1)) {
                None => None,
                Some(rest) => Some(seq![v] + rest),
            }
        } else {
            Some(seq![v])
        },
    }
}

/// The selector that a text stands for: `*` for every value, a number for that value, numbers
/// separated by commas for these values.
pub open spec fn occurrences_of(s: Seq<char>) -> Option<OccurrencesView> {
    if s =~= seq!['*'] {
        Some(OccurrencesView::Every)
    } else {
        match list_of(s) {
            None => None,
            Some(values) => if values.len() == 1 {
                Some(OccurrencesView::Once(values[0]))
            } else {
                Some(OccurrencesView::Multiple(values))
            },
        }
    }
}

/// The text of a list of numbers: their decimal digits, separated by commas.
pub open spec fn list_text(values: Seq<u8>) -> Seq<char> {
    joined(values.map_values(|v: u8| decimal_text(v as int)), seq![','])
}

/// The text that stands for a selector; `First` has none.
pub open spec fn occurrences_text(o: OccurrencesView) -> Option<Seq<char>> {
    match o {
        OccurrencesView::First => None,
        OccurrencesView::Every => Some(seq!['*']),
        OccurrencesView::Once(v) => Some(decimal_text(v as int)),
        OccurrencesView::Multiple(values) => Some(list_text(values)),
    }
}

/// `Some(head + rest)` where there is a rest.
pub open spec fn prepended(head: Seq<u8>, rest: Option<Seq<u8>>) -> Option<Seq<u8>> {
    match rest {
        None => None,
        Some(values) => Some(head + values),
    }
}

/// Reads the characters of `chars` from `from` up to `until` as a selector.
#[verifier::spinoff_prover]
pub fn read_occurrences(chars: &[char], from: usize, until: usize) -> (r: Option<Occurrences>)
    requires
        from <= until <= chars@.len(),
    ensures
        match r {
            Some(o) => occurrences_of(chars@.subrange(from as int, until as int)) == Some(o@),
            None => occurrences_of(chars@.subrange(from as int, until as int)) is None,
        },
{
    let ghost text = chars@.subrange(from as int, until as int);
    if until - from == 1 && chars[from] == '*' {
        assert(text =~= seq!['*']);
        return Some(Occurrences::Every);
    }
    assert(!(text =~= seq!['*'])) by {
        if text =~= seq!['*'] {
            assert(text[0] == '*');
        }
    }
    let mut values: Vec<u8> = Vec::new();
    let mut pos = from;
    loop
        invariant
            from <= pos <= until <= chars@.len(),
            text == chars@.subrange(from as int, until as int),
            !(text =~= seq!['*']),
            list_of(text) == prepended(values@, list_of(chars@.subrange(pos as int, until as int))),
        decreases until - pos,
    {
        let ghost rest = chars@.subrange(pos as int, until as int);
        let end = find_from(chars, pos, until, ',');
        assert(rest.take(end - pos) == chars@.subrange(pos as int, end as int));
        match read_number(chars, pos, end) {
            None => {
                return None;
            },
            Some(v) => {
                if end == until {
                    values.push(v);
                    assert(list_of(text) == Some(values@));
                    if values.len() == 1 {
                        return Some(Occurrences::Once(values[0]));
                    } else {
                        return Some(Occurrences::Multiple(values));
                    }
                }
                assert(rest.skip(end - pos + 1) == chars@.subrange(end + 1, until as int));
                proof {
                    let after = list_of(chars@.subrange(end + 1, until as int));
                    if after is Some {
                        assert(values@ + (seq![v] + after.unwrap()) =~= values@.push(v)
                            + after.unwrap());
                    }
                }
                values.push(v);
                pos = end + 1;
            },
        }
    }
}

impl View for Occurrences {
    type V = OccurrencesView;

    open spec fn view(&self) -> OccurrencesView {
        match self {
            Occurrences::First => OccurrencesView::First,
            Occurrences::Every => OccurrencesView::Every,
            Occurrences::Once(x) => OccurrencesView::Once(*x),
            Occurrences::Multiple(xs) => OccurrencesView::Multiple(xs@),
        }
    }
}

impl Occurrences {
    /// Reads a selector: `*`, a number below 256, or such numbers separated by commas.
    pub fn parse(str: &str) -> (r: Result<Occurrences, Error>)
        ensures
            match r {
                Ok(o) => occurrences_of(str@) == Some(o@),
                Err(e) => e == Error::InvalidPattern && occurrences_of(str@) is None,
            },
    {
        let chars = chars_of(str);
        assert(chars@.subrange(0, chars@.len() as int) == str@);
        match read_occurrences(chars.as_slice(), 0, chars.len()) {
            Some(o) => Ok(o),
            None => Err(Error::InvalidPattern),
        }
    }

    /// Writes the selector as [`Occurrences::parse`] reads it. `First` is not written.
    pub fn encode(&self) -> (r: Option<String>)
        ensures
            match r {
                Some(text) => occurrences_text(self@) == Some(text@),
                None => occurrences_text(self@) is None,
            },
    {
        match self {
            Occurrences::First => None,
            Occurrences::Every => {
                proof {
                    reveal_strlit("*");
                }
                let text = String::from_str("*");
                assert(text@ =~= seq!['*']);
                Some(text)
            },
            Occurrences::Once(value) => {
                let mut text = String::new();
                push_decimal(&mut text, *value as u64);
                assert(text@ =~= decimal_text(*value as int));
                Some(text)
            },
            Occurrences::Multiple(values) => {
                let mut numbers: Vec<String> = Vec::new();
                let mut i: usize = 0;
                while i < values.len()
                    invariant
                        i <= values.len(),
                        numbers.len() == i,
                        forall|j: int|
                            0 <= j < i ==> (#[trigger] numbers@[j])@ == decimal_text(
                                values@[j] as int,
                            ),
                    decreases values.len() - i,
                {
                    let mut text = String::new();
                    push_decimal(&mut text, values[i] as u64);
                    assert(text@ =~= decimal_text(values@[i as int] as int));
                    numbers.push(text);
                    i = i + 1;
                }
                assert(numbers@.map_values(|p: String| p@) =~= values@.map_values(
                    |v: u8| decimal_text(v as int),
                ));
                proof {
                    reveal_strlit(",");
                    assert(","@ =~= seq![',']);
                }
                Some(join(&numbers, ","))
            },
        }
    }

    /// A copy of the selector.
    pub fn duplicate(&self) -> (r: Occurrences)
        ensures
            r@ == self@,
    {
        match self {
            Occurrences::First => Occurrences::First,
            Occurrences::Every => Occurrences::Every,
            Occurrences::Once(value) => Occurrences::Once(*value),
            Occurrences::Multiple(values) => {
                let mut copy: Vec<u8> = Vec::new();
                let mut i: usize = 0;
                while i < values.len()
                    invariant
                        i <= values.len(),
                        copy@ == values@.take(i as int),
                    decreases values.len() - i,
                {
                    copy.push(values[i]);
                    i = i + 1;
                    assert(copy@ =~= values@.take(i as int));
                }
                assert(values@.take(values.len() as int) == values@);
                Occurrences::Multiple(copy)
            },
        }
    }

    /// Tells whether every value that is named lies between `lowest` and `highest`, and a
    /// list names at least one value.
    pub fn is_in_range(&self, lowest: u8, highest: u8) -> (r: bool)
        ensures
            r == self@.in_range(lowest as int, highest as int),
    {
        match self {
            Occurrences::First => true,
            Occurrences::Every => true,
            Occurrences::Once(x) => lowest <= *x && *x <= highest,
            Occurrences::Multiple(xs) => {
                if xs.len() == 0 {
                    return false;
                }
                let mut i: usize = 0;
                while i < xs.len()
                    invariant
                        i <= xs.len(),
                        xs.len() > 0,
                        self@ == OccurrencesView::Multiple(xs@),
                        forall|j: int| 0 <= j < i ==> lowest <= #[trigger] xs@[j] <= highest,
                    decreases xs.len() - i,
                {
                    if !(lowest <= xs[i] && xs[i] <= highest) {
                        assert(!(lowest <= xs@[i as int] <= highest));
                        return false;
                    }
                    i = i + 1;
                }
                true
            },
        }
    }

    /// Tells whether the two selectors are the same value.
    pub fn same_as(&self, other: &Occurrences) -> (r: bool)
        ensures
            r == (self@ == other@),
    {
        match (self, other) {
            (Occurrences::First, Occurrences::First) => true,
            (Occurrences::Every, Occurrences::Every) => true,
            (Occurrences::Once(a), Occurrences::Once(b)) => *a == *b,
            (Occurrences::Multiple(a), Occurrences::Multiple(b)) => {
                if a.len() != b.len() {
                    return false;
                }
                let mut i: usize = 0;
                while i < a.len()
                    invariant
                        i <= a.len(),
                        a.len() == b.len(),
                        self@ == OccurrencesView::Multiple(a@),
                        other@ == OccurrencesView::Multiple(b@),
                        forall|j: int| 0 <= j < i ==> a@[j] == b@[j],
                    decreases a.len() - i,
                {
                    if a[i] != b[i] {
                        assert(a@[i as int] != b@[i as int]);
                        return false;
                    }
                    i = i + 1;
                }
                assert(a@ =~= b@);
                true
            },
            _ => false,
        }
    }
}

/// A recurrence: one selector for each of the five calendar fields.
#[derive(Clone, Debug, PartialEq, Eq)]
pub struct At {
    pub hours: Occurrences,
    pub minutes: Occurrences,
    pub seconds: Occurrences,
    pub days: Occurrences,
    pub months: Occurrences,
}

/// A recurrence as a mathematical value.
pub struct AtView {
    pub months: OccurrencesView,
    pub days: OccurrencesView,
    pub hours: OccurrencesView,
    pub minutes: OccurrencesView,
    pub seconds: OccurrencesView,
}

impl AtView {
    /// The range invariants: months within 1 to 12, days within 1 to 31, hours within 0 to
    /// 23, minutes and seconds within 0 to 59.
    pub open spec fn wf(self) -> bool {
        &&& self.months.in_range(1, 12)
        &&& self.days.in_range(1, 31)
        &&& self.hours.in_range(0, 23)
        &&& self.minutes.in_range(0, 59)
        &&& self.seconds.in_range(0, 59)
    }

    /// Whether the moment `m` agrees with the recurrence field by field.
    pub open spec fn matches(self, m: Moment) -> bool {
        &&& self.months.selects(m.month as int, 1)
        &&& self.days.selects(m.day as int, 1)
        &&& self.hours.selects(m.hour as int, 0)
        &&& self.minutes.selects(m.minute as int, 0)
        &&& self.seconds.selects(m.second as int, 0)
    }
}

/// The letter that names a field in a pattern: months, days, hours, minutes, seconds, from 0 to
/// 4.
pub open spec fn key_char(k: int) -> char {
    if k == 0 {
        'M'
    } else if k == 1 {
        'D'
    } else if k == 2 {
        'h'
    } else if k == 3 {
        'm'
    } else {
        's'
    }
}

/// The selector that a word of a pattern gives to the field `k`, where the word is the
/// field's letter, `=` and the text of a selector.
pub open spec fn word_value(word: Seq<char>, k: int) -> Option<OccurrencesView> {
    if word.len() >= 2 && word[0] == key_char(k) && word[1] == '=' {
        occurrences_of(word.skip(2))
    } else {
        None
    }
}

/// What is left of a text after its first word: the text behind the first space, if there
/// is one.
pub open spec fn after_word(text: Seq<char>) -> Option<Seq<char>> {
    let end = find_first(text, ' ');
    if 0 <= end < text.len() {
        Some(text.skip(end + 1))
    } else {
        None
    }
}

/// Reading the word of the field `k` off `rest`, the input that is left: the selector that
/// the first word gives to the field, if it is a word of that field, and the input that is
/// left then.
pub open spec fn field_step(rest: Option<Seq<char>>, k: int) -> (
    Option<OccurrencesView>,
    Option<Seq<char>>,
) {
    match rest {
        None => (None, None),
        Some(text) => {
            let value = word_value(text.take(find_first(text, ' ')), k);
            if value is Some {
                (value, after_word(text))
            } else {
                (None, rest)
            }
        },
    }
}

/// The selectors that a pattern gives to the fields that it names.
pub struct Named {
    pub months: Option<OccurrencesView>,
    pub days: Option<OccurrencesView>,
    pub hours: Option<OccurrencesView>,
    pub minutes: Option<OccurrencesView>,
    pub seconds: Option<OccurrencesView>,
}

/// The selectors that the words of `body` give to the five fields, each word naming a later
/// field than the word before it; none where a word is left that names no such field.
pub open spec fn fields_of(body: Seq<char>) -> Option<Named> {
    let months = field_step(Some(body), 0);
    let days = field_step(months.1, 1);
    let hours = field_step(days.1, 2);
    let minutes = field_step(hours.1, 3);
    let seconds = field_step(minutes.1, 4);
    if seconds.1 is None {
        Some(
            Named {
                months: months.0,
                days: days.0,
                hours: hours.0,
                minutes: minutes.0,
                seconds: seconds.0,
            },
        )
    } else {
        None
    }
}

/// The selector of a field that a pattern does not name: the first value where a coarser
/// field is named, every value otherwise.
pub open spec fn unnamed(coarser_named: bool) -> OccurrencesView {
    if coarser_named {
        OccurrencesView::First
    } else {
        OccurrencesView::Every
    }
}

/// The recurrence that the selectors of the named fields give.
pub open spec fn with_defaults(fields: Named) -> AtView {
    AtView {
        months: if fields.months is Some {
            fields.months.unwrap()
        } else {
            OccurrencesView::Every
        },
        days: if fields.days is Some {
            fields.days.unwrap()
        } else {
            unnamed(fields.months is Some)
        },
        hours: if fields.hours is Some {
            fields.hours.unwrap()
        } else {
            unnamed(fields.months is Some || fields.days is Some)
        },
        minutes: if fields.minutes is Some {
            fields.minutes.unwrap()
        } else {
            unnamed(fields.months is Some || fields.days is Some || fields.hours is Some)
        },
        seconds: if fields.seconds is Some {
            fields.seconds.unwrap()
        } else {
            unnamed(
                fields.months is Some || fields.days is Some || fields.hours is Some
                    || fields.minutes is Some,
            )
        },
    }
}

/// The recurrence that a pattern stands for. A pattern is a row of words, one space between
/// each two and at most one before the first; each word names a field and its selector, the
/// fields in the order months, days, hours, minutes, seconds; at least one field is named,
/// and every value lies in the range of its field.
pub open spec fn at_of(s: Seq<char>) -> Option<AtView> {
    let body = if s.len() > 0 && s[0] == ' ' {
        s.skip(1)
    } else {
        s
    };
    match fields_of(body) {
        None => None,
        Some(fields) => {
            let named = fields.months is Some || fields.days is Some || fields.hours is Some
                || fields.minutes is Some || fields.seconds is Some;
            if named && with_defaults(fields).wf() {
                Some(with_defaults(fields))
            } else {
                None
            }
        },
    }
}

/// The word of a field in the canonical pattern: the field's letter, `=` and the text of its
/// selector. A field whose selector is `First` has no word.
pub open spec fn field_words(o: OccurrencesView, k: int) -> Seq<Seq<char>> {
    match occurrences_text(o) {
        Some(text) => seq![seq![key_char(k), '='] + text],
        None => Seq::empty(),
    }
}

/// The words of the canonical pattern of a recurrence: those of its fields, from the months
/// to the seconds.
pub open spec fn words_of(at: AtView) -> Seq<Seq<char>> {
    field_words(at.months, 0) + field_words(at.days, 1) + field_words(at.hours, 2) + field_words(
        at.minutes,
        3,
    ) + field_words(at.seconds, 4)
}

/// The canonical pattern of a recurrence.
pub open spec fn pattern_of(at: AtView) -> Seq<char> {
    joined(words_of(at), seq![' '])
}

/// Reads, where input is left, the word at `pos` as the word of the field `k`. Gives the
/// field's selector if the word is one, the place behind the word, and whether input is left
/// there.
#[verifier::spinoff_prover]
fn take_field(chars: &[char], pos: usize, more: bool, key: char, Ghost(k): Ghost<int>) -> (r: (
    Option<Occurrences>,
    usize,
    bool,
))
    requires
        pos <= chars@.len(),
        0 <= k < 5,
        key == key_char(k),
    ensures
        r.1 <= chars@.len(),
        field_step(
            if more {
                Some(chars@.skip(pos as int))
            } else {
                None
            },
            k,
        ) == (
            option_view(r.0),
            if r.2 {
                Some(chars@.skip(r.1 as int))
            } else {
                None
            },
        ),
{
    if !more {
        return (None, pos, false);
    }
    let ghost text = chars@.skip(pos as int);
    let end = find_from(chars, pos, chars.len(), ' ');
    assert(chars@.subrange(pos as int, chars@.len() as int) == text);
    assert(text.take(end - pos) == chars@.subrange(pos as int, end as int));
    if end - pos >= 2 && chars[pos] == key && chars[pos + 1] == '=' {
        assert(text.take(end - pos).skip(2) == chars@.subrange(pos + 2, end as int));
        match read_occurrences(chars, pos + 2, end) {
            Some(o) => {
                if end < chars.len() {
                    assert(text.skip(end - pos + 1) == chars@.skip(end + 1));
                    (Some(o), end + 1, true)
                } else {
                    (Some(o), end, false)
                }
            },
            None => (None, pos, true),
        }
    } else {
        (None, pos, true)
    }
}

impl View for At {
    type V = AtView;

    open spec fn view(&self) -> AtView {
        AtView {
            months: self.months@,
            days: self.days@,
            hours: self.hours@,
            minutes: self.minutes@,
            seconds: self.seconds@,
        }
    }
}

impl At {
    /// Reads a pattern such as `D=1,15 h=6`: see [`at_of`].
    pub fn parse(at: &str) -> (r: Result<At, Error>)
        ensures
            match r {
                Ok(a) => at_of(at@) == Some(a@),
                Err(e) => e == Error::InvalidPattern && at_of(at@) is None,
            },
    {
        let chars = chars_of(at);
        let all = chars.as_slice();
        let start: usize = if all.len() > 0 && all[0] == ' ' {
            1
        } else {
            0
        };
        assert(all@.skip(0) == all@);
        match read_fields(all, start) {
            None => Err(Error::InvalidPattern),
            Some(fields) => match assemble(fields) {
                None => Err(Error::InvalidPattern),
                Some(result) => Ok(result),
            },
        }
    }

    /// Writes the canonical pattern of the recurrence: see [`words_of`].
    pub fn encode(&self) -> (r: String)
        ensures
            r@ == pattern_of(self@),
    {
        let mut out: Vec<String> = Vec::new();
        proof {
            reveal_strlit("M=");
            reveal_strlit("D=");
            reveal_strlit("h=");
            reveal_strlit("m=");
            reveal_strlit("s=");
            assert("M="@ =~= seq![key_char(0), '=']);
            assert("D="@ =~= seq![key_char(1), '=']);
            assert("h="@ =~= seq![key_char(2), '=']);
            assert("m="@ =~= seq![key_char(3), '=']);
            assert("s="@ =~= seq![key_char(4), '=']);
        }
        push_word(&mut out, &self.months, "M=", Ghost(0));
        push_word(&mut out, &self.days, "D=", Ghost(1));
        push_word(&mut out, &self.hours, "h=", Ghost(2));
        push_word(&mut out, &self.minutes, "m=", Ghost(3));
        push_word(&mut out, &self.seconds, "s=", Ghost(4));
        assert(out@.map_values(|p: String| p@) =~= words_of(self@));
        proof {
            reveal_strlit(" ");
            assert(" "@ =~= seq![' ']);
        }
        join(&out, " ")
    }

    /// The upcoming moment of the recurrence after `now`.
    pub fn next_occurrence(&self, now: Moment) -> (r: Result<Moment, Error>)
        requires
            now.valid(),
            self@.wf(),
        ensures
            crate::upcoming::upcoming(self@, now, r),
    {
        crate::upcoming::get_upcoming_moment(now, self)
    }

    /// A copy of the recurrence.
    pub fn duplicate(&self) -> (r: At)
        ensures
            r@ == self@,
    {
        At {
            hours: self.hours.duplicate(),
            minutes: self.minutes.duplicate(),
            seconds: self.seconds.duplicate(),
            days: self.days.duplicate(),
            months: self.months.duplicate(),
        }
    }

    /// Tells whether the range invariants hold.
    pub fn is_valid(&self) -> (r: bool)
        ensures
            r == self@.wf(),
    {
        self.months.is_in_range(1, 12) && self.days.is_in_range(1, 31) && self.hours.is_in_range(
            0,
            23,
        ) && self.minutes.is_in_range(0, 59) && self.seconds.is_in_range(0, 59)
    }

    /// Tells whether the two recurrences are the same value.
    pub fn same_as(&self, other: &At) -> (r: bool)
        ensures
            r == (self@ == other@),
    {
        self.months.same_as(&other.months) && self.days.same_as(&other.days)
            && self.hours.same_as(&other.hours) && self.minutes.same_as(&other.minutes)
            && self.seconds.same_as(&other.seconds)
    }
}

/// The selectors that were read for the fields that a pattern names.
struct Fields {
    months: Option<Occurrences>,
    days: Option<Occurrences>,
    hours: Option<Occurrences>,
    minutes: Option<Occurrences>,
    seconds: Option<Occurrences>,
}

impl View for Fields {
    type V = Named;

    closed spec fn view(&self) -> Named {
        Named {
            months: option_view(self.months),
            days: option_view(self.days),
            hours: option_view(self.hours),
            minutes: option_view(self.minutes),
            seconds: option_view(self.seconds),
        }
    }
}

/// Reads the words of a pattern from `start` on.
#[verifier::spinoff_prover]
fn read_fields(all: &[char], start: usize) -> (r: Option<Fields>)
    requires
        start <= all@.len(),
    ensures
        match r {
            Some(fields) => fields_of(all@.skip(start as int)) == Some(fields@),
            None => fields_of(all@.skip(start as int)) is None,
        },
{
    let (months, pos, more) = take_field(all, start, true, 'M', Ghost(0));
    let (days, pos, more) = take_field(all, pos, more, 'D', Ghost(1));
    let (hours, pos, more) = take_field(all, pos, more, 'h', Ghost(2));
    let (minutes, pos, more) = take_field(all, pos, more, 'm', Ghost(3));
    let (seconds, pos, more) = take_field(all, pos, more, 's', Ghost(4));
    if more {
        None
    } else {
        Some(Fields { months, days, hours, minutes, seconds })
    }
}

/// Gives the unnamed fields their selectors and holds the named ones to their ranges.
#[verifier::spinoff_prover]
fn assemble(fields: Fields) -> (r: Option<At>)
    ensures
        match r {
            Some(at) => at@ == with_defaults(fields@) && at@.wf() && (fields@.months is Some
                || fields@.days is Some || fields@.hours is Some || fields@.minutes is Some
                || fields@.seconds is Some),
            None => !with_defaults(fields@).wf() || !(fields@.months is Some || fields@.days is Some
                || fields@.hours is Some || fields@.minutes is Some || fields@.seconds is Some),
        },
{
    let named_months = fields.months.is_some();
    let named_days = named_months || fields.days.is_some();
    let named_hours = named_days || fields.hours.is_some();
    let named_minutes = named_hours || fields.minutes.is_some();
    if !named_minutes && fields.seconds.is_none() {
        return None;
    }
    let ghost named = fields@;
    let result = At {
        months: match fields.months {
            Some(o) => o,
            None => Occurrences::Every,
        },
        days: match fields.days {
            Some(o) => o,
            None => default_for(named_months),
        },
        hours: match fields.hours {
            Some(o) => o,
            None => default_for(named_days),
        },
        minutes: match fields.minutes {
            Some(o) => o,
            None => default_for(named_hours),
        },
        seconds: match fields.seconds {
            Some(o) => o,
            None => default_for(named_minutes),
        },
    };
    assert(result@ == with_defaults(named));
    if result.is_valid() {
        Some(result)
    } else {
        None
    }
}

/// The selector of a field that a pattern does not name.
fn default_for(coarser_named: bool) -> (r: Occurrences)
    ensures
        r@ == unnamed(coarser_named),
{
    if coarser_named {
        Occurrences::First
    } else {
        Occurrences::Every
    }
}

/// The selector that was read, as a mathematical value.
pub open spec fn option_view(o: Option<Occurrences>) -> Option<OccurrencesView> {
    match o {
        Some(value) => Some(value@),
        None => None,
    }
}

/// Appends the word of a field to the words of a pattern, unless the field's selector is
/// `First`.
fn push_word(out: &mut Vec<String>, o: &Occurrences, key: &str, Ghost(k): Ghost<int>)
    requires
        key@ == seq![key_char(k), '='],
    ensures
        final(out)@.map_values(|p: String| p@) == old(out)@.map_values(|p: String| p@)
            + field_words(o@, k),
{
    match o.encode() {
        Some(text) => {
            let mut word = String::from_str(key);
            word.append(text.as_str());
            out.push(word);
            assert(final(out)@.map_values(|p: String| p@) =~= old(out)@.map_values(|p: String| p@)
                + field_words(o@, k));
        },
        None => {
            assert(final(out)@.map_values(|p: String| p@) =~= old(out)@.map_values(|p: String| p@)
                + field_words(o@, k));
        },
    }
}

} // verus!
