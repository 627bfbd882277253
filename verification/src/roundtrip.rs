use vstd::prelude::*;
use crate::at::{
    at_of, field_step, field_words, fields_of, key_char, list_of, list_text,
    occurrences_of, occurrences_text, pattern_of, with_defaults, word_value, words_of, AtView,
    Named, OccurrencesView,
};
use crate::text::{
    decimal_text, find_first, is_digit, joined, lemma_decimal_round_trip,
    lemma_decimal_text_is_number, lemma_find_first_is,
};

verus! {

/// The recurrences that patterns stand for: the ranges hold, the months are not `First`, and
/// every list names at least two values.
pub open spec fn canonical(at: AtView) -> bool {
    &&& at.wf()
    &&& at.months != OccurrencesView::First
    &&& listed_twice(at.months)
    &&& listed_twice(at.days)
    &&& listed_twice(at.hours)
    &&& listed_twice(at.minutes)
    &&& listed_twice(at.seconds)
}

/// A list names at least two values.
pub open spec fn listed_twice(o: OccurrencesView) -> bool {
    o matches OccurrencesView::Multiple(values) ==> values.len() >= 2
}

/// A text without spaces.
pub open spec fn spaceless(s: Seq<char>) -> bool {
    forall|i: int| 0 <= i < s.len() ==> #[trigger] s[i] != ' '
}

/// The text of a list is made of digits and commas, and begins with a digit.
proof fn lemma_list_text_shape(values: Seq<u8>)
    requires
        values.len() >= 1,
    ensures
        list_text(values).len() >= 1,
        is_digit(list_text(values)[0]),
        forall|i: int|
            0 <= i < list_text(values).len() ==> is_digit(#[trigger] list_text(values)[i])
                || list_text(values)[i] == ',',
    decreases values.len(),
{
    let texts = values.map_values(|v: u8| decimal_text(v as int));
    lemma_decimal_text_is_number(values[0] as int);
    if values.len() > 1 {
        let rest = values.skip(1);
        assert(texts.skip(1) =~= rest.map_values(|v: u8| decimal_text(v as int)));
        lemma_list_text_shape(rest);
        assert(list_text(values) =~= decimal_text(values[0] as int) + seq![','] + list_text(rest));
    }
}

/// What was written of a list is read as that list.
#[verifier::spinoff_prover]
proof fn lemma_list_round_trip(values: Seq<u8>)
    requires
        values.len() >= 1,
    ensures
        list_of(list_text(values)) == Some(values),
    decreases values.len(),
{
    let texts = values.map_values(|v: u8| decimal_text(v as int));
    let head = decimal_text(values[0] as int);
    let text = list_text(values);
    lemma_decimal_text_is_number(values[0] as int);
    lemma_decimal_round_trip(values[0] as int);
    if values.len() == 1 {
        assert(text == head);
        lemma_find_first_is(text, ',', text.len() as int);
        assert(text.take(text.len() as int) == text);
        assert(seq![values[0]] =~= values);
    } else {
        let rest = values.skip(1);
        assert(texts.skip(1) =~= rest.map_values(|v: u8| decimal_text(v as int)));
        assert(text =~= head + seq![','] + list_text(rest));
        lemma_find_first_is(text, ',', head.len() as int);
        assert(text.take(head.len() as int) =~= head);
        assert(text.skip(head.len() as int + 1) =~= list_text(rest));
        lemma_list_round_trip(rest);
        assert(seq![values[0]] + rest =~= values);
    }
}

/// What was written of a selector is read as that selector, and holds no space.
#[verifier::spinoff_prover]
pub proof fn lemma_occurrences_round_trip(o: OccurrencesView)
    requires
        o != OccurrencesView::First,
        listed_twice(o),
    ensures
        occurrences_text(o) is Some,
        occurrences_of(occurrences_text(o).unwrap()) == Some(o),
        spaceless(occurrences_text(o).unwrap()),
{
    let text = occurrences_text(o).unwrap();
    match o {
        OccurrencesView::First => {},
        OccurrencesView::Every => {},
        OccurrencesView::Once(v) => {
            lemma_decimal_text_is_number(v as int);
            lemma_decimal_round_trip(v as int);
            lemma_find_first_is(text, ',', text.len() as int);
            assert(text.take(text.len() as int) == text);
            assert(is_digit(text[0]));
            assert(!(text =~= seq!['*'])) by {
                if text =~= seq!['*'] {
                    assert(text[0] == '*');
                }
            }
        },
        OccurrencesView::Multiple(values) => {
            lemma_list_text_shape(values);
            lemma_list_round_trip(values);
            assert(!(text =~= seq!['*'])) by {
                if text =~= seq!['*'] {
                    assert(text[0] == '*');
                }
            }
        },
    }
}

/// The input that is left when the fields before `k` are read off the canonical pattern: the
/// words of the fields from `k` on, if there are any.
pub open spec fn left_from(at: AtView, k: int) -> Option<Seq<char>> {
    let words = words_from(at, k);
    if words.len() == 0 {
        None
    } else {
        Some(joined(words, seq![' ']))
    }
}

/// The words of the fields from `k` on.
pub open spec fn words_from(at: AtView, k: int) -> Seq<Seq<char>>
    decreases 5 - k,
{
    if k >= 5 {
        Seq::empty()
    } else {
        field_words(field(at, k), k) + words_from(at, k + 1)
    }
}

/// The selector of the field `k`.
pub open spec fn field(at: AtView, k: int) -> OccurrencesView {
    if k == 0 {
        at.months
    } else if k == 1 {
        at.days
    } else if k == 2 {
        at.hours
    } else if k == 3 {
        at.minutes
    } else {
        at.seconds
    }
}

/// The selector that the canonical pattern names for the field `k`: none for `First`.
pub open spec fn named_field(at: AtView, k: int) -> Option<OccurrencesView> {
    if field(at, k) == OccurrencesView::First {
        None
    } else {
        Some(field(at, k))
    }
}

/// Every word of the fields from `k` on begins with the letter of one of these fields, and
/// holds no space.
#[verifier::spinoff_prover]
proof fn lemma_words_shape(at: AtView, k: int)
    requires
        0 <= k <= 5,
        canonical(at),
    ensures
        forall|i: int|
            0 <= i < words_from(at, k).len() ==> spaceless(#[trigger] words_from(at, k)[i])
                && words_from(at, k)[i].len() >= 2 && exists|j: int|
                k <= j < 5 && words_from(at, k)[i][0] == key_char(j),
    decreases 5 - k,
{
    if k < 5 {
        lemma_words_shape(at, k + 1);
        let own = field_words(field(at, k), k);
        let later = words_from(at, k + 1);
        if field(at, k) != OccurrencesView::First {
            lemma_occurrences_round_trip(field(at, k));
        }
        assert forall|i: int| 0 <= i < words_from(at, k).len() implies spaceless(
            #[trigger] words_from(at, k)[i],
        ) && words_from(at, k)[i].len() >= 2 && exists|j: int|
            k <= j < 5 && words_from(at, k)[i][0] == key_char(j) by {
            let word = words_from(at, k)[i];
            if i < own.len() {
                assert(word == own[0]);
                assert(word[0] == key_char(k));
                assert(forall|x: int| 2 <= x < word.len() ==> word[x] == occurrences_text(
                    field(at, k),
                ).unwrap()[x - 2]);
            } else {
                assert(word == later[i - own.len()]);
                let j = choose|j: int| k + 1 <= j < 5 && later[i - own.len()][0] == key_char(j);
                assert(k <= j < 5 && word[0] == key_char(j));
            }
        }
    }
}

/// Reading the field `k` off what is left of the canonical pattern gives the selector that
/// the pattern names for the field, and leaves the words of the later fields.
#[verifier::spinoff_prover]
proof fn lemma_field_step(at: AtView, k: int)
    requires
        0 <= k < 5,
        canonical(at),
    ensures
        field_step(left_from(at, k), k) == (named_field(at, k), left_from(at, k + 1)),
{
    let own = field_words(field(at, k), k);
    let later = words_from(at, k + 1);
    let words = words_from(at, k);
    let space = seq![' '];
    lemma_words_shape(at, k);
    lemma_words_shape(at, k + 1);
    if words.len() > 0 {
        let text = joined(words, space);
        let first = words[0];
        if words.len() == 1 {
            assert(text == first);
            lemma_find_first_is(text, ' ', first.len() as int);
            assert(text.take(first.len() as int) == first);
        } else {
            assert(text =~= first + space + joined(words.skip(1), space));
            lemma_find_first_is(text, ' ', first.len() as int);
            assert(text.take(first.len() as int) =~= first);
            assert(text.skip(first.len() as int + 1) =~= joined(words.skip(1), space));
        }
        if field(at, k) != OccurrencesView::First {
            lemma_occurrences_round_trip(field(at, k));
            assert(first == own[0]);
            assert(first.skip(2) =~= occurrences_text(field(at, k)).unwrap());
            assert(words.skip(1) =~= later);
            assert(word_value(first, k) == Some(field(at, k)));
        } else {
            assert(words =~= later);
            let j = choose|j: int| k + 1 <= j < 5 && later[0][0] == key_char(j);
            assert(first[0] != key_char(k));
        }
    } else {
        assert(later =~= words);
    }
}

/// Reading the canonical pattern of a recurrence gives the recurrence.
#[verifier::spinoff_prover]
pub proof fn lemma_parse_of_encode(at: AtView)
    requires
        canonical(at),
    ensures
        at_of(pattern_of(at)) == Some(at),
{
    reveal_with_fuel(words_from, 6);
    assert(words_from(at, 0) =~= words_of(at));
    let text = pattern_of(at);
    lemma_words_shape(at, 0);
    lemma_occurrences_round_trip(at.months);
    assert(words_of(at).len() > 0);
    assert(words_of(at)[0][0] == 'M');
    assert(text[0] == 'M') by {
        if words_of(at).len() > 1 {
            assert(text =~= words_of(at)[0] + seq![' '] + joined(words_of(at).skip(1), seq![' ']));
        }
    }
    lemma_field_step(at, 0);
    lemma_field_step(at, 1);
    lemma_field_step(at, 2);
    lemma_field_step(at, 3);
    lemma_field_step(at, 4);
    assert(left_from(at, 0) == Some(text));
    assert(left_from(at, 5) is None);
    let named = Named {
        months: named_field(at, 0),
        days: named_field(at, 1),
        hours: named_field(at, 2),
        minutes: named_field(at, 3),
        seconds: named_field(at, 4),
    };
    assert(fields_of(text) == Some(named));
    assert(with_defaults(named) == at);
}

/// What a pattern stands for is a canonical recurrence; so writing what was read, and reading
/// that again, gives the same recurrence, and the same canonical pattern.
#[verifier::spinoff_prover]
pub proof fn lemma_encode_of_parse(s: Seq<char>)
    requires
        at_of(s) is Some,
    ensures
        canonical(at_of(s).unwrap()),
        at_of(pattern_of(at_of(s).unwrap())) == at_of(s),
        pattern_of(at_of(pattern_of(at_of(s).unwrap())).unwrap()) == pattern_of(at_of(s).unwrap()),
{
    let body = if s.len() > 0 && s[0] == ' ' {
        s.skip(1)
    } else {
        s
    };
    let fields = fields_of(body).unwrap();
    lemma_read_is_listed(field_step(Some(body), 0), Some(body), 0);
    let r0 = field_step(Some(body), 0).1;
    lemma_read_is_listed(field_step(r0, 1), r0, 1);
    let r1 = field_step(r0, 1).1;
    lemma_read_is_listed(field_step(r1, 2), r1, 2);
    let r2 = field_step(r1, 2).1;
    lemma_read_is_listed(field_step(r2, 3), r2, 3);
    let r3 = field_step(r2, 3).1;
    lemma_read_is_listed(field_step(r3, 4), r3, 4);
    lemma_parse_of_encode(at_of(s).unwrap());
}

/// A selector that was read is not `First`, and a list that was read names two values at
/// least.
proof fn lemma_read_is_listed(
    step: (Option<OccurrencesView>, Option<Seq<char>>),
    rest: Option<Seq<char>>,
    k: int,
)
    requires
        step == field_step(rest, k),
    ensures
        step.0 matches Some(o) ==> o != OccurrencesView::First && listed_twice(o),
{
    if rest is Some && step.0 is Some {
        let text = rest.unwrap();
        let word = text.take(find_first(text, ' '));
        let list = list_of(word.skip(2));
        if list is Some {
            assert(list.unwrap().len() >= 1);
        }
    }
}

} // verus!
