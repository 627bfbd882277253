use vstd::prelude::*;

verus! {

/// The ten decimal digits.
pub open spec fn is_digit(c: char) -> bool {
    '0' <= c && c <= '9'
}

/// The number that a decimal digit stands for.
pub open spec fn digit_of(c: char) -> int {
    c as int - 48
}

/// The decimal digit that stands for a number below ten.
pub open spec fn digit_char(d: int) -> char {
    (d + 48) as char
}

/// A text of decimal digits, at least one.
pub open spec fn is_number(s: Seq<char>) -> bool {
    s.len() > 0 && forall|i: int| 0 <= i < s.len() ==> is_digit(#[trigger] s[i])
}

/// The number that a text of decimal digits stands for.
pub open spec fn decimal_value(s: Seq<char>) -> int
    decreases s.len(),
{
    if s.len() == 0 {
        0
    } else {
        decimal_value(s.drop_last()) * 10 + digit_of(s.last())
    }
}

/// The decimal digits of a number, without leading zeros.
pub open spec fn decimal_text(n: int) -> Seq<char>
    decreases n,
{
    if n < 10 {
        seq![digit_char(n)]
    } else {
        decimal_text(n / 10).push(digit_char(n % 10))
    }
}

/// The number below 256 that a text of decimal digits stands for, if it is such a text.
pub open spec fn small_number(s: Seq<char>) -> Option<u8> {
    if is_number(s) && decimal_value(s) <= 255 {
        Some(decimal_value(s) as u8)
    } else {
        None
    }
}

/// Place of the first `c` in `s`; the length of `s` where it has none.
pub open spec fn find_first(s: Seq<char>, c: char) -> int
    decreases s.len(),
{
    if s.len() == 0 || s[0] == c {
        0
    } else {
        1 + find_first(s.skip(1), c)
    }
}

/// The texts of `parts` in a row, with `sep` between each two.
pub open spec fn joined(parts: Seq<Seq<char>>, sep: Seq<char>) -> Seq<char>
    decreases parts.len(),
{
    if parts.len() == 0 {
        Seq::empty()
    } else if parts.len() == 1 {
        parts[0]
    } else {
        parts[0] + sep + joined(parts.skip(1), sep)
    }
}

/// The place that `find_first` gives holds the first `c`, or is the end.
pub proof fn lemma_find_first(s: Seq<char>, c: char)
    ensures
        0 <= find_first(s, c) <= s.len(),
        find_first(s, c) < s.len() ==> s[find_first(s, c)] == c,
        forall|i: int| 0 <= i < find_first(s, c) ==> s[i] != c,
    decreases s.len(),
{
    if s.len() == 0 || s[0] == c {
    } else {
        lemma_find_first(s.skip(1), c);
        assert forall|i: int| 0 <= i < find_first(s, c) implies s[i] != c by {
            if i > 0 {
                assert(s.skip(1)[i - 1] == s[i]);
            }
        }
    }
}

/// A place that holds `c`, or the end, with no `c` before it, is what `find_first` gives.
pub proof fn lemma_find_first_is(s: Seq<char>, c: char, k: int)
    requires
        0 <= k <= s.len(),
        k < s.len() ==> s[k] == c,
        forall|i: int| 0 <= i < k ==> s[i] != c,
    ensures
        find_first(s, c) == k,
{
    lemma_find_first(s, c);
}

/// A number read digit by digit grows with each digit.
pub proof fn lemma_decimal_value_grows(s: Seq<char>, k: int)
    requires
        is_number(s),
        0 <= k <= s.len(),
    ensures
        0 <= decimal_value(s.take(k)) <= decimal_value(s),
    decreases s.len() - k,
{
    lemma_decimal_value_nonnegative(s.take(k));
    if k < s.len() {
        lemma_decimal_value_grows(s, k + 1);
        assert(s.take(k + 1).drop_last() == s.take(k));
    } else {
        assert(s.take(k) == s);
    }
}

/// A text of digits stands for no negative number.
pub proof fn lemma_decimal_value_nonnegative(s: Seq<char>)
    requires
        forall|i: int| 0 <= i < s.len() ==> is_digit(#[trigger] s[i]),
    ensures
        0 <= decimal_value(s),
    decreases s.len(),
{
    if s.len() > 0 {
        lemma_decimal_value_nonnegative(s.drop_last());
    }
}

/// The characters of a string, one by one.
pub fn chars_of(s: &str) -> (r: Vec<char>)
    ensures
        r@ == s@,
{
    let mut out: Vec<char> = Vec::new();
    for c in it: s.chars()
        invariant
            out@ == s@.take(it.index() as int),
            it.seq() == s@,
    {
        out.push(c);
    }
    out
}

/// Place of the first `c` in `chars` from `from` up to `until`; `until` where none is there.
pub fn find_from(chars: &[char], from: usize, until: usize, c: char) -> (r: usize)
    requires
        from <= until <= chars@.len(),
    ensures
        from <= r <= until,
        r == from + find_first(chars@.subrange(from as int, until as int), c),
{
    let mut i = from;
    while i < until && chars[i] != c
        invariant
            from <= i <= until <= chars@.len(),
            forall|j: int| from <= j < i ==> chars@[j] != c,
        decreases until - i,
    {
        i = i + 1;
    }
    proof {
        lemma_find_first_is(chars@.subrange(from as int, until as int), c, i - from);
    }
    i
}

/// Reads the characters of `chars` from `from` up to `until` as a number below 256.
#[verifier::spinoff_prover]
pub fn read_number(chars: &[char], from: usize, until: usize) -> (r: Option<u8>)
    requires
        from <= until <= chars@.len(),
    ensures
        r == small_number(chars@.subrange(from as int, until as int)),
{
    let ghost text = chars@.subrange(from as int, until as int);
    if from == until {
        return None;
    }
    let mut value: u32 = 0;
    let mut i = from;
    while i < until
        invariant
            from <= i <= until <= chars@.len(),
            text == chars@.subrange(from as int, until as int),
            forall|j: int| 0 <= j < i - from ==> is_digit(#[trigger] text[j]),
            value == decimal_value(text.take(i - from)),
            value <= 255,
        decreases until - i,
    {
        let c = chars[i];
        if !('0' <= c && c <= '9') {
            assert(!is_digit(text[i - from]));
            return None;
        }
        let digit = c as u32 - 48;
        let next = value * 10 + digit;
        proof {
            assert(text.take(i - from + 1).drop_last() == text.take(i - from));
            assert(decimal_value(text.take(i - from + 1)) == next);
        }
        if next > 255 {
            proof {
                if is_number(text) {
                    lemma_decimal_value_grows(text, i - from + 1);
                }
            }
            return None;
        }
        value = next;
        i = i + 1;
    }
    assert(text.take(until - from) == text);
    Some(value as u8)
}

/// The one-character string of a decimal digit.
pub fn digit_str(d: u8) -> (r: &'static str)
    requires
        d < 10,
    ensures
        r@ == seq![digit_char(d as int)],
{
    proof {
        reveal_strlit("0");
        reveal_strlit("1");
        reveal_strlit("2");
        reveal_strlit("3");
        reveal_strlit("4");
        reveal_strlit("5");
        reveal_strlit("6");
        reveal_strlit("7");
        reveal_strlit("8");
        reveal_strlit("9");
    }
    let r = match d {
        0 => "0",
        1 => "1",
        2 => "2",
        3 => "3",
        4 => "4",
        5 => "5",
        6 => "6",
        7 => "7",
        8 => "8",
        _ => "9",
    };
    assert(r@ =~= seq![digit_char(d as int)]);
    r
}

/// Appends the decimal digits of `n` to `out`.
pub fn push_decimal(out: &mut String, n: u64)
    ensures
        final(out)@ == old(out)@ + decimal_text(n as int),
    decreases n,
{
    if n >= 10 {
        push_decimal(out, n / 10);
    }
    out.append(digit_str((n % 10) as u8));
    assert(final(out)@ =~= old(out)@ + decimal_text(n as int));
}

/// The texts of `parts` in a row, with `sep` between each two.
pub fn join(parts: &Vec<String>, sep: &str) -> (r: String)
    ensures
        r@ == joined(parts@.map_values(|p: String| p@), sep@),
{
    let ghost texts = parts@.map_values(|p: String| p@);
    let mut out = String::new();
    let mut i: usize = 0;
    while i < parts.len()
        invariant
            i <= parts.len(),
            texts == parts@.map_values(|p: String| p@),
            out@ == joined(texts.take(i as int), sep@),
        decreases parts.len() - i,
    {
        proof {
            lemma_joined_push(texts.take(i as int), texts[i as int], sep@);
            assert(texts.take(i + 1) == texts.take(i as int).push(texts[i as int]));
        }
        if i > 0 {
            out.append(sep);
        }
        out.append(parts[i].as_str());
        i = i + 1;
    }
    assert(texts.take(parts.len() as int) == texts);
    out
}

/// Joining one more part appends it, after the separator where a part came before.
pub proof fn lemma_joined_push(parts: Seq<Seq<char>>, last: Seq<char>, sep: Seq<char>)
    ensures
        joined(parts.push(last), sep) == if parts.len() == 0 {
            last
        } else {
            joined(parts, sep) + sep + last
        },
    decreases parts.len(),
{
    let all = parts.push(last);
    if parts.len() == 0 {
    } else if parts.len() == 1 {
        assert(all.skip(1) == seq![last]);
        assert(joined(all.skip(1), sep) == last);
    } else {
        lemma_joined_push(parts.skip(1), last, sep);
        assert(all.skip(1) == parts.skip(1).push(last));
        assert(joined(all, sep) =~= joined(parts, sep) + sep + last);
    }
}

/// The parts of `s` between the places of `sep`: one more part than `s` has places of `sep`.
pub open spec fn split_at(s: Seq<char>, sep: char) -> Seq<Seq<char>>
    decreases s.len(),
{
    let k = find_first(s, sep);
    if 0 <= k < s.len() {
        seq![s.take(k)] + split_at(s.skip(k + 1), sep)
    } else {
        seq![s]
    }
}

/// Splits `s` at each place of `sep`.
#[verifier::spinoff_prover]
pub fn split(s: &str, sep: char) -> (r: Vec<String>)
    ensures
        r@.map_values(|p: String| p@) == split_at(s@, sep),
{
    let chars = chars_of(s);
    let all = chars.as_slice();
    let mut out: Vec<String> = Vec::new();
    let mut pos: usize = 0;
    assert(all@.skip(0) == all@);
    loop
        invariant
            pos <= all@.len(),
            all@ == s@,
            split_at(s@, sep) == out@.map_values(|p: String| p@) + split_at(
                all@.skip(pos as int),
                sep,
            ),
        decreases all@.len() - pos,
    {
        let ghost rest = all@.skip(pos as int);
        let ghost done = out@.map_values(|p: String| p@);
        let end = find_from(all, pos, all.len(), sep);
        assert(all@.subrange(pos as int, all@.len() as int) == rest);
        let part = String::from_str(s.substring_char(pos, end));
        assert(part@ == rest.take(end - pos));
        out.push(part);
        assert(out@.map_values(|p: String| p@) =~= done.push(part@));
        if end == all.len() {
            assert(rest.take(end - pos) == rest);
            assert(done + seq![rest] =~= done.push(rest));
            return out;
        }
        assert(rest.skip(end - pos + 1) == all@.skip(end + 1));
        assert(done + (seq![part@] + split_at(all@.skip(end + 1), sep)) =~= done.push(part@)
            + split_at(all@.skip(end + 1), sep));
        pos = end + 1;
    }
}

/// The parts of a text, joined again at the places where it was split, are the text.
pub proof fn lemma_join_of_split(s: Seq<char>, sep: char)
    ensures
        joined(split_at(s, sep), seq![sep]) == s,
        split_at(s, sep).len() >= 1,
    decreases s.len(),
{
    let k = find_first(s, sep);
    lemma_find_first(s, sep);
    if 0 <= k < s.len() {
        let rest = s.skip(k + 1);
        lemma_join_of_split(rest, sep);
        let parts = split_at(s, sep);
        assert(parts.skip(1) =~= split_at(rest, sep));
        assert(parts[0] == s.take(k));
        assert(s =~= s.take(k) + seq![sep] + rest);
    }
}

/// The digits of a number are a text of digits.
pub proof fn lemma_decimal_text_is_number(n: int)
    requires
        0 <= n,
    ensures
        is_number(decimal_text(n)),
        forall|i: int| 0 <= i < decimal_text(n).len() ==> (#[trigger] decimal_text(n)[i]) != ','
            && decimal_text(n)[i] != ' ' && decimal_text(n)[i] != '*',
    decreases n,
{
    if n >= 10 {
        lemma_decimal_text_is_number(n / 10);
    }
}

/// The digits of a number stand for that number.
pub proof fn lemma_decimal_round_trip(n: int)
    requires
        0 <= n,
    ensures
        decimal_value(decimal_text(n)) == n,
    decreases n,
{
    if n < 10 {
        assert(decimal_text(n).drop_last() =~= Seq::<char>::empty());
        assert(decimal_value(decimal_text(n)) == decimal_value(Seq::<char>::empty()) * 10
            + digit_of(digit_char(n)));
    } else {
        lemma_decimal_round_trip(n / 10);
        assert(decimal_text(n).drop_last() =~= decimal_text(n / 10));
    }
}

} // verus!
