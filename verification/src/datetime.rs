use vstd::prelude::*;
use crate::text::{decimal_text, push_decimal};

verus! {

/// One unit of a duration in words: its count and its letter, where more than one unit of
/// `size` seconds is left; and the seconds that are left then.
pub open spec fn unit_text(secs: int, size: int, letter: char) -> (Seq<char>, int) {
    if secs > size {
        (decimal_text(secs / size).push(letter), secs % size)
    } else {
        (Seq::empty(), secs)
    }
}

/// A duration of whole seconds in words, such as `1D2h3m4s`: the days, hours and minutes of
/// which more than one is left, then the seconds.
pub open spec fn duration_text(secs: int) -> Seq<char> {
    let days = unit_text(secs, 86400, 'D');
    let hours = unit_text(days.1, 3600, 'h');
    let minutes = unit_text(hours.1, 60, 'm');
    days.0 + hours.0 + minutes.0 + decimal_text(minutes.1).push('s')
}

/// Appends one unit of a duration to `out` and gives the seconds that are left.
fn push_unit(out: &mut String, secs: u64, size: u64, letter: &str, Ghost(c): Ghost<char>) -> (r: u64)
    requires
        size > 0,
        letter@ == seq![c],
    ensures
        final(out)@ == old(out)@ + unit_text(secs as int, size as int, c).0,
        r == unit_text(secs as int, size as int, c).1,
{
    if secs > size {
        push_decimal(out, secs / size);
        out.append(letter);
        assert(final(out)@ =~= old(out)@ + unit_text(secs as int, size as int, c).0);
        secs % size
    } else {
        assert(final(out)@ =~= old(out)@ + unit_text(secs as int, size as int, c).0);
        secs
    }
}

/// Writes a duration of `secs` whole seconds in words: see [`duration_text`].
pub fn human_duration(secs: i64) -> (r: String)
    requires
        secs >= 0,
    ensures
        r@ == duration_text(secs as int),
{
    proof {
        reveal_strlit("D");
        reveal_strlit("h");
        reveal_strlit("m");
        reveal_strlit("s");
        assert("D"@ =~= seq!['D']);
        assert("h"@ =~= seq!['h']);
        assert("m"@ =~= seq!['m']);
        assert("s"@ =~= seq!['s']);
    }
    let mut times = String::new();
    let left = push_unit(&mut times, secs as u64, 86400, "D", Ghost('D'));
    let left = push_unit(&mut times, left, 3600, "h", Ghost('h'));
    let left = push_unit(&mut times, left, 60, "m", Ghost('m'));
    push_decimal(&mut times, left);
    times.append("s");
    assert(times@ =~= duration_text(secs as int));
    times
}

} // verus!
