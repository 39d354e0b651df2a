//! Times to live: how long a message is kept, as text and in seconds.
use crate::text::{chars_of, decimal, decimal_text, digit};
use vstd::prelude::*;
use vstd::string::*;

verus! {

/// The longest time to live that can be set: a day.
pub const MAX_TTL: u64 = 86400;

/// `big` of one unit and, where there are any, `small` of the next.
pub open spec fn two_units(big: nat, big_unit: char, small: nat, small_unit: char) -> Seq<char> {
    if small > 0 {
        decimal(big).push(big_unit).push(' ') + decimal(small).push(small_unit)
    } else {
        decimal(big).push(big_unit)
    }
}

/// A time to live as text: in its largest unit, and what is left in the next one.
pub open spec fn ttl_text(secs: nat) -> Seq<char> {
    if secs >= 86400 {
        two_units(secs / 86400, 'd', secs % 86400 / 3600, 'h')
    } else if secs >= 3600 {
        two_units(secs / 3600, 'h', secs % 3600 / 60, 'm')
    } else if secs >= 60 {
        two_units(secs / 60, 'm', secs % 60, 's')
    } else {
        decimal(secs).push('s')
    }
}

/// How many seconds a unit has.
pub open spec fn unit_secs(unit: char) -> Option<nat> {
    if unit == 'd' {
        Some(86400)
    } else if unit == 'h' {
        Some(3600)
    } else if unit == 'm' {
        Some(60)
    } else if unit == 's' {
        Some(1)
    } else {
        None
    }
}

/// Whether a character is a decimal digit.
pub open spec fn is_digit(c: char) -> bool {
    48 <= c as int <= 57
}

/// How far a text of numbers with units has been counted.
pub ghost struct Count {
    /// The seconds of the numbers with units.
    pub total: nat,
    /// The number that has no unit yet.
    pub number: Option<nat>,
}

/// Counts a text of numbers with units.
pub open spec fn counted(s: Seq<char>) -> Option<Count>
    decreases s.len(),
{
    if s.len() == 0 {
        Some(Count { total: 0, number: None })
    } else {
        match counted(s.drop_last()) {
            Some(Count { total, number }) => if is_digit(s.last()) {
                let before: nat = match number {
                    Some(n) => n,
                    None => 0,
                };
                Some(Count { total, number: Some((before * 10 + (s.last() as int - 48)) as nat) })
            } else {
                match (number, unit_secs(s.last())) {
                    (Some(n), Some(unit)) => Some(Count { total: total + n * unit, number: None }),
                    _ => None,
                }
            },
            None => None,
        }
    }
}

/// The seconds that a text stands for: the sum of its numbers, each with its unit; one at
/// the end without a unit is in seconds.
pub open spec fn ttl_secs(s: Seq<char>) -> Option<nat> {
    if s.len() == 0 {
        None
    } else {
        match counted(s) {
            Some(Count { total, number: Some(n) }) => Some(total + n),
            Some(Count { total, number: None }) => Some(total),
            None => None,
        }
    }
}

fn write_units(big: u64, big_unit: char, small: u64, small_unit: char) -> (res: String)
    ensures
        res@ == two_units(big as nat, big_unit, small as nat, small_unit),
{
    let mut out = decimal_text(big);
    out.push(big_unit);
    if small > 0 {
        out.push(' ');
        let mut rest = decimal_text(small);
        rest.push(small_unit);
        out.append(rest.as_str());
    }
    out
}

/// Writes a time to live.
pub fn format_ttl(secs: u64) -> (res: String)
    ensures
        res@ == ttl_text(secs as nat),
{
    if secs >= 86400 {
        write_units(secs / 86400, 'd', secs % 86400 / 3600, 'h')
    } else if secs >= 3600 {
        write_units(secs / 3600, 'h', secs % 3600 / 60, 'm')
    } else if secs >= 60 {
        write_units(secs / 60, 'm', secs % 60, 's')
    } else {
        let mut out = decimal_text(secs);
        out.push('s');
        out
    }
}

/// What is counted so far only grows.
proof fn lemma_counted_grows(s: Seq<char>, n: int)
    requires
        0 <= n <= s.len(),
        counted(s) is Some,
    ensures
        counted(s.take(n)) is Some,
        ({
            let part = counted(s.take(n))->0;
            let whole = counted(s)->0;
            let rest = |c: Count| match c.number { Some(v) => v, None => 0nat };
            part.total <= whole.total && part.total + rest(part) <= whole.total + rest(whole)
        }),
    decreases s.len() - n,
{
    if n == s.len() {
        assert(s.take(n) =~= s);
    } else {
        lemma_counted_grows(s, n + 1);
        let next = s.take(n + 1);
        assert(next.drop_last() =~= s.take(n));
        match counted(s.take(n))->0.number {
            Some(v) => {
                if !is_digit(next.last()) {
                    let unit = unit_secs(next.last())->0;
                    assert(v * unit >= v) by (nonlinear_arith)
                        requires
                            unit >= 1,
                    ;
                }
            },
            None => {},
        }
    }
}

/// Reads a time to live, in seconds. What is no time to live is refused, and so is one that
/// is too long to count.
pub fn parse_ttl(s: &str) -> (res: Result<u64, ()>)
    ensures
        match res {
            Ok(secs) => ttl_secs(s@) == Some(secs as nat),
            Err(_) => ttl_secs(s@) is None || ttl_secs(s@)->0 > u64::MAX,
        },
{
    let chars = chars_of(s);
    if chars.len() == 0 {
        return Err(());
    }
    let mut total: u64 = 0;
    let mut number: Option<u64> = None;
    let mut i: usize = 0;
    while i < chars.len()
        invariant
            i <= chars@.len(),
            chars@ == s@,
            chars@.len() > 0,
            counted(chars@.take(i as int)) == Some(
                Count {
                    total: total as nat,
                    number: match number {
                        Some(n) => Some(n as nat),
                        None => None,
                    },
                },
            ),
        decreases chars@.len() - i,
    {
        let c = chars[i];
        let ghost next = chars@.take(i + 1);
        proof {
            assert(next.drop_last() =~= chars@.take(i as int));
            if counted(chars@) is Some {
                lemma_counted_grows(chars@, i + 1);
            }
        }
        if '0' <= c && c <= '9' {
            let before: u64 = match number {
                Some(n) => n,
                None => 0,
            };
            let tens: u64 = match before.checked_mul(10) {
                Some(v) => v,
                None => return Err(()),
            };
            let d: u64 = c as u64 - 48;
            match tens.checked_add(d) {
                Some(v) => number = Some(v),
                None => return Err(()),
            }
        } else {
            let n: u64 = match number {
                Some(n) => n,
                None => return Err(()),
            };
            let unit: u64 = match c {
                'd' => 86400,
                'h' => 3600,
                'm' => 60,
                's' => 1,
                _ => return Err(()),
            };
            let secs: u64 = match n.checked_mul(unit) {
                Some(v) => v,
                None => return Err(()),
            };
            match total.checked_add(secs) {
                Some(v) => total = v,
                None => return Err(()),
            }
            number = None;
        }
        i = i + 1;
    }
    assert(chars@.take(i as int) =~= s@);
    match number {
        Some(n) => match total.checked_add(n) {
            Some(secs) => Ok(secs),
            None => Err(()),
        },
        None => Ok(total),
    }
}

proof fn lemma_counted_number(s: Seq<char>, n: nat)
    requires
        counted(s) matches Some(count) && count.number is None,
    ensures
        counted(s + decimal(n)) == Some(Count { total: counted(s)->0.total, number: Some(n) }),
    decreases n,
{
    let text = s + decimal(n);
    assert(decimal(n).last() == digit(n % 10));
    if n < 10 {
        assert(text.drop_last() =~= s);
    } else {
        lemma_counted_number(s, n / 10);
        assert(text.drop_last() =~= s + decimal(n / 10));
    }
}

/// A number with a unit, behind other numbers with units, adds that many of the unit.
pub proof fn number_with_unit_adds(s: Seq<char>, n: nat, unit: char)
    requires
        unit_secs(unit) is Some,
        counted(s) matches Some(count) && count.number is None,
    ensures
        counted(s + decimal(n).push(unit)) == Some(
            Count { total: counted(s)->0.total + n * unit_secs(unit)->0, number: None },
        ),
        ttl_secs(s + decimal(n).push(unit)) == Some(counted(s)->0.total + n * unit_secs(unit)->0),
{
    let text = s + decimal(n).push(unit);
    lemma_counted_number(s, n);
    assert(text.drop_last() =~= s + decimal(n));
    assert(text.len() > 0);
}

/// A number without a unit stands for that many seconds.
pub proof fn bare_number_is_seconds(n: nat)
    ensures
        ttl_secs(decimal(n)) == Some(n),
{
    lemma_counted_number(seq![], n);
    assert(seq![] + decimal(n) =~= decimal(n));
}

/// A number with a unit stands for that many of the unit.
pub proof fn number_with_unit_reads(n: nat, unit: char)
    requires
        unit_secs(unit) is Some,
    ensures
        ttl_secs(decimal(n).push(unit)) == Some(n * unit_secs(unit)->0),
{
    number_with_unit_adds(seq![], n, unit);
    assert(seq![] + decimal(n).push(unit) =~= decimal(n).push(unit));
}

/// Counting goes on behind numbers that have all their units.
proof fn lemma_counted_joined(first: Seq<char>, second: Seq<char>)
    requires
        counted(first) matches Some(count) && count.number is None,
    ensures
        counted(first + second) == match counted(second) {
            Some(count) => Some(Count { total: counted(first)->0.total + count.total, number: count.number }),
            None => None,
        },
    decreases second.len(),
{
    let text = first + second;
    if second.len() == 0 {
        assert(text =~= first);
    } else {
        lemma_counted_joined(first, second.drop_last());
        assert(text.drop_last() =~= first + second.drop_last());
        assert(text.last() == second.last());
    }
}

/// The seconds of two times to live, one behind the other, add up, where the first ends in a
/// unit. What is no time to live is none behind another either.
pub proof fn times_add_up(first: Seq<char>, second: Seq<char>)
    requires
        ttl_secs(first) is Some,
        !is_digit(first.last()),
        second.len() > 0,
    ensures
        ttl_secs(first + second) == match ttl_secs(second) {
            Some(secs) => Some(ttl_secs(first)->0 + secs),
            None => None,
        },
{
    lemma_counted_joined(first, second);
}

/// A text without its spaces.
pub open spec fn without_spaces(s: Seq<char>) -> Seq<char> {
    s.filter(|c: char| c != ' ')
}

proof fn lemma_no_spaces(s: Seq<char>)
    requires
        forall|i: int| 0 <= i < s.len() ==> #[trigger] s[i] != ' ',
    ensures
        without_spaces(s) == s,
    decreases s.len(),
{
    reveal(Seq::filter);
    if s.len() > 0 {
        let rest = s.drop_last();
        assert forall|i: int| 0 <= i < rest.len() implies #[trigger] rest[i] != ' ' by {
            assert(rest[i] == s[i]);
        }
        lemma_no_spaces(rest);
        assert(rest.push(s.last()) =~= s);
    }
}

proof fn lemma_space_between(first: Seq<char>, second: Seq<char>)
    ensures
        without_spaces(first.push(' ') + second) == without_spaces(first) + without_spaces(second),
{
    Seq::filter_distributes_over_add(first.push(' '), second, |c: char| c != ' ');
    assert(without_spaces(first.push(' ')) == without_spaces(first)) by {
        reveal(Seq::filter);
        assert(first.push(' ').drop_last() =~= first);
    }
}

proof fn lemma_decimal_digits(n: nat)
    ensures
        decimal(n).len() > 0,
        forall|i: int| 0 <= i < decimal(n).len() ==> is_digit(#[trigger] decimal(n)[i]),
    decreases n,
{
    if n >= 10 {
        lemma_decimal_digits(n / 10);
    }
}

/// What the text of a time to live leaves out: what is smaller than the second unit.
pub open spec fn left_out(secs: nat) -> nat {
    if secs >= 86400 {
        secs % 3600
    } else if secs >= 3600 {
        secs % 60
    } else {
        0
    }
}

proof fn lemma_two_units(big: nat, big_unit: char, small: nat, small_unit: char)
    requires
        unit_secs(big_unit) is Some,
        unit_secs(small_unit) is Some,
    ensures
        ttl_secs(without_spaces(two_units(big, big_unit, small, small_unit))) == Some(
            big * unit_secs(big_unit)->0 + small * unit_secs(small_unit)->0,
        ),
{
    let first = decimal(big).push(big_unit);
    let second = decimal(small).push(small_unit);
    lemma_decimal_digits(big);
    lemma_decimal_digits(small);
    lemma_no_spaces(first);
    lemma_no_spaces(second);
    lemma_space_between(first, second);
    number_with_unit_reads(big, big_unit);
    number_with_unit_reads(small, small_unit);
    times_add_up(first, second);
    assert(small == 0 ==> small * unit_secs(small_unit)->0 == 0) by (nonlinear_arith);
}

proof fn lemma_parts(secs: nat)
    ensures
        secs / 86400 * 86400 + secs % 86400 / 3600 * 3600 == secs - secs % 3600,
        secs / 3600 * 3600 + secs % 3600 / 60 * 60 == secs - secs % 60,
        secs / 60 * 60 + secs % 60 == secs,
{
}

/// A time to live reads back as it was written, without the space between its units, up to
/// what the text leaves out.
pub proof fn ttl_reads_back(secs: nat)
    ensures
        ttl_secs(without_spaces(ttl_text(secs))) == Some((secs - left_out(secs)) as nat),
{
    lemma_parts(secs);
    if secs >= 86400 {
        lemma_two_units(secs / 86400, 'd', secs % 86400 / 3600, 'h');
    } else if secs >= 3600 {
        lemma_two_units(secs / 3600, 'h', secs % 3600 / 60, 'm');
    } else if secs >= 60 {
        lemma_two_units(secs / 60, 'm', secs % 60, 's');
    } else {
        lemma_two_units(secs, 's', 0, 's');
    }
}

/// A time to live that is written in one unit without a rest reads back as it was written.
pub proof fn single_unit_reads_back(secs: nat)
    requires
        secs < 60 || (secs < 3600 && secs % 60 == 0) || (secs < 86400 && secs % 3600 == 0) || secs % 86400 == 0,
    ensures
        ttl_secs(ttl_text(secs)) == Some(secs),
{
    assert(unit_secs('d')->0 == 86400 && unit_secs('h')->0 == 3600 && unit_secs('m')->0 == 60 && unit_secs('s')->0 == 1);
    if secs >= 86400 {
        number_with_unit_reads(secs / 86400, 'd');
    } else if secs >= 3600 {
        number_with_unit_reads(secs / 3600, 'h');
    } else if secs >= 60 {
        number_with_unit_reads(secs / 60, 'm');
    } else {
        number_with_unit_reads(secs, 's');
    }
}

/// A number of days, hours, minutes or seconds stands for so many times 86400, 3600, 60 or one
/// second, and a number without a unit for so many seconds.
pub proof fn units_have_their_seconds(n: nat)
    ensures
        ttl_secs(decimal(n).push('d')) == Some(86400 * n),
        ttl_secs(decimal(n).push('h')) == Some(3600 * n),
        ttl_secs(decimal(n).push('m')) == Some(60 * n),
        ttl_secs(decimal(n).push('s')) == Some(n),
        ttl_secs(decimal(n)) == Some(n),
{
    number_with_unit_reads(n, 'd');
    number_with_unit_reads(n, 'h');
    number_with_unit_reads(n, 'm');
    number_with_unit_reads(n, 's');
    bare_number_is_seconds(n);
    assert(n * 86400 == 86400 * n && n * 3600 == 3600 * n && n * 60 == 60 * n && n * 1 == n) by (nonlinear_arith);
}

/// A text that is empty, or that starts with a unit, or that holds anything but digits and units,
/// stands for no time.
pub proof fn other_texts_stand_for_no_time(before: Seq<char>, c: char, behind: Seq<char>)
    requires
        c != 'd' && c != 'h' && c != 'm' && c != 's' && !('0' as int <= c as int <= '9' as int) || before.len() == 0
            && !('0' as int <= c as int <= '9' as int),
    ensures
        ttl_secs(seq![]) is None,
        ttl_secs(before.push(c) + behind) is None,
    decreases behind.len(),
{
    let text = before.push(c) + behind;
    if behind.len() == 0 {
        assert(text =~= before.push(c));
        assert(text.drop_last() =~= before);
        assert(text.last() == c && text.len() > 0);
        assert(!is_digit(c));
        if before.len() == 0 {
            assert(counted(before) == Some(Count { total: 0, number: None }));
        } else {
            assert(unit_secs(c) is None);
        }
        assert(counted(text) is None);
    } else {
        let rest = behind.drop_last();
        other_texts_stand_for_no_time(before, c, rest);
        assert(text.drop_last() =~= before.push(c) + rest);
        assert((before.push(c) + rest).len() > 0);
        assert(counted(before.push(c) + rest) is None);
    }
}

/// A unit has a number of its own: behind another unit it stands for no time.
pub proof fn unit_needs_a_number(before: Seq<char>, first: char, second: char)
    requires
        !('0' as int <= first as int <= '9' as int),
        !('0' as int <= second as int <= '9' as int),
    ensures
        ttl_secs(before.push(first).push(second)) is None,
{
    let text = before.push(first).push(second);
    let shorter = before.push(first);
    assert(text.drop_last() =~= shorter);
    assert(shorter.drop_last() =~= before);
    assert(!is_digit(first) && !is_digit(second));
    assert(shorter.len() > 0 && shorter.last() == first);
    assert(counted(shorter) matches Some(count) ==> count.number is None);
    assert(text.len() > 0 && text.last() == second);
    assert(counted(text) is None);
}

/// A time is written with the largest of the units day, hour, minute and second that it has, and
/// with the next one where there is a rest in it; what is less is left out.
pub proof fn time_is_written_in_two_units(big: nat, small: nat, less: nat)
    requires
        big > 0,
    ensures
        small < 24 && less < 3600 ==> ttl_text(86400 * big + 3600 * small + less) == (if small == 0 {
            decimal(big).push('d')
        } else {
            decimal(big).push('d').push(' ') + decimal(small).push('h')
        }),
        big < 24 && small < 60 && less < 60 ==> ttl_text(3600 * big + 60 * small + less) == (if small == 0 {
            decimal(big).push('h')
        } else {
            decimal(big).push('h').push(' ') + decimal(small).push('m')
        }),
        big < 60 && small < 60 ==> ttl_text(60 * big + small) == (if small == 0 {
            decimal(big).push('m')
        } else {
            decimal(big).push('m').push(' ') + decimal(small).push('s')
        }),
        small < 60 ==> ttl_text(small) == decimal(small).push('s'),
{
    if small < 24 && less < 3600 {
        let secs: nat = 86400 * big + 3600 * small + less;
        assert(secs / 86400 == big);
        assert(secs % 86400 == 3600 * small + less);
        assert((3600 * small + less) / 3600 == small);
    }
    if big < 24 && small < 60 && less < 60 {
        let secs: nat = 3600 * big + 60 * small + less;
        assert(secs / 3600 == big);
        assert(secs % 3600 == 60 * small + less);
        assert((60 * small + less) / 60 == small);
    }
    if big < 60 && small < 60 {
        let secs: nat = 60 * big + small;
        assert(secs / 60 == big);
        assert(secs % 60 == small);
    }
}

proof fn lemma_digits(s: Seq<char>)
    requires
        s.len() > 0,
        forall|i: int| 0 <= i < s.len() ==> '0' as int <= #[trigger] s[i] as int <= '9' as int,
    ensures
        counted(s) matches Some(count) && count.total == 0 && count.number is Some,
    decreases s.len(),
{
    assert(is_digit(s[s.len() - 1]));
    if s.len() > 1 {
        let rest = s.drop_last();
        assert forall|i: int| 0 <= i < rest.len() implies '0' as int <= #[trigger] rest[i] as int <= '9' as int by {
            assert(rest[i] == s[i]);
        }
        lemma_digits(rest);
    } else {
        assert(s.drop_last() =~= seq![]);
    }
}

/// Of digits each counts ten times what the next one does, zeros in front or not; a unit behind
/// them counts them by its seconds.
pub proof fn digits_count_by_place(s: Seq<char>, d: char)
    requires
        s.len() > 0,
        forall|i: int| 0 <= i < s.len() ==> '0' as int <= #[trigger] s[i] as int <= '9' as int,
        '0' as int <= d as int <= '9' as int,
    ensures
        ttl_secs(seq![d]) == Some((d as int - '0' as int) as nat),
        ttl_secs(s) is Some,
        ttl_secs(s.push(d)) == Some((10 * ttl_secs(s)->0 + (d as int - '0' as int)) as nat),
        ttl_secs(s.push('d')) == Some(86400 * ttl_secs(s)->0),
        ttl_secs(s.push('h')) == Some(3600 * ttl_secs(s)->0),
        ttl_secs(s.push('m')) == Some(60 * ttl_secs(s)->0),
        ttl_secs(s.push('s')) == Some(ttl_secs(s)->0),
{
    lemma_digits(s);
    assert(is_digit(d));
    assert(seq![d].drop_last() =~= seq![]);
    assert(counted(seq![]) == Some(Count { total: 0, number: None }));
    assert(seq![d].last() == d && seq![d].len() == 1);
    assert(counted(seq![d]) == Some(Count { total: 0, number: Some((d as int - 48) as nat) }));
    assert(s.push(d).drop_last() =~= s);
    assert(s.push('d').drop_last() =~= s);
    assert(s.push('h').drop_last() =~= s);
    assert(s.push('m').drop_last() =~= s);
    assert(s.push('s').drop_last() =~= s);
    let n = ttl_secs(s)->0;
    assert(n * 86400 == 86400 * n && n * 3600 == 3600 * n && n * 60 == 60 * n && n * 1 == n) by (nonlinear_arith);
}

}
