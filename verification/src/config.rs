//! Settings taken from the environment.
use crate::text::{self, CharClass};
use vstd::prelude::*;

verus! {

/// Hours between automatic updates, unless configured otherwise.
pub const DEFAULT_CRON_HOURS: i64 = 12;

/// Whether every character is a decimal digit.
pub open spec fn all_digits(s: Seq<char>) -> bool {
    forall|i: int| 0 <= i < s.len() ==> '0' <= #[trigger] s[i] <= '9'
}

/// The number that decimal digits stand for.
pub open spec fn digits_value(s: Seq<char>) -> nat
    decreases s.len(),
{
    if s.len() == 0 {
        0
    } else {
        digits_value(s.drop_last()) * 10 + ((s.last() as nat) - ('0' as nat)) as nat
    }
}

/// The natural number that a non-empty run of decimal digits stands for, up to `max`.
pub open spec fn natural(s: Seq<char>, max: nat) -> Option<nat> {
    if s.len() > 0 && all_digits(s) && digits_value(s) <= max {
        Some(digits_value(s))
    } else {
        None
    }
}

/// A number of 64 bits: an optional sign, then only digits.
pub open spec fn integer(s: Seq<char>) -> Option<int> {
    if s.len() > 0 && s[0] == '-' {
        match natural(s.skip(1), 0x8000_0000_0000_0000) {
            Some(n) => Some(-(n as int)),
            None => None,
        }
    } else {
        let digits = if s.len() > 0 && s[0] == '+' {
            s.skip(1)
        } else {
            s
        };
        match natural(digits, i64::MAX as nat) {
            Some(n) => Some(n as int),
            None => None,
        }
    }
}

proof fn lemma_value_grows(s: Seq<char>, i: int)
    requires
        0 <= i <= s.len(),
    ensures
        digits_value(s.take(i)) <= digits_value(s),
    decreases s.len(),
{
    if i == s.len() {
        assert(s.take(i) =~= s);
    } else {
        lemma_value_grows(s.drop_last(), i);
        assert(s.drop_last().take(i) =~= s.take(i));
    }
}

/// Reads the digits `v[from..]` as a number up to `max`.
pub fn parse_natural(v: &Vec<char>, from: usize, max: u64) -> (r: Option<u64>)
    requires
        from <= v@.len(),
    ensures
        match r {
            Some(n) => natural(v@.skip(from as int), max as nat) == Some(n as nat),
            None => natural(v@.skip(from as int), max as nat) is None,
        },
{
    let ghost s = v@.skip(from as int);
    let n: usize = v.len();
    if from == n {
        return None;
    }
    let mut acc: u64 = 0;
    let mut i: usize = from;
    assert(s.take(0) =~= Seq::empty());
    while i < n
        invariant
            from <= i <= n,
            n == v@.len(),
            s == v@.skip(from as int),
            acc <= max,
            acc as nat == digits_value(s.take(i - from)),
            forall|k: int| 0 <= k < i - from ==> '0' <= #[trigger] s[k] <= '9',
        decreases n - i,
    {
        let c = v[i];
        assert(s[i - from] == c);
        if !('0' <= c && c <= '9') {
            return None;
        }
        let d: u128 = (c as u8 - 48u8) as u128;
        let next: u128 = acc as u128 * 10 + d;
        proof {
            assert(s.take(i - from + 1).drop_last() =~= s.take(i - from));
            assert(s.take(i - from + 1).last() == c);
            assert(next as nat == digits_value(s.take(i - from + 1)));
        }
        if next > max as u128 {
            proof {
                lemma_value_grows(s, i - from + 1);
            }
            return None;
        }
        acc = next as u64;
        i += 1;
    }
    assert(s.take(i - from) =~= s);
    Some(acc)
}

/// Reads a number of 64 bits.
pub fn parse_integer(s: &str) -> (r: Option<i64>)
    ensures
        match r {
            Some(n) => integer(s@) == Some(n as int),
            None => integer(s@) is None,
        },
{
    let v = text::chars_of(s);
    if v.len() > 0 && v[0] == '-' {
        return match parse_natural(&v, 1, 0x8000_0000_0000_0000) {
            Some(n) => Some((-(n as i128)) as i64),
            None => None,
        };
    }
    let from: usize = if v.len() > 0 && v[0] == '+' {
        1
    } else {
        0
    };
    assert(v@.skip(0) =~= v@);
    match parse_natural(&v, from, i64::MAX as u64) {
        Some(n) => Some(n as i64),
        None => None,
    }
}

/// Hours between automatic updates: the configured number, or the default where there is none or
/// it is not a number.
pub fn cron_hours(setting: Option<&str>) -> (hours: i64)
    ensures
        hours == match setting {
            Some(s) => match integer(s@) {
                Some(n) => n,
                None => DEFAULT_CRON_HOURS as int,
            },
            None => DEFAULT_CRON_HOURS as int,
        },
{
    match setting {
        Some(s) => match parse_integer(s) {
            Some(n) => n,
            None => DEFAULT_CRON_HOURS,
        },
        None => DEFAULT_CRON_HOURS,
    }
}

/// Whether mangas are checked for new chapters from time to time: with a positive interval only.
pub fn auto_updates_enabled(cron_hours: i64) -> (b: bool)
    ensures
        b == (cron_hours > 0),
{
    cron_hours > 0
}

/// The configured address without the quotation marks and the white space around it.
pub open spec fn unquoted(s: Seq<char>) -> Seq<char> {
    text::trimmed(
        text::trim_of(text::trim_of(s, CharClass::DoubleQuote), CharClass::SingleQuote),
    )
}

/// The address that notifications go to, if one is configured.
pub fn discord_webhook_url(setting: Option<&str>) -> (url: Option<String>)
    ensures
        match url {
            Some(u) => setting is Some && u@ == unquoted(setting->0@) && u@.len() > 0,
            None => setting is None || unquoted(setting->0@).len() == 0,
        },
{
    match setting {
        Some(s) => {
            let a = text::trim(s, CharClass::DoubleQuote);
            let b = text::trim(a.as_str(), CharClass::SingleQuote);
            let c = text::trim(b.as_str(), CharClass::WhiteSpace);
            if c.as_str().is_empty() {
                None
            } else {
                Some(c)
            }
        },
        None => None,
    }
}

// ---------------------------------------------------------------------------------------------
// Laws
// ---------------------------------------------------------------------------------------------

/// Digits are read from the left, ten times what was read so far and the next one.
pub proof fn law_digits_stand_for(s: Seq<char>, c: char)
    requires
        '0' <= c <= '9',
    ensures
        digits_value(Seq::empty()) == 0,
        digits_value(s.push(c)) == 10 * digits_value(s) + (c as int - 48),
        all_digits(s) <==> forall|i: int| 0 <= i < s.len() ==> 48 <= (#[trigger] s[i]) as int <= 57,
{
    assert(s.push(c).drop_last() =~= s);
}

/// A number is written with digits that stand for it, without a zero in front.
pub proof fn law_decimal_notation(n: nat)
    ensures
        digits_value(text::digits(n)) == n,
        all_digits(text::digits(n)),
        text::digits(n).len() > 0,
        n > 0 ==> text::digits(n)[0] != '0',
    decreases n,
{
    let d = text::digits(n);
    if n >= 10 {
        law_decimal_notation(n / 10);
        let head = text::digits(n / 10);
        assert(d.drop_last() =~= head);
        assert(d[0] == head[0]);
        assert forall|i: int| 0 <= i < d.len() implies '0' <= #[trigger] d[i] <= '9' by {
            if i < d.len() - 1 {
                assert(d[i] == head[i]);
            }
        }
    } else {
        assert(d.drop_last() =~= Seq::empty());
        assert(digits_value(Seq::<char>::empty()) == 0);
    }
}

/// The notation of a number of 64 bits is read back as that number, with a sign in front of it or
/// without; a number that is too large is not read.
pub proof fn law_integer_is_read_back(n: nat)
    ensures
        n <= 9_223_372_036_854_775_807 ==> integer(text::digits(n)) == Some(n as int) && integer(
            seq!['+'] + text::digits(n),
        ) == Some(n as int),
        n > 9_223_372_036_854_775_807 ==> integer(text::digits(n)) is None && integer(
            seq!['+'] + text::digits(n),
        ) is None,
        n <= 9_223_372_036_854_775_808 ==> integer(seq!['-'] + text::digits(n)) == Some(-(n as int)),
        n > 9_223_372_036_854_775_808 ==> integer(seq!['-'] + text::digits(n)) is None,
{
    law_decimal_notation(n);
    let d = text::digits(n);
    assert('0' <= d[0] <= '9');
    assert((seq!['+'] + d).skip(1) =~= d);
    assert((seq!['-'] + d).skip(1) =~= d);
}

/// Only digits, after a sign where there is one, are read as a number, and the number is what the
/// digits stand for, below zero after a minus sign.
pub proof fn law_what_is_an_integer(s: Seq<char>)
    requires
        integer(s) is Some,
    ensures
        s.len() > 0,
        forall|i: int|
            0 <= i < s.len() ==> 48 <= (#[trigger] s[i]) as int <= 57 || (i == 0 && s.len() > 1 && (
            s[i] == '+' || s[i] == '-')),
        s[0] == '-' ==> integer(s)->0 == -digits_value(s.skip(1)),
        s[0] == '+' ==> integer(s)->0 == digits_value(s.skip(1)),
        s[0] != '-' && s[0] != '+' ==> integer(s)->0 == digits_value(s),
{
    if s[0] == '-' || s[0] == '+' {
        let rest = s.skip(1);
        assert forall|i: int| 0 < i < s.len() implies 48 <= (#[trigger] s[i]) as int <= 57 by {
            assert(rest[i - 1] == s[i]);
        }
    }
}

/// A number that is too large for its limit, a text that is empty, and one with anything but digits
/// are no natural numbers; every other text is the one that its digits stand for.
pub proof fn law_what_is_natural(s: Seq<char>, max: nat)
    ensures
        natural(s, max) is Some <==> s.len() > 0 && digits_value(s) <= max && forall|i: int|
            0 <= i < s.len() ==> 48 <= (#[trigger] s[i]) as int <= 57,
        natural(s, max) is Some ==> natural(s, max)->0 == digits_value(s),
{
}

/// An address is found within double quotation marks, within those single ones, and within those
/// white space, all of them as many as there are.
pub proof fn law_quotes_are_taken_off(
    double: Seq<char>,
    single: Seq<char>,
    space: Seq<char>,
    url: Seq<char>,
    space_after: Seq<char>,
    single_after: Seq<char>,
    double_after: Seq<char>,
)
    requires
        forall|i: int| 0 <= i < double.len() ==> #[trigger] double[i] == '"',
        forall|i: int| 0 <= i < double_after.len() ==> #[trigger] double_after[i] == '"',
        forall|i: int| 0 <= i < single.len() ==> #[trigger] single[i] == '\'',
        forall|i: int| 0 <= i < single_after.len() ==> #[trigger] single_after[i] == '\'',
        forall|i: int| 0 <= i < space.len() ==> text::is_white_space(#[trigger] space[i]),
        forall|i: int|
            0 <= i < space_after.len() ==> text::is_white_space(#[trigger] space_after[i]),
        url.len() > 0,
        url[0] != '"' && url[0] != '\'' && !text::is_white_space(url[0]),
        url.last() != '"' && url.last() != '\'' && !text::is_white_space(url.last()),
    ensures
        unquoted(
            double + (single + (space + url + space_after) + single_after) + double_after,
        ) == url,
{
    let inner = space + url + space_after;
    let middle = single + inner + single_after;
    assert(inner[0] == if space.len() > 0 {
        space[0]
    } else {
        url[0]
    });
    assert(inner.last() == if space_after.len() > 0 {
        space_after[space_after.len() - 1]
    } else {
        url.last()
    });
    assert(middle[0] == if single.len() > 0 {
        single[0]
    } else {
        inner[0]
    });
    assert(middle.last() == if single_after.len() > 0 {
        single_after[single_after.len() - 1]
    } else {
        inner.last()
    });
    text::law_trimming_leaves(double, middle, double_after, CharClass::DoubleQuote);
    text::law_trimming_leaves(single, inner, single_after, CharClass::SingleQuote);
    text::law_trimming_leaves(space, url, space_after, CharClass::WhiteSpace);
}

/// Without a setting twelve hours pass between automatic updates.
pub proof fn law_default_interval()
    ensures
        DEFAULT_CRON_HOURS == 12,
{
}

} // verus!
