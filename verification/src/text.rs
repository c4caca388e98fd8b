//! Numbers as decimal text.
use vstd::prelude::*;
use vstd::string::StringExecFns;

verus! {

/// The decimal digits of `n`, most significant first, without leading zeros.
pub open spec fn digits(n: nat) -> Seq<u8>
    decreases n,
{
    if n < 10 {
        seq![n as u8]
    } else {
        digits(n / 10).push((n % 10) as u8)
    }
}

/// The character of the digit `d`.
pub open spec fn digit_char(d: u8) -> char {
    (48 + d) as char
}

/// `n` written in decimal.
pub open spec fn decimal(n: nat) -> Seq<char> {
    Seq::new(digits(n).len(), |i: int| digit_char(digits(n)[i]))
}

pub open spec fn is_digit(c: char) -> bool {
    48 <= c as u32 <= 57
}

pub open spec fn all_digits(text: Seq<char>) -> bool {
    forall|i: int| 0 <= i < text.len() ==> is_digit(#[trigger] text[i])
}

/// What the character `c` counts for as a digit.
pub open spec fn digit_value(c: char) -> nat {
    if is_digit(c) {
        (c as u32 - 48) as nat
    } else {
        0
    }
}

/// The number that the digits in `text` stand for.
pub open spec fn decimal_value(text: Seq<char>) -> nat
    decreases text.len(),
{
    if text.len() == 0 {
        0
    } else {
        decimal_value(text.drop_last()) * 10 + digit_value(text.last())
    }
}

/// The number up to `max` that `text` stands for: one or more decimal digits, leading zeros allowed,
/// behind at most one plus sign.
pub open spec fn unsigned(text: Seq<char>, max: nat) -> Option<nat> {
    let number = if text.len() > 0 && text[0] == '+' {
        text.skip(1)
    } else {
        text
    };
    if number.len() > 0 && all_digits(number) && decimal_value(number) <= max {
        Some(decimal_value(number))
    } else {
        None
    }
}

/// The number below 256 that `text` stands for.
pub open spec fn octet(text: Seq<char>) -> Option<u8> {
    match unsigned(text, 255) {
        Some(n) => Some(n as u8),
        None => None,
    }
}

/// The parts of `text` between its dots, in order: one more than there are dots.
pub open spec fn split_at_dots(text: Seq<char>) -> Seq<Seq<char>>
    decreases text.len(),
{
    if text.len() == 0 {
        seq![Seq::empty()]
    } else {
        let before = split_at_dots(text.drop_last());
        if text.last() == '.' {
            before.push(Seq::empty())
        } else {
            before.drop_last().push(before.last().push(text.last()))
        }
    }
}

pub proof fn digits_bounds(n: nat)
    ensures
        digits(n).len() > 0,
        forall|i: int| 0 <= i < digits(n).len() ==> digits(n)[i] < 10,
    decreases n,
{
    if n >= 10 {
        digits_bounds(n / 10);
    }
}

/// Reading a number written in decimal gives the number.
pub proof fn decimal_round_trip(n: nat)
    ensures
        decimal_value(decimal(n)) == n,
        decimal(n).len() > 0,
        all_digits(decimal(n)),
    decreases n,
{
    digits_bounds(n);
    if n >= 10 {
        decimal_round_trip(n / 10);
        assert(decimal(n).drop_last() =~= decimal(n / 10));
        assert(decimal(n).last() == digit_char((n % 10) as u8));
        assert(digit_value(digit_char((n % 10) as u8)) == n % 10);
    } else {
        assert(decimal(n).drop_last() =~= Seq::<char>::empty());
        assert(decimal_value(Seq::<char>::empty()) == 0);
        assert(decimal(n).last() == digit_char(n as u8));
        assert(digit_value(digit_char(n as u8)) == n);
    }
}

/// Every number below 256 written in decimal is read back as itself.
pub proof fn octet_round_trip(n: u8)
    ensures
        octet(decimal(n as nat)) == Some(n),
{
    decimal_round_trip(n as nat);
    assert(is_digit(decimal(n as nat)[0]));
}

pub proof fn split_is_nonempty(text: Seq<char>)
    ensures
        split_at_dots(text).len() > 0,
    decreases text.len(),
{
    if text.len() > 0 {
        split_is_nonempty(text.drop_last());
    }
}

/// A part without dots ends up appended to the last part of what stands before it.
pub proof fn split_append(text: Seq<char>, part: Seq<char>)
    requires
        forall|i: int| 0 <= i < part.len() ==> part[i] != '.',
    ensures
        split_at_dots(text + part) == split_at_dots(text).drop_last().push(
            split_at_dots(text).last() + part,
        ),
    decreases part.len(),
{
    split_is_nonempty(text);
    let before = split_at_dots(text);
    if part.len() == 0 {
        assert(text + part =~= text);
        assert(before.last() + part =~= before.last());
        assert(before =~= before.drop_last().push(before.last()));
    } else {
        assert((text + part).drop_last() =~= text + part.drop_last());
        split_append(text, part.drop_last());
        let inner = split_at_dots(text + part.drop_last());
        assert(inner.drop_last() =~= before.drop_last());
        assert(inner.last() =~= before.last() + part.drop_last());
        assert(inner.last().push(part.last()) =~= before.last() + part);
        assert((text + part).last() == part.last());
    }
}

/// A dot and a part without dots behind a text add one part.
pub proof fn split_push_part(text: Seq<char>, part: Seq<char>)
    requires
        forall|i: int| 0 <= i < part.len() ==> part[i] != '.',
    ensures
        split_at_dots(text.push('.') + part) == split_at_dots(text).push(part),
{
    let dotted = text.push('.');
    assert(dotted.drop_last() =~= text);
    assert(split_at_dots(dotted) == split_at_dots(text).push(Seq::empty()));
    split_append(dotted, part);
    assert(split_at_dots(dotted).drop_last() =~= split_at_dots(text));
    assert(Seq::<char>::empty() + part =~= part);
}

/// More digits never make a number smaller.
proof fn decimal_value_grows(text: Seq<char>, n: int)
    requires
        0 <= n <= text.len(),
    ensures
        decimal_value(text.take(n)) <= decimal_value(text),
    decreases text.len() - n,
{
    if n < text.len() {
        decimal_value_grows(text, n + 1);
        assert(text.take(n + 1).drop_last() =~= text.take(n));
    } else {
        assert(text.take(n) =~= text);
    }
}

/// The decimal digits of `n`, most significant first.
pub fn digits_of(n: u64) -> (r: Vec<u8>)
    ensures
        r@ == digits(n as nat),
{
    let mut rest: u64 = n;
    let mut low: Vec<u8> = Vec::new();
    assert(digits(n as nat) =~= digits(n as nat) + low@.reverse());
    while rest >= 10
        invariant
            digits(n as nat) == digits(rest as nat) + low@.reverse(),
        decreases rest,
    {
        let ghost before = low@;
        low.push((rest % 10) as u8);
        proof {
            assert(low@.reverse() =~= seq![(rest % 10) as u8] + before.reverse());
            assert(digits(rest as nat) == digits((rest / 10) as nat).push((rest % 10) as u8));
            assert(digits(rest as nat) + before.reverse() =~= digits((rest / 10) as nat)
                + low@.reverse());
        }
        rest = rest / 10;
    }
    let ghost before = low@;
    low.push(rest as u8);
    proof {
        assert(low@.reverse() =~= seq![rest as u8] + before.reverse());
    }
    let mut out: Vec<u8> = Vec::new();
    let mut i: usize = low.len();
    while i > 0
        invariant
            i <= low@.len(),
            out@ == low@.reverse().take(low@.len() - i),
        decreases i,
    {
        i = i - 1;
        out.push(low[i]);
        assert(out@ =~= low@.reverse().take(low@.len() - i));
    }
    assert(out@ =~= low@.reverse());
    out
}

/// Appends the digit `d` to `out`.
fn append_digit(out: &mut String, d: u8)
    requires
        d < 10,
    ensures
        final(out)@ == old(out)@.push(digit_char(d)),
{
    let text = match d {
        0 => "0",
        1 => "1",
        2 => "2",
        3 => "3",
        4 => "4",
        5 => "5",
        6 => "6",
        7 => "7",
        8 => "8",
        _ => "9",
    };
    proof {
        reveal_strlit("0");
        reveal_strlit("1");
        reveal_strlit("2");
        reveal_strlit("3");
        reveal_strlit("4");
        reveal_strlit("5");
        reveal_strlit("6");
        reveal_strlit("7");
        reveal_strlit("8");
        reveal_strlit("9");
    }
    out.append(text);
    assert(out@ =~= old(out)@.push(digit_char(d)));
}

/// Appends `n` in decimal to `out`.
pub fn append_decimal(out: &mut String, n: u64)
    ensures
        final(out)@ == old(out)@ + decimal(n as nat),
{
    let ds = digits_of(n);
    let mut i: usize = 0;
    assert(decimal(n as nat).take(0) =~= Seq::<char>::empty());
    assert(out@ =~= old(out)@ + decimal(n as nat).take(0));
    while i < ds.len()
        invariant
            i <= ds@.len(),
            ds@ == digits(n as nat),
            out@ == old(out)@ + decimal(n as nat).take(i as int),
        decreases ds@.len() - i,
    {
        proof {
            digits_bounds(n as nat);
        }
        append_digit(out, ds[i]);
        i = i + 1;
        assert(out@ =~= old(out)@ + decimal(n as nat).take(i as int));
    }
    assert(decimal(n as nat).take(i as int) =~= decimal(n as nat));
}

/// The parts of `text` between its dots.
pub fn split_parts(text: &str) -> (r: Vec<Vec<char>>)
    ensures
        r@.len() == split_at_dots(text@).len(),
        forall|i: int| 0 <= i < r@.len() ==> r@[i]@ == split_at_dots(text@)[i],
{
    let mut parts: Vec<Vec<char>> = Vec::new();
    let mut current: Vec<char> = Vec::new();
    assert(text@.take(0) =~= Seq::<char>::empty());
    for c in it: text.chars()
        invariant
            it.seq() == text@,
            parts@.len() + 1 == split_at_dots(text@.take(it.index() as int)).len(),
            forall|i: int|
                0 <= i < parts@.len() ==> parts@[i]@ == split_at_dots(
                    text@.take(it.index() as int),
                )[i],
            current@ == split_at_dots(text@.take(it.index() as int)).last(),
    {
        let ghost n = it.index() as int;
        proof {
            assert(text@.take(n + 1).drop_last() =~= text@.take(n));
            assert(text@.take(n + 1).last() == c);
        }
        if c == '.' {
            parts.push(current);
            current = Vec::new();
        } else {
            current.push(c);
        }
    }
    assert(text@.take(text@.len() as int) =~= text@);
    parts.push(current);
    parts
}

/// The number below 256 that `text` stands for.
pub fn parse_octet(text: &Vec<char>) -> (r: Option<u8>)
    ensures
        r == octet(text@),
{
    match parse_unsigned(text, 255) {
        Some(n) => Some(n as u8),
        None => None,
    }
}

/// The number up to `max` that `text` stands for.
pub fn parse_unsigned(text: &Vec<char>, max: u32) -> (r: Option<u32>)
    ensures
        match r {
            Some(n) => unsigned(text@, max as nat) == Some(n as nat),
            None => unsigned(text@, max as nat) is None,
        },
{
    let start: usize = if text.len() > 0 && text[0] == '+' { 1 } else { 0 };
    let ghost number = if text@.len() > 0 && text@[0] == '+' {
        text@.skip(1)
    } else {
        text@
    };
    assert(number =~= text@.skip(start as int));
    if text.len() == start {
        return None;
    }
    let mut value: u64 = 0;
    let mut i: usize = start;
    assert(number.take(0) =~= Seq::<char>::empty());
    while i < text.len()
        invariant
            start <= i <= text@.len(),
            number == text@.skip(start as int),
            number.len() > 0,
            unsigned(text@, max as nat) == (if all_digits(number) && decimal_value(number) <= max {
                Some(decimal_value(number))
            } else {
                None::<nat>
            }),
            forall|j: int| 0 <= j < i - start ==> is_digit(number[j]),
            value == decimal_value(number.take(i - start)),
            value <= max,
        decreases text@.len() - i,
    {
        let ch: char = text[i];
        let c: u32 = ch as u32;
        assert(number[i - start] == text@[i as int]);
        if c < 48 || c > 57 {
            assert(!is_digit(number[i - start]));
            return None;
        }
        value = value * 10 + (c - 48) as u64;
        proof {
            assert(number.take(i + 1 - start).drop_last() =~= number.take(i - start));
            assert(value == decimal_value(number.take(i + 1 - start)));
            decimal_value_grows(number, i + 1 - start);
        }
        if value > max as u64 {
            return None;
        }
        i = i + 1;
    }
    assert(number.take(i - start) =~= number);
    Some(value as u32)
}

/// The characters of `text`.
pub fn chars_of(text: &str) -> (r: Vec<char>)
    ensures
        r@ == text@,
{
    let mut out: Vec<char> = Vec::new();
    assert(text@.take(0) =~= Seq::<char>::empty());
    for c in it: text.chars()
        invariant
            it.seq() == text@,
            out@ == text@.take(it.index() as int),
    {
        let ghost n = it.index() as int;
        out.push(c);
        assert(out@ =~= text@.take(n + 1));
    }
    assert(text@.take(text@.len() as int) =~= text@);
    out
}

} // verus!
