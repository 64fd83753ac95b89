//! What holds of every text that is trimmed, read as a number or written from one.

use crate::lines;
use crate::text;
use vstd::prelude::*;

verus! {

/// The ten digits stand for the numbers from zero to nine, and a longer number for ten times
/// what stands before its last digit and that digit.
pub proof fn lemma_digits_count(n: nat, d: nat)
    requires
        d < 10,
    ensures
        text::decimal(0) == seq!['0'],
        text::decimal(1) == seq!['1'],
        text::decimal(2) == seq!['2'],
        text::decimal(3) == seq!['3'],
        text::decimal(4) == seq!['4'],
        text::decimal(5) == seq!['5'],
        text::decimal(6) == seq!['6'],
        text::decimal(7) == seq!['7'],
        text::decimal(8) == seq!['8'],
        text::decimal(9) == seq!['9'],
        n > 0 ==> text::decimal(10 * n + d) == text::decimal(n) + text::decimal(d),
{
    assert(text::decimal(0) =~= seq!['0']);
    assert(text::decimal(1) =~= seq!['1']);
    assert(text::decimal(2) =~= seq!['2']);
    assert(text::decimal(3) =~= seq!['3']);
    assert(text::decimal(4) =~= seq!['4']);
    assert(text::decimal(5) =~= seq!['5']);
    assert(text::decimal(6) =~= seq!['6']);
    assert(text::decimal(7) =~= seq!['7']);
    assert(text::decimal(8) =~= seq!['8']);
    assert(text::decimal(9) =~= seq!['9']);
    if n > 0 {
        let m = 10 * n + d;
        assert(m / 10 == n && m % 10 == d);
        assert(text::decimal(m) =~= text::decimal(n) + text::decimal(d));
    }
}

/// A number in digits, with a plus sign or without, is read as that number where it is not too
/// large, and as none where it is.
pub proof fn lemma_number_is_read(n: nat, max: nat)
    ensures
        n <= max ==> text::unsigned(text::decimal(n), max) == Some(n) && text::unsigned(
            seq!['+'] + text::decimal(n),
            max,
        ) == Some(n),
        n > max ==> text::unsigned(text::decimal(n), max) is None && text::unsigned(
            seq!['+'] + text::decimal(n),
            max,
        ) is None,
{
    text::lemma_decimal_number(n);
    assert(text::is_digit(text::decimal(n)[0]));
    assert((seq!['+'] + text::decimal(n)).drop_first() =~= text::decimal(n));
}

/// Zeros before a number do not count.
pub proof fn lemma_leading_zero(s: Seq<char>, max: nat)
    requires
        s.len() > 0,
        forall|i: int| 0 <= i < s.len() ==> '0' <= #[trigger] s[i] <= '9',
    ensures
        text::unsigned(seq!['0'] + s, max) == text::unsigned(s, max),
{
    lemma_zero_number(s);
    let z = seq!['0'] + s;
    assert(z[0] == '0' && '0' <= s[0] <= '9');
    assert(text::all_digits(s));
    assert(text::all_digits(z)) by {
        assert forall|i: int| 0 <= i < z.len() implies text::is_digit(#[trigger] z[i]) by {
            if i > 0 {
                assert(text::is_digit(s[i - 1]));
            }
        }
    }
}

proof fn lemma_zero_number(s: Seq<char>)
    ensures
        text::number(seq!['0'] + s) == text::number(s),
    decreases s.len(),
{
    let z = seq!['0'] + s;
    if s.len() == 0 {
        assert(z =~= seq!['0']);
        assert(z.drop_last() =~= Seq::<char>::empty());
        assert(text::number(z.drop_last()) == 0);
    } else {
        assert(z.drop_last() =~= seq!['0'] + s.drop_last());
        lemma_zero_number(s.drop_last());
    }
}

/// What is read as a number has nothing but digits in it, behind a plus sign at most, and at
/// least one.
pub proof fn lemma_only_digits_are_read(s: Seq<char>, max: nat, i: int)
    ensures
        s.len() == 0 ==> text::unsigned(s, max) is None,
        s == seq!['+'] ==> text::unsigned(s, max) is None,
        0 <= i < s.len() && !('0' <= s[i] <= '9') && (i > 0 || s[i] != '+') ==> text::unsigned(
            s,
            max,
        ) is None,
{
    if 0 <= i < s.len() && !('0' <= s[i] <= '9') && (i > 0 || s[i] != '+') {
        if s[0] == '+' {
            assert(s.drop_first()[i - 1] == s[i]);
            assert(!text::is_digit(s.drop_first()[i - 1]));
        } else {
            assert(!text::is_digit(s[i]));
        }
    }
}

/// A minus sign before a number has it read as the negative one.
pub proof fn lemma_signed_is_read(i: i64)
    ensures
        text::signed(text::signed_decimal(i as int)) == Some(i as int),
        i < 0 ==> text::signed_decimal(i as int) == seq!['-'] + text::decimal((-i) as nat),
        i >= 0 ==> text::signed_decimal(i as int) == text::decimal(i as nat),
{
    let m = if i < 0 {
        (-i) as nat
    } else {
        i as nat
    };
    text::lemma_decimal_number(m);
    assert(text::is_digit(text::decimal(m)[0]));
    if i < 0 {
        assert((seq!['-'] + text::decimal(m)).drop_first() =~= text::decimal(m));
    }
}

/// Whether a text holds nothing but white space: space, tabs, line ends and the wider blanks.
pub open spec fn is_blank(s: Seq<char>) -> bool {
    forall|i: int| 0 <= i < s.len() ==> text::is_space(#[trigger] s[i])
}

/// Blanks, tabs and line ends are white space; letters, digits and the signs of an id, a time
/// and a path are not.
pub proof fn lemma_white_space(c: char)
    ensures
        c == ' ' || c == '\t' || c == '\n' || c == '\r' ==> text::is_space(c),
        ('!' <= c <= '~') ==> !text::is_space(c),
{
}

proof fn lemma_trim_start_blank(a: Seq<char>, s: Seq<char>)
    requires
        is_blank(a),
    ensures
        text::trim_start(a + s) == text::trim_start(s),
    decreases a.len(),
{
    if a.len() == 0 {
        assert(a + s =~= s);
    } else {
        assert(text::is_space(a[0]));
        assert((a + s).drop_first() =~= a.drop_first() + s);
        assert(is_blank(a.drop_first())) by {
            assert forall|i: int| 0 <= i < a.drop_first().len() implies text::is_space(
                #[trigger] a.drop_first()[i],
            ) by {
                assert(text::is_space(a[i + 1]));
            }
        }
        lemma_trim_start_blank(a.drop_first(), s);
    }
}

proof fn lemma_trim_end_blank(s: Seq<char>, b: Seq<char>)
    requires
        is_blank(b),
    ensures
        text::trim_end(s + b) == text::trim_end(s),
    decreases b.len(),
{
    if b.len() == 0 {
        assert(s + b =~= s);
    } else {
        assert(text::is_space(b[b.len() - 1]));
        assert((s + b).drop_last() =~= s + b.drop_last());
        assert(is_blank(b.drop_last())) by {
            assert forall|i: int| 0 <= i < b.drop_last().len() implies text::is_space(
                #[trigger] b.drop_last()[i],
            ) by {
                assert(text::is_space(b[i]));
            }
        }
        lemma_trim_end_blank(s, b.drop_last());
    }
}

proof fn lemma_trim_start_split(s: Seq<char>, b: Seq<char>)
    ensures
        is_blank(s) ==> text::trim_start(s).len() == 0,
        !is_blank(s) ==> text::trim_start(s + b) == text::trim_start(s) + b && text::trim_start(
            s,
        ).len() > 0 && !text::is_space(text::trim_start(s)[0]),
    decreases s.len(),
{
    if s.len() > 0 {
        let rest = s.drop_first();
        lemma_trim_start_split(rest, b);
        assert((s + b).drop_first() =~= rest + b);
        if is_blank(s) {
            assert(text::is_space(s[0]));
            assert(is_blank(rest)) by {
                assert forall|i: int| 0 <= i < rest.len() implies text::is_space(
                    #[trigger] rest[i],
                ) by {
                    assert(text::is_space(s[i + 1]));
                }
            }
        } else if text::is_space(s[0]) {
            assert(!is_blank(rest)) by {
                let i = choose|i: int| 0 <= i < s.len() && !text::is_space(#[trigger] s[i]);
                assert(rest[i - 1] == s[i]);
            }
            assert((s + b)[0] == s[0]);
        } else {
            assert((s + b)[0] == s[0]);
        }
    }
}

/// White space around a text does not count when it is trimmed.
pub proof fn lemma_trim_ignores_blanks(a: Seq<char>, s: Seq<char>, b: Seq<char>)
    requires
        is_blank(a),
        is_blank(b),
    ensures
        text::trimmed(a + s + b) == text::trimmed(s),
{
    assert(a + s + b =~= a + (s + b));
    lemma_trim_start_blank(a, s + b);
    lemma_trim_start_split(s, b);
    if is_blank(s) {
        let sb = s + b;
        assert(is_blank(sb)) by {
            assert forall|i: int| 0 <= i < sb.len() implies text::is_space(#[trigger] sb[i]) by {
                if i < s.len() {
                    assert(text::is_space(s[i]));
                } else {
                    assert(text::is_space(b[i - s.len()]));
                }
            }
        }
        lemma_trim_start_split(sb, Seq::empty());
        assert(text::trim_start(sb) =~= text::trim_start(s));
    } else {
        lemma_trim_end_blank(text::trim_start(s), b);
    }
}

/// A text that neither begins nor ends with white space is left as it is.
pub proof fn lemma_trim_keeps_bare(s: Seq<char>)
    requires
        s.len() > 0 ==> !text::is_space(s[0]) && !text::is_space(s.last()),
    ensures
        text::trimmed(s) == s,
{
}

/// Parts are joined in order, with the separator between each two and nowhere else.
pub proof fn lemma_parts_are_joined(parts: Seq<Seq<char>>, last: Seq<char>, sep: Seq<char>)
    ensures
        text::joined(Seq::empty(), sep).len() == 0,
        text::joined(seq![last], sep) == last,
        parts.len() > 0 ==> text::joined(parts.push(last), sep) == text::joined(parts, sep) + sep
            + last,
{
    assert(parts.push(last).drop_last() =~= parts);
}

/// A line ends at a line feed, or at a carriage return before one; the rest is lines of its own.
pub proof fn lemma_lines_are_parted(line: Seq<char>, rest: Seq<char>)
    requires
        forall|i: int| 0 <= i < line.len() ==> #[trigger] line[i] != '\n',
        line.len() > 0 ==> line.last() != '\r',
    ensures
        lines::lines_of(line + seq!['\n'] + rest) == seq![line] + lines::lines_of(rest),
        lines::lines_of(line + seq!['\r', '\n'] + rest) == seq![line] + lines::lines_of(rest),
        line.len() > 0 ==> lines::lines_of(line) == seq![line],
        lines::lines_of(Seq::empty()).len() == 0,
{
    let a = line + seq!['\n'] + rest;
    text::lemma_find(a, '\n');
    assert(a[line.len() as int] == '\n');
    let i = text::find(a, '\n')->0 as int;
    assert(i == line.len()) by {
        if i < line.len() {
            assert(a[i] == line[i]);
        }
    }
    assert(a.take(i) =~= line);
    assert(a.skip(i + 1) =~= rest);
    let b = line + seq!['\r', '\n'] + rest;
    text::lemma_find(b, '\n');
    assert(b[line.len() as int + 1] == '\n');
    let j = text::find(b, '\n')->0 as int;
    assert(j == line.len() + 1) by {
        if j < line.len() {
            assert(b[j] == line[j]);
        }
    }
    assert(b.take(j) =~= line.push('\r'));
    assert(b.take(j).drop_last() =~= line);
    assert(b.skip(j + 1) =~= rest);
    text::lemma_find(line, '\n');
}

// --------------------------------------------------------------------------- operations

/// A number that is written is read as the same number, and one that is too great is not read.
pub proof fn lemma_written_number_is_read(
    n: u64,
    written: String,
    s: &str,
    small: Option<u32>,
    great: Option<u64>,
)
    requires
        call_ensures(text::decimal_text, (n,), written),
        s@ == written@,
        call_ensures(text::parse_u32, (s,), small),
        call_ensures(text::parse_u64, (s,), great),
    ensures
        great == Some(n),
        n <= u32::MAX ==> small == Some(n as u32),
        n > u32::MAX ==> small is None,
{
    lemma_number_is_read(n as nat, u32::MAX as nat);
    lemma_number_is_read(n as nat, u64::MAX as nat);
}

/// A signed number that is written is read as the same number.
pub proof fn lemma_written_signed_is_read(i: i64, written: String, s: &str, r: Option<i64>)
    requires
        call_ensures(text::signed_decimal_text, (i,), written),
        s@ == written@,
        call_ensures(text::parse_i64, (s,), r),
    ensures
        r == Some(i),
{
    lemma_signed_is_read(i);
}

/// A text within blanks is trimmed to the text, where it has none at its ends.
pub proof fn lemma_blanks_are_trimmed(a: Seq<char>, s: Seq<char>, b: Seq<char>, t: &str, r: &str)
    requires
        is_blank(a),
        is_blank(b),
        s.len() > 0 ==> !text::is_space(s[0]) && !text::is_space(s.last()),
        t@ == a + s + b,
        call_ensures(text::trim, (t,), r),
    ensures
        r@ == s,
{
    lemma_trim_ignores_blanks(a, s, b);
    lemma_trim_keeps_bare(s);
}

/// A character is found where it first stands, and a text holds another where that stands in it.
pub proof fn lemma_first_is_found(
    before: Seq<char>,
    c: char,
    after: Seq<char>,
    s: &str,
    at: Option<usize>,
)
    requires
        !before.contains(c),
        s@ == before + seq![c] + after || s@ == before,
        call_ensures(text::find_char, (s, c), at),
    ensures
        s@ == before ==> at is None,
        s@ != before ==> (at matches Some(i) && i == before.len()),
{
    text::lemma_find(s@, c);
    if s@ != before {
        assert(s@[before.len() as int] == c);
        let i = text::find(s@, c)->0 as int;
        if i < before.len() {
            assert(s@[i] == before[i]);
            assert(before.contains(c));
        }
    } else if at is Some {
        let i = text::find(s@, c)->0 as int;
        assert(before[i] == c);
    }
}

} // verus!
