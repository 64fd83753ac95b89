//! Text: trimming, numbers, joining and searching, over the characters of a string.

use vstd::prelude::*;
use vstd::string::*;
use vstd::utf8::*;

verus! {

/// `String::push` appends one character.
pub assume_specification[ String::push ](s: &mut String, c: char)
    ensures
        final(s)@ == old(s)@.push(c),
;

/// The lower-case form of a text, as `str::to_lowercase` gives it.
pub uninterp spec fn lowercase(s: Seq<char>) -> Seq<char>;

/// `str::to_lowercase` is a function of the text; on ASCII text it maps `A`-`Z` to `a`-`z`
/// and leaves every other character as it is.
pub assume_specification[ str::to_lowercase ](s: &str) -> (r: String)
    ensures
        r@ == lowercase(s@),
        is_ascii(s) ==> r@ == s@.map_values(|c: char| ascii_lower(c)),
;

/// The `{:?}` rendering of a text: quoted, with escapes where they are due.
pub uninterp spec fn debug_text(s: Seq<char>) -> Seq<char>;

/// `format!("{:?}", s)` of a string is a function of its characters.
#[verifier::external_body]
pub(crate) fn quoted(s: &str) -> (r: String)
    ensures
        r@ == debug_text(s@),
{
    format!("{s:?}")
}

// ---------------------------------------------------------------- characters

/// The characters with the Unicode property `White_Space`.
pub open spec fn is_space(c: char) -> bool {
    ||| '\u{9}' <= c <= '\u{d}'
    ||| c == ' '
    ||| c == '\u{85}'
    ||| c == '\u{a0}'
    ||| c == '\u{1680}'
    ||| '\u{2000}' <= c <= '\u{200a}'
    ||| c == '\u{2028}'
    ||| c == '\u{2029}'
    ||| c == '\u{202f}'
    ||| c == '\u{205f}'
    ||| c == '\u{3000}'
}

pub open spec fn is_digit(c: char) -> bool {
    '0' <= c <= '9'
}

pub open spec fn is_lower(c: char) -> bool {
    'a' <= c <= 'z'
}

pub open spec fn is_upper(c: char) -> bool {
    'A' <= c <= 'Z'
}

pub open spec fn ascii_lower(c: char) -> char {
    if is_upper(c) {
        ((c as u32) + 32) as char
    } else {
        c
    }
}

/// The digit that stands for `d`, for `d < 10`.
pub open spec fn digit_char(d: nat) -> char {
    (('0' as u32) + d) as char
}

pub open spec fn digit_value(c: char) -> nat {
    (c as u32 - '0' as u32) as nat
}

pub fn space_char(c: char) -> (r: bool)
    ensures
        r == is_space(c),
{
    ('\u{9}' <= c && c <= '\u{d}') || c == ' ' || c == '\u{85}' || c == '\u{a0}' || c == '\u{1680}'
        || ('\u{2000}' <= c && c <= '\u{200a}') || c == '\u{2028}' || c == '\u{2029}'
        || c == '\u{202f}' || c == '\u{205f}' || c == '\u{3000}'
}

// ------------------------------------------------------- building and comparing

/// The characters of a text.
pub fn chars_of(s: &str) -> (v: Vec<char>)
    ensures
        v@ == s@,
{
    let mut v: Vec<char> = Vec::new();
    for c in it: s.chars()
        invariant
            it.seq() == s@,
            v@ == s@.take(it.index() as int),
    {
        v.push(c);
    }
    v
}

/// The text made of the characters `v[from..to]`.
pub fn text_of(v: &Vec<char>, from: usize, to: usize) -> (s: String)
    requires
        from <= to <= v@.len(),
    ensures
        s@ == v@.subrange(from as int, to as int),
{
    let mut s = String::new();
    let mut i: usize = from;
    while i < to
        invariant
            from <= i <= to <= v@.len(),
            s@ == v@.subrange(from as int, i as int),
        decreases to - i,
    {
        s.push(v[i]);
        i += 1;
    }
    s
}

/// Whether two texts hold the same characters.
pub fn same(a: &str, b: &str) -> (r: bool)
    ensures
        r == (a@ == b@),
{
    let x = chars_of(a);
    let y = chars_of(b);
    if x.len() != y.len() {
        return false;
    }
    let mut i: usize = 0;
    while i < x.len()
        invariant
            x@ == a@,
            y@ == b@,
            x.len() == y.len(),
            i <= x.len(),
            forall|j: int| 0 <= j < i ==> x@[j] == y@[j],
        decreases x.len() - i,
    {
        if x[i] != y[i] {
            return false;
        }
        i += 1;
    }
    assert(a@ =~= b@);
    true
}

/// The views of a list of texts.
pub open spec fn views(v: Seq<String>) -> Seq<Seq<char>> {
    v.map_values(|s: String| s@)
}

/// The view of an optional text.
pub open spec fn opt_view(o: Option<String>) -> Option<Seq<char>> {
    match o {
        Some(s) => Some(s@),
        None => None,
    }
}

/// A copy of an optional text.
pub fn copy_opt(o: &Option<String>) -> (r: Option<String>)
    ensures
        opt_view(r) == opt_view(*o),
{
    match o {
        Some(s) => Some(s.clone()),
        None => None,
    }
}

/// A copy of a list of texts.
pub fn copy_all(v: &Vec<String>) -> (r: Vec<String>)
    ensures
        views(r@) == views(v@),
{
    let mut r: Vec<String> = Vec::new();
    let mut i: usize = 0;
    while i < v.len()
        invariant
            i <= v.len(),
            r.len() == i,
            forall|j: int| 0 <= j < i ==> r@[j]@ == v@[j]@,
        decreases v.len() - i,
    {
        r.push(v[i].clone());
        i += 1;
    }
    assert(views(r@) =~= views(v@));
    r
}

// -------------------------------------------------------------------- trimming

pub open spec fn trim_start(s: Seq<char>) -> Seq<char>
    decreases s.len(),
{
    if s.len() > 0 && is_space(s[0]) {
        trim_start(s.drop_first())
    } else {
        s
    }
}

pub open spec fn trim_end(s: Seq<char>) -> Seq<char>
    decreases s.len(),
{
    if s.len() > 0 && is_space(s.last()) {
        trim_end(s.drop_last())
    } else {
        s
    }
}

/// The text without the white space at its two ends.
pub open spec fn trimmed(s: Seq<char>) -> Seq<char> {
    trim_end(trim_start(s))
}

/// The text without the white space at its two ends.
pub fn trim(s: &str) -> (r: &str)
    ensures
        r@ == trimmed(s@),
{
    let v = chars_of(s);
    let n = v.len();
    let mut i: usize = 0;
    assert(v@.subrange(0, n as int) =~= v@);
    while i < n && space_char(v[i])
        invariant
            n == v@.len(),
            v@ == s@,
            i <= n,
            trim_start(v@.subrange(i as int, n as int)) == trim_start(s@),
        decreases n - i,
    {
        assert(v@.subrange(i as int, n as int).drop_first() =~= v@.subrange(i + 1, n as int));
        i += 1;
    }
    assert(trim_start(s@) == v@.subrange(i as int, n as int));
    let mut j: usize = n;
    while j > i && space_char(v[j - 1])
        invariant
            n == v@.len(),
            v@ == s@,
            i <= j <= n,
            trim_end(v@.subrange(i as int, j as int)) == trimmed(s@),
        decreases j,
    {
        assert(v@.subrange(i as int, j as int).drop_last() =~= v@.subrange(i as int, j - 1));
        j -= 1;
    }
    s.substring_char(i, j)
}

// --------------------------------------------------------------------- numbers

pub open spec fn all_digits(s: Seq<char>) -> bool {
    forall|i: int| 0 <= i < s.len() ==> is_digit(#[trigger] s[i])
}

/// The number that a run of digits stands for.
pub open spec fn number(s: Seq<char>) -> nat
    decreases s.len(),
{
    if s.len() == 0 {
        0
    } else {
        number(s.drop_last()) * 10 + digit_value(s.last())
    }
}

/// The digits of a number, without leading zeros.
pub open spec fn decimal(n: nat) -> Seq<char>
    decreases n,
{
    if n < 10 {
        seq![digit_char(n)]
    } else {
        decimal(n / 10).push(digit_char(n % 10))
    }
}

/// The digits of an integer, with a minus sign where it is negative.
pub open spec fn signed_decimal(i: int) -> Seq<char> {
    if i < 0 {
        seq!['-'] + decimal((-i) as nat)
    } else {
        decimal(i as nat)
    }
}

/// What a text says as an unsigned integer of at most `max`: digits, with an optional plus
/// sign before them.
pub open spec fn unsigned(s: Seq<char>, max: nat) -> Option<nat> {
    let d = if s.len() > 0 && s[0] == '+' {
        s.drop_first()
    } else {
        s
    };
    if d.len() > 0 && all_digits(d) && number(d) <= max {
        Some(number(d))
    } else {
        None
    }
}

proof fn lemma_number_prefix(s: Seq<char>, k: int)
    requires
        0 <= k <= s.len(),
    ensures
        number(s.take(k)) <= number(s),
    decreases s.len(),
{
    if k == s.len() {
        assert(s.take(k) =~= s);
    } else {
        assert(s.drop_last().take(k) =~= s.take(k));
        lemma_number_prefix(s.drop_last(), k);
    }
}

/// Writing a number out and reading it back gives the number.
pub proof fn lemma_decimal_number(n: nat)
    ensures
        number(decimal(n)) == n,
        all_digits(decimal(n)),
        decimal(n).len() > 0,
        n > 0 ==> decimal(n)[0] != '0',
    decreases n,
{
    if n < 10 {
        assert(decimal(n).drop_last() =~= Seq::empty());
        assert(number(Seq::<char>::empty()) == 0);
    } else {
        lemma_decimal_number(n / 10);
        assert(decimal(n).drop_last() =~= decimal(n / 10));
    }
}

/// Distinct numbers have distinct digits.
pub proof fn lemma_decimal_injective(a: nat, b: nat)
    requires
        decimal(a) == decimal(b),
    ensures
        a == b,
{
    lemma_decimal_number(a);
    lemma_decimal_number(b);
}

/// Distinct integers are written differently.
pub proof fn lemma_signed_decimal_injective(a: int, b: int)
    requires
        signed_decimal(a) == signed_decimal(b),
    ensures
        a == b,
{
    lemma_decimal_number(if a < 0 { (-a) as nat } else { a as nat });
    lemma_decimal_number(if b < 0 { (-b) as nat } else { b as nat });
    if a < 0 && b < 0 {
        assert(signed_decimal(a).drop_first() =~= decimal((-a) as nat));
        assert(signed_decimal(b).drop_first() =~= decimal((-b) as nat));
    } else if a < 0 {
        assert(signed_decimal(a)[0] == '-');
        assert(is_digit(decimal(b as nat)[0]));
    } else if b < 0 {
        assert(signed_decimal(b)[0] == '-');
        assert(is_digit(decimal(a as nat)[0]));
    }
}

fn unsigned_within(s: &str, max: u64) -> (r: Option<u64>)
    ensures
        (match r {
            Some(n) => unsigned(s@, max as nat) == Some(n as nat),
            None => unsigned(s@, max as nat) is None,
        }),
{
    let v = chars_of(s);
    let start: usize = if v.len() > 0 && v[0] == '+' {
        1
    } else {
        0
    };
    let ghost d = v@.subrange(start as int, v@.len() as int);
    proof {
        if start == 1 {
            assert(s@.drop_first() =~= d);
        } else {
            assert(s@ =~= d);
        }
    }
    if start == v.len() {
        return None;
    }
    let mut n: u64 = 0;
    let mut i: usize = start;
    while i < v.len()
        invariant
            start <= i <= v.len(),
            d == v@.subrange(start as int, v@.len() as int),
            unsigned(s@, max as nat) == (if d.len() > 0 && all_digits(d) && number(d) <= max {
                Some(number(d))
            } else {
                None
            }),
            n == number(d.take(i - start)),
            n <= max,
            forall|k: int| 0 <= k < i - start ==> is_digit(#[trigger] d[k]),
        decreases v.len() - i,
    {
        let c = v[i];
        assert(c == d[i - start]);
        if !('0' <= c && c <= '9') {
            return None;
        }
        let digit: u64 = (c as u32 - '0' as u32) as u64;
        proof {
            assert(d.take(i - start + 1).drop_last() =~= d.take(i - start));
            lemma_number_prefix(d, i - start + 1);
        }
        if n > (u64::MAX - digit) / 10 || n * 10 + digit > max {
            return None;
        }
        n = n * 10 + digit;
        i += 1;
    }
    assert(d.take(d.len() as int) =~= d);
    Some(n)
}

/// Reads an unsigned 32-bit integer, as `str::parse` does.
pub fn parse_u32(s: &str) -> (r: Option<u32>)
    ensures
        (match r {
            Some(n) => unsigned(s@, u32::MAX as nat) == Some(n as nat),
            None => unsigned(s@, u32::MAX as nat) is None,
        }),
{
    match unsigned_within(s, u32::MAX as u64) {
        Some(n) => Some(n as u32),
        None => None,
    }
}

/// Reads an unsigned 64-bit integer, as `str::parse` does.
pub fn parse_u64(s: &str) -> (r: Option<u64>)
    ensures
        (match r {
            Some(n) => unsigned(s@, u64::MAX as nat) == Some(n as nat),
            None => unsigned(s@, u64::MAX as nat) is None,
        }),
{
    unsigned_within(s, u64::MAX)
}

/// What a text says as a signed 64-bit integer: digits, with an optional sign before them.
pub open spec fn signed(s: Seq<char>) -> Option<int> {
    if s.len() > 0 && s[0] == '-' {
        let d = s.drop_first();
        if d.len() > 0 && all_digits(d) && -number(d) >= i64::MIN {
            Some(-number(d))
        } else {
            None
        }
    } else {
        match unsigned(s, i64::MAX as nat) {
            Some(n) => Some(n as int),
            None => None,
        }
    }
}

/// Reads a signed 64-bit integer, as `str::parse` does.
pub fn parse_i64(s: &str) -> (r: Option<i64>)
    ensures
        (match r {
            Some(n) => signed(s@) == Some(n as int),
            None => signed(s@) is None,
        }),
{
    let v = chars_of(s);
    let n = v.len();
    if n > 0 && v[0] == '-' {
        let body = s.substring_char(1, n);
        assert(body@ =~= s@.drop_first());
        if n > 1 && v[1] == '+' {
            assert(body@[0] == '+');
            return None;
        }
        match unsigned_within(body, 9223372036854775808) {
            Some(m) => if m == 9223372036854775808 {
                Some(i64::MIN)
            } else {
                Some(-(m as i64))
            },
            None => None,
        }
    } else {
        match unsigned_within(s, i64::MAX as u64) {
            Some(m) => Some(m as i64),
            None => None,
        }
    }
}

/// Appends the digits of `n`.
pub fn push_decimal(out: &mut String, n: u64)
    ensures
        final(out)@ == old(out)@ + decimal(n as nat),
    decreases n,
{
    if n >= 10 {
        push_decimal(out, n / 10);
    }
    let d: u8 = '0' as u8 + (n % 10) as u8;
    out.push(d as char);
    assert(out@ =~= old(out)@ + decimal(n as nat));
}

/// The digits of `n`.
pub fn decimal_text(n: u64) -> (r: String)
    ensures
        r@ == decimal(n as nat),
{
    let mut r = String::new();
    push_decimal(&mut r, n);
    assert(r@ =~= decimal(n as nat));
    r
}

/// The digits of `i`, with a minus sign where it is negative.
pub fn signed_decimal_text(i: i64) -> (r: String)
    ensures
        r@ == signed_decimal(i as int),
{
    let mut r = String::new();
    if i < 0 {
        r.push('-');
        let m: u64 = if i == i64::MIN {
            0x8000_0000_0000_0000
        } else {
            (-i) as u64
        };
        push_decimal(&mut r, m);
    } else {
        push_decimal(&mut r, i as u64);
    }
    assert(r@ =~= signed_decimal(i as int));
    r
}

// ------------------------------------------------------------ joining, searching

/// The parts in order, with `sep` between one and the next.
pub open spec fn joined(parts: Seq<Seq<char>>, sep: Seq<char>) -> Seq<char>
    decreases parts.len(),
{
    if parts.len() == 0 {
        Seq::empty()
    } else if parts.len() == 1 {
        parts[0]
    } else {
        joined(parts.drop_last(), sep) + sep + parts.last()
    }
}

/// The parts in order, with `sep` between one and the next.
pub fn join(parts: &Vec<String>, sep: &str) -> (r: String)
    ensures
        r@ == joined(views(parts@), sep@),
{
    let mut r = String::new();
    let mut i: usize = 0;
    while i < parts.len()
        invariant
            i <= parts.len(),
            r@ == joined(views(parts@).take(i as int), sep@),
        decreases parts.len() - i,
    {
        if i > 0 {
            r.append(sep);
        }
        r.append(parts[i].as_str());
        assert(views(parts@).take(i + 1).drop_last() =~= views(parts@).take(i as int));
        assert(r@ =~= joined(views(parts@).take(i + 1), sep@));
        i += 1;
    }
    assert(views(parts@).take(i as int) =~= views(parts@));
    r
}

/// Whether `needle` stands in `hay` at `i`.
pub open spec fn occurs_at(hay: Seq<char>, needle: Seq<char>, i: int) -> bool {
    0 <= i <= hay.len() - needle.len() && hay.subrange(i, i + needle.len()) == needle
}

/// Whether `needle` stands somewhere in `hay`.
pub open spec fn occurs(hay: Seq<char>, needle: Seq<char>) -> bool {
    exists|i: int| occurs_at(hay, needle, i)
}

fn matches_at(hay: &Vec<char>, needle: &Vec<char>, i: usize) -> (r: bool)
    requires
        i + needle@.len() <= hay@.len(),
    ensures
        r == occurs_at(hay@, needle@, i as int),
{
    let ghost part = hay@.subrange(i as int, i + needle@.len());
    let mut j: usize = 0;
    while j < needle.len()
        invariant
            i + needle@.len() <= hay.len(),
            part == hay@.subrange(i as int, i + needle@.len()),
            j <= needle@.len(),
            forall|k: int| 0 <= k < j ==> part[k] == needle@[k],
        decreases needle.len() - j,
    {
        if hay[i + j] != needle[j] {
            assert(part[j as int] != needle@[j as int]);
            return false;
        }
        j += 1;
    }
    assert(part =~= needle@);
    true
}

/// Whether `needle` stands somewhere in `hay`.
pub fn contains(hay: &str, needle: &str) -> (r: bool)
    ensures
        r == occurs(hay@, needle@),
{
    let h = chars_of(hay);
    let n = chars_of(needle);
    if n.len() > h.len() {
        return false;
    }
    let last = h.len() - n.len();
    let mut i: usize = 0;
    while i <= last
        invariant
            h@ == hay@,
            n@ == needle@,
            last == h@.len() - n@.len(),
            i <= last + 1,
            forall|k: int| 0 <= k < i ==> !occurs_at(hay@, needle@, k),
        decreases last + 1 - i,
    {
        if matches_at(&h, &n, i) {
            return true;
        }
        if i == last {
            return false;
        }
        i += 1;
    }
    false
}

/// Whether `s` begins with `p`.
pub fn starts_with(s: &str, p: &str) -> (r: bool)
    ensures
        r == p@.is_prefix_of(s@),
{
    let a = chars_of(s);
    let b = chars_of(p);
    if b.len() > a.len() {
        return false;
    }
    matches_at(&a, &b, 0)
}

/// Where `c` first stands in `s`.
pub open spec fn find(s: Seq<char>, c: char) -> Option<nat>
    decreases s.len(),
{
    if s.len() == 0 {
        None
    } else if s[0] == c {
        Some(0)
    } else {
        match find(s.drop_first(), c) {
            Some(i) => Some(i + 1),
            None => None,
        }
    }
}

/// `find` gives the first place of the character, and none where it does not occur.
pub proof fn lemma_find(s: Seq<char>, c: char)
    ensures
        (match find(s, c) {
            Some(i) => i < s.len() && s[i as int] == c && forall|j: int| 0 <= j < i ==> s[j] != c,
            None => !s.contains(c),
        }),
    decreases s.len(),
{
    if s.len() > 0 && s[0] != c {
        let t = s.drop_first();
        lemma_find(t, c);
        match find(t, c) {
            Some(i) => {
                assert forall|j: int| 0 <= j < i + 1 implies s[j] != c by {
                    if j > 0 {
                        assert(t[j - 1] == s[j]);
                    }
                }
            },
            None => {
                if s.contains(c) {
                    let k = s.index_of(c);
                    assert(t[k - 1] == c);
                }
            },
        }
    }
}

/// Where `c` first stands in `s`, in characters.
pub fn find_char(s: &str, c: char) -> (r: Option<usize>)
    ensures
        (match r {
            Some(i) => find(s@, c) == Some(i as nat),
            None => find(s@, c) is None,
        }),
{
    let v = chars_of(s);
    let mut i: usize = 0;
    proof {
        lemma_find(s@, c);
    }
    while i < v.len()
        invariant
            v@ == s@,
            i <= v.len(),
            forall|j: int| 0 <= j < i ==> s@[j] != c,
            match find(s@, c) {
                Some(k) => k < s@.len() && s@[k as int] == c && forall|j: int|
                    0 <= j < k ==> s@[j] != c,
                None => !s@.contains(c),
            },
        decreases v.len() - i,
    {
        if v[i] == c {
            assert(s@.contains(c));
            return Some(i);
        }
        i += 1;
    }
    None
}

// --------------------------------------------------------- reading a delimited text

/// A delimiter whose first character stands nowhere else in it.
pub open spec fn is_delimiter(p: Seq<char>) -> bool {
    p.len() > 0 && forall|k: int| 0 < k < p.len() ==> #[trigger] p[k] != p[0]
}

/// What stands before a delimiter that it does not hold, and what follows, can be read back.
pub proof fn lemma_split_unique(
    a: Seq<char>,
    rest_a: Seq<char>,
    b: Seq<char>,
    rest_b: Seq<char>,
    p: Seq<char>,
)
    requires
        a + p + rest_a == b + p + rest_b,
        is_delimiter(p),
        !occurs(a, p),
        !occurs(b, p),
    ensures
        a == b,
        rest_a == rest_b,
{
    let whole = a + p + rest_a;
    lemma_split_order(a, rest_a, b, rest_b, p);
    lemma_split_order(b, rest_b, a, rest_a, p);
    assert(whole.take(a.len() as int) =~= a);
    assert((b + p + rest_b).take(b.len() as int) =~= b);
    let k = a.len() + p.len();
    assert(whole.skip(k as int) =~= rest_a);
    assert((b + p + rest_b).skip(k as int) =~= rest_b);
}

proof fn lemma_split_order(
    a: Seq<char>,
    rest_a: Seq<char>,
    b: Seq<char>,
    rest_b: Seq<char>,
    p: Seq<char>,
)
    requires
        a + p + rest_a == b + p + rest_b,
        is_delimiter(p),
        !occurs(b, p),
    ensures
        a.len() >= b.len(),
{
    let whole = a + p + rest_a;
    let other = b + p + rest_b;
    if a.len() >= b.len() {
    } else if a.len() + p.len() <= b.len() {
        let i = a.len() as int;
        assert forall|k: int| 0 <= k < p.len() implies b[i + k] == p[k] by {
            assert(whole[i + k] == p[k]);
            assert(other[i + k] == b[i + k]);
        }
        assert(b.subrange(i, i + p.len()) =~= p);
        assert(occurs_at(b, p, i));
    } else {
        let i = b.len() as int;
        assert(other[i] == p[0]);
        assert(whole[i] == p[i - a.len()]);
    }
}

/// Whether no part holds the character `c`.
pub open spec fn free_of(parts: Seq<Seq<char>>, c: char) -> bool {
    forall|i: int| 0 <= i < parts.len() ==> !(#[trigger] parts[i]).contains(c)
}

/// A list joined on a character that no part holds can be read back, but for the list of one
/// empty part, which reads as the empty list.
pub proof fn lemma_joined_injective(a: Seq<Seq<char>>, b: Seq<Seq<char>>, c: char)
    requires
        joined(a, seq![c]) == joined(b, seq![c]),
        free_of(a, c),
        free_of(b, c),
        a != seq![Seq::<char>::empty()],
        b != seq![Seq::<char>::empty()],
    ensures
        a == b,
{
    if a.len() > 0 && b.len() > 0 {
        lemma_joined_nonempty(a, b, c);
    } else if a.len() == 0 && b.len() == 0 {
        assert(a =~= b);
    } else if a.len() == 0 {
        lemma_joined_empty(b, c);
    } else {
        lemma_joined_empty(a, c);
    }
}

proof fn lemma_joined_empty(a: Seq<Seq<char>>, c: char)
    requires
        a.len() > 0,
        joined(a, seq![c]).len() == 0,
    ensures
        a == seq![Seq::<char>::empty()],
{
    if a.len() == 1 {
        assert(a[0] =~= Seq::<char>::empty());
        assert(a =~= seq![Seq::<char>::empty()]);
    }
}

proof fn lemma_joined_nonempty(a: Seq<Seq<char>>, b: Seq<Seq<char>>, c: char)
    requires
        joined(a, seq![c]) == joined(b, seq![c]),
        free_of(a, c),
        free_of(b, c),
        a.len() > 0,
        b.len() > 0,
    ensures
        a == b,
    decreases a.len(),
{
    let sep = seq![c];
    if a.len() == 1 && b.len() == 1 {
        assert(a =~= b);
    } else if a.len() == 1 {
        let head = joined(b.drop_last(), sep);
        assert((head + sep + b.last())[head.len() as int] == c);
        assert(a[0].contains(c));
    } else if b.len() == 1 {
        let head = joined(a.drop_last(), sep);
        assert((head + sep + a.last())[head.len() as int] == c);
        assert(b[0].contains(c));
    } else {
        let ha = joined(a.drop_last(), sep);
        let hb = joined(b.drop_last(), sep);
        let whole = ha + sep + a.last();
        let other = hb + sep + b.last();
        assert(joined(a, sep) == whole && joined(b, sep) == other);
        assert(whole.len() == other.len());
        if ha.len() < hb.len() {
            assert(other[hb.len() as int] == c);
            assert(whole[hb.len() as int] == a.last()[hb.len() - ha.len() - 1]);
            assert(a[a.len() - 1].contains(c));
        } else if hb.len() < ha.len() {
            assert(whole[ha.len() as int] == c);
            assert(other[ha.len() as int] == b.last()[ha.len() - hb.len() - 1]);
            assert(b[b.len() - 1].contains(c));
        } else {
            assert(whole.take(ha.len() as int) =~= ha);
            assert(other.take(hb.len() as int) =~= hb);
            assert(whole.skip(ha.len() as int + 1) =~= a.last());
            assert(other.skip(hb.len() as int + 1) =~= b.last());
            assert forall|i: int| 0 <= i < a.drop_last().len() implies !(
            #[trigger] a.drop_last()[i]).contains(c) by {
                assert(a.drop_last()[i] == a[i]);
            }
            assert forall|i: int| 0 <= i < b.drop_last().len() implies !(
            #[trigger] b.drop_last()[i]).contains(c) by {
                assert(b.drop_last()[i] == b[i]);
            }
            lemma_joined_nonempty(a.drop_last(), b.drop_last(), c);
            assert(a =~= a.drop_last().push(a.last()));
            assert(b =~= b.drop_last().push(b.last()));
        }
    }
}

// ---------------------------------------------------------------- bytes of a text

/// The encoding of a text is the encoding of its parts in order.
pub proof fn lemma_encode_concat(a: Seq<char>, b: Seq<char>)
    ensures
        encode_utf8(a + b) == encode_utf8(a) + encode_utf8(b),
    decreases a.len(),
{
    if a.len() == 0 {
        assert(a + b =~= b);
        assert(encode_utf8(a) + encode_utf8(b) =~= encode_utf8(b));
    } else {
        assert((a + b).drop_first() =~= a.drop_first() + b);
        lemma_encode_concat(a.drop_first(), b);
        assert(encode_utf8(a + b) =~= encode_utf8(a) + encode_utf8(b));
    }
}

/// Distinct texts have distinct encodings.
pub proof fn lemma_encode_injective(a: Seq<char>, b: Seq<char>)
    requires
        encode_utf8(a) == encode_utf8(b),
    ensures
        a == b,
{
    encode_utf8_decode_utf8(a);
    encode_utf8_decode_utf8(b);
}

/// The characters in the first `at` bytes of a text.
pub open spec fn first_bytes(s: Seq<char>, at: int) -> Seq<char> {
    decode_utf8(encode_utf8(s).take(at))
}

/// Whether a byte offset lies between two characters of a text, or at one of its ends.
pub open spec fn is_boundary(s: Seq<char>, at: int) -> bool {
    0 <= at <= encode_utf8(s).len() && is_char_boundary(encode_utf8(s), at)
}

/// The end of a leading part is a boundary of the whole.
pub proof fn lemma_boundary_after(a: Seq<char>, b: Seq<char>)
    ensures
        is_boundary(a + b, encode_utf8(a).len() as int),
{
    lemma_encode_concat(a, b);
    let whole = encode_utf8(a + b);
    let tail = encode_utf8(b);
    let at = encode_utf8(a).len() as int;
    encode_utf8_valid_utf8(b);
    encode_utf8_valid_utf8(a + b);
    is_char_boundary_start_end_of_seq(whole);
    if at < whole.len() {
        assert(whole[at] == tail[0]);
        is_char_boundary_start_end_of_seq(tail);
        is_char_boundary_iff_not_is_continuation_byte(tail, 0);
        is_char_boundary_iff_not_is_continuation_byte(whole, at);
    }
}

/// Splits a text at a byte offset.
pub fn split_bytes(s: &str, at: usize) -> (r: (&str, &str))
    requires
        is_boundary(s@, at as int),
    ensures
        r.0@ == first_bytes(s@, at as int),
        r.0@ + r.1@ == s@,
        encode_utf8(r.0@).len() == at,
{
    let (a, b) = s.split_at(at);
    proof {
        lemma_encode_concat(a@, b@);
        assert(encode_utf8(a@ + b@) =~= encode_utf8(s@));
        lemma_encode_injective(a@ + b@, s@);
        assert(encode_utf8(s@).take(at as int) =~= encode_utf8(a@));
        encode_utf8_decode_utf8(a@);
    }
    (a, b)
}

/// How many bytes a text has.
pub fn byte_length(s: &str) -> (r: usize)
    ensures
        r == encode_utf8(s@).len(),
{
    s.as_bytes().len()
}

} // verus!
