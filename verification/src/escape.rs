//! Texts that are put between delimiters so that they can be read back: the characters that
//! would end one are written as a mark and a code, and what is present but empty has a mark of
//! its own. Any other text stands for itself.

use crate::text;
use crate::text::chars_of;
use vstd::prelude::*;

verus! {

/// Where a text is put, and so what would end it.
#[derive(Debug, Clone, Copy, PartialEq, Eq, Structural)]
pub enum Place {
    /// On a line of its own.
    Line,
    /// In a `key=value` on a line.
    Field,
    /// In a list with commas, in such a value.
    Item,
}

/// The code of a character that cannot stand for itself at a place.
pub open spec fn code_at(c: char, place: Place) -> Option<char> {
    if c == '\u{1b}' {
        Some('e')
    } else if c == '\n' {
        Some('n')
    } else if c == '\u{1f}' {
        Some('u')
    } else if c == '=' && place != Place::Line {
        Some('q')
    } else if c == ',' && place == Place::Item {
        Some('c')
    } else {
        None
    }
}

/// A character as it is written at a place.
pub open spec fn coded(c: char, place: Place) -> Seq<char> {
    match code_at(c, place) {
        Some(code) => seq!['\u{1b}', code],
        None => seq![c],
    }
}

/// A text as it is written at a place.
pub open spec fn escaped(s: Seq<char>, place: Place) -> Seq<char>
    decreases s.len(),
{
    if s.len() == 0 {
        Seq::empty()
    } else {
        coded(s[0], place) + escaped(s.drop_first(), place)
    }
}

/// What stands for a text that is present but empty.
pub open spec fn empty_mark() -> Seq<char> {
    seq!['\u{1b}', 'z']
}

/// A text that may be absent: nothing where it is.
pub open spec fn optional(o: Option<Seq<char>>, place: Place) -> Seq<char> {
    match o {
        Some(s) => if s.len() == 0 {
            empty_mark()
        } else {
            escaped(s, place)
        },
        None => Seq::empty(),
    }
}

pub open spec fn all_escaped(items: Seq<Seq<char>>, place: Place) -> Seq<Seq<char>> {
    items.map_values(|s: Seq<char>| escaped(s, place))
}

/// Texts in order, with `sep` between one and the next. The list of one empty text is marked,
/// to tell it from the empty list.
pub open spec fn listed(items: Seq<Seq<char>>, place: Place, sep: char) -> Seq<char> {
    if items.len() == 1 && items[0].len() == 0 {
        empty_mark()
    } else {
        text::joined(all_escaped(items, place), seq![sep])
    }
}

fn code_of(c: char, place: Place) -> (r: Option<char>)
    ensures
        r == code_at(c, place),
{
    if c == '\u{1b}' {
        Some('e')
    } else if c == '\n' {
        Some('n')
    } else if c == '\u{1f}' {
        Some('u')
    } else if c == '=' && place != Place::Line {
        Some('q')
    } else if c == ',' && place == Place::Item {
        Some('c')
    } else {
        None
    }
}

/// Writes a text for a place.
pub fn escape(s: &str, place: Place) -> (r: String)
    ensures
        r@ == escaped(s@, place),
{
    let v = chars_of(s);
    let mut r = String::new();
    let mut i: usize = 0;
    assert(s@.skip(0) =~= s@);
    assert(r@ + escaped(s@, place) =~= escaped(s@, place));
    while i < v.len()
        invariant
            i <= v.len(),
            v@ == s@,
            r@ + escaped(s@.skip(i as int), place) == escaped(s@, place),
        decreases v.len() - i,
    {
        let ghost before = r@;
        match code_of(v[i], place) {
            Some(code) => {
                r.push('\u{1b}');
                r.push(code);
            },
            None => {
                r.push(v[i]);
            },
        }
        assert(s@.skip(i as int)[0] == v@[i as int]);
        assert(s@.skip(i as int).drop_first() =~= s@.skip(i + 1));
        assert(r@ =~= before + coded(v@[i as int], place));
        assert(r@ + escaped(s@.skip(i + 1), place) =~= before + escaped(s@.skip(i as int), place));
        i += 1;
    }
    assert(s@.skip(i as int) =~= Seq::empty());
    assert(r@ + Seq::<char>::empty() =~= r@);
    r
}

fn mark() -> (r: String)
    ensures
        r@ == empty_mark(),
{
    let mut r = String::new();
    r.push('\u{1b}');
    r.push('z');
    assert(r@ =~= empty_mark());
    r
}

/// Writes a text that may be absent.
pub fn optional_text(o: &Option<String>, place: Place) -> (r: String)
    ensures
        r@ == optional(text::opt_view(*o), place),
{
    match o {
        Some(s) => if s.as_str().is_empty() {
            mark()
        } else {
            escape(s.as_str(), place)
        },
        None => String::new(),
    }
}

/// Writes a list.
pub fn list_text(items: &Vec<String>, place: Place, sep: char) -> (r: String)
    ensures
        r@ == listed(text::views(items@), place, sep),
{
    let ghost all = text::views(items@);
    if items.len() == 1 && items[0].as_str().is_empty() {
        assert(all[0].len() == 0);
        return mark();
    }
    assert(items.len() == 1 ==> all[0] == items@[0]@);
    let mut parts: Vec<String> = Vec::new();
    let mut i: usize = 0;
    while i < items.len()
        invariant
            i <= items.len(),
            all == text::views(items@),
            text::views(parts@) == all_escaped(all.take(i as int), place),
        decreases items.len() - i,
    {
        let ghost before = text::views(parts@);
        parts.push(escape(items[i].as_str(), place));
        assert(text::views(parts@) =~= before.push(escaped(all[i as int], place)));
        assert(text::views(parts@) =~= all_escaped(all.take(i + 1), place));
        i += 1;
    }
    assert(all.take(i as int) =~= all);
    let mut between = String::new();
    between.push(sep);
    assert(between@ =~= seq![sep]);
    text::join(&parts, between.as_str())
}

// -------------------------------------------------------------------------------------- laws

/// Distinct texts are written differently.
pub proof fn lemma_escaped_injective(a: Seq<char>, b: Seq<char>, place: Place)
    requires
        escaped(a, place) == escaped(b, place),
    ensures
        a == b,
    decreases a.len(),
{
    if a.len() == 0 || b.len() == 0 {
        if a.len() > 0 {
            assert(escaped(a, place).len() >= coded(a[0], place).len());
        }
        if b.len() > 0 {
            assert(escaped(b, place).len() >= coded(b[0], place).len());
        }
        assert(a =~= b);
    } else {
        let (ea, eb) = (coded(a[0], place), coded(b[0], place));
        let (ra, rb) = (escaped(a.drop_first(), place), escaped(b.drop_first(), place));
        assert((ea + ra)[0] == ea[0] && (eb + rb)[0] == eb[0]);
        if ea.len() == 2 && eb.len() == 2 {
            assert((ea + ra)[1] == ea[1] && (eb + rb)[1] == eb[1]);
        }
        assert(a[0] == b[0]);
        assert((ea + ra).skip(ea.len() as int) =~= ra);
        assert((eb + rb).skip(eb.len() as int) =~= rb);
        lemma_escaped_injective(a.drop_first(), b.drop_first(), place);
        assert(a =~= seq![a[0]] + a.drop_first());
        assert(b =~= seq![b[0]] + b.drop_first());
    }
}

/// A character that cannot stand for itself at a place does not stand in what is written there.
pub proof fn lemma_escaped_free(s: Seq<char>, place: Place, c: char)
    requires
        code_at(c, place) is Some,
        c != '\u{1b}',
    ensures
        !escaped(s, place).contains(c),
    decreases s.len(),
{
    if s.len() > 0 {
        lemma_escaped_free(s.drop_first(), place, c);
        let (head, rest) = (coded(s[0], place), escaped(s.drop_first(), place));
        if (head + rest).contains(c) {
            let i = choose|i: int| 0 <= i < (head + rest).len() && (head + rest)[i] == c;
            if i < head.len() {
                assert(head[i] == c);
            } else {
                assert(rest[i - head.len()] == c);
                assert(rest.contains(c));
            }
        }
    }
}

proof fn lemma_escaped_is_no_mark(s: Seq<char>, place: Place)
    ensures
        escaped(s, place) != empty_mark(),
        escaped(s, place).len() == 0 <==> s.len() == 0,
{
    assert(empty_mark().len() == 2 && empty_mark()[0] == '\u{1b}' && empty_mark()[1] == 'z');
    if s.len() > 0 {
        let (head, rest) = (coded(s[0], place), escaped(s.drop_first(), place));
        assert((head + rest)[0] == head[0]);
        if head.len() == 2 {
            assert((head + rest)[1] == head[1]);
        }
        assert(escaped(s, place).len() >= head.len());
    }
}

/// Texts that may be absent are written differently where they differ.
pub proof fn lemma_optional_injective(a: Option<Seq<char>>, b: Option<Seq<char>>, place: Place)
    requires
        optional(a, place) == optional(b, place),
    ensures
        a == b,
{
    match (a, b) {
        (Some(s), Some(t)) => {
            lemma_escaped_is_no_mark(s, place);
            lemma_escaped_is_no_mark(t, place);
            if s.len() > 0 && t.len() > 0 {
                lemma_escaped_injective(s, t, place);
            }
            assert(s =~= t);
        },
        (Some(s), None) => lemma_escaped_is_no_mark(s, place),
        (None, Some(t)) => lemma_escaped_is_no_mark(t, place),
        (None, None) => {},
    }
}

/// What is written of a text that may be absent is free of what cannot stand there.
pub proof fn lemma_optional_free(o: Option<Seq<char>>, place: Place, c: char)
    requires
        code_at(c, place) is Some,
        c != '\u{1b}',
    ensures
        !optional(o, place).contains(c),
{
    if let Some(s) = o {
        lemma_escaped_free(s, place, c);
    }
}

proof fn lemma_all_free(items: Seq<Seq<char>>, place: Place, c: char)
    requires
        code_at(c, place) is Some,
        c != '\u{1b}',
    ensures
        text::free_of(all_escaped(items, place), c),
{
    let all = all_escaped(items, place);
    assert forall|i: int| 0 <= i < all.len() implies !(#[trigger] all[i]).contains(c) by {
        lemma_escaped_free(items[i], place, c);
    }
}

proof fn lemma_joined_free(parts: Seq<Seq<char>>, sep: char, c: char)
    requires
        text::free_of(parts, c),
        sep != c,
    ensures
        !text::joined(parts, seq![sep]).contains(c),
    decreases parts.len(),
{
    if parts.len() == 1 {
        assert(!parts[0].contains(c));
    } else if parts.len() > 1 {
        let rest = parts.drop_last();
        assert forall|i: int| 0 <= i < rest.len() implies !(#[trigger] rest[i]).contains(c) by {
            assert(rest[i] == parts[i]);
        }
        lemma_joined_free(rest, sep, c);
        let (head, tail) = (text::joined(rest, seq![sep]), parts[parts.len() - 1]);
        let whole = head + seq![sep] + tail;
        if whole.contains(c) {
            let i = choose|i: int| 0 <= i < whole.len() && whole[i] == c;
            if i < head.len() {
                assert(head[i] == c);
                assert(head.contains(c));
            } else if i > head.len() {
                assert(tail[i - head.len() - 1] == c);
                assert(tail.contains(c));
            }
        }
    }
}

/// What is written of a list is free of what cannot stand there, but for the separator.
pub proof fn lemma_listed_free(items: Seq<Seq<char>>, place: Place, sep: char, c: char)
    requires
        code_at(c, place) is Some,
        c != '\u{1b}',
        c != sep,
    ensures
        !listed(items, place, sep).contains(c),
{
    lemma_all_free(items, place, c);
    lemma_joined_free(all_escaped(items, place), sep, c);
}

/// A list that is not marked reads back from its parts.
proof fn lemma_unmarked(a: Seq<Seq<char>>, b: Seq<Seq<char>>, place: Place, sep: char)
    requires
        text::joined(all_escaped(a, place), seq![sep]) == text::joined(
            all_escaped(b, place),
            seq![sep],
        ),
        code_at(sep, place) is Some,
        sep != '\u{1b}',
        !(a.len() == 1 && a[0].len() == 0),
        !(b.len() == 1 && b[0].len() == 0),
    ensures
        a == b,
{
    let (ea, eb) = (all_escaped(a, place), all_escaped(b, place));
    lemma_all_free(a, place, sep);
    lemma_all_free(b, place, sep);
    if a.len() == 1 {
        lemma_escaped_is_no_mark(a[0], place);
        assert(ea[0].len() > 0);
    }
    if b.len() == 1 {
        lemma_escaped_is_no_mark(b[0], place);
        assert(eb[0].len() > 0);
    }
    text::lemma_joined_injective(ea, eb, sep);
    assert forall|i: int| 0 <= i < a.len() implies a[i] == b[i] by {
        assert(ea[i] == eb[i]);
        lemma_escaped_injective(a[i], b[i], place);
    }
    assert(a.len() == ea.len() && b.len() == eb.len());
    assert(a =~= b);
}

/// A list that is not marked does not read as one that is.
proof fn lemma_no_list_is_mark(b: Seq<Seq<char>>, place: Place, sep: char)
    requires
        code_at(sep, place) is Some,
        sep != '\u{1b}',
        !(b.len() == 1 && b[0].len() == 0),
    ensures
        text::joined(all_escaped(b, place), seq![sep]) != empty_mark(),
{
    let eb = all_escaped(b, place);
    let one = seq![empty_mark()];
    assert(text::joined(one, seq![sep]) == one[0]);
    lemma_all_free(b, place, sep);
    assert(text::free_of(one, sep));
    if b.len() == 1 {
        lemma_escaped_is_no_mark(b[0], place);
        assert(eb[0].len() > 0);
    }
    assert(one[0].len() == 2);
    if text::joined(eb, seq![sep]) == empty_mark() {
        text::lemma_joined_injective(one, eb, sep);
        assert(eb[0] == one[0]);
        lemma_escaped_is_no_mark(b[0], place);
    }
}

/// Distinct lists are written differently.
pub proof fn lemma_listed_injective(
    a: Seq<Seq<char>>,
    b: Seq<Seq<char>>,
    place: Place,
    sep: char,
)
    requires
        listed(a, place, sep) == listed(b, place, sep),
        code_at(sep, place) is Some,
        sep != '\u{1b}',
    ensures
        a == b,
{
    let one_a = a.len() == 1 && a[0].len() == 0;
    let one_b = b.len() == 1 && b[0].len() == 0;
    if one_a && one_b {
        assert(a[0] =~= b[0]);
        assert(a =~= b);
    } else if one_a {
        lemma_no_list_is_mark(b, place, sep);
    } else if one_b {
        lemma_no_list_is_mark(a, place, sep);
    } else {
        lemma_unmarked(a, b, place, sep);
    }
}

/// A text without a character that cannot stand at a place is written as it is.
pub proof fn lemma_ordinary_text_is_kept(s: Seq<char>, place: Place)
    requires
        forall|i: int| 0 <= i < s.len() ==> code_at(#[trigger] s[i], place) is None,
    ensures
        escaped(s, place) == s,
    decreases s.len(),
{
    if s.len() > 0 {
        let rest = s.drop_first();
        assert forall|i: int| 0 <= i < rest.len() implies code_at(#[trigger] rest[i], place)
            is None by {
            assert(rest[i] == s[i + 1]);
        }
        lemma_ordinary_text_is_kept(rest, place);
        assert(seq![s[0]] + rest =~= s);
    }
}

} // verus!
