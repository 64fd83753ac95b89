//! The lines of a text, by byte offsets into it.

use crate::text;
use crate::text::{byte_length, chars_of, find_char, space_char, split_bytes};
use vstd::prelude::*;
use vstd::string::*;
use vstd::utf8::*;

verus! {

/// Where the last line of a text begins, in characters.
pub open spec fn last_line_start(s: Seq<char>) -> nat
    decreases s.len(),
{
    if s.len() == 0 {
        0
    } else if s.last() == '\n' {
        s.len()
    } else {
        last_line_start(s.drop_last())
    }
}

/// The end of the line that holds the byte `at`, as a byte offset.
pub open spec fn line_end(source: Seq<char>, at: int) -> int {
    let rest = source.skip(text::first_bytes(source, at).len() as int);
    match text::find(rest, '\n') {
        Some(n) => at + encode_utf8(rest.take(n as int)).len(),
        None => encode_utf8(source).len() as int,
    }
}

/// Where the line that holds the byte `at` begins, as a byte offset.
pub open spec fn line_start(source: Seq<char>, at: int) -> int {
    let head = text::first_bytes(source, at);
    encode_utf8(head.take(last_line_start(head) as int)).len() as int
}

/// Whether only white space stands before the byte `at` on its line.
pub open spec fn only_space_before(source: Seq<char>, at: int) -> bool {
    let head = text::first_bytes(source, at);
    let line = head.skip(last_line_start(head) as int);
    forall|i: int| 0 <= i < line.len() ==> text::is_space(#[trigger] line[i])
}

/// Where the lines of something that ends at the byte `at` end: just past the line feed of that
/// line, or where that line starts, if only white space stands on it before `at`.
pub open spec fn lines_end(source: Seq<char>, at: int) -> int {
    if only_space_before(source, at) {
        line_start(source, at)
    } else {
        let end = line_end(source, at);
        if end < encode_utf8(source).len() {
            end + 1
        } else {
            end
        }
    }
}

/// The end of the line on which something that ends at the byte `at` ends: that of the line
/// before, if only white space stands before `at` on its own.
pub open spec fn content_line_end(source: Seq<char>, at: int) -> int {
    if only_space_before(source, at) && line_start(source, at) > 0 {
        line_start(source, at) - 1
    } else {
        line_end(source, at)
    }
}

/// The end of the line that holds the byte `at`, as a byte offset.
pub(crate) fn line_end_of(source: &str, at: usize) -> (r: usize)
    requires
        text::is_boundary(source@, at as int),
    ensures
        r == line_end(source@, at as int),
        text::is_boundary(source@, r as int),
{
    let (head, tail) = split_bytes(source, at);
    proof {
        assert(source@.skip(head@.len() as int) =~= tail@);
        text::lemma_encode_concat(head@, tail@);
        text::lemma_find(tail@, '\n');
    }
    let total = byte_length(source);
    match find_char(tail, '\n') {
        Some(n) => {
            let line = tail.substring_char(0, n);
            assert(line@ =~= tail@.take(n as int));
            let bytes = byte_length(line);
            let ghost rest = tail@.skip(n as int);
            proof {
                assert(tail@ =~= line@ + rest);
                text::lemma_encode_concat(line@, rest);
                assert(encode_utf8(source@) =~= encode_utf8(head@) + encode_utf8(line@)
                    + encode_utf8(rest));
                text::lemma_boundary_after(head@ + line@, rest);
                text::lemma_encode_concat(head@, line@);
                assert(source@ =~= head@ + line@ + rest);
            }
            at + bytes
        },
        None => {
            proof {
                text::lemma_boundary_after(source@, Seq::<char>::empty());
                assert(source@ + Seq::<char>::empty() =~= source@);
            }
            total
        },
    }
}

/// Where the line that holds the byte `at` begins, and whether only white space stands before
/// `at` on it.
pub(crate) fn line_start_of(source: &str, at: usize) -> (r: (usize, bool))
    requires
        text::is_boundary(source@, at as int),
    ensures
        r.0 == line_start(source@, at as int),
        text::is_boundary(source@, r.0 as int),
        r.1 == only_space_before(source@, at as int),
{
    let (head, tail) = split_bytes(source, at);
    let h = chars_of(head);
    let mut start: usize = h.len();
    let mut blank = true;
    assert(h@.take(start as int) =~= h@);
    while start > 0 && h[start - 1] != '\n'
        invariant
            start <= h@.len(),
            h@ == head@,
            last_line_start(h@.take(start as int)) == last_line_start(
                head@,
            ),
            blank == (forall|i: int| start <= i < h@.len() ==> text::is_space(#[trigger] h@[i])),
        decreases start,
    {
        assert(h@.take(start as int).drop_last() =~= h@.take(start - 1));
        start -= 1;
        blank = blank && space_char(h[start]);
    }
    assert(last_line_start(head@) == start);
    let before = head.substring_char(0, start);
    proof {
        let rest = head@.skip(start as int);
        assert forall|i: int| start <= i < h@.len() implies #[trigger] h@[i] == rest[i - start] by {
        }
        assert forall|i: int| 0 <= i < rest.len() implies #[trigger] rest[i] == h@[i + start] by {
        }
        assert(before@ =~= head@.take(start as int));
        assert(head@ =~= before@ + rest);
        text::lemma_encode_concat(before@, rest);
        assert(source@ =~= before@ + (rest + tail@));
        text::lemma_boundary_after(before@, rest + tail@);
    }
    (byte_length(before), blank)
}

pub(crate) fn lines_end_of(source: &str, at: usize) -> (r: usize)
    requires
        text::is_boundary(source@, at as int),
    ensures
        r == lines_end(source@, at as int),
        text::is_boundary(source@, r as int),
{
    let (start, blank) = line_start_of(source, at);
    if blank {
        return start;
    }
    let end = line_end_of(source, at);
    proof {
        lemma_line_end(source@, at as int);
    }
    if end < byte_length(source) {
        end + 1
    } else {
        end
    }
}

/// A line ends at its line feed, which is one byte, or at the end of the text.
proof fn lemma_line_end(source: Seq<char>, at: int)
    requires
        text::is_boundary(source, at),
    ensures
        at <= line_end(source, at) <= encode_utf8(source).len(),
        line_end(source, at) < encode_utf8(source).len() ==> text::is_boundary(
            source,
            line_end(source, at) + 1,
        ),
{
    lemma_split(source, at);
    let head = text::first_bytes(source, at);
    let rest = source.skip(head.len() as int);
    text::lemma_encode_concat(head, rest);
    text::lemma_find(rest, '\n');
    if let Some(n) = text::find(rest, '\n') {
        let line = rest.take(n as int);
        let feed = seq!['\n'];
        let after = rest.skip(n as int + 1);
        assert(rest =~= line + (feed + after));
        text::lemma_encode_concat(line, feed + after);
        text::lemma_encode_concat(feed, after);
        assert(encode_utf8(feed).len() == 1) by {
            assert(feed.drop_first() =~= Seq::<char>::empty());
            assert(encode_utf8(feed) =~= encode_scalar('\n' as u32) + encode_utf8(
                Seq::<char>::empty(),
            ));
        }
        assert(source =~= (head + line + feed) + after);
        text::lemma_boundary_after(head + line + feed, after);
        text::lemma_encode_concat(head + line, feed);
        text::lemma_encode_concat(head, line);
    }
}

/// The end of the line on which something that ends at the byte `at` ends.
pub(crate) fn content_line_end_of(source: &str, at: usize) -> (r: usize)
    requires
        text::is_boundary(source@, at as int),
    ensures
        r == content_line_end(source@, at as int),
        text::is_boundary(source@, r as int),
{
    let (start, blank) = line_start_of(source, at);
    if blank && start > 0 {
        proof {
            lemma_before_line_start(source@, at as int);
        }
        return start - 1;
    }
    line_end_of(source, at)
}

/// Whether a line begins at the byte `at`.
pub open spec fn begins_line(source: Seq<char>, at: int) -> bool {
    let head = text::first_bytes(source, at);
    head.len() == 0 || head.last() == '\n'
}

/// The first bytes of a text, up to the end of a leading part, are that part.
pub(crate) proof fn lemma_first_bytes_of_part(a: Seq<char>, b: Seq<char>)
    ensures
        text::first_bytes(a + b, encode_utf8(a).len() as int) == a,
{
    text::lemma_encode_concat(a, b);
    assert(encode_utf8(a + b).take(encode_utf8(a).len() as int) =~= encode_utf8(a));
    encode_utf8_decode_utf8(a);
}

proof fn lemma_split(source: Seq<char>, at: int)
    requires
        text::is_boundary(source, at),
    ensures
        ({
            let head = text::first_bytes(source, at);
            &&& head.len() <= source.len()
            &&& source == head + source.skip(head.len() as int)
            &&& encode_utf8(head).len() == at
        }),
{
    let whole = encode_utf8(source);
    encode_utf8_valid_utf8(source);
    valid_utf8_split(whole, at);
    decode_utf8_split(whole, at);
    decode_utf8_encode_utf8(whole.take(at));
    encode_utf8_decode_utf8(source);
    let head = text::first_bytes(source, at);
    assert(source =~= head + source.skip(head.len() as int));
}

proof fn lemma_last_line(s: Seq<char>)
    ensures
        last_line_start(s) <= s.len(),
        last_line_start(s) > 0 ==> s[last_line_start(s) - 1] == '\n',
    decreases s.len(),
{
    if s.len() > 0 && s.last() != '\n' {
        lemma_last_line(s.drop_last());
    }
}

pub(crate) proof fn lemma_line_start_begins_line(source: Seq<char>, at: int)
    requires
        text::is_boundary(source, at),
    ensures
        begins_line(source, line_start(source, at)),
{
    lemma_split(source, at);
    let head = text::first_bytes(source, at);
    lemma_last_line(head);
    let part = head.take(last_line_start(head) as int);
    let rest = head.skip(part.len() as int);
    assert(head =~= part + rest);
    text::lemma_encode_concat(part, rest);
    assert(source =~= part + (rest + source.skip(head.len() as int)));
    lemma_first_bytes_of_part(part, rest + source.skip(head.len() as int));
}

pub(crate) proof fn lemma_lines_end_ends_line(source: Seq<char>, at: int)
    requires
        text::is_boundary(source, at),
    ensures
        begins_line(source, lines_end(source, at)) || lines_end(source, at) == encode_utf8(
            source,
        ).len(),
{
    lemma_split(source, at);
    lemma_line_end(source, at);
    lemma_line_start_begins_line(source, at);
    let head = text::first_bytes(source, at);
    let rest = source.skip(head.len() as int);
    text::lemma_find(rest, '\n');
    if let Some(n) = text::find(rest, '\n') {
        let line = rest.take(n as int);
        let feed = seq!['\n'];
        let after = rest.skip(n as int + 1);
        assert(feed.drop_first() =~= Seq::<char>::empty());
        assert(encode_utf8(feed) =~= encode_scalar('\n' as u32) + encode_utf8(
            Seq::<char>::empty(),
        ));
        assert(source =~= (head + line + feed) + after);
        text::lemma_encode_concat(head + line, feed);
        text::lemma_encode_concat(head, line);
        lemma_first_bytes_of_part(head + line + feed, after);
    }
}

/// The line feed before a line is one byte.
pub(crate) proof fn lemma_content_line_end(source: Seq<char>, at: int)
    requires
        text::is_boundary(source, at),
    ensures
        0 <= content_line_end(source, at) <= encode_utf8(source).len(),
{
    lemma_line_end(source, at);
    if line_start(source, at) > 0 {
        lemma_before_line_start(source, at);
    }
}

proof fn lemma_before_line_start(source: Seq<char>, at: int)
    requires
        text::is_boundary(source, at),
        line_start(source, at) > 0,
    ensures
        text::is_boundary(source, line_start(source, at) - 1),
{
    lemma_split(source, at);
    let head = text::first_bytes(source, at);
    lemma_last_line(head);
    let part = head.take(last_line_start(head) as int);
    if part.len() == 0 {
        assert(part =~= Seq::<char>::empty());
    }
    let front = part.drop_last();
    let feed = seq!['\n'];
    assert(part =~= front + feed);
    assert(feed.drop_first() =~= Seq::<char>::empty());
    assert(encode_utf8(feed) =~= encode_scalar('\n' as u32) + encode_utf8(Seq::<char>::empty()));
    text::lemma_encode_concat(front, feed);
    let rest = feed + head.skip(part.len() as int) + source.skip(head.len() as int);
    assert(source =~= front + rest);
    text::lemma_boundary_after(front, rest);
}

} // verus!
