//! The lines of a text.

use crate::text;
use crate::text::find_char;
use vstd::prelude::*;
use vstd::string::*;

verus! {

/// A line without the carriage return that ends it, where there is one.
pub open spec fn chomped(s: Seq<char>) -> Seq<char> {
    if s.len() > 0 && s.last() == '\r' {
        s.drop_last()
    } else {
        s
    }
}

/// The lines of a text: each ends with a line feed, or a carriage return and a line feed, that
/// does not count; the last may have no end.
pub open spec fn lines_of(s: Seq<char>) -> Seq<Seq<char>>
    decreases s.len(),
{
    if s.len() == 0 {
        Seq::empty()
    } else {
        match text::find(s, '\n') {
            Some(i) => if i < s.len() {
                seq![chomped(s.take(i as int))] + lines_of(s.skip(i as int + 1))
            } else {
                seq![s]
            },
            None => seq![s],
        }
    }
}

/// The lines of a text.
pub fn lines(s: &str) -> (r: Vec<String>)
    ensures
        text::views(r@) == lines_of(s@),
{
    let ghost all = lines_of(s@);
    let mut r: Vec<String> = Vec::new();
    let mut rest = s;
    assert(text::views(r@) + all =~= all);
    while !rest.is_empty()
        invariant
            all == lines_of(s@),
            text::views(r@) + lines_of(rest@) == all,
        decreases rest@.len(),
    {
        let ghost before = text::views(r@);
        proof {
            text::lemma_find(rest@, '\n');
        }
        let n = rest.unicode_len();
        match find_char(rest, '\n') {
            Some(i) => {
                let whole = rest.substring_char(0, i);
                let line = if i > 0 && whole.get_char(i - 1) == '\r' {
                    whole.substring_char(0, i - 1)
                } else {
                    whole
                };
                let after = rest.substring_char(i + 1, n);
                assert(whole@ =~= rest@.take(i as int));
                assert(line@ =~= chomped(rest@.take(i as int)));
                assert(after@ =~= rest@.skip(i as int + 1));
                r.push(line.to_owned());
                assert(text::views(r@) =~= before.push(line@));
                assert(text::views(r@) + lines_of(after@) =~= before + (seq![line@] + lines_of(
                    after@,
                )));
                rest = after;
            },
            None => {
                r.push(rest.to_owned());
                assert(text::views(r@) =~= before + seq![rest@]);
                let end = rest.substring_char(n, n);
                assert(text::views(r@) + lines_of(end@) =~= text::views(r@));
                rest = end;
            },
        }
    }
    assert(text::views(r@) + lines_of(rest@) =~= text::views(r@));
    r
}

/// The lines of two texts one after the other, where the first ends a line.
pub proof fn lemma_lines_concat(a: Seq<char>, b: Seq<char>)
    requires
        a.len() == 0 || a.last() == '\n',
    ensures
        lines_of(a + b) == lines_of(a) + lines_of(b),
    decreases a.len(),
{
    if a.len() == 0 {
        assert(a + b =~= b);
        assert(lines_of(a) + lines_of(b) =~= lines_of(b));
    } else {
        text::lemma_find(a, '\n');
        text::lemma_find(a + b, '\n');
        assert(a.contains('\n'));
        let i = text::find(a, '\n')->0 as int;
        let j = text::find(a + b, '\n')->0 as int;
        assert((a + b)[i] == '\n');
        assert((a + b).contains('\n'));
        assert(i == j) by {
            if j < i {
                assert(a[j] == (a + b)[j]);
            }
        }
        assert((a + b).take(i) =~= a.take(i));
        assert((a + b).skip(i + 1) =~= a.skip(i + 1) + b);
        if a.skip(i + 1).len() > 0 {
            assert(a.skip(i + 1).last() == a.last());
        }
        lemma_lines_concat(a.skip(i + 1), b);
        assert(lines_of(a + b) =~= lines_of(a) + lines_of(b));
    }
}

/// A text of one ended line.
pub proof fn lemma_one_line(s: Seq<char>)
    requires
        !s.contains('\n'),
        s.len() == 0 || s.last() != '\r',
    ensures
        lines_of(s.push('\n')) == seq![s],
{
    let t = s.push('\n');
    text::lemma_find(t, '\n');
    assert(t[s.len() as int] == '\n');
    assert(t.contains('\n'));
    let i = text::find(t, '\n')->0 as int;
    assert(i == s.len()) by {
        if i < s.len() {
            assert(s[i] == '\n');
        }
    }
    assert(t.take(i) =~= s);
    assert(t.skip(i + 1) =~= Seq::<char>::empty());
    assert(lines_of(Seq::<char>::empty()) =~= Seq::empty());
    assert(lines_of(t) =~= seq![s]);
}

/// A line that begins with `mark` stands at the start of the text or after a line feed.
pub proof fn lemma_line_starts(s: Seq<char>, mark: Seq<char>, k: int)
    requires
        0 <= k < lines_of(s).len(),
        mark.is_prefix_of(lines_of(s)[k]),
        mark.len() > 0,
    ensures
        mark.is_prefix_of(s) || text::occurs(s, seq!['\n'] + mark),
    decreases s.len(),
{
    text::lemma_find(s, '\n');
    match text::find(s, '\n') {
        None => {
            assert(lines_of(s) =~= seq![s]);
        },
        Some(n) => {
            let i = n as int;
            let rest = s.skip(i + 1);
            if k == 0 {
                let line = chomped(s.take(i));
                assert(lines_of(s)[0] == line);
                assert(mark =~= s.subrange(0, mark.len() as int)) by {
                    assert(mark =~= line.subrange(0, mark.len() as int));
                    assert(line.subrange(0, mark.len() as int) =~= s.subrange(
                        0,
                        mark.len() as int,
                    ));
                }
            } else {
                assert(lines_of(s)[k] == lines_of(rest)[k - 1]);
                lemma_line_starts(rest, mark, k - 1);
                let p = seq!['\n'] + mark;
                if mark.is_prefix_of(rest) {
                    assert(s.subrange(i, i + p.len()) =~= p) by {
                        assert(mark =~= rest.subrange(0, mark.len() as int));
                        assert forall|j: int| 0 <= j < p.len() implies s.subrange(i, i + p.len())[j]
                            == p[j] by {
                            if j > 0 {
                                assert(rest.subrange(0, mark.len() as int)[j - 1] == mark[j - 1]);
                            }
                        }
                    }
                    assert(text::occurs_at(s, p, i));
                } else {
                    let m = choose|m: int| text::occurs_at(rest, p, m);
                    assert(s.subrange(i + 1 + m, i + 1 + m + p.len()) =~= rest.subrange(
                        m,
                        m + p.len(),
                    ));
                    assert(text::occurs_at(s, p, i + 1 + m));
                }
            }
        },
    }
}

/// Joining the lines of a text and ending the last gives the text back, where it ends with a
/// line feed and no carriage return stands before one.
pub proof fn lemma_lines_join(s: Seq<char>)
    requires
        s.len() > 0,
        s.last() == '\n',
        !text::occurs(s, seq!['\r', '\n']),
    ensures
        lines_of(s).len() > 0,
        text::joined(lines_of(s), "\n"@).push('\n') == s,
    decreases s.len(),
{
    reveal_strlit("\n");
    text::lemma_find(s, '\n');
    assert(s.contains('\n'));
    let i = text::find(s, '\n')->0 as int;
    let head = s.take(i);
    let rest = s.skip(i + 1);
    assert(chomped(head) == head) by {
        if head.len() > 0 && head.last() == '\r' {
            assert(s.subrange(i - 1, i + 1) =~= seq!['\r', '\n']);
            assert(text::occurs_at(s, seq!['\r', '\n'], i - 1));
        }
    }
    let all = lines_of(s);
    assert(all == seq![head] + lines_of(rest));
    assert(s =~= head.push('\n') + rest);
    if rest.len() == 0 {
        assert(all =~= seq![head]);
    } else {
        assert(rest.last() == s.last());
        assert(!text::occurs(rest, seq!['\r', '\n'])) by {
            if text::occurs(rest, seq!['\r', '\n']) {
                let m = choose|m: int| text::occurs_at(rest, seq!['\r', '\n'], m);
                assert(s.subrange(i + 1 + m, i + 3 + m) =~= rest.subrange(m, m + 2));
                assert(text::occurs_at(s, seq!['\r', '\n'], i + 1 + m));
            }
        }
        lemma_lines_join(rest);
        lemma_joined_front(head, lines_of(rest));
        assert(text::joined(all, "\n"@).push('\n') =~= head + "\n"@ + text::joined(
            lines_of(rest),
            "\n"@,
        ).push('\n'));
    }
}

/// Joining a list with one part more before it.
pub proof fn lemma_joined_front(head: Seq<char>, rest: Seq<Seq<char>>)
    requires
        rest.len() > 0,
    ensures
        text::joined(seq![head] + rest, "\n"@) == head + "\n"@ + text::joined(rest, "\n"@),
    decreases rest.len(),
{
    let all = seq![head] + rest;
    assert(all.last() == rest.last());
    assert(all.drop_last() =~= seq![head] + rest.drop_last());
    if rest.len() == 1 {
        assert(all.drop_last() =~= seq![head]);
        assert(text::joined(seq![head], "\n"@) == head);
        assert(text::joined(all, "\n"@) =~= head + "\n"@ + text::joined(rest, "\n"@));
    } else {
        lemma_joined_front(head, rest.drop_last());
        assert(text::joined(all, "\n"@) =~= head + "\n"@ + text::joined(rest, "\n"@));
    }
}

} // verus!
