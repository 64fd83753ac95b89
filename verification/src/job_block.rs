//! The YAML block of a new job, built from the arguments of `jobs add`.

use crate::cli::JobsAddArgs;
use crate::text;
use crate::text::{
    chars_of, contains, copy_opt, find_char, join, same, signed_decimal_text, text_of, trim,
};
use crate::validation;
use crate::validation::take_first_word;
use vstd::prelude::*;
use vstd::string::*;

verus! {

// -------------------------------------------------------------------------------- ids

pub open spec fn alphanumeric(c: char) -> bool {
    text::is_lower(c) || text::is_upper(c) || text::is_digit(c)
}

/// The run of letters and digits that a text ends with, in lower case.
pub open spec fn last_run(s: Seq<char>) -> Seq<char>
    decreases s.len(),
{
    if s.len() > 0 && alphanumeric(s.last()) {
        last_run(s.drop_last()).push(text::ascii_lower(s.last()))
    } else {
        Seq::empty()
    }
}

/// The runs of letters and digits of a text that something else follows, in lower case.
pub open spec fn ended_runs(s: Seq<char>) -> Seq<Seq<char>>
    decreases s.len(),
{
    if s.len() == 0 {
        Seq::empty()
    } else if alphanumeric(s.last()) || last_run(s.drop_last()).len() == 0 {
        ended_runs(s.drop_last())
    } else {
        ended_runs(s.drop_last()).push(last_run(s.drop_last()))
    }
}

/// The runs of letters and digits of a text, in lower case.
pub open spec fn runs(s: Seq<char>) -> Seq<Seq<char>> {
    if last_run(s).len() > 0 {
        ended_runs(s).push(last_run(s))
    } else {
        ended_runs(s)
    }
}

/// The id made of a text: its runs of letters and digits with a dash between them.
pub open spec fn slug(s: Seq<char>) -> Seq<char> {
    text::joined(runs(s), "-"@)
}

/// Whether every run is a run: not empty, of lower-case letters and digits.
spec fn clean_runs(v: Seq<Seq<char>>) -> bool {
    forall|i: int| 0 <= i < v.len() ==> clean_run(#[trigger] v[i])
}

spec fn clean_run(w: Seq<char>) -> bool {
    w.len() > 0 && forall|i: int|
        0 <= i < w.len() ==> text::is_lower(#[trigger] w[i]) || text::is_digit(w[i])
}

proof fn lemma_last_run(s: Seq<char>)
    ensures
        last_run(s).len() > 0 ==> clean_run(last_run(s)),
    decreases s.len(),
{
    if s.len() > 0 && alphanumeric(s.last()) {
        lemma_last_run(s.drop_last());
    }
}

proof fn lemma_runs(s: Seq<char>)
    ensures
        clean_runs(ended_runs(s)),
        clean_runs(runs(s)),
    decreases s.len(),
{
    lemma_last_run(s);
    if s.len() > 0 {
        lemma_runs(s.drop_last());
        lemma_last_run(s.drop_last());
    }
}

/// A dash is at neither end of the text, and no two stand side by side.
pub open spec fn tidy_dashes(k: Seq<char>) -> bool {
    &&& k[0] != '-'
    &&& k.last() != '-'
    &&& forall|i: int| 0 <= i < k.len() - 1 ==> !(#[trigger] k[i] == '-' && k[i + 1] == '-')
}

proof fn lemma_joined_runs(v: Seq<Seq<char>>)
    requires
        clean_runs(v),
    ensures
        v.len() > 0 <==> text::joined(v, "-"@).len() > 0,
        v.len() > 0 ==> validation::kebab(text::joined(v, "-"@)) && tidy_dashes(
            text::joined(v, "-"@),
        ),
    decreases v.len(),
{
    reveal_strlit("-");
    let k = text::joined(v, "-"@);
    if v.len() == 1 {
        let w = v[0];
        assert(clean_run(w));
        assert forall|i: int| 0 <= i < k.len() implies validation::kebab_char(#[trigger] k[i]) by {
            assert(k[i] == w[i]);
        }
    } else if v.len() > 1 {
        let head = text::joined(v.drop_last(), "-"@);
        let w = v.last();
        assert forall|i: int| 0 <= i < v.drop_last().len() implies clean_run(
            #[trigger] v.drop_last()[i],
        ) by {
            assert(v.drop_last()[i] == v[i]);
        }
        lemma_joined_runs(v.drop_last());
        assert(clean_run(v[v.len() - 1]));
        assert(k == head + "-"@ + w);
        assert forall|i: int| 0 <= i < k.len() implies validation::kebab_char(#[trigger] k[i]) by {
            if i < head.len() {
                assert(k[i] == head[i]);
            } else if i > head.len() {
                assert(k[i] == w[i - head.len() - 1]);
            }
        }
        assert forall|i: int| 0 <= i < k.len() - 1 implies !(#[trigger] k[i] == '-' && k[i + 1]
            == '-') by {
            if i + 1 < head.len() {
                assert(k[i] == head[i] && k[i + 1] == head[i + 1]);
            } else if i + 1 == head.len() {
                assert(k[i] == head[i]);
            } else {
                assert(k[i + 1] == w[i + 1 - head.len() - 1]);
            }
        }
        assert(k.last() == w.last());
        assert(k[0] == head[0]);
    }
}

/// An id made of a text is a valid job id, with no dash at its ends and none doubled, unless
/// the text has no letter and no digit.
pub proof fn lemma_slug_is_kebab(s: Seq<char>)
    ensures
        slug(s).len() > 0 ==> validation::kebab(slug(s)) && tidy_dashes(slug(s)),
{
    lemma_runs(s);
    lemma_joined_runs(runs(s));
}

/// The letters and digits of a text in order, in lower case.
pub open spec fn letters(s: Seq<char>) -> Seq<char>
    decreases s.len(),
{
    if s.len() == 0 {
        Seq::empty()
    } else if alphanumeric(s.last()) {
        letters(s.drop_last()).push(text::ascii_lower(s.last()))
    } else {
        letters(s.drop_last())
    }
}

/// Runs one after the other.
spec fn flat(v: Seq<Seq<char>>) -> Seq<char>
    decreases v.len(),
{
    if v.len() == 0 {
        Seq::empty()
    } else {
        flat(v.drop_last()) + v.last()
    }
}

proof fn lemma_letters_of_runs(s: Seq<char>)
    ensures
        flat(ended_runs(s)) + last_run(s) == letters(s),
        flat(runs(s)) == letters(s),
    decreases s.len(),
{
    if s.len() > 0 {
        let front = s.drop_last();
        lemma_letters_of_runs(front);
        assert(ended_runs(front).push(last_run(front)).drop_last() =~= ended_runs(front));
        assert(flat(ended_runs(s)) + last_run(s) =~= letters(s));
    }
    assert(ended_runs(s).push(last_run(s)).drop_last() =~= ended_runs(s));
    assert(flat(runs(s)) =~= letters(s));
}

proof fn lemma_letters_concat(a: Seq<char>, b: Seq<char>)
    ensures
        letters(a + b) == letters(a) + letters(b),
    decreases b.len(),
{
    if b.len() == 0 {
        assert(a + b =~= a);
        assert(letters(a) + letters(b) =~= letters(a));
    } else {
        lemma_letters_concat(a, b.drop_last());
        assert((a + b).drop_last() =~= a + b.drop_last());
        assert(letters(a + b) =~= letters(a) + letters(b));
    }
}

proof fn lemma_letters_of_run(w: Seq<char>)
    requires
        forall|i: int| 0 <= i < w.len() ==> text::is_lower(#[trigger] w[i]) || text::is_digit(w[i]),
    ensures
        letters(w) == w,
    decreases w.len(),
{
    if w.len() > 0 {
        let front = w.drop_last();
        assert forall|i: int| 0 <= i < front.len() implies text::is_lower(#[trigger] front[i])
            || text::is_digit(front[i]) by {
            assert(front[i] == w[i]);
        }
        lemma_letters_of_run(front);
        assert(text::is_lower(w[w.len() - 1]) || text::is_digit(w[w.len() - 1]));
        assert(letters(w) =~= w);
    }
}

proof fn lemma_letters_of_joined(v: Seq<Seq<char>>)
    requires
        clean_runs(v),
    ensures
        letters(text::joined(v, "-"@)) == flat(v),
    decreases v.len(),
{
    reveal_strlit("-");
    if v.len() > 0 {
        let front = v.drop_last();
        assert forall|i: int| 0 <= i < front.len() implies clean_run(#[trigger] front[i]) by {
            assert(front[i] == v[i]);
        }
        lemma_letters_of_joined(front);
        let w = v[v.len() - 1];
        assert(clean_run(w));
        lemma_letters_of_run(w);
        if v.len() == 1 {
            assert(flat(front) + w =~= w);
        } else {
            let head = text::joined(front, "-"@);
            lemma_letters_concat(head, "-"@);
            lemma_letters_concat(head + "-"@, w);
            reveal_with_fuel(letters, 2);
            assert("-"@.drop_last() =~= Seq::empty());
            assert(letters("-"@) =~= Seq::empty());
            assert(letters(head) + letters("-"@) + w =~= flat(front) + w);
        }
    }
}

/// An id made of a text keeps its letters and digits in order, in lower case.
pub proof fn lemma_slug_keeps_letters(s: Seq<char>)
    ensures
        letters(slug(s)) == letters(s),
{
    lemma_runs(s);
    lemma_letters_of_runs(s);
    lemma_letters_of_joined(runs(s));
}

/// An id made of a text is empty exactly where the text has no letter and no digit.
pub proof fn lemma_slug_empty(s: Seq<char>)
    ensures
        slug(s).len() == 0 <==> letters(s).len() == 0,
{
    lemma_slug_keeps_letters(s);
    lemma_slug_is_kebab(s);
    let k = slug(s);
    if k.len() > 0 {
        assert(validation::kebab_char(k[0]));
        let (first, rest) = (k.take(1), k.skip(1));
        assert(k =~= first + rest);
        lemma_letters_concat(first, rest);
        reveal_with_fuel(letters, 2);
        assert(first.last() == k[0]);
        assert(letters(first).len() == 1);
    }
}

/// A run of lower-case letters and digits after something else is the last run.
proof fn lemma_run_after(s: Seq<char>, w: Seq<char>)
    requires
        last_run(s).len() == 0,
        forall|i: int| 0 <= i < w.len() ==> text::is_lower(#[trigger] w[i]) || text::is_digit(w[i]),
    ensures
        last_run(s + w) == w,
        ended_runs(s + w) == ended_runs(s),
    decreases w.len(),
{
    if w.len() == 0 {
        assert(s + w =~= s);
        assert(w =~= last_run(s));
    } else {
        let front = w.drop_last();
        assert forall|i: int| 0 <= i < front.len() implies text::is_lower(#[trigger] front[i])
            || text::is_digit(front[i]) by {
            assert(front[i] == w[i]);
        }
        lemma_run_after(s, front);
        assert((s + w).drop_last() =~= s + front);
        assert((s + w).last() == w[w.len() - 1]);
        assert(last_run(s + w) =~= w);
    }
}

proof fn lemma_runs_of_joined(v: Seq<Seq<char>>)
    requires
        clean_runs(v),
        v.len() > 0,
    ensures
        last_run(text::joined(v, "-"@)) == v.last(),
        ended_runs(text::joined(v, "-"@)) == v.drop_last(),
    decreases v.len(),
{
    reveal_strlit("-");
    let w = v[v.len() - 1];
    assert(clean_run(w));
    if v.len() == 1 {
        let none = Seq::<char>::empty();
        lemma_run_after(none, w);
        assert(none + w =~= w);
        assert(v.drop_last() =~= Seq::empty());
    } else {
        let front = v.drop_last();
        assert forall|i: int| 0 <= i < front.len() implies clean_run(#[trigger] front[i]) by {
            assert(front[i] == v[i]);
        }
        lemma_runs_of_joined(front);
        let head = text::joined(front, "-"@);
        let dashed = head + "-"@;
        assert(dashed.drop_last() =~= head);
        assert(dashed.last() == '-');
        assert(clean_run(front[front.len() - 1]));
        assert(last_run(dashed).len() == 0);
        assert(ended_runs(dashed) == ended_runs(head).push(last_run(head)));
        assert(ended_runs(dashed) =~= front);
        lemma_run_after(dashed, w);
    }
}

/// An id made of an id is that id.
pub proof fn lemma_slug_idempotent(s: Seq<char>)
    ensures
        slug(slug(s)) == slug(s),
{
    lemma_runs(s);
    let v = runs(s);
    if v.len() == 0 {
        assert(slug(s) =~= Seq::empty());
        assert(runs(slug(s)) =~= v);
    } else {
        lemma_runs_of_joined(v);
        assert(clean_run(v[v.len() - 1]));
        assert(runs(slug(s)) =~= v);
    }
}

fn lower_char(c: char) -> (r: char)
    requires
        alphanumeric(c),
    ensures
        r == text::ascii_lower(c),
{
    if 'A' <= c && c <= 'Z' {
        (c as u8 + 32) as char
    } else {
        c
    }
}

/// Makes a job id of any text.
pub fn kebab(s: &str) -> (r: String)
    ensures
        r@ == slug(s@),
{
    let v = chars_of(s);
    let mut out: Vec<char> = Vec::new();
    let mut prev_dash = false;
    let mut i: usize = 0;
    proof {
        reveal_strlit("-");
    }
    while i < v.len()
        invariant
            v@ == s@,
            i <= v@.len(),
            "-"@ =~= seq!['-'],
            ({
                let done = ended_runs(s@.take(i as int));
                let run = last_run(s@.take(i as int));
                &&& clean_runs(done)
                &&& prev_dash == (run.len() == 0 && done.len() > 0)
                &&& out@ == if run.len() > 0 {
                    text::joined(done.push(run), "-"@)
                } else if done.len() > 0 {
                    text::joined(done, "-"@) + "-"@
                } else {
                    Seq::<char>::empty()
                }
            }),
        decreases v.len() - i,
    {
        let c = v[i];
        let ghost before = s@.take(i as int);
        let ghost now = s@.take(i + 1);
        let ghost done = ended_runs(before);
        let ghost run = last_run(before);
        proof {
            assert(now.drop_last() =~= before);
            assert(now.last() == c);
            lemma_runs(now);
            lemma_joined_runs(done);
            assert(done.push(run).drop_last() =~= done);
            assert(done.push(last_run(now)).drop_last() =~= done);
        }
        if ('a' <= c && c <= 'z') || ('A' <= c && c <= 'Z') || ('0' <= c && c <= '9') {
            let ghost old_out = out@;
            out.push(lower_char(c));
            proof {
                let longer = run.push(text::ascii_lower(c));
                assert(last_run(now) == longer);
                assert(ended_runs(now) == done);
                if done.len() == 0 {
                    assert(done.push(longer) =~= seq![longer]);
                    assert(done.push(run) =~= seq![run]);
                    assert(out@ =~= longer);
                } else {
                    assert(out@ =~= text::joined(done, "-"@) + "-"@ + longer);
                }
            }
            prev_dash = false;
        } else {
            assert(last_run(now).len() == 0);
            if !prev_dash && out.len() > 0 {
                assert(run.len() > 0);
                assert(ended_runs(now) == done.push(run));
                out.push('-');
                prev_dash = true;
                assert(out@ =~= text::joined(done.push(run), "-"@) + "-"@);
            } else {
                proof {
                    if run.len() > 0 {
                        lemma_last_run(before);
                        assert(clean_runs(done.push(run)));
                        lemma_joined_runs(done.push(run));
                    }
                }
                assert(ended_runs(now) == done);
            }
        }
        i += 1;
    }
    let ghost done = ended_runs(s@);
    let ghost run = last_run(s@);
    proof {
        assert(s@.take(i as int) =~= s@);
        lemma_runs(s@);
        lemma_joined_runs(done);
        lemma_joined_runs(runs(s@));
    }
    let mut end: usize = out.len();
    if end > 0 && out[end - 1] == '-' {
        end -= 1;
        proof {
            if run.len() > 0 {
                assert(out@.last() == '-');
                assert(tidy_dashes(out@));
            }
            assert(out@.subrange(0, end as int) =~= text::joined(done, "-"@));
        }
    } else {
        assert(out@.subrange(0, end as int) =~= out@);
    }
    text_of(&out, 0, end)
}

/// What follows the last `c` of a text; the whole text where there is none.
pub open spec fn after_last(s: Seq<char>, c: char) -> Seq<char>
    decreases s.len(),
{
    if s.len() == 0 || s.last() == c {
        Seq::empty()
    } else {
        after_last(s.drop_last(), c).push(s.last())
    }
}

/// The last path segment of a command's first word.
pub open spec fn command_name(cmd: Seq<char>) -> Seq<char> {
    after_last(validation::first_word(cmd), '/')
}

/// The last path segment of a command, without its arguments.
pub fn basename(cmd: &str) -> (r: &str)
    ensures
        r@ == command_name(cmd@),
{
    let first = take_first_word(cmd);
    let v = chars_of(first);
    let n = v.len();
    let mut i: usize = n;
    assert(v@.take(n as int) =~= v@);
    assert(v@.subrange(n as int, n as int) =~= Seq::<char>::empty());
    assert(after_last(v@, '/') =~= after_last(v@.take(n as int), '/') + v@.subrange(
        n as int,
        n as int,
    ));
    while i > 0 && v[i - 1] != '/'
        invariant
            n == v@.len(),
            i <= n,
            v@ == first@,
            after_last(first@, '/') == after_last(v@.take(i as int), '/') + v@.subrange(
                i as int,
                n as int,
            ),
        decreases i,
    {
        assert(v@.take(i as int).drop_last() =~= v@.take(i - 1));
        assert(after_last(v@.take(i as int), '/') + v@.subrange(i as int, n as int) =~= after_last(
            v@.take(i - 1),
            '/',
        ) + v@.subrange(i - 1, n as int));
        i -= 1;
    }
    assert(after_last(v@.take(i as int), '/') =~= Seq::<char>::empty());
    assert(first@.subrange(i as int, n as int) =~= after_last(first@, '/'));
    first.substring_char(i, n)
}

/// The id for a new job: the one given, else one made of the title, else one made of the
/// command's name; none where these are all empty.
pub open spec fn id_for(
    id: Option<Seq<char>>,
    title: Option<Seq<char>>,
    command: Option<Seq<char>>,
) -> Option<Seq<char>> {
    if id is Some {
        id
    } else if title is Some && slug(title->0).len() > 0 {
        Some(slug(title->0))
    } else if command is Some && slug(command_name(command->0)).len() > 0 {
        Some(slug(command_name(command->0)))
    } else {
        None
    }
}

/// The id for a new job.
pub fn derive_id(args: &JobsAddArgs) -> (r: Option<String>)
    ensures
        text::opt_view(r) == id_for(
            text::opt_view(args.id),
            text::opt_view(args.title),
            text::opt_view(args.command),
        ),
{
    if args.id.is_some() {
        return copy_opt(&args.id);
    }
    if let Some(t) = &args.title {
        let k = kebab(t.as_str());
        if !k.as_str().is_empty() {
            return Some(k);
        }
    }
    if let Some(c) = &args.command {
        let k = kebab(basename(c.as_str()));
        if !k.as_str().is_empty() {
            return Some(k);
        }
    }
    None
}

/// An id that is made rather than given is a valid job id.
pub proof fn lemma_derived_id_is_kebab(title: Option<Seq<char>>, command: Option<Seq<char>>)
    ensures
        id_for(None, title, command) matches Some(id) ==> validation::kebab(id) && tidy_dashes(id),
{
    if title is Some {
        lemma_slug_is_kebab(title->0);
    }
    if command is Some {
        lemma_slug_is_kebab(command_name(command->0));
    }
}

// ---------------------------------------------------------------------------- scalars

/// A text with `A`-`Z` in lower case.
pub open spec fn lowered(s: Seq<char>) -> Seq<char> {
    s.map_values(|c: char| text::ascii_lower(c))
}

/// A text without the sign before it, where it has one.
pub open spec fn unsigned_part(s: Seq<char>) -> Seq<char> {
    if s.len() > 0 && (s[0] == '+' || s[0] == '-') {
        s.drop_first()
    } else {
        s
    }
}

/// Digits with at most one point in or around them.
pub open spec fn is_mantissa(s: Seq<char>) -> bool {
    match text::find(s, '.') {
        None => s.len() > 0 && text::all_digits(s),
        Some(i) => s.len() > 1 && text::all_digits(s.take(i as int)) && text::all_digits(
            s.skip(i as int + 1),
        ),
    }
}

/// Digits with an optional sign.
pub open spec fn is_exponent(s: Seq<char>) -> bool {
    unsigned_part(s).len() > 0 && text::all_digits(unsigned_part(s))
}

/// Whether a text, in lower case, reads as a floating-point number: an optional sign, then
/// `inf`, `infinity`, `nan`, or digits with an optional point and an optional exponent.
pub open spec fn is_number(s: Seq<char>) -> bool {
    let t = unsigned_part(s);
    ||| t == "inf"@
    ||| t == "infinity"@
    ||| t == "nan"@
    ||| match text::find(t, 'e') {
        Some(i) => is_mantissa(t.take(i as int)) && is_exponent(t.skip(i as int + 1)),
        None => is_mantissa(t),
    }
}

/// The characters that a plain scalar may not hold.
pub open spec fn is_indicator(c: char) -> bool {
    ||| c == ':'
    ||| c == '#'
    ||| c == '\n'
    ||| c == '\t'
    ||| c == '"'
    ||| c == '\''
    ||| c == '{'
    ||| c == '}'
    ||| c == '['
    ||| c == ']'
    ||| c == ','
    ||| c == '&'
    ||| c == '*'
    ||| c == '!'
    ||| c == '|'
    ||| c == '>'
    ||| c == '%'
    ||| c == '@'
    ||| c == '`'
}

/// Whether a text could be read as something else than itself when it stands unquoted.
pub open spec fn needs_quotes(s: Seq<char>) -> bool {
    let lower = lowered(s);
    ||| s.len() == 0
    ||| exists|i: int| 0 <= i < s.len() && is_indicator(#[trigger] s[i])
    ||| s[0] == '-'
    ||| s[0] == '?'
    ||| s[0] == ' '
    ||| s.last() == ' '
    ||| lower == "true"@
    ||| lower == "false"@
    ||| lower == "null"@
    ||| lower == "yes"@
    ||| lower == "no"@
    ||| lower == "~"@
    ||| is_number(lower)
}

/// A text with a backslash before each backslash and each quote.
pub open spec fn escaped(s: Seq<char>) -> Seq<char>
    decreases s.len(),
{
    if s.len() == 0 {
        Seq::empty()
    } else if s.last() == '\\' || s.last() == '"' {
        escaped(s.drop_last()).push('\\').push(s.last())
    } else {
        escaped(s.drop_last()).push(s.last())
    }
}

/// A text as a YAML scalar: plain where that is safe, else quoted.
pub open spec fn scalar_text(s: Seq<char>) -> Seq<char> {
    if needs_quotes(s) {
        "\""@ + escaped(s) + "\""@
    } else {
        s
    }
}

fn lower_text(s: &str) -> (r: String)
    ensures
        r@ == lowered(s@),
{
    let v = chars_of(s);
    let mut r = String::new();
    let mut i: usize = 0;
    while i < v.len()
        invariant
            v@ == s@,
            i <= v@.len(),
            r@ == lowered(s@).take(i as int),
        decreases v.len() - i,
    {
        let c = v[i];
        let l = if 'A' <= c && c <= 'Z' {
            (c as u8 + 32) as char
        } else {
            c
        };
        r.push(l);
        assert(r@ =~= lowered(s@).take(i + 1));
        i += 1;
    }
    assert(lowered(s@).take(i as int) =~= lowered(s@));
    r
}

fn digits_only(s: &str) -> (r: bool)
    ensures
        r == text::all_digits(s@),
{
    let v = chars_of(s);
    let mut i: usize = 0;
    while i < v.len()
        invariant
            v@ == s@,
            i <= v@.len(),
            forall|k: int| 0 <= k < i ==> text::is_digit(#[trigger] s@[k]),
        decreases v.len() - i,
    {
        if !('0' <= v[i] && v[i] <= '9') {
            assert(!text::is_digit(s@[i as int]));
            return false;
        }
        i += 1;
    }
    true
}

fn without_sign(s: &str) -> (r: &str)
    ensures
        r@ == unsigned_part(s@),
{
    let n = s.unicode_len();
    if n > 0 && (s.get_char(0) == '+' || s.get_char(0) == '-') {
        let r = s.substring_char(1, n);
        assert(r@ =~= s@.drop_first());
        r
    } else {
        s
    }
}

fn mantissa(s: &str) -> (r: bool)
    ensures
        r == is_mantissa(s@),
{
    proof {
        text::lemma_find(s@, '.');
    }
    let n = s.unicode_len();
    match find_char(s, '.') {
        None => n > 0 && digits_only(s),
        Some(i) => {
            let a = s.substring_char(0, i);
            let b = s.substring_char(i + 1, n);
            assert(a@ =~= s@.take(i as int));
            assert(b@ =~= s@.skip(i as int + 1));
            n > 1 && digits_only(a) && digits_only(b)
        },
    }
}

fn exponent(s: &str) -> (r: bool)
    ensures
        r == is_exponent(s@),
{
    let t = without_sign(s);
    !t.is_empty() && digits_only(t)
}

/// Whether a text in lower case reads as a floating-point number.
pub fn reads_as_number(s: &str) -> (r: bool)
    ensures
        r == is_number(s@),
{
    let t = without_sign(s);
    if same(t, "inf") || same(t, "infinity") || same(t, "nan") {
        return true;
    }
    proof {
        text::lemma_find(t@, 'e');
    }
    let n = t.unicode_len();
    match find_char(t, 'e') {
        None => mantissa(t),
        Some(i) => {
            let a = t.substring_char(0, i);
            let b = t.substring_char(i + 1, n);
            assert(a@ =~= t@.take(i as int));
            assert(b@ =~= t@.skip(i as int + 1));
            mantissa(a) && exponent(b)
        },
    }
}

fn has_indicator(v: &Vec<char>) -> (r: bool)
    ensures
        r == exists|i: int| 0 <= i < v@.len() && is_indicator(#[trigger] v@[i]),
{
    let mut i: usize = 0;
    while i < v.len()
        invariant
            i <= v@.len(),
            forall|k: int| 0 <= k < i ==> !is_indicator(#[trigger] v@[k]),
        decreases v.len() - i,
    {
        let c = v[i];
        if c == ':' || c == '#' || c == '\n' || c == '\t' || c == '"' || c == '\'' || c == '{' || c
            == '}' || c == '[' || c == ']' || c == ',' || c == '&' || c == '*' || c == '!' || c
            == '|' || c == '>' || c == '%' || c == '@' || c == '`' {
            assert(is_indicator(v@[i as int]));
            return true;
        }
        assert(!is_indicator(v@[i as int]));
        i += 1;
    }
    false
}

fn quotes_needed(s: &str) -> (r: bool)
    ensures
        r == needs_quotes(s@),
{
    let v = chars_of(s);
    let n = v.len();
    if n == 0 || has_indicator(&v) {
        return true;
    }
    if v[0] == '-' || v[0] == '?' || v[0] == ' ' || v[n - 1] == ' ' {
        return true;
    }
    let lower = lower_text(s);
    let l = lower.as_str();
    same(l, "true") || same(l, "false") || same(l, "null") || same(l, "yes") || same(l, "no")
        || same(l, "~") || reads_as_number(l)
}

/// Renders a text as a YAML scalar, quoted where it could be read as something else.
pub fn scalar(s: &str) -> (r: String)
    ensures
        r@ == scalar_text(s@),
{
    if !quotes_needed(s) {
        return s.to_owned();
    }
    let v = chars_of(s);
    let mut r = "\"".to_owned();
    let mut i: usize = 0;
    assert(s@.take(0) =~= Seq::<char>::empty());
    assert(r@ =~= "\""@ + escaped(s@.take(0)));
    while i < v.len()
        invariant
            v@ == s@,
            i <= v@.len(),
            r@ == "\""@ + escaped(s@.take(i as int)),
        decreases v.len() - i,
    {
        let c = v[i];
        assert(s@.take(i + 1).drop_last() =~= s@.take(i as int));
        if c == '\\' || c == '"' {
            r.push('\\');
        }
        r.push(c);
        assert(r@ =~= "\""@ + escaped(s@.take(i + 1)));
        i += 1;
    }
    assert(s@.take(i as int) =~= s@);
    r.append("\"");
    r
}

/// What a quoted text stands for: after a backslash, the next character as it is.
pub open spec fn unescaped(s: Seq<char>) -> Option<Seq<char>>
    decreases s.len(),
{
    if s.len() == 0 {
        Some(Seq::empty())
    } else if s[0] == '"' {
        None
    } else if s[0] == '\\' {
        if s.len() < 2 {
            None
        } else {
            match unescaped(s.skip(2)) {
                Some(t) => Some(seq![s[1]] + t),
                None => None,
            }
        }
    } else {
        match unescaped(s.drop_first()) {
            Some(t) => Some(seq![s[0]] + t),
            None => None,
        }
    }
}

proof fn lemma_escaped_head(s: Seq<char>)
    requires
        s.len() > 0,
    ensures
        escaped(s) == (if s[0] == '\\' || s[0] == '"' {
            seq!['\\', s[0]]
        } else {
            seq![s[0]]
        }) + escaped(s.drop_first()),
    decreases s.len(),
{
    if s.len() == 1 {
        assert(s.drop_last() =~= Seq::<char>::empty());
        assert(s.drop_first() =~= Seq::<char>::empty());
        assert(escaped(s) =~= (if s[0] == '\\' || s[0] == '"' {
            seq!['\\', s[0]]
        } else {
            seq![s[0]]
        }) + escaped(s.drop_first()));
    } else {
        lemma_escaped_head(s.drop_last());
        assert(s.drop_last().drop_first() =~= s.drop_first().drop_last());
        assert(escaped(s) =~= (if s[0] == '\\' || s[0] == '"' {
            seq!['\\', s[0]]
        } else {
            seq![s[0]]
        }) + escaped(s.drop_first()));
    }
}

/// Reading a quoted text back gives the text: no quote in it ends the scalar early.
pub proof fn lemma_escaped_reads_back(s: Seq<char>)
    ensures
        unescaped(escaped(s)) == Some(s),
    decreases s.len(),
{
    if s.len() > 0 {
        lemma_escaped_head(s);
        lemma_escaped_reads_back(s.drop_first());
        let e = escaped(s);
        let rest = escaped(s.drop_first());
        assert(seq![s[0]] + s.drop_first() =~= s);
        if s[0] == '\\' || s[0] == '"' {
            assert(e.skip(2) =~= rest);
            assert(e[0] == '\\' && e[1] == s[0]);
        } else {
            assert(e.drop_first() =~= rest);
            assert(e[0] == s[0]);
        }
    }
}

/// A valid job id holds no character that would have to be quoted or escaped.
pub proof fn lemma_kebab_has_no_indicator(s: Seq<char>)
    requires
        validation::kebab(s),
    ensures
        forall|i: int| 0 <= i < s.len() ==> !is_indicator(#[trigger] s[i]),
        s.last() != ' ',
        escaped(s) == s,
    decreases s.len(),
{
    assert forall|i: int| 0 <= i < s.len() implies !is_indicator(#[trigger] s[i]) by {
        assert(validation::kebab_char(s[i]));
    }
    assert(validation::kebab_char(s[s.len() - 1]));
    if s.len() > 1 {
        assert forall|i: int| 0 <= i < s.drop_last().len() implies validation::kebab_char(
            #[trigger] s.drop_last()[i],
        ) by {
            assert(s.drop_last()[i] == s[i]);
        }
        lemma_kebab_has_no_indicator(s.drop_last());
    } else {
        assert(s.drop_last() =~= Seq::<char>::empty());
        assert(escaped(s.drop_last()) =~= s.drop_last());
    }
    assert(s.drop_last().push(s.last()) =~= s);
}

// ------------------------------------------------------------------------- the block

/// The parts of a text between the places where `c` stands.
pub open spec fn split_on(s: Seq<char>, c: char) -> Seq<Seq<char>>
    decreases s.len(),
{
    match text::find(s, c) {
        Some(i) => if i < s.len() {
            seq![s.take(i as int)] + split_on(s.skip(i as int + 1), c)
        } else {
            seq![s]
        },
        None => seq![s],
    }
}

/// `every` as a YAML value: a list where it holds commas, else a scalar.
pub open spec fn every_text(s: Seq<char>) -> Seq<char> {
    if s.contains(',') {
        "["@ + text::joined(
            split_on(s, ',').map_values(|x: Seq<char>| scalar_text(text::trimmed(x))),
            ", "@,
        ) + "]"@
    } else {
        scalar_text(s)
    }
}

/// Renders `--every` as a YAML value.
pub fn every_value(s: &str) -> (r: String)
    ensures
        r@ == every_text(s@),
{
    proof {
        text::lemma_find(s@, ',');
    }
    if find_char(s, ',').is_none() {
        return scalar(s);
    }
    proof {
        let i = text::find(s@, ',')->0;
        assert(s@[i as int] == ',');
    }
    let ghost f = |x: Seq<char>| scalar_text(text::trimmed(x));
    let ghost all = split_on(s@, ',').map_values(f);
    let mut items: Vec<String> = Vec::new();
    let mut rest = s;
    let mut more = true;
    assert(text::views(items@) + split_on(rest@, ',').map_values(f) =~= all);
    while more
        invariant
            f == |x: Seq<char>| scalar_text(text::trimmed(x)),
            all == split_on(s@, ',').map_values(f),
            more ==> text::views(items@) + split_on(rest@, ',').map_values(f) == all,
            !more ==> text::views(items@) == all,
        decreases (if more { 1int } else { 0 }), rest@.len(),
    {
        let ghost before = text::views(items@);
        let ghost parts = split_on(rest@, ',');
        proof {
            text::lemma_find(rest@, ',');
        }
        match find_char(rest, ',') {
            Some(i) => {
                let n = rest.unicode_len();
                let item = rest.substring_char(0, i);
                let after = rest.substring_char(i + 1, n);
                assert(item@ =~= rest@.take(i as int));
                assert(after@ =~= rest@.skip(i as int + 1));
                items.push(scalar(trim(item)));
                proof {
                    let tail = split_on(after@, ',');
                    assert(parts == seq![item@] + tail);
                    assert(parts.map_values(f) =~= seq![f(item@)] + tail.map_values(f));
                    assert(text::views(items@) =~= before.push(f(item@)));
                    assert(text::views(items@) + tail.map_values(f) =~= before
                        + parts.map_values(f));
                }
                rest = after;
            },
            None => {
                items.push(scalar(trim(rest)));
                proof {
                    assert(parts == seq![rest@]);
                    assert(text::views(items@) =~= before.push(f(rest@)));
                    assert(text::views(items@) =~= before + parts.map_values(f));
                }
                more = false;
            },
        }
    }
    let mut r = "[".to_owned();
    r.append(join(&items, ", ").as_str());
    r.append("]");
    r
}

/// A line of a block: a key and a value, where there is one.
pub open spec fn line_for(key: Seq<char>, value: Option<Seq<char>>) -> Seq<char> {
    match value {
        Some(v) => key + v + "\n"@,
        None => Seq::empty(),
    }
}

pub open spec fn scalar_opt(o: Option<String>) -> Option<Seq<char>> {
    match o {
        Some(s) => Some(scalar_text(s@)),
        None => None,
    }
}

pub open spec fn number_opt(o: Option<i64>) -> Option<Seq<char>> {
    match o {
        Some(n) => Some(text::signed_decimal(n as int)),
        None => None,
    }
}

pub open spec fn flag_opt(b: bool, word: Seq<char>) -> Option<Seq<char>> {
    if b {
        Some(word)
    } else {
        None
    }
}

/// The lines of a block's schedule.
pub open spec fn schedule_block(args: JobsAddArgs) -> Seq<char> {
    match (args.cron, args.every) {
        (Some(cron), _) => line_for("      cron: "@, Some(scalar_text(cron@))),
        (None, Some(every)) => line_for("      every: "@, Some(every_text(every@))) + line_for(
            "      at: "@,
            scalar_opt(args.at),
        ) + line_for("      on_day: "@, number_opt(args.on_day)) + line_for(
            "      last_day: "@,
            flag_opt(args.last_day, "true"@),
        ),
        (None, None) => Seq::empty(),
    }
}

/// The YAML block of a new job: one list item with the fields that are set, in a fixed order.
pub open spec fn block_text(id: Seq<char>, args: JobsAddArgs) -> Seq<char> {
    line_for("  - id: "@, Some(scalar_text(id))) + line_for("    title: "@, scalar_opt(args.title))
        + line_for("    enabled: "@, flag_opt(args.disabled, "false"@)) + "    schedule:\n"@
        + schedule_block(args) + "    execution:\n"@ + line_for(
        "      command: "@,
        Some(
            scalar_text(
                match args.command {
                    Some(c) => c@,
                    None => Seq::empty(),
                },
            ),
        ),
    ) + line_for("      cwd: "@, scalar_opt(args.cwd)) + line_for(
        "    timeout: "@,
        scalar_opt(args.timeout),
    ) + line_for("    overlap_policy: "@, scalar_opt(args.overlap)) + line_for(
        "    retry:\n      max_retries: "@,
        number_opt(args.retry),
    )
}

fn put_line(b: &mut String, key: &str, value: &str)
    ensures
        final(b)@ == old(b)@ + line_for(key@, Some(value@)),
{
    let ghost before = b@;
    b.append(key);
    b.append(value);
    b.append("\n");
    assert(b@ =~= before + (key@ + value@ + "\n"@));
}

fn put_scalar(b: &mut String, key: &str, value: &Option<String>)
    ensures
        final(b)@ == old(b)@ + line_for(key@, scalar_opt(*value)),
{
    match value {
        Some(v) => {
            put_line(b, key, scalar(v.as_str()).as_str());
        },
        None => {
            assert(b@ + Seq::<char>::empty() =~= b@);
        },
    }
}

fn put_number(b: &mut String, key: &str, value: Option<i64>)
    ensures
        final(b)@ == old(b)@ + line_for(key@, number_opt(value)),
{
    match value {
        Some(n) => {
            put_line(b, key, signed_decimal_text(n).as_str());
        },
        None => {
            assert(b@ + Seq::<char>::empty() =~= b@);
        },
    }
}

fn put_flag(b: &mut String, key: &str, due: bool, word: &str)
    ensures
        final(b)@ == old(b)@ + line_for(key@, flag_opt(due, word@)),
{
    if due {
        put_line(b, key, word);
    } else {
        assert(b@ + Seq::<char>::empty() =~= b@);
    }
}

fn put_schedule(b: &mut String, args: &JobsAddArgs)
    ensures
        final(b)@ == old(b)@ + schedule_block(*args),
{
    let ghost before = b@;
    if let Some(cron) = &args.cron {
        put_line(b, "      cron: ", scalar(cron.as_str()).as_str());
    } else if let Some(every) = &args.every {
        put_line(b, "      every: ", every_value(every.as_str()).as_str());
        put_scalar(b, "      at: ", &args.at);
        put_number(b, "      on_day: ", args.on_day);
        put_flag(b, "      last_day: ", args.last_day, "true");
        proof {
            let l1 = line_for("      every: "@, Some(every_text(every@)));
            let l2 = line_for("      at: "@, scalar_opt(args.at));
            let l3 = line_for("      on_day: "@, number_opt(args.on_day));
            let l4 = line_for("      last_day: "@, flag_opt(args.last_day, "true"@));
            assert(before + l1 + l2 + l3 + l4 =~= before + (l1 + l2 + l3 + l4));
        }
    } else {
        assert(before + Seq::<char>::empty() =~= before);
    }
}

/// Builds the YAML block of a new job.
pub fn build_block(id: &str, args: &JobsAddArgs) -> (r: String)
    ensures
        r@ == block_text(id@, *args),
{
    let mut b = String::new();
    put_line(&mut b, "  - id: ", scalar(id).as_str());
    assert(b@ =~= line_for("  - id: "@, Some(scalar_text(id@))));
    put_scalar(&mut b, "    title: ", &args.title);
    put_flag(&mut b, "    enabled: ", args.disabled, "false");
    b.append("    schedule:\n");
    put_schedule(&mut b, args);
    b.append("    execution:\n");
    let command = match &args.command {
        Some(c) => c.clone(),
        None => String::new(),
    };
    put_line(&mut b, "      command: ", scalar(command.as_str()).as_str());
    put_scalar(&mut b, "      cwd: ", &args.cwd);
    put_scalar(&mut b, "    timeout: ", &args.timeout);
    put_scalar(&mut b, "    overlap_policy: ", &args.overlap);
    put_number(&mut b, "    retry:\n      max_retries: ", args.retry);
    b
}

} // verus!
