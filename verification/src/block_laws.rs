//! What holds of the id and the block of every new job: which id a text gives, when a value is
//! quoted, and which lines the block has.

use crate::cli::JobsAddArgs;
use crate::job_block;
use crate::text;
use crate::text_laws;
use crate::validation;
use vstd::prelude::*;

verus! {

// ---------------------------------------------------------------------------------- ids

/// A word of lower-case letters and digits is its own id; capitals count as the small letters;
/// and anything else between two texts parts their ids by one hyphen.
pub proof fn lemma_id_of_words(a: Seq<char>, c: char, b: Seq<char>, capitals: Seq<char>)
    requires
        !('a' <= c <= 'z') && !('A' <= c <= 'Z') && !('0' <= c <= '9'),
        capitals.len() == a.len(),
        forall|i: int|
            0 <= i < a.len() ==> #[trigger] capitals[i] == a[i] || ('a' <= a[i] <= 'z'
                && capitals[i] as int + 32 == a[i] as int),
    ensures
        (forall|i: int| 0 <= i < a.len() ==> ('a' <= #[trigger] a[i] <= 'z' || '0' <= a[i] <= '9'))
            ==> job_block::slug(a) == a,
        job_block::slug(capitals) == job_block::slug(a),
        job_block::slug(a).len() == 0 ==> job_block::slug(a + seq![c] + b) == job_block::slug(b),
        job_block::slug(b).len() == 0 ==> job_block::slug(a + seq![c] + b) == job_block::slug(a),
        job_block::slug(a).len() > 0 && job_block::slug(b).len() > 0 ==> job_block::slug(
            a + seq![c] + b,
        ) == job_block::slug(a) + seq!['-'] + job_block::slug(b),
{
    reveal_strlit("-");
    assert("-"@ =~= seq!['-']);
    if forall|i: int| 0 <= i < a.len() ==> ('a' <= #[trigger] a[i] <= 'z' || '0' <= a[i] <= '9') {
        lemma_plain_run(a);
        if a.len() == 0 {
            assert(job_block::runs(a) =~= Seq::empty());
            assert(job_block::slug(a) =~= a);
        } else {
            assert(job_block::runs(a) =~= seq![a]);
        }
    }
    lemma_capitals(a, capitals);
    lemma_runs_parted(a, c, b);
    lemma_runs_nonempty(a);
    lemma_runs_nonempty(b);
    lemma_joined_nonempty(job_block::runs(a), "-"@);
    lemma_joined_nonempty(job_block::runs(b), "-"@);
    let (x, y) = (job_block::runs(a), job_block::runs(b));
    if x.len() == 0 {
        assert(x + y =~= y);
    } else if y.len() == 0 {
        assert(x + y =~= x);
    } else {
        lemma_joined_concat(x, y, "-"@);
    }
}

proof fn lemma_plain_run(a: Seq<char>)
    requires
        forall|i: int| 0 <= i < a.len() ==> ('a' <= #[trigger] a[i] <= 'z' || '0' <= a[i] <= '9'),
    ensures
        job_block::last_run(a) == a,
        job_block::ended_runs(a).len() == 0,
    decreases a.len(),
{
    if a.len() > 0 {
        let n = a.len() - 1;
        assert('a' <= a[n] <= 'z' || '0' <= a[n] <= '9');
        lemma_plain_run(a.drop_last());
        assert(a.drop_last().push(a.last()) =~= a);
    }
}

proof fn lemma_capitals(a: Seq<char>, capitals: Seq<char>)
    requires
        capitals.len() == a.len(),
        forall|i: int|
            0 <= i < a.len() ==> #[trigger] capitals[i] == a[i] || ('a' <= a[i] <= 'z'
                && capitals[i] as int + 32 == a[i] as int),
    ensures
        job_block::last_run(capitals) == job_block::last_run(a),
        job_block::ended_runs(capitals) == job_block::ended_runs(a),
    decreases a.len(),
{
    if a.len() > 0 {
        let n = a.len() - 1;
        assert(capitals[n] == a[n] || ('a' <= a[n] <= 'z' && capitals[n] as int + 32
            == a[n] as int));
        assert forall|i: int| 0 <= i < a.drop_last().len() implies #[trigger]
            capitals.drop_last()[i] == a.drop_last()[i] || ('a' <= a.drop_last()[i] <= 'z'
            && capitals.drop_last()[i] as int + 32 == a.drop_last()[i] as int) by {
            assert(capitals.drop_last()[i] == capitals[i]);
        }
        lemma_capitals(a.drop_last(), capitals.drop_last());
    }
}

proof fn lemma_runs_parted(a: Seq<char>, c: char, b: Seq<char>)
    requires
        !('a' <= c <= 'z') && !('A' <= c <= 'Z') && !('0' <= c <= '9'),
    ensures
        job_block::last_run(a + seq![c] + b) == job_block::last_run(b),
        job_block::ended_runs(a + seq![c] + b) == job_block::runs(a) + job_block::ended_runs(b),
        job_block::runs(a + seq![c] + b) == job_block::runs(a) + job_block::runs(b),
    decreases b.len(),
{
    let s = a + seq![c] + b;
    if b.len() == 0 {
        assert(s.drop_last() =~= a);
        assert(s.last() == c);
        assert(job_block::ended_runs(s) =~= job_block::runs(a) + job_block::ended_runs(b));
    } else {
        lemma_runs_parted(a, c, b.drop_last());
        assert(s.drop_last() =~= a + seq![c] + b.drop_last());
        assert(s.last() == b.last());
        assert(job_block::ended_runs(s) =~= job_block::runs(a) + job_block::ended_runs(b));
    }
    assert(job_block::runs(s) =~= job_block::runs(a) + job_block::runs(b));
}

proof fn lemma_runs_nonempty(s: Seq<char>)
    ensures
        forall|i: int|
            0 <= i < job_block::ended_runs(s).len() ==> (#[trigger] job_block::ended_runs(
                s,
            )[i]).len() > 0,
        forall|i: int|
            0 <= i < job_block::runs(s).len() ==> (#[trigger] job_block::runs(s)[i]).len() > 0,
    decreases s.len(),
{
    if s.len() > 0 {
        let head = s.drop_last();
        lemma_runs_nonempty(head);
        let (old, new) = (job_block::ended_runs(head), job_block::ended_runs(s));
        assert forall|i: int| 0 <= i < new.len() implies (#[trigger] new[i]).len() > 0 by {
            if i < old.len() {
                assert(new[i] == old[i]);
            }
        }
    }
    let (ended, all) = (job_block::ended_runs(s), job_block::runs(s));
    assert forall|i: int| 0 <= i < all.len() implies (#[trigger] all[i]).len() > 0 by {
        if i < ended.len() {
            assert(all[i] == ended[i]);
        }
    }
}

proof fn lemma_joined_nonempty(v: Seq<Seq<char>>, sep: Seq<char>)
    requires
        forall|i: int| 0 <= i < v.len() ==> (#[trigger] v[i]).len() > 0,
    ensures
        v.len() > 0 <==> text::joined(v, sep).len() > 0,
{
    if v.len() > 0 {
        assert(v[v.len() - 1].len() > 0);
    }
}

proof fn lemma_joined_concat(x: Seq<Seq<char>>, y: Seq<Seq<char>>, sep: Seq<char>)
    requires
        x.len() > 0,
        y.len() > 0,
    ensures
        text::joined(x + y, sep) == text::joined(x, sep) + sep + text::joined(y, sep),
    decreases y.len(),
{
    assert((x + y).drop_last() =~= x + y.drop_last());
    assert((x + y).last() == y.last());
    if y.len() == 1 {
        assert(x + y.drop_last() =~= x);
    } else {
        lemma_joined_concat(x, y.drop_last(), sep);
        assert(text::joined(x + y, sep) =~= text::joined(x, sep) + sep + text::joined(y, sep));
    }
}

/// The name of a program is what follows the last slash of the first word of its command.
pub proof fn lemma_program_is_named(
    dir: Seq<char>,
    name: Seq<char>,
    args: Seq<char>,
    cmd: &str,
    r: &str,
)
    requires
        name.len() > 0,
        forall|i: int|
            0 <= i < name.len() ==> #[trigger] name[i] != '/' && !text::is_space(name[i]),
        forall|i: int| 0 <= i < dir.len() ==> !text::is_space(#[trigger] dir[i]),
        cmd@ == dir + seq!['/'] + name + seq![' '] + args || cmd@ == dir + seq!['/'] + name
            || cmd@ == name + seq![' '] + args || cmd@ == name,
        call_ensures(job_block::basename, (cmd,), r),
    ensures
        r@ == name,
{
    text_laws::lemma_white_space('/');
    text_laws::lemma_white_space(' ');
    let path = if cmd@ == name + seq![' '] + args || cmd@ == name {
        name
    } else {
        dir + seq!['/'] + name
    };
    assert(!text::is_space(path[0])) by {
        if path != name && dir.len() > 0 {
            assert(path[0] == dir[0]);
        }
    }
    assert forall|i: int| 0 <= i < path.len() implies !text::is_space(#[trigger] path[i]) by {
        if path != name {
            if i < dir.len() {
                assert(path[i] == dir[i]);
            } else if i > dir.len() {
                assert(path[i] == name[i - dir.len() - 1]);
            }
        }
    }
    if cmd@ != path {
        assert(cmd@ =~= path + (seq![' '] + args));
        lemma_word_ends(path, seq![' '] + args);
        assert(cmd@.take(path.len() as int) =~= path);
    } else {
        assert(path + Seq::<char>::empty() =~= path);
        lemma_word_ends(path, Seq::empty());
        assert(path.take(path.len() as int) =~= path);
    }
    lemma_after_last(dir, name);
    assert(name =~= Seq::<char>::empty() + name);
    lemma_no_slash(name);
}

pub(crate) proof fn lemma_word_ends(word: Seq<char>, rest: Seq<char>)
    requires
        rest.len() > 0 ==> text::is_space(rest[0]),
        forall|i: int| 0 <= i < word.len() ==> !text::is_space(#[trigger] word[i]),
    ensures
        validation::word_length(word + rest) == word.len(),
    decreases word.len(),
{
    if word.len() == 0 {
        assert(word + rest =~= rest);
    } else {
        assert((word + rest).drop_first() =~= word.drop_first() + rest);
        assert((word + rest)[0] == word[0]);
        lemma_word_ends(word.drop_first(), rest);
    }
}

proof fn lemma_no_slash(name: Seq<char>)
    requires
        forall|i: int| 0 <= i < name.len() ==> #[trigger] name[i] != '/',
    ensures
        job_block::after_last(name, '/') == name,
    decreases name.len(),
{
    if name.len() > 0 {
        lemma_no_slash(name.drop_last());
        assert(name.drop_last().push(name.last()) =~= name);
        assert(name[name.len() - 1] != '/');
    }
}

proof fn lemma_after_last(dir: Seq<char>, name: Seq<char>)
    requires
        forall|i: int| 0 <= i < name.len() ==> #[trigger] name[i] != '/',
    ensures
        job_block::after_last(dir + seq!['/'] + name, '/') == name,
    decreases name.len(),
{
    let s = dir + seq!['/'] + name;
    if name.len() == 0 {
        assert(s.last() == '/');
        assert(job_block::after_last(s, '/') =~= name);
    } else {
        assert(s.drop_last() =~= dir + seq!['/'] + name.drop_last());
        assert(s.last() == name[name.len() - 1]);
        lemma_after_last(dir, name.drop_last());
        assert(name.drop_last().push(name.last()) =~= name);
    }
}

/// An id that is given is kept; else the title gives it; and the command only where the title
/// gives none.
pub proof fn lemma_given_id_goes_first(
    args: &JobsAddArgs,
    r: Option<String>,
    title: &str,
    of_title: String,
    command: &str,
    program: &str,
    of_program: String,
)
    requires
        call_ensures(job_block::derive_id, (args,), r),
        args.title matches Some(t) ==> t@ == title@,
        args.command matches Some(c) ==> c@ == command@,
        call_ensures(job_block::kebab, (title,), of_title),
        call_ensures(job_block::basename, (command,), program),
        call_ensures(job_block::kebab, (program,), of_program),
    ensures
        args.id matches Some(id) ==> (r matches Some(out) && out@ == id@),
        args.id is None && args.title is Some && of_title@.len() > 0 ==> (r matches Some(out)
            && out@ == of_title@),
        args.id is None && (args.title is None || of_title@.len() == 0) && args.command is Some
            && of_program@.len() > 0 ==> (r matches Some(out) && out@ == of_program@),
        args.id is None && (args.title is None || of_title@.len() == 0) && (args.command is None
            || of_program@.len() == 0) ==> r is None,
{
}

// ------------------------------------------------------------------------------- values

/// Whether a text is a word, but for capitals in place of its letters.
pub open spec fn is_word_in_any_case(s: Seq<char>, word: Seq<char>) -> bool {
    s.len() == word.len() && forall|i: int|
        0 <= i < s.len() ==> #[trigger] s[i] == word[i] || ('a' <= word[i] <= 'z' && s[i] as int + 32
            == word[i] as int)
}

/// Whether a text is one that YAML reads as something else than a text.
pub open spec fn is_reserved(s: Seq<char>) -> bool {
    ||| is_word_in_any_case(s, "true"@)
    ||| is_word_in_any_case(s, "false"@)
    ||| is_word_in_any_case(s, "null"@)
    ||| is_word_in_any_case(s, "yes"@)
    ||| is_word_in_any_case(s, "no"@)
    ||| is_word_in_any_case(s, "inf"@)
    ||| is_word_in_any_case(s, "infinity"@)
    ||| is_word_in_any_case(s, "nan"@)
    ||| s == "~"@
}

/// A value is written as it is or in quotes that read back as the value. In quotes it is where it
/// is empty, has a mark of YAML in it or a blank at an end, is a word of YAML in any case, or is a
/// number.
pub proof fn lemma_value_is_read_back(s: &str, r: String, i: int, n: nat, m: nat)
    requires
        call_ensures(job_block::scalar, (s,), r),
    ensures
        r@ == s@ || (r@.len() >= 2 && r@[0] == '"' && r@.last() == '"' && job_block::unescaped(
            r@.subrange(1, r@.len() - 1),
        ) == Some(s@)),
        s@.len() == 0 ==> r@ != s@,
        0 <= i < s@.len() && (s@[i] == ':' || s@[i] == '#' || s@[i] == '\n' || s@[i] == '\t' || s@[i]
            == '"' || s@[i] == '\'' || s@[i] == '{' || s@[i] == '}' || s@[i] == '[' || s@[i] == ']'
            || s@[i] == ',' || s@[i] == '&' || s@[i] == '*' || s@[i] == '!' || s@[i] == '|' || s@[i]
            == '>' || s@[i] == '%' || s@[i] == '@' || s@[i] == '`') ==> r@ != s@,
        s@.len() > 0 && (s@[0] == '-' || s@[0] == '?' || s@[0] == ' ' || s@.last() == ' ') ==> r@
            != s@,
        is_reserved(s@) ==> r@ != s@,
        s@ == text::decimal(n) || s@ == seq!['-'] + text::decimal(n) || s@ == text::decimal(n)
            + seq!['.'] + text::decimal(m) || s@ == text::decimal(n) + seq!['e'] + text::decimal(m)
            ==> r@ != s@,
{
    lemma_quoted(s@);
    job_block::lemma_escaped_reads_back(s@);
    reveal_strlit("\"");
    let quoted = "\""@ + job_block::escaped(s@) + "\""@;
    assert(quoted.subrange(1, quoted.len() - 1) =~= job_block::escaped(s@));
    if 0 <= i < s@.len() {
        assert(job_block::is_indicator(s@[i]) ==> job_block::needs_quotes(s@));
    }
    lemma_reserved(s@);
    lemma_numbers(n, m);
}

proof fn lemma_quoted(s: Seq<char>)
    ensures
        job_block::escaped(s).len() >= s.len(),
        ("\""@ + job_block::escaped(s) + "\""@).len() > s.len(),
    decreases s.len(),
{
    reveal_strlit("\"");
    if s.len() > 0 {
        lemma_quoted(s.drop_last());
    }
}

proof fn lemma_lowered(s: Seq<char>, word: Seq<char>)
    requires
        forall|i: int| 0 <= i < word.len() ==> !('A' <= #[trigger] word[i] <= 'Z'),
    ensures
        is_word_in_any_case(s, word) <==> job_block::lowered(s) == word,
{
    let lower = job_block::lowered(s);
    if is_word_in_any_case(s, word) {
        assert forall|i: int| 0 <= i < s.len() implies #[trigger] lower[i] == word[i] by {
            assert(s[i] == word[i] || ('a' <= word[i] <= 'z' && s[i] as int + 32 == word[i] as int));
        }
        assert(lower =~= word);
    }
    if lower == word {
        assert forall|i: int| 0 <= i < s.len() implies #[trigger] s[i] == word[i] || ('a' <= word[i]
            <= 'z' && s[i] as int + 32 == word[i] as int) by {
            assert(lower[i] == text::ascii_lower(s[i]));
        }
    }
}

proof fn lemma_reserved(s: Seq<char>)
    ensures
        is_reserved(s) ==> job_block::needs_quotes(s),
        job_block::needs_quotes(s) && s.len() > 0 && (forall|i: int|
            0 <= i < s.len() ==> !job_block::is_indicator(#[trigger] s[i])) && s[0] != '-' && s[0]
            != '?' && s[0] != ' ' && s.last() != ' ' ==> is_reserved(s) || job_block::is_number(
            job_block::lowered(s),
        ),
{
    reveal_strlit("true");
    reveal_strlit("false");
    reveal_strlit("null");
    reveal_strlit("yes");
    reveal_strlit("no");
    reveal_strlit("inf");
    reveal_strlit("infinity");
    reveal_strlit("nan");
    reveal_strlit("~");
    lemma_lowered(s, "true"@);
    lemma_lowered(s, "false"@);
    lemma_lowered(s, "null"@);
    lemma_lowered(s, "yes"@);
    lemma_lowered(s, "no"@);
    lemma_lowered(s, "inf"@);
    lemma_lowered(s, "infinity"@);
    lemma_lowered(s, "nan"@);
    lemma_lowered(s, "~"@);
    if s == "~"@ {
        assert(is_word_in_any_case(s, "~"@));
    }
    if is_word_in_any_case(s, "~"@) {
        assert(s[0] == '~');
        assert(s =~= "~"@);
    }
    let lower = job_block::lowered(s);
    if lower == "inf"@ || lower == "infinity"@ || lower == "nan"@ {
        assert(job_block::unsigned_part(lower) == lower);
        assert(job_block::is_number(lower));
    }
}

proof fn lemma_digits_alone(d: Seq<char>)
    requires
        text::all_digits(d),
    ensures
        job_block::lowered(d) == d,
        text::find(d, 'e') is None,
        text::find(d, '.') is None,
{
    assert(job_block::lowered(d) =~= d);
    text::lemma_find(d, 'e');
    text::lemma_find(d, '.');
}

proof fn lemma_numbers(n: nat, m: nat)
    ensures
        job_block::needs_quotes(text::decimal(n)),
        job_block::needs_quotes(seq!['-'] + text::decimal(n)),
        job_block::needs_quotes(text::decimal(n) + seq!['.'] + text::decimal(m)),
        job_block::needs_quotes(text::decimal(n) + seq!['e'] + text::decimal(m)),
{
    let (a, b) = (text::decimal(n), text::decimal(m));
    text::lemma_decimal_number(n);
    text::lemma_decimal_number(m);
    lemma_digits_alone(a);
    lemma_digits_alone(b);
    assert(text::is_digit(a[0]));
    assert(job_block::is_number(job_block::lowered(a)));
    assert((seq!['-'] + a)[0] == '-');
    let p = a + seq!['.'] + b;
    assert(job_block::lowered(p) =~= p);
    text::lemma_find(p, 'e');
    text::lemma_find(p, '.');
    assert(p[a.len() as int] == '.');
    assert(p[0] == a[0]);
    assert(p.take(a.len() as int) =~= a);
    assert(p.skip(a.len() as int + 1) =~= b);
    assert(text::find(p, '.') == Some(a.len())) by {
        let k = text::find(p, '.')->0 as int;
        if k < a.len() {
            assert(p[k] == a[k]);
        }
    }
    assert(text::find(p, 'e') is None) by {
        if text::find(p, 'e') is Some {
            let k = text::find(p, 'e')->0 as int;
            if k < a.len() {
                assert(p[k] == a[k]);
            } else if k > a.len() {
                assert(p[k] == b[k - a.len() - 1]);
            }
        }
    }
    assert(job_block::is_number(job_block::lowered(p)));
    let q = a + seq!['e'] + b;
    assert(job_block::lowered(q) =~= q);
    text::lemma_find(q, 'e');
    assert(q[a.len() as int] == 'e');
    assert(q[0] == a[0]);
    assert(q.take(a.len() as int) =~= a);
    assert(q.skip(a.len() as int + 1) =~= b);
    assert(text::find(q, 'e') == Some(a.len())) by {
        let k = text::find(q, 'e')->0 as int;
        if k < a.len() {
            assert(q[k] == a[k]);
        }
    }
    assert(text::is_digit(b[0]));
    assert(job_block::is_number(job_block::lowered(q)));
}

/// A text that begins with a letter, has no blank at its end and no mark in it, and is no word of
/// YAML, is written as it is.
pub proof fn lemma_plain_value_is_kept(s: &str, r: String)
    requires
        call_ensures(job_block::scalar, (s,), r),
        s@.len() > 0,
        'a' <= s@[0] <= 'z' || 'A' <= s@[0] <= 'Z',
        s@.last() != ' ',
        forall|i: int|
            0 <= i < s@.len() ==> {
                let c = #[trigger] s@[i];
                'a' <= c <= 'z' || 'A' <= c <= 'Z' || '0' <= c <= '9' || c == '-' || c == '_' || c
                    == '.' || c == '/' || c == ' ' || c == '+' || c == '='
            },
        !is_reserved(s@),
    ensures
        r@ == s@,
{
    lemma_reserved(s@);
    let t = job_block::lowered(s@);
    assert('a' <= t[0] <= 'z') by {
        assert(t[0] == text::ascii_lower(s@[0]));
    }
    assert(job_block::unsigned_part(t) == t);
    reveal_strlit("inf");
    reveal_strlit("infinity");
    reveal_strlit("nan");
    lemma_lowered(s@, "inf"@);
    lemma_lowered(s@, "infinity"@);
    lemma_lowered(s@, "nan"@);
    text::lemma_find(t, 'e');
    match text::find(t, 'e') {
        Some(k) => {
            let front = t.take(k as int);
            lemma_no_mantissa(front);
        },
        None => {
            lemma_no_mantissa(t);
        },
    }
    assert(!job_block::is_number(t));
}

proof fn lemma_no_mantissa(t: Seq<char>)
    requires
        t.len() > 0 ==> 'a' <= t[0] <= 'z',
    ensures
        !job_block::is_mantissa(t),
{
    text::lemma_find(t, '.');
    match text::find(t, '.') {
        None => {
            if t.len() > 0 {
                assert(!text::is_digit(t[0]));
            }
        },
        Some(k) => {
            if k > 0 {
                assert(t.take(k as int)[0] == t[0]);
                assert(!text::is_digit(t.take(k as int)[0]));
            }
        },
    }
}

/// A schedule without a comma is written as one value, and one with commas as a list of the values
/// between them, without the blanks round them.
pub proof fn lemma_list_is_written(
    first: Seq<char>,
    rest: Seq<char>,
    s: &str,
    r: String,
    first_bare: &str,
    first_text: String,
    rest_s: &str,
    rest_text: String,
    rest_bare: &str,
    rest_bare_text: String,
)
    requires
        forall|i: int| 0 <= i < first.len() ==> #[trigger] first[i] != ',',
        s@ == first + seq![','] + rest,
        call_ensures(job_block::every_value, (s,), r),
        first_bare@ == text::trimmed(first),
        call_ensures(job_block::scalar, (first_bare,), first_text),
        rest_s@ == rest,
        call_ensures(job_block::every_value, (rest_s,), rest_text),
        rest_bare@ == text::trimmed(rest),
        call_ensures(job_block::scalar, (rest_bare,), rest_bare_text),
    ensures
        !rest.contains(',') ==> r@ == seq!['['] + first_text@ + seq![',', ' '] + rest_bare_text@
            + seq![']'],
        rest.contains(',') ==> exists|inner: Seq<char>| #[trigger]
            (seq!['['] + inner + seq![']']) == rest_text@ && r@ == seq!['['] + first_text@ + seq![
                ',',
                ' ',
            ] + inner + seq![']'],
{
    reveal_strlit("[");
    reveal_strlit("]");
    reveal_strlit(", ");
    assert("["@ =~= seq!['['] && "]"@ =~= seq![']'] && ", "@ =~= seq![',', ' ']);
    let shown = |x: Seq<char>| job_block::scalar_text(text::trimmed(x));
    text::lemma_find(s@, ',');
    text::lemma_find(rest, ',');
    assert(s@[first.len() as int] == ',');
    assert(s@.contains(','));
    let k = text::find(s@, ',')->0 as int;
    assert(k == first.len()) by {
        if k < first.len() {
            assert(s@[k] == first[k]);
        }
    }
    assert(s@.take(k) =~= first);
    assert(s@.skip(k + 1) =~= rest);
    let tail = job_block::split_on(rest, ',');
    assert(tail.len() > 0);
    assert(job_block::split_on(s@, ',') == seq![first] + tail);
    let (x, y) = (seq![shown(first)], tail.map_values(shown));
    assert((seq![first] + tail).map_values(shown) =~= x + y);
    lemma_joined_concat(x, y, ", "@);
    assert(text::joined(x, ", "@) == shown(first));
    let inner = text::joined(y, ", "@);
    assert(r@ =~= seq!['['] + first_text@ + seq![',', ' '] + inner + seq![']']);
    if rest.contains(',') {
        assert(rest_text@ =~= seq!['['] + inner + seq![']']);
    } else {
        assert(tail =~= seq![rest]);
        assert(y =~= seq![shown(rest)]);
        assert(inner == rest_bare_text@);
    }
}

// -------------------------------------------------------------------------------- blocks

/// The block of a job has a line for its id, one for each option that is given, and no other, each
/// under the part of the job that it belongs to; a job is disabled only where that is asked for;
/// and a cron expression takes the place of every other schedule.
pub proof fn lemma_block_has_its_lines(
    id: &str,
    args: &JobsAddArgs,
    r: String,
    command: Seq<char>,
    every: Seq<char>,
)
    requires
        call_ensures(job_block::build_block, (id, args), r),
        args.command matches Some(c) && c@ == command,
        args.cron is None ==> (args.every matches Some(e) && e@ == every),
    ensures
        r@ == "  - id: "@ + job_block::scalar_text(id@) + "\n"@ + (match args.title {
            Some(t) => "    title: "@ + job_block::scalar_text(t@) + "\n"@,
            None => Seq::<char>::empty(),
        }) + (if args.disabled {
            "    enabled: "@ + "false"@ + "\n"@
        } else {
            Seq::<char>::empty()
        }) + "    schedule:\n"@ + (match args.cron {
            Some(c) => "      cron: "@ + job_block::scalar_text(c@) + "\n"@,
            None => "      every: "@ + job_block::every_text(every) + "\n"@ + (match args.at {
                Some(t) => "      at: "@ + job_block::scalar_text(t@) + "\n"@,
                None => Seq::<char>::empty(),
            }) + (match args.on_day {
                Some(d) => "      on_day: "@ + text::signed_decimal(d as int) + "\n"@,
                None => Seq::<char>::empty(),
            }) + (if args.last_day {
                "      last_day: "@ + "true"@ + "\n"@
            } else {
                Seq::<char>::empty()
            }),
        }) + "    execution:\n"@ + ("      command: "@ + job_block::scalar_text(command) + "\n"@) + (
        match args.cwd {
            Some(d) => "      cwd: "@ + job_block::scalar_text(d@) + "\n"@,
            None => Seq::<char>::empty(),
        }) + (match args.timeout {
            Some(t) => "    timeout: "@ + job_block::scalar_text(t@) + "\n"@,
            None => Seq::<char>::empty(),
        }) + (match args.overlap {
            Some(p) => "    overlap_policy: "@ + job_block::scalar_text(p@) + "\n"@,
            None => Seq::<char>::empty(),
        }) + (match args.retry {
            Some(n) => "    retry:\n      max_retries: "@ + text::signed_decimal(n as int) + "\n"@,
            None => Seq::<char>::empty(),
        }),
{
}

} // verus!
