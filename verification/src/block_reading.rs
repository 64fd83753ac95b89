//! Reading the block of a new job back: each of its lines holds a key and a value, and the
//! values are the arguments that the block was built from.

use crate::cli::JobsAddArgs;
use crate::job_block;
use crate::lines;
use crate::text;
use vstd::prelude::*;

verus! {

// ----------------------------------------------------------------------------- values

/// What a YAML scalar on one line stands for: the text between double quotes, with its escapes
/// taken back, or the text as it is.
pub open spec fn read_scalar(t: Seq<char>) -> Option<Seq<char>> {
    if t.len() > 0 && t[0] == '"' {
        if t.len() > 1 && t.last() == '"' {
            job_block::unescaped(t.subrange(1, t.len() - 1))
        } else {
            None
        }
    } else {
        Some(t)
    }
}

/// What a YAML value on one line stands for as a list of scalars: the items between brackets,
/// or one scalar.
pub open spec fn read_list(t: Seq<char>) -> Seq<Option<Seq<char>>> {
    if t.len() > 1 && t[0] == '[' && t.last() == ']' {
        job_block::split_on(t.subrange(1, t.len() - 1), ',').map_values(
            |x: Seq<char>| read_scalar(text::trimmed(x)),
        )
    } else {
        seq![read_scalar(t)]
    }
}

/// What digits stand for, with a minus sign before them or without.
pub open spec fn read_integer(t: Seq<char>) -> int {
    if t.len() > 0 && t[0] == '-' {
        -(text::number(t.drop_first()) as int)
    } else {
        text::number(t) as int
    }
}

/// A scalar is read as the text that it was written from.
pub proof fn lemma_scalar_reads_back(s: Seq<char>)
    ensures
        read_scalar(job_block::scalar_text(s)) == Some(s),
{
    reveal_strlit("\"");
    if job_block::needs_quotes(s) {
        let t = job_block::scalar_text(s);
        assert(t.subrange(1, t.len() - 1) =~= job_block::escaped(s));
        job_block::lemma_escaped_reads_back(s);
    } else {
        if s[0] == '"' {
            assert(job_block::is_indicator(s[0]));
        }
    }
}

/// An integer is read as the number that it was written from.
pub proof fn lemma_integer_reads_back(n: int)
    ensures
        read_integer(text::signed_decimal(n)) == n,
{
    let t = text::signed_decimal(n);
    if n < 0 {
        text::lemma_decimal_number((-n) as nat);
        assert(t.drop_first() =~= text::decimal((-n) as nat));
    } else {
        text::lemma_decimal_number(n as nat);
        assert(text::is_digit(t[0]));
    }
}

// ------------------------------------------------------------------------- lists

proof fn lemma_split_last(a: Seq<char>, b: Seq<char>)
    requires
        !b.contains(','),
    ensures
        job_block::split_on(a + seq![','] + b, ',') == job_block::split_on(a, ',').push(b),
    decreases a.len(),
{
    let all = a + seq![','] + b;
    text::lemma_find(a, ',');
    text::lemma_find(all, ',');
    assert(all[a.len() as int] == ',');
    assert(all.contains(','));
    let i = text::find(all, ',')->0 as int;
    match text::find(a, ',') {
        Some(n) => {
            assert(all[n as int] == ',');
            assert(i == n) by {
                if i < n {
                    assert(a[i] == all[i]);
                }
            }
            lemma_split_last(a.skip(i + 1), b);
            assert(all.take(i) =~= a.take(i));
            assert(all.skip(i + 1) =~= a.skip(i + 1) + seq![','] + b);
            assert(job_block::split_on(all, ',') =~= job_block::split_on(a, ',').push(b));
        },
        None => {
            assert(i == a.len()) by {
                if i < a.len() {
                    assert(a[i] == all[i]);
                    assert(a.contains(','));
                }
            }
            assert(all.take(i) =~= a);
            assert(all.skip(i + 1) =~= b);
            text::lemma_find(b, ',');
            assert(job_block::split_on(b, ',') =~= seq![b]);
            assert(job_block::split_on(all, ',') =~= seq![a] + seq![b]);
        },
    }
}

/// The items of a list, each with a space before it but the first.
spec fn spaced(items: Seq<Seq<char>>) -> Seq<Seq<char>> {
    Seq::new(
        items.len(),
        |j: int|
            if j == 0 {
                items[0]
            } else {
                seq![' '] + items[j]
            },
    )
}

proof fn lemma_split_joined(items: Seq<Seq<char>>)
    requires
        items.len() > 0,
        forall|j: int| 0 <= j < items.len() ==> !(#[trigger] items[j]).contains(','),
    ensures
        job_block::split_on(text::joined(items, ", "@), ',') == spaced(items),
    decreases items.len(),
{
    reveal_strlit(", ");
    if items.len() == 1 {
        assert(!items[0].contains(','));
        text::lemma_find(items[0], ',');
        assert(job_block::split_on(items[0], ',') =~= spaced(items));
    } else {
        let front = items.drop_last();
        assert forall|j: int| 0 <= j < front.len() implies !(#[trigger] front[j]).contains(',') by {
            assert(front[j] == items[j]);
        }
        lemma_split_joined(front);
        let b = seq![' '] + items.last();
        assert(!b.contains(',')) by {
            if b.contains(',') {
                let k = choose|k: int| 0 <= k < b.len() && b[k] == ',';
                assert(items.last()[k - 1] == ',');
                assert(items[items.len() - 1].contains(','));
            }
        }
        lemma_split_last(text::joined(front, ", "@), b);
        assert(text::joined(items, ", "@) =~= text::joined(front, ", "@) + seq![','] + b);
        assert(spaced(front).push(b) =~= spaced(items));
    }
}

proof fn lemma_escaped_holds(s: Seq<char>, c: char)
    requires
        !s.contains(c),
        c != '\\',
    ensures
        !job_block::escaped(s).contains(c),
    decreases s.len(),
{
    if s.len() > 0 {
        let front = s.drop_last();
        assert(!front.contains(c)) by {
            if front.contains(c) {
                let k = choose|k: int| 0 <= k < front.len() && front[k] == c;
                assert(s[k] == c);
            }
        }
        lemma_escaped_holds(front, c);
        let e = job_block::escaped(s);
        if e.contains(c) {
            let k = choose|k: int| 0 <= k < e.len() && e[k] == c;
            let f = job_block::escaped(front);
            assert(s[s.len() - 1] != c);
            if k < f.len() {
                assert(f[k] == c);
            }
        }
    }
}

/// A scalar holds no character but those of its text, the quotes and backslashes.
proof fn lemma_scalar_holds(s: Seq<char>, c: char)
    requires
        !s.contains(c),
        c != '\\',
        c != '"',
    ensures
        !job_block::scalar_text(s).contains(c),
{
    reveal_strlit("\"");
    lemma_escaped_holds(s, c);
    let t = job_block::scalar_text(s);
    if t.contains(c) && job_block::needs_quotes(s) {
        let k = choose|k: int| 0 <= k < t.len() && t[k] == c;
        let e = job_block::escaped(s);
        assert(0 < k < t.len() - 1);
        assert(e[k - 1] == c);
    }
}

proof fn lemma_parts_hold(s: Seq<char>, c: char, j: int)
    requires
        0 <= j < job_block::split_on(s, c).len(),
    ensures
        !job_block::split_on(s, c)[j].contains(c),
    decreases s.len(),
{
    text::lemma_find(s, c);
    if let Some(n) = text::find(s, c) {
        let head = s.take(n as int);
        if j == 0 {
            if head.contains(c) {
                let k = choose|k: int| 0 <= k < head.len() && head[k] == c;
                assert(s[k] == c);
            }
        } else {
            lemma_parts_hold(s.skip(n as int + 1), c, j - 1);
        }
    }
}

proof fn lemma_trim_start(s: Seq<char>, c: char)
    ensures
        !s.contains(c) ==> !text::trim_start(s).contains(c),
        text::trim_start(s).len() > 0 ==> !text::is_space(text::trim_start(s)[0]),
    decreases s.len(),
{
    if s.len() > 0 && text::is_space(s[0]) {
        let rest = s.drop_first();
        lemma_trim_start(rest, c);
        if rest.contains(c) {
            let k = choose|k: int| 0 <= k < rest.len() && rest[k] == c;
            assert(s[k + 1] == c);
        }
    }
}

proof fn lemma_trim_end(s: Seq<char>, c: char)
    ensures
        !s.contains(c) ==> !text::trim_end(s).contains(c),
        text::trim_end(s).len() > 0 ==> !text::is_space(text::trim_end(s).last())
            && text::trim_end(s)[0] == s[0],
    decreases s.len(),
{
    if s.len() > 0 && text::is_space(s.last()) {
        let rest = s.drop_last();
        lemma_trim_end(rest, c);
        if rest.contains(c) {
            let k = choose|k: int| 0 <= k < rest.len() && rest[k] == c;
            assert(s[k] == c);
        }
    }
}

proof fn lemma_trimmed(s: Seq<char>, c: char)
    ensures
        !s.contains(c) ==> !text::trimmed(s).contains(c),
        text::trimmed(s).len() > 0 ==> !text::is_space(text::trimmed(s)[0]) && !text::is_space(
            text::trimmed(s).last(),
        ),
{
    lemma_trim_start(s, c);
    lemma_trim_end(text::trim_start(s), c);
}

/// A scalar of a text without white space at its ends has none either.
proof fn lemma_scalar_ends(s: Seq<char>)
    requires
        s.len() > 0 ==> !text::is_space(s[0]) && !text::is_space(s.last()),
    ensures
        text::trimmed(job_block::scalar_text(s)) == job_block::scalar_text(s),
        text::trimmed(seq![' '] + job_block::scalar_text(s)) == job_block::scalar_text(s),
{
    reveal_strlit("\"");
    let t = job_block::scalar_text(s);
    assert(t.len() > 0 && !text::is_space(t[0]) && !text::is_space(t.last()));
    let u = seq![' '] + t;
    assert(u.drop_first() =~= t);
    assert(text::is_space(u[0]));
    assert(text::trim_start(u) == text::trim_start(t));
}

/// The value of `every` is read as the parts that stand between its commas, without the white
/// space around them, or as it is where it has none.
pub proof fn lemma_every_reads_back(s: Seq<char>)
    ensures
        read_list(job_block::every_text(s)) == (if s.contains(',') {
            job_block::split_on(s, ',').map_values(|x: Seq<char>| Some(text::trimmed(x)))
        } else {
            seq![Some(s)]
        }),
{
    let t = job_block::every_text(s);
    if s.contains(',') {
        reveal_strlit("[");
        reveal_strlit("]");
        let parts = job_block::split_on(s, ',');
        let f = |x: Seq<char>| job_block::scalar_text(text::trimmed(x));
        let items = parts.map_values(f);
        let inner = text::joined(items, ", "@);
        assert(t.subrange(1, t.len() - 1) =~= inner);
        assert forall|j: int| 0 <= j < items.len() implies !(#[trigger] items[j]).contains(',') by {
            lemma_parts_hold(s, ',', j);
            lemma_trimmed(parts[j], ',');
            lemma_scalar_holds(text::trimmed(parts[j]), ',');
        }
        assert(parts.len() > 0);
        lemma_split_joined(items);
        let got = read_list(t);
        let want = parts.map_values(|x: Seq<char>| Some(text::trimmed(x)));
        assert(got.len() == want.len());
        assert forall|j: int| 0 <= j < got.len() implies got[j] == want[j] by {
            lemma_trimmed(parts[j], ',');
            lemma_scalar_ends(text::trimmed(parts[j]));
            lemma_scalar_reads_back(text::trimmed(parts[j]));
            assert(items[j] == job_block::scalar_text(text::trimmed(parts[j])));
            assert(got[j] == read_scalar(text::trimmed(spaced(items)[j])));
        }
        assert(got =~= want);
    } else {
        lemma_scalar_reads_back(s);
        reveal_strlit("\"");
        if t.len() > 0 && t[0] == '[' {
            assert(!job_block::needs_quotes(s));
            assert(job_block::is_indicator(s[0]));
        }
    }
}

// ------------------------------------------------------------------------- lines

/// What stands behind `key` on the first line that begins with it.
pub open spec fn field(ls: Seq<Seq<char>>, key: Seq<char>) -> Option<Seq<char>>
    decreases ls.len(),
{
    if ls.len() == 0 {
        None
    } else if key.is_prefix_of(ls[0]) {
        Some(ls[0].skip(key.len() as int))
    } else {
        field(ls.drop_first(), key)
    }
}

/// Whether a text stays on one line.
pub open spec fn on_one_line(s: Seq<char>) -> bool {
    !s.contains('\n') && !s.contains('\r')
}

/// What the lines of a block begin with.
spec fn is_key(k: Seq<char>) -> bool {
    ||| k == "  - id: "@
    ||| k == "    title: "@
    ||| k == "    enabled: "@
    ||| k == "    schedule:"@
    ||| k == "      cron: "@
    ||| k == "      every: "@
    ||| k == "      at: "@
    ||| k == "      on_day: "@
    ||| k == "      last_day: "@
    ||| k == "    execution:"@
    ||| k == "      command: "@
    ||| k == "      cwd: "@
    ||| k == "    timeout: "@
    ||| k == "    overlap_policy: "@
    ||| k == "    retry:"@
    ||| k == "      max_retries: "@
}

/// Characters by which one key of a block is told from another.
spec fn mark(k: Seq<char>) -> (char, char, char, char, char) {
    (k[2], k[4], k[5], k[6], k[7])
}

proof fn lemma_marks()
    ensures
        mark("  - id: "@) == ('-', 'i', 'd', ':', ' '),
        mark("    title: "@) == (' ', 't', 'i', 't', 'l'),
        mark("    enabled: "@) == (' ', 'e', 'n', 'a', 'b'),
        mark("    schedule:"@) == (' ', 's', 'c', 'h', 'e'),
        mark("      cron: "@) == (' ', ' ', ' ', 'c', 'r'),
        mark("      every: "@) == (' ', ' ', ' ', 'e', 'v'),
        mark("      at: "@) == (' ', ' ', ' ', 'a', 't'),
        mark("      on_day: "@) == (' ', ' ', ' ', 'o', 'n'),
        mark("      last_day: "@) == (' ', ' ', ' ', 'l', 'a'),
        mark("    execution:"@) == (' ', 'e', 'x', 'e', 'c'),
        mark("      command: "@) == (' ', ' ', ' ', 'c', 'o'),
        mark("      cwd: "@) == (' ', ' ', ' ', 'c', 'w'),
        mark("    timeout: "@) == (' ', 't', 'i', 'm', 'e'),
        mark("    overlap_policy: "@) == (' ', 'o', 'v', 'e', 'r'),
        mark("    retry:"@) == (' ', 'r', 'e', 't', 'r'),
        mark("      max_retries: "@) == (' ', ' ', ' ', 'm', 'a'),
{
    reveal_strlit("  - id: ");
    reveal_strlit("    title: ");
    reveal_strlit("    enabled: ");
    reveal_strlit("    schedule:");
    reveal_strlit("      cron: ");
    reveal_strlit("      every: ");
    reveal_strlit("      at: ");
    reveal_strlit("      on_day: ");
    reveal_strlit("      last_day: ");
    reveal_strlit("    execution:");
    reveal_strlit("      command: ");
    reveal_strlit("      cwd: ");
    reveal_strlit("    timeout: ");
    reveal_strlit("    overlap_policy: ");
    reveal_strlit("    retry:");
    reveal_strlit("      max_retries: ");
}

proof fn lemma_keys()
    ensures
        forall|a: Seq<char>| #[trigger] is_key(a) ==> a.len() >= 8 && on_one_line(a),
        forall|a: Seq<char>, b: Seq<char>| #[trigger]
            is_key(a) && #[trigger] is_key(b) && mark(a) == mark(b) ==> a == b,
{
    reveal_strlit("  - id: ");
    reveal_strlit("    title: ");
    reveal_strlit("    enabled: ");
    reveal_strlit("    schedule:");
    reveal_strlit("      cron: ");
    reveal_strlit("      every: ");
    reveal_strlit("      at: ");
    reveal_strlit("      on_day: ");
    reveal_strlit("      last_day: ");
    reveal_strlit("    execution:");
    reveal_strlit("      command: ");
    reveal_strlit("      cwd: ");
    reveal_strlit("    timeout: ");
    reveal_strlit("    overlap_policy: ");
    reveal_strlit("    retry:");
    reveal_strlit("      max_retries: ");
    lemma_marks();
}

/// The value on a line with the key `key`, where `wanted` is that key.
spec fn hit(key: Seq<char>, value: Option<Seq<char>>, wanted: Seq<char>) -> Option<Seq<char>> {
    if key == wanted {
        value
    } else {
        None
    }
}

spec fn either(a: Option<Seq<char>>, b: Option<Seq<char>>) -> Option<Seq<char>> {
    match a {
        Some(_) => a,
        None => b,
    }
}

proof fn lemma_field_concat(a: Seq<Seq<char>>, b: Seq<Seq<char>>, key: Seq<char>)
    ensures
        field(a + b, key) == either(field(a, key), field(b, key)),
    decreases a.len(),
{
    if a.len() == 0 {
        assert(a + b =~= b);
    } else {
        assert((a + b).drop_first() =~= a.drop_first() + b);
        lemma_field_concat(a.drop_first(), b, key);
    }
}

/// Whether a text is empty or ends a line.
spec fn ended(s: Seq<char>) -> bool {
    s.len() == 0 || s.last() == '\n'
}

/// A line of a block holds its value for its key, and nothing for another.
proof fn lemma_line(key: Seq<char>, value: Option<Seq<char>>, wanted: Seq<char>)
    requires
        is_key(key),
        is_key(wanted),
        value matches Some(v) ==> on_one_line(v),
    ensures
        ended(job_block::line_for(key, value)),
        field(lines::lines_of(job_block::line_for(key, value)), wanted) == hit(key, value, wanted),
{
    lemma_keys();
    reveal_strlit("\n");
    if let Some(v) = value {
        let line = key + v;
        lemma_concat_on_one_line(key, v);
        assert(job_block::line_for(key, value) =~= line.push('\n'));
        if line.len() > 0 && line.last() == '\r' {
            assert(line[line.len() - 1] == '\r');
        }
        lines::lemma_one_line(line);
        let ls = lines::lines_of(line.push('\n'));
        assert(ls == seq![line]);
        if wanted == key {
            assert(key =~= line.subrange(0, key.len() as int));
            assert(line.skip(key.len() as int) =~= v);
        } else {
            assert(mark(key) == mark(line));
            assert(!wanted.is_prefix_of(line)) by {
                if wanted.is_prefix_of(line) {
                    assert(wanted =~= line.subrange(0, wanted.len() as int));
                    assert(mark(wanted) == mark(line));
                }
            }
            assert(field(ls.drop_first(), wanted) is None) by {
                assert(ls.drop_first() =~= Seq::empty());
            }
        }
    } else {
        assert(lines::lines_of(Seq::<char>::empty()) =~= Seq::empty());
    }
}

proof fn lemma_concat_on_one_line(a: Seq<char>, b: Seq<char>)
    requires
        on_one_line(a),
        on_one_line(b),
    ensures
        on_one_line(a + b),
{
    let t = a + b;
    assert forall|c: char| !a.contains(c) && !b.contains(c) implies !(#[trigger] t.contains(c)) by {
        if t.contains(c) {
            let k = choose|k: int| 0 <= k < t.len() && t[k] == c;
            if k < a.len() {
                assert(a[k] == c);
            } else {
                assert(b[k - a.len()] == c);
            }
        }
    }
}

/// A text with one more line: what its lines hold for a key.
proof fn lemma_one_more(
    s: Seq<char>,
    key: Seq<char>,
    value: Option<Seq<char>>,
    wanted: Seq<char>,
    so_far: Option<Seq<char>>,
)
    requires
        ended(s),
        is_key(key),
        is_key(wanted),
        value matches Some(v) ==> on_one_line(v),
        field(lines::lines_of(s), wanted) == so_far,
    ensures
        ended(s + job_block::line_for(key, value)),
        field(lines::lines_of(s + job_block::line_for(key, value)), wanted) == either(
            so_far,
            hit(key, value, wanted),
        ),
{
    lemma_line(key, value, wanted);
    let l = job_block::line_for(key, value);
    lines::lemma_lines_concat(s, l);
    lemma_field_concat(lines::lines_of(s), lines::lines_of(l), wanted);
    if l.len() > 0 {
        assert((s + l).last() == l.last());
    } else {
        assert(s + l =~= s);
    }
}

// ------------------------------------------------------------------------- the block

/// Whether the texts that a job is described by stay on one line each.
pub open spec fn on_lines(id: Seq<char>, args: JobsAddArgs) -> bool {
    &&& on_one_line(id)
    &&& args.title matches Some(s) ==> on_one_line(s@)
    &&& args.cron matches Some(s) ==> on_one_line(s@)
    &&& args.every matches Some(s) ==> on_one_line(s@)
    &&& args.at matches Some(s) ==> on_one_line(s@)
    &&& args.command matches Some(s) ==> on_one_line(s@)
    &&& args.cwd matches Some(s) ==> on_one_line(s@)
    &&& args.timeout matches Some(s) ==> on_one_line(s@)
    &&& args.overlap matches Some(s) ==> on_one_line(s@)
}

proof fn lemma_scalar_on_one_line(s: Seq<char>)
    requires
        on_one_line(s),
    ensures
        on_one_line(job_block::scalar_text(s)),
{
    lemma_scalar_holds(s, '\n');
    lemma_scalar_holds(s, '\r');
}

proof fn lemma_integer_on_one_line(n: int)
    ensures
        on_one_line(text::signed_decimal(n)),
{
    let m = if n < 0 {
        (-n) as nat
    } else {
        n as nat
    };
    text::lemma_decimal_number(m);
    let t = text::signed_decimal(n);
    assert forall|k: int| 0 <= k < t.len() implies t[k] != '\n' && t[k] != '\r' by {
        if n < 0 {
            if k > 0 {
                assert(text::is_digit(text::decimal(m)[k - 1]));
            }
        } else {
            assert(text::is_digit(text::decimal(m)[k]));
        }
    }
}

proof fn lemma_parts_lack(s: Seq<char>, sep: char, c: char, j: int)
    requires
        !s.contains(c),
        0 <= j < job_block::split_on(s, sep).len(),
    ensures
        !job_block::split_on(s, sep)[j].contains(c),
    decreases s.len(),
{
    text::lemma_find(s, sep);
    if let Some(n) = text::find(s, sep) {
        let part = if j == 0 {
            s.take(n as int)
        } else {
            s.skip(n as int + 1)
        };
        if part.contains(c) {
            let k = choose|k: int| 0 <= k < part.len() && part[k] == c;
            if j == 0 {
                assert(s[k] == c);
            } else {
                assert(s[n as int + 1 + k] == c);
            }
        }
        if j > 0 {
            lemma_parts_lack(part, sep, c, j - 1);
        }
    }
}

proof fn lemma_joined_on_one_line(items: Seq<Seq<char>>)
    requires
        forall|j: int| 0 <= j < items.len() ==> on_one_line(#[trigger] items[j]),
    ensures
        on_one_line(text::joined(items, ", "@)),
    decreases items.len(),
{
    reveal_strlit(", ");
    if items.len() == 1 {
        assert(on_one_line(items[0]));
    } else if items.len() > 1 {
        let front = items.drop_last();
        assert forall|j: int| 0 <= j < front.len() implies on_one_line(#[trigger] front[j]) by {
            assert(front[j] == items[j]);
        }
        lemma_joined_on_one_line(front);
        assert(on_one_line(", "@)) by {
            assert(", "@[0] == ',' && ", "@[1] == ' ');
        }
        lemma_concat_on_one_line(text::joined(front, ", "@), ", "@);
        assert(on_one_line(items[items.len() - 1]));
        lemma_concat_on_one_line(text::joined(front, ", "@) + ", "@, items.last());
    }
}

proof fn lemma_every_on_one_line(s: Seq<char>)
    requires
        on_one_line(s),
    ensures
        on_one_line(job_block::every_text(s)),
{
    if s.contains(',') {
        reveal_strlit("[");
        reveal_strlit("]");
        let parts = job_block::split_on(s, ',');
        let items = parts.map_values(|x: Seq<char>| job_block::scalar_text(text::trimmed(x)));
        assert forall|j: int| 0 <= j < items.len() implies on_one_line(#[trigger] items[j]) by {
            lemma_parts_lack(s, ',', '\n', j);
            lemma_parts_lack(s, ',', '\r', j);
            lemma_trimmed(parts[j], '\n');
            lemma_trimmed(parts[j], '\r');
            lemma_scalar_on_one_line(text::trimmed(parts[j]));
        }
        lemma_joined_on_one_line(items);
        let inner = text::joined(items, ", "@);
        lemma_concat_on_one_line("["@, inner);
        lemma_concat_on_one_line("["@ + inner, "]"@);
    } else {
        lemma_scalar_on_one_line(s);
    }
}

/// What the lines of a block's schedule hold for a key.
spec fn schedule_field(args: JobsAddArgs, wanted: Seq<char>) -> Option<Seq<char>> {
    match (args.cron, args.every) {
        (Some(cron), _) => hit("      cron: "@, Some(job_block::scalar_text(cron@)), wanted),
        (None, Some(every)) => either(
            either(
                either(
                    hit("      every: "@, Some(job_block::every_text(every@)), wanted),
                    hit("      at: "@, job_block::scalar_opt(args.at), wanted),
                ),
                hit("      on_day: "@, job_block::number_opt(args.on_day), wanted),
            ),
            hit("      last_day: "@, job_block::flag_opt(args.last_day, "true"@), wanted),
        ),
        (None, None) => None,
    }
}

proof fn lemma_schedule_lines(
    s: Seq<char>,
    args: JobsAddArgs,
    wanted: Seq<char>,
    so_far: Option<Seq<char>>,
)
    requires
        ended(s),
        is_key(wanted),
        args.cron matches Some(c) ==> on_one_line(c@),
        args.every matches Some(e) ==> on_one_line(e@),
        args.at matches Some(a) ==> on_one_line(a@),
        field(lines::lines_of(s), wanted) == so_far,
    ensures
        ended(s + job_block::schedule_block(args)),
        field(lines::lines_of(s + job_block::schedule_block(args)), wanted) == either(
            so_far,
            schedule_field(args, wanted),
        ),
{
    if let Some(cron) = args.cron {
        lemma_scalar_on_one_line(cron@);
        lemma_one_more(
            s,
            "      cron: "@,
            Some(job_block::scalar_text(cron@)),
            wanted,
            so_far,
        );
    } else if let Some(every) = args.every {
        lemma_every_on_one_line(every@);
        if let Some(a) = args.at {
            lemma_scalar_on_one_line(a@);
        }
        if let Some(n) = args.on_day {
            lemma_integer_on_one_line(n as int);
        }
        reveal_strlit("true");
        let v1 = Some(job_block::every_text(every@));
        let l1 = job_block::line_for("      every: "@, v1);
        let s1 = s + l1;
        lemma_one_more(s, "      every: "@, v1, wanted, so_far);
        let v2 = job_block::scalar_opt(args.at);
        let l2 = job_block::line_for("      at: "@, v2);
        let f1 = either(so_far, hit("      every: "@, v1, wanted));
        lemma_one_more(s1, "      at: "@, v2, wanted, f1);
        let v3 = job_block::number_opt(args.on_day);
        let l3 = job_block::line_for("      on_day: "@, v3);
        let f2 = either(f1, hit("      at: "@, v2, wanted));
        lemma_one_more(s1 + l2, "      on_day: "@, v3, wanted, f2);
        let v4 = job_block::flag_opt(args.last_day, "true"@);
        let l4 = job_block::line_for("      last_day: "@, v4);
        let f3 = either(f2, hit("      on_day: "@, v3, wanted));
        lemma_one_more(s1 + l2 + l3, "      last_day: "@, v4, wanted, f3);
        assert(s1 + l2 + l3 + l4 =~= s + (l1 + l2 + l3 + l4));
    } else {
        assert(s + Seq::<char>::empty() =~= s);
    }
}

/// The command of a new job, or nothing where none is given.
pub open spec fn command_of(args: JobsAddArgs) -> Seq<char> {
    match args.command {
        Some(c) => c@,
        None => Seq::empty(),
    }
}

/// The lines of a block before its schedule.
spec fn head_text(id: Seq<char>, args: JobsAddArgs) -> Seq<char> {
    job_block::line_for("  - id: "@, Some(job_block::scalar_text(id))) + job_block::line_for(
        "    title: "@,
        job_block::scalar_opt(args.title),
    ) + job_block::line_for("    enabled: "@, job_block::flag_opt(args.disabled, "false"@))
        + "    schedule:\n"@
}

spec fn head_field(id: Seq<char>, args: JobsAddArgs, wanted: Seq<char>) -> Option<Seq<char>> {
    let f1 = hit("  - id: "@, Some(job_block::scalar_text(id)), wanted);
    let f2 = either(f1, hit("    title: "@, job_block::scalar_opt(args.title), wanted));
    let f3 = either(
        f2,
        hit("    enabled: "@, job_block::flag_opt(args.disabled, "false"@), wanted),
    );
    either(f3, hit("    schedule:"@, Some(Seq::empty()), wanted))
}

proof fn lemma_fixed_lines()
    ensures
        "    schedule:\n"@ == job_block::line_for("    schedule:"@, Some(Seq::empty())),
        "    execution:\n"@ == job_block::line_for("    execution:"@, Some(Seq::empty())),
        "    retry:\n      max_retries: "@ == "    retry:"@ + "\n"@ + "      max_retries: "@,
{
    reveal_strlit("\n");
    reveal_strlit("    schedule:");
    reveal_strlit("    schedule:\n");
    reveal_strlit("    execution:");
    reveal_strlit("    execution:\n");
    reveal_strlit("    retry:");
    reveal_strlit("      max_retries: ");
    reveal_strlit("    retry:\n      max_retries: ");
    let nothing = Seq::<char>::empty();
    assert("    schedule:\n"@ =~= "    schedule:"@ + nothing + "\n"@);
    assert("    execution:\n"@ =~= "    execution:"@ + nothing + "\n"@);
    assert("    retry:\n      max_retries: "@ =~= "    retry:"@ + "\n"@ + "      max_retries: "@);
}

proof fn lemma_head_lines(id: Seq<char>, args: JobsAddArgs, wanted: Seq<char>)
    requires
        on_one_line(id),
        args.title matches Some(s) ==> on_one_line(s@),
        is_key(wanted),
    ensures
        ended(head_text(id, args)),
        field(lines::lines_of(head_text(id, args)), wanted) == head_field(id, args, wanted),
{
    lemma_scalar_on_one_line(id);
    if let Some(s) = args.title {
        lemma_scalar_on_one_line(s@);
    }
    assert(on_one_line("false"@)) by {
        reveal_strlit("false");
    }
    let nothing = Seq::<char>::empty();
    assert(lines::lines_of(nothing) =~= Seq::empty());
    lemma_fixed_lines();
    let v1 = Some(job_block::scalar_text(id));
    let s1 = job_block::line_for("  - id: "@, v1);
    lemma_one_more(nothing, "  - id: "@, v1, wanted, None);
    assert(nothing + s1 =~= s1);
    let f1 = hit("  - id: "@, v1, wanted);
    let v2 = job_block::scalar_opt(args.title);
    let s2 = s1 + job_block::line_for("    title: "@, v2);
    lemma_one_more(s1, "    title: "@, v2, wanted, f1);
    let f2 = either(f1, hit("    title: "@, v2, wanted));
    let v3 = job_block::flag_opt(args.disabled, "false"@);
    let s3 = s2 + job_block::line_for("    enabled: "@, v3);
    lemma_one_more(s2, "    enabled: "@, v3, wanted, f2);
    let f3 = either(f2, hit("    enabled: "@, v3, wanted));
    lemma_one_more(s3, "    schedule:"@, Some(nothing), wanted, f3);
}

/// The lines of a block from its command on.
spec fn tail_text(s: Seq<char>, args: JobsAddArgs) -> Seq<char> {
    s + "    execution:\n"@ + job_block::line_for(
        "      command: "@,
        Some(job_block::scalar_text(command_of(args))),
    ) + job_block::line_for("      cwd: "@, job_block::scalar_opt(args.cwd)) + job_block::line_for(
        "    timeout: "@,
        job_block::scalar_opt(args.timeout),
    ) + job_block::line_for("    overlap_policy: "@, job_block::scalar_opt(args.overlap))
}

spec fn tail_field(
    args: JobsAddArgs,
    wanted: Seq<char>,
    so_far: Option<Seq<char>>,
) -> Option<Seq<char>> {
    let f6 = either(so_far, hit("    execution:"@, Some(Seq::empty()), wanted));
    let f7 = either(
        f6,
        hit("      command: "@, Some(job_block::scalar_text(command_of(args))), wanted),
    );
    let f8 = either(f7, hit("      cwd: "@, job_block::scalar_opt(args.cwd), wanted));
    let f9 = either(f8, hit("    timeout: "@, job_block::scalar_opt(args.timeout), wanted));
    either(f9, hit("    overlap_policy: "@, job_block::scalar_opt(args.overlap), wanted))
}

proof fn lemma_tail_lines(
    s: Seq<char>,
    args: JobsAddArgs,
    wanted: Seq<char>,
    so_far: Option<Seq<char>>,
)
    requires
        ended(s),
        is_key(wanted),
        args.command matches Some(t) ==> on_one_line(t@),
        args.cwd matches Some(t) ==> on_one_line(t@),
        args.timeout matches Some(t) ==> on_one_line(t@),
        args.overlap matches Some(t) ==> on_one_line(t@),
        field(lines::lines_of(s), wanted) == so_far,
    ensures
        ended(tail_text(s, args)),
        field(lines::lines_of(tail_text(s, args)), wanted) == tail_field(args, wanted, so_far),
{
    lemma_scalar_on_one_line(command_of(args));
    if let Some(t) = args.cwd {
        lemma_scalar_on_one_line(t@);
    }
    if let Some(t) = args.timeout {
        lemma_scalar_on_one_line(t@);
    }
    if let Some(t) = args.overlap {
        lemma_scalar_on_one_line(t@);
    }
    let nothing = Seq::<char>::empty();
    lemma_fixed_lines();
    let s6 = s + "    execution:\n"@;
    lemma_one_more(s, "    execution:"@, Some(nothing), wanted, so_far);
    let f6 = either(so_far, hit("    execution:"@, Some(nothing), wanted));
    let v7 = Some(job_block::scalar_text(command_of(args)));
    let s7 = s6 + job_block::line_for("      command: "@, v7);
    lemma_one_more(s6, "      command: "@, v7, wanted, f6);
    let f7 = either(f6, hit("      command: "@, v7, wanted));
    let v8 = job_block::scalar_opt(args.cwd);
    let s8 = s7 + job_block::line_for("      cwd: "@, v8);
    lemma_one_more(s7, "      cwd: "@, v8, wanted, f7);
    let f8 = either(f7, hit("      cwd: "@, v8, wanted));
    let v9 = job_block::scalar_opt(args.timeout);
    let s9 = s8 + job_block::line_for("    timeout: "@, v9);
    lemma_one_more(s8, "    timeout: "@, v9, wanted, f8);
    let f9 = either(f8, hit("    timeout: "@, v9, wanted));
    let v10 = job_block::scalar_opt(args.overlap);
    lemma_one_more(s9, "    overlap_policy: "@, v10, wanted, f9);
}

/// What the lines of a block hold for a key.
spec fn block_field(id: Seq<char>, args: JobsAddArgs, wanted: Seq<char>) -> Option<Seq<char>> {
    let f5 = either(head_field(id, args, wanted), schedule_field(args, wanted));
    let f10 = tail_field(args, wanted, f5);
    match args.retry {
        Some(n) => either(
            either(f10, hit("    retry:"@, Some(Seq::empty()), wanted)),
            hit("      max_retries: "@, Some(text::signed_decimal(n as int)), wanted),
        ),
        None => f10,
    }
}

#[verifier::spinoff_prover]
#[verifier::rlimit(80)]
proof fn lemma_block_lines(id: Seq<char>, args: JobsAddArgs, wanted: Seq<char>)
    requires
        on_lines(id, args),
        is_key(wanted),
    ensures
        field(lines::lines_of(job_block::block_text(id, args)), wanted) == block_field(
            id,
            args,
            wanted,
        ),
{
    let head = head_text(id, args);
    lemma_head_lines(id, args, wanted);
    let f4 = head_field(id, args, wanted);
    let s5 = head + job_block::schedule_block(args);
    lemma_schedule_lines(head, args, wanted, f4);
    let f5 = either(f4, schedule_field(args, wanted));
    let s10 = tail_text(s5, args);
    lemma_tail_lines(s5, args, wanted, f5);
    let f10 = tail_field(args, wanted, f5);
    let last = job_block::line_for(
        "    retry:\n      max_retries: "@,
        job_block::number_opt(args.retry),
    );
    assert(job_block::block_text(id, args) == s10 + last);
    if let Some(n) = args.retry {
        let nothing = Seq::<char>::empty();
        lemma_integer_on_one_line(n as int);
        lemma_fixed_lines();
        let v = Some(text::signed_decimal(n as int));
        let retry = job_block::line_for("    retry:"@, Some(nothing));
        lemma_one_more(s10, "    retry:"@, Some(nothing), wanted, f10);
        let f11 = either(f10, hit("    retry:"@, Some(nothing), wanted));
        lemma_one_more(s10 + retry, "      max_retries: "@, v, wanted, f11);
        let max = job_block::line_for("      max_retries: "@, v);
        assert(last =~= retry + max);
        assert(s10 + last =~= s10 + retry + max);
    } else {
        assert(s10 + last =~= s10);
    }
}

/// What a value reads as, where there is one.
pub open spec fn read_opt(value: Option<Seq<char>>) -> Option<Seq<char>> {
    match value {
        Some(t) => read_scalar(t),
        None => None,
    }
}

proof fn lemma_opt_reads_back(o: Option<String>)
    ensures
        read_opt(job_block::scalar_opt(o)) == text::opt_view(o),
{
    if let Some(s) = o {
        lemma_scalar_reads_back(s@);
    }
}

/// The lines of a new job's block give the job back: its id, its title and whether it is
/// disabled, its command and working directory, its timeout, overlap policy and retries.
pub proof fn lemma_block_gives_job_back(id: Seq<char>, args: JobsAddArgs)
    requires
        on_lines(id, args),
    ensures
        ({
            let ls = lines::lines_of(job_block::block_text(id, args));
            &&& read_opt(field(ls, "  - id: "@)) == Some(id)
            &&& read_opt(field(ls, "    title: "@)) == text::opt_view(args.title)
            &&& field(ls, "    enabled: "@) == job_block::flag_opt(args.disabled, "false"@)
            &&& read_opt(field(ls, "      command: "@)) == Some(command_of(args))
            &&& read_opt(field(ls, "      cwd: "@)) == text::opt_view(args.cwd)
            &&& read_opt(field(ls, "    timeout: "@)) == text::opt_view(args.timeout)
            &&& read_opt(field(ls, "    overlap_policy: "@)) == text::opt_view(args.overlap)
            &&& match field(ls, "      max_retries: "@) {
                Some(t) => args.retry matches Some(n) && read_integer(t) == n,
                None => args.retry is None,
            }
        }),
{
    lemma_marks();
    lemma_scalar_reads_back(id);
    lemma_scalar_reads_back(command_of(args));
    lemma_opt_reads_back(args.title);
    lemma_opt_reads_back(args.cwd);
    lemma_opt_reads_back(args.timeout);
    lemma_opt_reads_back(args.overlap);
    if let Some(n) = args.retry {
        lemma_integer_reads_back(n as int);
    }
    lemma_block_lines(id, args, "  - id: "@);
    lemma_block_lines(id, args, "    title: "@);
    lemma_block_lines(id, args, "    enabled: "@);
    lemma_block_lines(id, args, "      command: "@);
    lemma_block_lines(id, args, "      cwd: "@);
    lemma_block_lines(id, args, "    timeout: "@);
    lemma_block_lines(id, args, "    overlap_policy: "@);
    lemma_block_lines(id, args, "      max_retries: "@);
}

/// The lines of a new job's block give its schedule back: the cron expression alone where there
/// is one, else `every`, `at`, the day of the month and whether that is the last one.
pub proof fn lemma_block_gives_schedule_back(id: Seq<char>, args: JobsAddArgs)
    requires
        on_lines(id, args),
    ensures
        ({
            let ls = lines::lines_of(job_block::block_text(id, args));
            let every = args.cron is None && args.every is Some;
            &&& read_opt(field(ls, "      cron: "@)) == text::opt_view(args.cron)
            &&& match field(ls, "      every: "@) {
                Some(t) => every && read_list(t) == (if args.every->0@.contains(',') {
                    job_block::split_on(args.every->0@, ',').map_values(
                        |x: Seq<char>| Some(text::trimmed(x)),
                    )
                } else {
                    seq![Some(args.every->0@)]
                }),
                None => !every,
            }
            &&& read_opt(field(ls, "      at: "@)) == (if every {
                text::opt_view(args.at)
            } else {
                None
            })
            &&& match field(ls, "      on_day: "@) {
                Some(t) => every && (args.on_day matches Some(n) && read_integer(t) == n),
                None => !every || args.on_day is None,
            }
            &&& field(ls, "      last_day: "@) == job_block::flag_opt(
                every && args.last_day,
                "true"@,
            )
        }),
{
    let ls = lines::lines_of(job_block::block_text(id, args));
    let every = args.cron is None && args.every is Some;
    lemma_opt_reads_back(args.cron);
    lemma_opt_reads_back(args.at);
    if let Some(every) = args.every {
        lemma_every_reads_back(every@);
    }
    if let Some(n) = args.on_day {
        lemma_integer_reads_back(n as int);
    }
    assert(field(ls, "      cron: "@) == job_block::scalar_opt(args.cron)) by {
        lemma_marks();
        lemma_block_lines(id, args, "      cron: "@);
    }
    assert(field(ls, "      every: "@) == (if every {
        Some(job_block::every_text(args.every->0@))
    } else {
        None
    })) by {
        lemma_marks();
        lemma_block_lines(id, args, "      every: "@);
    }
    assert(field(ls, "      at: "@) == (if every {
        job_block::scalar_opt(args.at)
    } else {
        None
    })) by {
        lemma_marks();
        lemma_block_lines(id, args, "      at: "@);
    }
    assert(field(ls, "      on_day: "@) == (if every {
        job_block::number_opt(args.on_day)
    } else {
        None
    })) by {
        lemma_marks();
        lemma_block_lines(id, args, "      on_day: "@);
    }
    assert(field(ls, "      last_day: "@) == job_block::flag_opt(every && args.last_day, "true"@))
        by {
        lemma_marks();
        lemma_block_lines(id, args, "      last_day: "@);
    }
}

} // verus!
