//! The identity of a job's config: a canonical text of the fields that affect its runs, and
//! the SHA-256 of that text.

use crate::config;
use crate::config::{EffectiveJob, MissedRunPolicy, NormalizedSchedule, OverlapPolicy};
use crate::escape;
use crate::escape::{escape, list_text, optional_text, Place};
use crate::text;
use crate::text::{decimal_text, push_decimal, signed_decimal_text};
use vstd::prelude::*;
use vstd::string::*;
use vstd::utf8::*;

verus! {

pub open spec fn bool_text(b: bool) -> Seq<char> {
    if b {
        "true"@
    } else {
        "false"@
    }
}

pub open spec fn overlap_text(p: OverlapPolicy) -> Seq<char> {
    match p {
        OverlapPolicy::Skip => "Skip"@,
        OverlapPolicy::Queue => "Queue"@,
        OverlapPolicy::Kill => "Kill"@,
    }
}

pub open spec fn missed_text(p: MissedRunPolicy) -> Seq<char> {
    match p {
        MissedRunPolicy::Skip => "Skip"@,
        MissedRunPolicy::RunOnce => "RunOnce"@,
        MissedRunPolicy::RunAll => "RunAll"@,
    }
}

/// The canonical text of a schedule. What could end a value is escaped in it.
pub open spec fn schedule_text(s: config::ScheduleView) -> Seq<char> {
    match s {
        config::ScheduleView::MinuteAligned { every_minutes } => "minute:"@ + text::decimal(
            every_minutes as nat,
        ),
        config::ScheduleView::HourAligned { every_hours } => "hour:"@ + text::decimal(
            every_hours as nat,
        ),
        config::ScheduleView::Calendar { days, at, timezone, on_day, last_day } => {
            "calendar:days="@ + escape::listed(days, Place::Item, ',') + ":at="@ + escape::escaped(
                at,
                Place::Field,
            ) + ":tz="@ + escape::optional(timezone, Place::Field) + ":on_day="@ + day_text(on_day)
                + ":last_day="@ + bool_text(last_day)
        },
        config::ScheduleView::Cron { expression, timezone } => {
            "cron:"@ + escape::escaped(expression, Place::Field) + ":tz="@ + escape::optional(
                timezone,
                Place::Field,
            )
        },
    }
}

pub open spec fn day_text(on_day: Option<i64>) -> Seq<char> {
    match on_day {
        Some(d) => text::signed_decimal(d as int),
        None => Seq::empty(),
    }
}

pub open spec fn seconds_text(timeout: Option<u64>) -> Seq<char> {
    match timeout {
        Some(n) => text::decimal(n as nat),
        None => Seq::empty(),
    }
}

/// The lines of a job's canonical text: one `key=value` for each field that affects its runs,
/// in a fixed order. What could end a value is escaped in it. The id, the title and the tags
/// have no line.
pub open spec fn job_lines(job: config::JobView) -> Seq<Seq<char>> {
    seq![
        "enabled="@ + bool_text(job.enabled),
        "schedule="@ + schedule_text(job.schedule),
        "command="@ + escape::escaped(job.command, Place::Line),
        "args="@ + escape::listed(job.args, Place::Line, '\u{1f}'),
        "cwd="@ + escape::optional(job.cwd, Place::Line),
        "timeout_secs="@ + seconds_text(job.timeout_secs),
        "timezone="@ + escape::optional(job.timezone, Place::Line),
        "overlap="@ + overlap_text(job.overlap_policy),
        "missed="@ + missed_text(job.missed_run_policy),
        "max_retries="@ + text::decimal(job.max_retries as nat),
    ]
}

/// The lines one after another, each ended by a newline.
pub open spec fn terminated(lines: Seq<Seq<char>>) -> Seq<char>
    decreases lines.len(),
{
    if lines.len() == 0 {
        Seq::empty()
    } else {
        lines[0] + "\n"@ + terminated(lines.drop_first())
    }
}

/// The canonical text of a job.
pub open spec fn job_text(job: config::JobView) -> Seq<char> {
    terminated(job_lines(job))
}

/// The SHA-256 digest of a byte string.
pub uninterp spec fn sha256_digest(data: Seq<u8>) -> Seq<u8>;

/// `sha2::Sha256::digest` is a function of the bytes, and its result has 32 of them.
#[verifier::external_body]
fn sha256(data: &[u8]) -> (r: Vec<u8>)
    ensures
        r@ == sha256_digest(data@),
        r@.len() == 32,
{
    <sha2::Sha256 as sha2::Digest>::digest(data).to_vec()
}

pub open spec fn hex_digit(n: int) -> char {
    if n < 10 {
        ('0' as u32 + n) as char
    } else {
        ('a' as u32 + (n - 10)) as char
    }
}

/// Two lower-case hexadecimal digits for each byte.
pub open spec fn hex(bytes: Seq<u8>) -> Seq<char>
    decreases bytes.len(),
{
    if bytes.len() == 0 {
        Seq::empty()
    } else {
        hex(bytes.drop_last()).push(hex_digit(bytes.last() as int / 16)).push(
            hex_digit(bytes.last() as int % 16),
        )
    }
}

/// The hash of a job's config: the digest of its canonical text, in hexadecimal.
pub open spec fn config_hash(job: config::JobView) -> Seq<char> {
    hex(sha256_digest(encode_utf8(job_text(job))))
}

fn nibble(n: u8) -> (c: char)
    requires
        n < 16,
    ensures
        c == hex_digit(n as int),
{
    if n < 10 {
        ('0' as u8 + n) as char
    } else {
        ('a' as u8 + (n - 10)) as char
    }
}

/// Writes bytes out as two lower-case hexadecimal digits each.
pub fn hex_text(bytes: &Vec<u8>) -> (r: String)
    ensures
        r@ == hex(bytes@),
{
    let mut r = String::new();
    let mut i: usize = 0;
    while i < bytes.len()
        invariant
            i <= bytes.len(),
            r@ == hex(bytes@.take(i as int)),
        decreases bytes.len() - i,
    {
        let b: u8 = bytes[i];
        r.push(nibble(b / 16));
        r.push(nibble(b % 16));
        assert(bytes@.take(i + 1).drop_last() =~= bytes@.take(i as int));
        i += 1;
    }
    assert(bytes@.take(i as int) =~= bytes@);
    r
}

fn bool_word(b: bool) -> (r: &'static str)
    ensures
        r@ == bool_text(b),
{
    if b {
        "true"
    } else {
        "false"
    }
}

fn line(key: &str, value: &str) -> (r: String)
    ensures
        r@ == key@ + value@,
{
    let mut r = key.to_owned();
    r.append(value);
    r
}

/// The canonical text of a normalized schedule.
pub fn canonical_schedule(schedule: &NormalizedSchedule) -> (r: String)
    ensures
        r@ == schedule_text(schedule@),
{
    match schedule {
        NormalizedSchedule::MinuteAligned { every_minutes } => {
            let mut r = "minute:".to_owned();
            push_decimal(&mut r, *every_minutes as u64);
            r
        },
        NormalizedSchedule::HourAligned { every_hours } => {
            let mut r = "hour:".to_owned();
            push_decimal(&mut r, *every_hours as u64);
            r
        },
        NormalizedSchedule::Calendar { days, at, timezone, on_day, last_day } => {
            let mut r = "calendar:days=".to_owned();
            r.append(list_text(days, Place::Item, ',').as_str());
            r.append(":at=");
            r.append(escape(at.as_str(), Place::Field).as_str());
            r.append(":tz=");
            r.append(optional_text(timezone, Place::Field).as_str());
            r.append(":on_day=");
            let day = match on_day {
                Some(d) => signed_decimal_text(*d),
                None => String::new(),
            };
            r.append(day.as_str());
            r.append(":last_day=");
            r.append(bool_word(*last_day));
            r
        },
        NormalizedSchedule::Cron { expression, timezone } => {
            let mut r = "cron:".to_owned();
            r.append(escape(expression.as_str(), Place::Field).as_str());
            r.append(":tz=");
            r.append(optional_text(timezone, Place::Field).as_str());
            r
        },
    }
}

/// The canonical text of a job.
pub fn canonical_job(job: &EffectiveJob) -> (r: String)
    ensures
        r@ == job_text(job@),
{
    let timeout = match job.timeout_secs {
        Some(n) => decimal_text(n),
        None => String::new(),
    };
    let overlap = match job.overlap_policy {
        OverlapPolicy::Skip => "Skip",
        OverlapPolicy::Queue => "Queue",
        OverlapPolicy::Kill => "Kill",
    };
    let missed = match job.missed_run_policy {
        MissedRunPolicy::Skip => "Skip",
        MissedRunPolicy::RunOnce => "RunOnce",
        MissedRunPolicy::RunAll => "RunAll",
    };
    let mut lines: Vec<String> = Vec::new();
    lines.push(line("enabled=", bool_word(job.enabled)));
    lines.push(line("schedule=", canonical_schedule(&job.schedule).as_str()));
    lines.push(line("command=", escape(job.command.as_str(), Place::Line).as_str()));
    lines.push(line("args=", list_text(&job.args, Place::Line, '\u{1f}').as_str()));
    lines.push(line("cwd=", optional_text(&job.cwd, Place::Line).as_str()));
    lines.push(line("timeout_secs=", timeout.as_str()));
    lines.push(line("timezone=", optional_text(&job.timezone, Place::Line).as_str()));
    lines.push(line("overlap=", overlap));
    lines.push(line("missed=", missed));
    lines.push(line("max_retries=", decimal_text(job.max_retries as u64).as_str()));
    assert(text::views(lines@) =~= job_lines(job@));
    terminate(&lines)
}

fn terminate(lines: &Vec<String>) -> (r: String)
    ensures
        r@ == terminated(text::views(lines@)),
{
    let ghost all = text::views(lines@);
    let mut r = String::new();
    let mut i: usize = 0;
    assert(all.skip(0) =~= all);
    assert(r@ + terminated(all) =~= terminated(all));
    while i < lines.len()
        invariant
            i <= lines.len(),
            all == text::views(lines@),
            r@ + terminated(all.skip(i as int)) == terminated(all),
        decreases lines.len() - i,
    {
        let ghost before = r@;
        r.append(lines[i].as_str());
        r.append("\n");
        assert(all.skip(i as int).drop_first() =~= all.skip(i + 1));
        assert(r@ + terminated(all.skip(i + 1)) =~= before + terminated(all.skip(i as int)));
        i += 1;
    }
    assert(r@ + Seq::<char>::empty() =~= r@);
    r
}

/// A hexadecimal text has two digits for each byte, all of them of `0`-`9` and `a`-`f`.
pub proof fn lemma_hex_shape(bytes: Seq<u8>)
    ensures
        hex(bytes).len() == 2 * bytes.len(),
        forall|i: int|
            0 <= i < hex(bytes).len() ==> text::is_digit(#[trigger] hex(bytes)[i]) || 'a' <= hex(
                bytes,
            )[i] <= 'f',
    decreases bytes.len(),
{
    if bytes.len() > 0 {
        lemma_hex_shape(bytes.drop_last());
    }
}

/// The hash of a job's config: 64 hexadecimal digits.
pub fn job_config_hash(job: &EffectiveJob) -> (r: String)
    ensures
        r@ == config_hash(job@),
        r@.len() == 64,
        forall|i: int|
            0 <= i < r@.len() ==> text::is_digit(#[trigger] r@[i]) || 'a' <= r@[i] <= 'f',
{
    let canonical = canonical_job(job);
    let digest = sha256(canonical.as_str().as_bytes());
    proof {
        lemma_hex_shape(digest@);
    }
    hex_text(&digest)
}

// -------------------------------------------------------------------------- laws

/// Whether two jobs agree in every field that affects their runs.
pub open spec fn same_runtime(a: config::JobView, b: config::JobView) -> bool {
    (config::JobView { id: b.id, title: b.title, tags: b.tags, ..a }) == b
}

/// Jobs that agree in every field that affects their runs have the same hash, whatever their
/// ids, titles and tags are.
pub proof fn lemma_hash_ignores_presentation(a: config::JobView, b: config::JobView)
    requires
        same_runtime(a, b),
    ensures
        job_text(a) == job_text(b),
        config_hash(a) == config_hash(b),
{
}

/// What ends a value: the newline and the key of the line that follows.
pub open spec fn next_line(key: Seq<char>) -> Seq<char> {
    "\n"@ + key
}

proof fn lemma_cut(p: Seq<char>, a: Seq<char>, b: Seq<char>)
    requires
        p + a == p + b,
    ensures
        a == b,
{
    assert((p + a).skip(p.len() as int) =~= a);
    assert((p + b).skip(p.len() as int) =~= b);
}

/// A text without a character of `p` does not hold `p`.
proof fn lemma_no_occurrence(a: Seq<char>, p: Seq<char>, k: int)
    requires
        0 <= k < p.len(),
        !a.contains(p[k]),
    ensures
        !text::occurs(a, p),
{
    if text::occurs(a, p) {
        let i = choose|i: int| text::occurs_at(a, p, i);
        assert(a.subrange(i, i + p.len())[k] == a[i + k]);
        assert(a.contains(p[k]));
    }
}

/// Texts without a character are without it one after the other.
proof fn lemma_free_concat(a: Seq<char>, b: Seq<char>, c: char)
    requires
        !a.contains(c),
        !b.contains(c),
    ensures
        !(a + b).contains(c),
{
    if (a + b).contains(c) {
        let i = choose|i: int| 0 <= i < (a + b).len() && (a + b)[i] == c;
        if i < a.len() {
            assert(a[i] == c);
        } else {
            assert(b[i - a.len()] == c);
        }
    }
}

proof fn lemma_day_text(a: Option<i64>)
    ensures
        !day_text(a).contains(':'),
        !day_text(a).contains('\n'),
        a is Some ==> day_text(a).len() > 0,
{
    match a {
        Some(d) => {
            text::lemma_decimal_number(if d < 0 { (-d) as nat } else { d as nat });
            assert forall|i: int| 0 <= i < day_text(a).len() implies day_text(a)[i] != ':'
                && day_text(a)[i] != '\n' by {
                if d < 0 {
                    if i > 0 {
                        assert(day_text(a)[i] == text::decimal((-d) as nat)[i - 1]);
                    }
                }
            }
        },
        None => {},
    }
}

proof fn lemma_bool_text(a: bool, b: bool)
    requires
        bool_text(a) == bool_text(b),
    ensures
        a == b,
{
    reveal_strlit("true");
    reveal_strlit("false");
    assert("true"@[0] != "false"@[0]);
}

proof fn lemma_cron_text(
    e: Seq<char>,
    t: Option<Seq<char>>,
    f: Seq<char>,
    u: Option<Seq<char>>,
)
    requires
        schedule_text(config::ScheduleView::Cron { expression: e, timezone: t }) == schedule_text(
            config::ScheduleView::Cron { expression: f, timezone: u },
        ),
    ensures
        e == f,
        t == u,
{
    reveal_strlit(":tz=");
    let (xe, xf) = (escape::escaped(e, Place::Field), escape::escaped(f, Place::Field));
    let (xt, xu) = (escape::optional(t, Place::Field), escape::optional(u, Place::Field));
    assert("cron:"@ + xe + ":tz="@ + xt =~= "cron:"@ + (xe + ":tz="@ + xt));
    assert("cron:"@ + xf + ":tz="@ + xu =~= "cron:"@ + (xf + ":tz="@ + xu));
    lemma_cut("cron:"@, xe + ":tz="@ + xt, xf + ":tz="@ + xu);
    escape::lemma_escaped_free(e, Place::Field, '=');
    escape::lemma_escaped_free(f, Place::Field, '=');
    lemma_no_occurrence(xe, ":tz="@, 3);
    lemma_no_occurrence(xf, ":tz="@, 3);
    text::lemma_split_unique(xe, xt, xf, xu, ":tz="@);
    escape::lemma_escaped_injective(e, f, Place::Field);
    escape::lemma_optional_injective(t, u, Place::Field);
}

/// The calendar text with the delimiters between its values in view.
proof fn lemma_calendar_shape(
    days: Seq<char>,
    at: Seq<char>,
    tz: Seq<char>,
    day: Seq<char>,
    last: Seq<char>,
)
    ensures
        "calendar:days="@ + days + ":at="@ + at + ":tz="@ + tz + ":on_day="@ + day + ":last_day="@
            + last == "calendar:days="@ + (days + ":at="@ + (at + ":tz="@ + (tz + ":on_day="@ + (day
            + ":last_day="@ + last)))),
{
    let k0 = "calendar:days="@;
    let r3 = day + ":last_day="@ + last;
    let r2 = tz + ":on_day="@ + r3;
    let r1 = at + ":tz="@ + r2;
    let h1 = k0 + days + ":at="@;
    let h2 = h1 + at + ":tz="@;
    let h3 = h2 + tz + ":on_day="@;
    assert(h3 + day + ":last_day="@ + last =~= h3 + r3);
    assert(h3 + r3 =~= h2 + r2);
    assert(h2 + r2 =~= h1 + r1);
    assert(h1 + r1 =~= k0 + (days + ":at="@ + r1));
}

proof fn lemma_calendar_text(a: config::ScheduleView, b: config::ScheduleView)
    requires
        a is Calendar,
        b is Calendar,
        schedule_text(a) == schedule_text(b),
    ensures
        a == b,
{
    match (a, b) {
        (
            config::ScheduleView::Calendar { days: d, at: i, timezone: t, on_day: o, last_day: l },
            config::ScheduleView::Calendar { days: e, at: j, timezone: u, on_day: p, last_day: m },
        ) => {
            reveal_strlit(":at=");
            reveal_strlit(":tz=");
            reveal_strlit(":on_day=");
            reveal_strlit(":last_day=");
            let (xd, xe) = (
                escape::listed(d, Place::Item, ','),
                escape::listed(e, Place::Item, ','),
            );
            let (xi, xj) = (escape::escaped(i, Place::Field), escape::escaped(j, Place::Field));
            let (xt, xu) = (escape::optional(t, Place::Field), escape::optional(u, Place::Field));
            let l3 = day_text(o) + ":last_day="@ + bool_text(l);
            let m3 = day_text(p) + ":last_day="@ + bool_text(m);
            let l2 = xt + ":on_day="@ + l3;
            let m2 = xu + ":on_day="@ + m3;
            let l1 = xi + ":tz="@ + l2;
            let m1 = xj + ":tz="@ + m2;
            lemma_calendar_shape(xd, xi, xt, day_text(o), bool_text(l));
            lemma_calendar_shape(xe, xj, xu, day_text(p), bool_text(m));
            lemma_cut("calendar:days="@, xd + ":at="@ + l1, xe + ":at="@ + m1);
            escape::lemma_listed_free(d, Place::Item, ',', '=');
            escape::lemma_listed_free(e, Place::Item, ',', '=');
            lemma_no_occurrence(xd, ":at="@, 3);
            lemma_no_occurrence(xe, ":at="@, 3);
            text::lemma_split_unique(xd, l1, xe, m1, ":at="@);
            escape::lemma_escaped_free(i, Place::Field, '=');
            escape::lemma_escaped_free(j, Place::Field, '=');
            lemma_no_occurrence(xi, ":tz="@, 3);
            lemma_no_occurrence(xj, ":tz="@, 3);
            text::lemma_split_unique(xi, l2, xj, m2, ":tz="@);
            escape::lemma_optional_free(t, Place::Field, '=');
            escape::lemma_optional_free(u, Place::Field, '=');
            lemma_no_occurrence(xt, ":on_day="@, 7);
            lemma_no_occurrence(xu, ":on_day="@, 7);
            text::lemma_split_unique(xt, l3, xu, m3, ":on_day="@);
            lemma_day_text(o);
            lemma_day_text(p);
            lemma_no_occurrence(day_text(o), ":last_day="@, 0);
            lemma_no_occurrence(day_text(p), ":last_day="@, 0);
            text::lemma_split_unique(
                day_text(o),
                bool_text(l),
                day_text(p),
                bool_text(m),
                ":last_day="@,
            );
            lemma_bool_text(l, m);
            match (o, p) {
                (Some(v), Some(w)) => text::lemma_signed_decimal_injective(v as int, w as int),
                _ => {},
            }
            escape::lemma_listed_injective(d, e, Place::Item, ',');
            escape::lemma_escaped_injective(i, j, Place::Field);
            escape::lemma_optional_injective(t, u, Place::Field);
        },
        _ => {},
    }
}

/// The canonical text of a schedule stands on one line.
proof fn lemma_schedule_one_line(s: config::ScheduleView)
    ensures
        !schedule_text(s).contains('\n'),
{
    reveal_strlit("minute:");
    reveal_strlit("hour:");
    reveal_strlit("calendar:days=");
    reveal_strlit(":at=");
    reveal_strlit(":tz=");
    reveal_strlit(":on_day=");
    reveal_strlit(":last_day=");
    reveal_strlit("cron:");
    let nl = '\n';
    match s {
        config::ScheduleView::MinuteAligned { every_minutes: n }
        | config::ScheduleView::HourAligned { every_hours: n } => {
            text::lemma_decimal_number(n as nat);
            lemma_free_concat("minute:"@, text::decimal(n as nat), nl);
            lemma_free_concat("hour:"@, text::decimal(n as nat), nl);
        },
        config::ScheduleView::Calendar { days, at, timezone, on_day, last_day } => {
            let d = escape::listed(days, Place::Item, ',');
            let a = escape::escaped(at, Place::Field);
            let t = escape::optional(timezone, Place::Field);
            escape::lemma_listed_free(days, Place::Item, ',', nl);
            escape::lemma_escaped_free(at, Place::Field, nl);
            escape::lemma_optional_free(timezone, Place::Field, nl);
            lemma_day_text(on_day);
            lemma_fixed_words(last_day, OverlapPolicy::Skip, MissedRunPolicy::Skip);
            let s1 = "calendar:days="@ + d;
            let s2 = s1 + ":at="@ + a;
            let s3 = s2 + ":tz="@ + t;
            let s4 = s3 + ":on_day="@ + day_text(on_day);
            lemma_free_concat("calendar:days="@, d, nl);
            lemma_free_concat(s1, ":at="@, nl);
            lemma_free_concat(s1 + ":at="@, a, nl);
            lemma_free_concat(s2, ":tz="@, nl);
            lemma_free_concat(s2 + ":tz="@, t, nl);
            lemma_free_concat(s3, ":on_day="@, nl);
            lemma_free_concat(s3 + ":on_day="@, day_text(on_day), nl);
            lemma_free_concat(s4, ":last_day="@, nl);
            lemma_free_concat(s4 + ":last_day="@, bool_text(last_day), nl);
        },
        config::ScheduleView::Cron { expression, timezone } => {
            let e = escape::escaped(expression, Place::Field);
            let t = escape::optional(timezone, Place::Field);
            escape::lemma_escaped_free(expression, Place::Field, nl);
            escape::lemma_optional_free(timezone, Place::Field, nl);
            lemma_free_concat("cron:"@, e, nl);
            lemma_free_concat("cron:"@ + e, ":tz="@, nl);
            lemma_free_concat("cron:"@ + e + ":tz="@, t, nl);
        },
    }
}

/// The first two characters of a schedule's canonical text tell its kind.
proof fn lemma_schedule_kind(s: config::ScheduleView)
    ensures
        schedule_text(s).len() >= 2,
        s is MinuteAligned <==> schedule_text(s)[0] == 'm',
        s is HourAligned <==> schedule_text(s)[0] == 'h',
        s is Calendar <==> schedule_text(s)[1] == 'a',
        s is Cron <==> schedule_text(s)[1] == 'r',
{
    reveal_strlit("minute:");
    reveal_strlit("hour:");
    reveal_strlit("calendar:days=");
    reveal_strlit("cron:");
}

/// Distinct schedules have distinct canonical texts.
pub proof fn lemma_schedule_text_injective(a: config::ScheduleView, b: config::ScheduleView)
    requires
        schedule_text(a) == schedule_text(b),
    ensures
        a == b,
{
    lemma_schedule_kind(a);
    lemma_schedule_kind(b);
    match (a, b) {
        (
            config::ScheduleView::MinuteAligned { every_minutes: m },
            config::ScheduleView::MinuteAligned { every_minutes: n },
        ) => {
            lemma_cut("minute:"@, text::decimal(m as nat), text::decimal(n as nat));
            text::lemma_decimal_injective(m as nat, n as nat);
        },
        (
            config::ScheduleView::HourAligned { every_hours: m },
            config::ScheduleView::HourAligned { every_hours: n },
        ) => {
            lemma_cut("hour:"@, text::decimal(m as nat), text::decimal(n as nat));
            text::lemma_decimal_injective(m as nat, n as nat);
        },
        (
            config::ScheduleView::Cron { expression: e, timezone: t },
            config::ScheduleView::Cron { expression: f, timezone: u },
        ) => {
            lemma_cron_text(e, t, f, u);
        },
        (config::ScheduleView::Calendar { .. }, config::ScheduleView::Calendar { .. }) => {
            lemma_calendar_text(a, b);
        },
        _ => {},
    }
}

/// What follows the key of line `i`, up to the end of the text.
spec fn after_key(job: config::JobView, value: Seq<char>, i: int) -> Seq<char> {
    value + "\n"@ + terminated(job_lines(job).skip(i + 1))
}

proof fn lemma_line(job: config::JobView, key: Seq<char>, value: Seq<char>, i: int)
    requires
        0 <= i < 10,
        job_lines(job)[i] == key + value,
    ensures
        terminated(job_lines(job).skip(i)) == key + after_key(job, value, i),
{
    let l = job_lines(job).skip(i);
    assert(l.drop_first() =~= job_lines(job).skip(i + 1));
    assert(l[0] == key + value);
    assert(key + value + "\n"@ + terminated(l.drop_first()) =~= key + after_key(job, value, i));
}

/// One value and all that follows the next key, read off two equal texts.
proof fn lemma_read_value(
    a: config::JobView,
    b: config::JobView,
    va: Seq<char>,
    vb: Seq<char>,
    i: int,
    key: Seq<char>,
    na: Seq<char>,
    nb: Seq<char>,
)
    requires
        0 <= i < 9,
        after_key(a, va, i) == after_key(b, vb, i),
        job_lines(a)[i + 1] == key + na,
        job_lines(b)[i + 1] == key + nb,
        !key.contains('\n'),
        !va.contains('\n'),
        !vb.contains('\n'),
    ensures
        va == vb,
        after_key(a, na, i + 1) == after_key(b, nb, i + 1),
{
    reveal_strlit("\n");
    lemma_line(a, key, na, i + 1);
    lemma_line(b, key, nb, i + 1);
    let ra = after_key(a, na, i + 1);
    let rb = after_key(b, nb, i + 1);
    let p = next_line(key);
    assert(after_key(a, va, i) =~= va + p + ra);
    assert(after_key(b, vb, i) =~= vb + p + rb);
    assert forall|k: int| 0 < k < p.len() implies #[trigger] p[k] != p[0] by {
        assert(p[k] == key[k - 1]);
        assert(key.contains(key[k - 1]));
    }
    lemma_no_occurrence(va, p, 0);
    lemma_no_occurrence(vb, p, 0);
    text::lemma_split_unique(va, ra, vb, rb, p);
}

/// Jobs that differ in a field that affects their runs have distinct canonical texts.
pub proof fn lemma_job_text_injective(a: config::JobView, b: config::JobView)
    requires
        job_text(a) == job_text(b),
    ensures
        same_runtime(a, b),
{
    lemma_keys();
    reveal_strlit("\n");
    let nl = '\n';
    let us = '\u{1f}';
    let (sa, sb) = (schedule_text(a.schedule), schedule_text(b.schedule));
    let (ca, cb) = (
        escape::escaped(a.command, Place::Line),
        escape::escaped(b.command, Place::Line),
    );
    let (ja, jb) = (
        escape::listed(a.args, Place::Line, us),
        escape::listed(b.args, Place::Line, us),
    );
    let (wa, wb) = (escape::optional(a.cwd, Place::Line), escape::optional(b.cwd, Place::Line));
    let (za, zb) = (
        escape::optional(a.timezone, Place::Line),
        escape::optional(b.timezone, Place::Line),
    );
    let (ta, tb) = (seconds_text(a.timeout_secs), seconds_text(b.timeout_secs));
    let (oa, ob) = (overlap_text(a.overlap_policy), overlap_text(b.overlap_policy));
    let (ma, mb) = (missed_text(a.missed_run_policy), missed_text(b.missed_run_policy));
    let (ra, rb) = (text::decimal(a.max_retries as nat), text::decimal(b.max_retries as nat));
    let (ea, eb) = (bool_text(a.enabled), bool_text(b.enabled));
    assert(job_lines(a).skip(0) =~= job_lines(a));
    assert(job_lines(b).skip(0) =~= job_lines(b));
    lemma_line(a, "enabled="@, ea, 0);
    lemma_line(b, "enabled="@, eb, 0);
    lemma_cut("enabled="@, after_key(a, ea, 0), after_key(b, eb, 0));
    lemma_fixed_words(a.enabled, a.overlap_policy, a.missed_run_policy);
    lemma_fixed_words(b.enabled, b.overlap_policy, b.missed_run_policy);
    lemma_schedule_one_line(a.schedule);
    lemma_schedule_one_line(b.schedule);
    escape::lemma_escaped_free(a.command, Place::Line, nl);
    escape::lemma_escaped_free(b.command, Place::Line, nl);
    escape::lemma_listed_free(a.args, Place::Line, us, nl);
    escape::lemma_listed_free(b.args, Place::Line, us, nl);
    escape::lemma_optional_free(a.cwd, Place::Line, nl);
    escape::lemma_optional_free(b.cwd, Place::Line, nl);
    escape::lemma_optional_free(a.timezone, Place::Line, nl);
    escape::lemma_optional_free(b.timezone, Place::Line, nl);
    lemma_seconds_text(a.timeout_secs);
    lemma_seconds_text(b.timeout_secs);
    lemma_read_value(a, b, ea, eb, 0, "schedule="@, sa, sb);
    lemma_read_value(a, b, sa, sb, 1, "command="@, ca, cb);
    lemma_read_value(a, b, ca, cb, 2, "args="@, ja, jb);
    lemma_read_value(a, b, ja, jb, 3, "cwd="@, wa, wb);
    lemma_read_value(a, b, wa, wb, 4, "timeout_secs="@, ta, tb);
    lemma_read_value(a, b, ta, tb, 5, "timezone="@, za, zb);
    lemma_read_value(a, b, za, zb, 6, "overlap="@, oa, ob);
    lemma_read_value(a, b, oa, ob, 7, "missed="@, ma, mb);
    lemma_read_value(a, b, ma, mb, 8, "max_retries="@, ra, rb);
    assert(job_lines(a).skip(10) =~= Seq::empty());
    assert(job_lines(b).skip(10) =~= Seq::empty());
    assert(after_key(a, ra, 9).drop_last() =~= ra);
    assert(after_key(b, rb, 9).drop_last() =~= rb);
    lemma_bool_text(a.enabled, b.enabled);
    lemma_schedule_text_injective(a.schedule, b.schedule);
    escape::lemma_escaped_injective(a.command, b.command, Place::Line);
    escape::lemma_listed_injective(a.args, b.args, Place::Line, us);
    escape::lemma_optional_injective(a.cwd, b.cwd, Place::Line);
    escape::lemma_optional_injective(a.timezone, b.timezone, Place::Line);
    match (a.timeout_secs, b.timeout_secs) {
        (Some(m), Some(n)) => text::lemma_decimal_injective(m as nat, n as nat),
        _ => {},
    }
    lemma_policy_words(a.overlap_policy, b.overlap_policy, a.missed_run_policy, b.missed_run_policy);
    text::lemma_decimal_injective(a.max_retries as nat, b.max_retries as nat);
}

/// Jobs with one hash agree in every field that affects their runs, or else their canonical
/// texts are two with one digest.
pub proof fn lemma_hash_tells_jobs_apart(a: config::JobView, b: config::JobView)
    requires
        config_hash(a) == config_hash(b),
    ensures
        same_runtime(a, b) || (job_text(a) != job_text(b) && sha256_digest(
            encode_utf8(job_text(a)),
        ) == sha256_digest(encode_utf8(job_text(b)))),
{
    lemma_hex_injective(
        sha256_digest(encode_utf8(job_text(a))),
        sha256_digest(encode_utf8(job_text(b))),
    );
    if job_text(a) == job_text(b) {
        lemma_job_text_injective(a, b);
    }
}

/// Distinct byte strings have distinct hexadecimal texts.
pub proof fn lemma_hex_injective(a: Seq<u8>, b: Seq<u8>)
    requires
        hex(a) == hex(b),
    ensures
        a == b,
    decreases a.len(),
{
    lemma_hex_shape(a);
    lemma_hex_shape(b);
    if a.len() == 0 {
        assert(a =~= b);
    } else {
        let (ha, hb) = (hex(a), hex(b));
        let n = ha.len() as int;
        let (x, y) = (a.last() as int, b.last() as int);
        assert(ha[n - 2] == hex_digit(x / 16) && ha[n - 1] == hex_digit(x % 16));
        assert(hb[n - 2] == hex_digit(y / 16) && hb[n - 1] == hex_digit(y % 16));
        assert(hex(a.drop_last()) =~= ha.take(n - 2));
        assert(hex(b.drop_last()) =~= hb.take(n - 2));
        lemma_hex_digit(x / 16, y / 16);
        lemma_hex_digit(x % 16, y % 16);
        assert(x == y);
        lemma_hex_injective(a.drop_last(), b.drop_last());
        assert(a =~= a.drop_last().push(a.last()));
        assert(b =~= b.drop_last().push(b.last()));
    }
}

proof fn lemma_hex_digit(m: int, n: int)
    requires
        0 <= m < 16,
        0 <= n < 16,
        hex_digit(m) == hex_digit(n),
    ensures
        m == n,
{
}

proof fn lemma_keys()
    ensures
        !"schedule="@.contains('\n'),
        !"command="@.contains('\n'),
        !"args="@.contains('\n'),
        !"cwd="@.contains('\n'),
        !"timeout_secs="@.contains('\n'),
        !"timezone="@.contains('\n'),
        !"overlap="@.contains('\n'),
        !"missed="@.contains('\n'),
        !"max_retries="@.contains('\n'),
{
    reveal_strlit("schedule=");
    reveal_strlit("command=");
    reveal_strlit("args=");
    reveal_strlit("cwd=");
    reveal_strlit("timeout_secs=");
    reveal_strlit("timezone=");
    reveal_strlit("overlap=");
    reveal_strlit("missed=");
    reveal_strlit("max_retries=");
}

proof fn lemma_seconds_text(a: Option<u64>)
    ensures
        !seconds_text(a).contains('\n'),
        a is Some ==> seconds_text(a).len() > 0,
{
    match a {
        Some(n) => text::lemma_decimal_number(n as nat),
        None => {},
    }
}

proof fn lemma_fixed_words(b: bool, o: OverlapPolicy, m: MissedRunPolicy)
    ensures
        !bool_text(b).contains('\n'),
        !overlap_text(o).contains('\n'),
        !missed_text(m).contains('\n'),
{
    reveal_strlit("true");
    reveal_strlit("false");
    reveal_strlit("Skip");
    reveal_strlit("Queue");
    reveal_strlit("Kill");
    reveal_strlit("RunOnce");
    reveal_strlit("RunAll");
}

proof fn lemma_policy_words(
    o: OverlapPolicy,
    p: OverlapPolicy,
    m: MissedRunPolicy,
    n: MissedRunPolicy,
)
    requires
        overlap_text(o) == overlap_text(p),
        missed_text(m) == missed_text(n),
    ensures
        o == p,
        m == n,
{
    reveal_strlit("Skip");
    reveal_strlit("Queue");
    reveal_strlit("Kill");
    reveal_strlit("RunOnce");
    reveal_strlit("RunAll");
    assert("Skip"@[0] == 'S' && "Queue"@[0] == 'Q' && "Kill"@[0] == 'K');
    assert("Skip"@.len() == 4 && "RunOnce"@.len() == 7 && "RunAll"@.len() == 6);
}

} // verus!
