//! Validation: what is wrong with a config that can be read. Every check runs, so that all
//! findings are reported at once.

use crate::config;
use crate::config::{
    parse_duration, parse_every_interval, Every, Interval, RawConfig, RawJob,
};
use crate::cron;
use crate::cron::is_cron;
use crate::diagnostics;
use crate::diagnostics::Diagnostic;
use crate::scheduler;
use crate::text;
use crate::text::{
    chars_of, find_char, parse_u32, push_decimal, quoted, same, signed_decimal_text, starts_with,
    trim,
};
use crate::zone;
use crate::zone::is_zone;
use vstd::prelude::*;
use vstd::string::*;

verus! {

/// A timeout above this many seconds is reported as very long.
pub const VERY_LONG_TIMEOUT_SECS: u64 = 86400;

// ------------------------------------------------------------------ pieces of findings

/// The path of a field of the job at `idx`.
pub open spec fn job_path(idx: int, field: Seq<char>) -> Seq<char> {
    "jobs["@ + text::decimal(idx as nat) + "]"@ + field
}

/// A finding about a job, which names the job where it has an id.
pub open spec fn tagged(
    id: Option<Seq<char>>,
    d: diagnostics::DiagnosticView,
) -> diagnostics::DiagnosticView {
    match id {
        Some(_) => diagnostics::DiagnosticView { job: id, ..d },
        None => d,
    }
}

/// An error about a job, where it is due.
pub open spec fn error_when(
    due: bool,
    id: Option<Seq<char>>,
    code: Seq<char>,
    message: Seq<char>,
    path: Seq<char>,
) -> Seq<diagnostics::DiagnosticView> {
    if due {
        seq![tagged(id, diagnostics::error_view(code, message, path))]
    } else {
        Seq::empty()
    }
}

/// A warning about a job, where it is due.
pub open spec fn warning_when(
    due: bool,
    id: Option<Seq<char>>,
    code: Seq<char>,
    message: Seq<char>,
    path: Seq<char>,
) -> Seq<diagnostics::DiagnosticView> {
    if due {
        seq![tagged(id, diagnostics::warning_view(code, message, path))]
    } else {
        Seq::empty()
    }
}

fn path_of(idx: usize, field: &str) -> (r: String)
    ensures
        r@ == job_path(idx as int, field@),
{
    let mut r = "jobs[".to_owned();
    push_decimal(&mut r, idx as u64);
    r.append("]");
    r.append(field);
    r
}

fn push_finding(out: &mut Vec<Diagnostic>, id: &Option<String>, d: Diagnostic)
    ensures
        diagnostics::diagnostic_views(final(out)@) == diagnostics::diagnostic_views(old(out)@).push(
            tagged(text::opt_view(*id), d@),
        ),
{
    let ghost before = out@;
    let d = match id {
        Some(s) => d.with_job(s.clone()),
        None => d,
    };
    out.push(d);
    assert(diagnostics::diagnostic_views(out@) =~= diagnostics::diagnostic_views(before).push(d@));
}

fn add_error(
    out: &mut Vec<Diagnostic>,
    due: bool,
    id: &Option<String>,
    code: &'static str,
    message: String,
    path: String,
)
    ensures
        diagnostics::diagnostic_views(final(out)@) == diagnostics::diagnostic_views(old(out)@)
            + error_when(due, text::opt_view(*id), code@, message@, path@),
{
    let ghost before = diagnostics::diagnostic_views(out@);
    if due {
        push_finding(out, id, Diagnostic::error(code, message, path));
    }
    assert(diagnostics::diagnostic_views(out@) =~= before + error_when(
        due,
        text::opt_view(*id),
        code@,
        message@,
        path@,
    ));
}

fn add_warning(
    out: &mut Vec<Diagnostic>,
    due: bool,
    id: &Option<String>,
    code: &'static str,
    message: String,
    path: String,
)
    ensures
        diagnostics::diagnostic_views(final(out)@) == diagnostics::diagnostic_views(old(out)@)
            + warning_when(due, text::opt_view(*id), code@, message@, path@),
{
    let ghost before = diagnostics::diagnostic_views(out@);
    if due {
        push_finding(out, id, Diagnostic::warning(code, message, path));
    }
    assert(diagnostics::diagnostic_views(out@) =~= before + warning_when(
        due,
        text::opt_view(*id),
        code@,
        message@,
        path@,
    ));
}

fn with_text(head: &str, value: &str, tail: &str) -> (r: String)
    ensures
        r@ == head@ + value@ + tail@,
{
    let mut r = head.to_owned();
    r.append(value);
    r.append(tail);
    r
}

// ------------------------------------------------------------------------ small rules

/// Whether a text is a valid job id: not empty, of `a`-`z`, `0`-`9` and `-` only.
pub open spec fn kebab(s: Seq<char>) -> bool {
    s.len() > 0 && forall|i: int| 0 <= i < s.len() ==> kebab_char(#[trigger] s[i])
}

pub open spec fn kebab_char(c: char) -> bool {
    text::is_lower(c) || text::is_digit(c) || c == '-'
}

/// Whether `s` is a valid job id.
pub fn is_kebab(s: &str) -> (r: bool)
    ensures
        r == kebab(s@),
{
    let v = chars_of(s);
    let mut i: usize = 0;
    while i < v.len()
        invariant
            v@ == s@,
            i <= v.len(),
            forall|k: int| 0 <= k < i ==> kebab_char(#[trigger] s@[k]),
        decreases v.len() - i,
    {
        let c = v[i];
        if !(('a' <= c && c <= 'z') || ('0' <= c && c <= '9') || c == '-') {
            assert(!kebab_char(s@[i as int]));
            return false;
        }
        i += 1;
    }
    v.len() > 0
}

/// Whether a text is an hour and a minute of the day with a colon between them.
pub open spec fn valid_hhmm(s: Seq<char>) -> bool {
    match text::find(s, ':') {
        Some(i) => match (
            text::unsigned(s.take(i as int), u32::MAX as nat),
            text::unsigned(s.skip(i as int + 1), u32::MAX as nat),
        ) {
            (Some(h), Some(m)) => h < 24 && m < 60,
            _ => false,
        },
        None => false,
    }
}

/// Whether `s` is an `HH:MM` time of day.
pub fn is_valid_hhmm(s: &str) -> (r: bool)
    ensures
        r == valid_hhmm(s@),
{
    proof {
        text::lemma_find(s@, ':');
    }
    match find_char(s, ':') {
        None => false,
        Some(i) => {
            let n = s.unicode_len();
            let h = s.substring_char(0, i);
            let m = s.substring_char(i + 1, n);
            assert(h@ =~= s@.take(i as int));
            assert(m@ =~= s@.skip(i as int + 1));
            match (parse_u32(h), parse_u32(m)) {
                (Some(hour), Some(minute)) => hour < 24 && minute < 60,
                _ => false,
            }
        },
    }
}

// -------------------------------------------------------------- resolving a command

/// How many characters stand before the first white space.
pub open spec fn word_length(s: Seq<char>) -> nat
    decreases s.len(),
{
    if s.len() == 0 || text::is_space(s[0]) {
        0
    } else {
        1 + word_length(s.drop_first())
    }
}

/// The first word of a command; a blank command as a whole.
pub open spec fn first_word(s: Seq<char>) -> Seq<char> {
    let t = text::trim_start(s);
    if t.len() == 0 {
        s
    } else {
        t.take(word_length(t) as int)
    }
}

/// A path with a leading `~/` replaced by the home directory, where there is one.
pub open spec fn tilde_expanded(s: Seq<char>, home: Option<Seq<char>>) -> Seq<char> {
    match home {
        Some(h) => if "~/"@.is_prefix_of(s) {
            h + "/"@ + s.skip(2)
        } else {
            s
        },
        None => s,
    }
}

/// Replaces a leading `~/` by the home directory.
pub fn shellexpand_tilde(s: &str, home: Option<&str>) -> (r: String)
    ensures
        r@ == tilde_expanded(s@, config::opt_str_view(home)),
{
    if let Some(h) = home {
        if starts_with(s, "~/") {
            proof {
                reveal_strlit("~/");
            }
            let n = s.unicode_len();
            let rest = s.substring_char(2, n);
            assert(rest@ =~= s@.skip(2));
            return with_text(h, "/", rest);
        }
    }
    s.to_owned()
}

/// What has to exist on the machine for a command to be found.
#[derive(Debug)]
pub enum CommandProbe {
    /// The file at this path.
    File(String),
    /// A file of this name in a directory of the search path.
    OnSearchPath(String),
}

/// Where a command is looked for: at its path where it holds a slash, else by name.
pub open spec fn probe_of(cmd: Seq<char>, home: Option<Seq<char>>) -> (bool, Seq<char>) {
    let expanded = tilde_expanded(first_word(cmd), home);
    (expanded.contains('/'), expanded)
}

pub(crate) fn take_first_word(s: &str) -> (r: &str)
    ensures
        r@ == first_word(s@),
{
    let v = chars_of(s);
    let n = v.len();
    let mut i: usize = 0;
    assert(v@.skip(0) =~= v@);
    while i < n && text::space_char(v[i])
        invariant
            n == v.len(),
            v@ == s@,
            i <= n,
            text::trim_start(v@.skip(i as int)) == text::trim_start(s@),
        decreases n - i,
    {
        assert(v@.skip(i as int).drop_first() =~= v@.skip(i + 1));
        i += 1;
    }
    let ghost t = v@.skip(i as int);
    assert(text::trim_start(s@) == t);
    if i == n {
        return s;
    }
    let mut j: usize = i;
    assert(t.skip(0) =~= t);
    while j < n && !text::space_char(v[j])
        invariant
            n == v.len(),
            i <= j <= n,
            t == v@.skip(i as int),
            word_length(t) == (j - i) + word_length(t.skip(j - i)),
        decreases n - j,
    {
        assert(t.skip(j - i)[0] == v@[j as int]);
        assert(t.skip(j - i).drop_first() =~= t.skip(j - i + 1));
        j += 1;
    }
    assert(word_length(t.skip(j - i)) == 0);
    assert(s@.subrange(i as int, j as int) =~= t.take(j - i));
    s.substring_char(i, j)
}

/// Where a command is looked for.
pub fn command_probe(cmd: &str, home: Option<&str>) -> (r: CommandProbe)
    ensures
        (match r {
            CommandProbe::File(p) => probe_of(cmd@, config::opt_str_view(home)) == (true, p@),
            CommandProbe::OnSearchPath(p) => probe_of(cmd@, config::opt_str_view(home)) == (
                false,
                p@,
            ),
        }),
{
    let expanded = shellexpand_tilde(take_first_word(cmd), home);
    proof {
        text::lemma_find(expanded@, '/');
    }
    match find_char(expanded.as_str(), '/') {
        Some(i) => {
            assert(expanded@[i as int] == '/');
            CommandProbe::File(expanded)
        },
        None => CommandProbe::OnSearchPath(expanded),
    }
}

// ------------------------------------------------------------------------- schedules

/// What is wrong with one `every:` token.
pub open spec fn token_findings(
    base: Seq<char>,
    id: Option<Seq<char>>,
    token: Seq<char>,
) -> Seq<diagnostics::DiagnosticView> {
    let path = base + ".every"@;
    match config::every_interval(token) {
        Some(config::IntervalView::Minutes(n)) => error_when(
            n == 0 || 60int % (n as int) != 0,
            id,
            "schedule.non_divisor"@,
            "every: "@ + token + " is not a divisor of 60"@,
            path,
        ),
        Some(config::IntervalView::Hours(n)) => error_when(
            n == 0 || 24int % (n as int) != 0,
            id,
            "schedule.non_divisor"@,
            "every: "@ + token + " is not a divisor of 24"@,
            path,
        ),
        Some(config::IntervalView::Named(_)) => Seq::empty(),
        None => error_when(
            true,
            id,
            "schedule.invalid"@,
            "every: "@ + token + " is not a recognized interval or weekday"@,
            path,
        ),
    }
}

/// What is wrong with the `every:` tokens, in order.
pub open spec fn tokens_findings(
    base: Seq<char>,
    id: Option<Seq<char>>,
    tokens: Seq<Seq<char>>,
) -> Seq<diagnostics::DiagnosticView>
    decreases tokens.len(),
{
    if tokens.len() == 0 {
        Seq::empty()
    } else {
        tokens_findings(base, id, tokens.drop_last()) + token_findings(base, id, tokens.last())
    }
}

/// What is wrong with the combination of a schedule's fields.
pub open spec fn shape_findings(
    base: Seq<char>,
    id: Option<Seq<char>>,
    s: config::RawSchedule,
) -> Seq<diagnostics::DiagnosticView> {
    error_when(
        s.every is Some && s.cron is Some,
        id,
        "schedule.invalid"@,
        "schedule sets both `every` and `cron`"@,
        base,
    ) + error_when(
        s.every is None && s.cron is None,
        id,
        "schedule.invalid"@,
        "schedule sets neither `every` nor `cron`"@,
        base,
    ) + error_when(
        s.on_day is Some && s.last_day == Some(true),
        id,
        "schedule.invalid"@,
        "schedule sets both `on_day` and `last_day`"@,
        base,
    )
}

pub open spec fn on_day_findings(
    base: Seq<char>,
    id: Option<Seq<char>>,
    on_day: Option<i64>,
) -> Seq<diagnostics::DiagnosticView> {
    match on_day {
        Some(day) => error_when(
            !(1 <= day <= 31),
            id,
            "schedule.invalid"@,
            "on_day "@ + text::signed_decimal(day as int) + " is out of range 1..=31"@,
            base + ".on_day"@,
        ),
        None => Seq::empty(),
    }
}

pub open spec fn every_findings(
    base: Seq<char>,
    id: Option<Seq<char>>,
    every: Option<Every>,
) -> Seq<diagnostics::DiagnosticView> {
    match every {
        Some(e) => tokens_findings(base, id, config::every_tokens(e)),
        None => Seq::empty(),
    }
}

pub open spec fn at_findings(
    base: Seq<char>,
    id: Option<Seq<char>>,
    at: Option<Seq<char>>,
) -> Seq<diagnostics::DiagnosticView> {
    match at {
        Some(at) => error_when(
            !valid_hhmm(at),
            id,
            "schedule.invalid"@,
            "at: "@ + text::debug_text(at) + " is not a HH:MM time"@,
            base + ".at"@,
        ),
        None => Seq::empty(),
    }
}

pub open spec fn cron_findings(
    base: Seq<char>,
    id: Option<Seq<char>>,
    cron: Option<Seq<char>>,
) -> Seq<diagnostics::DiagnosticView> {
    match cron {
        Some(expression) => error_when(
            !cron::cron_valid(expression),
            id,
            "schedule.cron_invalid"@,
            "invalid cron expression: "@ + text::debug_text(expression),
            base + ".cron"@,
        ),
        None => Seq::empty(),
    }
}

pub open spec fn timezone_findings(
    base: Seq<char>,
    id: Option<Seq<char>>,
    timezone: Option<Seq<char>>,
) -> Seq<diagnostics::DiagnosticView> {
    match timezone {
        Some(tz) => error_when(
            tz != "local"@ && !zone::zone_known(tz),
            id,
            "schedule.timezone_invalid"@,
            "unknown timezone: "@ + text::debug_text(tz),
            base + ".timezone"@,
        ),
        None => Seq::empty(),
    }
}

/// What is wrong with the schedule of the job at `idx`, in the order of the checks.
pub open spec fn schedule_findings(idx: int, job: RawJob) -> Seq<diagnostics::DiagnosticView> {
    let base = job_path(idx, ".schedule"@);
    let id = text::opt_view(job.id);
    let s = job.schedule;
    shape_findings(base, id, s) + on_day_findings(base, id, s.on_day) + every_findings(
        base,
        id,
        s.every,
    ) + at_findings(base, id, text::opt_view(s.at)) + cron_findings(
        base,
        id,
        text::opt_view(s.cron),
    ) + timezone_findings(base, id, text::opt_view(s.timezone))
}

fn check_token(base: &str, id: &Option<String>, token: &str, out: &mut Vec<Diagnostic>)
    ensures
        diagnostics::diagnostic_views(final(out)@) == diagnostics::diagnostic_views(old(out)@)
            + token_findings(base@, text::opt_view(*id), token@),
{
    proof {
        reveal_strlit("");
        assert(base@ + ".every"@ + ""@ =~= base@ + ".every"@);
    }
    let path = with_text(base, ".every", "");
    match parse_every_interval(token) {
        Ok(Interval::Minutes(n)) => {
            add_error(
                out,
                n == 0 || 60 % n != 0,
                id,
                "schedule.non_divisor",
                with_text("every: ", token, " is not a divisor of 60"),
                path,
            );
        },
        Ok(Interval::Hours(n)) => {
            add_error(
                out,
                n == 0 || 24 % n != 0,
                id,
                "schedule.non_divisor",
                with_text("every: ", token, " is not a divisor of 24"),
                path,
            );
        },
        Ok(Interval::Named(_)) => {
            assert(diagnostics::diagnostic_views(out@) + Seq::empty()
                =~= diagnostics::diagnostic_views(out@));
        },
        Err(_) => {
            add_error(
                out,
                true,
                id,
                "schedule.invalid",
                with_text("every: ", token, " is not a recognized interval or weekday"),
                path,
            );
        },
    }
}

fn check_every(base: &str, id: &Option<String>, every: &Option<Every>, out: &mut Vec<Diagnostic>)
    ensures
        diagnostics::diagnostic_views(final(out)@) == diagnostics::diagnostic_views(old(out)@)
            + every_findings(base@, text::opt_view(*id), *every),
{
    let ghost before = diagnostics::diagnostic_views(out@);
    match every {
        None => {
            assert(before + Seq::empty() =~= before);
        },
        Some(Every::One(token)) => {
            check_token(base, id, token.as_str(), out);
            proof {
                let t = seq![token@];
                assert(t.drop_last() =~= Seq::empty());
                assert(tokens_findings(base@, text::opt_view(*id), t.drop_last())
                    =~= Seq::empty());
                assert(tokens_findings(base@, text::opt_view(*id), t) =~= token_findings(
                    base@,
                    text::opt_view(*id),
                    token@,
                ));
            }
        },
        Some(Every::Many(tokens)) => {
            let ghost all = text::views(tokens@);
            let mut i: usize = 0;
            assert(all.take(0) =~= Seq::empty());
            assert(before + tokens_findings(base@, text::opt_view(*id), all.take(0)) =~= before);
            while i < tokens.len()
                invariant
                    i <= tokens.len(),
                    all == text::views(tokens@),
                    diagnostics::diagnostic_views(out@) == before + tokens_findings(
                        base@,
                        text::opt_view(*id),
                        all.take(i as int),
                    ),
                decreases tokens.len() - i,
            {
                check_token(base, id, tokens[i].as_str(), out);
                assert(all.take(i + 1).drop_last() =~= all.take(i as int));
                assert(diagnostics::diagnostic_views(out@) =~= before + tokens_findings(
                    base@,
                    text::opt_view(*id),
                    all.take(i + 1),
                ));
                i += 1;
            }
            assert(all.take(i as int) =~= all);
        },
    }
}

/// The checks on one optional text field each.
fn check_texts(base: &str, job: &RawJob, out: &mut Vec<Diagnostic>)
    ensures
        diagnostics::diagnostic_views(final(out)@) == diagnostics::diagnostic_views(old(out)@)
            + at_findings(base@, text::opt_view(job.id), text::opt_view(job.schedule.at))
            + cron_findings(base@, text::opt_view(job.id), text::opt_view(job.schedule.cron))
            + timezone_findings(
            base@,
            text::opt_view(job.id),
            text::opt_view(job.schedule.timezone),
        ),
{
    let ghost start = diagnostics::diagnostic_views(out@);
    proof {
        reveal_strlit("");
    }
    if let Some(at) = &job.schedule.at {
        assert(base@ + ".at"@ + ""@ =~= base@ + ".at"@);
        add_error(
            out,
            !is_valid_hhmm(at.as_str()),
            &job.id,
            "schedule.invalid",
            with_text("at: ", quoted(at.as_str()).as_str(), " is not a HH:MM time"),
            with_text(base, ".at", ""),
        );
    }
    assert(diagnostics::diagnostic_views(out@) =~= start + at_findings(
        base@,
        text::opt_view(job.id),
        text::opt_view(job.schedule.at),
    ));
    let ghost middle = diagnostics::diagnostic_views(out@);
    if let Some(expression) = &job.schedule.cron {
        assert(base@ + ".cron"@ + ""@ =~= base@ + ".cron"@);
        let shown = quoted(expression.as_str());
        assert("invalid cron expression: "@ + shown@ + ""@ =~= "invalid cron expression: "@
            + shown@);
        add_error(
            out,
            !is_cron(expression.as_str()),
            &job.id,
            "schedule.cron_invalid",
            with_text("invalid cron expression: ", shown.as_str(), ""),
            with_text(base, ".cron", ""),
        );
    }
    assert(diagnostics::diagnostic_views(out@) =~= middle + cron_findings(
        base@,
        text::opt_view(job.id),
        text::opt_view(job.schedule.cron),
    ));
    let ghost late = diagnostics::diagnostic_views(out@);
    if let Some(tz) = &job.schedule.timezone {
        assert(base@ + ".timezone"@ + ""@ =~= base@ + ".timezone"@);
        let shown = quoted(tz.as_str());
        assert("unknown timezone: "@ + shown@ + ""@ =~= "unknown timezone: "@ + shown@);
        add_error(
            out,
            !same(tz.as_str(), "local") && !is_zone(tz.as_str()),
            &job.id,
            "schedule.timezone_invalid",
            with_text("unknown timezone: ", shown.as_str(), ""),
            with_text(base, ".timezone", ""),
        );
    }
    assert(diagnostics::diagnostic_views(out@) =~= late + timezone_findings(
        base@,
        text::opt_view(job.id),
        text::opt_view(job.schedule.timezone),
    ));
}

fn check_shape(base: &str, job: &RawJob, out: &mut Vec<Diagnostic>)
    ensures
        diagnostics::diagnostic_views(final(out)@) == diagnostics::diagnostic_views(old(out)@)
            + shape_findings(base@, text::opt_view(job.id), job.schedule),
{
    let s = &job.schedule;
    let ghost start = diagnostics::diagnostic_views(out@);
    add_error(
        out,
        s.every.is_some() && s.cron.is_some(),
        &job.id,
        "schedule.invalid",
        "schedule sets both `every` and `cron`".to_owned(),
        base.to_owned(),
    );
    let ghost first = diagnostics::diagnostic_views(out@);
    add_error(
        out,
        s.every.is_none() && s.cron.is_none(),
        &job.id,
        "schedule.invalid",
        "schedule sets neither `every` nor `cron`".to_owned(),
        base.to_owned(),
    );
    let ghost second = diagnostics::diagnostic_views(out@);
    let last_day = match s.last_day {
        Some(b) => b,
        None => false,
    };
    add_error(
        out,
        s.on_day.is_some() && last_day,
        &job.id,
        "schedule.invalid",
        "schedule sets both `on_day` and `last_day`".to_owned(),
        base.to_owned(),
    );
    assert(diagnostics::diagnostic_views(out@) =~= start + shape_findings(
        base@,
        text::opt_view(job.id),
        *s,
    ));
}

fn check_on_day(base: &str, job: &RawJob, out: &mut Vec<Diagnostic>)
    ensures
        diagnostics::diagnostic_views(final(out)@) == diagnostics::diagnostic_views(old(out)@)
            + on_day_findings(base@, text::opt_view(job.id), job.schedule.on_day),
{
    match job.schedule.on_day {
        Some(day) => {
            proof {
                reveal_strlit("");
                assert(base@ + ".on_day"@ + ""@ =~= base@ + ".on_day"@);
            }
            add_error(
                out,
                !(1 <= day && day <= 31),
                &job.id,
                "schedule.invalid",
                with_text("on_day ", signed_decimal_text(day).as_str(), " is out of range 1..=31"),
                with_text(base, ".on_day", ""),
            );
        },
        None => {
            assert(diagnostics::diagnostic_views(out@) + Seq::empty()
                =~= diagnostics::diagnostic_views(out@));
        },
    }
}

proof fn lemma_chain<A>(s: Seq<A>, a: Seq<A>, b: Seq<A>, c: Seq<A>, d: Seq<A>, e: Seq<A>, f: Seq<A>)
    ensures
        s + a + b + c + d + e + f == s + (a + b + c + d + e + f),
{
    assert(s + a + b =~= s + (a + b));
    assert(s + (a + b) + c =~= s + (a + b + c));
    assert(s + (a + b + c) + d =~= s + (a + b + c + d));
    assert(s + (a + b + c + d) + e =~= s + (a + b + c + d + e));
    assert(s + (a + b + c + d + e) + f =~= s + (a + b + c + d + e + f));
}

/// Reports what is wrong with the schedule of the job at `idx`.
pub fn check_schedule(idx: usize, job: &RawJob, out: &mut Vec<Diagnostic>)
    ensures
        diagnostics::diagnostic_views(final(out)@) == diagnostics::diagnostic_views(old(out)@)
            + schedule_findings(idx as int, *job),
{
    let base = path_of(idx, ".schedule");
    let ghost start = diagnostics::diagnostic_views(out@);
    check_shape(base.as_str(), job, out);
    check_on_day(base.as_str(), job, out);
    check_every(base.as_str(), &job.id, &job.schedule.every, out);
    check_texts(base.as_str(), job, out);
    proof {
        let id = text::opt_view(job.id);
        let s = job.schedule;
        lemma_chain(
            start,
            shape_findings(base@, id, s),
            on_day_findings(base@, id, s.on_day),
            every_findings(base@, id, s.every),
            at_findings(base@, id, text::opt_view(s.at)),
            cron_findings(base@, id, text::opt_view(s.cron)),
            timezone_findings(base@, id, text::opt_view(s.timezone)),
        );
    }
}

// ------------------------------------------------------------------------------ jobs

pub open spec fn id_findings(idx: int, id: Option<Seq<char>>) -> Seq<diagnostics::DiagnosticView> {
    match id {
        Some(s) => error_when(
            !kebab(s),
            id,
            "job.id_invalid"@,
            "job id "@ + text::debug_text(s) + " must be kebab-case (a-z, 0-9, -)"@,
            job_path(idx, ".id"@),
        ),
        None => Seq::empty(),
    }
}

/// What is wrong with a job's command. `found` says whether the machine has it.
pub open spec fn command_findings(
    idx: int,
    id: Option<Seq<char>>,
    command: Option<Seq<char>>,
    found: bool,
) -> Seq<diagnostics::DiagnosticView> {
    let path = job_path(idx, ".execution.command"@);
    match command {
        None => error_when(
            true,
            id,
            "execution.command_missing"@,
            "execution.command is required"@,
            path,
        ),
        Some(cmd) => if text::trimmed(cmd).len() == 0 {
            error_when(
                true,
                id,
                "execution.command_missing"@,
                "execution.command is empty"@,
                path,
            )
        } else {
            warning_when(
                !found,
                id,
                "execution.not_found"@,
                "command not found on this machine: "@ + text::debug_text(cmd),
                path,
            )
        },
    }
}

pub open spec fn timeout_findings(
    idx: int,
    id: Option<Seq<char>>,
    timeout: Option<Seq<char>>,
) -> Seq<diagnostics::DiagnosticView> {
    let path = job_path(idx, ".timeout"@);
    match timeout {
        None => Seq::empty(),
        Some(t) => match config::duration_seconds(t) {
            None => error_when(
                true,
                id,
                "duration.invalid"@,
                "invalid duration: "@ + text::debug_text(t),
                path,
            ),
            Some(secs) => warning_when(
                secs > VERY_LONG_TIMEOUT_SECS,
                id,
                "timeout.very_long"@,
                "timeout "@ + text::debug_text(t) + " exceeds 24h"@,
                path,
            ),
        },
    }
}

pub open spec fn retry_findings(
    idx: int,
    id: Option<Seq<char>>,
    max_retries: Option<i64>,
) -> Seq<diagnostics::DiagnosticView> {
    match max_retries {
        Some(n) => error_when(
            n < 0,
            id,
            "field.type"@,
            "retry.max_retries must be >= 0"@,
            job_path(idx, ".retry.max_retries"@),
        ),
        None => Seq::empty(),
    }
}

/// What is wrong with the job at `idx` apart from its schedule, in the order of the checks.
pub open spec fn job_findings(
    idx: int,
    job: RawJob,
    found: bool,
) -> Seq<diagnostics::DiagnosticView> {
    let id = text::opt_view(job.id);
    id_findings(idx, id) + command_findings(
        idx,
        id,
        text::opt_view(job.execution.command),
        found,
    ) + timeout_findings(idx, id, text::opt_view(job.timeout)) + retry_findings(
        idx,
        id,
        config::retries_of(job.retry),
    )
}

fn check_id(idx: usize, job: &RawJob, out: &mut Vec<Diagnostic>)
    ensures
        diagnostics::diagnostic_views(final(out)@) == diagnostics::diagnostic_views(old(out)@)
            + id_findings(idx as int, text::opt_view(job.id)),
{
    match &job.id {
        Some(id) => {
            add_error(
                out,
                !is_kebab(id.as_str()),
                &job.id,
                "job.id_invalid",
                with_text(
                    "job id ",
                    quoted(id.as_str()).as_str(),
                    " must be kebab-case (a-z, 0-9, -)",
                ),
                path_of(idx, ".id"),
            );
        },
        None => {
            assert(diagnostics::diagnostic_views(out@) + Seq::empty()
                =~= diagnostics::diagnostic_views(out@));
        },
    }
}

fn check_command(idx: usize, job: &RawJob, found: bool, out: &mut Vec<Diagnostic>)
    ensures
        diagnostics::diagnostic_views(final(out)@) == diagnostics::diagnostic_views(old(out)@)
            + command_findings(
            idx as int,
            text::opt_view(job.id),
            text::opt_view(job.execution.command),
            found,
        ),
{
    let path = path_of(idx, ".execution.command");
    match &job.execution.command {
        None => {
            add_error(
                out,
                true,
                &job.id,
                "execution.command_missing",
                "execution.command is required".to_owned(),
                path,
            );
        },
        Some(cmd) => {
            if trim(cmd.as_str()).is_empty() {
                add_error(
                    out,
                    true,
                    &job.id,
                    "execution.command_missing",
                    "execution.command is empty".to_owned(),
                    path,
                );
            } else {
                let shown = quoted(cmd.as_str());
                proof {
                    reveal_strlit("");
                    assert("command not found on this machine: "@ + shown@ + ""@
                        =~= "command not found on this machine: "@ + shown@);
                }
                add_warning(
                    out,
                    !found,
                    &job.id,
                    "execution.not_found",
                    with_text("command not found on this machine: ", shown.as_str(), ""),
                    path,
                );
            }
        },
    }
}

fn check_timeout(idx: usize, job: &RawJob, out: &mut Vec<Diagnostic>)
    ensures
        diagnostics::diagnostic_views(final(out)@) == diagnostics::diagnostic_views(old(out)@)
            + timeout_findings(idx as int, text::opt_view(job.id), text::opt_view(job.timeout)),
{
    match &job.timeout {
        None => {
            assert(diagnostics::diagnostic_views(out@) + Seq::empty()
                =~= diagnostics::diagnostic_views(out@));
        },
        Some(t) => {
            let path = path_of(idx, ".timeout");
            let shown = quoted(t.as_str());
            match parse_duration(t.as_str()) {
                Err(_) => {
                    proof {
                        reveal_strlit("");
                        assert("invalid duration: "@ + shown@ + ""@ =~= "invalid duration: "@
                            + shown@);
                    }
                    add_error(
                        out,
                        true,
                        &job.id,
                        "duration.invalid",
                        with_text("invalid duration: ", shown.as_str(), ""),
                        path,
                    );
                },
                Ok(secs) => {
                    add_warning(
                        out,
                        secs > VERY_LONG_TIMEOUT_SECS,
                        &job.id,
                        "timeout.very_long",
                        with_text("timeout ", shown.as_str(), " exceeds 24h"),
                        path,
                    );
                },
            }
        },
    }
}

fn check_retry(idx: usize, job: &RawJob, out: &mut Vec<Diagnostic>)
    ensures
        diagnostics::diagnostic_views(final(out)@) == diagnostics::diagnostic_views(old(out)@)
            + retry_findings(idx as int, text::opt_view(job.id), config::retries_of(job.retry)),
{
    let ghost start = diagnostics::diagnostic_views(out@);
    if let Some(retry) = &job.retry {
        if let Some(n) = retry.max_retries {
            add_error(
                out,
                n < 0,
                &job.id,
                "field.type",
                "retry.max_retries must be >= 0".to_owned(),
                path_of(idx, ".retry.max_retries"),
            );
            return;
        }
    }
    assert(start + Seq::empty() =~= start);
}

/// Reports what is wrong with the job at `idx` apart from its schedule. `found` says whether
/// the machine has the job's command.
pub fn check_job(idx: usize, job: &RawJob, found: bool, out: &mut Vec<Diagnostic>)
    ensures
        diagnostics::diagnostic_views(final(out)@) == diagnostics::diagnostic_views(old(out)@)
            + job_findings(idx as int, *job, found),
{
    let ghost start = diagnostics::diagnostic_views(out@);
    check_id(idx, job, out);
    check_command(idx, job, found, out);
    check_timeout(idx, job, out);
    check_retry(idx, job, out);
    proof {
        let id = text::opt_view(job.id);
        let a = id_findings(idx as int, id);
        let b = command_findings(idx as int, id, text::opt_view(job.execution.command), found);
        let c = timeout_findings(idx as int, id, text::opt_view(job.timeout));
        let d = retry_findings(idx as int, id, config::retries_of(job.retry));
        let none = Seq::<diagnostics::DiagnosticView>::empty();
        lemma_chain(start, a, b, c, d, none, none);
        assert(start + a + b + c + d + none + none =~= start + a + b + c + d);
        assert(a + b + c + d + none + none =~= a + b + c + d);
    }
}

// --------------------------------------------------------------------------- configs

/// Whether an earlier job has the id of the job at `idx`.
pub open spec fn repeats_id(jobs: Seq<RawJob>, idx: int) -> bool {
    jobs[idx].id is Some && exists|j: int|
        0 <= j < idx && text::opt_view(#[trigger] jobs[j].id) == text::opt_view(jobs[idx].id)
}

pub open spec fn duplicate_findings(
    jobs: Seq<RawJob>,
    idx: int,
) -> Seq<diagnostics::DiagnosticView> {
    match jobs[idx].id {
        Some(id) => error_when(
            repeats_id(jobs, idx),
            Some(id@),
            "job.id_duplicate"@,
            "duplicate job id: "@ + text::debug_text(id@),
            job_path(idx, ".id"@),
        ),
        None => Seq::empty(),
    }
}

pub open spec fn version_findings(version: u32) -> Seq<diagnostics::DiagnosticView> {
    error_when(
        version != 1,
        None,
        "version.unsupported"@,
        "unsupported config version: "@ + text::decimal(version as nat),
        "version"@,
    )
}

/// What is wrong with the first `n` jobs, in order.
pub open spec fn jobs_findings(
    jobs: Seq<RawJob>,
    found: Seq<bool>,
    n: int,
) -> Seq<diagnostics::DiagnosticView>
    decreases n,
{
    if n <= 0 {
        Seq::empty()
    } else {
        jobs_findings(jobs, found, n - 1) + schedule_findings(n - 1, jobs[n - 1]) + job_findings(
            n - 1,
            jobs[n - 1],
            found[n - 1],
        ) + duplicate_findings(jobs, n - 1)
    }
}

/// All that is wrong with a config. `found` says of each job whether the machine has its
/// command.
pub open spec fn config_findings(
    config: RawConfig,
    found: Seq<bool>,
) -> Seq<diagnostics::DiagnosticView> {
    version_findings(config.version) + jobs_findings(
        config.jobs@,
        found,
        config.jobs@.len() as int,
    )
}

fn id_repeated(jobs: &Vec<RawJob>, idx: usize, id: &String) -> (r: bool)
    requires
        idx < jobs@.len(),
        text::opt_view(jobs@[idx as int].id) == Some(id@),
    ensures
        r == repeats_id(jobs@, idx as int),
{
    let mut j: usize = 0;
    while j < idx
        invariant
            idx < jobs@.len(),
            j <= idx,
            text::opt_view(jobs@[idx as int].id) == Some(id@),
            forall|k: int| 0 <= k < j ==> text::opt_view(#[trigger] jobs@[k].id) != Some(id@),
        decreases idx - j,
    {
        if let Some(other) = &jobs[j].id {
            if same(other.as_str(), id.as_str()) {
                assert(text::opt_view(jobs@[j as int].id) == Some(id@));
                return true;
            }
        }
        j += 1;
    }
    false
}

fn check_duplicate(jobs: &Vec<RawJob>, idx: usize, out: &mut Vec<Diagnostic>)
    requires
        idx < jobs@.len(),
    ensures
        diagnostics::diagnostic_views(final(out)@) == diagnostics::diagnostic_views(old(out)@)
            + duplicate_findings(jobs@, idx as int),
{
    match &jobs[idx].id {
        Some(id) => {
            let shown = quoted(id.as_str());
            proof {
                reveal_strlit("");
                assert("duplicate job id: "@ + shown@ + ""@ =~= "duplicate job id: "@ + shown@);
            }
            add_error(
                out,
                id_repeated(jobs, idx, id),
                &jobs[idx].id,
                "job.id_duplicate",
                with_text("duplicate job id: ", shown.as_str(), ""),
                path_of(idx, ".id"),
            );
        },
        None => {
            assert(diagnostics::diagnostic_views(out@) + Seq::empty()
                =~= diagnostics::diagnostic_views(out@));
        },
    }
}

/// Runs every check over a config and reports all findings. `found` says of each job whether
/// the machine has its command.
pub fn validate_config(config: &RawConfig, found: &Vec<bool>) -> (out: Vec<Diagnostic>)
    requires
        found@.len() == config.jobs@.len(),
    ensures
        diagnostics::diagnostic_views(out@) == config_findings(*config, found@),
{
    let mut out: Vec<Diagnostic> = Vec::new();
    let mut message = "unsupported config version: ".to_owned();
    push_decimal(&mut message, config.version as u64);
    add_error(
        &mut out,
        config.version != 1,
        &None,
        "version.unsupported",
        message,
        "version".to_owned(),
    );
    let ghost version = version_findings(config.version);
    let ghost none = Seq::<diagnostics::DiagnosticView>::empty();
    assert(diagnostics::diagnostic_views(out@) =~= version + none);
    let mut i: usize = 0;
    while i < config.jobs.len()
        invariant
            i <= config.jobs@.len(),
            found@.len() == config.jobs@.len(),
            diagnostics::diagnostic_views(out@) == version + jobs_findings(
                config.jobs@,
                found@,
                i as int,
            ),
        decreases config.jobs.len() - i,
    {
        let job = &config.jobs[i];
        check_schedule(i, job, &mut out);
        check_job(i, job, found[i], &mut out);
        check_duplicate(&config.jobs, i, &mut out);
        proof {
            let none = Seq::<diagnostics::DiagnosticView>::empty();
            let a = jobs_findings(config.jobs@, found@, i as int);
            let b = schedule_findings(i as int, *job);
            let c = job_findings(i as int, *job, found@[i as int]);
            let d = duplicate_findings(config.jobs@, i as int);
            lemma_chain(version, a, b, c, d, none, none);
            assert(version + a + b + c + d + none + none =~= version + a + b + c + d);
            assert(a + b + c + d + none + none =~= a + b + c + d);
        }
        i += 1;
    }
    out
}

// ------------------------------------------------------------------------------ laws

/// Whether a schedule can be computed with: an interval that divides the hour or the day, days
/// that come up and a time of day, or a well-formed cron expression.
pub open spec fn sound_schedule(s: config::ScheduleView) -> bool {
    match s {
        config::ScheduleView::MinuteAligned { every_minutes } => every_minutes > 0 && 60int % (
        every_minutes as int) == 0,
        config::ScheduleView::HourAligned { every_hours } => every_hours > 0 && 24int % (
        every_hours as int) == 0,
        config::ScheduleView::Calendar { days, at, .. } => scheduler::schedulable(days)
            && valid_hhmm(at),
        config::ScheduleView::Cron { expression, .. } => cron::cron_valid(expression),
    }
}

proof fn lemma_midnight()
    ensures
        valid_hhmm("00:00"@),
{
    let at = "00:00"@;
    reveal_strlit("00:00");
    text::lemma_find(at, ':');
    assert(at[2] == ':');
    assert(text::find(at, ':') == Some(2nat));
    let h = at.take(2);
    let m = at.skip(3);
    assert(h =~= seq!['0', '0']);
    assert(m =~= seq!['0', '0']);
    let z = seq!['0', '0'];
    assert(z.drop_last() =~= seq!['0']);
    assert(seq!['0'].drop_last() =~= Seq::<char>::empty());
    assert(text::number(Seq::<char>::empty()) == 0);
    assert(text::number(seq!['0']) == 0);
    assert(text::number(z) == 0);
    assert(text::all_digits(z));
}

/// A list with a day keyword in it makes a schedule that fires.
proof fn lemma_keyword_schedulable(days: Seq<Seq<char>>, i: int)
    requires
        0 <= i < days.len(),
        config::is_day_keyword(days[i]),
    ensures
        scheduler::schedulable(days),
{
    let w = days[i];
    reveal_strlit("day");
    reveal_strlit("weekday");
    reveal_strlit("month");
    assert("day"@.len() == 3 && "weekday"@.len() == 7 && "month"@.len() == 5);
    if w == "month"@ {
        assert(days.contains("month"@));
    } else if w == "day"@ || w == "weekday"@ {
        assert(scheduler::keyword_covers(days[i], crate::calendar::Weekday::Mon));
        assert(scheduler::fires_on(days, crate::calendar::Weekday::Mon));
    } else {
        match scheduler::weekday_named(w) {
            Some(day) => {
                assert(scheduler::keyword_covers(days[i], day));
                assert(scheduler::fires_on(days, day));
            },
            None => {},
        }
    }
}

/// The keywords among tokens are day keywords.
proof fn lemma_day_keywords(tokens: Seq<Seq<char>>)
    ensures
        ({
            let days = tokens.filter_map(|t: Seq<char>| config::day_keyword(t));
            forall|i: int| 0 <= i < days.len() ==> config::is_day_keyword(#[trigger] days[i])
        }),
    decreases tokens.len(),
{
    let f = |t: Seq<char>| config::day_keyword(t);
    let days = tokens.filter_map(f);
    if tokens.len() > 0 {
        lemma_day_keywords(tokens.drop_last());
        let head = tokens.drop_last().filter_map(f);
        assert forall|i: int| 0 <= i < days.len() implies config::is_day_keyword(
            #[trigger] days[i],
        ) by {
            if i < head.len() {
                assert(days[i] == head[i]);
            }
        }
    }
}

/// Tokens without findings: each one is an interval that divides, or a day keyword.
proof fn lemma_clean_token(base: Seq<char>, id: Option<Seq<char>>, tokens: Seq<Seq<char>>, i: int)
    requires
        tokens_findings(base, id, tokens).len() == 0,
        0 <= i < tokens.len(),
    ensures
        token_findings(base, id, tokens[i]).len() == 0,
    decreases tokens.len(),
{
    if i < tokens.len() - 1 {
        lemma_clean_token(base, id, tokens.drop_last(), i);
    }
}

/// A schedule without findings normalizes to one that can be computed with, in any zone.
pub proof fn lemma_validated_schedule_is_sound(
    idx: int,
    job: RawJob,
    timezone: Option<Seq<char>>,
)
    requires
        schedule_findings(idx, job).len() == 0,
    ensures
        sound_schedule(config::normalized_schedule(job.schedule, timezone)),
{
    let base = job_path(idx, ".schedule"@);
    let id = text::opt_view(job.id);
    let raw = job.schedule;
    assert(every_findings(base, id, raw.every).len() == 0);
    assert(at_findings(base, id, text::opt_view(raw.at)).len() == 0);
    assert(cron_findings(base, id, text::opt_view(raw.cron)).len() == 0);
    lemma_midnight();
    let at = match raw.at {
        Some(at) => at@,
        None => "00:00"@,
    };
    assert(valid_hhmm(at));
    assert(config::is_day_keyword("day"@));
    lemma_keyword_schedulable(seq!["day"@], 0);
    match (raw.cron, raw.every) {
        (None, Some(every)) => {
            let tokens = config::every_tokens(every);
            if tokens.len() == 1 {
                lemma_clean_token(base, id, tokens, 0);
                match config::every_interval(tokens[0]) {
                    Some(config::IntervalView::Named(w)) => {
                        lemma_keyword_schedulable(seq![w], 0);
                    },
                    _ => {},
                }
            } else {
                lemma_day_keywords(tokens);
                let days = tokens.filter_map(|t: Seq<char>| config::day_keyword(t));
                if days.len() > 0 {
                    lemma_keyword_schedulable(days, 0);
                }
            }
        },
        _ => {},
    }
}

/// The findings about the first jobs do not depend on the jobs after them.
proof fn lemma_later_jobs_do_not_count(
    jobs: Seq<RawJob>,
    more: Seq<RawJob>,
    found: Seq<bool>,
    more_found: Seq<bool>,
    n: int,
)
    requires
        0 <= n <= jobs.len() <= more.len(),
        found.len() == jobs.len(),
        jobs.is_prefix_of(more),
        found.is_prefix_of(more_found),
    ensures
        jobs_findings(more, more_found, n) == jobs_findings(jobs, found, n),
    decreases n,
{
    if n > 0 {
        lemma_later_jobs_do_not_count(jobs, more, found, more_found, n - 1);
        assert forall|i: int| 0 <= i < jobs.len() implies jobs[i] == more[i] by {
            assert(jobs[i] == more.subrange(0, jobs.len() as int)[i]);
        }
        assert(found[n - 1] == more_found.subrange(0, found.len() as int)[n - 1]);
        assert(repeats_id(jobs, n - 1) == repeats_id(more, n - 1));
    }
}

/// A further job only adds findings about itself, after those of the other jobs.
pub proof fn lemma_further_job_appends(
    config: RawConfig,
    longer: RawConfig,
    job: RawJob,
    found: Seq<bool>,
    job_found: bool,
)
    requires
        longer.version == config.version,
        longer.jobs@ == config.jobs@.push(job),
        found.len() == config.jobs@.len(),
    ensures
        ({
            let n = config.jobs@.len() as int;
            config_findings(longer, found.push(job_found)) == config_findings(config, found)
                + schedule_findings(n, job) + job_findings(n, job, job_found) + duplicate_findings(
                longer.jobs@,
                n,
            )
        }),
        config_findings(config, found).is_prefix_of(config_findings(longer, found.push(job_found))),
{
    let n = config.jobs@.len() as int;
    let (jobs, more) = (config.jobs@, longer.jobs@);
    let more_found = found.push(job_found);
    assert(more.subrange(0, n) =~= jobs);
    assert(more_found.subrange(0, n) =~= found);
    lemma_later_jobs_do_not_count(jobs, more, found, more_found, n);
    assert(more[n] == job && more_found[n] == job_found);
    lemma_findings_regroup(
        version_findings(config.version),
        jobs_findings(jobs, found, n),
        schedule_findings(n, job),
        job_findings(n, job, job_found),
        duplicate_findings(more, n),
    );
}

proof fn lemma_findings_regroup(
    a: Seq<diagnostics::DiagnosticView>,
    b: Seq<diagnostics::DiagnosticView>,
    c: Seq<diagnostics::DiagnosticView>,
    d: Seq<diagnostics::DiagnosticView>,
    e: Seq<diagnostics::DiagnosticView>,
)
    ensures
        a + (b + c + d + e) == (a + b) + c + d + e,
        (a + b).is_prefix_of((a + b) + c + d + e),
{
    let whole = (a + b) + c + d + e;
    assert(a + (b + c + d + e) =~= whole);
    assert(whole.subrange(0, (a + b).len() as int) =~= a + b);
}

/// A config of version 1 without jobs has no findings.
pub proof fn lemma_empty_config_is_clean(config: RawConfig)
    requires
        config.version == 1,
        config.jobs@.len() == 0,
    ensures
        config_findings(config, Seq::empty()).len() == 0,
{
}

/// Two jobs of the same id are always reported: the later one gets an error.
pub proof fn lemma_duplicate_is_reported(jobs: Seq<RawJob>, found: Seq<bool>, i: int, j: int, n: int)
    requires
        0 <= i < j < n <= jobs.len(),
        jobs[j].id is Some,
        text::opt_view(jobs[i].id) == text::opt_view(jobs[j].id),
    ensures
        exists|k: int|
            0 <= k < jobs_findings(jobs, found, n).len() && (#[trigger] jobs_findings(
                jobs,
                found,
                n,
            )[k]).code == "job.id_duplicate"@ && jobs_findings(jobs, found, n)[k].path == job_path(
                j,
                ".id"@,
            ),
    decreases n,
{
    let all = jobs_findings(jobs, found, n);
    let head = jobs_findings(jobs, found, n - 1);
    if j < n - 1 {
        lemma_duplicate_is_reported(jobs, found, i, j, n - 1);
        let k = choose|k: int|
            0 <= k < head.len() && (#[trigger] head[k]).code == "job.id_duplicate"@ && head[k].path
                == job_path(j, ".id"@);
        assert(all[k] == head[k]);
    } else {
        assert(text::opt_view(jobs[i].id) == text::opt_view(jobs[j].id));
        assert(repeats_id(jobs, j));
        let k = all.len() - 1;
        assert(duplicate_findings(jobs, j).len() == 1);
        assert(all[k] == duplicate_findings(jobs, j)[0]);
    }
}

} // verus!
