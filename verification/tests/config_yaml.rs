use std::collections::BTreeMap;
use std::fmt;

use periodic::commands::{
    find_job, finish_edit, load_validated_config, no_such_job, plan_add, plan_run, run_jobs_add, run_jobs_list,
    run_jobs_run, run_jobs_status, run_reload, run_validate, ReloadStep,
};
use periodic::cli::{JobsAddArgs, OutputFormat};
use periodic::config::{
    normalize, parse_duration, Every, MissedRunPolicy, NormalizedSchedule, OverlapPolicy, RawConfig, RawDefaults,
    RawExecution, RawJob, RawRetry, RawSchedule,
};
use periodic::config_mutation::{apply, save_refusal, Mutation, Outcome};
use periodic::diagnostics::Diagnostic;
use periodic::executor::{RunOutcome, RunStatus};
use periodic::jobs_edit::{
    render_header, run_edit_loop, start_edit, strip_header, validate_yaml, EditAction, EditEvent,
    EditResult,
};
use periodic::schedule_table::{project, ScheduleTable};
use periodic::state::{JobStateRow, Stamp};
use periodic::validation::validate_config;
use serde::de::{Deserialize, Deserializer, Error, MapAccess, SeqAccess, Visitor};

// ---------------------------------------------------------------- decoding the raw schema

struct Config(RawConfig);
struct Defaults(RawDefaults);
struct Job(RawJob);
struct Schedule(RawSchedule);
struct Execution(RawExecution);
struct Retry(RawRetry);
struct Tokens(Every);

struct ConfigVisitor;
struct DefaultsVisitor;
struct JobVisitor;
struct ScheduleVisitor;
struct ExecutionVisitor;
struct RetryVisitor;
struct TokensVisitor;

const CONFIG_FIELDS: &[&str] = &["version", "defaults", "jobs"];
const DEFAULTS_FIELDS: &[&str] = &[
    "timezone",
    "timeout",
    "overlap_policy",
    "missed_run_policy",
    "retry",
];
const JOB_FIELDS: &[&str] = &[
    "id",
    "title",
    "enabled",
    "schedule",
    "execution",
    "timeout",
    "missed_run_policy",
    "overlap_policy",
    "retry",
    "tags",
    "metadata",
];
const SCHEDULE_FIELDS: &[&str] = &["every", "at", "on_day", "last_day", "cron", "timezone"];
const EXECUTION_FIELDS: &[&str] = &["command", "args", "cwd"];
const RETRY_FIELDS: &[&str] = &["max_retries"];

impl<'de> Deserialize<'de> for Config {
    fn deserialize<D: Deserializer<'de>>(d: D) -> Result<Self, D::Error> {
        d.deserialize_struct("RawConfig", CONFIG_FIELDS, ConfigVisitor)
    }
}

impl<'de> Visitor<'de> for ConfigVisitor {
    type Value = Config;

    fn expecting(&self, f: &mut fmt::Formatter) -> fmt::Result {
        f.write_str("struct RawConfig")
    }

    fn visit_map<A: MapAccess<'de>>(self, mut map: A) -> Result<Config, A::Error> {
        let mut version: Option<u32> = None;
        let mut defaults: Option<RawDefaults> = None;
        let mut jobs: Option<Vec<RawJob>> = None;
        while let Some(key) = map.next_key::<String>()? {
            match key.as_str() {
                "version" => version = Some(map.next_value()?),
                "defaults" => defaults = map.next_value::<Option<Defaults>>()?.map(|d| d.0),
                "jobs" => {
                    jobs = Some(map.next_value::<Vec<Job>>()?.into_iter().map(|j| j.0).collect())
                }
                other => return Err(A::Error::unknown_field(other, CONFIG_FIELDS)),
            }
        }
        Ok(Config(RawConfig {
            version: version.ok_or_else(|| A::Error::missing_field("version"))?,
            defaults,
            jobs: jobs.ok_or_else(|| A::Error::missing_field("jobs"))?,
        }))
    }
}

impl<'de> Deserialize<'de> for Defaults {
    fn deserialize<D: Deserializer<'de>>(d: D) -> Result<Self, D::Error> {
        d.deserialize_struct("RawDefaults", DEFAULTS_FIELDS, DefaultsVisitor)
    }
}

impl<'de> Visitor<'de> for DefaultsVisitor {
    type Value = Defaults;

    fn expecting(&self, f: &mut fmt::Formatter) -> fmt::Result {
        f.write_str("struct RawDefaults")
    }

    fn visit_map<A: MapAccess<'de>>(self, mut map: A) -> Result<Defaults, A::Error> {
        let mut out = RawDefaults {
            timezone: None,
            timeout: None,
            overlap_policy: None,
            missed_run_policy: None,
            retry: None,
        };
        while let Some(key) = map.next_key::<String>()? {
            match key.as_str() {
                "timezone" => out.timezone = map.next_value()?,
                "timeout" => out.timeout = map.next_value()?,
                "overlap_policy" => out.overlap_policy = map.next_value()?,
                "missed_run_policy" => out.missed_run_policy = map.next_value()?,
                "retry" => out.retry = map.next_value::<Option<Retry>>()?.map(|r| r.0),
                other => return Err(A::Error::unknown_field(other, DEFAULTS_FIELDS)),
            }
        }
        Ok(Defaults(out))
    }
}

impl<'de> Deserialize<'de> for Job {
    fn deserialize<D: Deserializer<'de>>(d: D) -> Result<Self, D::Error> {
        d.deserialize_struct("RawJob", JOB_FIELDS, JobVisitor)
    }
}

impl<'de> Visitor<'de> for JobVisitor {
    type Value = Job;

    fn expecting(&self, f: &mut fmt::Formatter) -> fmt::Result {
        f.write_str("struct RawJob")
    }

    fn visit_map<A: MapAccess<'de>>(self, mut map: A) -> Result<Job, A::Error> {
        let mut id: Option<String> = None;
        let mut title: Option<String> = None;
        let mut enabled: Option<bool> = None;
        let mut schedule: Option<RawSchedule> = None;
        let mut execution: Option<RawExecution> = None;
        let mut timeout: Option<String> = None;
        let mut missed_run_policy: Option<String> = None;
        let mut overlap_policy: Option<String> = None;
        let mut retry: Option<RawRetry> = None;
        let mut tags: Vec<String> = Vec::new();
        let mut metadata: BTreeMap<String, String> = BTreeMap::new();
        while let Some(key) = map.next_key::<String>()? {
            match key.as_str() {
                "id" => id = map.next_value()?,
                "title" => title = map.next_value()?,
                "enabled" => enabled = map.next_value()?,
                "schedule" => schedule = Some(map.next_value::<Schedule>()?.0),
                "execution" => execution = Some(map.next_value::<Execution>()?.0),
                "timeout" => timeout = map.next_value()?,
                "missed_run_policy" => missed_run_policy = map.next_value()?,
                "overlap_policy" => overlap_policy = map.next_value()?,
                "retry" => retry = map.next_value::<Option<Retry>>()?.map(|r| r.0),
                "tags" => tags = map.next_value()?,
                "metadata" => metadata = map.next_value()?,
                other => return Err(A::Error::unknown_field(other, JOB_FIELDS)),
            }
        }
        Ok(Job(RawJob {
            id,
            title,
            enabled,
            schedule: schedule.ok_or_else(|| A::Error::missing_field("schedule"))?,
            execution: execution.ok_or_else(|| A::Error::missing_field("execution"))?,
            timeout,
            missed_run_policy,
            overlap_policy,
            retry,
            tags,
            metadata,
        }))
    }
}

impl<'de> Deserialize<'de> for Schedule {
    fn deserialize<D: Deserializer<'de>>(d: D) -> Result<Self, D::Error> {
        d.deserialize_struct("RawSchedule", SCHEDULE_FIELDS, ScheduleVisitor)
    }
}

impl<'de> Visitor<'de> for ScheduleVisitor {
    type Value = Schedule;

    fn expecting(&self, f: &mut fmt::Formatter) -> fmt::Result {
        f.write_str("struct RawSchedule")
    }

    fn visit_map<A: MapAccess<'de>>(self, mut map: A) -> Result<Schedule, A::Error> {
        let mut out = RawSchedule {
            every: None,
            at: None,
            on_day: None,
            last_day: None,
            cron: None,
            timezone: None,
        };
        while let Some(key) = map.next_key::<String>()? {
            match key.as_str() {
                "every" => out.every = map.next_value::<Option<Tokens>>()?.map(|t| t.0),
                "at" => out.at = map.next_value()?,
                "on_day" => out.on_day = map.next_value()?,
                "last_day" => out.last_day = map.next_value()?,
                "cron" => out.cron = map.next_value()?,
                "timezone" => out.timezone = map.next_value()?,
                other => return Err(A::Error::unknown_field(other, SCHEDULE_FIELDS)),
            }
        }
        Ok(Schedule(out))
    }
}

impl<'de> Deserialize<'de> for Execution {
    fn deserialize<D: Deserializer<'de>>(d: D) -> Result<Self, D::Error> {
        d.deserialize_struct("RawExecution", EXECUTION_FIELDS, ExecutionVisitor)
    }
}

impl<'de> Visitor<'de> for ExecutionVisitor {
    type Value = Execution;

    fn expecting(&self, f: &mut fmt::Formatter) -> fmt::Result {
        f.write_str("struct RawExecution")
    }

    fn visit_map<A: MapAccess<'de>>(self, mut map: A) -> Result<Execution, A::Error> {
        let mut out = RawExecution {
            command: None,
            args: Vec::new(),
            cwd: None,
        };
        while let Some(key) = map.next_key::<String>()? {
            match key.as_str() {
                "command" => out.command = map.next_value()?,
                "args" => out.args = map.next_value()?,
                "cwd" => out.cwd = map.next_value()?,
                other => return Err(A::Error::unknown_field(other, EXECUTION_FIELDS)),
            }
        }
        Ok(Execution(out))
    }
}

impl<'de> Deserialize<'de> for Retry {
    fn deserialize<D: Deserializer<'de>>(d: D) -> Result<Self, D::Error> {
        d.deserialize_struct("RawRetry", RETRY_FIELDS, RetryVisitor)
    }
}

impl<'de> Visitor<'de> for RetryVisitor {
    type Value = Retry;

    fn expecting(&self, f: &mut fmt::Formatter) -> fmt::Result {
        f.write_str("struct RawRetry")
    }

    fn visit_map<A: MapAccess<'de>>(self, mut map: A) -> Result<Retry, A::Error> {
        let mut out = RawRetry { max_retries: None };
        while let Some(key) = map.next_key::<String>()? {
            match key.as_str() {
                "max_retries" => out.max_retries = map.next_value()?,
                other => return Err(A::Error::unknown_field(other, RETRY_FIELDS)),
            }
        }
        Ok(Retry(out))
    }
}

impl<'de> Deserialize<'de> for Tokens {
    fn deserialize<D: Deserializer<'de>>(d: D) -> Result<Self, D::Error> {
        d.deserialize_any(TokensVisitor)
    }
}

impl<'de> Visitor<'de> for TokensVisitor {
    type Value = Tokens;

    fn expecting(&self, f: &mut fmt::Formatter) -> fmt::Result {
        f.write_str("a token or a list of tokens")
    }

    fn visit_str<E: Error>(self, s: &str) -> Result<Tokens, E> {
        Ok(Tokens(Every::One(s.to_owned())))
    }

    fn visit_seq<A: SeqAccess<'de>>(self, mut seq: A) -> Result<Tokens, A::Error> {
        let mut out: Vec<String> = Vec::new();
        while let Some(s) = seq.next_element::<String>()? {
            out.push(s);
        }
        Ok(Tokens(Every::Many(out)))
    }
}

fn parse(yaml: &str) -> Result<RawConfig, Diagnostic> {
    periodic::parse::parse(serde_saphyr::from_str::<Config>(yaml).map(|c| c.0))
}

fn not_found(config: &RawConfig) -> Vec<bool> {
    config.jobs.iter().map(|_| false).collect()
}

fn diagnose(config: &RawConfig) -> Vec<Diagnostic> {
    validate_config(config, &not_found(config))
}

fn codes(yaml: &str) -> Vec<&'static str> {
    diagnose(&parse(yaml).unwrap()).into_iter().map(|d| d.code).collect()
}

// ------------------------------------------------------------------------------- parsing

#[test]
fn parses_minimal_config() {
    let raw = parse("version: 1\njobs:\n  - schedule:\n      every: 15m\n    execution:\n      command: ~/bin/x.sh\n").unwrap();
    assert_eq!(raw.version, 1);
    assert_eq!(raw.jobs.len(), 1);
}

#[test]
fn malformed_yaml_is_syntax_error() {
    let d = parse("version: 1\njobs: [unclosed").unwrap_err();
    assert_eq!(d.code, "yaml.syntax");
}

#[test]
fn unknown_field_rejected() {
    let d = parse("version: 1\nbogus: true\njobs: []\n").unwrap_err();
    assert_eq!(d.code, "field.unknown");
    assert!(d.path.contains("bogus"));
}

#[test]
fn missing_required_field() {
    let d = parse("jobs: []\n").unwrap_err();
    assert_eq!(d.code, "field.missing");
    assert_eq!(d.path, "version");
}

#[test]
fn missing_field_message_names_the_field() {
    let d = parse("jobs: []\n").unwrap_err();
    assert_eq!(d.message, "missing field `version`");
}

#[test]
fn type_mismatch_is_type_error() {
    let d = parse("version: \"a string\"\njobs: []\n").unwrap_err();
    assert_eq!(d.code, "field.type");
    assert_eq!(d.path, ".");
}

#[test]
fn errors_are_placed_in_the_file() {
    let d = parse("version: 1\nbogus: true\njobs: []\n").unwrap_err();
    assert_eq!(d.line, Some(2));
    assert!(d.column.is_some());
}

// -------------------------------------------------------------------------- normalization

#[test]
fn minute_schedule_normalizes_and_defaults_apply() {
    let raw = parse("version: 1\ndefaults: { timeout: 10m }\njobs:\n  - id: j\n    schedule: { every: 15m }\n    execution: { command: x }\n").unwrap();
    let eff = normalize(&raw);
    let job = &eff.jobs[0];
    assert!(matches!(
        job.schedule,
        NormalizedSchedule::MinuteAligned { every_minutes: 15 }
    ));
    assert_eq!(job.timeout_secs, Some(600));
    assert!(job.enabled);
}

#[test]
fn job_override_beats_top_level_default() {
    let raw = parse("version: 1\ndefaults: { timeout: 10m }\njobs:\n  - schedule: { every: day, at: \"09:00\" }\n    execution: { command: x }\n    timeout: 30m\n").unwrap();
    let eff = normalize(&raw);
    assert_eq!(eff.jobs[0].timeout_secs, Some(1800));
}

#[test]
fn cron_schedule_normalizes() {
    let raw = parse("version: 1\njobs:\n  - schedule: { cron: \"0 9 * * 1-5\" }\n    execution: { command: x }\n").unwrap();
    let eff = normalize(&raw);
    assert!(matches!(
        &eff.jobs[0].schedule,
        NormalizedSchedule::Cron { expression, .. } if expression == "0 9 * * 1-5"
    ));
}

#[test]
fn daily_calendar_schedule_normalizes() {
    let raw = parse("version: 1\njobs:\n  - schedule: { every: day, at: \"08:00\" }\n    execution: { command: x }\n").unwrap();
    let eff = normalize(&raw);
    assert!(matches!(
        &eff.jobs[0].schedule,
        NormalizedSchedule::Calendar { days, at, .. }
            if days == &["day"] && at == "08:00"
    ));
}

#[test]
fn built_in_defaults_apply_when_no_top_level_defaults() {
    let raw = parse(
        "version: 1\njobs:\n  - schedule: { every: 30m }\n    execution: { command: x }\n",
    )
    .unwrap();
    let eff = normalize(&raw);
    let job = &eff.jobs[0];
    assert!(job.enabled);
    assert_eq!(job.timeout_secs, None);
    assert_eq!(job.overlap_policy, OverlapPolicy::Skip);
    assert_eq!(job.missed_run_policy, MissedRunPolicy::Skip);
    assert_eq!(job.max_retries, 0);
}

#[test]
fn hour_aligned_schedule_normalizes() {
    let raw = parse(
        "version: 1\njobs:\n  - schedule: { every: 2h }\n    execution: { command: x }\n",
    )
    .unwrap();
    let eff = normalize(&raw);
    assert!(matches!(
        eff.jobs[0].schedule,
        NormalizedSchedule::HourAligned { every_hours: 2 }
    ));
}

#[test]
fn monthly_schedule_normalizes_to_calendar_with_on_day() {
    let raw = parse(
        "version: 1\njobs:\n  - schedule: { every: month, on_day: 15, at: \"09:00\" }\n    execution: { command: x }\n",
    )
    .unwrap();
    let eff = normalize(&raw);
    assert!(matches!(
        &eff.jobs[0].schedule,
        NormalizedSchedule::Calendar { days, at, on_day, last_day, .. }
            if days == &["month"] && at == "09:00" && *on_day == Some(15) && !last_day
    ));
}

#[test]
fn multiple_weekday_schedule_normalizes_to_calendar_with_all_days() {
    let raw = parse(
        "version: 1\njobs:\n  - schedule:\n      every: [monday, wednesday, friday]\n      at: \"09:00\"\n    execution: { command: x }\n",
    )
    .unwrap();
    let eff = normalize(&raw);
    assert!(matches!(
        &eff.jobs[0].schedule,
        NormalizedSchedule::Calendar { days, at, .. }
            if days == &["monday", "wednesday", "friday"] && at == "09:00"
    ));
}

#[test]
fn retries_merge_through_the_defaults() {
    let raw = parse(
        "version: 1\ndefaults: { retry: { max_retries: 4 } }\njobs:\n  - schedule: { every: 1h }\n    execution: { command: x }\n  - schedule: { every: 1h }\n    execution: { command: x }\n    retry: { max_retries: 1 }\n",
    )
    .unwrap();
    let eff = normalize(&raw);
    assert_eq!(eff.jobs[0].max_retries, 4);
    assert_eq!(eff.jobs[1].max_retries, 1);
}

// ----------------------------------------------------------------------------- validation

#[test]
fn non_divisor_minute_is_error() {
    let c = codes(
        "version: 1\njobs:\n  - schedule: { every: 45m }\n    execution: { command: x }\n",
    );
    assert!(c.contains(&"schedule.non_divisor"));
}

#[test]
fn divisor_minute_is_clean() {
    let c = codes(
        "version: 1\njobs:\n  - schedule: { every: 15m }\n    execution: { command: x }\n",
    );
    assert!(!c.contains(&"schedule.non_divisor"));
}

#[test]
fn bad_cron_is_error() {
    let c = codes(
        "version: 1\njobs:\n  - schedule: { cron: \"not a cron\" }\n    execution: { command: x }\n",
    );
    assert!(c.contains(&"schedule.cron_invalid"));
}

#[test]
fn unknown_timezone_is_error() {
    let c = codes(
        "version: 1\njobs:\n  - schedule: { every: day, at: \"09:00\", timezone: Mars/Phobos }\n    execution: { command: x }\n",
    );
    assert!(c.contains(&"schedule.timezone_invalid"));
}

#[test]
fn every_and_cron_both_set_is_invalid() {
    let c = codes(
        "version: 1\njobs:\n  - schedule: { every: day, cron: \"0 9 * * *\" }\n    execution: { command: x }\n",
    );
    assert!(c.contains(&"schedule.invalid"));
}

#[test]
fn unsupported_version() {
    let c = codes("version: 2\njobs: []\n");
    assert!(c.contains(&"version.unsupported"));
}

#[test]
fn duplicate_id() {
    let c = codes(
        "version: 1\njobs:\n  - id: a\n    schedule: { every: day, at: \"09:00\" }\n    execution: { command: x }\n  - id: a\n    schedule: { every: day, at: \"09:00\" }\n    execution: { command: y }\n",
    );
    assert!(c.contains(&"job.id_duplicate"));
}

#[test]
fn invalid_id_charset() {
    let c = codes(
        "version: 1\njobs:\n  - id: \"Not Kebab\"\n    schedule: { every: day, at: \"09:00\" }\n    execution: { command: x }\n",
    );
    assert!(c.contains(&"job.id_invalid"));
}

#[test]
fn missing_command() {
    let c = codes(
        "version: 1\njobs:\n  - schedule: { every: day, at: \"09:00\" }\n    execution: { args: [a] }\n",
    );
    assert!(c.contains(&"execution.command_missing"));
}

#[test]
fn bad_duration() {
    let c = codes(
        "version: 1\njobs:\n  - schedule: { every: day, at: \"09:00\" }\n    execution: { command: x }\n    timeout: 30x\n",
    );
    assert!(c.contains(&"duration.invalid"));
}

#[test]
fn accumulates_multiple_semantic_errors() {
    let c = codes(
        "version: 1\njobs:\n  - schedule: { every: 45m }\n    execution: { args: [] }\n    timeout: 9z\n",
    );
    assert!(c.contains(&"schedule.non_divisor"));
    assert!(c.contains(&"execution.command_missing"));
    assert!(c.contains(&"duration.invalid"));
}

#[test]
fn empty_jobs_list_is_valid() {
    let c = codes("version: 1\njobs: []\n");
    assert!(
        c.is_empty(),
        "expected zero diagnostics for empty jobs, got: {c:?}"
    );
}

// ------------------------------------------------------------------------------ the editor

const VALID: &str = "version: 1\njobs: []\n";
const INVALID: &str = "version: 1\njobs:\n  - id: x\n";
const HEADER_END: &str = "# \u{2514}\u{2500}";

/// Runs the edit loop with an editor that is handed a text and returns what it saved, or
/// nothing where it failed.
fn edit(seed: &str, mut editor: impl FnMut(&str) -> Option<String>) -> EditResult {
    let (mut state, mut action) = start_edit(seed);
    loop {
        let event = match action {
            EditAction::Finish(result) => return result,
            EditAction::Open(buffer) => match editor(&buffer) {
                Some(saved) => EditEvent::Saved(saved),
                None => EditEvent::EditorFailed,
            },
            EditAction::Check(body) => {
                let parsed = parse(&body);
                let found = match &parsed {
                    Ok(config) => not_found(config),
                    Err(_) => Vec::new(),
                };
                match validate_yaml(parsed, &found) {
                    Ok(()) => EditEvent::Checked(Vec::new()),
                    Err(errors) => EditEvent::Checked(errors),
                }
            }
        };
        let (next, then_do) = run_edit_loop(state, event);
        state = next;
        action = then_do;
    }
}

#[test]
fn valid_first_save_returns_edited() {
    let mut seen = Vec::new();
    let r = edit("seed: 1\n", |buf| {
        seen.push(buf.to_string());
        Some(VALID.to_string())
    });
    assert!(matches!(r, EditResult::Edited(c) if c == VALID));
    assert_eq!(seen[0], "seed: 1\n");
}

#[test]
fn no_change_first_save_is_noop() {
    let r = edit(VALID, |buf| Some(buf.to_string()));
    assert!(matches!(r, EditResult::NoChange));
}

#[test]
fn empty_buffer_aborts() {
    let r = edit(VALID, |_| Some("   \n".to_string()));
    assert!(matches!(r, EditResult::Aborted));
}

#[test]
fn editor_nonzero_exit_aborts() {
    let r = edit(VALID, |_| None);
    assert!(matches!(r, EditResult::Aborted));
}

#[test]
fn invalid_then_fixed_loops_with_header_then_succeeds() {
    let mut round = 0;
    let mut second_buf = String::new();
    let r = edit("version: 1\n", |buf| {
        round += 1;
        if round == 1 {
            Some(INVALID.to_string())
        } else {
            second_buf = buf.to_string();
            Some(VALID.to_string())
        }
    });
    assert!(matches!(r, EditResult::Edited(c) if c == VALID));
    assert_eq!(round, 2);
    assert!(
        second_buf.starts_with("# "),
        "header should be injected: {second_buf:?}"
    );
    assert!(second_buf.contains("error"));
    assert!(second_buf.contains("version: 1"));
}

#[test]
fn invalid_then_saved_unchanged_aborts() {
    let r = edit("version: 1\n", |_| Some(INVALID.to_string()));
    assert!(matches!(r, EditResult::Aborted));
}

#[test]
fn injected_header_is_stripped_from_persisted_content() {
    let mut round = 0;
    let r = edit("version: 1\n", |buf| {
        round += 1;
        if round == 1 {
            Some(INVALID.to_string())
        } else {
            let header_fence: String = buf
                .lines()
                .take_while(|l| !l.starts_with(HEADER_END))
                .flat_map(|l| [l, "\n"])
                .collect::<String>()
                + &format!("{HEADER_END}\n");
            Some(format!("{header_fence}{VALID}"))
        }
    });
    match r {
        EditResult::Edited(c) => {
            assert!(!c.contains("# "), "header must be stripped: {c:?}");
            assert!(c.contains("jobs: []"));
        }
        other => panic!("expected Edited, got {other:?}"),
    }
}

#[test]
fn the_fence_is_made_of_comments() {
    let d = Diagnostic::error("c", "first\n# \u{2514}\u{2500}\r\nsecond".to_owned(), "p".to_owned());
    let header = render_header(&vec![d]);
    assert_eq!(header.lines().count(), 3);
    assert!(header.lines().all(|l| l.starts_with("# ")), "got {header:?}");
    assert_eq!(strip_header(&format!("{header}{VALID}")), VALID);
}

#[test]
fn going_back_to_the_seed_is_no_edit() {
    let mut round = 0;
    let r = edit(VALID, |_| {
        round += 1;
        Some(if round == 1 { INVALID } else { VALID }.to_string())
    });
    assert!(matches!(r, EditResult::NoChange), "got {r:?}");
    assert_eq!(round, 2);
}

#[test]
fn a_reopened_text_without_a_final_newline_can_be_left_unchanged() {
    let mut round = 0;
    let r = edit("version: 1\n", |buf| {
        round += 1;
        if round == 1 {
            Some(INVALID.trim_end().to_string())
        } else {
            Some(buf.to_string())
        }
    });
    assert!(matches!(r, EditResult::Aborted), "got {r:?}");
    assert_eq!(round, 2);
}

#[test]
fn an_edit_ends_with_a_line_and_a_code() {
    let p = finish_edit(&EditResult::NoChange);
    assert_eq!((p.out.as_str(), p.code), ("No changes\n", 0));
    let p = finish_edit(&EditResult::Aborted);
    assert_eq!((p.err.as_str(), p.code), ("error: edit aborted; config unchanged\n", 1));
    let p = finish_edit(&EditResult::Edited(VALID.to_owned()));
    assert_eq!((p.out.as_str(), p.code), ("Config updated\n", 0));
}

#[test]
fn a_text_is_saved_unless_it_has_an_error() {
    assert_eq!(save_refusal(parse(VALID), &vec![]), None);
    let refusal = save_refusal(parse("version: 2\njobs: []\n"), &vec![]);
    assert_eq!(refusal.as_deref(), Some("unsupported config version: 2"));
    assert!(save_refusal(parse("jobs: ["), &vec![]).is_some());
}

#[test]
fn an_unparseable_timeout_is_no_limit() {
    let yaml = "version: 1\ndefaults: { timeout: 10m }\njobs:\n  - schedule: { every: 15m }\n    execution: { command: x }\n    timeout: 30x\n";
    let raw = parse(yaml).unwrap();
    assert_eq!(normalize(&raw).jobs[0].timeout_secs, None);
}

#[test]
fn a_timeout_that_cannot_be_counted_is_no_duration() {
    let yaml = "version: 1\njobs:\n  - schedule: { every: 15m }\n    execution: { command: x }\n    timeout: 18446744073709551615d\n";
    let raw = parse(yaml).unwrap();
    assert_eq!(normalize(&raw).jobs[0].timeout_secs, None);
    let codes: Vec<&str> = validate_config(&raw, &vec![true]).iter().map(|d| d.code).collect();
    assert_eq!(codes, vec!["duration.invalid"]);
    assert_eq!(parse_duration("18446744073709551615s"), Ok(u64::MAX));
    assert_eq!(parse_duration("18446744073709551615m"), Err(()));
}

#[test]
fn a_further_job_only_adds_findings() {
    let one = "version: 1\njobs:\n  - id: a\n    schedule: { every: 45m }\n    execution: { command: x }\n";
    let two = format!("{one}  - id: a\n    schedule: {{ every: 1h }}\n    execution: {{ args: [] }}\n");
    let first = validate_config(&parse(one).unwrap(), &vec![true]);
    let both = validate_config(&parse(&two).unwrap(), &vec![true, true]);
    assert_eq!(first.len(), 1);
    assert_eq!(both.len(), 3);
    assert_eq!(both[0].message, first[0].message);
    assert!(both[1..].iter().all(|d| d.path.starts_with("jobs[1]")));
    assert!(validate_config(&parse(VALID).unwrap(), &vec![]).is_empty());
}

const CONFIG: &str = "version: 1\n\
jobs:\n\
\x20 - id: cleanup\n\
\x20   schedule: { every: 15m }\n\
\x20   execution: { command: x }\n\
\x20 - id: report\n\
\x20   enabled: false\n\
\x20   schedule: { every: day, at: \"09:00\" }\n\
\x20   execution: { command: y }\n";

#[test]
fn jobs_edit_no_change_is_noop() {
    assert!(matches!(edit(CONFIG, |b| Some(b.to_string())), EditResult::NoChange));
}

#[test]
fn jobs_edit_applies_valid_change() {
    let new = "version: 1\njobs:\n  - id: only\n    schedule: { every: 1h }\n    execution: { command: z }\n";
    let r = edit(CONFIG, |_| Some(new.to_string()));
    assert!(matches!(r, EditResult::Edited(c) if c.contains("id: only")));
}

#[test]
fn jobs_edit_invalid_then_giveup_aborts() {
    let r = edit(CONFIG, |_| Some("version: 1\njobs:\n  - id: broken\n".to_string()));
    assert!(matches!(r, EditResult::Aborted));
}

// ---------------------------------------------------------------------------- the commands

const OK: &str = "version: 1\njobs:\n  - id: ok\n    schedule: { every: 15m }\n    execution: { command: true }\n";
const BAD: &str = "version: 1\njobs:\n  - id: ok\n    schedule: { every: 7m }\n    execution: { command: true }\n";
const DISABLED: &str = "version: 1\njobs:\n  - id: off\n    enabled: false\n    schedule: { every: 15m }\n    execution: { command: true }\n";

fn load(yaml: &str) -> Result<periodic::config::EffectiveConfig, String> {
    let parsed = parse(yaml);
    let found = match &parsed {
        Ok(config) => not_found(config),
        Err(_) => Vec::new(),
    };
    load_validated_config(&parsed, &found)
}

fn reload(yaml: &str) -> ReloadStep {
    match load(yaml) {
        Ok(_) => run_reload(None, None),
        Err(problem) => run_reload(Some(problem.as_str()), None),
    }
}

#[test]
fn reload_valid_config_without_daemon_reports_not_running() {
    match reload(OK) {
        ReloadStep::Done(p) => {
            assert_eq!(p.code, 0);
            assert!(p.out.contains("daemon not running"));
            assert_eq!(p.err, "");
        }
        ReloadStep::Ask(_) => panic!("nobody to ask"),
    }
}

#[test]
fn reload_invalid_config_exits_one() {
    match reload(BAD) {
        ReloadStep::Done(p) => {
            assert_eq!(p.code, 1);
            assert_eq!(
                p.err,
                "error: config invalid; run `periodic validate` for details\n"
            );
        }
        ReloadStep::Ask(_) => panic!("an invalid config is never asked for"),
    }
}

#[test]
fn jobs_list_with_invalid_config_fails() {
    let e = load(
        "version: 1\njobs:\n  - id: bad\n    schedule: { every: 45m }\n    execution: { command: x }\n",
    )
    .unwrap_err();
    assert_eq!(e, "config invalid; run `periodic validate` for details");
}

#[test]
fn unreadable_config_is_named_with_its_place() {
    let e = load("jobs: []\n").unwrap_err();
    assert_eq!(e, "config invalid: missing field `version` (version)");
}

fn ended(status: RunStatus) -> RunOutcome {
    RunOutcome {
        id: "r1".to_owned(),
        job_id: "ok".to_owned(),
        status,
        started_at: "s".to_owned(),
        finished_at: "f".to_owned(),
        exit_code: None,
        attempts: 1,
    }
}

#[test]
fn run_success_exits_zero() {
    assert_eq!(find_job(&load(OK).unwrap(), "ok"), Some(0));
    let p = run_jobs_run(&ended(RunStatus::Success), OutputFormat::Human);
    assert_eq!((p.code, p.err.as_str()), (0, ""));
    assert!(p.out.contains("success"), "got {}", p.out);
}

#[test]
fn run_failure_exits_one() {
    assert_eq!(run_jobs_run(&ended(RunStatus::Failed), OutputFormat::Human).code, 1);
    assert_eq!(run_jobs_run(&ended(RunStatus::Timeout), OutputFormat::Human).code, 1);
    let p = run_jobs_run(&ended(RunStatus::Cancelled), OutputFormat::Json);
    assert_eq!(p.code, 1);
    assert!(p.out.contains("\"status\": \"cancelled\""), "got {}", p.out);
}

#[test]
fn run_unknown_job_exits_two() {
    assert_eq!(find_job(&load(OK).unwrap(), "ghost"), None);
    let p = no_such_job("ghost", 2);
    assert_eq!(p.code, 2);
    assert_eq!(p.err, "error: no such job: ghost\n");
}

fn plan(yaml: &str, id: &str) -> Result<usize, (u8, String)> {
    let parsed = parse(yaml);
    let found = match &parsed {
        Ok(config) => not_found(config),
        Err(_) => Vec::new(),
    };
    match plan_run(&parsed, &found, id) {
        Ok((_, at)) => Ok(at),
        Err(p) => Err((p.code, p.err)),
    }
}

#[test]
fn a_run_is_planned_only_for_a_job_of_a_valid_config() {
    assert_eq!(plan(OK, "ok"), Ok(0));
    assert_eq!(plan(CONFIG, "report"), Ok(1));
    assert_eq!(plan(OK, "ghost"), Err((2, "error: no such job: ghost\n".to_owned())));
    assert_eq!(
        plan(BAD, "ok"),
        Err((
            2,
            "error: config invalid; run `periodic validate` for details\n".to_owned()
        ))
    );
    assert_eq!(plan("jobs: []\n", "ok").unwrap_err().0, 2);
}

#[test]
fn disabled_job_runs_on_manual_trigger() {
    let config = load(DISABLED).unwrap();
    let at = find_job(&config, "off").unwrap();
    let now = Stamp {
        secs: 1_700_000_000,
        nanos: 0,
    };
    let (state, actions) = periodic::executor::run_job(&config.jobs[at], now);
    assert_eq!(state.attempt, 1);
    assert!(!actions.is_empty());
    assert!(ScheduleTable::build(&config.jobs, &None, now).entries.is_empty());
}

fn validate(yaml: &str, format: OutputFormat) -> periodic::commands::Printed {
    let parsed = parse(yaml);
    let found = match &parsed {
        Ok(config) => not_found(config),
        Err(_) => Vec::new(),
    };
    run_validate("periodic.config.yaml", &parsed, &found, format)
}

#[test]
fn valid_config_exits_zero() {
    assert_eq!(validate(CONFIG, OutputFormat::Human).code, 0);
}

#[test]
fn invalid_config_exits_one() {
    assert_eq!(validate(BAD, OutputFormat::Human).code, 1);
    assert_eq!(validate("jobs: []\n", OutputFormat::Human).code, 1);
}

#[test]
fn json_format_is_machine_readable() {
    let p = validate(BAD, OutputFormat::Json);
    assert_eq!(p.code, 1);
    assert!(p.out.contains("\"ok\": false"), "got {}", p.out);
    let v: serde_json::Value = serde_json::from_str(&p.out).unwrap();
    assert_eq!(v["diagnostics"][0]["code"], "schedule.non_divisor");
}

// ------------------------------------------------------------------------- adding jobs

fn add(id: &str, every: &str, command: &str) -> String {
    let args = JobsAddArgs {
        id: Some(id.to_owned()),
        title: None,
        every: Some(every.to_owned()),
        at: None,
        on_day: None,
        last_day: false,
        cron: None,
        command: Some(command.to_owned()),
        cwd: None,
        timeout: None,
        overlap: None,
        retry: None,
        disabled: false,
        format: OutputFormat::Human,
    };
    let (_, block) = plan_add(&args).unwrap();
    apply(CONFIG, &Mutation::Add(block)).unwrap()
}

fn usable(yaml: &str) -> Result<usize, usize> {
    let parsed = parse(yaml);
    let found = match &parsed {
        Ok(config) => not_found(config),
        Err(_) => Vec::new(),
    };
    match validate_yaml(parsed, &found) {
        Ok(()) => Ok(parse(yaml).unwrap().jobs.len()),
        Err(errors) => Err(errors.len()),
    }
}

#[test]
fn jobs_add_appends_a_valid_job_preserving_existing() {
    let cfg = add("backup", "6h", "/usr/bin/backup");
    assert!(cfg.contains("id: backup"), "new job present:\n{cfg}");
    assert!(cfg.contains("/usr/bin/backup"));
    assert!(
        cfg.contains("id: cleanup") && cfg.contains("id: report"),
        "existing kept:\n{cfg}"
    );
    assert!(cfg.starts_with(CONFIG));
    assert_eq!(usable(&cfg), Ok(3));
    let p = run_jobs_add("backup", &Outcome::Applied, OutputFormat::Human);
    assert_eq!((p.out.as_str(), p.code), ("Added: backup\n", 0));
}

#[test]
fn jobs_add_duplicate_id_is_refused_without_writing() {
    assert_eq!(usable(&add("cleanup", "6h", "x")), Err(1));
}

#[test]
fn jobs_add_invalid_schedule_is_refused_without_writing() {
    assert_eq!(usable(&add("bad", "45m", "x")), Err(1));
}

#[test]
fn a_config_with_a_job_taken_out_is_usable() {
    let cfg = apply(CONFIG, &Mutation::Remove("cleanup".to_owned())).unwrap();
    assert_eq!(usable(&cfg), Ok(1));
}

// ----------------------------------------------------------------------- looking jobs up

fn shown(yaml: &str) -> Vec<JobStateRow> {
    let now = Stamp { secs: 1_704_067_200, nanos: 0 };
    let config = load(yaml).unwrap();
    config.jobs.iter().filter_map(|job| project(job, &None, now)).collect()
}

#[test]
fn jobs_list_human_lists_jobs() {
    let p = run_jobs_list(&shown(CONFIG), OutputFormat::Human);
    assert_eq!(p.code, 0);
    assert!(p.out.contains("cleanup"), "got {}", p.out);
    assert!(p.out.contains("report"), "got {}", p.out);
    assert!(p.out.contains("2 job(s)"), "got {}", p.out);
}

#[test]
fn jobs_list_json_is_machine_readable() {
    let p = run_jobs_list(&shown(CONFIG), OutputFormat::Json);
    assert_eq!(p.code, 0);
    assert!(p.out.contains("\"jobs\""), "got {}", p.out);
    assert!(p.out.contains("\"id\": \"cleanup\""), "got {}", p.out);
}

#[test]
fn jobs_status_shows_one_job() {
    let row = shown(CONFIG).pop();
    let p = run_jobs_status("report", &row, OutputFormat::Human);
    assert_eq!(p.code, 0);
    assert!(p.out.contains("report"), "got {}", p.out);
    assert!(p.out.contains("disabled"), "got {}", p.out);
    let p = run_jobs_status("report", &row, OutputFormat::Json);
    assert!(p.out.contains("\"state\": \"disabled\""), "got {}", p.out);
}
