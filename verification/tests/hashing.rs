use periodic::config::{EffectiveJob, MissedRunPolicy, NormalizedSchedule, OverlapPolicy};
use periodic::config_hash::{canonical_job, hex_text, job_config_hash};
use sha2::{Digest, Sha256};

fn job() -> EffectiveJob {
    EffectiveJob {
        id: Some("job".to_owned()),
        title: Some("Title".to_owned()),
        enabled: true,
        schedule: NormalizedSchedule::MinuteAligned { every_minutes: 15 },
        command: "run.sh".to_owned(),
        args: vec!["--flag".to_owned()],
        cwd: Some("~/work".to_owned()),
        timeout_secs: Some(600),
        timezone: Some("UTC".to_owned()),
        overlap_policy: OverlapPolicy::Skip,
        missed_run_policy: MissedRunPolicy::Skip,
        max_retries: 0,
        tags: vec!["nightly".to_owned()],
    }
}

#[test]
fn hash_is_deterministic() {
    assert_eq!(job_config_hash(&job()), job_config_hash(&job()));
}

#[test]
fn hash_is_sha256_hex() {
    let h = job_config_hash(&job());
    assert_eq!(h.len(), 64, "expected 64 hex chars, got {h:?}");
    assert!(h.chars().all(|c| c.is_ascii_hexdigit()));
}

#[test]
fn hash_changes_when_schedule_changes() {
    let mut other = job();
    other.schedule = NormalizedSchedule::MinuteAligned { every_minutes: 30 };
    assert_ne!(job_config_hash(&job()), job_config_hash(&other));
}

#[test]
fn hash_changes_when_command_changes() {
    let mut other = job();
    other.command = "other.sh".to_owned();
    assert_ne!(job_config_hash(&job()), job_config_hash(&other));
}

#[test]
fn hash_changes_when_enabled_changes() {
    let mut other = job();
    other.enabled = false;
    assert_ne!(job_config_hash(&job()), job_config_hash(&other));
}

#[test]
fn hash_ignores_presentational_fields() {
    let mut other = job();
    other.title = Some("A different title".to_owned());
    other.tags = vec!["different".to_owned(), "tags".to_owned()];
    other.id = Some("different-id".to_owned());
    assert_eq!(
        job_config_hash(&job()),
        job_config_hash(&other),
        "title/tags/id must not affect the config hash"
    );
}

#[test]
fn hash_distinguishes_arg_boundaries() {
    let mut a = job();
    a.args = vec!["a".to_owned(), "b".to_owned()];
    let mut b = job();
    b.args = vec!["a b".to_owned()];
    assert_ne!(
        job_config_hash(&a),
        job_config_hash(&b),
        "['a','b'] must not collide with ['a b']"
    );
}

#[test]
fn canonical_texts_of_distinct_jobs_differ() {
    let with_args = |args: &[&str]| {
        let mut j = job();
        j.args = args.iter().map(|a| a.to_string()).collect();
        canonical_job(&j)
    };
    let with_cwd = |cwd: Option<&str>| {
        let mut j = job();
        j.cwd = cwd.map(str::to_string);
        canonical_job(&j)
    };
    let with_command = |command: &str| {
        let mut j = job();
        j.command = command.to_string();
        canonical_job(&j)
    };
    assert_ne!(with_args(&[]), with_args(&[""]));
    assert_ne!(with_args(&[""]), with_args(&["", ""]));
    assert_ne!(with_args(&["a\u{1f}b"]), with_args(&["a", "b"]));
    assert_ne!(with_args(&["\u{1b}z"]), with_args(&[""]));
    assert_ne!(with_cwd(None), with_cwd(Some("")));
    assert_ne!(with_command("a\nb"), with_command("a\u{1b}nb"));
    let mut split = job();
    split.command = "a".to_owned();
    split.args = vec!["b\ncwd=c".to_owned()];
    split.cwd = None;
    let mut whole = split.clone();
    whole.args = vec!["b".to_owned()];
    whole.cwd = Some("c\ncwd=".to_owned());
    assert_ne!(canonical_job(&split), canonical_job(&whole));
}

#[test]
fn ordinary_values_stand_for_themselves() {
    let mut j = job();
    j.command = "env A=b,c run".to_owned();
    j.args = vec!["--x=1".to_owned(), String::new(), "a:b".to_owned()];
    j.schedule = NormalizedSchedule::Calendar {
        days: vec!["monday".to_owned(), "friday".to_owned()],
        at: "09:00".to_owned(),
        timezone: Some("America/New_York".to_owned()),
        on_day: None,
        last_day: false,
    };
    assert_eq!(
        canonical_job(&j),
        "enabled=true\nschedule=calendar:days=monday,friday:at=09:00:tz=America/New_York:on_day=:last_day=false\ncommand=env A=b,c run\nargs=--x=1\u{1f}\u{1f}a:b\ncwd=~/work\ntimeout_secs=600\ntimezone=UTC\noverlap=Skip\nmissed=Skip\nmax_retries=0\n"
    );
}

#[test]
fn hash_is_the_digest_of_the_canonical_text() {
    let digest: Vec<u8> = Sha256::digest(canonical_job(&job()).as_bytes()).to_vec();
    assert_eq!(job_config_hash(&job()), hex_text(&digest));
    assert_ne!(job_config_hash(&job()), canonical_job(&job()));
}

#[test]
fn bytes_are_written_as_two_digits_each() {
    assert_eq!(hex_text(&vec![0, 15, 16, 255]), "000f10ff");
}
