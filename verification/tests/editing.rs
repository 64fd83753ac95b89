use periodic::cli::{JobsAddArgs, OutputFormat};
use periodic::commands::{
    plan_add, run_jobs_add, run_jobs_remove, run_jobs_set_enabled, run_jobs_status,
};
use periodic::config_blocks::{append_job, remove_job};
use periodic::config_edit::{line_indent_of, set_enabled};
use periodic::config_mutation::{
    apply, change_reply, mutation_outcome, mutation_to_request, replace_unless_changed,
    request_to_mutation, set_enabled_mutation, Mutation, Outcome,
};
use periodic::ipc::Response;
use periodic::job_block::{build_block, derive_id, every_value, kebab, reads_as_number, scalar};

const COMMENTED: &str = "\
version: 1
jobs:
  # keep the box tidy
  - id: cleanup           # nightly sweep
    enabled: true
    schedule:
      every: 15m
    execution:
      command: /usr/bin/true
";

const TWO_JOBS_NO_ENABLED: &str = "\
version: 1
jobs:
  - id: cleanup           # nightly sweep
    schedule:
      every: 15m
    execution:
      command: /usr/bin/true
  - id: backup
    enabled: true
    schedule:
      every: 6h
    execution:
      command: /usr/bin/backup
";

#[test]
fn set_enabled_false_toggles_field_and_preserves_comments() {
    let out = set_enabled(COMMENTED, "cleanup", false).expect("edit should succeed");
    assert!(out.contains("enabled: false"), "field should be toggled:\n{out}");
    assert!(!out.contains("enabled: true"), "old value should be gone:\n{out}");
    assert!(out.contains("# keep the box tidy"), "standalone comment lost:\n{out}");
    assert!(out.contains("# nightly sweep"), "inline comment lost:\n{out}");
    assert!(out.contains("command: /usr/bin/true"), "unrelated line lost:\n{out}");
}

#[test]
fn set_enabled_true_resumes_a_paused_job() {
    let paused = COMMENTED.replace("enabled: true", "enabled: false");
    let out = set_enabled(&paused, "cleanup", true).expect("edit should succeed");
    assert!(out.contains("enabled: true"), "should resume:\n{out}");
    assert!(!out.contains("enabled: false"));
}

#[test]
fn set_enabled_errors_on_unknown_job() {
    let err = set_enabled(COMMENTED, "nope", false).unwrap_err();
    assert!(err.to_string().contains("nope"), "error should name the job: {err}");
}

#[test]
fn set_enabled_inserts_field_when_absent_targeting_only_the_named_job() {
    let out = set_enabled(TWO_JOBS_NO_ENABLED, "cleanup", false).expect("edit should succeed");
    assert!(out.contains("enabled: false"), "field should be inserted:\n{out}");
    assert!(out.contains("enabled: true"), "backup's field must be untouched:\n{out}");
    let cleanup_block = out.split("- id: backup").next().unwrap();
    assert!(cleanup_block.contains("enabled: false"), "insertion landed in the wrong job:\n{out}");
    assert!(out.contains("# nightly sweep"), "comment preserved:\n{out}");
}

#[test]
fn only_the_flag_changes() {
    let out = set_enabled(COMMENTED, "cleanup", false).unwrap();
    assert_eq!(out, COMMENTED.replace("enabled: true", "enabled: false"));
    let back = set_enabled(&out, "cleanup", true).unwrap();
    assert_eq!(back, COMMENTED);
}

#[test]
fn shared_and_flow_nodes_are_refused() {
    let flow = "version: 1\njobs: [{ id: a, enabled: true }]\n";
    let err = set_enabled(flow, "a", false).unwrap_err();
    assert!(err.ends_with("(use `jobs edit`)"), "got {err}");
    let shared = "version: 1\nbase: &b\n  enabled: true\njobs:\n  - id: a\n    <<: *b\n";
    let err = set_enabled(shared, "a", false).unwrap_err();
    assert!(err.ends_with("(use `jobs edit`)"), "got {err}");
}

#[test]
fn a_flag_of_a_job_in_flow_style_is_replaced_in_place() {
    let source = "version: 1\njobs:\n  - { id: a, enabled: true, title: A }\n  - id: b\n";
    assert_eq!(
        set_enabled(source, "a", false).unwrap(),
        "version: 1\njobs:\n  - { id: a, enabled: false, title: A }\n  - id: b\n"
    );
    let without = "version: 1\njobs:\n  - { id: a, title: A }\n";
    assert_eq!(
        set_enabled(without, "a", false).unwrap_err(),
        "job 'a' cannot be edited in place (use `jobs edit`)"
    );
}

#[test]
fn nodes_shared_elsewhere_in_a_job_are_no_obstacle() {
    let source = "version: 1\njobs:\n  - id: a\n    enabled: true\n    execution: &x\n      command: c\n  - id: b\n    enabled: true\n    execution: *x\n";
    assert_eq!(
        set_enabled(source, "a", false).unwrap(),
        source.replacen("enabled: true", "enabled: false", 1)
    );
    assert_eq!(
        set_enabled(source, "b", false).unwrap(),
        "version: 1\njobs:\n  - id: a\n    enabled: true\n    execution: &x\n      command: c\n  - id: b\n    enabled: false\n    execution: *x\n"
    );
    let absent = "version: 1\njobs:\n  - id: a\n    execution: &x\n      command: c\n";
    assert_eq!(
        set_enabled(absent, "a", true).unwrap(),
        "version: 1\njobs:\n  - id: a\n    enabled: true\n    execution: &x\n      command: c\n"
    );
    let refusal = "job 'a' cannot be edited in place (use `jobs edit`)";
    let flag = "version: 1\njobs:\n  - id: a\n    enabled: &f true\n";
    assert_eq!(set_enabled(flag, "a", false).unwrap_err(), refusal);
    let alias = "version: 1\non: &f true\njobs:\n  - id: a\n    enabled: *f\n";
    assert_eq!(set_enabled(alias, "a", false).unwrap_err(), refusal);
    let first = "version: 1\njobs:\n  - title: &t A\n    id: a\n";
    assert_eq!(set_enabled(first, "a", false).unwrap_err(), refusal);
    let job = "version: 1\njobs:\n  - &j\n    id: a\n    enabled: true\n";
    assert_eq!(set_enabled(job, "a", false).unwrap_err(), refusal);
}

#[test]
fn the_last_of_two_edits_decides() {
    for source in [
        COMMENTED,
        TWO_JOBS_NO_ENABLED,
        "version: 1\njobs:\n  - { id: cleanup, enabled: true }\n",
        "version: 1\njobs:\n  - id: cleanup # nightly\n    # how often\n    schedule: { every: 15m }\n",
        "version: 1\njobs:\n  - schedule:\n      every: 15m # often\n    id: cleanup\n",
    ] {
        for first in [true, false] {
            let once = set_enabled(source, "cleanup", first).unwrap();
            for second in [true, false] {
                assert_eq!(
                    set_enabled(&once, "cleanup", second).unwrap(),
                    set_enabled(source, "cleanup", second).unwrap()
                );
            }
            assert_eq!(set_enabled(&once, "cleanup", first).unwrap(), once);
        }
    }
    let off = set_enabled(COMMENTED, "cleanup", false).unwrap();
    assert_eq!(set_enabled(&off, "cleanup", true).unwrap(), COMMENTED);
}

#[test]
fn an_edit_keeps_the_other_entries_of_every_job() {
    let lines = |s: &str| -> Vec<String> {
        s.lines().filter(|l| !l.contains("enabled")).map(str::to_owned).collect()
    };
    for source in [COMMENTED, TWO_JOBS_NO_ENABLED] {
        let edited = set_enabled(source, "cleanup", false).unwrap();
        assert_eq!(lines(&edited), lines(source));
        assert!(edited.contains("enabled: false"));
    }
}

#[test]
fn the_flag_is_inserted_after_the_whole_first_entry() {
    let source = "version: 1\njobs:\n  - schedule:\n      every: 15m # often\n    execution:\n      command: x\n    id: a\n";
    assert_eq!(
        set_enabled(source, "a", false).unwrap(),
        "version: 1\njobs:\n  - schedule:\n      every: 15m # often\n    enabled: false\n    execution:\n      command: x\n    id: a\n"
    );
    let block = "version: 1\njobs:\n  - title: |\n      one\n      two\n    id: a\n";
    assert_eq!(
        set_enabled(block, "a", true).unwrap(),
        "version: 1\njobs:\n  - title: |\n      one\n      two\n    enabled: true\n    id: a\n"
    );
    let flow = "version: 1\njobs:\n  - schedule: { every: 15m }\n    id: a\n";
    assert_eq!(
        set_enabled(flow, "a", true).unwrap(),
        "version: 1\njobs:\n  - schedule: { every: 15m }\n    enabled: true\n    id: a\n"
    );
    let lone = "version: 1\njobs:\n  - id: a";
    assert_eq!(
        set_enabled(lone, "a", true).unwrap(),
        "version: 1\njobs:\n  - id: a\n    enabled: true"
    );
}

#[test]
fn a_flag_without_a_value_is_not_edited_in_place() {
    let refusal = "job 'a' cannot be edited in place (use `jobs edit`)";
    let empty = "version: 1\njobs:\n  - id: a\n    enabled:\n    schedule: { every: 15m }\n";
    assert_eq!(set_enabled(empty, "a", true).unwrap_err(), refusal);
    let list = "version: 1\njobs:\n  - id: a\n    enabled: [true]\n";
    assert_eq!(set_enabled(list, "a", true).unwrap_err(), refusal);
}

#[test]
fn an_indent_ends_with_its_line() {
    assert_eq!(line_indent_of("a\n   \nb", 2), "   ");
    assert_eq!(line_indent_of("a\n  b\nc", 4), "  ");
    assert_eq!(line_indent_of("\n\n x", 0), "");
}

#[test]
fn text_that_is_no_yaml_is_refused() {
    assert!(set_enabled("jobs: [unclosed", "a", false).is_err());
    assert!(set_enabled("", "a", false).is_err());
    assert!(set_enabled("version: 1\n", "a", false).is_err());
}

const CONFIG: &str = "version: 1\n\
jobs:\n\
\x20 - id: cleanup\n\
\x20   schedule: { every: 15m }\n\
\x20   execution: { command: x }\n\
\x20 - id: report\n\
\x20   enabled: false\n\
\x20   schedule: { every: day, at: \"09:00\" }\n\
\x20   execution: { command: y }\n";

#[test]
fn jobs_pause_disables_on_disk() {
    let out = set_enabled(CONFIG, "cleanup", false).unwrap();
    assert!(out.contains("enabled: false"));
    let p = run_jobs_set_enabled("cleanup", false, &Outcome::Applied, OutputFormat::Human);
    assert_eq!(p.out, "Paused: cleanup\n");
    assert_eq!(p.code, 0);
}

#[test]
fn jobs_resume_enables_on_disk() {
    let out = set_enabled(CONFIG, "report", true).unwrap();
    assert!(out.contains("enabled: true"), "report should be resumed:\n{out}");
    assert!(!out.contains("enabled: false"), "no job should remain disabled:\n{out}");
    let p = run_jobs_set_enabled("report", true, &Outcome::Applied, OutputFormat::Human);
    assert_eq!(p.out, "Resumed: report\n");
}

#[test]
fn jobs_pause_unknown_job_exits_one_without_writing() {
    let refusal = set_enabled(CONFIG, "ghost", false).unwrap_err();
    assert_eq!(refusal, "job 'ghost' not found (use `jobs edit`)");
    let outcome = Outcome::Refused(refusal);
    let p = run_jobs_set_enabled("ghost", false, &outcome, OutputFormat::Human);
    assert_eq!(p.code, 1);
    assert_eq!(p.out, "");
}

#[test]
fn jobs_pause_json_reports_state() {
    let p = run_jobs_set_enabled("cleanup", false, &Outcome::Applied, OutputFormat::Json);
    assert!(p.out.contains("\"id\": \"cleanup\""));
    assert!(p.out.contains("\"state\": \"disabled\""));
}

#[test]
fn jobs_remove_json_reports_removed() {
    let p = run_jobs_remove("cleanup", &Outcome::Applied, OutputFormat::Json);
    assert!(p.out.contains("\"id\": \"cleanup\""));
    assert!(p.out.contains("\"removed\": true"));
}

#[test]
fn jobs_remove_deletes_job_and_keeps_siblings() {
    let cfg = remove_job(CONFIG, "cleanup").unwrap();
    assert!(!cfg.contains("id: cleanup"), "cleanup should be gone:\n{cfg}");
    assert!(cfg.contains("id: report"), "report should remain:\n{cfg}");
    assert_eq!(
        cfg,
        "version: 1\njobs:\n  - id: report\n    enabled: false\n    schedule: { every: day, at: \"09:00\" }\n    execution: { command: y }\n"
    );
    let p = run_jobs_remove("cleanup", &Outcome::Applied, OutputFormat::Human);
    assert_eq!(p.code, 0);
    assert!(p.out.contains("Removed"));
    assert!(p.out.contains("cleanup"));
}

#[test]
fn jobs_remove_unknown_job_exits_one_without_writing() {
    let refusal = remove_job(CONFIG, "ghost").unwrap_err();
    assert_eq!(refusal, "job 'ghost' not found (use `jobs edit`)");
    let p = run_jobs_remove("ghost", &Outcome::Refused(refusal), OutputFormat::Human);
    assert_eq!(p.code, 1);
}

#[test]
fn the_last_job_is_taken_out_to_its_end() {
    let cfg = remove_job(CONFIG, "report").unwrap();
    assert_eq!(
        cfg,
        "version: 1\njobs:\n  - id: cleanup\n    schedule: { every: 15m }\n    execution: { command: x }\n"
    );
    let unended = CONFIG.trim_end();
    assert_eq!(remove_job(unended, "report").unwrap(), cfg);
}

#[test]
fn taking_a_job_out_keeps_comments_around_it() {
    let source = "version: 1\njobs:\n  # first\n  - id: a\n    schedule: { every: 1h }\n    execution:\n      command: |\n        one\n        two\n  # second\n  - id: b # é\n    schedule: { every: 1h }\n    execution: { command: y }\n# end\n";
    assert_eq!(
        remove_job(source, "a").unwrap(),
        "version: 1\njobs:\n  # first\n  # second\n  - id: b # é\n    schedule: { every: 1h }\n    execution: { command: y }\n# end\n"
    );
    assert_eq!(
        remove_job(source, "b").unwrap(),
        "version: 1\njobs:\n  # first\n  - id: a\n    schedule: { every: 1h }\n    execution:\n      command: |\n        one\n        two\n  # second\n# end\n"
    );
}

#[test]
fn jobs_that_share_nodes_are_not_taken_out() {
    let source = "version: 1\njobs:\n  - &a\n    id: cleanup\n    schedule: { every: 15m }\n";
    assert_eq!(
        remove_job(source, "cleanup").unwrap_err(),
        "job 'cleanup' cannot be edited in place (use `jobs edit`)"
    );
    let shared = "version: 1\njobs:\n  - id: cleanup\n    execution: &x\n      command: c\n";
    assert_eq!(
        remove_job(shared, "cleanup").unwrap_err(),
        "job 'cleanup' cannot be edited in place (use `jobs edit`)"
    );
    assert!(remove_job("jobs: [", "x").unwrap_err().starts_with("invalid YAML: "));
}

#[test]
fn a_job_in_flow_style_is_taken_out() {
    let source = "version: 1\njobs:\n  - { id: a, enabled: true }\n  - id: b\n";
    assert_eq!(remove_job(source, "a").unwrap(), "version: 1\njobs:\n  - id: b\n");
}

#[test]
fn a_block_is_added_after_the_last_job() {
    let block = "  - id: backup\n    schedule: { every: 6h }\n";
    assert_eq!(append_job(CONFIG, block).unwrap(), format!("{CONFIG}{block}"));
    assert_eq!(
        append_job(CONFIG.trim_end(), block).unwrap(),
        format!("{CONFIG}{block}")
    );
    let trailing = format!("{CONFIG}# the end\nother: 1\n");
    assert_eq!(
        append_job(&trailing, block).unwrap(),
        format!("{CONFIG}{block}# the end\nother: 1\n")
    );
}

#[test]
fn a_list_that_cannot_be_added_to_is_refused() {
    let entangled = "the list of jobs cannot be added to in place (use `jobs edit`)";
    assert_eq!(append_job("version: 1\njobs: []\n", "x").unwrap_err(), entangled);
    assert_eq!(append_job("{version: 1, jobs: [a]}\n", "x").unwrap_err(), entangled);
    assert_eq!(append_job("version: 1\njobs: &j\n  - a\n", "x").unwrap_err(), entangled);
    let absent = "the config has no list of jobs (use `jobs edit`)";
    assert_eq!(append_job("version: 1\n", "x").unwrap_err(), absent);
    assert_eq!(append_job("version: 1\njobs:\n", "x").unwrap_err(), absent);
    assert_eq!(append_job("", "x").unwrap_err(), absent);
    assert!(append_job("jobs: [", "x").unwrap_err().starts_with("invalid YAML: "));
}

#[test]
fn adding_and_taking_out_again_gives_the_text_back() {
    let block = "  - id: backup\n    schedule: { every: 6h }\n    execution: { command: z }\n";
    let added = append_job(CONFIG, block).unwrap();
    assert_eq!(remove_job(&added, "backup").unwrap(), CONFIG);
}

#[test]
fn changes_go_to_the_edit_they_name() {
    let add = Mutation::Add("  - id: b\n".to_owned());
    assert_eq!(apply(CONFIG, &add), append_job(CONFIG, "  - id: b\n"));
    let pause = set_enabled_mutation("cleanup", false);
    assert_eq!(apply(CONFIG, &pause), set_enabled(CONFIG, "cleanup", false));
    let resume = set_enabled_mutation("report", true);
    assert_eq!(apply(CONFIG, &resume), set_enabled(CONFIG, "report", true));
    let remove = Mutation::Remove("report".to_owned());
    assert_eq!(apply(CONFIG, &remove), remove_job(CONFIG, "report"));
}

#[test]
fn a_request_is_read_back_as_its_change() {
    let add = mutation_to_request(&Mutation::Add("block".to_owned()));
    assert_eq!(add.method, "jobs.add");
    assert!(matches!(request_to_mutation(&add), Some(Mutation::Add(b)) if b == "block"));
    let pause = mutation_to_request(&Mutation::Pause("a".to_owned()));
    assert!(matches!(request_to_mutation(&pause), Some(Mutation::Pause(i)) if i == "a"));
    let resume = mutation_to_request(&Mutation::Resume("b".to_owned()));
    assert!(matches!(request_to_mutation(&resume), Some(Mutation::Resume(i)) if i == "b"));
    let mut remove = mutation_to_request(&Mutation::Remove("c".to_owned()));
    assert!(matches!(request_to_mutation(&remove), Some(Mutation::Remove(i)) if i == "c"));
    remove.method = "jobs.paint".to_owned();
    assert!(request_to_mutation(&remove).is_none());
    remove.method = "jobs.add".to_owned();
    assert!(request_to_mutation(&remove).is_none());
}

#[test]
fn what_came_of_a_change_is_passed_on() {
    let refused = change_reply("7".to_owned(), Outcome::Refused("no".to_owned()));
    assert!(matches!(mutation_outcome(refused), Outcome::Refused(m) if m == "no"));
    let applied = change_reply("7".to_owned(), Outcome::Applied);
    assert!(matches!(mutation_outcome(applied), Outcome::Applied));
}

#[test]
fn an_edit_does_not_undo_another() {
    let edited = replace_unless_changed("a", "a", "b".to_owned());
    assert_eq!(edited.unwrap(), "b");
    assert!(replace_unless_changed("a", "c", "b".to_owned()).is_err());
}

#[test]
fn jobs_status_unknown_job_exits_one() {
    let p = run_jobs_status("ghost", &None, OutputFormat::Human);
    assert_eq!((p.code, p.err.as_str()), (1, "error: no such job: ghost\n"));
}

#[test]
fn the_daemons_refusal_is_passed_on() {
    let answer = Response::err("1".to_owned(), "refused".to_owned(), "no such job: x".to_owned());
    assert!(matches!(mutation_outcome(answer), Outcome::Refused(m) if m == "no such job: x"));
    assert!(matches!(set_enabled_mutation("x", true), Mutation::Resume(id) if id == "x"));
    assert!(matches!(set_enabled_mutation("x", false), Mutation::Pause(id) if id == "x"));
}

// ------------------------------------------------------------------------------- jobs add

fn args() -> JobsAddArgs {
    JobsAddArgs {
        every: None,
        at: None,
        on_day: None,
        last_day: false,
        cron: None,
        command: None,
        cwd: None,
        timeout: None,
        overlap: None,
        retry: None,
        id: None,
        title: None,
        disabled: false,
        format: OutputFormat::Human,
    }
}

#[test]
fn derive_id_prefers_explicit_then_title_then_command() {
    let mut a = args();
    a.command = Some("/usr/bin/backup".into());
    assert_eq!(derive_id(&a).as_deref(), Some("backup"));

    a.title = Some("Daily Cleanup".into());
    assert_eq!(derive_id(&a).as_deref(), Some("daily-cleanup"));

    a.id = Some("explicit-id".into());
    assert_eq!(derive_id(&a).as_deref(), Some("explicit-id"));
}

#[test]
fn derived_ids_are_kebab_case() {
    let mut a = args();
    a.command = Some("/opt/My_Tool.sh --flag".into());
    assert_eq!(derive_id(&a).as_deref(), Some("my-tool-sh"));
}

#[test]
fn slugs_keep_letters_and_are_their_own_slugs() {
    let slug = kebab(" My  Job #42! ");
    assert_eq!(slug, "my-job-42");
    assert_eq!(kebab(&slug), slug);
    assert_eq!(kebab("--- !!"), "");
}

#[test]
fn slugs_have_no_stray_dashes() {
    assert_eq!(kebab("--Hello,  World!--"), "hello-world");
    assert_eq!(kebab("***"), "");
}

#[test]
fn scalar_quotes_risky_values_and_leaves_clean_ones_plain() {
    assert_eq!(scalar("15m"), "15m");
    assert_eq!(scalar("/usr/bin/backup"), "/usr/bin/backup");
    assert_eq!(scalar("09:00"), "\"09:00\"");
    assert_eq!(scalar("echo hi"), "echo hi");
    assert_eq!(scalar("true"), "\"true\"");
    assert_eq!(scalar("42"), "\"42\"");
}

#[test]
fn quoted_scalars_are_escaped() {
    assert_eq!(scalar("say \"hi\": \\"), "\"say \\\"hi\\\": \\\\\"");
    assert!(reads_as_number("-1.5e3"));
    assert!(!reads_as_number("15m"));
}

#[test]
fn every_value_renders_lists_and_scalars() {
    assert_eq!(every_value("15m"), "15m");
    assert_eq!(
        every_value("monday,wednesday,friday"),
        "[monday, wednesday, friday]"
    );
}

#[test]
fn jobs_add_derives_kebab_id_from_command_basename() {
    let mut a = args();
    a.every = Some("6h".into());
    a.command = Some("/usr/local/bin/sync".into());
    let (id, block) = plan_add(&a).unwrap();
    assert_eq!(id, "sync");
    assert!(block.contains("id: sync"), "{block}");
}

#[test]
fn jobs_add_cron_and_calendar_schedules() {
    let mut a = args();
    a.id = Some("nightly".into());
    a.cron = Some("0 3 * * *".into());
    a.command = Some("x".into());
    let (_, block) = plan_add(&a).unwrap();
    assert!(block.contains("cron:"), "cron job written:\n{block}");
    let mut b = args();
    b.id = Some("morning".into());
    b.every = Some("day".into());
    b.at = Some("09:00".into());
    b.command = Some("x".into());
    let (_, block) = plan_add(&b).unwrap();
    assert!(block.contains("at: \"09:00\""), "time should be quoted:\n{block}");
}

#[test]
fn a_block_lists_every_field_that_is_set() {
    let mut a = args();
    a.every = Some("6h".into());
    a.command = Some("/usr/bin/backup".into());
    a.retry = Some(2);
    let block = build_block("backup", &a);
    assert_eq!(
        block,
        "  - id: backup\n    schedule:\n      every: 6h\n    execution:\n      command: /usr/bin/backup\n    retry:\n      max_retries: 2\n"
    );
}

#[test]
fn the_lines_of_a_block_hold_the_arguments() {
    let mut a = args();
    a.title = Some("Back \"up\": all\\of it".into());
    a.every = Some("monday, friday".into());
    a.at = Some("09:00".into());
    a.command = Some("yes".into());
    a.cwd = Some("/tmp".into());
    a.timeout = Some("30m".into());
    a.overlap = Some("skip".into());
    a.disabled = true;
    let block = build_block("backup", &a);
    let lines: Vec<&str> = block.lines().collect();
    assert_eq!(
        lines,
        vec![
            "  - id: backup",
            "    title: \"Back \\\"up\\\": all\\\\of it\"",
            "    enabled: false",
            "    schedule:",
            "      every: [monday, friday]",
            "      at: \"09:00\"",
            "    execution:",
            "      command: \"yes\"",
            "      cwd: /tmp",
            "    timeout: 30m",
            "    overlap_policy: skip",
        ]
    );
    let mut m = args();
    m.every = Some("month".into());
    m.on_day = Some(15);
    m.last_day = true;
    m.command = Some("x".into());
    assert_eq!(
        build_block("m", &m),
        "  - id: m\n    schedule:\n      every: month\n      on_day: 15\n      last_day: true\n    execution:\n      command: x\n"
    );
    m.cron = Some("0 9 * * 1".into());
    assert_eq!(
        build_block("m", &m),
        "  - id: m\n    schedule:\n      cron: \"0 9 * * 1\"\n    execution:\n      command: x\n"
    );
}

#[test]
fn jobs_add_requires_command_and_schedule() {
    let mut a = args();
    a.id = Some("x".into());
    a.every = Some("6h".into());
    let p = plan_add(&a).unwrap_err();
    assert_eq!(p.code, 1);
    assert!(p.err.starts_with("error: --command is required"));
    let mut b = args();
    b.id = Some("x".into());
    b.command = Some("y".into());
    let p = plan_add(&b).unwrap_err();
    assert_eq!(p.code, 1);
    assert!(p.err.starts_with("error: a schedule is required"));
}

#[test]
fn jobs_add_json_reports_added() {
    let p = run_jobs_add("backup", &Outcome::Applied, OutputFormat::Json);
    assert!(p.out.contains("\"id\": \"backup\""));
    assert!(p.out.contains("\"added\": true"));
    let p = run_jobs_add("backup", &Outcome::Applied, OutputFormat::Human);
    assert_eq!(p.out, "Added: backup\n");
}

fn with_id(id: &str) -> JobsAddArgs {
    let mut a = args();
    a.id = Some(id.into());
    a.every = Some("6h".into());
    a.command = Some("x".into());
    a
}

#[test]
fn jobs_add_rejects_id_yaml_injection() {
    let evil = "real\n    schedule: { every: 1h }\n    execution: { command: c }\n  - id: smuggled";
    let p = plan_add(&with_id(evil)).unwrap_err();
    assert_eq!(p.code, 1);
    assert_eq!(
        p.err,
        format!("error: invalid job id {evil:?}: job ids must be kebab-case (a-z, 0-9, -)\n")
    );
}

#[test]
fn jobs_add_rejects_empty_and_null_id() {
    assert_eq!(plan_add(&with_id("")).unwrap_err().code, 1);
    assert_eq!(plan_add(&with_id("~")).unwrap_err().code, 1);
    assert_eq!(plan_add(&with_id("Not Kebab")).unwrap_err().code, 1);
}

#[test]
fn jobs_add_without_a_name_to_go_by_is_refused() {
    let mut a = args();
    a.every = Some("6h".into());
    a.command = Some("***".into());
    let p = plan_add(&a).unwrap_err();
    assert_eq!(
        p.err,
        "error: could not derive a job id from --title or --command; pass --id\n"
    );
}

#[test]
fn jobs_add_empty_title_falls_back_to_command_basename() {
    let mut a = args();
    a.title = Some("".into());
    a.every = Some("6h".into());
    a.command = Some("/usr/bin/backup".into());
    assert_eq!(plan_add(&a).unwrap().0, "backup");
}
