//! Health checks: what is said of the state database, and whether something has to be done.

use crate::state;
use crate::state::{daemon_is_stale, DaemonStatus, DbHealth, Stamp};
use crate::text;
use crate::text::{same, signed_decimal_text};
use vstd::prelude::*;
use vstd::string::*;

verus! {

/// Whether the database can be used: it is not there yet, or its schema is not newer than this
/// build's.
pub open spec fn is_healthy(version: Option<i64>, expected: i64) -> bool {
    match version {
        Some(v) => v <= expected,
        None => true,
    }
}

/// What is said of the database.
pub open spec fn health_text(path: Seq<char>, version: Option<i64>, expected: i64) -> Seq<char> {
    match version {
        None => "state database: not yet created at "@ + path + " (created on first use)\n"@,
        Some(v) => {
            let shown = text::signed_decimal(v as int);
            let wanted = text::signed_decimal(expected as int);
            if v == expected {
                "state database: healthy at "@ + path + " (schema v"@ + shown + ")\n"@
            } else if v < expected {
                "state database: at "@ + path + ", schema v"@ + shown + " will upgrade to v"@ + wanted
                    + " on next use\n"@
            } else {
                "state database: at "@ + path + ", schema v"@ + shown
                    + " is newer than this build (expected v"@ + wanted
                    + "); upgrade periodic\n"@
            }
        },
    }
}

/// Reports on the database: a line of text, and whether it is healthy.
pub fn report(health: &DbHealth) -> (r: (String, bool))
    ensures
        r.0@ == health_text(health.path@, health.schema_version, health.expected_version),
        r.1 == is_healthy(health.schema_version, health.expected_version),
{
    let expected = health.expected_version;
    match health.schema_version {
        None => {
            let mut s = "state database: not yet created at ".to_owned();
            s.append(health.path.as_str());
            s.append(" (created on first use)\n");
            (s, true)
        },
        Some(v) => {
            let shown = signed_decimal_text(v);
            let wanted = signed_decimal_text(expected);
            if v == expected {
                let mut s = "state database: healthy at ".to_owned();
                s.append(health.path.as_str());
                s.append(" (schema v");
                s.append(shown.as_str());
                s.append(")\n");
                (s, true)
            } else if v < expected {
                let mut s = "state database: at ".to_owned();
                s.append(health.path.as_str());
                s.append(", schema v");
                s.append(shown.as_str());
                s.append(" will upgrade to v");
                s.append(wanted.as_str());
                s.append(" on next use\n");
                (s, true)
            } else {
                let mut s = "state database: at ".to_owned();
                s.append(health.path.as_str());
                s.append(", schema v");
                s.append(shown.as_str());
                s.append(" is newer than this build (expected v");
                s.append(wanted.as_str());
                s.append("); upgrade periodic\n");
                (s, false)
            }
        },
    }
}

/// What is said of the daemon.
pub open spec fn liveness_text(status: Option<DaemonStatus>, now: Stamp) -> Seq<char> {
    match status {
        None => "daemon: not running\n"@,
        Some(s) => if s.state@ != "running"@ {
            "daemon: "@ + s.state@ + "\n"@
        } else if state::is_stale(s.heartbeat, now) {
            "daemon: not responding (stale heartbeat; possible crash)\n"@
        } else {
            "daemon: running (pid "@ + text::signed_decimal(s.pid as int) + ")\n"@
        },
    }
}

/// Whether nothing has to be done about the daemon: only one that says it is running, and has
/// not been heard of for too long, is a problem.
pub open spec fn is_daemon_healthy(status: Option<DaemonStatus>, now: Stamp) -> bool {
    match status {
        Some(s) => s.state@ == "running"@ ==> !state::is_stale(s.heartbeat, now),
        None => true,
    }
}

/// Reports on the daemon: a line of text, and whether it is healthy.
pub fn daemon_report(status: &Option<DaemonStatus>, now: Stamp) -> (r: (String, bool))
    requires
        now.valid(),
        status matches Some(s) ==> s.heartbeat.valid(),
    ensures
        r.0@ == liveness_text(*status, now),
        r.1 == is_daemon_healthy(*status, now),
{
    match status {
        None => ("daemon: not running\n".to_owned(), true),
        Some(s) => {
            if !same(s.state.as_str(), "running") {
                let mut t = "daemon: ".to_owned();
                t.append(s.state.as_str());
                t.append("\n");
                (t, true)
            } else if daemon_is_stale(s, now) {
                (
                    "daemon: not responding (stale heartbeat; possible crash)\n".to_owned(),
                    false,
                )
            } else {
                let mut t = "daemon: running (pid ".to_owned();
                t.append(signed_decimal_text(s.pid as i64).as_str());
                t.append(")\n");
                (t, true)
            }
        },
    }
}

/// `doctor`: reports on the database and the daemon, with an exit code of 1 where something has
/// to be done about either.
pub fn run(health: &DbHealth, status: &Option<DaemonStatus>, now: Stamp) -> (r: (String, u8))
    requires
        now.valid(),
        status matches Some(s) ==> s.heartbeat.valid(),
    ensures
        r.0@ == health_text(health.path@, health.schema_version, health.expected_version)
            + liveness_text(*status, now),
        r.1 == (if is_healthy(health.schema_version, health.expected_version) && is_daemon_healthy(
            *status,
            now,
        ) {
            0u8
        } else {
            1
        }),
{
    let (mut text, database_ok) = report(health);
    let (line, daemon_ok) = daemon_report(status, now);
    text.append(line.as_str());
    let code: u8 = if database_ok && daemon_ok {
        0
    } else {
        1
    };
    (text, code)
}

} // verus!
