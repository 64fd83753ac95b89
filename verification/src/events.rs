//! Runtime events: the kinds, and the rows that record them.

use crate::config;
use crate::state::Stamp;
use crate::text;
use crate::text::signed_decimal_text;
use crate::zone;
use crate::zone::{is_zone, to_rfc3339};
use vstd::prelude::*;
use vstd::string::*;

verus! {

/// What happened to a run or to one of its attempts.
#[derive(Debug, Clone, Copy, PartialEq, Eq, Structural)]
pub enum EventKind {
    RunStarted,
    AttemptStarted,
    AttemptSucceeded,
    AttemptFailed,
    RunSucceeded,
    RunFailed,
    RunTimeout,
    RunCancelled,
}

impl EventKind {
    /// The stable name of the kind.
    pub open spec fn name(self) -> Seq<char> {
        match self {
            EventKind::RunStarted => "run_started"@,
            EventKind::AttemptStarted => "attempt_started"@,
            EventKind::AttemptSucceeded => "attempt_succeeded"@,
            EventKind::AttemptFailed => "attempt_failed"@,
            EventKind::RunSucceeded => "run_succeeded"@,
            EventKind::RunFailed => "run_failed"@,
            EventKind::RunTimeout => "run_timeout"@,
            EventKind::RunCancelled => "run_cancelled"@,
        }
    }

    /// Whether the kind tells of something that went wrong.
    pub open spec fn is_failure(self) -> bool {
        self is AttemptFailed || self is RunFailed || self is RunTimeout || self is RunCancelled
    }

    pub fn as_str(self) -> (r: &'static str)
        ensures
            r@ == self.name(),
    {
        match self {
            EventKind::RunStarted => "run_started",
            EventKind::AttemptStarted => "attempt_started",
            EventKind::AttemptSucceeded => "attempt_succeeded",
            EventKind::AttemptFailed => "attempt_failed",
            EventKind::RunSucceeded => "run_succeeded",
            EventKind::RunFailed => "run_failed",
            EventKind::RunTimeout => "run_timeout",
            EventKind::RunCancelled => "run_cancelled",
        }
    }

    /// The level that the event is recorded at.
    pub fn level(self) -> (r: &'static str)
        ensures
            r@ == if self.is_failure() {
                "error"@
            } else {
                "info"@
            },
    {
        match self {
            EventKind::AttemptFailed
            | EventKind::RunFailed
            | EventKind::RunTimeout
            | EventKind::RunCancelled => "error",
            _ => "info",
        }
    }
}

/// The row that records an event.
#[derive(Debug)]
pub struct EventRow {
    pub id: String,
    pub job_id: String,
    pub run_id: String,
    pub attempt_id: Option<String>,
    pub level: &'static str,
    pub event_type: &'static str,
    pub message: String,
    pub created_at: String,
}

/// An [`EventRow`] with its texts taken as characters.
#[verifier::ext_equal]
pub struct EventRowView {
    pub id: Seq<char>,
    pub job_id: Seq<char>,
    pub run_id: Seq<char>,
    pub attempt_id: Option<Seq<char>>,
    pub level: Seq<char>,
    pub event_type: Seq<char>,
    pub message: Seq<char>,
    pub created_at: Seq<char>,
}

impl View for EventRow {
    type V = EventRowView;

    open spec fn view(&self) -> EventRowView {
        EventRowView {
            id: self.id@,
            job_id: self.job_id@,
            run_id: self.run_id@,
            attempt_id: text::opt_view(self.attempt_id),
            level: self.level@,
            event_type: self.event_type@,
            message: self.message@,
            created_at: self.created_at@,
        }
    }
}

/// The text of an instant in UTC.
pub open spec fn utc_text(at: Stamp) -> Seq<char> {
    zone::rfc3339_text(at.secs as int, at.nanos as int, 0)
}

/// The id of an event: its scope (the attempt, or the run where there is none), its kind, and
/// when it was.
pub open spec fn event_id(scope: Seq<char>, kind: EventKind, micros: int) -> Seq<char> {
    "ev-"@ + scope + "-"@ + kind.name() + "-"@ + text::signed_decimal(micros)
}

/// The row for an event.
pub open spec fn event_row(
    kind: EventKind,
    job_id: Seq<char>,
    run_id: Seq<char>,
    attempt_id: Option<Seq<char>>,
    message: Seq<char>,
    at: Stamp,
) -> EventRowView {
    EventRowView {
        id: event_id(
            match attempt_id {
                Some(a) => a,
                None => run_id,
            },
            kind,
            at.in_micros(),
        ),
        job_id,
        run_id,
        attempt_id,
        level: if kind.is_failure() {
            "error"@
        } else {
            "info"@
        },
        event_type: kind.name(),
        message,
        created_at: utc_text(at),
    }
}

/// Writes an instant in UTC.
pub fn utc(at: Stamp) -> (r: String)
    requires
        at.valid(),
    ensures
        r@ == utc_text(at),
{
    let zone = "UTC";
    let known = is_zone(zone);
    assert(known);
    to_rfc3339(zone, at.secs, at.nanos)
}

/// The row that records an event.
pub fn emit(
    kind: EventKind,
    job_id: &str,
    run_id: &str,
    attempt_id: Option<&str>,
    message: &str,
    at: Stamp,
) -> (r: EventRow)
    requires
        at.valid(),
    ensures
        r@ == event_row(kind, job_id@, run_id@, config::opt_str_view(attempt_id), message@, at),
{
    let scope = match attempt_id {
        Some(a) => a,
        None => run_id,
    };
    let mut id = "ev-".to_owned();
    id.append(scope);
    id.append("-");
    id.append(kind.as_str());
    id.append("-");
    id.append(signed_decimal_text(at.micros()).as_str());
    EventRow {
        id,
        job_id: job_id.to_owned(),
        run_id: run_id.to_owned(),
        attempt_id: match attempt_id {
            Some(a) => Some(a.to_owned()),
            None => None,
        },
        level: kind.level(),
        event_type: kind.as_str(),
        message: message.to_owned(),
        created_at: utc(at),
    }
}

// -------------------------------------------------------------------------------- laws

/// A kind's name begins and ends with a letter and holds no dash.
proof fn lemma_kind_name(k: EventKind)
    ensures
        k.name().len() > 0,
        text::is_lower(k.name().last()),
        !k.name().contains('-'),
{
    reveal_strlit("run_started");
    reveal_strlit("attempt_started");
    reveal_strlit("attempt_succeeded");
    reveal_strlit("attempt_failed");
    reveal_strlit("run_succeeded");
    reveal_strlit("run_failed");
    reveal_strlit("run_timeout");
    reveal_strlit("run_cancelled");
}

/// Distinct kinds have distinct names.
pub proof fn lemma_kind_names_distinct(a: EventKind, b: EventKind)
    requires
        a.name() == b.name(),
    ensures
        a == b,
{
    reveal_strlit("run_started");
    reveal_strlit("attempt_started");
    reveal_strlit("attempt_succeeded");
    reveal_strlit("attempt_failed");
    reveal_strlit("run_succeeded");
    reveal_strlit("run_failed");
    reveal_strlit("run_timeout");
    reveal_strlit("run_cancelled");
    let (x, y) = (a.name(), b.name());
    assert(x.len() == y.len());
    assert(x[0] == y[0]);
    assert(x[4] == y[4]);
    assert(x[8] == y[8]);
}

/// What stands before the last dash, and after it, can be read back.
proof fn lemma_last_dash(a: Seq<char>, x: Seq<char>, b: Seq<char>, y: Seq<char>)
    requires
        a + "-"@ + x == b + "-"@ + y,
        !x.contains('-'),
        !y.contains('-'),
    ensures
        a == b,
        x == y,
{
    reveal_strlit("-");
    let s = a + "-"@ + x;
    let t = b + "-"@ + y;
    assert("-"@.len() == 1 && "-"@[0] == '-');
    assert(s.len() == t.len());
    if a.len() < b.len() {
        assert(t[b.len() as int] == '-');
        assert(s[b.len() as int] == x[b.len() - a.len() - 1]);
        assert(x.contains('-'));
    } else if b.len() < a.len() {
        assert(s[a.len() as int] == '-');
        assert(t[a.len() as int] == y[a.len() - b.len() - 1]);
        assert(y.contains('-'));
    } else {
        assert(s.take(a.len() as int) =~= a);
        assert(t.take(b.len() as int) =~= b);
        assert(s.skip(a.len() as int + 1) =~= x);
        assert(t.skip(b.len() as int + 1) =~= y);
    }
}

/// An event's id tells its scope, its kind and its instant: events of different attempts, of
/// different kinds or at different microseconds do not collide.
pub proof fn lemma_event_id_injective(
    scope_a: Seq<char>,
    kind_a: EventKind,
    micros_a: int,
    scope_b: Seq<char>,
    kind_b: EventKind,
    micros_b: int,
)
    requires
        event_id(scope_a, kind_a, micros_a) == event_id(scope_b, kind_b, micros_b),
    ensures
        scope_a == scope_b,
        kind_a == kind_b,
        micros_a == micros_b,
{
    reveal_strlit("-");
    reveal_strlit("ev-");
    lemma_kind_name(kind_a);
    lemma_kind_name(kind_b);
    let (na, nb) = (kind_a.name(), kind_b.name());
    let (pa, pb) = ("ev-"@ + scope_a + "-"@ + na, "ev-"@ + scope_b + "-"@ + nb);
    let da = text::decimal((if micros_a < 0 { -micros_a } else { micros_a }) as nat);
    let db = text::decimal((if micros_b < 0 { -micros_b } else { micros_b }) as nat);
    text::lemma_decimal_number((if micros_a < 0 { -micros_a } else { micros_a }) as nat);
    text::lemma_decimal_number((if micros_b < 0 { -micros_b } else { micros_b }) as nat);
    assert(!da.contains('-'));
    assert(!db.contains('-'));
    let ha = if micros_a < 0 {
        pa + "-"@
    } else {
        pa
    };
    let hb = if micros_b < 0 {
        pb + "-"@
    } else {
        pb
    };
    assert(event_id(scope_a, kind_a, micros_a) =~= ha + "-"@ + da);
    assert(event_id(scope_b, kind_b, micros_b) =~= hb + "-"@ + db);
    lemma_last_dash(ha, da, hb, db);
    assert(pa.last() == na.last());
    assert(pb.last() == nb.last());
    assert(micros_a < 0 ==> ha.last() == '-');
    assert(micros_b < 0 ==> hb.last() == '-');
    assert(pa == pb) by {
        if micros_a < 0 {
            assert(ha.drop_last() =~= pa);
            assert(hb.drop_last() =~= pb);
        }
    }
    text::lemma_decimal_injective(
        (if micros_a < 0 { -micros_a } else { micros_a }) as nat,
        (if micros_b < 0 { -micros_b } else { micros_b }) as nat,
    );
    lemma_last_dash("ev-"@ + scope_a, na, "ev-"@ + scope_b, nb);
    assert(("ev-"@ + scope_a).skip(3) =~= scope_a);
    assert(("ev-"@ + scope_b).skip(3) =~= scope_b);
    lemma_kind_names_distinct(kind_a, kind_b);
}

} // verus!
