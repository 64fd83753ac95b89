//! Changes of the config: adding a job, taking one out, pausing one and resuming one.

use crate::config::RawConfig;
use crate::config_blocks;
use crate::config_blocks::{append_job, remove_job};
use crate::config_edit;
use crate::config_edit::set_enabled;
use crate::diagnostics;
use crate::diagnostics::Diagnostic;
use crate::ipc::{Request, Response};
use crate::jobs_edit;
use crate::jobs_edit::validate_yaml;
use crate::json;
use crate::json::{field, get_text, object, Field, Json};
use crate::text::same;
use crate::validation;
use vstd::prelude::*;
use vstd::string::*;

verus! {

/// A change of the config.
#[derive(Debug)]
pub enum Mutation {
    /// Add a job: its block of YAML.
    Add(String),
    Pause(String),
    Resume(String),
    Remove(String),
}

/// A [`Mutation`] with its texts taken as characters.
#[verifier::ext_equal]
pub enum MutationView {
    Add(Seq<char>),
    Pause(Seq<char>),
    Resume(Seq<char>),
    Remove(Seq<char>),
}

impl View for Mutation {
    type V = MutationView;

    open spec fn view(&self) -> MutationView {
        match *self {
            Mutation::Add(block) => MutationView::Add(block@),
            Mutation::Pause(id) => MutationView::Pause(id@),
            Mutation::Resume(id) => MutationView::Resume(id@),
            Mutation::Remove(id) => MutationView::Remove(id@),
        }
    }
}

/// What came of a change.
#[derive(Debug)]
pub enum Outcome {
    Applied,
    /// It was refused: the message says why.
    Refused(String),
}

/// The change that `jobs pause` and `jobs resume` make.
pub fn set_enabled_mutation(id: &str, enable: bool) -> (r: Mutation)
    ensures
        r@ == (if enable {
            MutationView::Resume(id@)
        } else {
            MutationView::Pause(id@)
        }),
{
    if enable {
        Mutation::Resume(id.to_owned())
    } else {
        Mutation::Pause(id.to_owned())
    }
}

// ------------------------------------------------------------------- asking the daemon

/// The method that asks the daemon for a change.
pub open spec fn method_of(m: MutationView) -> Seq<char> {
    match m {
        MutationView::Add(_) => "jobs.add"@,
        MutationView::Pause(_) => "jobs.pause"@,
        MutationView::Resume(_) => "jobs.resume"@,
        MutationView::Remove(_) => "jobs.remove"@,
    }
}

/// The one parameter that the daemon is given: a block to add, or the id of a job.
pub open spec fn params_of(m: MutationView) -> json::JsonView {
    let (name, value) = match m {
        MutationView::Add(block) => ("block"@, block),
        MutationView::Pause(id) => ("id"@, id),
        MutationView::Resume(id) => ("id"@, id),
        MutationView::Remove(id) => ("id"@, id),
    };
    json::JsonView::Object(seq![(name, json::JsonView::Text(value))])
}

/// The request that asks the daemon for a change.
pub fn mutation_to_request(mutation: &Mutation) -> (r: Request)
    ensures
        r.id@ == method_of(mutation@),
        r.method@ == method_of(mutation@),
        r.params@ == params_of(mutation@),
{
    let (method, name, value) = match mutation {
        Mutation::Add(block) => ("jobs.add", "block", block),
        Mutation::Pause(id) => ("jobs.pause", "id", id),
        Mutation::Resume(id) => ("jobs.resume", "id", id),
        Mutation::Remove(id) => ("jobs.remove", "id", id),
    };
    let mut fields: Vec<Field> = Vec::new();
    fields.push(field(name, json::text(value.as_str())));
    assert(json::field_views(fields@) =~= seq![(name@, json::JsonView::Text(value@))]);
    Request { id: method.to_owned(), method: method.to_owned(), params: object(fields) }
}

/// The change that a request asks for: nothing where its method is no change, or where the
/// parameter is missing.
pub open spec fn asked_for(method: Seq<char>, params: json::JsonView) -> Option<MutationView> {
    if method == "jobs.add"@ {
        match json::text_field(params, "block"@) {
            Some(block) => Some(MutationView::Add(block)),
            None => None,
        }
    } else {
        match json::text_field(params, "id"@) {
            Some(id) => if method == "jobs.pause"@ {
                Some(MutationView::Pause(id))
            } else if method == "jobs.resume"@ {
                Some(MutationView::Resume(id))
            } else if method == "jobs.remove"@ {
                Some(MutationView::Remove(id))
            } else {
                None
            },
            None => None,
        }
    }
}

/// The change that a request asks for.
pub fn request_to_mutation(req: &Request) -> (r: Option<Mutation>)
    ensures
        (match r {
            Some(m) => asked_for(req.method@, req.params@) == Some(m@),
            None => asked_for(req.method@, req.params@) is None,
        }),
{
    let method = req.method.as_str();
    if same(method, "jobs.add") {
        return match get_text(&req.params, "block") {
            Some(block) => Some(Mutation::Add(block.as_str().to_owned())),
            None => None,
        };
    }
    match get_text(&req.params, "id") {
        Some(id) => {
            let id = id.as_str().to_owned();
            if same(method, "jobs.pause") {
                Some(Mutation::Pause(id))
            } else if same(method, "jobs.resume") {
                Some(Mutation::Resume(id))
            } else if same(method, "jobs.remove") {
                Some(Mutation::Remove(id))
            } else {
                None
            }
        },
        None => None,
    }
}

proof fn lemma_methods_differ()
    ensures
        "jobs.add"@ != "jobs.pause"@,
        "jobs.add"@ != "jobs.resume"@,
        "jobs.add"@ != "jobs.remove"@,
        "jobs.pause"@ != "jobs.resume"@,
        "jobs.pause"@ != "jobs.remove"@,
        "jobs.resume"@ != "jobs.remove"@,
{
    reveal_strlit("jobs.add");
    reveal_strlit("jobs.pause");
    reveal_strlit("jobs.resume");
    reveal_strlit("jobs.remove");
    assert("jobs.add"@[5] == 'a');
    assert("jobs.pause"@[5] == 'p');
    assert("jobs.resume"@[5] == 'r' && "jobs.resume"@[7] == 's');
    assert("jobs.remove"@[5] == 'r' && "jobs.remove"@[7] == 'm');
}

/// What came of a change that the daemon was asked for.
pub fn mutation_outcome(answer: Response) -> (r: Outcome)
    ensures
        (match answer {
            Response::Success { .. } => r is Applied,
            Response::Failure { error, .. } => r matches Outcome::Refused(m) && m@
                == error.message@,
        }),
{
    match answer {
        Response::Success { .. } => Outcome::Applied,
        Response::Failure { error, .. } => Outcome::Refused(error.message),
    }
}

/// The answer to a request for a change, given what came of it.
pub fn change_reply(id: String, outcome: Outcome) -> (r: Response)
    ensures
        (match outcome {
            Outcome::Applied => r matches Response::Success { id: i, result } && i@ == id@
                && result@ == json::JsonView::Object(
                seq![("applied"@, json::JsonView::Bool(true))],
            ),
            Outcome::Refused(m) => r matches Response::Failure { id: i, error } && i@ == id@
                && error.code@ == "refused"@ && error.message@ == m@,
        }),
{
    match outcome {
        Outcome::Applied => {
            let mut fields: Vec<Field> = Vec::new();
            fields.push(field("applied", Json::Bool(true)));
            assert(json::field_views(fields@) =~= seq![("applied"@, json::JsonView::Bool(true))]);
            Response::ok(id, object(fields))
        },
        Outcome::Refused(message) => Response::err(id, "refused".to_owned(), message),
    }
}

// ------------------------------------------------------------------- changing the text

/// Whether `r` is what a change makes of the config text.
pub open spec fn changed(
    source: Seq<char>,
    m: MutationView,
    r: Result<Seq<char>, Seq<char>>,
) -> bool {
    match m {
        MutationView::Add(block) => config_blocks::added(source, block, r),
        MutationView::Pause(id) => config_edit::toggled(source, id, false, r),
        MutationView::Resume(id) => config_edit::toggled(source, id, true, r),
        MutationView::Remove(id) => config_blocks::removed(source, id, r),
    }
}

/// The config text that a change makes, or why it is refused.
pub fn apply(source: &str, mutation: &Mutation) -> (r: Result<String, String>)
    ensures
        changed(source@, mutation@, config_edit::result_view(r)),
{
    match mutation {
        Mutation::Add(block) => append_job(source, block.as_str()),
        Mutation::Pause(id) => set_enabled(source, id.as_str(), false),
        Mutation::Resume(id) => set_enabled(source, id.as_str(), true),
        Mutation::Remove(id) => remove_job(source, id.as_str()),
    }
}

/// The config that an edit is saved as: the edited text, unless the config is no longer what the
/// edit started from.
pub fn replace_unless_changed(base: &str, now: &str, edited: String) -> (r: Result<
    String,
    String,
>)
    ensures
        (if now@ == base@ {
            r matches Ok(out) && out@ == edited@
        } else {
            r matches Err(m) && m@
                == "the config changed on disk while it was being edited; nothing was saved"@
        }),
{
    if same(base, now) {
        Ok(edited)
    } else {
        Err(
            "the config changed on disk while it was being edited; nothing was saved".to_owned(),
        )
    }
}

/// Why a text is not saved as the config: the first of its errors. A text without errors is
/// saved. `found` says of each job whether the machine has its command.
pub fn save_refusal(parsed: Result<RawConfig, Diagnostic>, found: &Vec<bool>) -> (r: Option<String>)
    requires
        parsed matches Ok(config) ==> found@.len() == config.jobs@.len(),
    ensures
        (match parsed {
            Err(d) => r matches Some(m) && m@ == d@.message,
            Ok(config) => {
                let errors = jobs_edit::errors_of(validation::config_findings(config, found@));
                if errors.len() == 0 {
                    r is None
                } else {
                    r matches Some(m) && m@ == errors[0].message
                }
            },
        }),
{
    match validate_yaml(parsed, found) {
        Ok(()) => None,
        Err(errors) => {
            assert(diagnostics::diagnostic_views(errors@).len() == errors@.len());
            assert(diagnostics::diagnostic_views(errors@)[0] == errors@[0]@);
            Some(errors[0].message.clone())
        },
    }
}

// ------------------------------------------------------------------------------------ laws

/// The request that asks for a change is read back as that change.
pub proof fn lemma_request_round_trips(m: MutationView)
    ensures
        asked_for(method_of(m), params_of(m)) == Some(m),
{
    lemma_methods_differ();
    reveal_with_fuel(json::text_in, 2);
}

} // verus!
