//! What holds of every edit of the config: when the edit loop ends and with what, what it shows of
//! the errors, and which bytes an edit in place changes.

use crate::commands;
use crate::config::{EffectiveConfig, RawConfig};
use crate::config_blocks;
use crate::config_edit;
use crate::config_lines;
use crate::config_edit::{EventView, KindView, Target};
use crate::diagnostics;
use crate::diagnostics::{Diagnostic, DiagnosticView, Severity};
use crate::jobs_edit;
use crate::jobs_edit::{EditAction, EditEvent, EditResult, EditState};
use crate::logs;
use crate::text;
use crate::text_laws;
use crate::validation;
use vstd::prelude::*;
use vstd::utf8::*;

verus! {

// ------------------------------------------------------------------------------ the loop

/// The editor is first handed the config as it is; saved so again, nothing has changed, and
/// emptied, the edit is given up.
pub proof fn lemma_edit_begins(
    seed: &str,
    started: (EditState, EditAction),
    saved: String,
    r: (EditState, EditAction),
)
    requires
        call_ensures(jobs_edit::start_edit, (seed,), started),
        call_ensures(jobs_edit::run_edit_loop, (started.0, EditEvent::Saved(saved)), r),
    ensures
        started.1 matches EditAction::Open(b) && b@ == seed@,
        started.0.seed@ == seed@,
        text_laws::is_blank(saved@) ==> r.1 == EditAction::Finish(EditResult::Aborted),
        saved@ == seed@ && text::trimmed(jobs_edit::stripped(seed@)).len() > 0 ==> r.1
            == EditAction::Finish(EditResult::NoChange),
{
    if text_laws::is_blank(saved@) {
        lemma_blank_is_given_up(saved@);
    }
}

proof fn lemma_blank_is_given_up(s: Seq<char>)
    requires
        text_laws::is_blank(s),
    ensures
        text::trimmed(jobs_edit::stripped(s)).len() == 0,
{
    reveal_strlit("# \u{250c}\u{2500} periodic:");
    text_laws::lemma_white_space('#');
    if jobs_edit::fence_start().is_prefix_of(s) {
        assert(s[0] == jobs_edit::fence_start()[0]);
        assert(text::is_space(s[0]));
    }
    text_laws::lemma_trim_ignores_blanks(s, Seq::empty(), Seq::empty());
    assert(s + Seq::<char>::empty() + Seq::<char>::empty() =~= s);
    text_laws::lemma_trim_keeps_bare(Seq::empty());
}

/// A failure of the editor gives the edit up. A text that is saved is checked where it is new and
/// not blank, without the errors that were put above it. A checked text is the edit where it has
/// no error and differs from the config, no change where it does not differ, and is handed back
/// with its errors above it where it has any.
pub proof fn lemma_edit_goes_on(
    state: EditState,
    event: EditEvent,
    r: (EditState, EditAction),
)
    requires
        call_ensures(jobs_edit::run_edit_loop, (state, event), r),
    ensures
        r.0.seed@ == state.seed@,
        event is EditorFailed ==> r.1 == EditAction::Finish(EditResult::Aborted),
        event matches EditEvent::Saved(raw) ==> (r.1 matches EditAction::Check(b) ==> r.0.current@
            == b@ && b@ == jobs_edit::stripped(raw@) && b@ != state.current@),
        event matches EditEvent::Saved(raw) ==> !(r.1 is Open) && (
        r.1 matches EditAction::Finish(e) ==> !(e is Edited)),
        event matches EditEvent::Saved(raw) ==> (text::trimmed(jobs_edit::stripped(raw@)).len() > 0
            && jobs_edit::stripped(raw@) != state.current@ && raw@ != jobs_edit::buffer_of(state)
            ==> r.1 is Check),
        event matches EditEvent::Checked(errors) ==> {
            &&& errors@.len() == 0 && state.current@ != state.seed@ ==> (
            r.1 matches EditAction::Finish(EditResult::Edited(b)) && b@ == state.current@)
            &&& errors@.len() == 0 && state.current@ == state.seed@ ==> r.1 == EditAction::Finish(
                EditResult::NoChange,
            )
            &&& errors@.len() > 0 ==> (r.1 matches EditAction::Open(b) && b@ == jobs_edit::fence(
                diagnostics::diagnostic_views(errors@),
            ) + state.current@)
        },
{
}

/// A text without errors above it is kept as it is.
pub proof fn lemma_bare_text_is_kept(buf: &str, r: String)
    requires
        call_ensures(jobs_edit::strip_header, (buf,), r),
        buf@.len() == 0 || buf@[0] != '#',
    ensures
        r@ == buf@,
{
    reveal_strlit("# \u{250c}\u{2500} periodic:");
    if jobs_edit::fence_start().is_prefix_of(buf@) {
        assert(buf@[0] == jobs_edit::fence_start()[0]);
    }
}

/// What stands above a text counts its errors and tells the path and the message of each, in
/// order, each in one line that YAML reads as a comment.
pub proof fn lemma_each_error_is_told(diags: &Vec<Diagnostic>, r: String, d: DiagnosticView)
    requires
        call_ensures(jobs_edit::render_header, (diags,), r),
        forall|i: int| 0 <= i < d.path.len() ==> #[trigger] d.path[i] != '\n' && d.path[i] != '\r',
        forall|i: int|
            0 <= i < d.message.len() ==> #[trigger] d.message[i] != '\n' && d.message[i] != '\r',
    ensures
        ({
            let views = diagnostics::diagnostic_views(diags@);
            &&& r@ == "# \u{250c}\u{2500} periodic: "@ + text::decimal(diags@.len())
                + " error(s) \u{2014} fix and save, or save unchanged to abort\n"@
                + jobs_edit::fence_lines(views) + "# \u{2514}\u{2500}\n"@
            &&& jobs_edit::fence_lines(Seq::empty()).len() == 0
            &&& jobs_edit::fence_lines(views.push(d)) == jobs_edit::fence_lines(views) + (
            "# \u{2502} "@ + d.path + ": "@ + d.message + "\n"@)
        }),
{
    let views = diagnostics::diagnostic_views(diags@);
    assert(views.push(d).drop_last() =~= views);
    assert(jobs_edit::one_line(d.path) =~= d.path);
    assert(jobs_edit::one_line(d.message) =~= d.message);
}

/// A saved text is free of errors exactly where the config that it holds may be used; otherwise
/// all that is handed back is errors.
pub proof fn lemma_checked_text_is_used(
    parsed: Result<RawConfig, Diagnostic>,
    found: &Vec<bool>,
    checked: Result<(), Vec<Diagnostic>>,
    loaded: Result<EffectiveConfig, String>,
    i: int,
)
    requires
        call_ensures(jobs_edit::validate_yaml, (parsed, found), checked),
        call_ensures(commands::load_validated_config, (&parsed, found), loaded),
    ensures
        checked is Ok <==> loaded is Ok,
        parsed is Ok ==> (checked matches Err(errors) ==> errors@.len() > 0 && (0 <= i
            < errors@.len() ==> errors@[i].severity == Severity::Error)),
{
    if let Ok(config) = parsed {
        let findings = validation::config_findings(config, found@);
        let errors = jobs_edit::errors_of(findings);
        let is_error = |d: DiagnosticView| d.severity == Severity::Error;
        assert(errors == findings.filter(is_error));
        if errors.len() == 0 {
            commands::lemma_saved_edit_can_be_used(config, found@);
        } else {
            assert(errors.contains(errors[0]));
            findings.lemma_filter_contains_rev(is_error, errors[0]);
            lemma_filtered(findings, is_error, 0);
            let k = choose|k: int| 0 <= k < findings.len() && findings[k] == errors[0];
            assert(findings[k].severity == Severity::Error);
            if let Err(told) = checked {
                if 0 <= i < told@.len() {
                    lemma_filtered(findings, is_error, i);
                    assert(diagnostics::diagnostic_views(told@)[i] == told@[i]@);
                }
            }
        }
    }
}

proof fn lemma_filtered(
    findings: Seq<DiagnosticView>,
    keep: spec_fn(DiagnosticView) -> bool,
    i: int,
)
    requires
        0 <= i < findings.filter(keep).len(),
    ensures
        keep(findings.filter(keep)[i]),
{
    findings.lemma_filter_pred(keep, i);
}

// --------------------------------------------------------------------------- in place

/// Setting the flag of a job writes `true` or `false` in one place, over what stood there or in a
/// line of its own, and keeps every byte before and after it.
pub proof fn lemma_flag_is_written(
    source: &str,
    id: &str,
    on: Result<String, String>,
    off: Result<String, String>,
)
    requires
        call_ensures(config_edit::set_enabled, (source, id, true), on),
        call_ensures(config_edit::set_enabled, (source, id, false), off),
    ensures
        on is Ok <==> off is Ok,
        on matches Ok(a) ==> (off matches Ok(b) && exists|start: int, end: int, lead: Seq<char>|
            #![trigger encode_utf8(source@).take(start), encode_utf8(lead), encode_utf8(
                source@,
            ).skip(end)]
            encode_utf8(a@) == encode_utf8(source@).take(start) + (encode_utf8(lead) + encode_utf8(
                "true"@,
            )) + encode_utf8(source@).skip(end) && encode_utf8(b@) == encode_utf8(source@).take(
                start,
            ) + (encode_utf8(lead) + encode_utf8("false"@)) + encode_utf8(source@).skip(end) && (
            lead.len() == 0 || (start == end && exists|indent: Seq<char>|
                lead == #[trigger] ("\n"@ + indent + "enabled: "@)))),
        on matches Err(m) ==> (off matches Err(n) && n@ == m@),
{
    if config_edit::refusal(source@, id@) is None {
        if let Ok(events) = config_edit::yaml_events(source@) {
            if let Target::At(item) = config_edit::target(events, id@) {
                let pairs = config_edit::entries(events, item);
                let edit = config_edit::edit_of(source@, events, item, true);
                if let Some((start, end, insert)) = edit {
                    let lead = match config_edit::enabled_value(events, pairs) {
                        Some(_) => Seq::<char>::empty(),
                        None => config_edit::line_before_flag(source@, events, pairs),
                    };
                    assert(insert =~= lead + "true"@);
                    let other = config_edit::edit_of(source@, events, item, false);
                    if let Some((_, _, cleared)) = other {
                        assert(lead + "false"@ =~= cleared);
                    }
                    text::lemma_encode_concat(lead, "true"@);
                    text::lemma_encode_concat(lead, "false"@);
                    let indent = if pairs.len() > 1 {
                        config_edit::line_indent(source@, events[pairs[1].0].start as int)
                    } else {
                        config_edit::column_indent(source@, events[pairs[0].0].start as int)
                    };
                    if config_edit::enabled_value(events, pairs) is None {
                        assert(lead == "\n"@ + indent + "enabled: "@);
                    }
                    let t = encode_utf8(source@).take(start);
                    let s = encode_utf8(source@).skip(end);
                    let l = encode_utf8(lead);
                }
            }
        }
    }
}

/// The job that an edit changes has the id in an entry of its own; an id that no job has, and YAML
/// that cannot be read, are refused by every edit with the same words.
pub proof fn lemma_edited_job_has_id(
    source: &str,
    id: &str,
    enabled: bool,
    set: Result<String, String>,
    removed: Result<String, String>,
)
    requires
        call_ensures(config_edit::set_enabled, (source, id, enabled), set),
        call_ensures(config_blocks::remove_job, (source, id), removed),
    ensures
        config_edit::yaml_events(source@) matches Err(m) ==> (set matches Err(a) && a@
            == "invalid YAML: "@ + m + " (use `jobs edit`)"@) && (removed matches Err(b) && b@
            == "invalid YAML: "@ + m + " (use `jobs edit`)"@),
        config_edit::yaml_events(source@) matches Ok(events) ==> {
            let at = config_edit::target(events, id@);
            &&& at is Absent ==> (set matches Err(a) && a@ == "job '"@ + id@
                + "' not found (use `jobs edit`)"@) && (removed matches Err(b) && b@ == "job '"@
                + id@ + "' not found (use `jobs edit`)"@)
            &&& set is Ok || removed is Ok ==> (at matches Target::At(item) && has_entry(
                events,
                item,
                "id"@,
                id@,
            ))
        },
{
    if let Ok(events) = config_edit::yaml_events(source@) {
        if let Target::At(item) = config_edit::target(events, id@) {
            lemma_target_has_id(events, id@, item);
        }
    }
}

/// Whether a mapping has an entry whose key and value are these two scalars.
pub open spec fn has_entry(
    events: Seq<EventView>,
    item: int,
    key: Seq<char>,
    value: Seq<char>,
) -> bool {
    &&& 0 <= item < events.len() && events[item].kind is MappingStart
    &&& exists|i: int|
        0 <= i < config_edit::entries(events, item).len() && {
            let (k, v) = #[trigger] config_edit::entries(events, item)[i];
            &&& 0 <= k < events.len()
            &&& 0 <= v < events.len()
            &&& events[k].kind matches KindView::Scalar { value: a, .. } && a == key
            &&& events[v].kind matches KindView::Scalar { value: b, .. } && b == value
        }
}

proof fn lemma_target_has_id(events: Seq<EventView>, id: Seq<char>, item: int)
    requires
        config_edit::target(events, id) == Target::At(item),
    ensures
        has_entry(events, item, "id"@, id),
{
    let root = config_edit::first_mapping(events, 0)->0;
    let jobs = config_edit::jobs_value(events, config_edit::entries(events, root))->0;
    lemma_item_has_id(events, config_edit::past_comments(events, jobs + 1), id);
}

proof fn lemma_item_has_id(events: Seq<EventView>, i: int, id: Seq<char>)
    ensures
        config_edit::item_with_id(events, i, id) matches Some(item) ==> has_entry(
            events,
            item,
            "id"@,
            id,
        ),
    decreases events.len() - i,
{
    if config_edit::item_with_id(events, i, id) is Some {
        if events[i].kind is MappingStart && config_edit::has_id(
            events,
            config_edit::entries(events, i),
            id,
        ) {
            let pairs = config_edit::entries(events, i);
            let k = choose|k: int|
                0 <= k < pairs.len() && config_edit::scalar(events, (#[trigger] pairs[k]).0)
                    == Some("id"@) && config_edit::scalar(events, pairs[k].1) == Some(id);
            assert(config_edit::entries(events, i)[k] == pairs[k]);
        } else {
            lemma_item_has_id(
                events,
                config_edit::past_comments(events, config_edit::node_end(events, i)),
                id,
            );
        }
    }
}

/// Removing a job takes out one stretch of bytes and keeps all others; adding one keeps all bytes
/// and puts the block of the new job in one place, on a line of its own.
pub proof fn lemma_other_jobs_are_kept(
    source: &str,
    id: &str,
    removed: Result<String, String>,
    block: &str,
    added: Result<String, String>,
)
    requires
        call_ensures(config_blocks::remove_job, (source, id), removed),
        call_ensures(config_blocks::append_job, (source, block), added),
    ensures
        removed matches Ok(out) ==> exists|from: int, to: int|
            #![trigger encode_utf8(source@).take(from), encode_utf8(source@).skip(to)]
            from <= to && encode_utf8(out@) == encode_utf8(source@).take(from) + encode_utf8(
                source@,
            ).skip(to),
        added matches Ok(out) ==> exists|at: int, lead: Seq<char>|
            #![trigger encode_utf8(source@).take(at), encode_utf8(lead)]
            encode_utf8(out@) == encode_utf8(source@).take(at) + (encode_utf8(lead) + encode_utf8(
                block@,
            )) + encode_utf8(source@).skip(at) && (lead.len() == 0 || lead == "\n"@),
{
    if let Ok(out) = removed {
        if let Ok(events) = config_edit::yaml_events(source@) {
            if let Target::At(item) = config_edit::target(events, id@) {
                if let Some((from, to)) = config_blocks::block_of(source@, events, item) {
                    let s = encode_utf8(source@);
                    text::lemma_encode_concat(Seq::empty(), Seq::empty());
                    assert(Seq::<char>::empty() + Seq::<char>::empty() =~= Seq::<char>::empty());
                    assert(encode_utf8(Seq::<char>::empty()).len() == 0);
                    assert(encode_utf8(out@) =~= s.take(from) + s.skip(to));
                }
            }
        }
    }
    if let Ok(out) = added {
        if let Ok(events) = config_edit::yaml_events(source@) {
            if let config_blocks::Spot::At(at) = config_blocks::list_spot(source@, events) {
                let lead = config_blocks::line_break_at(source@, at);
                text::lemma_encode_concat(lead, block@);
                let s = encode_utf8(source@);
                assert(encode_utf8(out@) == s.take(at) + (encode_utf8(lead) + encode_utf8(block@))
                    + s.skip(at));
            }
        }
    }
}

/// A flag that is written over is the value of the first entry with the key `enabled`.
pub proof fn lemma_flag_belongs_to_key(events: Seq<EventView>, pairs: Seq<(int, int)>)
    ensures
        config_edit::enabled_value(events, pairs) matches Some(v) ==> exists|i: int|
            0 <= i < pairs.len() && (#[trigger] pairs[i]).1 == v && config_edit::scalar(
                events,
                pairs[i].0,
            ) == Some("enabled"@) && forall|k: int|
                0 <= k < i && 0 <= (#[trigger] pairs[k]).1 < events.len() ==> config_edit::scalar(
                    events,
                    pairs[k].0,
                ) != Some("enabled"@),
        config_edit::enabled_value(events, pairs) is None ==> forall|k: int|
            0 <= k < pairs.len() && 0 <= (#[trigger] pairs[k]).1 < events.len()
                ==> config_edit::scalar(events, pairs[k].0) != Some("enabled"@),
    decreases pairs.len(),
{
    if pairs.len() > 0 {
        let rest = pairs.drop_first();
        lemma_flag_belongs_to_key(events, rest);
        let here = config_edit::scalar(events, pairs[0].0) == Some("enabled"@) && 0 <= pairs[0].1
            < events.len();
        if here {
            assert(pairs[0].1 == config_edit::enabled_value(events, pairs)->0);
        } else if let Some(v) = config_edit::enabled_value(events, pairs) {
            let i = choose|i: int|
                0 <= i < rest.len() && (#[trigger] rest[i]).1 == v && config_edit::scalar(
                    events,
                    rest[i].0,
                ) == Some("enabled"@) && forall|k: int|
                    0 <= k < i && 0 <= (#[trigger] rest[k]).1 < events.len()
                        ==> config_edit::scalar(events, rest[k].0) != Some("enabled"@);
            assert(pairs[i + 1] == rest[i]);
            assert forall|k: int|
                0 <= k < i + 1 && 0 <= (#[trigger] pairs[k]).1
                    < events.len() implies config_edit::scalar(events, pairs[k].0) != Some(
                "enabled"@,
            ) by {
                if k > 0 {
                    assert(rest[k - 1] == pairs[k]);
                }
            }
        } else {
            assert forall|k: int|
                0 <= k < pairs.len() && 0 <= (#[trigger] pairs[k]).1
                    < events.len() implies config_edit::scalar(events, pairs[k].0) != Some(
                "enabled"@,
            ) by {
                if k > 0 {
                    assert(rest[k - 1] == pairs[k]);
                }
            }
        }
    }
}

/// An edit that cannot be made in place is refused, and told where it can be made.
pub proof fn lemma_refusals_are_worded(
    source: &str,
    id: &str,
    set: Result<String, String>,
    removed: Result<String, String>,
    block: &str,
    added: Result<String, String>,
    events: Seq<EventView>,
)
    requires
        call_ensures(config_edit::set_enabled, (source, id, true), set),
        call_ensures(config_blocks::remove_job, (source, id), removed),
        call_ensures(config_blocks::append_job, (source, block), added),
        config_edit::yaml_events(source@) == Ok::<Seq<EventView>, Seq<char>>(events),
    ensures
        !(config_edit::target(events, id@) is Absent) ==> (set matches Err(m) ==> m@ == "job '"@
            + id@ + "' cannot be edited in place (use `jobs edit`)"@),
        !(config_edit::target(events, id@) is Absent) ==> (removed matches Err(m) ==> m@
            == "job '"@ + id@ + "' cannot be edited in place (use `jobs edit`)"@),
        config_blocks::list_spot(source@, events) is Absent ==> (added matches Err(m) && m@
            == "the config has no list of jobs (use `jobs edit`)"@),
        config_blocks::list_spot(source@, events) is Entangled ==> (added matches Err(m) && m@
            == "the list of jobs cannot be added to in place (use `jobs edit`)"@),
        config_blocks::list_spot(source@, events) is At ==> added is Ok,
{
}

// -------------------------------------------------------------------------------- lines

/// Whether a text ends where a line ends.
pub open spec fn ends_line(before: Seq<char>) -> bool {
    before.len() == 0 || before.last() == '\n'
}

proof fn lemma_last_line(before: Seq<char>, part: Seq<char>)
    requires
        ends_line(before),
        !part.contains('\n'),
    ensures
        config_lines::last_line_start(before + part) == before.len(),
    decreases part.len(),
{
    if part.len() == 0 {
        assert(before + part =~= before);
    } else {
        let s = before + part;
        assert(s.drop_last() =~= before + part.drop_last());
        assert(s.last() == part[part.len() - 1]);
        assert(!part.drop_last().contains('\n')) by {
            if part.drop_last().contains('\n') {
                let k = choose|k: int|
                    0 <= k < part.drop_last().len() && part.drop_last()[k] == '\n';
                assert(part[k] == '\n');
            }
        }
        lemma_last_line(before, part.drop_last());
    }
}

/// The indent of a line is the blanks that it begins with.
pub proof fn lemma_indent_is_copied(
    before: Seq<char>,
    indent: Seq<char>,
    rest: Seq<char>,
    source: &str,
    at: usize,
    r: &str,
)
    requires
        ends_line(before),
        text_laws::is_blank(indent),
        !indent.contains('\n'),
        rest.len() > 0 && !text::is_space(rest[0]),
        source@ == before + indent + rest,
        at == encode_utf8(before + indent).len(),
        call_ensures(config_edit::line_indent_of, (source, at), r),
    ensures
        r@ == indent,
        config_edit::column_indent(source@, at as int) == Seq::new(indent.len(), |i: int| ' '),
{
    config_lines::lemma_first_bytes_of_part(before + indent, rest);
    lemma_last_line(before, indent);
    let line = source@.skip(before.len() as int);
    assert(line =~= indent + rest);
    lemma_leading(indent, rest);
    assert(line.take(indent.len() as int) =~= indent);
    assert(config_edit::column_indent(source@, at as int) =~= Seq::new(
        indent.len(),
        |i: int| ' ',
    ));
}

proof fn lemma_leading(indent: Seq<char>, rest: Seq<char>)
    requires
        text_laws::is_blank(indent),
        !indent.contains('\n'),
        rest.len() > 0 && !text::is_space(rest[0]),
    ensures
        config_edit::leading_space(indent + rest) == indent.len(),
    decreases indent.len(),
{
    if indent.len() == 0 {
        assert(indent + rest =~= rest);
    } else {
        let s = indent + rest;
        assert(s.drop_first() =~= indent.drop_first() + rest);
        assert(s[0] == indent[0]);
        assert(indent.contains(indent[0]));
        assert(!indent.drop_first().contains('\n')) by {
            if indent.drop_first().contains('\n') {
                let k = choose|k: int|
                    0 <= k < indent.drop_first().len() && indent.drop_first()[k] == '\n';
                assert(indent[k + 1] == '\n');
            }
        }
        lemma_leading(indent.drop_first(), rest);
    }
}

/// A place in a line belongs to the line from its first byte up to its line feed; where something
/// stands before the place, the lines up to it end after that line feed.
pub proof fn lemma_line_is_bounded(
    before: Seq<char>,
    part: Seq<char>,
    more: Seq<char>,
    after: Seq<char>,
    i: int,
)
    requires
        ends_line(before),
        !part.contains('\n'),
        !more.contains('\n'),
        0 <= i < part.len(),
        !text::is_space(part[i]),
    ensures
        ({
            let source = before + part + (more + seq!['\n'] + after);
            let at = encode_utf8(before + part).len() as int;
            &&& config_lines::line_start(source, at) == encode_utf8(before).len()
            &&& config_lines::line_end(source, at) == encode_utf8(before + part + more).len()
            &&& config_lines::lines_end(source, at) == encode_utf8(
                before + part + more + seq!['\n'],
            ).len()
            &&& config_lines::content_line_end(source, at) == encode_utf8(
                before + part + more,
            ).len()
        }),
{
    let tail = more + seq!['\n'] + after;
    let source = before + part + tail;
    let head = before + part;
    let at = encode_utf8(head).len() as int;
    config_lines::lemma_first_bytes_of_part(head, tail);
    lemma_last_line(before, part);
    assert(head.take(before.len() as int) =~= before);
    let rest = source.skip(head.len() as int);
    assert(rest =~= tail);
    text::lemma_find(rest, '\n');
    assert(rest[more.len() as int] == '\n');
    let k = text::find(rest, '\n')->0 as int;
    assert(k == more.len()) by {
        if k < more.len() {
            assert(rest[k] == more[k]);
            assert(more.contains('\n'));
        }
    }
    assert(rest.take(k) =~= more);
    text::lemma_encode_concat(head, more);
    assert(before + part + more =~= head + more);
    let line = head.skip(before.len() as int);
    assert(line =~= part);
    assert(!config_lines::only_space_before(source, at)) by {
        assert(line[i] == part[i]);
    }
    text::lemma_encode_concat(head + more, seq!['\n']);
    text::lemma_encode_concat(head + more + seq!['\n'], after);
    assert(source =~= head + more + seq!['\n'] + after);
    logs::lemma_ascii_bytes(seq!['\n']);
}

/// What is added to the list of jobs comes after the last thing in the list that is no comment.
pub proof fn lemma_added_job_comes_last(source: Seq<char>, events: Seq<EventView>, at: int)
    requires
        config_blocks::list_spot(source, events) == config_blocks::Spot::At(at),
    ensures
        exists|jobs: int, last: int|
            #![trigger events[jobs], events[last]]
            0 <= jobs < last < config_edit::node_end(events, jobs) <= events.len()
                && events[jobs].kind is SequenceStart && at == config_lines::lines_end(
                source,
                events[last].end as int,
            ) && forall|k: int|
                last < k < config_edit::node_end(events, jobs) ==> (#[trigger] events[k]).kind
                    is Comment || events[k].start >= events[k].end,
{
    let root = config_edit::first_mapping(events, 0)->0;
    let pairs = config_edit::entries(events, root);
    let jobs = config_edit::jobs_value(events, pairs)->0;
    lemma_jobs_value(events, pairs);
    let end = config_edit::node_end(events, jobs);
    config_edit::lemma_last_content(events, jobs + 1, end);
    let last = config_edit::last_content(events, jobs + 1, end)->0;
    lemma_nothing_after(events, jobs + 1, end);
    assert(events[jobs].kind is SequenceStart);
    assert(0 <= jobs < last < end <= events.len());
    assert(at == config_lines::lines_end(source, events[last].end as int));
}

proof fn lemma_jobs_value(events: Seq<EventView>, pairs: Seq<(int, int)>)
    ensures
        config_edit::jobs_value(events, pairs) matches Some(v) ==> 0 <= v < events.len()
            && events[v].kind is SequenceStart,
    decreases pairs.len(),
{
    if pairs.len() > 0 {
        lemma_jobs_value(events, pairs.drop_first());
    }
}

proof fn lemma_nothing_after(events: Seq<EventView>, from: int, to: int)
    requires
        config_edit::last_content(events, from, to) is Some,
    ensures
        forall|k: int|
            config_edit::last_content(events, from, to)->0 < k < to ==> (#[trigger] events[k]).kind
                is Comment || events[k].start >= events[k].end,
    decreases to - from,
{
    if to > from && to <= events.len() && from >= 0 {
        if !(!(events[to - 1].kind is Comment) && events[to - 1].start < events[to - 1].end) {
            lemma_nothing_after(events, from, to - 1);
        }
    }
}

// -------------------------------------------------------------------------------- nodes

/// How many nodes are begun and not ended between two places of the events.
pub open spec fn open_nodes(events: Seq<EventView>, from: int, to: int) -> int
    decreases to - from,
{
    if to <= from {
        0
    } else {
        open_nodes(events, from, to - 1) + match events[to - 1].kind {
            KindView::MappingStart { .. } => 1int,
            KindView::SequenceStart { .. } => 1,
            KindView::MappingEnd => -1,
            KindView::SequenceEnd => -1,
            _ => 0,
        }
    }
}

/// A node that is begun ends with the first event after which nothing that was begun in it is
/// open, itself among it; any other node is one event.
pub proof fn lemma_node_ends_when_closed(events: Seq<EventView>, start: int, k: int)
    requires
        0 <= start < events.len(),
    ensures
        ({
            let begun = events[start].kind is MappingStart || events[start].kind is SequenceStart;
            let end = config_edit::node_end(events, start);
            &&& !begun ==> end == start + 1
            &&& begun ==> start < end <= events.len()
            &&& begun ==> open_nodes(events, start, end) == 0 || (end == events.len()
                && open_nodes(events, start, end) > 0)
            &&& begun && start < k < end ==> open_nodes(events, start, k) > 0
        }),
{
    if config_edit::opens(events[start].kind) {
        reveal_with_fuel(open_nodes, 2);
        assert(open_nodes(events, start, start + 1) == 1);
        lemma_closing(events, start, start + 1, 1, k);
    }
}

proof fn lemma_closing(events: Seq<EventView>, start: int, i: int, depth: nat, k: int)
    requires
        0 <= start < i <= events.len(),
        depth >= 1,
        open_nodes(events, start, i) == depth,
    ensures
        ({
            let end = config_edit::closing(events, i, depth);
            &&& i <= end <= events.len()
            &&& open_nodes(events, start, end) == 0 || (end == events.len() && open_nodes(
                events,
                start,
                end,
            ) > 0)
            &&& i <= k < end ==> open_nodes(events, start, k) > 0
        }),
    decreases events.len() - i,
{
    if i < events.len() {
        let next = i + 1;
        assert(open_nodes(events, start, next) == open_nodes(events, start, i) + (
        if config_edit::opens(events[i].kind) {
            1int
        } else if config_edit::closes(events[i].kind) {
            -1
        } else {
            0
        }));
        if config_edit::opens(events[i].kind) {
            lemma_closing(events, start, next, depth + 1, k);
        } else if config_edit::closes(events[i].kind) {
            if depth > 1 {
                lemma_closing(events, start, next, (depth - 1) as nat, k);
            }
        } else {
            lemma_closing(events, start, next, depth, k);
        }
    }
}

/// The entries of a mapping of plain keys and values are these in turn, each key with the value
/// after it.
pub proof fn lemma_flat_mapping_has_its_entries(events: Seq<EventView>, item: int, n: nat, j: int)
    requires
        0 <= item,
        item + 2 * n + 1 < events.len(),
        events[item].kind is MappingStart,
        forall|i: int| item < i <= item + 2 * n ==> (#[trigger] events[i]).kind is Scalar,
        events[item + 2 * n + 1].kind is MappingEnd,
    ensures
        config_edit::entries(events, item).len() == n,
        0 <= j < n ==> config_edit::entries(events, item)[j] == (item + 1 + 2 * j, item + 2 + 2 * j),
{
    assert(!(events[item + 1].kind is Comment)) by {
        if n > 0 {
            assert(events[item + 1].kind is Scalar);
        }
    }
    lemma_flat_entries(events, item + 1, n, j);
}

proof fn lemma_flat_entries(events: Seq<EventView>, i: int, n: nat, j: int)
    requires
        0 <= i,
        i + 2 * n < events.len(),
        forall|k: int| i <= k < i + 2 * n ==> (#[trigger] events[k]).kind is Scalar,
        events[i + 2 * n].kind is MappingEnd,
    ensures
        config_edit::entries_from(events, i).len() == n,
        0 <= j < n ==> config_edit::entries_from(events, i)[j] == (i + 2 * j, i + 2 * j + 1),
    decreases n,
{
    if n > 0 {
        assert(events[i].kind is Scalar);
        assert(events[i + 1].kind is Scalar);
        assert(config_edit::past_comments(events, i + 1) == i + 1);
        assert(config_edit::node_end(events, i + 1) == i + 2);
        assert(!(events[i + 2].kind is Comment)) by {
            if n > 1 {
                assert(events[i + 2].kind is Scalar);
            }
        }
        assert(config_edit::past_comments(events, i + 2) == i + 2);
        lemma_flat_entries(events, i + 2, (n - 1) as nat, j - 1);
        let tail = config_edit::entries_from(events, i + 2);
        assert(config_edit::entries_from(events, i) == seq![(i, i + 1)] + tail);
        if 0 < j < n {
            assert((seq![(i, i + 1)] + tail)[j] == tail[j - 1]);
        }
    }
}

/// A job that takes entries from elsewhere is not changed in place.
pub proof fn lemma_merged_job_is_refused(
    source: &str,
    id: &str,
    enabled: bool,
    r: Result<String, String>,
    events: Seq<EventView>,
    item: int,
    i: int,
)
    requires
        call_ensures(config_edit::set_enabled, (source, id, enabled), r),
        config_edit::yaml_events(source@) == Ok::<Seq<EventView>, Seq<char>>(events),
        config_edit::target(events, id@) == Target::At(item),
        0 <= i < config_edit::entries(events, item).len(),
        config_edit::scalar(events, config_edit::entries(events, item)[i].0) == Some("<<"@),
    ensures
        r matches Err(m) && m@ == "job '"@ + id@ + "' cannot be edited in place (use `jobs edit`)"@,
{
    let pairs = config_edit::entries(events, item);
    assert(config_edit::scalar(events, pairs[i].0) == Some("<<"@));
    assert(config_edit::merges(events, pairs));
}

} // verus!
