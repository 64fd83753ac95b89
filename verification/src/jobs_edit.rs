//! The edit loop of `jobs edit`: what the editor is handed, and what its result comes to. A
//! text that does not validate is handed back with the errors above it, in a fence of comments
//! that never reaches the config.

use crate::config::RawConfig;
use crate::diagnostics;
use crate::diagnostics::{Diagnostic, Severity};
use crate::lines;
use crate::lines::lines;
use crate::text;
use crate::text::{chars_of, join, push_decimal, same, starts_with, trim};
use crate::validation;
use crate::validation::validate_config;
use vstd::prelude::*;
use vstd::string::*;

verus! {

/// What the edit loop ends with.
#[derive(Debug)]
pub enum EditResult {
    /// A valid config that differs from the text that the loop started with.
    Edited(String),
    /// The text that the loop started with was saved: as it was, or again after other saves.
    NoChange,
    /// The text was emptied, an invalid text was left as it was, or the editor failed.
    Aborted,
}

/// Where the edit loop stands: the text it started with, the text the editor is handed, the
/// fence above it, and whether nothing has been saved yet.
#[derive(Debug)]
pub struct EditState {
    pub seed: String,
    pub current: String,
    pub header: Option<String>,
    pub first: bool,
}

/// What the edit loop is told.
#[derive(Debug)]
pub enum EditEvent {
    /// The editor saved this text.
    Saved(String),
    /// The editor exited with a failure.
    EditorFailed,
    /// The saved text was checked: these are its errors.
    Checked(Vec<Diagnostic>),
}

/// What the edit loop asks for next.
#[derive(Debug)]
pub enum EditAction {
    /// Hand this text to the editor.
    Open(String),
    /// Check this text.
    Check(String),
    /// Stop.
    Finish(EditResult),
}

// --------------------------------------------------------------------------- the fence

/// How the fence begins and how its last line begins.
pub open spec fn fence_start() -> Seq<char> {
    "# \u{250c}\u{2500} periodic:"@
}

pub open spec fn fence_end() -> Seq<char> {
    "# \u{2514}\u{2500}"@
}

/// A text on one line: what would end it is a space.
pub open spec fn one_line(s: Seq<char>) -> Seq<char> {
    s.map_values(
        |c: char|
            if c == '\n' || c == '\r' {
                ' '
            } else {
                c
            },
    )
}

/// The line of the fence for one error.
pub open spec fn fence_line(d: diagnostics::DiagnosticView) -> Seq<char> {
    "# \u{2502} "@ + one_line(d.path) + ": "@ + one_line(d.message) + "\n"@
}

/// The lines of the fence for the errors, in order.
pub open spec fn fence_lines(diags: Seq<diagnostics::DiagnosticView>) -> Seq<char>
    decreases diags.len(),
{
    if diags.len() == 0 {
        Seq::empty()
    } else {
        fence_lines(diags.drop_last()) + fence_line(diags.last())
    }
}

/// The fence above a text with errors: how many there are, a line for each, and the end.
pub open spec fn fence(diags: Seq<diagnostics::DiagnosticView>) -> Seq<char> {
    "# \u{250c}\u{2500} periodic: "@ + text::decimal(diags.len())
        + " error(s) \u{2014} fix and save, or save unchanged to abort\n"@ + fence_lines(diags)
        + "# \u{2514}\u{2500}\n"@
}

fn push_one_line(out: &mut String, s: &str)
    ensures
        final(out)@ == old(out)@ + one_line(s@),
{
    let v = chars_of(s);
    let ghost before = out@;
    let mut i: usize = 0;
    assert(out@ =~= before + one_line(s@.take(0)));
    while i < v.len()
        invariant
            i <= v.len(),
            v@ == s@,
            out@ == before + one_line(s@.take(i as int)),
        decreases v.len() - i,
    {
        let c = v[i];
        if c == '\n' || c == '\r' {
            out.push(' ');
        } else {
            out.push(c);
        }
        assert(out@ =~= before + one_line(s@.take(i + 1)));
        i += 1;
    }
    assert(s@.take(i as int) =~= s@);
}

/// Renders the fence above a text with errors.
pub fn render_header(diags: &Vec<Diagnostic>) -> (r: String)
    ensures
        r@ == fence(diagnostics::diagnostic_views(diags@)),
{
    let ghost all = diagnostics::diagnostic_views(diags@);
    let mut r = "# \u{250c}\u{2500} periodic: ".to_owned();
    push_decimal(&mut r, diags.len() as u64);
    r.append(" error(s) \u{2014} fix and save, or save unchanged to abort\n");
    let ghost top = r@;
    let mut i: usize = 0;
    assert(all.take(0) =~= Seq::empty());
    assert(top + fence_lines(all.take(0)) =~= top);
    while i < diags.len()
        invariant
            i <= diags.len(),
            all == diagnostics::diagnostic_views(diags@),
            r@ == top + fence_lines(all.take(i as int)),
        decreases diags.len() - i,
    {
        let d = &diags[i];
        r.append("# \u{2502} ");
        push_one_line(&mut r, d.path.as_str());
        r.append(": ");
        push_one_line(&mut r, d.message.as_str());
        r.append("\n");
        assert(all.take(i + 1).drop_last() =~= all.take(i as int));
        assert(all.take(i + 1).last() == d@);
        assert(r@ =~= top + fence_lines(all.take(i + 1)));
        i += 1;
    }
    assert(all.take(i as int) =~= all);
    r.append("# \u{2514}\u{2500}\n");
    r
}

/// The lines after the first one that begins with `mark`; none where no line does.
pub open spec fn after_mark(ls: Seq<Seq<char>>, mark: Seq<char>) -> Seq<Seq<char>>
    decreases ls.len(),
{
    if ls.len() == 0 {
        Seq::empty()
    } else if mark.is_prefix_of(ls[0]) {
        ls.drop_first()
    } else {
        after_mark(ls.drop_first(), mark)
    }
}

/// A text without the fence that it begins with. What follows a fence keeps its lines, each
/// ended by a line feed.
pub open spec fn stripped(buf: Seq<char>) -> Seq<char> {
    if fence_start().is_prefix_of(buf) {
        let rest = text::joined(after_mark(lines::lines_of(buf), fence_end()), "\n"@);
        if rest.len() == 0 {
            rest
        } else {
            rest + "\n"@
        }
    } else {
        buf
    }
}

/// Removes the fence that a text begins with.
pub fn strip_header(buf: &str) -> (r: String)
    ensures
        r@ == stripped(buf@),
{
    if !starts_with(buf, "# \u{250c}\u{2500} periodic:") {
        return buf.to_owned();
    }
    let ls = lines(buf);
    let ghost all = text::views(ls@);
    let mut i: usize = 0;
    let mut rest: Vec<String> = Vec::new();
    assert(all.skip(0) =~= all);
    while i < ls.len() && !starts_with(ls[i].as_str(), "# \u{2514}\u{2500}")
        invariant
            i <= ls.len(),
            all == text::views(ls@),
            after_mark(all.skip(i as int), fence_end()) == after_mark(all, fence_end()),
        decreases ls.len() - i,
    {
        assert(all.skip(i as int)[0] == ls@[i as int]@);
        assert(all.skip(i as int).drop_first() =~= all.skip(i + 1));
        i += 1;
    }
    let ghost wanted = after_mark(all, fence_end());
    if i < ls.len() {
        assert(all.skip(i as int)[0] == ls@[i as int]@);
        assert(all.skip(i as int).drop_first() =~= all.skip(i + 1));
        let mut j: usize = i + 1;
        assert(text::views(rest@) =~= all.subrange(i + 1, j as int));
        while j < ls.len()
            invariant
                i < j <= ls.len(),
                all == text::views(ls@),
                text::views(rest@) == all.subrange(i + 1, j as int),
            decreases ls.len() - j,
        {
            let ghost before = text::views(rest@);
            rest.push(ls[j].clone());
            assert(text::views(rest@) =~= before.push(all[j as int]));
            assert(text::views(rest@) =~= all.subrange(i + 1, j + 1));
            j += 1;
        }
        assert(all.subrange(i + 1, j as int) =~= all.skip(i + 1));
    } else {
        assert(text::views(rest@) =~= Seq::empty());
    }
    assert(text::views(rest@) == wanted);
    let mut r = join(&rest, "\n");
    if !r.as_str().is_empty() {
        r.append("\n");
    }
    r
}

// -------------------------------------------------------------------------- validation

/// The errors among findings, in order.
pub open spec fn errors_of(
    findings: Seq<diagnostics::DiagnosticView>,
) -> Seq<diagnostics::DiagnosticView> {
    findings.filter(|d: diagnostics::DiagnosticView| d.severity == Severity::Error)
}

/// Keeps the errors among diagnostics.
pub fn only_errors(all: &Vec<Diagnostic>) -> (r: Vec<Diagnostic>)
    ensures
        diagnostics::diagnostic_views(r@) == errors_of(diagnostics::diagnostic_views(all@)),
{
    let ghost views = diagnostics::diagnostic_views(all@);
    let ghost p = |d: diagnostics::DiagnosticView| d.severity == Severity::Error;
    let mut r: Vec<Diagnostic> = Vec::new();
    let mut i: usize = 0;
    assert(diagnostics::diagnostic_views(r@) =~= views.take(0).filter(p)) by {
        reveal(Seq::filter);
    }
    while i < all.len()
        invariant
            i <= all.len(),
            views == diagnostics::diagnostic_views(all@),
            p == |d: diagnostics::DiagnosticView| d.severity == Severity::Error,
            diagnostics::diagnostic_views(r@) == views.take(i as int).filter(p),
        decreases all.len() - i,
    {
        let ghost before = diagnostics::diagnostic_views(r@);
        assert(views.take(i + 1).drop_last() =~= views.take(i as int));
        assert(views.take(i + 1).last() == all@[i as int]@);
        if all[i].is_error() {
            r.push(all[i].duplicate());
            assert(diagnostics::diagnostic_views(r@) =~= before.push(all@[i as int]@));
        }
        assert(diagnostics::diagnostic_views(r@) =~= views.take(i + 1).filter(p)) by {
            reveal(Seq::filter);
        }
        i += 1;
    }
    assert(views.take(i as int) =~= views);
    r
}

/// The errors of a saved text: why it could not be read, or the errors of the config that it
/// holds. `found` says of each job whether the machine has its command.
pub fn validate_yaml(parsed: Result<RawConfig, Diagnostic>, found: &Vec<bool>) -> (r: Result<
    (),
    Vec<Diagnostic>,
>)
    requires
        parsed matches Ok(config) ==> found@.len() == config.jobs@.len(),
    ensures
        (match parsed {
            Err(d) => r matches Err(v) && diagnostics::diagnostic_views(v@) == seq![d@],
            Ok(config) => {
                let errors = errors_of(validation::config_findings(config, found@));
                match r {
                    Ok(_) => errors.len() == 0,
                    Err(v) => errors.len() > 0 && diagnostics::diagnostic_views(v@) == errors,
                }
            },
        }),
{
    match parsed {
        Err(d) => {
            let ghost view = d@;
            let mut v: Vec<Diagnostic> = Vec::new();
            v.push(d);
            assert(diagnostics::diagnostic_views(v@) =~= seq![view]);
            Err(v)
        },
        Ok(config) => {
            let errors = only_errors(&validate_config(&config, found));
            assert(diagnostics::diagnostic_views(errors@).len() == errors@.len());
            if errors.len() == 0 {
                Ok(())
            } else {
                Err(errors)
            }
        },
    }
}

// ---------------------------------------------------------------------------- the loop

/// The text that the editor is handed: the fence, where there is one, and the text below it.
pub open spec fn buffer_of(state: EditState) -> Seq<char> {
    match state.header {
        Some(h) => h@ + state.current@,
        None => state.current@,
    }
}

/// Whether a text is the one that the editor was handed.
fn is_buffer(state: &EditState, saved: &str) -> (r: bool)
    ensures
        r == (saved@ == buffer_of(*state)),
{
    match &state.header {
        Some(h) => {
            let mut buffer = h.clone();
            buffer.append(state.current.as_str());
            same(saved, buffer.as_str())
        },
        None => same(saved, state.current.as_str()),
    }
}

/// The state in which the loop starts, and the text the editor is handed first.
pub fn start_edit(seed: &str) -> (r: (EditState, EditAction))
    ensures
        r.0.seed@ == seed@,
        r.0.current@ == seed@,
        r.0.header is None,
        r.0.first,
        r.1 matches EditAction::Open(b) && b@ == seed@,
{
    let state = EditState {
        seed: seed.to_owned(),
        current: seed.to_owned(),
        header: None,
        first: true,
    };
    (state, EditAction::Open(seed.to_owned()))
}

/// What a saved text comes to: whether `next` and `action` are the state and the action that
/// follow.
pub open spec fn saved_step(
    state: EditState,
    raw: Seq<char>,
    next: EditState,
    action: EditAction,
) -> bool {
    let body = stripped(raw);
    if text::trimmed(body).len() == 0 {
        next == state && action == EditAction::Finish(EditResult::Aborted)
    } else if raw == buffer_of(state) || body == state.current@ {
        next == state && action == EditAction::Finish(
            if state.first && state.header is None {
                EditResult::NoChange
            } else {
                EditResult::Aborted
            },
        )
    } else {
        next.current@ == body && next.header == state.header && !next.first && (
        action matches EditAction::Check(b) && b@ == body)
    }
}

/// One step of the edit loop.
///
/// A saved text ends the loop where it is blank, or where it is what was handed out, with its
/// fence or without; any other is checked. A checked text without errors ends the loop; with
/// errors it is handed back below a fence that lists them. The loop never ends with the text
/// that it started with as an edit.
pub fn run_edit_loop(state: EditState, event: EditEvent) -> (r: (EditState, EditAction))
    ensures
        r.0.seed@ == state.seed@,
        r.1 matches EditAction::Finish(EditResult::Edited(b)) ==> b@ != state.seed@,
        (match event {
            EditEvent::EditorFailed => r.0 == state && r.1 == EditAction::Finish(
                EditResult::Aborted,
            ),
            EditEvent::Saved(raw) => saved_step(state, raw@, r.0, r.1),
            EditEvent::Checked(errors) => if errors@.len() == 0 {
                r.0 == state && (if state.current@ == state.seed@ {
                    r.1 == EditAction::Finish(EditResult::NoChange)
                } else {
                    r.1 matches EditAction::Finish(EditResult::Edited(b)) && b@ == state.current@
                })
            } else {
                r.0.current@ == state.current@ && r.0.first == state.first && (
                r.0.header matches Some(h) && h@ == fence(
                    diagnostics::diagnostic_views(errors@),
                )) && (r.1 matches EditAction::Open(b) && b@ == buffer_of(r.0))
            },
        }),
{
    match event {
        EditEvent::EditorFailed => (state, EditAction::Finish(EditResult::Aborted)),
        EditEvent::Saved(raw) => {
            let body = strip_header(raw.as_str());
            if trim(body.as_str()).is_empty() {
                return (state, EditAction::Finish(EditResult::Aborted));
            }
            if is_buffer(&state, raw.as_str()) || same(body.as_str(), state.current.as_str()) {
                let result = if state.first && state.header.is_none() {
                    EditResult::NoChange
                } else {
                    EditResult::Aborted
                };
                return (state, EditAction::Finish(result));
            }
            let next = EditState {
                seed: state.seed,
                current: body.clone(),
                header: state.header,
                first: false,
            };
            (next, EditAction::Check(body))
        },
        EditEvent::Checked(errors) => {
            if errors.len() == 0 {
                if same(state.current.as_str(), state.seed.as_str()) {
                    return (state, EditAction::Finish(EditResult::NoChange));
                }
                let text = state.current.clone();
                return (state, EditAction::Finish(EditResult::Edited(text)));
            }
            let header = render_header(&errors);
            let mut buffer = header.clone();
            buffer.append(state.current.as_str());
            let next = EditState {
                seed: state.seed,
                current: state.current,
                header: Some(header),
                first: state.first,
            };
            (next, EditAction::Open(buffer))
        },
    }
}

// -------------------------------------------------------------------------------- laws

proof fn lemma_marks()
    ensures
        "\n"@ =~= seq!['\n'],
        fence_end() =~= seq!['#', ' ', '\u{2514}', '\u{2500}'],
        "# \u{2514}\u{2500}\n"@ =~= fence_end().push('\n'),
        "# \u{2502} "@ =~= seq!['#', ' ', '\u{2502}', ' '],
        "# \u{250c}\u{2500} periodic: "@ =~= fence_start().push(' '),
        fence_start().len() > 3,
        fence_start()[2] == '\u{250c}',
        !fence_start().contains('\n'),
{
    reveal_strlit("\n");
    reveal_strlit("# \u{2514}\u{2500}");
    reveal_strlit("# \u{2514}\u{2500}\n");
    reveal_strlit("# \u{2502} ");
    reveal_strlit("# \u{250c}\u{2500} periodic: ");
    reveal_strlit("# \u{250c}\u{2500} periodic:");
}

/// Text that ends a line and holds no end mark after a line feed, and a line that begins with
/// `# │`, hold none together.
proof fn lemma_fence_line_inside(head: Seq<char>, d: diagnostics::DiagnosticView)
    requires
        head.len() > 0,
        head.last() == '\n',
        !text::occurs(head, "\n"@ + fence_end()),
    ensures
        !text::occurs(head + fence_line(d), "\n"@ + fence_end()),
        (head + fence_line(d)).last() == '\n',
{
    lemma_marks();
    let body = one_line(d.path) + ": "@ + one_line(d.message);
    reveal_strlit(": ");
    assert(forall|k: int| 0 <= k < body.len() ==> body[k] != '\n');
    let line = fence_line(d);
    let mark = "# \u{2502} "@;
    let p = "\n"@ + fence_end();
    let whole = head + line;
    assert(line =~= mark + body + "\n"@);
    assert(p =~= seq!['\n', '#', ' ', '\u{2514}', '\u{2500}']);
    if text::occurs(whole, p) {
        let i = choose|i: int| text::occurs_at(whole, p, i);
        let part = whole.subrange(i, i + 5);
        assert(part[0] == whole[i] && part[1] == whole[i + 1] && part[2] == whole[i + 2] && part[3]
            == whole[i + 3] && part[4] == whole[i + 4]);
        if i + 5 <= head.len() {
            assert(head.subrange(i, i + 5) =~= part);
            assert(text::occurs_at(head, p, i));
        } else if i < head.len() - 1 {
            let j = head.len() - 1;
            assert(whole[j] == '\n');
            assert(part[j - i] == whole[j]);
        } else if i == head.len() - 1 {
            assert(whole[i + 3] == line[2]);
        } else {
            let k = i - head.len();
            assert(whole[i] == line[k]);
            assert(k >= 4);
            assert(i + 5 <= whole.len());
            assert(line[k] == body[k - 4]);
        }
    }
}

proof fn lemma_fence_inside(top: Seq<char>, diags: Seq<diagnostics::DiagnosticView>)
    requires
        top.len() > 0,
        top.last() == '\n',
        !text::occurs(top, "\n"@ + fence_end()),
    ensures
        !text::occurs(top + fence_lines(diags), "\n"@ + fence_end()),
        (top + fence_lines(diags)).last() == '\n',
    decreases diags.len(),
{
    if diags.len() == 0 {
        assert(top + fence_lines(diags) =~= top);
    } else {
        let rest = diags.drop_last();
        lemma_fence_inside(top, rest);
        lemma_fence_line_inside(top + fence_lines(rest), diags.last());
        assert(top + fence_lines(diags) =~= top + fence_lines(rest) + fence_line(diags.last()));
    }
}

/// The lines before the first marked one do not count.
proof fn lemma_after_mark_skips(a: Seq<Seq<char>>, b: Seq<Seq<char>>, mark: Seq<char>)
    requires
        forall|i: int| 0 <= i < a.len() ==> !mark.is_prefix_of(#[trigger] a[i]),
    ensures
        after_mark(a + b, mark) == after_mark(b, mark),
    decreases a.len(),
{
    if a.len() == 0 {
        assert(a + b =~= b);
    } else {
        assert((a + b)[0] == a[0]);
        assert((a + b).drop_first() =~= a.drop_first() + b);
        assert forall|i: int| 0 <= i < a.drop_first().len() implies !mark.is_prefix_of(
            #[trigger] a.drop_first()[i],
        ) by {
            assert(a.drop_first()[i] == a[i + 1]);
        }
        lemma_after_mark_skips(a.drop_first(), b, mark);
    }
}

/// The first line of the fence: no end mark in it.
proof fn lemma_fence_top(n: nat)
    ensures
        ({
            let top = "# \u{250c}\u{2500} periodic: "@ + text::decimal(n)
                + " error(s) \u{2014} fix and save, or save unchanged to abort\n"@;
            &&& top.len() > 0
            &&& top.last() == '\n'
            &&& !text::occurs(top, "\n"@ + fence_end())
            &&& fence_start().is_prefix_of(top)
            &&& !fence_end().is_prefix_of(top)
        }),
{
    lemma_marks();
    text::lemma_decimal_number(n);
    let lead = "# \u{250c}\u{2500} periodic: "@;
    let tail = " error(s) \u{2014} fix and save, or save unchanged to abort\n"@;
    reveal_strlit(" error(s) \u{2014} fix and save, or save unchanged to abort\n");
    let top = lead + text::decimal(n) + tail;
    let p = "\n"@ + fence_end();
    assert(forall|i: int| 0 <= i < tail.len() - 1 ==> tail[i] != '\n');
    assert forall|i: int| 0 <= i < top.len() - 1 implies top[i] != '\n' by {
        if i < lead.len() {
            assert(top[i] == lead[i]);
            if i < fence_start().len() {
                assert(lead[i] == fence_start()[i]);
            }
        } else if i < lead.len() + text::decimal(n).len() {
            assert(top[i] == text::decimal(n)[i - lead.len()]);
        } else {
            assert(top[i] == tail[i - lead.len() - text::decimal(n).len()]);
        }
    }
    assert(top.last() == tail.last());
    if text::occurs(top, p) {
        let i = choose|i: int| text::occurs_at(top, p, i);
        assert(top.subrange(i, i + p.len())[0] == top[i]);
        assert(p[0] == '\n');
    }
    assert(fence_start() =~= top.subrange(0, fence_start().len() as int));
    if fence_end().is_prefix_of(top) {
        assert(top.subrange(0, 4)[2] == top[2]);
        assert(lead[2] == fence_start()[2]);
        assert(fence_end()[2] == '\u{2514}');
    }
}

/// A text that is saved as it was handed out ends the loop without an edit, whatever it holds;
/// one that was handed back with its errors is given up.
pub proof fn lemma_unchanged_save_ends(state: EditState, next: EditState, action: EditAction)
    requires
        saved_step(state, buffer_of(state), next, action),
    ensures
        action == EditAction::Finish(EditResult::NoChange) || action == EditAction::Finish(
            EditResult::Aborted,
        ),
        state.header is Some ==> action == EditAction::Finish(EditResult::Aborted),
{
}

/// Removing the fence that was put above a text gives the text back, where the text ends with
/// a line feed, has no carriage return before one, and is not a lone line feed.
pub proof fn lemma_fence_is_stripped(diags: Seq<diagnostics::DiagnosticView>, body: Seq<char>)
    requires
        body.len() > 1,
        body.last() == '\n',
        !text::occurs(body, seq!['\r', '\n']),
    ensures
        stripped(fence(diags) + body) == body,
{
    lemma_marks();
    lemma_fence_top(diags.len());
    let top = "# \u{250c}\u{2500} periodic: "@ + text::decimal(diags.len())
        + " error(s) \u{2014} fix and save, or save unchanged to abort\n"@;
    let inner = top + fence_lines(diags);
    let end = "# \u{2514}\u{2500}\n"@;
    let whole = fence(diags) + body;
    lemma_fence_inside(top, diags);
    assert(whole =~= inner + (end + body));
    assert(fence_start().is_prefix_of(whole)) by {
        assert(fence_start() =~= top.subrange(0, fence_start().len() as int));
        assert(whole.subrange(0, fence_start().len() as int) =~= top.subrange(
            0,
            fence_start().len() as int,
        ));
    }
    lines::lemma_lines_concat(inner, end + body);
    lines::lemma_lines_concat(end, body);
    assert(!fence_end().contains('\n'));
    lines::lemma_one_line(fence_end());
    let a = lines::lines_of(inner);
    let b = lines::lines_of(end) + lines::lines_of(body);
    assert forall|k: int| 0 <= k < a.len() implies !fence_end().is_prefix_of(#[trigger] a[k]) by {
        if fence_end().is_prefix_of(a[k]) {
            lines::lemma_line_starts(inner, fence_end(), k);
            if fence_end().is_prefix_of(inner) {
                assert(inner.subrange(0, 4) =~= top.subrange(0, 4)) by {
                    assert(top.len() >= fence_start().len());
                }
            }
        }
    }
    lemma_after_mark_skips(a, b, fence_end());
    assert(b[0] == fence_end());
    assert(fence_end().is_prefix_of(b[0]));
    assert(b.drop_first() =~= lines::lines_of(body));
    lines::lemma_lines_join(body);
    let rest = text::joined(lines::lines_of(body), "\n"@);
    assert(rest + "\n"@ =~= rest.push('\n'));
}

} // verus!
