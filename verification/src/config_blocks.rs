//! Adding a job's block to the config text, and taking one out, with every other byte kept.

use crate::config_edit;
use crate::config_edit::{
    cannot_edit, end_of_node, first_mapping_at, is_anchored, is_flow, jobs_value_at,
    last_content_at, map_entries, node_shares, not_found, replace_bytes, scan, target_at, unreadable, Found,
    YamlEvent,
};
use crate::config_lines;
use crate::config_lines::{line_start_of, lines_end_of};
use crate::text;
use crate::text::{chars_of, split_bytes};
use vstd::prelude::*;
use vstd::string::*;
use vstd::utf8::*;

verus! {

// ------------------------------------------------------------------------- taking a job out

/// The bytes of the job whose mapping starts at `item`: from the start of its first line to the
/// end of the last line that holds some of it. There are none where the job has anchors or
/// aliases in it.
pub open spec fn block_of(
    source: Seq<char>,
    events: Seq<config_edit::EventView>,
    item: int,
) -> Option<(int, int)> {
    let end = config_edit::node_end(events, item);
    if config_edit::shares_nodes(events, item, end) {
        None
    } else {
        match config_edit::last_content(events, item, end) {
            None => None,
            Some(last) => {
                let from = config_lines::line_start(source, events[item].start as int);
                let to = config_lines::lines_end(source, events[last].end as int);
                if from <= to {
                    Some((from, to))
                } else {
                    None
                }
            },
        }
    }
}

fn block_at(source: &str, events: &Vec<YamlEvent>, item: usize) -> (r: Option<(usize, usize)>)
    requires
        item < events.len(),
        config_edit::spans_fit(source@, config_edit::event_views(events@)),
    ensures
        (match r {
            Some((from, to)) => block_of(
                source@,
                config_edit::event_views(events@),
                item as int,
            ) == Some((from as int, to as int)) && from <= to && text::is_boundary(
                source@,
                from as int,
            ) && text::is_boundary(source@, to as int),
            None => block_of(source@, config_edit::event_views(events@), item as int) is None,
        }),
{
    let ghost all = config_edit::event_views(events@);
    let end = end_of_node(events, item);
    if node_shares(events, item, end) {
        return None;
    }
    let last = match last_content_at(events, item, end) {
        Some(i) => i,
        None => {
            return None;
        },
    };
    assert(all[item as int] == events@[item as int]@);
    assert(all[last as int] == events@[last as int]@);
    let (from, _) = line_start_of(source, events[item].start);
    let to = lines_end_of(source, events[last].end);
    if from <= to {
        Some((from, to))
    } else {
        None
    }
}

/// Whether `r` is what taking a job out makes of the config text: the text without the job's
/// lines, or why that cannot be done.
pub open spec fn removed(
    source: Seq<char>,
    id: Seq<char>,
    r: Result<Seq<char>, Seq<char>>,
) -> bool {
    match config_edit::refusal(source, id) {
        Some(m) => r == Err::<Seq<char>, Seq<char>>(m),
        None => match config_edit::yaml_events(source) {
            Ok(events) => config_edit::target(events, id) matches config_edit::Target::At(item)
                && match block_of(source, events, item) {
                Some((from, to)) => r matches Ok(out) && config_edit::spliced(
                    source,
                    from,
                    to,
                    Seq::empty(),
                    out,
                ),
                None => r == Err::<Seq<char>, Seq<char>>(
                    "job '"@ + id + "' cannot be edited in place (use `jobs edit`)"@,
                ),
            },
            Err(_) => false,
        },
    }
}

/// Takes a job's lines out of the config text, and keeps every byte around them. Where the job
/// is not there or cannot be edited safely, the message says so.
pub fn remove_job(source: &str, job_id: &str) -> (r: Result<String, String>)
    ensures
        removed(source@, job_id@, config_edit::result_view(r)),
{
    let events = match scan(source) {
        Ok(events) => events,
        Err(m) => {
            return Err(unreadable(m.as_str()));
        },
    };
    match target_at(&events, job_id) {
        Found::Absent => Err(not_found(job_id)),
        Found::Entangled => Err(cannot_edit(job_id)),
        Found::At(item) => match block_at(source, &events, item) {
            Some((from, to)) => {
                let out = replace_bytes(source, from, to, "");
                proof {
                    reveal_strlit("");
                    assert(""@ =~= Seq::<char>::empty());
                }
                Ok(out)
            },
            None => Err(cannot_edit(job_id)),
        },
    }
}

// --------------------------------------------------------------------------- adding a job

/// Where a job can be added to the list of jobs.
pub enum Spot {
    /// There is no list.
    Absent,
    /// The list cannot be added to safely: it is empty, in flow style, or an anchor covers it.
    Entangled,
    /// After the lines that end at this byte.
    At(int),
}

pub open spec fn list_spot(source: Seq<char>, events: Seq<config_edit::EventView>) -> Spot {
    match config_edit::first_mapping(events, 0) {
        None => Spot::Absent,
        Some(root) => match config_edit::jobs_value(events, config_edit::entries(events, root)) {
            None => Spot::Absent,
            Some(jobs) => if config_edit::anchored(events[root].kind) || config_edit::anchored(
                events[jobs].kind,
            ) || config_edit::flow_style(events[root].kind) || config_edit::flow_style(
                events[jobs].kind,
            ) {
                Spot::Entangled
            } else {
                match config_edit::last_content(events, jobs + 1, config_edit::node_end(events, jobs)) {
                    None => Spot::Entangled,
                    Some(last) => Spot::At(config_lines::lines_end(source, events[last].end as int)),
                }
            },
        },
    }
}

/// What stands before an added block: a line feed, unless a line begins there.
pub open spec fn line_break_at(source: Seq<char>, at: int) -> Seq<char> {
    let head = text::first_bytes(source, at);
    if head.len() > 0 && head.last() == '\n' {
        Seq::empty()
    } else {
        "\n"@
    }
}

fn list_spot_at(source: &str, events: &Vec<YamlEvent>) -> (r: Result<usize, bool>)
    requires
        config_edit::spans_fit(source@, config_edit::event_views(events@)),
    ensures
        (match list_spot(source@, config_edit::event_views(events@)) {
            Spot::Absent => r == Err::<usize, bool>(false),
            Spot::Entangled => r == Err::<usize, bool>(true),
            Spot::At(at) => r matches Ok(n) && n == at && text::is_boundary(source@, at),
        }),
{
    let ghost all = config_edit::event_views(events@);
    let root = match first_mapping_at(events) {
        Some(i) => i,
        None => {
            return Err(false);
        },
    };
    let top = map_entries(events, root);
    let jobs = match jobs_value_at(events, &top) {
        Some(v) => v,
        None => {
            return Err(false);
        },
    };
    assert(all[root as int] == events@[root as int]@);
    assert(all[jobs as int] == events@[jobs as int]@);
    if is_anchored(&events[root].kind) || is_anchored(&events[jobs].kind) || is_flow(
        &events[root].kind,
    ) || is_flow(&events[jobs].kind) {
        return Err(true);
    }
    match last_content_at(events, jobs + 1, end_of_node(events, jobs)) {
        Some(last) => {
            assert(all[last as int] == events@[last as int]@);
            Ok(lines_end_of(source, events[last].end))
        },
        None => Err(true),
    }
}

/// Whether `r` is what adding a block makes of the config text: the text with the block after
/// the last job, or why that cannot be done.
pub open spec fn added(
    source: Seq<char>,
    block: Seq<char>,
    r: Result<Seq<char>, Seq<char>>,
) -> bool {
    match config_edit::yaml_events(source) {
        Err(m) => r == Err::<Seq<char>, Seq<char>>("invalid YAML: "@ + m + " (use `jobs edit`)"@),
        Ok(events) => match list_spot(source, events) {
            Spot::Absent => r == Err::<Seq<char>, Seq<char>>(
                "the config has no list of jobs (use `jobs edit`)"@,
            ),
            Spot::Entangled => r == Err::<Seq<char>, Seq<char>>(
                "the list of jobs cannot be added to in place (use `jobs edit`)"@,
            ),
            Spot::At(at) => r matches Ok(out) && config_edit::spliced(
                source,
                at,
                at,
                line_break_at(source, at) + block,
                out,
            ),
        },
    }
}

/// Adds a job's block at the end of the list of jobs, and keeps every other byte. Where there is
/// no list or it cannot be added to safely, the message says so.
pub fn append_job(source: &str, block: &str) -> (r: Result<String, String>)
    ensures
        added(source@, block@, config_edit::result_view(r)),
{
    let events = match scan(source) {
        Ok(events) => events,
        Err(m) => {
            return Err(unreadable(m.as_str()));
        },
    };
    match list_spot_at(source, &events) {
        Err(false) => Err("the config has no list of jobs (use `jobs edit`)".to_owned()),
        Err(true) => Err(
            "the list of jobs cannot be added to in place (use `jobs edit`)".to_owned(),
        ),
        Ok(at) => {
            let (head, tail) = split_bytes(source, at);
            let h = chars_of(head);
            if h.len() > 0 && h[h.len() - 1] == '\n' {
                assert(Seq::<char>::empty() + block@ =~= block@);
                Ok(replace_bytes(source, at, at, block))
            } else {
                let mut insert = "\n".to_owned();
                insert.append(block);
                Ok(replace_bytes(source, at, at, insert.as_str()))
            }
        },
    }
}

// -------------------------------------------------------------------------------------- laws

/// A job is taken out in whole lines: what is removed starts where a line starts, and ends where
/// one does or at the end of the text. Nothing of a line of another job goes with it.
pub proof fn lemma_block_is_whole_lines(
    source: Seq<char>,
    events: Seq<config_edit::EventView>,
    item: int,
)
    requires
        0 <= item < events.len(),
        config_edit::spans_fit(source, events),
        block_of(source, events, item) is Some,
    ensures
        ({
            let (from, to) = block_of(source, events, item)->0;
            &&& config_lines::begins_line(source, from)
            &&& config_lines::begins_line(source, to) || to == encode_utf8(source).len()
        }),
{
    let end = config_edit::node_end(events, item);
    config_edit::lemma_last_content(events, item, end);
    let last = config_edit::last_content(events, item, end)->0;
    assert(config_edit::spans_fit(source, events));
    assert(events[item].start <= events[item].end);
    assert(events[last].start <= events[last].end);
    config_lines::lemma_line_start_begins_line(source, events[item].start as int);
    config_lines::lemma_lines_end_ends_line(source, events[last].end as int);
}

/// A job is added between lines: what is added starts a line of its own, and the text before it
/// and after it stays as it is.
pub proof fn lemma_addition_keeps_all(
    source: Seq<char>,
    at: int,
    block: Seq<char>,
    out: Seq<char>,
)
    requires
        0 <= at <= encode_utf8(source).len(),
        config_edit::spliced(source, at, at, line_break_at(source, at) + block, out),
    ensures
        encode_utf8(out).take(at) == encode_utf8(source).take(at),
        encode_utf8(out).skip(at + encode_utf8(line_break_at(source, at) + block).len())
            == encode_utf8(source).skip(at),
        (line_break_at(source, at) + block).len() > 0 ==> config_lines::begins_line(source, at) || (
        line_break_at(source, at) + block)[0] == '\n',
{
    let insert = line_break_at(source, at) + block;
    config_edit::lemma_edit_keeps_rest(source, at, at, insert, out);
    reveal_strlit("\n");
}

} // verus!
