//! Surgical edits of the config text. An edit replaces one span of the text, found through the
//! positions of the YAML events; every other byte stays as it is. What cannot be edited safely
//! (a list of jobs in flow style, anchors, aliases and merge keys that span the target, text that
//! does not parse) is refused.

use crate::config_lines;
use crate::config_lines::content_line_end_of;
use crate::text;
use crate::text::{chars_of, same, space_char, split_bytes};
use granit_parser::Event;
use granit_parser::Parser;
use granit_parser::StructureStyle::Flow;
use vstd::prelude::*;
use vstd::string::*;
use vstd::utf8::*;

verus! {

/// What an event of the YAML text is.
#[derive(Debug)]
pub enum YamlKind {
    Comment,
    Scalar { value: String, anchor: usize },
    MappingStart { flow: bool, anchor: usize },
    MappingEnd,
    SequenceStart { flow: bool, anchor: usize },
    SequenceEnd,
    Alias,
    Other,
}

/// An event of the YAML text and the bytes that it covers.
#[derive(Debug)]
pub struct YamlEvent {
    pub kind: YamlKind,
    pub start: usize,
    pub end: usize,
}

/// A [`YamlKind`] with its text taken as characters.
pub enum KindView {
    Comment,
    Scalar { value: Seq<char>, anchor: usize },
    MappingStart { flow: bool, anchor: usize },
    MappingEnd,
    SequenceStart { flow: bool, anchor: usize },
    SequenceEnd,
    Alias,
    Other,
}

/// A [`YamlEvent`] with its text taken as characters.
#[verifier::ext_equal]
pub struct EventView {
    pub kind: KindView,
    pub start: usize,
    pub end: usize,
}

impl View for YamlKind {
    type V = KindView;

    open spec fn view(&self) -> KindView {
        match *self {
            YamlKind::Comment => KindView::Comment,
            YamlKind::Scalar { value, anchor } => KindView::Scalar { value: value@, anchor },
            YamlKind::MappingStart { flow, anchor } => KindView::MappingStart { flow, anchor },
            YamlKind::MappingEnd => KindView::MappingEnd,
            YamlKind::SequenceStart { flow, anchor } => KindView::SequenceStart {
                flow,
                anchor,
            },
            YamlKind::SequenceEnd => KindView::SequenceEnd,
            YamlKind::Alias => KindView::Alias,
            YamlKind::Other => KindView::Other,
        }
    }
}

impl View for YamlEvent {
    type V = EventView;

    open spec fn view(&self) -> EventView {
        EventView { kind: self.kind@, start: self.start, end: self.end }
    }
}

pub open spec fn event_views(v: Seq<YamlEvent>) -> Seq<EventView> {
    v.map_values(|e: YamlEvent| e@)
}

/// The events of a YAML text, or the message that says why it has none.
pub uninterp spec fn yaml_events(source: Seq<char>) -> Result<Seq<EventView>, Seq<char>>;

/// Whether every event covers whole characters of the text.
pub open spec fn spans_fit(source: Seq<char>, events: Seq<EventView>) -> bool {
    forall|i: int|
        0 <= i < events.len() ==> (#[trigger] events[i]).start <= events[i].end && text::is_boundary(
            source,
            events[i].start as int,
        ) && text::is_boundary(source, events[i].end as int)
}

/// `granit_parser::Parser::new_from_str` and `next_event` until the end or the first error: a
/// function of the text. The span of each event is in bounds, in order, and at boundaries of
/// characters.
#[verifier::external_body]
pub(crate) fn scan(source: &str) -> (r: Result<Vec<YamlEvent>, String>)
    ensures
        (match r {
            Ok(v) => yaml_events(source@) == Ok::<Seq<EventView>, Seq<char>>(event_views(v@))
                && spans_fit(source@, event_views(v@)),
            Err(m) => yaml_events(source@) == Err::<Seq<EventView>, Seq<char>>(m@),
        }),
{
    Parser::new_from_str(source).map(|item| {
        let (event, span) = item.map_err(|e| e.to_string())?;
        let range = span.byte_range().unwrap();
        let kind = match event {
            Event::Comment(..) => YamlKind::Comment,
            Event::Scalar(v, _, anchor, _) => YamlKind::Scalar { value: v.into(), anchor },
            Event::MappingStart(s, anchor, _) => YamlKind::MappingStart { flow: s == Flow, anchor },
            Event::MappingEnd => YamlKind::MappingEnd,
            Event::SequenceStart(s, anchor, _) => YamlKind::SequenceStart { flow: s == Flow, anchor },
            Event::SequenceEnd => YamlKind::SequenceEnd,
            Event::Alias(_) => YamlKind::Alias,
            _ => YamlKind::Other
        };
        Ok(YamlEvent { kind, start: range.start, end: range.end })
    }).collect()
}

// ----------------------------------------------------------------- walking the events

/// The index of the next event from `i` on that is no comment.
pub open spec fn past_comments(events: Seq<EventView>, i: int) -> int
    decreases events.len() - i,
{
    if 0 <= i < events.len() && events[i].kind is Comment {
        past_comments(events, i + 1)
    } else {
        i
    }
}

pub open spec fn opens(kind: KindView) -> bool {
    kind is MappingStart || kind is SequenceStart
}

pub open spec fn closes(kind: KindView) -> bool {
    kind is MappingEnd || kind is SequenceEnd
}

/// The index just past the event that closes `depth` open collections, looking from `i` on.
pub open spec fn closing(events: Seq<EventView>, i: int, depth: nat) -> int
    decreases events.len() - i,
{
    if i < 0 || i >= events.len() {
        events.len() as int
    } else if opens(events[i].kind) {
        closing(events, i + 1, depth + 1)
    } else if closes(events[i].kind) {
        if depth <= 1 {
            i + 1
        } else {
            closing(events, i + 1, (depth - 1) as nat)
        }
    } else {
        closing(events, i + 1, depth)
    }
}

/// The index just past the node that starts at `start`: a collection ends where it is closed,
/// any other node is one event.
pub open spec fn node_end(events: Seq<EventView>, start: int) -> int {
    if start < 0 || start >= events.len() {
        events.len() as int
    } else if opens(events[start].kind) {
        closing(events, start + 1, 1)
    } else {
        start + 1
    }
}

/// The keys and values of a mapping, as indices of events, from the key at `i` on.
pub open spec fn entries_from(events: Seq<EventView>, i: int) -> Seq<(int, int)>
    decreases events.len() - i,
{
    if i < 0 || i >= events.len() || events[i].kind is MappingEnd {
        Seq::empty()
    } else {
        let v = past_comments(events, i + 1);
        let next = past_comments(events, node_end(events, v));
        if i < next <= events.len() {
            seq![(i, v)] + entries_from(events, next)
        } else {
            seq![(i, v)]
        }
    }
}

/// The keys and values of the mapping that starts at `start`.
pub open spec fn entries(events: Seq<EventView>, start: int) -> Seq<(int, int)> {
    entries_from(events, past_comments(events, start + 1))
}

/// The text of the scalar at `i`, where there is one.
pub open spec fn scalar(events: Seq<EventView>, i: int) -> Option<Seq<char>> {
    if 0 <= i < events.len() {
        match events[i].kind {
            KindView::Scalar { value, .. } => Some(value),
            _ => None,
        }
    } else {
        None
    }
}

pub(crate) proof fn lemma_past_comments(events: Seq<EventView>, i: int)
    requires
        0 <= i <= events.len(),
    ensures
        i <= past_comments(events, i) <= events.len(),
    decreases events.len() - i,
{
    if i < events.len() && events[i].kind is Comment {
        lemma_past_comments(events, i + 1);
    }
}

pub(crate) proof fn lemma_closing(events: Seq<EventView>, i: int, depth: nat)
    requires
        0 <= i <= events.len(),
    ensures
        i <= closing(events, i, depth) <= events.len(),
        i < events.len() ==> i < closing(events, i, depth),
    decreases events.len() - i,
{
    if i < events.len() {
        lemma_closing(events, i + 1, depth + 1);
        lemma_closing(events, i + 1, depth);
        if depth > 1 {
            lemma_closing(events, i + 1, (depth - 1) as nat);
        }
    }
}

pub(crate) proof fn lemma_node_end(events: Seq<EventView>, start: int)
    requires
        0 <= start <= events.len(),
    ensures
        start <= node_end(events, start) <= events.len(),
        start < events.len() ==> start < node_end(events, start),
{
    if start < events.len() {
        lemma_closing(events, start + 1, 1);
    }
}

/// Index of the next event that carries data.
fn skip_comments(events: &Vec<YamlEvent>, from: usize) -> (r: usize)
    requires
        from <= events@.len(),
    ensures
        r == past_comments(event_views(events@), from as int),
        from <= r <= events@.len(),
{
    let ghost all = event_views(events@);
    let mut i: usize = from;
    while i < events.len() && matches!(events[i].kind, YamlKind::Comment)
        invariant
            from <= i <= events@.len(),
            all == event_views(events@),
            past_comments(all, i as int) == past_comments(all, from as int),
        decreases events.len() - i,
    {
        i += 1;
    }
    i
}

/// Index just past the node that starts at `start`.
pub(crate) fn end_of_node(events: &Vec<YamlEvent>, start: usize) -> (r: usize)
    requires
        start <= events@.len(),
    ensures
        r == node_end(event_views(events@), start as int),
        start <= r <= events@.len(),
        start < events@.len() ==> start < r,
{
    let ghost all = event_views(events@);
    proof {
        lemma_node_end(all, start as int);
    }
    if start >= events.len() {
        return events.len();
    }
    match &events[start].kind {
        YamlKind::MappingStart { .. } | YamlKind::SequenceStart { .. } => {},
        _ => {
            return start + 1;
        },
    }
    let mut depth: usize = 1;
    let mut i: usize = start + 1;
    while i < events.len()
        invariant
            start < i <= events@.len(),
            all == event_views(events@),
            1 <= depth <= i - start,
            closing(all, i as int, depth as nat) == node_end(all, start as int),
        decreases events.len() - i,
    {
        match &events[i].kind {
            YamlKind::MappingStart { .. } | YamlKind::SequenceStart { .. } => {
                depth += 1;
            },
            YamlKind::MappingEnd | YamlKind::SequenceEnd => {
                if depth == 1 {
                    return i + 1;
                }
                depth -= 1;
            },
            _ => {},
        }
        i += 1;
    }
    i
}

/// The pairs of indices, as integers.
pub open spec fn pair_views(pairs: Seq<(usize, usize)>) -> Seq<(int, int)> {
    pairs.map_values(|p: (usize, usize)| (p.0 as int, p.1 as int))
}

/// Whether the pairs point into the events: each key at an event, each value at one or at the
/// end.
pub open spec fn pairs_fit(pairs: Seq<(usize, usize)>, n: nat) -> bool {
    forall|i: int| 0 <= i < pairs.len() ==> (#[trigger] pairs[i]).0 < n && pairs[i].1 <= n
}

/// The keys and values of the mapping that starts at `map_start`.
pub(crate) fn map_entries(events: &Vec<YamlEvent>, map_start: usize) -> (pairs: Vec<(usize, usize)>)
    requires
        map_start < events.len(),
    ensures
        pair_views(pairs@) == entries(event_views(events@), map_start as int),
        pairs_fit(pairs@, events@.len()),
{
    let ghost all = event_views(events@);
    let ghost whole = entries(all, map_start as int);
    let mut pairs: Vec<(usize, usize)> = Vec::new();
    let mut i = skip_comments(events, map_start + 1);
    assert(pair_views(pairs@) + entries_from(all, i as int) =~= whole);
    while i < events.len() && !matches!(events[i].kind, YamlKind::MappingEnd)
        invariant
            i <= events@.len(),
            all == event_views(events@),
            pair_views(pairs@) + entries_from(all, i as int) == whole,
            pairs_fit(pairs@, events@.len()),
        decreases events.len() - i,
    {
        let value = skip_comments(events, i + 1);
        let ghost before = pair_views(pairs@);
        pairs.push((i, value));
        let next = skip_comments(events, end_of_node(events, value));
        assert(pair_views(pairs@) =~= before.push((i as int, value as int)));
        assert(pair_views(pairs@) + entries_from(all, next as int) =~= before + (seq![
            (i as int, value as int),
        ] + entries_from(all, next as int)));
        i = next;
    }
    assert(entries_from(all, i as int) =~= Seq::empty());
    assert(pair_views(pairs@) =~= whole);
    pairs
}

/// Whether the event at `i` is a scalar with the text `wanted`.
fn scalar_is(events: &Vec<YamlEvent>, i: usize, wanted: &str) -> (r: bool)
    ensures
        r == (scalar(event_views(events@), i as int) == Some(wanted@)),
{
    if i >= events.len() {
        return false;
    }
    match &events[i].kind {
        YamlKind::Scalar { value, .. } => same(value.as_str(), wanted),
        _ => false,
    }
}

/// The last event in `from..to` that covers some bytes and is no comment.
pub open spec fn last_content(
    events: Seq<EventView>,
    from: int,
    to: int,
) -> Option<int>
    decreases to - from,
{
    if to <= from || to > events.len() || from < 0 {
        None
    } else if !(events[to - 1].kind is Comment) && events[to - 1].start < events[to - 1].end {
        Some(to - 1)
    } else {
        last_content(events, from, to - 1)
    }
}

pub(crate) fn last_content_at(events: &Vec<YamlEvent>, from: usize, to: usize) -> (r: Option<usize>)
    requires
        from <= to <= events.len(),
    ensures
        (match r {
            Some(i) => from <= i < to && last_content(
                event_views(events@),
                from as int,
                to as int,
            ) == Some(i as int),
            None => last_content(
                event_views(events@),
                from as int,
                to as int,
            ) is None,
        }),
{
    let ghost all = event_views(events@);
    let mut end: usize = to;
    while from < end
        invariant
            from <= end <= to <= events.len(),
            all == event_views(events@),
            last_content(all, from as int, end as int) == last_content(all, from as int, to as int),
        decreases end,
    {
        let e = &events[end - 1];
        assert(all[end - 1] == e@);
        if !matches!(e.kind, YamlKind::Comment) && e.start < e.end {
            return Some(end - 1);
        }
        end -= 1;
    }
    None
}

pub(crate) proof fn lemma_last_content(events: Seq<EventView>, from: int, to: int)
    requires
        last_content(events, from, to) is Some,
    ensures
        0 <= from <= last_content(events, from, to)->0 < to <= events.len(),
    decreases to - from,
{
    if to > from && to <= events.len() && from >= 0 {
        if !(!(events[to - 1].kind is Comment) && events[to - 1].start < events[to - 1].end) {
            lemma_last_content(events, from, to - 1);
        }
    }
}

// --------------------------------------------------------------- finding the target

/// The index of the first mapping from `i` on.
pub open spec fn first_mapping(events: Seq<EventView>, i: int) -> Option<int>
    decreases events.len() - i,
{
    if i < 0 || i >= events.len() {
        None
    } else if events[i].kind is MappingStart {
        Some(i)
    } else {
        first_mapping(events, i + 1)
    }
}

/// The value of the first entry with the key `jobs` whose value is a sequence.
pub open spec fn jobs_value(events: Seq<EventView>, pairs: Seq<(int, int)>) -> Option<int>
    decreases pairs.len(),
{
    if pairs.len() == 0 {
        None
    } else {
        let (k, v) = pairs[0];
        if scalar(events, k) == Some("jobs"@) && 0 <= v < events.len()
            && events[v].kind is SequenceStart {
            Some(v)
        } else {
            jobs_value(events, pairs.drop_first())
        }
    }
}

/// Whether a mapping has an entry with the key `id` and the given value.
pub open spec fn has_id(events: Seq<EventView>, pairs: Seq<(int, int)>, id: Seq<char>) -> bool {
    exists|i: int|
        0 <= i < pairs.len() && scalar(events, (#[trigger] pairs[i]).0) == Some("id"@) && scalar(
            events,
            pairs[i].1,
        ) == Some(id)
}

/// The first item from `i` on in a sequence that is a mapping with the given id.
pub open spec fn item_with_id(events: Seq<EventView>, i: int, id: Seq<char>) -> Option<int>
    decreases events.len() - i,
{
    if i < 0 || i >= events.len() || events[i].kind is SequenceEnd {
        None
    } else if events[i].kind is MappingStart && has_id(events, entries(events, i), id) {
        Some(i)
    } else {
        let next = past_comments(events, node_end(events, i));
        if i < next <= events.len() {
            item_with_id(events, next, id)
        } else {
            None
        }
    }
}

/// The value of the first entry with the key `enabled`.
pub open spec fn enabled_value(events: Seq<EventView>, pairs: Seq<(int, int)>) -> Option<int>
    decreases pairs.len(),
{
    if pairs.len() == 0 {
        None
    } else {
        let (k, v) = pairs[0];
        if scalar(events, k) == Some("enabled"@) && 0 <= v < events.len() {
            Some(v)
        } else {
            enabled_value(events, pairs.drop_first())
        }
    }
}

pub open spec fn anchored(kind: KindView) -> bool {
    match kind {
        KindView::Scalar { anchor, .. } => anchor != 0,
        KindView::MappingStart { anchor, .. } => anchor != 0,
        KindView::SequenceStart { anchor, .. } => anchor != 0,
        _ => false,
    }
}

pub open spec fn flow_style(kind: KindView) -> bool {
    match kind {
        KindView::MappingStart { flow, .. } => flow,
        KindView::SequenceStart { flow, .. } => flow,
        _ => false,
    }
}

/// Whether an event in `from..to` defines an anchor or refers to one.
pub open spec fn shares_nodes(events: Seq<EventView>, from: int, to: int) -> bool {
    exists|i: int|
        from <= i < to && 0 <= i < events.len() && ((#[trigger] events[i]).kind is Alias || anchored(
            events[i].kind,
        ))
}

/// Whether a mapping has a merge key.
pub open spec fn merges(events: Seq<EventView>, pairs: Seq<(int, int)>) -> bool {
    exists|i: int| 0 <= i < pairs.len() && scalar(events, (#[trigger] pairs[i]).0) == Some("<<"@)
}

/// Whether no edit of the job at `item` is safe: the list of jobs is in flow style, or an anchor
/// covers the list or the job.
pub open spec fn entangled(events: Seq<EventView>, root: int, jobs: int, item: int) -> bool {
    ||| anchored(events[root].kind)
    ||| anchored(events[jobs].kind)
    ||| flow_style(events[root].kind)
    ||| flow_style(events[jobs].kind)
    ||| anchored(events[item].kind)
}

/// Where a job stands in the events.
pub enum Target {
    /// There is no such job.
    Absent,
    /// The job cannot be edited safely.
    Entangled,
    /// The job is the mapping that starts at this event.
    At(int),
}

pub open spec fn target(events: Seq<EventView>, id: Seq<char>) -> Target {
    match first_mapping(events, 0) {
        None => Target::Absent,
        Some(root) => match jobs_value(events, entries(events, root)) {
            None => Target::Absent,
            Some(jobs) => match item_with_id(events, past_comments(events, jobs + 1), id) {
                None => Target::Absent,
                Some(item) => if entangled(events, root, jobs, item) {
                    Target::Entangled
                } else {
                    Target::At(item)
                },
            },
        },
    }
}

pub(crate) fn first_mapping_at(events: &Vec<YamlEvent>) -> (r: Option<usize>)
    ensures
        (match r {
            Some(i) => first_mapping(event_views(events@), 0) == Some(i as int) && i < events.len(),
            None => first_mapping(event_views(events@), 0) is None,
        }),
{
    let ghost all = event_views(events@);
    let mut i: usize = 0;
    while i < events.len()
        invariant
            i <= events.len(),
            all == event_views(events@),
            first_mapping(all, i as int) == first_mapping(all, 0),
        decreases events.len() - i,
    {
        if let YamlKind::MappingStart { .. } = &events[i].kind {
            return Some(i);
        }
        i += 1;
    }
    None
}

pub(crate) fn jobs_value_at(events: &Vec<YamlEvent>, pairs: &Vec<(usize, usize)>) -> (r: Option<usize>)
    ensures
        (match r {
            Some(v) => jobs_value(event_views(events@), pair_views(pairs@)) == Some(v as int) && v
                < events.len(),
            None => jobs_value(event_views(events@), pair_views(pairs@)) is None,
        }),
{
    let ghost all = event_views(events@);
    let ghost whole = pair_views(pairs@);
    let mut i: usize = 0;
    assert(whole.skip(0) =~= whole);
    while i < pairs.len()
        invariant
            i <= pairs.len(),
            all == event_views(events@),
            whole == pair_views(pairs@),
            jobs_value(all, whole.skip(i as int)) == jobs_value(all, whole),
        decreases pairs.len() - i,
    {
        let (k, v) = pairs[i];
        assert(whole.skip(i as int)[0] == (k as int, v as int));
        assert(whole.skip(i as int).drop_first() =~= whole.skip(i + 1));
        if scalar_is(events, k, "jobs") && v < events.len() && matches!(
            events[v].kind,
            YamlKind::SequenceStart { .. }
        ) {
            return Some(v);
        }
        i += 1;
    }
    None
}

fn mapping_has_id(events: &Vec<YamlEvent>, pairs: &Vec<(usize, usize)>, id: &str) -> (r: bool)
    ensures
        r == has_id(event_views(events@), pair_views(pairs@), id@),
{
    let ghost all = event_views(events@);
    let ghost whole = pair_views(pairs@);
    let mut i: usize = 0;
    while i < pairs.len()
        invariant
            i <= pairs.len(),
            all == event_views(events@),
            whole == pair_views(pairs@),
            forall|j: int|
                0 <= j < i ==> !(scalar(all, (#[trigger] whole[j]).0) == Some("id"@) && scalar(
                    all,
                    whole[j].1,
                ) == Some(id@)),
        decreases pairs.len() - i,
    {
        let (k, v) = pairs[i];
        assert(whole[i as int] == (k as int, v as int));
        if scalar_is(events, k, "id") && scalar_is(events, v, id) {
            return true;
        }
        i += 1;
    }
    false
}

fn item_with_id_at(events: &Vec<YamlEvent>, from: usize, id: &str) -> (r: Option<usize>)
    requires
        from <= events.len(),
    ensures
        (match r {
            Some(i) => item_with_id(event_views(events@), from as int, id@) == Some(i as int) && i
                < events.len(),
            None => item_with_id(event_views(events@), from as int, id@) is None,
        }),
{
    let ghost all = event_views(events@);
    let mut i: usize = from;
    while i < events.len() && !matches!(events[i].kind, YamlKind::SequenceEnd)
        invariant
            i <= events.len(),
            all == event_views(events@),
            item_with_id(all, i as int, id@) == item_with_id(all, from as int, id@),
        decreases events.len() - i,
    {
        if matches!(events[i].kind, YamlKind::MappingStart { .. }) {
            let pairs = map_entries(events, i);
            if mapping_has_id(events, &pairs, id) {
                return Some(i);
            }
        }
        i = skip_comments(events, end_of_node(events, i));
    }
    None
}

fn enabled_value_at(events: &Vec<YamlEvent>, pairs: &Vec<(usize, usize)>) -> (r: Option<usize>)
    ensures
        (match r {
            Some(v) => enabled_value(event_views(events@), pair_views(pairs@)) == Some(v as int)
                && v < events.len(),
            None => enabled_value(event_views(events@), pair_views(pairs@)) is None,
        }),
{
    let ghost all = event_views(events@);
    let ghost whole = pair_views(pairs@);
    let mut i: usize = 0;
    assert(whole.skip(0) =~= whole);
    while i < pairs.len()
        invariant
            i <= pairs.len(),
            all == event_views(events@),
            whole == pair_views(pairs@),
            enabled_value(all, whole.skip(i as int)) == enabled_value(all, whole),
        decreases pairs.len() - i,
    {
        let (k, v) = pairs[i];
        assert(whole.skip(i as int)[0] == (k as int, v as int));
        assert(whole.skip(i as int).drop_first() =~= whole.skip(i + 1));
        if scalar_is(events, k, "enabled") && v < events.len() {
            return Some(v);
        }
        i += 1;
    }
    None
}

pub(crate) fn is_anchored(kind: &YamlKind) -> (r: bool)
    ensures
        r == anchored(kind@),
{
    match kind {
        YamlKind::Scalar { anchor, .. } => *anchor != 0,
        YamlKind::MappingStart { anchor, .. } => *anchor != 0,
        YamlKind::SequenceStart { anchor, .. } => *anchor != 0,
        _ => false,
    }
}

pub(crate) fn is_flow(kind: &YamlKind) -> (r: bool)
    ensures
        r == flow_style(kind@),
{
    match kind {
        YamlKind::MappingStart { flow, .. } => *flow,
        YamlKind::SequenceStart { flow, .. } => *flow,
        _ => false,
    }
}

pub(crate) fn node_shares(events: &Vec<YamlEvent>, from: usize, to: usize) -> (r: bool)
    requires
        from <= to <= events.len(),
    ensures
        r == shares_nodes(event_views(events@), from as int, to as int),
{
    let ghost all = event_views(events@);
    let mut i: usize = from;
    while i < to
        invariant
            from <= i <= to <= events.len(),
            all == event_views(events@),
            forall|j: int|
                from <= j < i ==> !((#[trigger] all[j]).kind is Alias || anchored(all[j].kind)),
        decreases to - i,
    {
        assert(all[i as int] == events@[i as int]@);
        if matches!(events[i].kind, YamlKind::Alias) || is_anchored(&events[i].kind) {
            return true;
        }
        i += 1;
    }
    false
}

fn mapping_merges(events: &Vec<YamlEvent>, pairs: &Vec<(usize, usize)>) -> (r: bool)
    ensures
        r == merges(event_views(events@), pair_views(pairs@)),
{
    let ghost all = event_views(events@);
    let ghost whole = pair_views(pairs@);
    let mut i: usize = 0;
    while i < pairs.len()
        invariant
            i <= pairs.len(),
            all == event_views(events@),
            whole == pair_views(pairs@),
            forall|j: int| 0 <= j < i ==> scalar(all, (#[trigger] whole[j]).0) != Some("<<"@),
        decreases pairs.len() - i,
    {
        assert(whole[i as int] == (pairs@[i as int].0 as int, pairs@[i as int].1 as int));
        if scalar_is(events, pairs[i].0, "<<") {
            return true;
        }
        i += 1;
    }
    false
}

// --------------------------------------------------------------------- the edit

/// How many characters of white space the first line of a text begins with.
pub open spec fn leading_space(s: Seq<char>) -> nat
    decreases s.len(),
{
    if s.len() > 0 && text::is_space(s[0]) && s[0] != '\n' {
        1 + leading_space(s.drop_first())
    } else {
        0
    }
}

/// The white space that the line holding the byte `at` begins with.
pub open spec fn line_indent(source: Seq<char>, at: int) -> Seq<char> {
    let line = source.skip(config_lines::last_line_start(text::first_bytes(source, at)) as int);
    line.take(leading_space(line) as int)
}

pub open spec fn flag_text(enabled: bool) -> Seq<char> {
    if enabled {
        "true"@
    } else {
        "false"@
    }
}

/// As much space as stands before the byte `at` on its line.
pub open spec fn column_indent(source: Seq<char>, at: int) -> Seq<char> {
    let head = text::first_bytes(source, at);
    Seq::new((head.len() - config_lines::last_line_start(head)) as nat, |i: int| ' ')
}

/// The edit that sets `enabled` on the job whose mapping starts at `item`: its bytes, and what
/// stands in their place. An `enabled` entry has its value replaced; without one, a line is
/// added after the first entry, indented like the second, or to the column of the first where
/// there is one. There is no such edit where the job has a merge key; where the value of
/// `enabled` is no scalar with some text, or has an anchor; and where a line would have to be
/// added to a job in flow style, or after an entry with an anchor or an alias in it.
pub open spec fn edit_of(
    source: Seq<char>,
    events: Seq<EventView>,
    item: int,
    enabled: bool,
) -> Option<(int, int, Seq<char>)> {
    let pairs = entries(events, item);
    if merges(events, pairs) {
        None
    } else {
        match enabled_value(events, pairs) {
            Some(v) => if events[v].kind is Scalar && !anchored(events[v].kind) && events[v].start
                < events[v].end {
                Some((events[v].start as int, events[v].end as int, flag_text(enabled)))
            } else {
                None
            },
            None => {
                let (first_key, first_value) = pairs[0];
                let first_end = node_end(events, first_value);
                if flow_style(events[item].kind) || shares_nodes(events, first_key, first_end) {
                    None
                } else {
                    match last_content(events, first_key, first_end) {
                        None => None,
                        Some(last) => {
                            let at = config_lines::content_line_end(source, events[last].end as int);
                            Some(
                                (at, at, line_before_flag(source, events, pairs) + flag_text(enabled)),
                            )
                        },
                    }
                }
            },
        }
    }
}

/// What is added to a job with the given entries before the flag: the end of a line, and the
/// key.
pub open spec fn line_before_flag(
    source: Seq<char>,
    events: Seq<EventView>,
    pairs: Seq<(int, int)>,
) -> Seq<char> {
    let indent = if pairs.len() > 1 {
        line_indent(source, events[pairs[1].0].start as int)
    } else {
        column_indent(source, events[pairs[0].0].start as int)
    };
    "\n"@ + indent + "enabled: "@
}

/// Whether `out` is `source` with the bytes `start..end` replaced by `insert` and every other
/// byte kept.
pub open spec fn spliced(
    source: Seq<char>,
    start: int,
    end: int,
    insert: Seq<char>,
    out: Seq<char>,
) -> bool {
    encode_utf8(out) == encode_utf8(source).take(start) + encode_utf8(insert) + encode_utf8(
        source,
    ).skip(end)
}

/// The white space that the line holding the byte `at` begins with.
pub fn line_indent_of(source: &str, at: usize) -> (r: &str)
    requires
        text::is_boundary(source@, at as int),
    ensures
        r@ == line_indent(source@, at as int),
{
    let (head, tail) = split_bytes(source, at);
    let h = chars_of(head);
    let mut start: usize = h.len();
    assert(h@.take(start as int) =~= h@);
    while start > 0 && h[start - 1] != '\n'
        invariant
            start <= h@.len(),
            h@ == head@,
            config_lines::last_line_start(h@.take(start as int)) == config_lines::last_line_start(head@),
        decreases start,
    {
        assert(h@.take(start as int).drop_last() =~= h@.take(start - 1));
        start -= 1;
    }
    assert(config_lines::last_line_start(head@) == start);
    let v = chars_of(source);
    assert(v@ == head@ + tail@);
    let ghost line = source@.skip(start as int);
    let mut i: usize = start;
    assert(line.skip(0) =~= line);
    while i < v.len() && space_char(v[i]) && v[i] != '\n'
        invariant
            start <= i <= v@.len(),
            v@ == source@,
            line == source@.skip(start as int),
            leading_space(line) == (i - start) + leading_space(line.skip(i - start)),
        decreases v.len() - i,
    {
        assert(line.skip(i - start)[0] == v@[i as int]);
        assert(line.skip(i - start).drop_first() =~= line.skip(i - start + 1));
        i += 1;
    }
    proof {
        if i < v@.len() {
            assert(line.skip(i - start)[0] == v@[i as int]);
        }
        assert(leading_space(line.skip(i - start)) == 0);
        assert(source@.subrange(start as int, i as int) =~= line.take(i - start));
    }
    source.substring_char(start, i)
}

/// What an edit of a job comes to: nothing where there is no such job or it cannot be edited
/// safely, else the bytes to replace and what stands in their place.
#[derive(Debug)]
pub enum EditPlan {
    Absent,
    Entangled,
    Replace { start: usize, end: usize, text: String },
}

/// The plan that sets `enabled` on the job with the given id.
pub open spec fn is_plan(
    source: Seq<char>,
    events: Seq<EventView>,
    id: Seq<char>,
    enabled: bool,
    plan: EditPlan,
) -> bool {
    match target(events, id) {
        Target::Absent => plan is Absent,
        Target::Entangled => plan is Entangled,
        Target::At(item) => match edit_of(source, events, item, enabled) {
            None => plan is Entangled,
            Some((start, end, insert)) => plan matches EditPlan::Replace { start: s, end: e, text: t }
                && s == start && e == end && t@ == insert,
        },
    }
}

fn flag(enabled: bool) -> (r: &'static str)
    ensures
        r@ == flag_text(enabled),
{
    if enabled {
        "true"
    } else {
        "false"
    }
}

/// A job's own id stands among its entries.
proof fn lemma_target_has_entries(events: Seq<EventView>, i: int, id: Seq<char>)
    requires
        0 <= i <= events.len(),
        item_with_id(events, i, id) is Some,
    ensures
        entries(events, item_with_id(events, i, id)->0).len() > 0,
    decreases events.len() - i,
{
    if i < events.len() && !(events[i].kind is SequenceEnd) {
        if events[i].kind is MappingStart && has_id(events, entries(events, i), id) {
        } else {
            let next = past_comments(events, node_end(events, i));
            if i < next <= events.len() {
                lemma_target_has_entries(events, next, id);
            }
        }
    }
}

/// As much space as stands before the byte `at` on its line.
fn column_indent_of(source: &str, at: usize) -> (r: String)
    requires
        text::is_boundary(source@, at as int),
    ensures
        r@ == column_indent(source@, at as int),
{
    let (head, _tail) = split_bytes(source, at);
    let h = chars_of(head);
    let mut start: usize = h.len();
    let mut r = String::new();
    assert(h@.take(start as int) =~= h@);
    while start > 0 && h[start - 1] != '\n'
        invariant
            start <= h@.len(),
            h@ == head@,
            config_lines::last_line_start(h@.take(start as int)) == config_lines::last_line_start(
                head@,
            ),
            r@ == Seq::new((h@.len() - start) as nat, |i: int| ' '),
        decreases start,
    {
        assert(h@.take(start as int).drop_last() =~= h@.take(start - 1));
        start -= 1;
        r.push(' ');
        assert(r@ =~= Seq::new((h@.len() - start) as nat, |i: int| ' '));
    }
    r
}

/// Plans the edit of the job whose mapping starts at `item`.
fn plan_item(source: &str, events: &Vec<YamlEvent>, item: usize, enabled: bool) -> (r: EditPlan)
    requires
        item < events.len(),
        spans_fit(source@, event_views(events@)),
        entries(event_views(events@), item as int).len() > 0,
    ensures
        (match edit_of(source@, event_views(events@), item as int, enabled) {
            None => r is Entangled,
            Some((start, end, insert)) => (r matches EditPlan::Replace { start: s, end: e, text: t }
                && s == start && e == end && t@ == insert) && start <= end && text::is_boundary(
                source@,
                start,
            ) && text::is_boundary(source@, end),
        }),
{
    let ghost all = event_views(events@);
    let pairs = map_entries(events, item);
    let ghost whole = pair_views(pairs@);
    if mapping_merges(events, &pairs) {
        return EditPlan::Entangled;
    }
    if let Some(v) = enabled_value_at(events, &pairs) {
        assert(all[v as int] == events@[v as int]@);
        if !matches!(events[v].kind, YamlKind::Scalar { .. }) || is_anchored(&events[v].kind)
            || events[v].start >= events[v].end {
            return EditPlan::Entangled;
        }
        return EditPlan::Replace {
            start: events[v].start,
            end: events[v].end,
            text: flag(enabled).to_owned(),
        };
    }
    let (first_key, first_value) = pairs[0];
    assert(whole[0] == (first_key as int, first_value as int));
    proof {
        lemma_past_comments(all, item + 1);
        lemma_past_comments(all, first_key + 1);
    }
    assert(all[item as int] == events@[item as int]@);
    let end = end_of_node(events, first_value);
    if is_flow(&events[item].kind) || node_shares(events, first_key, end) {
        return EditPlan::Entangled;
    }
    let last = match last_content_at(events, first_key, end) {
        Some(i) => i,
        None => {
            return EditPlan::Entangled;
        },
    };
    assert(all[last as int] == events@[last as int]@);
    let at = content_line_end_of(source, events[last].end);
    let mut text = "\n".to_owned();
    if pairs.len() > 1 {
        let key = pairs[1].0;
        assert(whole[1].0 == key);
        assert(all[key as int] == events@[key as int]@);
        text.append(line_indent_of(source, events[key].start));
    } else {
        assert(all[first_key as int] == events@[first_key as int]@);
        text.append(column_indent_of(source, events[first_key].start).as_str());
    }
    text.append("enabled: ");
    text.append(flag(enabled));
    EditPlan::Replace { start: at, end: at, text }
}

/// Where a job stands among the events that were read.
#[derive(Debug)]
pub enum Found {
    Absent,
    Entangled,
    At(usize),
}

/// Finds the job with the given id.
pub(crate) fn target_at(events: &Vec<YamlEvent>, job_id: &str) -> (r: Found)
    ensures
        (match target(event_views(events@), job_id@) {
            Target::Absent => r is Absent,
            Target::Entangled => r is Entangled,
            Target::At(item) => r matches Found::At(i) && i == item && i < events.len() && entries(
                event_views(events@),
                item,
            ).len() > 0,
        }),
{
    let ghost all = event_views(events@);
    let root = match first_mapping_at(events) {
        Some(i) => i,
        None => {
            return Found::Absent;
        },
    };
    let top = map_entries(events, root);
    let jobs = match jobs_value_at(events, &top) {
        Some(v) => v,
        None => {
            return Found::Absent;
        },
    };
    let from = skip_comments(events, jobs + 1);
    let item = match item_with_id_at(events, from, job_id) {
        Some(i) => i,
        None => {
            return Found::Absent;
        },
    };
    assert(all[root as int] == events@[root as int]@);
    assert(all[jobs as int] == events@[jobs as int]@);
    assert(all[item as int] == events@[item as int]@);
    if is_anchored(&events[root].kind) || is_anchored(&events[jobs].kind) || is_flow(
        &events[root].kind,
    ) || is_flow(&events[jobs].kind) || is_anchored(&events[item].kind) {
        return Found::Entangled;
    }
    proof {
        lemma_target_has_entries(all, from as int, job_id@);
    }
    Found::At(item)
}

/// Plans the edit that sets `enabled` on the job with the given id.
pub fn plan_set_enabled(
    source: &str,
    events: &Vec<YamlEvent>,
    job_id: &str,
    enabled: bool,
) -> (r: EditPlan)
    requires
        spans_fit(source@, event_views(events@)),
    ensures
        is_plan(source@, event_views(events@), job_id@, enabled, r),
        r matches EditPlan::Replace { start, end, .. } ==> start <= end && text::is_boundary(
            source@,
            start as int,
        ) && text::is_boundary(source@, end as int),
{
    match target_at(events, job_id) {
        Found::Absent => EditPlan::Absent,
        Found::Entangled => EditPlan::Entangled,
        Found::At(item) => plan_item(source, events, item, enabled),
    }
}

/// What an edit says where it cannot be made.
pub open spec fn refusal(
    source: Seq<char>,
    id: Seq<char>,
) -> Option<Seq<char>> {
    match yaml_events(source) {
        Err(m) => Some("invalid YAML: "@ + m + " (use `jobs edit`)"@),
        Ok(events) => match target(events, id) {
            Target::Absent => Some("job '"@ + id + "' not found (use `jobs edit`)"@),
            Target::Entangled => Some(
                "job '"@ + id + "' cannot be edited in place (use `jobs edit`)"@,
            ),
            Target::At(_) => None,
        },
    }
}

pub(crate) fn replace_bytes(source: &str, start: usize, end: usize, insert: &str) -> (out: String)
    requires
        start <= end,
        text::is_boundary(source@, start as int),
        text::is_boundary(source@, end as int),
    ensures
        spliced(source@, start as int, end as int, insert@, out@),
{
    let (head, after) = split_bytes(source, start);
    let (before, tail) = split_bytes(source, end);
    let mut out = head.to_owned();
    out.append(insert);
    out.append(tail);
    proof {
        let whole = encode_utf8(source@);
        text::lemma_encode_concat(head@, after@);
        text::lemma_encode_concat(before@, tail@);
        assert(whole.take(start as int) =~= encode_utf8(head@));
        assert(whole.skip(end as int) =~= encode_utf8(tail@));
        text::lemma_encode_concat(head@ + insert@, tail@);
        text::lemma_encode_concat(head@, insert@);
    }
    out
}

pub(crate) fn not_found(job_id: &str) -> (r: String)
    ensures
        r@ == "job '"@ + job_id@ + "' not found (use `jobs edit`)"@,
{
    let mut m = "job '".to_owned();
    m.append(job_id);
    m.append("' not found (use `jobs edit`)");
    m
}

pub(crate) fn unreadable(problem: &str) -> (r: String)
    ensures
        r@ == "invalid YAML: "@ + problem@ + " (use `jobs edit`)"@,
{
    let mut e = "invalid YAML: ".to_owned();
    e.append(problem);
    e.append(" (use `jobs edit`)");
    e
}

pub(crate) fn cannot_edit(job_id: &str) -> (r: String)
    ensures
        r@ == "job '"@ + job_id@ + "' cannot be edited in place (use `jobs edit`)"@,
{
    let mut m = "job '".to_owned();
    m.append(job_id);
    m.append("' cannot be edited in place (use `jobs edit`)");
    m
}

/// A result with its texts taken as characters.
pub open spec fn result_view(r: Result<String, String>) -> Result<Seq<char>, Seq<char>> {
    match r {
        Ok(out) => Ok(out@),
        Err(m) => Err(m@),
    }
}

/// Whether `r` is what setting `enabled` on a job makes of the config text: the text with one
/// span replaced, or why that cannot be done.
pub open spec fn toggled(
    source: Seq<char>,
    id: Seq<char>,
    enabled: bool,
    r: Result<Seq<char>, Seq<char>>,
) -> bool {
    match refusal(source, id) {
        Some(m) => r == Err::<Seq<char>, Seq<char>>(m),
        None => match yaml_events(source) {
            Ok(events) => target(events, id) matches Target::At(item) && match edit_of(
                source,
                events,
                item,
                enabled,
            ) {
                Some((start, end, insert)) => r matches Ok(out) && spliced(
                    source,
                    start,
                    end,
                    insert,
                    out,
                ),
                None => r == Err::<Seq<char>, Seq<char>>(
                    "job '"@ + id + "' cannot be edited in place (use `jobs edit`)"@,
                ),
            },
            Err(_) => false,
        },
    }
}

/// Sets a job's `enabled` field in the config text, and keeps every byte around it. Where the
/// job is not there or cannot be edited safely, the message says so.
pub fn set_enabled(source: &str, job_id: &str, enabled: bool) -> (r: Result<String, String>)
    ensures
        toggled(source@, job_id@, enabled, result_view(r)),
{
    let events = match scan(source) {
        Ok(events) => events,
        Err(m) => {
            return Err(unreadable(m.as_str()));
        },
    };
    match plan_set_enabled(source, &events, job_id, enabled) {
        EditPlan::Absent => Err(not_found(job_id)),
        EditPlan::Entangled => Err(cannot_edit(job_id)),
        EditPlan::Replace { start, end, text } => Ok(
            replace_bytes(source, start, end, text.as_str()),
        ),
    }
}

/// An edit leaves every byte before its span and after it as it was.
pub proof fn lemma_edit_keeps_rest(
    source: Seq<char>,
    start: int,
    end: int,
    insert: Seq<char>,
    out: Seq<char>,
)
    requires
        0 <= start <= end <= encode_utf8(source).len(),
        spliced(source, start, end, insert, out),
    ensures
        encode_utf8(out).take(start) == encode_utf8(source).take(start),
        encode_utf8(out).skip(start + encode_utf8(insert).len()) == encode_utf8(source).skip(end),
{
    let b = encode_utf8(source);
    assert(encode_utf8(out).take(start) =~= b.take(start));
    assert(encode_utf8(out).skip(start + encode_utf8(insert).len()) =~= b.skip(end));
}

} // verus!
