//! What setting `enabled` on a job comes to when the edited text is read again: which events
//! stay, and what a second edit makes of the first.

use crate::config_edit;
use crate::config_edit::{EventView, KindView, Target};
use crate::config_lines;
use crate::text;
use vstd::prelude::*;
use vstd::utf8::*;

verus! {

// ------------------------------------------------------------------- the order of the events

/// Where the entries of a mapping end, from the key at `i` on.
pub open spec fn entries_stop(events: Seq<EventView>, i: int) -> int
    decreases events.len() - i,
{
    if i < 0 || i >= events.len() || events[i].kind is MappingEnd {
        i
    } else {
        let v = config_edit::past_comments(events, i + 1);
        let next = config_edit::past_comments(events, config_edit::node_end(events, v));
        if i < next <= events.len() {
            entries_stop(events, next)
        } else {
            next
        }
    }
}

/// Whether the entries of each mapping end with the event that closes the mapping, as they do
/// in the events of a YAML text.
pub open spec fn well_nested(events: Seq<EventView>) -> bool {
    forall|m: int|
        0 <= m < events.len() && (#[trigger] events[m]).kind is MappingStart ==> entries_stop(
            events,
            config_edit::past_comments(events, m + 1),
        ) + 1 == config_edit::node_end(events, m)
}

/// Whether each key stands before its value, and each value before the next key.
pub open spec fn in_order(pairs: Seq<(int, int)>) -> bool {
    &&& forall|j: int| 0 <= j < pairs.len() ==> (#[trigger] pairs[j]).0 < pairs[j].1
    &&& forall|i: int, j: int|
        0 <= i < j < pairs.len() ==> (#[trigger] pairs[i]).1 < (#[trigger] pairs[j]).0
}

proof fn lemma_entries_in_order(events: Seq<EventView>, i: int)
    requires
        0 <= i <= events.len(),
    ensures
        i <= entries_stop(events, i) <= events.len(),
        in_order(config_edit::entries_from(events, i)),
        forall|j: int|
            0 <= j < config_edit::entries_from(events, i).len() ==> i <= (
            #[trigger] config_edit::entries_from(events, i)[j]).0 && config_edit::entries_from(
                events,
                i,
            )[j].1 <= entries_stop(events, i) && (config_edit::entries_from(events, i)[j].1
                < events.len() ==> config_edit::entries_from(events, i)[j].1 < entries_stop(
                events,
                i,
            )),
    decreases events.len() - i,
{
    if i < events.len() && !(events[i].kind is MappingEnd) {
        let v = config_edit::past_comments(events, i + 1);
        config_edit::lemma_past_comments(events, i + 1);
        let end = config_edit::node_end(events, v);
        config_edit::lemma_node_end(events, v);
        let next = config_edit::past_comments(events, end);
        config_edit::lemma_past_comments(events, end);
        lemma_entries_in_order(events, next);
        let rest = config_edit::entries_from(events, next);
        let all = config_edit::entries_from(events, i);
        assert(all == seq![(i, v)] + rest);
        assert forall|j: int| 0 <= j < all.len() implies i <= (#[trigger] all[j]).0 && all[j].0
            < all[j].1 && all[j].1 <= entries_stop(events, i) && (all[j].1 < events.len()
            ==> all[j].1 < entries_stop(events, i)) && (j > 0 ==> next <= all[j].0) by {
            if j > 0 {
                assert(all[j] == rest[j - 1]);
            }
        }
        assert forall|a: int, b: int| 0 <= a < b < all.len() implies (#[trigger] all[a]).1 < (
        #[trigger] all[b]).0 by {
            assert(all[b] == rest[b - 1]);
            if a > 0 {
                assert(all[a] == rest[a - 1]);
            } else {
                assert(v < events.len()) by {
                    if v >= events.len() {
                        assert(next == events.len());
                        assert(rest =~= Seq::empty());
                    }
                }
            }
        }
    }
}

/// The entries of a mapping stand in order between its start and its end.
proof fn lemma_entries_inside(events: Seq<EventView>, m: int)
    requires
        0 <= m < events.len(),
        events[m].kind is MappingStart,
        well_nested(events),
    ensures
        in_order(config_edit::entries(events, m)),
        forall|j: int|
            0 <= j < config_edit::entries(events, m).len() ==> m < (
            #[trigger] config_edit::entries(events, m)[j]).0 && config_edit::entries(
                events,
                m,
            )[j].1 < config_edit::node_end(events, m),
        m < config_edit::node_end(events, m) <= events.len(),
{
    config_edit::lemma_past_comments(events, m + 1);
    config_edit::lemma_node_end(events, m);
    lemma_entries_in_order(events, config_edit::past_comments(events, m + 1));
}

/// The value of a mapping's `enabled` is the value of one of its entries.
proof fn lemma_enabled_value(events: Seq<EventView>, pairs: Seq<(int, int)>) -> (j: int)
    requires
        config_edit::enabled_value(events, pairs) is Some,
    ensures
        0 <= j < pairs.len(),
        pairs[j].1 == config_edit::enabled_value(events, pairs)->0,
        0 <= pairs[j].1 < events.len(),
        config_edit::scalar(events, pairs[j].0) == Some("enabled"@),
    decreases pairs.len(),
{
    let (k, v) = pairs[0];
    if config_edit::scalar(events, k) == Some("enabled"@) && 0 <= v < events.len() {
        0
    } else {
        1 + lemma_enabled_value(events, pairs.drop_first())
    }
}

proof fn lemma_item_bounds(events: Seq<EventView>, i: int, id: Seq<char>)
    requires
        0 <= i <= events.len(),
        config_edit::item_with_id(events, i, id) is Some,
    ensures
        i <= config_edit::item_with_id(events, i, id)->0 < events.len(),
        events[config_edit::item_with_id(events, i, id)->0].kind is MappingStart,
        config_edit::has_id(
            events,
            config_edit::entries(events, config_edit::item_with_id(events, i, id)->0),
            id,
        ),
    decreases events.len() - i,
{
    if !(events[i].kind is MappingStart && config_edit::has_id(
        events,
        config_edit::entries(events, i),
        id,
    )) {
        let next = config_edit::past_comments(events, config_edit::node_end(events, i));
        lemma_item_bounds(events, next, id);
    }
}

proof fn lemma_first_mapping(events: Seq<EventView>, i: int)
    requires
        0 <= i,
        config_edit::first_mapping(events, i) is Some,
    ensures
        i <= config_edit::first_mapping(events, i)->0 < events.len(),
        events[config_edit::first_mapping(events, i)->0].kind is MappingStart,
    decreases events.len() - i,
{
    if !(events[i].kind is MappingStart) {
        lemma_first_mapping(events, i + 1);
    }
}

/// The list of jobs is the value of one of the entries.
proof fn lemma_jobs_value(events: Seq<EventView>, pairs: Seq<(int, int)>) -> (j: int)
    requires
        config_edit::jobs_value(events, pairs) is Some,
    ensures
        0 <= j < pairs.len(),
        pairs[j].1 == config_edit::jobs_value(events, pairs)->0,
        0 <= pairs[j].1 < events.len(),
        events[pairs[j].1].kind is SequenceStart,
        config_edit::scalar(events, pairs[j].0) == Some("jobs"@),
    decreases pairs.len(),
{
    let (k, v) = pairs[0];
    if config_edit::scalar(events, k) == Some("jobs"@) && 0 <= v < events.len()
        && events[v].kind is SequenceStart {
        0
    } else {
        1 + lemma_jobs_value(events, pairs.drop_first())
    }
}

// ------------------------------------------------------------------------ a flag replaced

/// Whether `after` are the events of a text in which the scalar of the event `v` was replaced by
/// a flag: every other event is of the kind that it was.
pub open spec fn reflagged(
    before: Seq<EventView>,
    after: Seq<EventView>,
    v: int,
    enabled: bool,
) -> bool {
    &&& after.len() == before.len()
    &&& 0 <= v < before.len()
    &&& before[v].kind is Scalar
    &&& after[v].kind == KindView::Scalar { value: config_edit::flag_text(enabled), anchor: 0 }
    &&& after[v].start == before[v].start
    &&& after[v].end == before[v].start + encode_utf8(config_edit::flag_text(enabled)).len()
    &&& forall|i: int|
        0 <= i < before.len() && i != v ==> (#[trigger] after[i]).kind == before[i].kind
}

proof fn lemma_reflagged_comments(
    before: Seq<EventView>,
    after: Seq<EventView>,
    v: int,
    x: bool,
    i: int,
)
    requires
        reflagged(before, after, v, x),
    ensures
        config_edit::past_comments(after, i) == config_edit::past_comments(before, i),
    decreases before.len() - i,
{
    if 0 <= i < before.len() {
        assert((after[i].kind is Comment) == (before[i].kind is Comment));
        lemma_reflagged_comments(before, after, v, x, i + 1);
    }
}

proof fn lemma_reflagged_closing(
    before: Seq<EventView>,
    after: Seq<EventView>,
    v: int,
    x: bool,
    i: int,
    depth: nat,
)
    requires
        reflagged(before, after, v, x),
    ensures
        config_edit::closing(after, i, depth) == config_edit::closing(before, i, depth),
    decreases before.len() - i,
{
    if 0 <= i < before.len() {
        assert(config_edit::opens(after[i].kind) == config_edit::opens(before[i].kind));
        assert(config_edit::closes(after[i].kind) == config_edit::closes(before[i].kind));
        lemma_reflagged_closing(before, after, v, x, i + 1, depth + 1);
        lemma_reflagged_closing(before, after, v, x, i + 1, depth);
        if depth > 1 {
            lemma_reflagged_closing(before, after, v, x, i + 1, (depth - 1) as nat);
        }
    }
}

proof fn lemma_reflagged_node(
    before: Seq<EventView>,
    after: Seq<EventView>,
    v: int,
    x: bool,
    i: int,
)
    requires
        reflagged(before, after, v, x),
    ensures
        config_edit::node_end(after, i) == config_edit::node_end(before, i),
{
    if 0 <= i < before.len() {
        assert(config_edit::opens(after[i].kind) == config_edit::opens(before[i].kind));
        lemma_reflagged_closing(before, after, v, x, i + 1, 1);
    }
}

proof fn lemma_reflagged_entries(
    before: Seq<EventView>,
    after: Seq<EventView>,
    v: int,
    x: bool,
    i: int,
)
    requires
        reflagged(before, after, v, x),
    ensures
        config_edit::entries_from(after, i) == config_edit::entries_from(before, i),
        entries_stop(after, i) == entries_stop(before, i),
    decreases before.len() - i,
{
    if 0 <= i < before.len() {
        assert((after[i].kind is MappingEnd) == (before[i].kind is MappingEnd));
        let w = config_edit::past_comments(before, i + 1);
        lemma_reflagged_comments(before, after, v, x, i + 1);
        lemma_reflagged_node(before, after, v, x, w);
        let end = config_edit::node_end(before, w);
        lemma_reflagged_comments(before, after, v, x, end);
        let next = config_edit::past_comments(before, end);
        if i < next <= before.len() {
            lemma_reflagged_entries(before, after, v, x, next);
        }
    }
}

/// Replacing a flag keeps every mapping of the config with its keys and values where they are;
/// every scalar but the flag has the text that it had, and the flag has the text that was set.
pub proof fn lemma_replaced_flag_keeps_entries(
    before: Seq<EventView>,
    after: Seq<EventView>,
    v: int,
    x: bool,
)
    requires
        reflagged(before, after, v, x),
    ensures
        forall|m: int| #[trigger]
            config_edit::entries(after, m) == config_edit::entries(before, m),
        forall|m: int| #[trigger]
            config_edit::node_end(after, m) == config_edit::node_end(before, m),
        forall|i: int|
            i != v ==> #[trigger] config_edit::scalar(after, i) == config_edit::scalar(before, i),
        config_edit::scalar(after, v) == Some(config_edit::flag_text(x)),
{
    assert forall|m: int| #[trigger]
        config_edit::entries(after, m) == config_edit::entries(before, m) by {
        lemma_reflagged_comments(before, after, v, x, m + 1);
        lemma_reflagged_entries(
            before,
            after,
            v,
            x,
            config_edit::past_comments(before, m + 1),
        );
    }
    assert forall|m: int| #[trigger]
        config_edit::node_end(after, m) == config_edit::node_end(before, m) by {
        lemma_reflagged_node(before, after, v, x, m);
    }
    assert forall|i: int| i != v implies #[trigger] config_edit::scalar(after, i)
        == config_edit::scalar(before, i) by {
        if 0 <= i < before.len() {
            assert(after[i].kind == before[i].kind);
        }
    }
}

proof fn lemma_reflagged_root(
    before: Seq<EventView>,
    after: Seq<EventView>,
    v: int,
    x: bool,
    i: int,
)
    requires
        reflagged(before, after, v, x),
    ensures
        config_edit::first_mapping(after, i) == config_edit::first_mapping(before, i),
    decreases before.len() - i,
{
    if 0 <= i < before.len() {
        assert((after[i].kind is MappingStart) == (before[i].kind is MappingStart));
        lemma_reflagged_root(before, after, v, x, i + 1);
    }
}

proof fn lemma_reflagged_jobs(
    before: Seq<EventView>,
    after: Seq<EventView>,
    v: int,
    x: bool,
    pairs: Seq<(int, int)>,
)
    requires
        reflagged(before, after, v, x),
        in_order(pairs),
        config_edit::jobs_value(before, pairs) matches Some(jobs) && jobs < v,
    ensures
        config_edit::jobs_value(after, pairs) == config_edit::jobs_value(before, pairs),
    decreases pairs.len(),
{
    let (k, w) = pairs[0];
    let j = lemma_jobs_value(before, pairs);
    assert(k < v) by {
        assert(pairs[0].0 < pairs[0].1);
        if j > 0 {
            assert(pairs[0].1 < pairs[j].0);
            assert(pairs[j].0 < pairs[j].1);
        }
    }
    assert(config_edit::scalar(after, k) == config_edit::scalar(before, k)) by {
        lemma_replaced_flag_keeps_entries(before, after, v, x);
    }
    assert(0 <= w < before.len() ==> (after[w].kind is SequenceStart) == (
    before[w].kind is SequenceStart));
    if !(config_edit::scalar(before, k) == Some("jobs"@) && 0 <= w < before.len()
        && before[w].kind is SequenceStart) {
        let rest = pairs.drop_first();
        assert(in_order(rest)) by {
            assert forall|a: int| 0 <= a < rest.len() implies (#[trigger] rest[a]).0 < rest[a].1 by {
                assert(rest[a] == pairs[a + 1]);
            }
            assert forall|a: int, b: int| 0 <= a < b < rest.len() implies (#[trigger] rest[a]).1 < (
            #[trigger] rest[b]).0 by {
                assert(rest[a] == pairs[a + 1] && rest[b] == pairs[b + 1]);
            }
        }
        lemma_reflagged_jobs(before, after, v, x, rest);
    }
}

proof fn lemma_reflagged_item(
    before: Seq<EventView>,
    after: Seq<EventView>,
    v: int,
    x: bool,
    i: int,
    id: Seq<char>,
)
    requires
        reflagged(before, after, v, x),
        well_nested(before),
        0 <= i <= before.len(),
        config_edit::item_with_id(before, i, id) matches Some(item)
            && config_edit::enabled_value(before, config_edit::entries(before, item)) == Some(v),
    ensures
        config_edit::item_with_id(after, i, id) == config_edit::item_with_id(before, i, id),
    decreases before.len() - i,
{
    let item = config_edit::item_with_id(before, i, id)->0;
    let pairs = config_edit::entries(before, i);
    lemma_item_bounds(before, i, id);
    lemma_replaced_flag_keeps_entries(before, after, v, x);
    lemma_entries_inside(before, item);
    let e = lemma_enabled_value(before, config_edit::entries(before, item));
    assert((after[i].kind is SequenceEnd) == (before[i].kind is SequenceEnd));
    assert((after[i].kind is MappingStart) == (before[i].kind is MappingStart));
    if before[i].kind is MappingStart && config_edit::has_id(before, pairs, id) {
        let j = choose|j: int|
            0 <= j < pairs.len() && config_edit::scalar(before, (#[trigger] pairs[j]).0) == Some(
                "id"@,
            ) && config_edit::scalar(before, pairs[j].1) == Some(id);
        assert(j != e) by {
            reveal_strlit("id");
            reveal_strlit("enabled");
            assert("id"@.len() != "enabled"@.len());
        }
        assert(pairs[j].0 != v && pairs[j].1 != v) by {
            assert(pairs[j].0 < pairs[j].1 && pairs[e].0 < pairs[e].1);
            if j < e {
                assert(pairs[j].1 < pairs[e].0);
            } else {
                assert(pairs[e].1 < pairs[j].0);
            }
        }
        assert(config_edit::has_id(after, pairs, id));
    } else {
        let end = config_edit::node_end(before, i);
        let next = config_edit::past_comments(before, end);
        config_edit::lemma_node_end(before, i);
        config_edit::lemma_past_comments(before, end);
        lemma_item_bounds(before, next, id);
        if before[i].kind is MappingStart {
            lemma_entries_inside(before, i);
            assert(!config_edit::has_id(after, pairs, id)) by {
                assert forall|j: int| 0 <= j < pairs.len() implies !(config_edit::scalar(
                    after,
                    (#[trigger] pairs[j]).0,
                ) == Some("id"@) && config_edit::scalar(after, pairs[j].1) == Some(id)) by {
                    assert(pairs[j].0 < pairs[j].1 < end <= item);
                    assert(config_edit::entries(before, item)[e].0 > item);
                }
            }
        }
        lemma_reflagged_comments(before, after, v, x, end);
        lemma_reflagged_item(before, after, v, x, next, id);
    }
}

proof fn lemma_reflagged_enabled(
    before: Seq<EventView>,
    after: Seq<EventView>,
    v: int,
    x: bool,
    pairs: Seq<(int, int)>,
)
    requires
        reflagged(before, after, v, x),
        forall|j: int| 0 <= j < pairs.len() ==> (#[trigger] pairs[j]).0 != v,
    ensures
        config_edit::enabled_value(after, pairs) == config_edit::enabled_value(before, pairs),
    decreases pairs.len(),
{
    if pairs.len() > 0 {
        assert(pairs[0].0 != v);
        lemma_replaced_flag_keeps_entries(before, after, v, x);
        let rest = pairs.drop_first();
        assert forall|j: int| 0 <= j < rest.len() implies (#[trigger] rest[j]).0 != v by {
            assert(rest[j] == pairs[j + 1]);
        }
        lemma_reflagged_enabled(before, after, v, x, rest);
    }
}

// ------------------------------------------------------------------------ a flag added

/// Whether `after` are the events of a text to which a flag was added: a key and a flag stand
/// before the event `p`, and every other event is of the kind that it was.
pub open spec fn lined(
    before: Seq<EventView>,
    after: Seq<EventView>,
    p: int,
    enabled: bool,
    at: int,
) -> bool {
    &&& after.len() == before.len() + 2
    &&& 0 <= p < before.len()
    &&& after[p].kind == KindView::Scalar { value: "enabled"@, anchor: 0 }
    &&& after[p + 1].kind == KindView::Scalar { value: config_edit::flag_text(enabled), anchor: 0 }
    &&& after[p + 1].start == at
    &&& after[p + 1].end == at + encode_utf8(config_edit::flag_text(enabled)).len()
    &&& forall|i: int| 0 <= i < p ==> (#[trigger] before[i]).kind == after[i].kind
    &&& forall|i: int| p <= i < before.len() ==> (#[trigger] before[i]).kind == after[i + 2].kind
}

/// Where an event of the text stands among the events of the text with a flag more.
pub open spec fn shifted(p: int, i: int) -> int {
    if i < p {
        i
    } else {
        i + 2
    }
}

/// The keys and values two events further.
pub open spec fn two_further(pairs: Seq<(int, int)>) -> Seq<(int, int)> {
    pairs.map_values(|e: (int, int)| (e.0 + 2, e.1 + 2))
}

proof fn lemma_lined_scalar(
    before: Seq<EventView>,
    after: Seq<EventView>,
    p: int,
    x: bool,
    at: int,
    i: int,
)
    requires
        lined(before, after, p, x, at),
    ensures
        config_edit::scalar(after, shifted(p, i)) == config_edit::scalar(before, i),
{
    if 0 <= i < before.len() {
        assert(before[i].kind == after[shifted(p, i)].kind);
    }
}

proof fn lemma_lined_comments(
    before: Seq<EventView>,
    after: Seq<EventView>,
    p: int,
    x: bool,
    at: int,
    i: int,
)
    requires
        lined(before, after, p, x, at),
        0 <= i,
    ensures
        i >= p ==> config_edit::past_comments(after, i + 2) == config_edit::past_comments(before, i)
            + 2,
        i <= p ==> config_edit::past_comments(after, i) == (if config_edit::past_comments(before, i)
            < p {
            config_edit::past_comments(before, i)
        } else {
            p
        }),
    decreases before.len() - i,
{
    if i < before.len() {
        assert(before[i].kind == after[shifted(p, i)].kind);
        lemma_lined_comments(before, after, p, x, at, i + 1);
        config_edit::lemma_past_comments(before, i);
    }
}

proof fn lemma_lined_closing(
    before: Seq<EventView>,
    after: Seq<EventView>,
    p: int,
    x: bool,
    at: int,
    i: int,
    depth: nat,
)
    requires
        lined(before, after, p, x, at),
        0 <= i,
    ensures
        i >= p ==> config_edit::closing(after, i + 2, depth) == config_edit::closing(
            before,
            i,
            depth,
        ) + 2,
        i <= p ==> config_edit::closing(after, i, depth) == (if config_edit::closing(
            before,
            i,
            depth,
        ) <= p {
            config_edit::closing(before, i, depth)
        } else {
            config_edit::closing(before, i, depth) + 2
        }),
    decreases before.len() - i,
{
    if i < before.len() {
        assert(before[i].kind == after[shifted(p, i)].kind);
        lemma_lined_closing(before, after, p, x, at, i + 1, depth + 1);
        lemma_lined_closing(before, after, p, x, at, i + 1, depth);
        if depth > 1 {
            lemma_lined_closing(before, after, p, x, at, i + 1, (depth - 1) as nat);
        }
        config_edit::lemma_closing(before, i, depth);
        if i == p {
            reveal_with_fuel(config_edit::closing, 3);
            assert(config_edit::closing(after, p, depth) == config_edit::closing(
                after,
                p + 2,
                depth,
            ));
        }
    }
}

proof fn lemma_lined_node(
    before: Seq<EventView>,
    after: Seq<EventView>,
    p: int,
    x: bool,
    at: int,
    i: int,
)
    requires
        lined(before, after, p, x, at),
        0 <= i,
    ensures
        i >= p ==> config_edit::node_end(after, i + 2) == config_edit::node_end(before, i) + 2,
        i < p ==> config_edit::node_end(after, i) == (if config_edit::node_end(before, i) <= p {
            config_edit::node_end(before, i)
        } else {
            config_edit::node_end(before, i) + 2
        }),
{
    if i < before.len() {
        assert(before[i].kind == after[shifted(p, i)].kind);
        lemma_lined_closing(before, after, p, x, at, i + 1, 1);
    }
}

/// The entries from a key after the added flag on are two events further.
proof fn lemma_lined_entries_after(
    before: Seq<EventView>,
    after: Seq<EventView>,
    p: int,
    x: bool,
    at: int,
    i: int,
)
    requires
        lined(before, after, p, x, at),
        p <= i,
    ensures
        config_edit::entries_from(after, i + 2) == two_further(config_edit::entries_from(before, i)),
    decreases before.len() - i,
{
    if i < before.len() && !(before[i].kind is MappingEnd) {
        assert(before[i].kind == after[i + 2].kind);
        let v = config_edit::past_comments(before, i + 1);
        lemma_lined_comments(before, after, p, x, at, i + 1);
        config_edit::lemma_past_comments(before, i + 1);
        let end = config_edit::node_end(before, v);
        lemma_lined_node(before, after, p, x, at, v);
        config_edit::lemma_node_end(before, v);
        let next = config_edit::past_comments(before, end);
        lemma_lined_comments(before, after, p, x, at, end);
        config_edit::lemma_past_comments(before, end);
        lemma_lined_entries_after(before, after, p, x, at, next);
        assert(two_further(seq![(i, v)] + config_edit::entries_from(before, next)) =~= seq![
            (i + 2, v + 2),
        ] + two_further(config_edit::entries_from(before, next)));
    } else {
        if i < before.len() {
            assert(before[i].kind == after[i + 2].kind);
        }
        assert(two_further(Seq::empty()) =~= Seq::empty());
    }
}

/// The entries that end before the added flag stay where they are.
proof fn lemma_lined_entries_before(
    before: Seq<EventView>,
    after: Seq<EventView>,
    p: int,
    x: bool,
    at: int,
    i: int,
)
    requires
        lined(before, after, p, x, at),
        0 <= i,
        entries_stop(before, i) < p,
    ensures
        config_edit::entries_from(after, i) == config_edit::entries_from(before, i),
    decreases before.len() - i,
{
    if i < before.len() && !(before[i].kind is MappingEnd) {
        let v = config_edit::past_comments(before, i + 1);
        config_edit::lemma_past_comments(before, i + 1);
        let end = config_edit::node_end(before, v);
        config_edit::lemma_node_end(before, v);
        let next = config_edit::past_comments(before, end);
        config_edit::lemma_past_comments(before, end);
        lemma_entries_in_order(before, next);
        assert(before[i].kind == after[i].kind);
        lemma_lined_comments(before, after, p, x, at, i + 1);
        lemma_lined_node(before, after, p, x, at, v);
        lemma_lined_comments(before, after, p, x, at, end);
        lemma_lined_entries_before(before, after, p, x, at, next);
    } else if i < before.len() {
        assert(before[i].kind == after[i].kind);
    }
}

/// Whether the event `p` is where a line after the first entry of the mapping `item` is read:
/// after that entry, and after comments alone.
pub open spec fn after_first_entry(events: Seq<EventView>, item: int, p: int) -> bool {
    let pairs = config_edit::entries(events, item);
    let end = config_edit::node_end(events, pairs[0].1);
    &&& pairs.len() > 0
    &&& end <= p <= config_edit::past_comments(events, end)
}

/// Adding a flag to a job keeps every entry of every job: the job has its entries and the new
/// one behind the first; a mapping that ends before the flag has its entries where they were,
/// and one that starts after it has them two events further; and every scalar has its text.
pub proof fn lemma_added_flag_keeps_entries(
    before: Seq<EventView>,
    after: Seq<EventView>,
    item: int,
    p: int,
    x: bool,
    at: int,
)
    requires
        lined(before, after, p, x, at),
        well_nested(before),
        0 <= item < before.len(),
        before[item].kind is MappingStart,
        after_first_entry(before, item, p),
    ensures
        config_edit::entries(after, item) == seq![
            config_edit::entries(before, item)[0],
            (p, p + 1),
        ] + two_further(config_edit::entries(before, item).drop_first()),
        item < p,
        forall|m: int|
            0 <= m < before.len() && before[m].kind is MappingStart && config_edit::node_end(
                before,
                m,
            ) <= p ==> #[trigger] config_edit::entries(before, m) == config_edit::entries(after, m),
        forall|m: int|
            p <= m < before.len() ==> two_further(#[trigger] config_edit::entries(before, m))
                == config_edit::entries(after, m + 2),
        forall|i: int| #[trigger]
            config_edit::scalar(before, i) == config_edit::scalar(after, shifted(p, i)),
        config_edit::scalar(after, p) == Some("enabled"@),
        config_edit::scalar(after, p + 1) == Some(config_edit::flag_text(x)),
{
    lemma_entries_inside(before, item);
    let pairs = config_edit::entries(before, item);
    let (k, v) = pairs[0];
    let start = config_edit::past_comments(before, item + 1);
    let end = config_edit::node_end(before, v);
    let next = config_edit::past_comments(before, end);
    config_edit::lemma_past_comments(before, item + 1);
    config_edit::lemma_past_comments(before, k + 1);
    config_edit::lemma_node_end(before, v);
    config_edit::lemma_past_comments(before, end);
    assert(k == start && v == config_edit::past_comments(before, k + 1));
    assert(pairs[0].0 < pairs[0].1);
    let rest = config_edit::entries_from(before, next);
    assert(pairs == seq![(k, v)] + rest);
    assert(pairs.drop_first() =~= rest);
    assert(item < k < v < end <= p);
    assert(before[k].kind == after[k].kind);
    lemma_lined_comments(before, after, p, x, at, item + 1);
    lemma_lined_comments(before, after, p, x, at, k + 1);
    lemma_lined_node(before, after, p, x, at, v);
    lemma_lined_comments(before, after, p, x, at, end);
    lemma_comments_between(before, end, p);
    lemma_lined_comments(before, after, p, x, at, p);
    lemma_lined_entries_after(before, after, p, x, at, next);
    assert(config_edit::past_comments(after, p + 1) == p + 1);
    assert(config_edit::entries_from(after, p) == seq![(p, p + 1)] + config_edit::entries_from(
        after,
        next + 2,
    ));
    assert(config_edit::entries(after, item) =~= seq![(k, v)] + (seq![(p, p + 1)] + two_further(
        rest,
    )));
    assert forall|m: int|
        0 <= m < before.len() && before[m].kind is MappingStart && config_edit::node_end(before, m)
            <= p implies #[trigger] config_edit::entries(before, m) == config_edit::entries(
        after,
        m,
    ) by {
        let from = config_edit::past_comments(before, m + 1);
        config_edit::lemma_node_end(before, m);
        config_edit::lemma_past_comments(before, m + 1);
        lemma_entries_in_order(before, from);
        lemma_lined_comments(before, after, p, x, at, m + 1);
        lemma_lined_entries_before(before, after, p, x, at, from);
    }
    assert forall|m: int| p <= m < before.len() implies two_further(
        #[trigger] config_edit::entries(before, m),
    ) == config_edit::entries(after, m + 2) by {
        lemma_lined_comments(before, after, p, x, at, m + 1);
        config_edit::lemma_past_comments(before, m + 1);
        lemma_lined_entries_after(
            before,
            after,
            p,
            x,
            at,
            config_edit::past_comments(before, m + 1),
        );
    }
    assert forall|i: int| #[trigger]
        config_edit::scalar(before, i) == config_edit::scalar(after, shifted(p, i)) by {
        lemma_lined_scalar(before, after, p, x, at, i);
    }
}

/// Between an event and the next one that is no comment, that one stays the next.
proof fn lemma_comments_between(events: Seq<EventView>, i: int, p: int)
    requires
        0 <= i <= p <= config_edit::past_comments(events, i),
    ensures
        config_edit::past_comments(events, p) == config_edit::past_comments(events, i),
    decreases p - i,
{
    if i < p {
        lemma_comments_between(events, i + 1, p);
    }
}

// ------------------------------------------------------------------------ two edits in a row

/// Whether a text is read as one in which the job's `enabled` has the value `enabled`, written
/// as a flag at the byte `at`.
pub open spec fn reads_flag(
    events: Seq<EventView>,
    id: Seq<char>,
    enabled: bool,
    at: int,
) -> bool {
    &&& config_edit::target(events, id) matches Target::At(item) && {
        let pairs = config_edit::entries(events, item);
        &&& !config_edit::merges(events, pairs)
        &&& config_edit::enabled_value(events, pairs) matches Some(v) && {
            &&& events[v].kind == KindView::Scalar {
                value: config_edit::flag_text(enabled),
                anchor: 0,
            }
            &&& events[v].start == at
            &&& events[v].end == at + encode_utf8(config_edit::flag_text(enabled)).len()
        }
    }
}

/// A job whose flag was replaced is found again, with the flag that was set, where it stood.
pub proof fn lemma_replaced_flag_is_read(
    source: Seq<char>,
    before: Seq<EventView>,
    after: Seq<EventView>,
    id: Seq<char>,
    item: int,
    v: int,
    x: bool,
)
    requires
        well_nested(before),
        config_edit::target(before, id) == Target::At(item),
        config_edit::enabled_value(before, config_edit::entries(before, item)) == Some(v),
        config_edit::edit_of(source, before, item, x) is Some,
        reflagged(before, after, v, x),
    ensures
        config_edit::target(after, id) == Target::At(item),
        reads_flag(after, id, x, before[v].start as int),
{
    let root = config_edit::first_mapping(before, 0)->0;
    let top = config_edit::entries(before, root);
    let jobs = config_edit::jobs_value(before, top)->0;
    let from = config_edit::past_comments(before, jobs + 1);
    let pairs = config_edit::entries(before, item);
    lemma_first_mapping(before, 0);
    let _ = lemma_jobs_value(before, top);
    config_edit::lemma_past_comments(before, jobs + 1);
    lemma_item_bounds(before, from, id);
    lemma_entries_inside(before, root);
    lemma_entries_inside(before, item);
    let e = lemma_enabled_value(before, pairs);
    assert(pairs[e].0 < pairs[e].1);
    lemma_replaced_flag_keeps_entries(before, after, v, x);
    lemma_reflagged_root(before, after, v, x, 0);
    lemma_reflagged_jobs(before, after, v, x, top);
    lemma_reflagged_comments(before, after, v, x, jobs + 1);
    lemma_reflagged_item(before, after, v, x, from, id);
    assert(after[root].kind == before[root].kind);
    assert(after[jobs].kind == before[jobs].kind);
    assert(after[item].kind == before[item].kind);
    assert forall|j: int| 0 <= j < pairs.len() implies (#[trigger] pairs[j]).0 != v by {
        assert(pairs[j].0 < pairs[j].1);
        if j < e {
            assert(pairs[j].1 < pairs[e].0);
        } else if e < j {
            assert(pairs[e].1 < pairs[j].0);
        }
    }
    lemma_reflagged_enabled(before, after, v, x, pairs);
    assert(!config_edit::merges(after, pairs)) by {
        assert forall|j: int| 0 <= j < pairs.len() implies config_edit::scalar(
            after,
            (#[trigger] pairs[j]).0,
        ) != Some("<<"@) by {
            assert(config_edit::scalar(before, pairs[j].0) != Some("<<"@));
        }
    }
}

proof fn lemma_lined_root(
    before: Seq<EventView>,
    after: Seq<EventView>,
    p: int,
    x: bool,
    at: int,
    i: int,
)
    requires
        lined(before, after, p, x, at),
        0 <= i,
        config_edit::first_mapping(before, i) matches Some(root) && root < p,
    ensures
        config_edit::first_mapping(after, i) == config_edit::first_mapping(before, i),
    decreases before.len() - i,
{
    lemma_first_mapping(before, i);
    assert(before[i].kind == after[i].kind);
    if !(before[i].kind is MappingStart) {
        lemma_lined_root(before, after, p, x, at, i + 1);
    }
}

proof fn lemma_lined_jobs(
    before: Seq<EventView>,
    after: Seq<EventView>,
    p: int,
    x: bool,
    at: int,
    i: int,
)
    requires
        lined(before, after, p, x, at),
        0 <= i <= before.len(),
        config_edit::jobs_value(before, config_edit::entries_from(before, i)) matches Some(jobs)
            && jobs < p,
    ensures
        config_edit::jobs_value(after, config_edit::entries_from(after, i))
            == config_edit::jobs_value(before, config_edit::entries_from(before, i)),
    decreases before.len() - i,
{
    let pairs = config_edit::entries_from(before, i);
    let j = lemma_jobs_value(before, pairs);
    let v = config_edit::past_comments(before, i + 1);
    config_edit::lemma_past_comments(before, i + 1);
    let end = config_edit::node_end(before, v);
    config_edit::lemma_node_end(before, v);
    let next = config_edit::past_comments(before, end);
    config_edit::lemma_past_comments(before, end);
    lemma_entries_in_order(before, next);
    let rest = config_edit::entries_from(before, next);
    assert(pairs == seq![(i, v)] + rest);
    assert(pairs.drop_first() =~= rest);
    if j > 0 {
        assert(pairs[j] == rest[j - 1]);
        assert(next <= rest[j - 1].0 < rest[j - 1].1);
    }
    assert(i < v < p);
    assert(before[i].kind == after[i].kind && before[v].kind == after[v].kind);
    lemma_lined_comments(before, after, p, x, at, i + 1);
    lemma_lined_scalar(before, after, p, x, at, i);
    let found = config_edit::entries_from(after, i);
    assert(found[0] == (i, v));
    if !(config_edit::scalar(before, i) == Some("jobs"@) && before[v].kind is SequenceStart) {
        lemma_lined_node(before, after, p, x, at, v);
        lemma_lined_comments(before, after, p, x, at, end);
        lemma_lined_jobs(before, after, p, x, at, next);
        assert(found.drop_first() =~= config_edit::entries_from(after, next));
    }
}

proof fn lemma_lined_item(
    before: Seq<EventView>,
    after: Seq<EventView>,
    p: int,
    x: bool,
    at: int,
    i: int,
    id: Seq<char>,
)
    requires
        lined(before, after, p, x, at),
        well_nested(before),
        0 <= i <= before.len(),
        config_edit::item_with_id(before, i, id) matches Some(item) && after_first_entry(
            before,
            item,
            p,
        ),
    ensures
        config_edit::item_with_id(after, i, id) == config_edit::item_with_id(before, i, id),
    decreases before.len() - i,
{
    let item = config_edit::item_with_id(before, i, id)->0;
    lemma_item_bounds(before, i, id);
    lemma_added_flag_keeps_entries(before, after, item, p, x, at);
    assert(before[i].kind == after[i].kind);
    let pairs = config_edit::entries(before, i);
    if before[i].kind is MappingStart && config_edit::has_id(before, pairs, id) {
        let j = choose|j: int|
            0 <= j < pairs.len() && config_edit::scalar(before, (#[trigger] pairs[j]).0) == Some(
                "id"@,
            ) && config_edit::scalar(before, pairs[j].1) == Some(id);
        lemma_entries_inside(before, item);
        let found = config_edit::entries(after, item);
        if j == 0 {
            lemma_first_entry_ends(before, item, p);
            assert(found[0] == pairs[0]);
            assert(shifted(p, pairs[0].0) == pairs[0].0 && shifted(p, pairs[0].1) == pairs[0].1);
            assert(config_edit::scalar(after, found[0].0) == Some("id"@));
        } else {
            let rest = pairs.drop_first();
            assert(two_further(rest)[j - 1] == (pairs[j].0 + 2, pairs[j].1 + 2)) by {
                assert(rest[j - 1] == pairs[j]);
            }
            assert(found[j + 1] == two_further(rest)[j - 1]);
            lemma_entries_later(before, item, p, j);
            assert(shifted(p, pairs[j].0) == pairs[j].0 + 2);
            assert(shifted(p, pairs[j].1) == pairs[j].1 + 2);
            assert(config_edit::scalar(after, found[j + 1].0) == Some("id"@));
        }
        assert(config_edit::has_id(after, found, id));
    } else {
        let end = config_edit::node_end(before, i);
        let next = config_edit::past_comments(before, end);
        config_edit::lemma_node_end(before, i);
        config_edit::lemma_past_comments(before, end);
        lemma_item_bounds(before, next, id);
        if before[i].kind is MappingStart {
            lemma_entries_inside(before, i);
            assert(config_edit::entries(after, i) == pairs);
            assert(!config_edit::has_id(after, pairs, id)) by {
                assert forall|j: int| 0 <= j < pairs.len() implies !(config_edit::scalar(
                    after,
                    (#[trigger] pairs[j]).0,
                ) == Some("id"@) && config_edit::scalar(after, pairs[j].1) == Some(id)) by {
                    assert(pairs[j].0 < pairs[j].1 < end <= item);
                    lemma_lined_scalar(before, after, p, x, at, pairs[j].0);
                    lemma_lined_scalar(before, after, p, x, at, pairs[j].1);
                }
            }
        }
        lemma_lined_node(before, after, p, x, at, i);
        lemma_lined_comments(before, after, p, x, at, end);
        lemma_lined_item(before, after, p, x, at, next, id);
    }
}

/// The first entry stands before the place where a line is added after it.
proof fn lemma_first_entry_ends(events: Seq<EventView>, item: int, p: int)
    requires
        0 <= item < events.len(),
        after_first_entry(events, item, p),
        p < events.len(),
    ensures
        item < config_edit::entries(events, item)[0].0 < config_edit::entries(events, item)[0].1
            < p,
{
    let (k, v) = config_edit::entries(events, item)[0];
    config_edit::lemma_past_comments(events, item + 1);
    assert(k == config_edit::past_comments(events, item + 1));
    config_edit::lemma_past_comments(events, k + 1);
    assert(v == config_edit::past_comments(events, k + 1));
    config_edit::lemma_node_end(events, v);
}

/// The other entries stand behind it.
proof fn lemma_entries_later(events: Seq<EventView>, item: int, p: int, j: int)
    requires
        0 <= item < events.len(),
        after_first_entry(events, item, p),
        p < events.len(),
        0 < j < config_edit::entries(events, item).len(),
    ensures
        p <= config_edit::entries(events, item)[j].0 < config_edit::entries(events, item)[j].1,
{
    let pairs = config_edit::entries(events, item);
    let (k, v) = pairs[0];
    lemma_first_entry_ends(events, item, p);
    let next = config_edit::past_comments(events, config_edit::node_end(events, v));
    config_edit::lemma_node_end(events, v);
    config_edit::lemma_past_comments(events, config_edit::node_end(events, v));
    lemma_entries_in_order(events, next);
    let rest = config_edit::entries_from(events, next);
    assert(pairs == seq![(k, v)] + rest);
    assert(pairs[j] == rest[j - 1]);
}

/// A job to which a flag was added is found again, with the flag that was set, where it was
/// written.
pub proof fn lemma_added_flag_is_read(
    before: Seq<EventView>,
    after: Seq<EventView>,
    id: Seq<char>,
    item: int,
    p: int,
    x: bool,
    at: int,
)
    requires
        well_nested(before),
        config_edit::target(before, id) == Target::At(item),
        config_edit::enabled_value(before, config_edit::entries(before, item)) is None,
        !config_edit::merges(before, config_edit::entries(before, item)),
        after_first_entry(before, item, p),
        lined(before, after, p, x, at),
    ensures
        config_edit::target(after, id) == Target::At(item),
        reads_flag(after, id, x, at),
{
    let root = config_edit::first_mapping(before, 0)->0;
    let top = config_edit::entries(before, root);
    let jobs = config_edit::jobs_value(before, top)->0;
    let from = config_edit::past_comments(before, jobs + 1);
    let pairs = config_edit::entries(before, item);
    lemma_first_mapping(before, 0);
    let t = lemma_jobs_value(before, top);
    config_edit::lemma_past_comments(before, jobs + 1);
    lemma_item_bounds(before, from, id);
    lemma_entries_inside(before, root);
    lemma_first_entry_ends(before, item, p);
    assert(top[t].0 < top[t].1);
    let start = config_edit::past_comments(before, root + 1);
    config_edit::lemma_past_comments(before, root + 1);
    lemma_lined_root(before, after, p, x, at, 0);
    lemma_lined_comments(before, after, p, x, at, root + 1);
    lemma_lined_jobs(before, after, p, x, at, start);
    lemma_lined_comments(before, after, p, x, at, jobs + 1);
    lemma_lined_item(before, after, p, x, at, from, id);
    lemma_added_flag_keeps_entries(before, after, item, p, x, at);
    assert(before[root].kind == after[root].kind);
    assert(before[jobs].kind == after[jobs].kind);
    assert(before[item].kind == after[item].kind);
    let found = config_edit::entries(after, item);
    assert(found[0] == pairs[0] && found[1] == (p, p + 1));
    lemma_lined_scalar(before, after, p, x, at, pairs[0].0);
    reveal_with_fuel(config_edit::enabled_value, 3);
    assert(found.drop_first()[0] == (p, p + 1));
    assert(config_edit::enabled_value(after, found) == Some(p + 1));
    assert(!config_edit::merges(after, found)) by {
        assert forall|j: int| 0 <= j < found.len() implies config_edit::scalar(
            after,
            (#[trigger] found[j]).0,
        ) != Some("<<"@) by {
            if j == 0 {
                assert(config_edit::scalar(before, pairs[0].0) != Some("<<"@));
            } else if j == 1 {
                reveal_strlit("<<");
                reveal_strlit("enabled");
                assert("<<"@.len() != "enabled"@.len());
            } else {
                let rest = pairs.drop_first();
                assert(found[j] == two_further(rest)[j - 2]);
                assert(rest[j - 2] == pairs[j - 1]);
                lemma_entries_later(before, item, p, j - 1);
                lemma_lined_scalar(before, after, p, x, at, pairs[j - 1].0);
                assert(config_edit::scalar(before, pairs[j - 1].0) != Some("<<"@));
            }
        }
    }
}

/// What an edit writes before the flag: nothing where it replaces one.
pub open spec fn before_flag(
    source: Seq<char>,
    events: Seq<EventView>,
    item: int,
) -> Seq<char> {
    let pairs = config_edit::entries(events, item);
    match config_edit::enabled_value(events, pairs) {
        Some(_) => Seq::empty(),
        None => config_edit::line_before_flag(source, events, pairs),
    }
}

/// Where an edit writes the flag: the bytes from here on are the flag's.
pub open spec fn flag_at(source: Seq<char>, events: Seq<EventView>, item: int, x: bool) -> int {
    let (start, _, _) = config_edit::edit_of(source, events, item, x)->0;
    start + encode_utf8(before_flag(source, events, item)).len()
}

/// The last of two edits in a row decides. Where the first wrote the flag `x`, and its text is
/// read with that flag where it was written, the second succeeds, and makes of the text what it
/// would have made of the first text; the same flag again changes nothing; and where the first
/// replaced the flag `y`, setting `y` gives the first text back.
pub proof fn lemma_last_set_wins(
    source: Seq<char>,
    events: Seq<EventView>,
    id: Seq<char>,
    item: int,
    x: bool,
    y: bool,
    once: Seq<char>,
    after: Seq<EventView>,
    r: Result<Seq<char>, Seq<char>>,
)
    requires
        config_edit::yaml_events(source) == Ok::<Seq<EventView>, Seq<char>>(events),
        config_edit::spans_fit(source, events),
        config_edit::target(events, id) == Target::At(item),
        config_edit::toggled(source, id, x, Ok(once)),
        config_edit::yaml_events(once) == Ok::<Seq<EventView>, Seq<char>>(after),
        reads_flag(after, id, x, flag_at(source, events, item, x)),
        config_edit::toggled(once, id, y, r),
    ensures
        r is Ok,
        config_edit::toggled(source, id, y, r),
        x == y ==> r == Ok::<Seq<char>, Seq<char>>(once),
        (config_edit::enabled_value(events, config_edit::entries(events, item)) matches Some(v)
            && encode_utf8(source).subrange(events[v].start as int, events[v].end as int)
            == encode_utf8(config_edit::flag_text(y))) ==> r == Ok::<Seq<char>, Seq<char>>(source),
{
    let (start, end, insert) = config_edit::edit_of(source, events, item, x)->0;
    let lead = before_flag(source, events, item);
    let fx = encode_utf8(config_edit::flag_text(x));
    let fy = encode_utf8(config_edit::flag_text(y));
    let at = flag_at(source, events, item, x);
    let b = encode_utf8(source);
    let pairs = config_edit::entries(events, item);
    let item2 = config_edit::target(after, id)->At_0;
    let v2 = config_edit::enabled_value(after, config_edit::entries(after, item2))->0;
    lemma_edit_inside(source, events, id, item, x);
    reveal_strlit("true");
    reveal_strlit("false");
    text::lemma_encode_concat(lead, config_edit::flag_text(x));
    text::lemma_encode_concat(lead, config_edit::flag_text(y));
    assert(insert =~= lead + config_edit::flag_text(x));
    assert(config_edit::edit_of(source, events, item, y) == Some(
        (start, end, lead + config_edit::flag_text(y)),
    )) by {
        let (_, _, other) = config_edit::edit_of(source, events, item, y)->0;
        assert(other =~= lead + config_edit::flag_text(y));
    }
    assert(fx.len() > 0) by {
        lemma_flag_bytes(x);
    }
    assert(config_edit::edit_of(once, after, item2, y) == Some(
        (at, at + fx.len(), config_edit::flag_text(y)),
    ));
    let o = encode_utf8(once);
    let out = r->Ok_0;
    let t = encode_utf8(out);
    let l = encode_utf8(lead);
    assert(o == b.take(start) + (l + fx) + b.skip(end));
    assert(t == o.take(at) + fy + o.skip(at + fx.len()));
    assert(o.take(at) =~= b.take(start) + l);
    assert(o.skip(at + fx.len()) =~= b.skip(end));
    assert(t =~= b.take(start) + (l + fy) + b.skip(end));
    if x == y {
        text::lemma_encode_injective(out, once);
    }
    if let Some(v) = config_edit::enabled_value(events, pairs) {
        if b.subrange(events[v].start as int, events[v].end as int) == fy {
            assert(lead =~= Seq::<char>::empty());
            assert(l =~= Seq::<u8>::empty());
            assert(t =~= b);
            text::lemma_encode_injective(out, source);
        }
    }
}

/// The last of two edits of a flag in a row decides: the events of the text between them differ
/// from those of the first text only in the flag.
pub proof fn lemma_last_flag_wins(
    source: Seq<char>,
    events: Seq<EventView>,
    id: Seq<char>,
    item: int,
    v: int,
    x: bool,
    y: bool,
    once: Seq<char>,
    after: Seq<EventView>,
    r: Result<Seq<char>, Seq<char>>,
)
    requires
        config_edit::yaml_events(source) == Ok::<Seq<EventView>, Seq<char>>(events),
        config_edit::spans_fit(source, events),
        well_nested(events),
        config_edit::target(events, id) == Target::At(item),
        config_edit::enabled_value(events, config_edit::entries(events, item)) == Some(v),
        config_edit::toggled(source, id, x, Ok(once)),
        config_edit::yaml_events(once) == Ok::<Seq<EventView>, Seq<char>>(after),
        reflagged(events, after, v, x),
        config_edit::toggled(once, id, y, r),
    ensures
        r is Ok,
        config_edit::toggled(source, id, y, r),
        x == y ==> r == Ok::<Seq<char>, Seq<char>>(once),
        encode_utf8(source).subrange(events[v].start as int, events[v].end as int) == encode_utf8(
            config_edit::flag_text(y),
        ) ==> r == Ok::<Seq<char>, Seq<char>>(source),
{
    lemma_replaced_flag_is_read(source, events, after, id, item, v, x);
    assert(encode_utf8(Seq::<char>::empty()) =~= Seq::<u8>::empty());
    lemma_last_set_wins(source, events, id, item, x, y, once, after, r);
}

/// The last of two edits in a row decides where the first adds the flag, too: the events of the
/// text between them are those of the first text and the new entry's.
pub proof fn lemma_last_line_wins(
    source: Seq<char>,
    events: Seq<EventView>,
    id: Seq<char>,
    item: int,
    p: int,
    x: bool,
    y: bool,
    once: Seq<char>,
    after: Seq<EventView>,
    r: Result<Seq<char>, Seq<char>>,
)
    requires
        config_edit::yaml_events(source) == Ok::<Seq<EventView>, Seq<char>>(events),
        config_edit::spans_fit(source, events),
        well_nested(events),
        config_edit::target(events, id) == Target::At(item),
        config_edit::enabled_value(events, config_edit::entries(events, item)) is None,
        after_first_entry(events, item, p),
        config_edit::toggled(source, id, x, Ok(once)),
        config_edit::yaml_events(once) == Ok::<Seq<EventView>, Seq<char>>(after),
        lined(events, after, p, x, flag_at(source, events, item, x)),
        config_edit::toggled(once, id, y, r),
    ensures
        r is Ok,
        config_edit::toggled(source, id, y, r),
        x == y ==> r == Ok::<Seq<char>, Seq<char>>(once),
{
    lemma_added_flag_is_read(
        events,
        after,
        id,
        item,
        p,
        x,
        flag_at(source, events, item, x),
    );
    lemma_last_set_wins(source, events, id, item, x, y, once, after, r);
}

proof fn lemma_flag_bytes(x: bool)
    ensures
        encode_utf8(config_edit::flag_text(x)).len() > 0,
{
    reveal_strlit("true");
    reveal_strlit("false");
    let e = encode_utf8(config_edit::flag_text(x));
    if e.len() == 0 {
        assert(e =~= encode_utf8(Seq::<char>::empty()));
        text::lemma_encode_injective(config_edit::flag_text(x), Seq::empty());
    }
}

proof fn lemma_edit_inside(
    source: Seq<char>,
    events: Seq<EventView>,
    id: Seq<char>,
    item: int,
    x: bool,
)
    requires
        config_edit::spans_fit(source, events),
        config_edit::target(events, id) == Target::At(item),
        config_edit::edit_of(source, events, item, x) is Some,
    ensures
        config_edit::edit_of(source, events, item, x) matches Some((start, end, _)) && 0 <= start
            <= end <= encode_utf8(source).len(),
{
    let pairs = config_edit::entries(events, item);
    match config_edit::enabled_value(events, pairs) {
        Some(v) => {
            let j = lemma_enabled_value(events, pairs);
            assert(v == pairs[j].1);
            assert(events[v].start <= events[v].end);
        },
        None => {
            let end = config_edit::node_end(events, pairs[0].1);
            let last = config_edit::last_content(events, pairs[0].0, end)->0;
            config_edit::lemma_last_content(events, pairs[0].0, end);
            assert(text::is_boundary(source, events[last].end as int));
            config_lines::lemma_content_line_end(source, events[last].end as int);
        },
    }
}

} // verus!
