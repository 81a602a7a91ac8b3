//! What holds of the events of every DOT text.

use crate::dot::parser::{
    assigned_value, chart_node, chart_step, cluster_kind, declare, dot_events, edge_ends, edge_step,
    first_rankdir, is_nested, label_value, layer, layout_events, leaf_kind, nested_events,
    node_label, node_step, rank_direction, rankdir, rankdir_from, rankdir_of, regular_events,
    scan_chart, scan_edges, scan_nodes, ChartScan, Scan,
};
use crate::events::{
    added_edges, added_node, adds_elements_from, continues, edges_join_added_nodes, introduces,
    is_one_batch, known_are_added, lemma_continues_itself, lemma_continues_push,
    lemma_continues_transitive, lemma_ids_and_edges_of_push, lemma_push_keeps_edges_joined,
    lemma_push_keeps_known_added, node_ids, sets_layout_first, sets_no_layout, GraphEvent,
    GraphEventView, LayoutTypeView, PositionView,
};
use crate::text::{
    first_index_from, has_prefix, includes, lemma_first_index_from, lemma_includes_in_part,
    lemma_line_is_part, lemma_trim_is_part, lines, lowercase, occurs_at, position, trim,
    trim_matches,
};
use vstd::prelude::*;

verus! {

/// The events that add a node or an edge.
pub open spec fn element_events() -> spec_fn(GraphEventView) -> bool {
    |event: GraphEventView| event.adds_element()
}

/// The scan for node definitions only adds `AddNode` and `AddEdge` events.
pub proof fn lemma_scan_nodes_adds_elements(lines: Seq<Seq<char>>, start: Scan)
    ensures
        continues(start.events, scan_nodes(lines, start).events, element_events()),
    decreases lines.len(),
{
    if lines.len() == 0 {
        lemma_continues_itself(start.events, element_events());
    } else {
        let before = scan_nodes(lines.drop_last(), start);
        lemma_scan_nodes_adds_elements(lines.drop_last(), start);
        let after = node_step(before, lines.last());
        if after.events != before.events {
            let event = after.events.last();
            assert(after.events == before.events.push(event));
            assert(element_events()(event));
            lemma_continues_push(before.events, event, element_events());
        } else {
            lemma_continues_itself(before.events, element_events());
        }
        lemma_continues_transitive(start.events, before.events, after.events, element_events());
    }
}

/// Declaring a node only adds an `AddNode` event.
pub proof fn lemma_declare_adds_elements(scan: Scan, id: Seq<char>)
    ensures
        continues(scan.events, declare(scan, id).events, element_events()),
{
    let after = declare(scan, id);
    if scan.known().contains(id) {
        lemma_continues_itself(scan.events, element_events());
    } else {
        let event = after.events.last();
        assert(element_events()(event));
        lemma_continues_push(scan.events, event, element_events());
    }
}

/// The scan for edges only adds `AddNode` and `AddEdge` events.
pub proof fn lemma_scan_edges_adds_elements(lines: Seq<Seq<char>>, start: Scan, directed: bool)
    ensures
        continues(start.events, scan_edges(lines, start, directed).events, element_events()),
    decreases lines.len(),
{
    if lines.len() == 0 {
        lemma_continues_itself(start.events, element_events());
    } else {
        let before = scan_edges(lines.drop_last(), start, directed);
        lemma_scan_edges_adds_elements(lines.drop_last(), start, directed);
        let after = edge_step(before, lines.last(), directed);
        match crate::dot::parser::edge_ends(trim(lines.last()), directed) {
            Some((from, to)) => {
                let first = declare(before, from);
                let second = declare(first, to);
                lemma_declare_adds_elements(before, from);
                lemma_declare_adds_elements(first, to);
                let event = after.events.last();
                assert(after.events == second.events.push(event));
                assert(element_events()(event));
                lemma_continues_push(second.events, event, element_events());
                lemma_continues_transitive(
                    before.events,
                    first.events,
                    second.events,
                    element_events(),
                );
                lemma_continues_transitive(
                    before.events,
                    second.events,
                    after.events,
                    element_events(),
                );
            },
            None => {
                lemma_continues_itself(before.events, element_events());
            },
        }
        lemma_continues_transitive(start.events, before.events, after.events, element_events());
    }
}

/// One line of the nested dialect only adds `AddNode` and `AddEdge` events.
pub proof fn lemma_chart_step_adds_elements(scan: ChartScan, line: Seq<char>)
    ensures
        continues(scan.events, chart_step(scan, line).events, element_events()),
{
    let after = chart_step(scan, line).events;
    let before = scan.events;
    if after == before {
        lemma_continues_itself(before, element_events());
    } else {
        // A node was added, and perhaps the edge from its parent.
        assert(after.len() == before.len() + 1 || after.len() == before.len() + 2);
        assert(after.subrange(0, before.len() as int) =~= before);
        assert forall|i: int| before.len() <= i < after.len() implies element_events()(
            #[trigger] after[i],
        ) by {
            assert(after[before.len() as int] is AddNode);
            if i > before.len() {
                assert(after[i] is AddEdge);
            }
        }
    }
}

/// The scan of the nested dialect only adds `AddNode` and `AddEdge` events.
pub proof fn lemma_scan_chart_adds_elements(lines: Seq<Seq<char>>, start: ChartScan)
    ensures
        continues(start.events, scan_chart(lines, start).events, element_events()),
    decreases lines.len(),
{
    if lines.len() == 0 {
        lemma_continues_itself(start.events, element_events());
    } else {
        let before = scan_chart(lines.drop_last(), start);
        lemma_scan_chart_adds_elements(lines.drop_last(), start);
        lemma_chart_step_adds_elements(before, trim(lines.last()));
        lemma_continues_transitive(
            start.events,
            before.events,
            scan_chart(lines, start).events,
            element_events(),
        );
    }
}

/// Every DOT text yields a batch: the first event is `BatchStart`, the last
/// is `BatchEnd`, and no event between them is either of the two.
pub proof fn lemma_dot_events_are_one_batch(content: Seq<char>)
    ensures
        is_one_batch(dot_events(content)),
{
    lemma_dot_events_shape(content);
    let events = dot_events(content);
    let head = seq![GraphEventView::BatchStart] + (if is_nested(content) {
        Seq::empty()
    } else {
        layout_events(content)
    });
    assert forall|i: int| 0 < i < events.len() - 1 implies !(#[trigger] events[i]).is_batch_mark() by {
        if i < head.len() {
            assert(events.drop_last().subrange(0, head.len() as int)[i] == head[i]);
            assert(head[i] is SetLayout);
        } else {
            assert(element_events()(events.drop_last()[i]));
        }
    }
}

/// The shape of the events of a DOT text: `BatchStart`; then the layout hint
/// of the `rankdir` directive, if the text is edge-based and has one; then
/// only `AddNode` and `AddEdge` events; then `BatchEnd`.
pub proof fn lemma_dot_events_shape(content: Seq<char>)
    ensures
        dot_events(content).len() >= 2,
        dot_events(content).first() == GraphEventView::BatchStart,
        dot_events(content).last() == GraphEventView::BatchEnd,
        continues(
            seq![GraphEventView::BatchStart] + (if is_nested(content) {
                Seq::empty()
            } else {
                layout_events(content)
            }),
            dot_events(content).drop_last(),
            element_events(),
        ),
{
    let start = seq![GraphEventView::BatchStart];
    if is_nested(content) {
        let scan = ChartScan { stack: Seq::empty(), events: start };
        lemma_scan_chart_adds_elements(lines(content), scan);
        let inner = nested_events(content, start);
        assert(inner.push(GraphEventView::BatchEnd).drop_last() =~= inner);
        assert(start + Seq::<GraphEventView>::empty() =~= start);
        assert(inner.subrange(0, 1)[0] == start[0]);
    } else {
        let directed = includes(content, "digraph"@);
        let begun = Scan { attributes: Map::empty(), events: start + layout_events(content) };
        let nodes = scan_nodes(lines(content), begun);
        lemma_scan_nodes_adds_elements(lines(content), begun);
        lemma_scan_edges_adds_elements(lines(content), nodes, directed);
        let inner = regular_events(content, start, directed);
        lemma_continues_transitive(begun.events, nodes.events, inner, element_events());
        assert(inner.push(GraphEventView::BatchEnd).drop_last() =~= inner);
        assert(inner.subrange(0, begun.events.len() as int)[0] == begun.events[0]);
    }
}

/// An edge-based text with a `rankdir` directive yields exactly one
/// `SetLayout` event: it follows `BatchStart` at once, so that it precedes
/// every node and edge, and it names the direction of the directive.
pub proof fn lemma_rankdir_sets_layout_once(content: Seq<char>, value: Seq<char>)
    requires
        !is_nested(content),
        rankdir(content) == Some(value),
    ensures
        sets_layout_first(
            dot_events(content),
            LayoutTypeView::Hierarchical { direction: rank_direction(value) },
        ),
        adds_elements_from(dot_events(content), 2),
{
    lemma_dot_events_shape(content);
    let events = dot_events(content);
    let head = seq![GraphEventView::BatchStart] + layout_events(content);
    assert(head.len() == 2);
    assert(events.drop_last().subrange(0, 2) == head);
    assert(events.drop_last().subrange(0, 2)[1] == head[1]);
    assert(events.drop_last().subrange(0, 2)[0] == head[0]);
    assert forall|i: int| 2 <= i < events.len() - 1 implies (#[trigger] events[i]).adds_element() by {
        assert(element_events()(events.drop_last()[i]));
    }
}

/// A text without a `rankdir` directive, and every text of the nested
/// dialect, yields no `SetLayout` event.
pub proof fn lemma_no_rankdir_no_layout(content: Seq<char>)
    requires
        is_nested(content) || rankdir(content) is None,
    ensures
        sets_no_layout(dot_events(content)),
        adds_elements_from(dot_events(content), 1),
{
    lemma_dot_events_shape(content);
    let events = dot_events(content);
    let head = seq![GraphEventView::BatchStart];
    assert(head + Seq::<GraphEventView>::empty() =~= head);
    assert forall|i: int| 0 <= i < events.len() implies !(#[trigger] events[i] is SetLayout) by {
        if 1 <= i < events.len() - 1 {
            assert(element_events()(events.drop_last()[i]));
        }
    }
    assert forall|i: int| 1 <= i < events.len() - 1 implies (#[trigger] events[i]).adds_element() by {
        assert(element_events()(events.drop_last()[i]));
    }
}

/// Reading the same text twice gives the same events: any two results that
/// meet the contract of the reader have equal views.
pub proof fn lemma_reading_is_repeatable(
    content: Seq<char>,
    first: Vec<GraphEvent>,
    second: Vec<GraphEvent>,
)
    requires
        first.deep_view() == dot_events(content),
        second.deep_view() == dot_events(content),
    ensures
        first.deep_view() == second.deep_view(),
{
}

/// Whether every edge of a scan joins nodes that the scan added before, and
/// every known id is that of an added node.
pub open spec fn tracks_added_nodes(scan: Scan) -> bool {
    edges_join_added_nodes(scan.events) && known_are_added(scan.known(), scan.events)
}

/// The scan for node definitions keeps track of the nodes it adds.
pub proof fn lemma_scan_nodes_tracks(lines: Seq<Seq<char>>, start: Scan)
    requires
        tracks_added_nodes(start),
    ensures
        tracks_added_nodes(scan_nodes(lines, start)),
    decreases lines.len(),
{
    if lines.len() > 0 {
        let before = scan_nodes(lines.drop_last(), start);
        lemma_scan_nodes_tracks(lines.drop_last(), start);
        match crate::dot::parser::node_definition(trim(lines.last())) {
            Some((id, attributes)) => {
                let event = crate::dot::parser::node_event(id, attributes);
                lemma_push_keeps_known_added(before.known(), before.events, event);
                assert(known_are_added(before.known().insert(id), before.events.push(event)));
                assert(before.attributes.insert(id, attributes).dom() =~= before.known().insert(id));
            },
            None => {},
        }
    }
}

/// Declaring a node keeps track of it, and makes its id known.
pub proof fn lemma_declare_tracks(scan: Scan, id: Seq<char>)
    requires
        tracks_added_nodes(scan),
    ensures
        tracks_added_nodes(declare(scan, id)),
        declare(scan, id).known().contains(id),
        scan.known().subset_of(declare(scan, id).known()),
{
    if !scan.known().contains(id) {
        let event = crate::events::plain_node(id, id);
        lemma_push_keeps_known_added(scan.known(), scan.events, event);
        assert(known_are_added(scan.known().insert(id), scan.events.push(event)));
        assert(declare(scan, id).known() =~= scan.known().insert(id));
    }
}

/// The scan for edges keeps track of the nodes it adds, and its edges join them.
pub proof fn lemma_scan_edges_tracks(lines: Seq<Seq<char>>, start: Scan, directed: bool)
    requires
        tracks_added_nodes(start),
    ensures
        tracks_added_nodes(scan_edges(lines, start, directed)),
    decreases lines.len(),
{
    if lines.len() > 0 {
        let before = scan_edges(lines.drop_last(), start, directed);
        lemma_scan_edges_tracks(lines.drop_last(), start, directed);
        match crate::dot::parser::edge_ends(trim(lines.last()), directed) {
            Some((from, to)) => {
                let first = declare(before, from);
                lemma_declare_tracks(before, from);
                let second = declare(first, to);
                lemma_declare_tracks(first, to);
                assert(second.known().contains(from));
                let event = crate::events::plain_edge(
                    from,
                    crate::dot::parser::arrow_token(directed),
                    to,
                    crate::dot::parser::edge_kind(directed),
                );
                lemma_push_keeps_known_added(second.known(), second.events, event);
            },
            None => {},
        }
    }
}

/// Whether every edge of a scan of the nested dialect joins nodes that the
/// scan added before, and every open cluster that is a node is an added node.
pub open spec fn chart_tracks_added_nodes(scan: ChartScan) -> bool {
    &&& edges_join_added_nodes(scan.events)
    &&& forall|k: int|
        0 <= k < scan.stack.len() && (#[trigger] scan.stack[k]) is Some ==> introduces(
            scan.events,
            scan.events.len() as int,
            scan.stack[k]->0,
        )
}

/// A node of the nested dialect and the edge from its parent keep the edges
/// joined to added nodes, and what was introduced stays so.
proof fn lemma_chart_node_tracks(
    events: Seq<GraphEventView>,
    label: Seq<char>,
    node: GraphEventView,
    parent: Option<Seq<char>>,
)
    requires
        edges_join_added_nodes(events),
        added_node(node) == Some(label),
        parent is Some ==> introduces(events, events.len() as int, parent->0),
    ensures
        ({
            let after = events.push(node) + crate::dot::parser::parent_edge(parent, label);
            &&& edges_join_added_nodes(after)
            &&& introduces(after, after.len() as int, label)
            &&& forall|id: Seq<char>|
                introduces(events, events.len() as int, id) ==> #[trigger] introduces(
                    after,
                    after.len() as int,
                    id,
                )
        }),
{
    let with_node = events.push(node);
    lemma_push_keeps_edges_joined(events, node);
    let after = with_node + crate::dot::parser::parent_edge(parent, label);
    assert(introduces(with_node, (events.len() + 1) as int, label));
    match parent {
        Some(id) => {
            let edge = crate::events::plain_edge(id, "->"@, label, crate::events::EdgeTypeView::Directed);
            assert(after =~= with_node.push(edge));
            assert(introduces(with_node, (events.len() + 1) as int, id));
            lemma_push_keeps_edges_joined(with_node, edge);
            assert forall|other: Seq<char>|
                introduces(events, events.len() as int, other) implies #[trigger] introduces(
                after,
                after.len() as int,
                other,
            ) by {
                assert(introduces(with_node, (events.len() + 1) as int, other));
                assert(introduces(with_node.push(edge), (with_node.len() + 1) as int, other));
            }
            assert(introduces(with_node.push(edge), (with_node.len() + 1) as int, label));
        },
        None => {
            assert(after =~= with_node);
            assert forall|other: Seq<char>|
                introduces(events, events.len() as int, other) implies #[trigger] introduces(
                after,
                after.len() as int,
                other,
            ) by {
                assert(introduces(with_node, (events.len() + 1) as int, other));
            }
        },
    }
}

/// One line of the nested dialect keeps track of the nodes added.
pub proof fn lemma_chart_step_tracks(scan: ChartScan, line: Seq<char>)
    requires
        chart_tracks_added_nodes(scan),
    ensures
        chart_tracks_added_nodes(chart_step(scan, line)),
{
    let after = chart_step(scan, line);
    let depth = scan.stack.len() as int;
    if has_prefix(line, "subgraph"@) {
        assert forall|k: int|
            0 <= k < after.stack.len() && (#[trigger] after.stack[k]) is Some implies introduces(
            after.events,
            after.events.len() as int,
            after.stack[k]->0,
        ) by {
            if k < depth {
                assert(after.stack[k] == scan.stack[k]);
            }
        }
    } else if (has_prefix(line, "label="@) || has_prefix(line, "Label="@)) && depth > 0 {
        let label = label_value(line);
        let parent = if depth > 1 {
            scan.stack[depth - 2]
        } else {
            None
        };
        let node = chart_node(label, cluster_kind(lowercase(label)), layer(depth - 1));
        lemma_chart_node_tracks(scan.events, label, node, parent);
        assert forall|k: int|
            0 <= k < after.stack.len() && (#[trigger] after.stack[k]) is Some implies introduces(
            after.events,
            after.events.len() as int,
            after.stack[k]->0,
        ) by {
            if k < depth - 1 {
                assert(after.stack[k] == scan.stack[k]);
            }
        }
    } else if position(line, '[') < line.len() && includes(line, "label="@) && !includes(
        line,
        "->"@,
    ) {
        let id = trim_matches(trim(line.subrange(0, position(line, '['))), '"');
        let label = match node_label(line) {
            Some(label) => label,
            None => id,
        };
        let parent = if depth > 0 {
            scan.stack[depth - 1]
        } else {
            None
        };
        let node = chart_node(label, leaf_kind(lowercase(label)), layer(depth));
        lemma_chart_node_tracks(scan.events, label, node, parent);
        assert forall|k: int|
            0 <= k < after.stack.len() && (#[trigger] after.stack[k]) is Some implies introduces(
            after.events,
            after.events.len() as int,
            after.stack[k]->0,
        ) by {
            assert(after.stack[k] == scan.stack[k]);
        }
    } else if line == "}"@ && depth > 0 {
        assert forall|k: int|
            0 <= k < after.stack.len() && (#[trigger] after.stack[k]) is Some implies introduces(
            after.events,
            after.events.len() as int,
            after.stack[k]->0,
        ) by {
            assert(after.stack[k] == scan.stack[k]);
        }
    }
}

/// The scan of the nested dialect keeps track of the nodes added.
pub proof fn lemma_scan_chart_tracks(lines: Seq<Seq<char>>, start: ChartScan)
    requires
        chart_tracks_added_nodes(start),
    ensures
        chart_tracks_added_nodes(scan_chart(lines, start)),
    decreases lines.len(),
{
    if lines.len() > 0 {
        lemma_scan_chart_tracks(lines.drop_last(), start);
        lemma_chart_step_tracks(scan_chart(lines.drop_last(), start), trim(lines.last()));
    }
}

/// In the events of every DOT text, each edge runs between nodes that
/// earlier events of the same stream add: a node that an edge is the first to
/// name is added just before the edge.
pub proof fn lemma_dot_edges_join_added_nodes(content: Seq<char>)
    ensures
        edges_join_added_nodes(dot_events(content)),
{
    let start = seq![GraphEventView::BatchStart];
    if is_nested(content) {
        let scan = ChartScan { stack: Seq::empty(), events: start };
        lemma_scan_chart_tracks(lines(content), scan);
        lemma_push_keeps_edges_joined(nested_events(content, start), GraphEventView::BatchEnd);
    } else {
        let directed = includes(content, "digraph"@);
        let begun = Scan { attributes: Map::empty(), events: start + layout_events(content) };
        lemma_scan_nodes_tracks(lines(content), begun);
        lemma_scan_edges_tracks(lines(content), scan_nodes(lines(content), begun), directed);
        lemma_push_keeps_edges_joined(
            regular_events(content, start, directed),
            GraphEventView::BatchEnd,
        );
    }
}

/// Where lines hold a `rankdir` directive, one of them does.
pub proof fn lemma_first_rankdir_line(lines: Seq<Seq<char>>) -> (k: int)
    requires
        first_rankdir(lines) is Some,
    ensures
        0 <= k < lines.len(),
        rankdir_of(trim(lines[k])) is Some,
    decreases lines.len(),
{
    if rankdir_of(trim(lines[0])) is Some {
        0
    } else {
        let rest = lines.subrange(1, lines.len() as int);
        let k = lemma_first_rankdir_line(rest);
        assert(rest[k] == lines[k + 1]);
        k + 1
    }
}

/// A text with a `rankdir` directive holds the word `rankdir`.
pub proof fn lemma_directive_needs_the_word(content: Seq<char>)
    requires
        rankdir(content) is Some,
    ensures
        includes(content, "rankdir"@),
{
    let k = lemma_first_rankdir_line(lines(content));
    let line = lines(content)[k];
    assert(includes(trim(line), "rankdir"@));
    lemma_trim_is_part(line);
    lemma_includes_in_part(trim(line), line, "rankdir"@);
    lemma_line_is_part(content, k);
    lemma_includes_in_part(line, content, "rankdir"@);
}

/// A text without the word `rankdir` yields no `SetLayout` event.
pub proof fn lemma_no_rankdir_word_no_layout(content: Seq<char>)
    requires
        !includes(content, "rankdir"@),
    ensures
        rankdir(content) is None,
        sets_no_layout(dot_events(content)),
{
    if rankdir(content) is Some {
        lemma_directive_needs_the_word(content);
    }
    lemma_no_rankdir_no_layout(content);
}

/// Whether the trimmed line `line` is of no account to the nested dialect: it
/// opens no cluster, gives no label, holds no `[` and is no closing brace. An
/// attribute line of a cluster, such as `color=blue;`, is of this kind.
pub open spec fn is_idle_line(line: Seq<char>) -> bool {
    &&& !has_prefix(line, "subgraph"@)
    &&& !has_prefix(line, "label="@)
    &&& !has_prefix(line, "Label="@)
    &&& position(line, '[') >= line.len()
    &&& line != "}"@
}

/// An idle line changes nothing.
pub proof fn lemma_idle_line_changes_nothing(scan: ChartScan, line: Seq<char>)
    requires
        is_idle_line(line),
    ensures
        chart_step(scan, line) == scan,
{
}

/// An idle line put anywhere among the lines of a nested chart leaves the
/// scan as it is.
pub proof fn lemma_idle_line_leaves_scan(
    lines: Seq<Seq<char>>,
    at: int,
    extra: Seq<char>,
    start: ChartScan,
)
    requires
        0 <= at <= lines.len(),
        is_idle_line(trim(extra)),
    ensures
        scan_chart(lines.insert(at, extra), start) == scan_chart(lines, start),
    decreases lines.len(),
{
    let longer = lines.insert(at, extra);
    if at == lines.len() {
        assert(longer.drop_last() =~= lines);
        lemma_idle_line_changes_nothing(scan_chart(lines, start), trim(extra));
    } else {
        assert(longer.drop_last() =~= lines.drop_last().insert(at, extra));
        assert(longer.last() == lines.last());
        lemma_idle_line_leaves_scan(lines.drop_last(), at, extra, start);
    }
}

/// Attribute lines put into the clusters of a nested chart, before or after
/// the labels, leave the events unchanged: two texts of the nested dialect
/// whose lines differ by one idle line yield the same events.
pub proof fn lemma_idle_line_leaves_events(
    shorter: Seq<char>,
    longer: Seq<char>,
    at: int,
    extra: Seq<char>,
)
    requires
        0 <= at <= lines(shorter).len(),
        lines(longer) == lines(shorter).insert(at, extra),
        is_idle_line(trim(extra)),
    ensures
        forall|before: Seq<GraphEventView>| #[trigger]
            nested_events(longer, before) == nested_events(shorter, before),
        is_nested(shorter) && is_nested(longer) ==> dot_events(longer) == dot_events(shorter),
{
    assert forall|before: Seq<GraphEventView>| #[trigger]
        nested_events(longer, before) == nested_events(shorter, before) by {
        lemma_idle_line_leaves_scan(
            lines(shorter),
            at,
            extra,
            ChartScan { stack: Seq::empty(), events: before },
        );
    }
}

/// The ends of the edges that `lines` write, in the order of the lines.
pub open spec fn edges_of(lines: Seq<Seq<char>>, directed: bool) -> Seq<(Seq<char>, Seq<char>)>
    decreases lines.len(),
{
    if lines.len() == 0 {
        Seq::empty()
    } else {
        match edge_ends(trim(lines.last()), directed) {
            Some(ends) => edges_of(lines.drop_last(), directed).push(ends),
            None => edges_of(lines.drop_last(), directed),
        }
    }
}

/// `seen` with `id` at its end, unless `id` stands in it already.
pub open spec fn seen_then(seen: Seq<Seq<char>>, id: Seq<char>) -> Seq<Seq<char>> {
    if seen.contains(id) {
        seen
    } else {
        seen.push(id)
    }
}

/// The ids in the order in which they are first seen: those of `seen`, then
/// each end of an edge of `lines` that was not seen before, the source of an
/// edge before its target.
pub open spec fn first_seen(seen: Seq<Seq<char>>, lines: Seq<Seq<char>>, directed: bool) -> Seq<
    Seq<char>,
>
    decreases lines.len(),
{
    if lines.len() == 0 {
        seen
    } else {
        let before = first_seen(seen, lines.drop_last(), directed);
        match edge_ends(trim(lines.last()), directed) {
            Some((from, to)) => seen_then(seen_then(before, from), to),
            None => before,
        }
    }
}

/// Whether the known ids of a scan are exactly the ids of the nodes that its
/// events add.
pub open spec fn knows_its_nodes(scan: Scan) -> bool {
    forall|id: Seq<char>| #[trigger] scan.known().contains(id) <==> node_ids(scan.events).contains(id)
}

/// An id put behind ids that differ from one another, unless it is among
/// them, leaves them different from one another.
pub proof fn lemma_seen_then(seen: Seq<Seq<char>>, id: Seq<char>)
    ensures
        seen_then(seen, id).contains(id),
        forall|other: Seq<char>|
            seen.contains(other) ==> #[trigger] seen_then(seen, id).contains(other),
        forall|other: Seq<char>| #[trigger]
            seen_then(seen, id).contains(other) ==> seen.contains(other) || other == id,
        seen.no_duplicates() ==> seen_then(seen, id).no_duplicates(),
{
    let after = seen_then(seen, id);
    if !seen.contains(id) {
        assert(after[seen.len() as int] == id);
        assert forall|other: Seq<char>| seen.contains(other) implies #[trigger] after.contains(
            other,
        ) by {
            let i = choose|i: int| 0 <= i < seen.len() && seen[i] == other;
            assert(after[i] == other);
        }
        assert forall|other: Seq<char>| #[trigger] after.contains(other) implies seen.contains(
            other,
        ) || other == id by {
            let i = choose|i: int| 0 <= i < after.len() && after[i] == other;
            if i < seen.len() {
                assert(seen[i] == other);
            }
        }
        if seen.no_duplicates() {
            assert forall|i: int, j: int| 0 <= i < after.len() && 0 <= j < after.len() && i
                != j implies after[i] != after[j] by {
                if i < seen.len() && j < seen.len() {
                    assert(seen[i] != seen[j]);
                } else if i < seen.len() {
                    assert(seen.contains(seen[i]));
                } else {
                    assert(seen.contains(seen[j]));
                }
            }
        }
    }
}

/// Declaring a node puts its id behind the ids of the nodes added so far,
/// unless it is among them, and adds no edge.
pub proof fn lemma_declare_in_order(scan: Scan, id: Seq<char>)
    requires
        knows_its_nodes(scan),
    ensures
        knows_its_nodes(declare(scan, id)),
        node_ids(declare(scan, id).events) == seen_then(node_ids(scan.events), id),
        added_edges(declare(scan, id).events) == added_edges(scan.events),
{
    lemma_seen_then(node_ids(scan.events), id);
    if !scan.known().contains(id) {
        lemma_ids_and_edges_of_push(scan.events, crate::events::plain_node(id, id));
        let after = declare(scan, id);
        assert forall|other: Seq<char>| #[trigger]
            after.known().contains(other) <==> node_ids(after.events).contains(other) by {
            if other != id {
                assert(after.known().contains(other) == scan.known().contains(other));
            }
        }
    }
}

/// The scan for edges adds one edge for each line that writes one, in the
/// order of the lines and between the ends that the line names, and adds the
/// nodes in the order in which the lines first name them, none twice.
pub proof fn lemma_edge_scan_in_order(lines: Seq<Seq<char>>, start: Scan, directed: bool)
    requires
        knows_its_nodes(start),
    ensures
        knows_its_nodes(scan_edges(lines, start, directed)),
        node_ids(scan_edges(lines, start, directed).events) == first_seen(
            node_ids(start.events),
            lines,
            directed,
        ),
        added_edges(scan_edges(lines, start, directed).events) == added_edges(start.events)
            + edges_of(lines, directed),
        node_ids(start.events).no_duplicates() ==> node_ids(
            scan_edges(lines, start, directed).events,
        ).no_duplicates(),
    decreases lines.len(),
{
    if lines.len() == 0 {
        assert(added_edges(start.events) + edges_of(lines, directed) =~= added_edges(start.events));
    } else {
        let before = scan_edges(lines.drop_last(), start, directed);
        lemma_edge_scan_in_order(lines.drop_last(), start, directed);
        let edges_before = edges_of(lines.drop_last(), directed);
        match edge_ends(trim(lines.last()), directed) {
            Some((from, to)) => {
                let first = declare(before, from);
                lemma_declare_in_order(before, from);
                let second = declare(first, to);
                lemma_declare_in_order(first, to);
                lemma_seen_then(node_ids(before.events), from);
                lemma_seen_then(node_ids(first.events), to);
                let event = crate::events::plain_edge(
                    from,
                    crate::dot::parser::arrow_token(directed),
                    to,
                    crate::dot::parser::edge_kind(directed),
                );
                lemma_ids_and_edges_of_push(second.events, event);
                assert(added_edges(start.events) + edges_before.push((from, to)) =~= (added_edges(
                    start.events,
                ) + edges_before).push((from, to)));
            },
            None => {},
        }
    }
}

/// Whether no line of a text defines a node, as in a text of edges without
/// attribute lists.
pub open spec fn defines_no_node(content: Seq<char>) -> bool {
    forall|k: int|
        0 <= k < lines(content).len() ==> crate::dot::parser::node_definition(
            trim(#[trigger] lines(content)[k]),
        ) is None
}

/// The scan for node definitions leaves a scan as it is where no line
/// defines a node.
pub proof fn lemma_no_definitions_no_nodes(lines: Seq<Seq<char>>, start: Scan)
    requires
        forall|k: int|
            0 <= k < lines.len() ==> crate::dot::parser::node_definition(
                trim(#[trigger] lines[k]),
            ) is None,
    ensures
        scan_nodes(lines, start) == start,
    decreases lines.len(),
{
    if lines.len() > 0 {
        assert forall|k: int| 0 <= k < lines.drop_last().len() implies crate::dot::parser::node_definition(
        trim(#[trigger] lines.drop_last()[k])) is None by {
            assert(lines.drop_last()[k] == lines[k]);
        }
        lemma_no_definitions_no_nodes(lines.drop_last(), start);
        assert(lines.last() == lines[lines.len() - 1]);
    }
}

/// An edge-based text in which no line defines a node, such as a text of
/// edges without attribute lists, yields one `AddEdge` for each line that
/// writes an edge, in the order of the lines and between the ends that the
/// line names. Its `AddNode` events are those of the ids that the edges
/// name, each once, in the order in which they are first named.
pub proof fn lemma_edges_and_nodes_in_order(content: Seq<char>)
    requires
        !is_nested(content),
        defines_no_node(content),
    ensures
        added_edges(dot_events(content)) == edges_of(lines(content), includes(content, "digraph"@)),
        node_ids(dot_events(content)) == first_seen(
            Seq::empty(),
            lines(content),
            includes(content, "digraph"@),
        ),
        node_ids(dot_events(content)).no_duplicates(),
{
    let directed = includes(content, "digraph"@);
    let start = seq![GraphEventView::BatchStart];
    let begun = Scan { attributes: Map::empty(), events: start + layout_events(content) };
    lemma_no_definitions_no_nodes(lines(content), begun);
    assert(node_ids(begun.events) =~= Seq::empty() && added_edges(begun.events) =~= Seq::empty()) by {
        lemma_ids_and_edges_of_push(Seq::empty(), GraphEventView::BatchStart);
        assert(Seq::<GraphEventView>::empty().push(GraphEventView::BatchStart) =~= start);
        if rankdir(content) is Some {
            let layout = layout_events(content)[0];
            assert(begun.events =~= start.push(layout));
            lemma_ids_and_edges_of_push(start, layout);
        } else {
            assert(begun.events =~= start);
        }
    }
    assert(knows_its_nodes(begun));
    lemma_edge_scan_in_order(lines(content), begun, directed);
    let inner = regular_events(content, start, directed);
    lemma_ids_and_edges_of_push(inner, GraphEventView::BatchEnd);
    assert(Seq::<(Seq<char>, Seq<char>)>::empty() + edges_of(lines(content), directed) =~= edges_of(
        lines(content),
        directed,
    ));
}

/// Whether an event adds the node `id` on the layer `level`.
pub open spec fn adds_node_on_layer(event: GraphEventView, id: Seq<char>, level: u32) -> bool {
    event matches GraphEventView::AddNode { id: added, properties, .. } && added == id
        && properties.position == Some(PositionView::Layer { level })
}

/// Whether one of the first `upto` events adds the node `id` on the layer `level`.
pub open spec fn has_node_on_layer(
    events: Seq<GraphEventView>,
    upto: int,
    id: Seq<char>,
    level: u32,
) -> bool {
    exists|j: int|
        0 <= j < upto && j < events.len() && adds_node_on_layer(#[trigger] events[j], id, level)
}

/// Whether the event at `at`, if it adds an edge, hangs the node added just
/// before it under its parent: the edge runs to that node, which lies on the
/// layer of some depth, from a node added earlier on the layer of the depth
/// less one.
pub open spec fn hangs_node_under_parent(events: Seq<GraphEventView>, at: int) -> bool {
    events[at] matches GraphEventView::AddEdge { from, to, .. } ==> at >= 1 && exists|depth: int|
        depth >= 1 && adds_node_on_layer(events[at - 1], to, #[trigger] layer(depth))
            && has_node_on_layer(events, at - 1, from, layer(depth - 1))
}

/// Whether every edge of a stream hangs the node added just before it under
/// its parent, one layer up.
pub open spec fn is_parent_chain(events: Seq<GraphEventView>) -> bool {
    forall|at: int| 0 <= at < events.len() ==> #[trigger] hangs_node_under_parent(events, at)
}

/// Whether a scan of the nested dialect is a parent chain so far, and the
/// node of each open cluster lies on the layer of the cluster's place in the
/// stack.
pub open spec fn chart_is_layered(scan: ChartScan) -> bool {
    &&& is_parent_chain(scan.events)
    &&& forall|k: int|
        0 <= k < scan.stack.len() && (#[trigger] scan.stack[k]) is Some ==> has_node_on_layer(
            scan.events,
            scan.events.len() as int,
            scan.stack[k]->0,
            layer(k),
        )
}

/// What earlier events add on a layer, a longer stream has added too.
proof fn lemma_node_on_layer_stays(
    events: Seq<GraphEventView>,
    upto: int,
    longer: Seq<GraphEventView>,
    further: int,
    id: Seq<char>,
    level: u32,
)
    requires
        has_node_on_layer(events, upto, id, level),
        upto <= further,
        events.len() <= longer.len(),
        longer.subrange(0, events.len() as int) == events,
    ensures
        has_node_on_layer(longer, further, id, level),
{
    let j = choose|j: int|
        0 <= j < upto && j < events.len() && adds_node_on_layer(#[trigger] events[j], id, level);
    assert(longer.subrange(0, events.len() as int)[j] == longer[j]);
    assert(adds_node_on_layer(longer[j], id, level));
}

/// A parent chain stays one when events are appended of which each edge
/// hangs the node before it under its parent.
proof fn lemma_chain_grows(events: Seq<GraphEventView>, longer: Seq<GraphEventView>)
    requires
        is_parent_chain(events),
        events.len() <= longer.len(),
        longer.subrange(0, events.len() as int) == events,
        forall|at: int|
            events.len() <= at < longer.len() ==> #[trigger] hangs_node_under_parent(longer, at),
    ensures
        is_parent_chain(longer),
{
    assert forall|at: int| 0 <= at < longer.len() implies #[trigger] hangs_node_under_parent(
        longer,
        at,
    ) by {
        if at < events.len() {
            assert(longer.subrange(0, events.len() as int)[at] == longer[at]);
            assert(hangs_node_under_parent(events, at));
            if let GraphEventView::AddEdge { from, to, .. } = events[at] {
                assert(longer.subrange(0, events.len() as int)[at - 1] == longer[at - 1]);
                let depth = choose|depth: int|
                    depth >= 1 && adds_node_on_layer(events[at - 1], to, #[trigger] layer(depth))
                        && has_node_on_layer(events, at - 1, from, layer(depth - 1));
                lemma_node_on_layer_stays(events, at - 1, longer, at - 1, from, layer(depth - 1));
                assert(adds_node_on_layer(longer[at - 1], to, layer(depth)));
            }
        }
    }
}

/// A node of the nested dialect at `depth`, with the edge from its parent one
/// layer up, keeps a parent chain, and what was added on a layer stays added.
proof fn lemma_chart_node_is_layered(
    events: Seq<GraphEventView>,
    label: Seq<char>,
    node_type: crate::events::NodeTypeView,
    depth: int,
    parent: Option<Seq<char>>,
)
    requires
        is_parent_chain(events),
        parent is Some ==> depth >= 1 && has_node_on_layer(
            events,
            events.len() as int,
            parent->0,
            layer(depth - 1),
        ),
    ensures
        ({
            let after = events.push(chart_node(label, node_type, layer(depth)))
                + crate::dot::parser::parent_edge(parent, label);
            &&& is_parent_chain(after)
            &&& has_node_on_layer(after, after.len() as int, label, layer(depth))
            &&& forall|id: Seq<char>, level: u32|
                has_node_on_layer(events, events.len() as int, id, level)
                    ==> #[trigger] has_node_on_layer(after, after.len() as int, id, level)
        }),
{
    let node = chart_node(label, node_type, layer(depth));
    let with_node = events.push(node);
    let after = with_node + crate::dot::parser::parent_edge(parent, label);
    assert(after.subrange(0, events.len() as int) =~= events);
    assert(after[events.len() as int] == node);
    assert(adds_node_on_layer(after[events.len() as int], label, layer(depth)));
    assert forall|id: Seq<char>, level: u32|
        has_node_on_layer(events, events.len() as int, id, level) implies #[trigger] has_node_on_layer(
        after,
        after.len() as int,
        id,
        level,
    ) by {
        lemma_node_on_layer_stays(events, events.len() as int, after, after.len() as int, id, level);
    }
    assert forall|at: int| events.len() <= at < after.len() implies #[trigger] hangs_node_under_parent(
        after,
        at,
    ) by {
        if at > events.len() {
            let id = parent->0;
            assert(after[at] == crate::events::plain_edge(
                id,
                "->"@,
                label,
                crate::events::EdgeTypeView::Directed,
            ));
            lemma_node_on_layer_stays(
                events,
                events.len() as int,
                after,
                at - 1,
                id,
                layer(depth - 1),
            );
            assert(adds_node_on_layer(after[at - 1], label, layer(depth)));
        }
    }
    lemma_chain_grows(events, after);
}

/// One line of the nested dialect keeps the chart layered.
pub proof fn lemma_chart_step_is_layered(scan: ChartScan, line: Seq<char>)
    requires
        chart_is_layered(scan),
    ensures
        chart_is_layered(chart_step(scan, line)),
{
    let after = chart_step(scan, line);
    let depth = scan.stack.len() as int;
    if has_prefix(line, "subgraph"@) {
        assert forall|k: int|
            0 <= k < after.stack.len() && (#[trigger] after.stack[k]) is Some implies has_node_on_layer(
            after.events,
            after.events.len() as int,
            after.stack[k]->0,
            layer(k),
        ) by {
            if k < depth {
                assert(after.stack[k] == scan.stack[k]);
            }
        }
    } else if (has_prefix(line, "label="@) || has_prefix(line, "Label="@)) && depth > 0 {
        let label = label_value(line);
        let parent = if depth > 1 {
            scan.stack[depth - 2]
        } else {
            None
        };
        lemma_chart_node_is_layered(
            scan.events,
            label,
            cluster_kind(lowercase(label)),
            depth - 1,
            parent,
        );
        assert forall|k: int|
            0 <= k < after.stack.len() && (#[trigger] after.stack[k]) is Some implies has_node_on_layer(
            after.events,
            after.events.len() as int,
            after.stack[k]->0,
            layer(k),
        ) by {
            if k < depth - 1 {
                assert(after.stack[k] == scan.stack[k]);
            }
        }
    } else if position(line, '[') < line.len() && includes(line, "label="@) && !includes(
        line,
        "->"@,
    ) {
        let id = trim_matches(trim(line.subrange(0, position(line, '['))), '"');
        let label = match node_label(line) {
            Some(label) => label,
            None => id,
        };
        let parent = if depth > 0 {
            scan.stack[depth - 1]
        } else {
            None
        };
        lemma_chart_node_is_layered(scan.events, label, leaf_kind(lowercase(label)), depth, parent);
        assert forall|k: int|
            0 <= k < after.stack.len() && (#[trigger] after.stack[k]) is Some implies has_node_on_layer(
            after.events,
            after.events.len() as int,
            after.stack[k]->0,
            layer(k),
        ) by {
            assert(after.stack[k] == scan.stack[k]);
        }
    } else if line == "}"@ && depth > 0 {
        assert forall|k: int|
            0 <= k < after.stack.len() && (#[trigger] after.stack[k]) is Some implies has_node_on_layer(
            after.events,
            after.events.len() as int,
            after.stack[k]->0,
            layer(k),
        ) by {
            assert(after.stack[k] == scan.stack[k]);
        }
    }
}

/// The scan of the nested dialect keeps the chart layered.
pub proof fn lemma_scan_chart_is_layered(lines: Seq<Seq<char>>, start: ChartScan)
    requires
        chart_is_layered(start),
    ensures
        chart_is_layered(scan_chart(lines, start)),
    decreases lines.len(),
{
    if lines.len() > 0 {
        lemma_scan_chart_is_layered(lines.drop_last(), start);
        lemma_chart_step_is_layered(scan_chart(lines.drop_last(), start), trim(lines.last()));
    }
}

/// The events of a text of the nested dialect form parent chains: every edge
/// stands right behind the node it runs to, and comes from the node of the
/// cluster around that node, which an earlier event added one layer up. The
/// node of a cluster lies on the layer of the number of clusters open around
/// it, a stand-alone node on the layer of the number of clusters open at its
/// line.
pub proof fn lemma_nested_events_are_parent_chains(content: Seq<char>)
    requires
        is_nested(content),
    ensures
        is_parent_chain(dot_events(content)),
{
    let start = seq![GraphEventView::BatchStart];
    let scan = ChartScan { stack: Seq::empty(), events: start };
    assert(is_parent_chain(start));
    lemma_scan_chart_is_layered(lines(content), scan);
    let inner = nested_events(content, start);
    let events = inner.push(GraphEventView::BatchEnd);
    assert(events.subrange(0, inner.len() as int) =~= inner);
    lemma_chain_grows(inner, events);
}

/// Where the word `rankdir` stands on a line with an assignment behind it,
/// at or after `from`, the line holds a directive.
pub proof fn lemma_assignment_is_found(line: Seq<char>, from: int, at: int)
    requires
        0 <= from <= at,
        occurs_at(line, "rankdir"@, at),
        assigned_value(line.subrange(at + "rankdir"@.len(), line.len() as int)) is Some,
    ensures
        rankdir_from(line, from) is Some,
    decreases at - from,
{
    lemma_first_index_from(line, "rankdir"@, from);
    let found = first_index_from(line, "rankdir"@, from);
    assert(found is Some);
    let first = found->0;
    assert(first <= at) by {
        if first > at {
            assert(!occurs_at(line, "rankdir"@, at));
        }
    }
    if assigned_value(line.subrange(first + "rankdir"@.len(), line.len() as int)) is None {
        lemma_assignment_is_found(line, first + 1, at);
    }
}

/// Where one of the lines holds a directive, the lines have a first one.
pub proof fn lemma_some_line_has_directive(lines: Seq<Seq<char>>, k: int)
    requires
        0 <= k < lines.len(),
        rankdir_of(trim(lines[k])) is Some,
    ensures
        first_rankdir(lines) is Some,
    decreases lines.len(),
{
    if rankdir_of(trim(lines[0])) is None {
        let rest = lines.subrange(1, lines.len() as int);
        assert(rest[k - 1] == lines[k]);
        lemma_some_line_has_directive(rest, k - 1);
    }
}

/// Wherever in an edge-based text the word `rankdir` stands with an
/// assignment behind it, at the start of a line or in its midst, but not on a
/// comment line, the text yields exactly one `SetLayout` event, which follows
/// `BatchStart` at once and names the direction of the first directive.
pub proof fn lemma_directive_anywhere_sets_layout(content: Seq<char>, k: int, at: int)
    requires
        !is_nested(content),
        0 <= k < lines(content).len(),
        !crate::dot::parser::is_skipped(trim(lines(content)[k])),
        occurs_at(trim(lines(content)[k]), "rankdir"@, at),
        assigned_value(
            trim(lines(content)[k]).subrange(
                at + "rankdir"@.len(),
                trim(lines(content)[k]).len() as int,
            ),
        ) is Some,
    ensures
        rankdir(content) is Some,
        sets_layout_first(
            dot_events(content),
            LayoutTypeView::Hierarchical { direction: rank_direction(rankdir(content)->0) },
        ),
{
    lemma_assignment_is_found(trim(lines(content)[k]), 0, at);
    lemma_some_line_has_directive(lines(content), k);
    lemma_rankdir_sets_layout_once(content, rankdir(content)->0);
}

} // verus!
