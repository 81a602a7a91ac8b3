//! Reads DOT text into a graph of named nodes.
//!
//! Where the event reader emits a stream, this reader builds a graph object.
//! Only nodes that an edge names enter the graph of an edge-based text; their
//! kind and level come from the attribute lists of the text.

use crate::dot::parser::{layer, node_label, read_node_label, unwrap, unwrapped};
use crate::text::{
    contains, fields, find, find_char, first_index, has_prefix, includes, last_position,
    lemma_first_index_from, lemma_views_ends, lemma_views_step, lines, lower, lowercase, number,
    parse_u32, position, rfind_char, spells, split, split_lines, starts_with, strip,
    strip_end_matches, strip_matches, to_chars, to_string, trim, trim_end_matches, trim_matches,
    views,
};
use crate::types::{
    add_edge, add_node, kind_of, GraphData, GraphModel, NodeInfo, NodeInfoView, NodeType,
};
use vstd::hash_map::StringHashMap;
use vstd::prelude::*;
use vstd::slice::slice_subrange;
use vstd::string::StrSliceExecFns;

verus! {

/// The kind and level of a node after one more `key=value` item of its
/// attribute list: `type` sets the kind, `level` the level (0 where the value
/// is no number), any other item changes nothing.
pub open spec fn with_kind_or_level(so_far: (NodeType, u32), item: Seq<char>) -> (NodeType, u32) {
    let parts = fields(item, '=');
    if parts.len() == 2 {
        let key = trim(parts[0]);
        let value = trim_matches(trim(parts[1]), '"');
        if key == "type"@ {
            (kind_of(lowercase(value)), so_far.1)
        } else if key == "level"@ {
            (
                so_far.0,
                match number(value) {
                    Some(level) => level,
                    None => 0,
                },
            )
        } else {
            so_far
        }
    } else {
        so_far
    }
}

/// The kind and level that a list of attribute items gives a node.
pub open spec fn kind_and_level(items: Seq<Seq<char>>) -> (NodeType, u32)
    decreases items.len(),
{
    if items.len() == 0 {
        (NodeType::Default, 0)
    } else {
        with_kind_or_level(kind_and_level(items.drop_last()), items.last())
    }
}

/// The node that the trimmed line `line` describes, with its kind and level:
/// the line holds no `->` and its last `]` stands after its first `[`.
pub open spec fn described_node(line: Seq<char>) -> Option<(Seq<char>, (NodeType, u32))> {
    let open = position(line, '[');
    let close = last_position(line, ']');
    if !includes(line, "->"@) && close is Some && open < close->0 {
        Some(
            (
                trim_matches(trim(line.subrange(0, open)), '"'),
                kind_and_level(fields(line.subrange(open + 1, close->0), ',')),
            ),
        )
    } else {
        None
    }
}

/// The kind and level of each described node of `lines`; a later description
/// replaces an earlier one.
pub open spec fn descriptions(lines: Seq<Seq<char>>) -> Map<Seq<char>, (NodeType, u32)>
    decreases lines.len(),
{
    if lines.len() == 0 {
        Map::empty()
    } else {
        match described_node(trim(lines.last())) {
            Some((name, kind_level)) => descriptions(lines.drop_last()).insert(name, kind_level),
            None => descriptions(lines.drop_last()),
        }
    }
}

/// `s` up to its first occurrence of `pat`, or all of `s`.
pub open spec fn before_first(s: Seq<char>, pat: Seq<char>) -> Seq<char> {
    match first_index(s, pat) {
        Some(at) => s.subrange(0, at),
        None => s,
    }
}

/// The target that the part of an edge line after the arrow names: what
/// precedes its attribute list, if it has one, without white space, trailing
/// semicolons and surrounding quotes.
pub open spec fn target_name(part: Seq<char>) -> Seq<char> {
    unwrapped(part.subrange(0, position(part, '[')))
}

/// The two ends of the edge on the trimmed line `line`: what precedes `//` is
/// cut at `->`; the first piece names the source, the second the target.
pub open spec fn connection(line: Seq<char>) -> Option<(Seq<char>, Seq<char>)> {
    let code = before_first(line, "//"@);
    match first_index(code, "->"@) {
        Some(at) => {
            let rest = code.subrange(at + "->"@.len(), code.len() as int);
            Some(
                (
                    trim_matches(trim(code.subrange(0, at)), '"'),
                    target_name(trim(before_first(rest, "->"@))),
                ),
            )
        },
        None => None,
    }
}

/// The graph with a node named `name`; where there was none, a new one is
/// appended, with its described kind and level, or the default kind and level 0.
pub open spec fn with_node(
    graph: GraphModel,
    described: Map<Seq<char>, (NodeType, u32)>,
    name: Seq<char>,
) -> GraphModel {
    if graph.index.dom().contains(name) {
        graph
    } else {
        let kind_level = if described.dom().contains(name) {
            described[name]
        } else {
            (NodeType::Default, 0u32)
        };
        GraphModel {
            nodes: graph.nodes.push(
                NodeInfoView { name, node_type: kind_level.0, level: kind_level.1 },
            ),
            index: graph.index.insert(name, graph.nodes.len() as usize),
            ..graph
        }
    }
}

/// The graph after the edge of one more line.
pub open spec fn with_connection(
    graph: GraphModel,
    described: Map<Seq<char>, (NodeType, u32)>,
    line: Seq<char>,
) -> GraphModel {
    match connection(trim(line)) {
        Some((from, to)) => {
            let both = with_node(with_node(graph, described, from), described, to);
            GraphModel {
                edges: both.edges.push((both.index[from] as int, both.index[to] as int)),
                ..both
            }
        },
        None => graph,
    }
}

/// The graph of the edges of `lines`.
pub open spec fn connected(lines: Seq<Seq<char>>, described: Map<Seq<char>, (NodeType, u32)>) -> GraphModel
    decreases lines.len(),
{
    if lines.len() == 0 {
        GraphModel::empty()
    } else {
        with_connection(connected(lines.drop_last(), described), described, lines.last())
    }
}

/// The kind of node that a cluster is, judged by its lower-case label.
pub open spec fn cluster_type(lowered: Seq<char>) -> NodeType {
    if includes(lowered, "tenant"@) || includes(lowered, "organization"@) {
        NodeType::Organization
    } else if includes(lowered, "contact center"@) {
        NodeType::LineOfBusiness
    } else if includes(lowered, "site"@) {
        NodeType::Site
    } else {
        NodeType::Default
    }
}

/// The kind of node that a stand-alone node is, judged by its lower-case label.
pub open spec fn leaf_type(lowered: Seq<char>) -> NodeType {
    if includes(lowered, "supervisor"@) {
        NodeType::Team
    } else {
        NodeType::User
    }
}

/// The name of the cluster that the trimmed line `line` opens: what follows
/// `subgraph cluster_`, without trailing `{`, trimmed.
pub open spec fn cluster_name(line: Seq<char>) -> Seq<char> {
    trim(trim_end_matches(line.subrange("subgraph cluster_"@.len() as int, line.len() as int), '{'))
}

/// Whether the trimmed line `line` gives a label.
pub open spec fn is_label_line(line: Seq<char>) -> bool {
    has_prefix(line, "Label="@) || has_prefix(line, "label="@)
}

/// The label that the label line `line` gives: its second `=`-separated piece,
/// without white space, trailing semicolons and surrounding quotes; of a label
/// with a colon only what follows the first colon, trimmed.
pub open spec fn cluster_label(line: Seq<char>) -> Seq<char> {
    let raw = unwrapped(fields(line, '=')[1]);
    let colon = position(raw, ':');
    if colon < raw.len() {
        trim(raw.subrange(colon + 1, raw.len() as int))
    } else {
        raw
    }
}

/// The label of a cluster opened before line `from`: that of the first label
/// line among `lines[from..to]`, or `name` where there is none.
pub open spec fn label_ahead(lines: Seq<Seq<char>>, from: int, to: int, name: Seq<char>) -> Seq<char>
    decreases to - from,
{
    if from < 0 || from >= to || from >= lines.len() {
        name
    } else if is_label_line(trim(lines[from])) {
        cluster_label(trim(lines[from]))
    } else {
        label_ahead(lines, from + 1, to, name)
    }
}

/// What the reader of nested clusters has gathered: the graph, and the node
/// of each open cluster, from the outermost.
pub struct Nesting {
    pub graph: GraphModel,
    pub stack: Seq<usize>,
}

/// The graph with one more node, named by its label, and an edge to it from
/// the node of the innermost open cluster.
pub open spec fn with_child(nesting: Nesting, label: Seq<char>, node_type: NodeType) -> GraphModel {
    let graph = nesting.graph;
    let child = graph.nodes.len() as usize;
    GraphModel {
        nodes: graph.nodes.push(
            NodeInfoView { name: label, node_type, level: layer(nesting.stack.len() as int) },
        ),
        index: graph.index.insert(label, child),
        edges: if nesting.stack.len() > 0 {
            graph.edges.push((nesting.stack.last() as int, child as int))
        } else {
            graph.edges
        },
    }
}

/// The nesting after line `at` of `lines`.
///
/// - A `subgraph cluster_` line opens a cluster and makes it a node; its
///   label is looked for in the nine lines that follow.
/// - Any other line with a `[`, a `label=` and no `->` is a stand-alone node.
/// - Any other line with a `}` closes the innermost cluster.
pub open spec fn nest(nesting: Nesting, lines: Seq<Seq<char>>, at: int) -> Nesting {
    let line = trim(lines[at]);
    if has_prefix(line, "subgraph cluster_"@) {
        let label = label_ahead(lines, at + 1, at + 10, cluster_name(line));
        Nesting {
            graph: with_child(nesting, label, cluster_type(lowercase(label))),
            stack: nesting.stack.push(nesting.graph.nodes.len() as usize),
        }
    } else if position(line, '[') < line.len() && includes(line, "label="@) && !includes(
        line,
        "->"@,
    ) {
        let id = trim_matches(trim(line.subrange(0, position(line, '['))), '"');
        let label = match node_label(line) {
            Some(label) => label,
            None => id,
        };
        Nesting { graph: with_child(nesting, label, leaf_type(lowercase(label))), ..nesting }
    } else if position(line, '}') < line.len() && nesting.stack.len() > 0 {
        Nesting { stack: nesting.stack.drop_last(), ..nesting }
    } else {
        nesting
    }
}

/// The nesting after the first `n` of `lines`.
pub open spec fn nested(lines: Seq<Seq<char>>, n: int) -> Nesting
    decreases n,
{
    if n <= 0 {
        Nesting { graph: GraphModel::empty(), stack: Seq::empty() }
    } else {
        nest(nested(lines, n - 1), lines, n - 1)
    }
}

/// The graph that a DOT text stands for. A text with `subgraph` and without
/// `->` is read as nested clusters; any other text is read for described
/// nodes and then for edges.
pub open spec fn graph_of(content: Seq<char>) -> GraphModel {
    if !includes(content, "->"@) && includes(content, "subgraph"@) {
        nested(lines(content), lines(content).len() as int).graph
    } else {
        connected(lines(content), descriptions(lines(content)))
    }
}

/// A text has no more lines than characters.
pub proof fn lemma_lines_len(s: Seq<char>)
    ensures
        lines(s).len() <= s.len(),
    decreases s.len(),
{
    if s.len() > 0 {
        let p = position(s, '\n');
        if 0 <= p < s.len() {
            lemma_lines_len(s.subrange(p + 1, s.len() as int));
        }
    }
}

/// Reads one attribute item for the kind or the level of a node.
fn read_kind_or_level(so_far: (NodeType, u32), item: &[char]) -> (r: (NodeType, u32))
    ensures
        r == with_kind_or_level(so_far, item@),
{
    let parts = split(item, '=');
    if parts.len() == 2 {
        assert(views(parts@)[0] == parts@[0]@ && views(parts@)[1] == parts@[1]@);
        let key = strip(parts[0]);
        let value = strip_matches(strip(parts[1]), '"');
        if spells(key, "type") {
            let lowered = lower(value);
            (NodeType::from_lowercase(lowered.as_slice()), so_far.1)
        } else if spells(key, "level") {
            let level = match parse_u32(value) {
                Some(level) => level,
                None => 0,
            };
            (so_far.0, level)
        } else {
            so_far
        }
    } else {
        so_far
    }
}

/// Reads the kind and the level of a node from its attribute list.
fn read_kind_and_level(list: &[char]) -> (r: (NodeType, u32))
    ensures
        r == kind_and_level(fields(list@, ',')),
{
    let items = split(list, ',');
    let mut r = (NodeType::Default, 0u32);
    let mut i: usize = 0;
    proof {
        lemma_views_ends(items@);
    }
    while i < items.len()
        invariant
            i <= items.len(),
            r == kind_and_level(views(items@).subrange(0, i as int)),
        decreases items.len() - i,
    {
        proof {
            lemma_views_step(items@, i as int);
        }
        r = read_kind_or_level(r, items[i]);
        i += 1;
    }
    proof {
        lemma_views_ends(items@);
    }
    r
}

/// Reads the node that a trimmed line describes.
fn read_described_node(line: &[char]) -> (r: Option<(String, (NodeType, u32))>)
    ensures
        match r {
            Some((name, kind_level)) => described_node(line@) == Some((name@, kind_level)),
            None => described_node(line@) is None,
        },
{
    let arrow = to_chars("->");
    if contains(line, arrow.as_slice()) {
        return None;
    }
    let open = find_char(line, '[');
    match rfind_char(line, ']') {
        Some(close) => {
            if open < close {
                let name = strip_matches(strip(slice_subrange(line, 0, open)), '"');
                let kind_level = read_kind_and_level(slice_subrange(line, open + 1, close));
                Some((to_string(name), kind_level))
            } else {
                None
            }
        },
        None => None,
    }
}

/// Gathers the kind and level of each described node.
fn gather_descriptions(lines: &Vec<&[char]>) -> (described: StringHashMap<(NodeType, u32)>)
    ensures
        described@ == descriptions(views(lines@)),
{
    let mut described: StringHashMap<(NodeType, u32)> = StringHashMap::new();
    let mut i: usize = 0;
    proof {
        lemma_views_ends(lines@);
    }
    while i < lines.len()
        invariant
            i <= lines.len(),
            described@ == descriptions(views(lines@).subrange(0, i as int)),
        decreases lines.len() - i,
    {
        proof {
            lemma_views_step(lines@, i as int);
        }
        match read_described_node(strip(lines[i])) {
            Some((name, kind_level)) => {
                described.insert(name, kind_level);
            },
            None => {},
        }
        i += 1;
    }
    proof {
        lemma_views_ends(lines@);
    }
    described
}

/// Cuts `s` before the first occurrence of `pat`.
fn cut_before<'a>(s: &'a [char], pat: &[char]) -> (r: &'a [char])
    ensures
        r@ == before_first(s@, pat@),
{
    match find(s, pat) {
        Some(at) => {
            proof {
                lemma_first_index_from(s@, pat@, 0);
            }
            slice_subrange(s, 0, at)
        },
        None => s,
    }
}

/// Reads the target that the part of an edge line after the arrow names.
fn read_target_name<'a>(part: &'a [char]) -> (r: &'a [char])
    ensures
        r@ == target_name(part@),
{
    unwrap(slice_subrange(part, 0, find_char(part, '[')))
}

/// Reads the two ends of the edge on a trimmed line.
fn read_connection(line: &[char]) -> (r: Option<(String, String)>)
    ensures
        r.deep_view() == connection(line@),
{
    let slashes = to_chars("//");
    let arrow = to_chars("->");
    let code = cut_before(line, slashes.as_slice());
    match find(code, arrow.as_slice()) {
        Some(at) => {
            proof {
                lemma_first_index_from(code@, arrow@, 0);
                assert(at + arrow.len() <= code.len());
            }
            let from = strip_matches(strip(slice_subrange(code, 0, at)), '"');
            let rest = slice_subrange(code, at + arrow.len(), code.len());
            let to = read_target_name(strip(cut_before(rest, arrow.as_slice())));
            Some((to_string(from), to_string(to)))
        },
        None => None,
    }
}

/// Finds the node named `name` or appends it.
fn ensure_node(data: &mut GraphData, described: &StringHashMap<(NodeType, u32)>, name: &String) -> (index:
    usize)
    requires
        old(data).model().wf(),
        old(data).model().nodes.len() < u32::MAX,
    ensures
        final(data).model() == with_node(old(data).model(), described@, name@),
        final(data).model().wf(),
        final(data).model().index.dom().contains(name@),
        final(data).model().index[name@] == index,
        final(data).model().nodes.len() <= old(data).model().nodes.len() + 1,
        final(data).model().edges == old(data).model().edges,
{
    match data.node_map.get(name.as_str()) {
        Some(index) => *index,
        None => {
            let (node_type, level) = match described.get(name.as_str()) {
                Some(kind_level) => *kind_level,
                None => (NodeType::Default, 0u32),
            };
            let index = add_node(&mut data.graph, NodeInfo { name: name.clone(), node_type, level });
            data.node_map.insert(name.clone(), index);
            proof {
                let before = old(data).model();
                let after = data.model();
                assert forall|other: Seq<char>| #[trigger]
                    after.index.dom().contains(other) implies after.index[other]
                    < after.nodes.len() by {
                    if other != name@ {
                        assert(before.index.dom().contains(other));
                    }
                }
                assert forall|k: int| 0 <= k < after.edges.len() implies 0 <= (
                #[trigger] after.edges[k]).0 < after.nodes.len() && 0 <= after.edges[k].1
                    < after.nodes.len() by {
                    assert(after.edges[k] == before.edges[k]);
                }
            }
            index
        },
    }
}

/// Builds the graph of the edges of `lines`.
fn connect(lines: &Vec<&[char]>, described: &StringHashMap<(NodeType, u32)>) -> (data: GraphData)
    requires
        2 * lines@.len() < u32::MAX,
    ensures
        data.model() == connected(views(lines@), described@),
        data.model().wf(),
{
    let mut data = GraphData::new();
    let mut i: usize = 0;
    proof {
        lemma_views_ends(lines@);
    }
    while i < lines.len()
        invariant
            i <= lines.len(),
            2 * lines@.len() < u32::MAX,
            data.model() == connected(views(lines@).subrange(0, i as int), described@),
            data.model().wf(),
            data.model().nodes.len() <= 2 * i,
            data.model().edges.len() <= i,
        decreases lines.len() - i,
    {
        proof {
            lemma_views_step(lines@, i as int);
        }
        match read_connection(strip(lines[i])) {
            Some((from, to)) => {
                let from_index = ensure_node(&mut data, described, &from);
                let to_index = ensure_node(&mut data, described, &to);
                add_edge(&mut data.graph, from_index, to_index);
            },
            None => {},
        }
        i += 1;
    }
    proof {
        lemma_views_ends(lines@);
    }
    data
}

/// The kind of node that a cluster with the lower-case label `lowered` is.
pub fn classify_cluster(lowered: &[char]) -> (kind: NodeType)
    ensures
        kind == cluster_type(lowered@),
{
    let tenant = to_chars("tenant");
    let organization = to_chars("organization");
    let contact_center = to_chars("contact center");
    let site = to_chars("site");
    if contains(lowered, tenant.as_slice()) || contains(lowered, organization.as_slice()) {
        NodeType::Organization
    } else if contains(lowered, contact_center.as_slice()) {
        NodeType::LineOfBusiness
    } else if contains(lowered, site.as_slice()) {
        NodeType::Site
    } else {
        NodeType::Default
    }
}

/// The kind of node that a stand-alone node with the lower-case label
/// `lowered` is.
pub fn classify_leaf(lowered: &[char]) -> (kind: NodeType)
    ensures
        kind == leaf_type(lowered@),
{
    let supervisor = to_chars("supervisor");
    if contains(lowered, supervisor.as_slice()) {
        NodeType::Team
    } else {
        NodeType::User
    }
}

/// Tests whether a trimmed line gives a label.
fn label_line(line: &[char]) -> (r: bool)
    ensures
        r == is_label_line(line@),
{
    let upper = to_chars("Label=");
    let plain = to_chars("label=");
    starts_with(line, upper.as_slice()) || starts_with(line, plain.as_slice())
}

/// Reads the label that a label line gives.
fn read_cluster_label(line: &[char]) -> (label: String)
    requires
        is_label_line(line@),
    ensures
        label@ == cluster_label(line@),
{
    let parts = split(line, '=');
    proof {
        reveal_strlit("Label=");
        reveal_strlit("label=");
        crate::text::lemma_position(line@, '=');
        assert(line@.subrange(0, 6)[5] == '=');
        assert(position(line@, '=') < line@.len());
        assert(fields(line@, '=').len() >= 2) by {
            let p = position(line@, '=');
            assert(fields(line@.subrange(p + 1, line@.len() as int), '=').len() >= 1);
        }
        assert(views(parts@)[1] == parts@[1]@);
    }
    let raw = unwrap(parts[1]);
    let colon = find_char(raw, ':');
    if colon < raw.len() {
        to_string(strip(slice_subrange(raw, colon + 1, raw.len())))
    } else {
        to_string(raw)
    }
}

/// Looks for the label of a cluster among `lines[from..to]`.
fn look_ahead(lines: &Vec<&[char]>, from: usize, to: usize, name: &[char]) -> (label: String)
    ensures
        label@ == label_ahead(views(lines@), from as int, to as int, name@),
{
    let mut i: usize = from;
    while i < to && i < lines.len()
        invariant
            from <= i,
            label_ahead(views(lines@), from as int, to as int, name@) == label_ahead(
                views(lines@),
                i as int,
                to as int,
                name@,
            ),
        decreases lines.len() - i,
    {
        assert(views(lines@)[i as int] == lines@[i as int]@);
        let line = strip(lines[i]);
        if label_line(line) {
            return read_cluster_label(line);
        }
        i += 1;
    }
    to_string(name)
}

/// Appends a node named by its label, with an edge from the innermost open cluster.
fn add_child(data: &mut GraphData, stack: &Vec<usize>, label: String, node_type: NodeType) -> (index:
    usize)
    requires
        old(data).model().wf(),
        old(data).model().nodes.len() < u32::MAX,
        old(data).model().edges.len() < u32::MAX,
        forall|k: int| 0 <= k < stack@.len() ==> #[trigger] stack@[k] < old(data).model().nodes.len(),
    ensures
        final(data).model() == with_child(
            Nesting { graph: old(data).model(), stack: stack@ },
            label@,
            node_type,
        ),
        final(data).model().wf(),
        index == old(data).model().nodes.len(),
        final(data).model().nodes.len() == old(data).model().nodes.len() + 1,
        final(data).model().edges.len() <= old(data).model().edges.len() + 1,
{
    let depth = stack.len();
    let level: u32 = if depth > u32::MAX as usize {
        u32::MAX
    } else {
        depth as u32
    };
    let index = add_node(&mut data.graph, NodeInfo { name: label.clone(), node_type, level });
    data.node_map.insert(label, index);
    if depth > 0 {
        add_edge(&mut data.graph, stack[depth - 1], index);
    }
    proof {
        let before = old(data).model();
        let after = data.model();
        assert forall|other: Seq<char>| #[trigger]
            after.index.dom().contains(other) implies after.index[other] < after.nodes.len() by {
            if other != label@ {
                assert(before.index.dom().contains(other));
            }
        }
        assert forall|k: int| 0 <= k < after.edges.len() implies 0 <= (#[trigger] after.edges[k]).0
            < after.nodes.len() && 0 <= after.edges[k].1 < after.nodes.len() by {
            if k < before.edges.len() {
                assert(after.edges[k] == before.edges[k]);
            }
        }
    }
    index
}

/// Builds the graph of a text of nested clusters: each cluster and each
/// stand-alone node becomes a node, with an edge from the cluster around it.
pub fn parse_nested_subgraphs(lines: &Vec<&[char]>) -> (data: GraphData)
    requires
        lines@.len() < u32::MAX,
    ensures
        data.model() == nested(views(lines@), lines@.len() as int).graph,
        data.model().wf(),
{
    let header = to_chars("subgraph cluster_");
    let label_key = to_chars("label=");
    let arrow = to_chars("->");
    let mut data = GraphData::new();
    let mut stack: Vec<usize> = Vec::new();
    let mut i: usize = 0;
    while i < lines.len()
        invariant
            i <= lines.len(),
            lines@.len() < u32::MAX,
            header@ == "subgraph cluster_"@,
            label_key@ == "label="@,
            arrow@ == "->"@,
            (Nesting { graph: data.model(), stack: stack@ }) == nested(views(lines@), i as int),
            data.model().wf(),
            data.model().nodes.len() <= i,
            data.model().edges.len() <= i,
            forall|k: int| 0 <= k < stack@.len() ==> #[trigger] stack@[k] < data.model().nodes.len(),
        decreases lines.len() - i,
    {
        assert(views(lines@)[i as int] == lines@[i as int]@);
        let line = strip(lines[i]);
        if starts_with(line, header.as_slice()) {
            let name = strip(
                strip_end_matches(slice_subrange(line, header.len(), line.len()), '{'),
            );
            let to: usize = if i < usize::MAX - 10 {
                i + 10
            } else {
                usize::MAX
            };
            proof {
                lemma_look_ahead_window(views(lines@), i + 1, i + 10, to as int, name@);
            }
            let label = look_ahead(lines, i + 1, to, name);
            let lowered_source = to_chars(label.as_str());
            let lowered = lower(lowered_source.as_slice());
            let node_type = classify_cluster(lowered.as_slice());
            let index = add_child(&mut data, &stack, label, node_type);
            stack.push(index);
        } else if find_char(line, '[') < line.len() && contains(line, label_key.as_slice())
            && !contains(line, arrow.as_slice()) {
            let id = strip_matches(strip(slice_subrange(line, 0, find_char(line, '['))), '"');
            let label = match read_node_label(line) {
                Some(label) => to_string(label.as_slice()),
                None => to_string(id),
            };
            let lowered_source = to_chars(label.as_str());
            let lowered = lower(lowered_source.as_slice());
            let node_type = classify_leaf(lowered.as_slice());
            add_child(&mut data, &stack, label, node_type);
        } else if find_char(line, '}') < line.len() && stack.len() > 0 {
            stack.pop();
        }
        i += 1;
    }
    data
}

/// Looking ahead up to a line beyond the last is looking ahead up to the last.
pub proof fn lemma_look_ahead_window(
    lines: Seq<Seq<char>>,
    from: int,
    to: int,
    capped: int,
    name: Seq<char>,
)
    requires
        0 <= from,
        capped == to || (lines.len() <= capped <= to),
    ensures
        label_ahead(lines, from, capped, name) == label_ahead(lines, from, to, name),
    decreases to - from,
{
    if from < to && from < lines.len() && from < capped {
        if !is_label_line(trim(lines[from])) {
            lemma_look_ahead_window(lines, from + 1, to, capped, name);
        }
    }
}

/// Reads a DOT text into a graph of named nodes. The text must be short
/// enough for its nodes and edges to be numbered with 32 bits.
pub fn parse_dot_file(content: &str) -> (data: GraphData)
    requires
        2 * content@.len() < u32::MAX,
    ensures
        data.model() == graph_of(content@),
        data.model().wf(),
{
    let text = to_chars(content);
    let arrow = to_chars("->");
    let subgraph = to_chars("subgraph");
    let lines = split_lines(text.as_slice());
    proof {
        lemma_lines_len(content@);
    }
    if !contains(text.as_slice(), arrow.as_slice()) && contains(text.as_slice(), subgraph.as_slice()) {
        parse_nested_subgraphs(&lines)
    } else {
        let described = gather_descriptions(&lines);
        connect(&lines, &described)
    }
}

/// Reads a DOT text into a graph of named nodes, unless the text is too long
/// for its nodes and edges to be numbered with 32 bits.
pub fn try_parse_dot_file(content: &str) -> (data: Option<GraphData>)
    ensures
        match data {
            Some(graph) => 2 * content@.len() < u32::MAX && graph.model() == graph_of(content@)
                && graph.model().wf(),
            None => 2 * content@.len() >= u32::MAX,
        },
{
    if content.unicode_len() <= (u32::MAX / 2) as usize {
        Some(parse_dot_file(content))
    } else {
        None
    }
}

} // verus!
