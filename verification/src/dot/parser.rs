//! Reads DOT text into graph events.
//!
//! The reader is line-oriented and forgiving: a line that fits no pattern adds
//! nothing. A text with `subgraph` and no arrow is read as a chart of nested
//! clusters; any other text is read for node definitions and then for edges.

use crate::events::{
    added_edges, adds_elements_from, edges_join_added_nodes, emit, is_one_batch, node_ids,
    plain_edge, plain_node, sets_layout_first, sets_no_layout, Direction, EdgeType, EdgeTypeView,
    GraphEvent, GraphEventView, LayoutType, LayoutTypeView, NodeType, NodeTypeView, Position,
    PositionView, Properties, PropertiesView,
};
use crate::property_map::PropertyMap;
use crate::text::{
    contains, fields, find, find_char, find_from, first_index, first_index_from, has_prefix,
    includes, last_position, lead, lemma_views_ends, lemma_views_step, lines, lower, lowercase,
    number, parse_u32, position, push_all, replace, replaced, rfind_char, spells, split,
    split_lines, starts_with, strip, strip_end_matches, strip_matches, strip_start, take, to_chars,
    to_string, trim, trim_end_matches, trim_matches, trim_start_of, views, CharClass,
};
use vstd::hash_map::StringHashMap;
use vstd::prelude::*;
use vstd::slice::slice_subrange;

verus! {

/// The direction that the value of a `rankdir` directive names; top to bottom
/// unless it is `BT`, `LR` or `RL`.
pub open spec fn rank_direction(value: Seq<char>) -> Direction {
    if value == "BT"@ {
        Direction::BottomToTop
    } else if value == "LR"@ {
        Direction::LeftToRight
    } else if value == "RL"@ {
        Direction::RightToLeft
    } else {
        Direction::TopToBottom
    }
}

/// The value that is assigned by what follows the word `rankdir`: after
/// optional white space an `=`, then, after optional white space, either a
/// quoted text (what stands between the quote and the next quote or the end,
/// trimmed) or a bare word of letters, digits and `_`.
pub open spec fn assigned_value(after: Seq<char>) -> Option<Seq<char>> {
    let rest = trim_start_of(after, CharClass::Whitespace);
    if rest.len() > 0 && rest[0] == '=' {
        let value = trim_start_of(rest.subrange(1, rest.len() as int), CharClass::Whitespace);
        if value.len() > 0 && value[0] == '"' {
            let inner = value.subrange(1, value.len() as int);
            Some(trim(inner.subrange(0, position(inner, '"'))))
        } else {
            Some(lead(value, CharClass::Word))
        }
    } else {
        None
    }
}

/// The value of the first `rankdir` directive that begins at or after `from`
/// in `line`: the first occurrence of the word `rankdir` that an assignment
/// follows.
pub open spec fn rankdir_from(line: Seq<char>, from: int) -> Option<Seq<char>>
    decreases line.len() - from,
{
    match first_index_from(line, "rankdir"@, from) {
        Some(at) => {
            let value = assigned_value(line.subrange(at + "rankdir"@.len(), line.len() as int));
            if value is Some {
                value
            } else if from <= at < line.len() {
                rankdir_from(line, at + 1)
            } else {
                None
            }
        },
        None => None,
    }
}

/// The value of the first `rankdir` directive on the trimmed line `line`,
/// wherever on the line it stands; a comment line holds none.
pub open spec fn rankdir_of(line: Seq<char>) -> Option<Seq<char>> {
    if is_skipped(line) {
        None
    } else {
        rankdir_from(line, 0)
    }
}

/// The value of the first `rankdir` directive among `lines`.
pub open spec fn first_rankdir(lines: Seq<Seq<char>>) -> Option<Seq<char>>
    decreases lines.len(),
{
    if lines.len() == 0 {
        None
    } else if rankdir_of(trim(lines[0])) is Some {
        rankdir_of(trim(lines[0]))
    } else {
        first_rankdir(lines.subrange(1, lines.len() as int))
    }
}

/// The value of the first `rankdir` directive in `content`.
pub open spec fn rankdir(content: Seq<char>) -> Option<Seq<char>> {
    first_rankdir(lines(content))
}

/// Reads the value that is assigned by what follows the word `rankdir`.
fn read_assigned_value(after: &[char]) -> (r: Option<String>)
    ensures
        r.deep_view() == assigned_value(after@),
{
    let rest = strip_start(after, CharClass::Whitespace);
    if rest.len() > 0 && rest[0] == '=' {
        let value = strip_start(slice_subrange(rest, 1, rest.len()), CharClass::Whitespace);
        if value.len() > 0 && value[0] == '"' {
            let inner = slice_subrange(value, 1, value.len());
            Some(to_string(strip(slice_subrange(inner, 0, find_char(inner, '"')))))
        } else {
            let (word, _rest) = take(value, CharClass::Word);
            Some(to_string(word))
        }
    } else {
        None
    }
}

/// Reads the first `rankdir` directive of one trimmed line.
fn line_rankdir(line: &[char]) -> (r: Option<String>)
    ensures
        r.deep_view() == rankdir_of(line@),
{
    if skipped(line) {
        return None;
    }
    let keyword = to_chars("rankdir");
    let mut from: usize = 0;
    loop
        invariant
            from <= line.len(),
            keyword@ == "rankdir"@,
            rankdir_of(line@) == rankdir_from(line@, from as int),
        decreases line.len() - from,
    {
        match find_from(line, keyword.as_slice(), from) {
            Some(at) => {
                let value = read_assigned_value(
                    slice_subrange(line, at + keyword.len(), line.len()),
                );
                if value.is_some() {
                    return value;
                }
                if at >= line.len() {
                    return None;
                }
                from = at + 1;
            },
            None => {
                return None;
            },
        }
    }
}

/// Finds the first `rankdir` directive among the lines of a text.
pub fn lines_rankdir(lines: &Vec<&[char]>) -> (r: Option<String>)
    ensures
        r.deep_view() == first_rankdir(views(lines@)),
{
    let mut i: usize = 0;
    proof {
        lemma_views_ends(lines@);
    }
    while i < lines.len()
        invariant
            i <= lines.len(),
            first_rankdir(views(lines@)) == first_rankdir(
                views(lines@).subrange(i as int, lines@.len() as int),
            ),
        decreases lines.len() - i,
    {
        let ghost rest = views(lines@).subrange(i as int, lines@.len() as int);
        assert(rest[0] == lines@[i as int]@);
        let found = line_rankdir(strip(lines[i]));
        if found.is_some() {
            return found;
        }
        proof {
            assert(rest.subrange(1, rest.len() as int) =~= views(lines@).subrange(
                i + 1,
                lines@.len() as int,
            ));
        }
        i += 1;
    }
    None
}

/// Finds the value of the first `rankdir` directive of a DOT text.
pub fn extract_rankdir(content: &str) -> (r: Option<String>)
    ensures
        r.deep_view() == rankdir(content@),
{
    let text = to_chars(content);
    let lines = split_lines(text.as_slice());
    lines_rankdir(&lines)
}

/// Whether the trimmed line `line` is blank or a `//` comment.
pub open spec fn is_skipped(line: Seq<char>) -> bool {
    line.len() == 0 || has_prefix(line, "//"@)
}

/// Tests whether a trimmed line is blank or a comment.
fn skipped(line: &[char]) -> (r: bool)
    ensures
        r == is_skipped(line@),
{
    let slashes = to_chars("//");
    line.len() == 0 || starts_with(line, slashes.as_slice())
}

/// What the attribute list of a node definition says.
#[derive(Debug, PartialEq, Eq)]
pub struct NodeAttributes {
    /// The value of `type`.
    pub node_type: Option<String>,
    /// The value of `level`, where it is a number.
    pub level: Option<u32>,
    /// The value of `label`.
    pub label: Option<String>,
    /// Every other attribute.
    pub custom: PropertyMap,
}

/// The view of [`NodeAttributes`].
pub struct NodeAttributesView {
    pub node_type: Option<Seq<char>>,
    pub level: Option<u32>,
    pub label: Option<Seq<char>>,
    pub custom: Map<Seq<char>, Seq<char>>,
}

impl DeepView for NodeAttributes {
    type V = NodeAttributesView;

    open spec fn deep_view(&self) -> NodeAttributesView {
        NodeAttributesView {
            node_type: self.node_type.deep_view(),
            level: self.level,
            label: self.label.deep_view(),
            custom: self.custom.deep_view(),
        }
    }
}

impl NodeAttributesView {
    /// No attribute at all.
    pub open spec fn none() -> NodeAttributesView {
        NodeAttributesView { node_type: None, level: None, label: None, custom: Map::empty() }
    }
}

/// `attributes` after reading one more `key=value` item. An item that does not
/// hold exactly one `=` changes nothing. `type`, `level` and `label` set their
/// field (a `level` that is no number clears it); any other key goes to the
/// custom pairs.
pub open spec fn with_attribute(attributes: NodeAttributesView, item: Seq<char>) -> NodeAttributesView {
    let parts = fields(item, '=');
    if parts.len() == 2 {
        let key = trim(parts[0]);
        let value = trim_matches(trim(parts[1]), '"');
        if key == "type"@ {
            NodeAttributesView { node_type: Some(value), ..attributes }
        } else if key == "level"@ {
            NodeAttributesView { level: number(value), ..attributes }
        } else if key == "label"@ {
            NodeAttributesView { label: Some(value), ..attributes }
        } else {
            NodeAttributesView { custom: attributes.custom.insert(key, value), ..attributes }
        }
    } else {
        attributes
    }
}

/// What a list of attribute items says, read from left to right.
pub open spec fn attributes_of(items: Seq<Seq<char>>) -> NodeAttributesView
    decreases items.len(),
{
    if items.len() == 0 {
        NodeAttributesView::none()
    } else {
        with_attribute(attributes_of(items.drop_last()), items.last())
    }
}

/// The node that the trimmed line `line` defines, with its attributes: the
/// line is no comment, holds no `->`, and its last `]` stands after its first
/// `[`. The id is what precedes the `[`, trimmed and unquoted; the attribute
/// items are the comma-separated pieces between the two brackets.
pub open spec fn node_definition(line: Seq<char>) -> Option<(Seq<char>, NodeAttributesView)> {
    let open = position(line, '[');
    let close = last_position(line, ']');
    if !is_skipped(line) && !includes(line, "->"@) && close is Some && open < close->0 {
        Some(
            (
                trim_matches(trim(line.subrange(0, open)), '"'),
                attributes_of(fields(line.subrange(open + 1, close->0), ',')),
            ),
        )
    } else {
        None
    }
}

/// The event for a defined node: the label defaults to the id, a `type` makes
/// the node a custom one, a `level` places it on that layer.
pub open spec fn node_event(id: Seq<char>, attributes: NodeAttributesView) -> GraphEventView {
    GraphEventView::AddNode {
        id,
        label: Some(
            match attributes.label {
                Some(label) => label,
                None => id,
            },
        ),
        node_type: match attributes.node_type {
            Some(name) => NodeTypeView::Custom(name),
            None => NodeTypeView::Node,
        },
        properties: PropertiesView {
            style: None,
            position: match attributes.level {
                Some(level) => Some(PositionView::Layer { level }),
                None => None,
            },
            custom: attributes.custom,
        },
    }
}

/// What a scan over lines has gathered: for each node met so far, by its id,
/// the attributes recorded of it, and the events emitted.
pub struct Scan {
    pub attributes: Map<Seq<char>, NodeAttributesView>,
    pub events: Seq<GraphEventView>,
}

impl Scan {
    /// The ids of the nodes met so far.
    pub open spec fn known(self) -> Set<Seq<char>> {
        self.attributes.dom()
    }
}

/// The views of the attributes recorded under each id.
pub open spec fn attribute_views(recorded: Map<Seq<char>, NodeAttributes>) -> Map<
    Seq<char>,
    NodeAttributesView,
> {
    Map::new(
        |id: Seq<char>| recorded.dom().contains(id),
        |id: Seq<char>| recorded[id].deep_view(),
    )
}

/// The scan for node definitions after one more line: a defined node is
/// added, and what its attribute list says is recorded under its id, in
/// place of what an earlier definition said.
pub open spec fn node_step(scan: Scan, line: Seq<char>) -> Scan {
    match node_definition(trim(line)) {
        Some((id, attributes)) => Scan {
            attributes: scan.attributes.insert(id, attributes),
            events: scan.events.push(node_event(id, attributes)),
        },
        None => scan,
    }
}

/// The scan for node definitions over `lines`, begun at `start`.
pub open spec fn scan_nodes(lines: Seq<Seq<char>>, start: Scan) -> Scan
    decreases lines.len(),
{
    if lines.len() == 0 {
        start
    } else {
        node_step(scan_nodes(lines.drop_last(), start), lines.last())
    }
}

/// Reads one attribute item into `attributes`.
fn read_attribute(attributes: &mut NodeAttributes, item: &[char])
    ensures
        final(attributes).deep_view() == with_attribute(old(attributes).deep_view(), item@),
{
    let parts = split(item, '=');
    if parts.len() == 2 {
        assert(views(parts@)[0] == parts@[0]@ && views(parts@)[1] == parts@[1]@);
        let key = strip(parts[0]);
        let value = strip_matches(strip(parts[1]), '"');
        if spells(key, "type") {
            attributes.node_type = Some(to_string(value));
        } else if spells(key, "level") {
            attributes.level = parse_u32(value);
        } else if spells(key, "label") {
            attributes.label = Some(to_string(value));
        } else {
            attributes.custom.insert(to_string(key), to_string(value));
        }
    }
}

/// Reads a comma-separated attribute list.
fn read_attributes(list: &[char]) -> (attributes: NodeAttributes)
    ensures
        attributes.deep_view() == attributes_of(fields(list@, ',')),
{
    let items = split(list, ',');
    let mut attributes = NodeAttributes {
        node_type: None,
        level: None,
        label: None,
        custom: PropertyMap::new(),
    };
    let mut i: usize = 0;
    proof {
        lemma_views_ends(items@);
    }
    while i < items.len()
        invariant
            i <= items.len(),
            attributes.deep_view() == attributes_of(views(items@).subrange(0, i as int)),
        decreases items.len() - i,
    {
        proof {
            lemma_views_step(items@, i as int);
        }
        read_attribute(&mut attributes, items[i]);
        i += 1;
    }
    proof {
        lemma_views_ends(items@);
    }
    attributes
}

/// Reads the node definition on a trimmed line, if there is one.
fn read_node_definition(line: &[char]) -> (r: Option<(String, NodeAttributes)>)
    ensures
        r.deep_view() == node_definition(line@),
{
    if skipped(line) {
        return None;
    }
    let arrow = to_chars("->");
    if contains(line, arrow.as_slice()) {
        return None;
    }
    let open = find_char(line, '[');
    match rfind_char(line, ']') {
        Some(close) => {
            if open < close {
                let id = strip_matches(strip(slice_subrange(line, 0, open)), '"');
                let attributes = read_attributes(slice_subrange(line, open + 1, close));
                Some((to_string(id), attributes))
            } else {
                None
            }
        },
        None => None,
    }
}

impl NodeAttributes {
    /// Attributes that say nothing.
    pub fn none() -> (attributes: Self)
        ensures
            attributes.deep_view() == NodeAttributesView::none(),
    {
        NodeAttributes { node_type: None, level: None, label: None, custom: PropertyMap::new() }
    }

    /// A copy of the attributes.
    pub fn duplicate(&self) -> (copy: Self)
        ensures
            copy.deep_view() == self.deep_view(),
    {
        let node_type = match &self.node_type {
            Some(name) => Some(name.clone()),
            None => None,
        };
        let label = match &self.label {
            Some(label) => Some(label.clone()),
            None => None,
        };
        NodeAttributes { node_type, level: self.level, label, custom: self.custom.clone() }
    }
}

/// Builds the event for a defined node.
fn make_node_event(id: String, attributes: NodeAttributes) -> (event: GraphEvent)
    ensures
        event.deep_view() == node_event(id@, attributes.deep_view()),
{
    let NodeAttributes { node_type, level, label, custom } = attributes;
    let label = match label {
        Some(label) => label,
        None => id.clone(),
    };
    let node_type = match node_type {
        Some(name) => NodeType::Custom(name),
        None => NodeType::Node,
    };
    let position = match level {
        Some(level) => Some(Position::Layer { level }),
        None => None,
    };
    GraphEvent::AddNode {
        id,
        label: Some(label),
        node_type,
        properties: Properties { style: None, position, custom },
    }
}

/// Scans `lines` for node definitions: emits an `AddNode` for each and
/// records under its id, in `node_attributes`, what its attribute list says.
pub fn parse_nodes(
    lines: &Vec<&[char]>,
    events: &mut Vec<GraphEvent>,
    node_attributes: &mut StringHashMap<NodeAttributes>,
)
    ensures
        (Scan {
            attributes: attribute_views(final(node_attributes)@),
            events: final(events).deep_view(),
        }) == scan_nodes(
            views(lines@),
            Scan {
                attributes: attribute_views(old(node_attributes)@),
                events: old(events).deep_view(),
            },
        ),
{
    let ghost start = Scan {
        attributes: attribute_views(old(node_attributes)@),
        events: old(events).deep_view(),
    };
    let mut i: usize = 0;
    proof {
        lemma_views_ends(lines@);
    }
    while i < lines.len()
        invariant
            i <= lines.len(),
            (Scan { attributes: attribute_views(node_attributes@), events: events.deep_view() })
                == scan_nodes(views(lines@).subrange(0, i as int), start),
        decreases lines.len() - i,
    {
        proof {
            lemma_views_step(lines@, i as int);
        }
        match read_node_definition(strip(lines[i])) {
            Some((id, attributes)) => {
                let ghost before = attribute_views(node_attributes@);
                node_attributes.insert(id.clone(), attributes.duplicate());
                assert(attribute_views(node_attributes@) =~= before.insert(
                    id@,
                    attributes.deep_view(),
                ));
                emit(events, make_node_event(id, attributes));
            },
            None => {},
        }
        i += 1;
    }
    proof {
        lemma_views_ends(lines@);
    }
}

/// The arrow of a graph: `->` where it is directed, `--` where it is not.
pub open spec fn arrow_token(directed: bool) -> Seq<char> {
    if directed {
        "->"@
    } else {
        "--"@
    }
}

/// The type of every edge of a graph.
pub open spec fn edge_kind(directed: bool) -> EdgeTypeView {
    if directed {
        EdgeTypeView::Directed
    } else {
        EdgeTypeView::Undirected
    }
}

/// `s` without what surrounds a value: it is trimmed, loses its trailing
/// semicolons, is trimmed again, and loses its surrounding quotes.
pub open spec fn unwrapped(s: Seq<char>) -> Seq<char> {
    trim_matches(trim(trim_end_matches(trim(s), ';')), '"')
}

/// The node id that one side of an edge writes: the side without white
/// space, trailing semicolons and surrounding quotes.
pub open spec fn endpoint(side: Seq<char>) -> Seq<char> {
    unwrapped(side)
}

/// The two ends of the edge on the trimmed line `line`: the line is no
/// comment and holds the graph's arrow; the source is what precedes the first
/// arrow, the target what follows it up to the first `[`.
pub open spec fn edge_ends(line: Seq<char>, directed: bool) -> Option<(Seq<char>, Seq<char>)> {
    match first_index(line, arrow_token(directed)) {
        Some(at) => if is_skipped(line) {
            None
        } else {
            let rest = line.subrange(at + arrow_token(directed).len(), line.len() as int);
            Some((endpoint(line.subrange(0, at)), endpoint(rest.subrange(0, position(rest, '[')))))
        },
        None => None,
    }
}

/// `scan` after `id` was referred to: a node that is not known yet is declared
/// as a plain node labelled by its id, and recorded with no attributes.
pub open spec fn declare(scan: Scan, id: Seq<char>) -> Scan {
    if scan.known().contains(id) {
        scan
    } else {
        Scan {
            attributes: scan.attributes.insert(id, NodeAttributesView::none()),
            events: scan.events.push(plain_node(id, id)),
        }
    }
}

/// The scan for edges after one more line: both ends are declared where
/// needed, the source first, then the edge is added.
pub open spec fn edge_step(scan: Scan, line: Seq<char>, directed: bool) -> Scan {
    match edge_ends(trim(line), directed) {
        Some((from, to)) => {
            let declared = declare(declare(scan, from), to);
            Scan {
                attributes: declared.attributes,
                events: declared.events.push(
                    plain_edge(from, arrow_token(directed), to, edge_kind(directed)),
                ),
            }
        },
        None => scan,
    }
}

/// The scan for edges over `lines`, begun at `start`.
pub open spec fn scan_edges(lines: Seq<Seq<char>>, start: Scan, directed: bool) -> Scan
    decreases lines.len(),
{
    if lines.len() == 0 {
        start
    } else {
        edge_step(scan_edges(lines.drop_last(), start, directed), lines.last(), directed)
    }
}

/// The graph's arrow as characters.
fn arrow_chars(directed: bool) -> (arrow: Vec<char>)
    ensures
        arrow@ == arrow_token(directed),
{
    if directed {
        to_chars("->")
    } else {
        to_chars("--")
    }
}

/// Strips white space, trailing semicolons and surrounding quotes.
pub fn unwrap<'a>(s: &'a [char]) -> (r: &'a [char])
    ensures
        r@ == unwrapped(s@),
{
    strip_matches(strip(strip_end_matches(strip(s), ';')), '"')
}

/// Reads the two ends of the edge on a trimmed line, if there is one.
fn read_edge_ends(line: &[char], directed: bool) -> (r: Option<(String, String)>)
    ensures
        r.deep_view() == edge_ends(line@, directed),
{
    let arrow = arrow_chars(directed);
    match find(line, arrow.as_slice()) {
        Some(at) => {
            if skipped(line) {
                return None;
            }
            proof {
                crate::text::lemma_first_index_from(line@, arrow@, 0);
                assert(at + arrow.len() <= line.len());
            }
            let from = unwrap(slice_subrange(line, 0, at));
            let rest = slice_subrange(line, at + arrow.len(), line.len());
            let target = slice_subrange(rest, 0, find_char(rest, '['));
            let to = unwrap(target);
            Some((to_string(from), to_string(to)))
        },
        None => None,
    }
}

/// Declares the node `id` unless it is known.
fn declare_node(
    id: &String,
    events: &mut Vec<GraphEvent>,
    node_attributes: &mut StringHashMap<NodeAttributes>,
)
    ensures
        (Scan {
            attributes: attribute_views(final(node_attributes)@),
            events: final(events).deep_view(),
        }) == declare(
            Scan {
                attributes: attribute_views(old(node_attributes)@),
                events: old(events).deep_view(),
            },
            id@,
        ),
{
    if !node_attributes.contains_key(id.as_str()) {
        emit(
            events,
            GraphEvent::AddNode {
                id: id.clone(),
                label: Some(id.clone()),
                node_type: NodeType::Node,
                properties: Properties::default(),
            },
        );
        let ghost before = attribute_views(node_attributes@);
        node_attributes.insert(id.clone(), NodeAttributes::none());
        assert(attribute_views(node_attributes@) =~= before.insert(id@, NodeAttributesView::none()));
    }
}

/// Builds the event for an unlabelled edge, named by its ends and the arrow.
fn make_edge_event(from: String, arrow: &[char], to: String, edge_type: EdgeType) -> (event:
    GraphEvent)
    ensures
        event.deep_view() == plain_edge(from@, arrow@, to@, edge_type.deep_view()),
{
    let mut id = from.clone();
    let arrow_text = to_string(arrow);
    id.append(arrow_text.as_str());
    id.append(to.as_str());
    GraphEvent::AddEdge { id, from, to, edge_type, label: None, properties: Properties::default() }
}

/// Scans `lines` for edges: declares the ends that `node_attributes` does not
/// know, then emits the `AddEdge`.
pub fn parse_edges(
    lines: &Vec<&[char]>,
    events: &mut Vec<GraphEvent>,
    node_attributes: &mut StringHashMap<NodeAttributes>,
    is_digraph: bool,
)
    ensures
        (Scan {
            attributes: attribute_views(final(node_attributes)@),
            events: final(events).deep_view(),
        }) == scan_edges(
            views(lines@),
            Scan {
                attributes: attribute_views(old(node_attributes)@),
                events: old(events).deep_view(),
            },
            is_digraph,
        ),
{
    let ghost start = Scan {
        attributes: attribute_views(old(node_attributes)@),
        events: old(events).deep_view(),
    };
    let arrow = arrow_chars(is_digraph);
    let mut i: usize = 0;
    proof {
        lemma_views_ends(lines@);
    }
    while i < lines.len()
        invariant
            i <= lines.len(),
            arrow@ == arrow_token(is_digraph),
            (Scan { attributes: attribute_views(node_attributes@), events: events.deep_view() })
                == scan_edges(views(lines@).subrange(0, i as int), start, is_digraph),
        decreases lines.len() - i,
    {
        proof {
            lemma_views_step(lines@, i as int);
        }
        match read_edge_ends(strip(lines[i]), is_digraph) {
            Some((from, to)) => {
                declare_node(&from, events, node_attributes);
                declare_node(&to, events, node_attributes);
                let edge_type = if is_digraph {
                    EdgeType::Directed
                } else {
                    EdgeType::Undirected
                };
                emit(events, make_edge_event(from, arrow.as_slice(), to, edge_type));
            },
            None => {},
        }
        i += 1;
    }
    proof {
        lemma_views_ends(lines@);
    }
}

/// The layout event of a graph with a `rankdir` directive.
pub open spec fn layout_events(content: Seq<char>) -> Seq<GraphEventView> {
    match rankdir(content) {
        Some(value) => seq![
            GraphEventView::SetLayout {
                layout_type: LayoutTypeView::Hierarchical { direction: rank_direction(value) },
                properties: PropertiesView::empty(),
            },
        ],
        None => Seq::empty(),
    }
}

/// The events of an edge-based DOT text, after those in `before`: the layout
/// hint, if any; the defined nodes; then the edges, each preceded by the
/// declaration of those of its ends that no earlier line introduced.
pub open spec fn regular_events(
    content: Seq<char>,
    before: Seq<GraphEventView>,
    directed: bool,
) -> Seq<GraphEventView> {
    let start = Scan { attributes: Map::empty(), events: before + layout_events(content) };
    scan_edges(lines(content), scan_nodes(lines(content), start), directed).events
}

/// Reads the direction that a `rankdir` value names.
fn read_direction(value: &String) -> (direction: Direction)
    ensures
        direction == rank_direction(value@),
{
    let letters = to_chars(value.as_str());
    if spells(letters.as_slice(), "BT") {
        Direction::BottomToTop
    } else if spells(letters.as_slice(), "LR") {
        Direction::LeftToRight
    } else if spells(letters.as_slice(), "RL") {
        Direction::RightToLeft
    } else {
        Direction::TopToBottom
    }
}

/// Reads an edge-based DOT text and appends its events to `events`.
pub fn parse_regular_dot(content: &[char], events: &mut Vec<GraphEvent>, is_digraph: bool)
    ensures
        final(events).deep_view() == regular_events(content@, old(events).deep_view(), is_digraph),
{
    let lines = split_lines(content);
    match lines_rankdir(&lines) {
        Some(value) => {
            let direction = read_direction(&value);
            emit(
                events,
                GraphEvent::SetLayout {
                    layout_type: LayoutType::Hierarchical { direction },
                    properties: Properties::default(),
                },
            );
            assert(events.deep_view() =~= old(events).deep_view() + layout_events(content@));
        },
        None => {
            assert(events.deep_view() =~= old(events).deep_view() + layout_events(content@));
        },
    }
    let mut node_attributes: StringHashMap<NodeAttributes> = StringHashMap::new();
    assert(attribute_views(node_attributes@) =~= Map::empty());
    parse_nodes(&lines, events, &mut node_attributes);
    parse_edges(&lines, events, &mut node_attributes, is_digraph);
}

/// The label that a `label=` line of a cluster gives: what follows the first
/// `=` (the first character, where there is no `=`), without white space,
/// trailing semicolons and surrounding quotes; of a label with a colon only
/// what follows the last colon, trimmed.
pub open spec fn label_value(line: Seq<char>) -> Seq<char> {
    let eq = position(line, '=');
    let start = if eq < line.len() {
        eq + 1
    } else if line.len() > 0 {
        1
    } else {
        0
    };
    let raw = unwrapped(line.subrange(start, line.len() as int));
    match last_position(raw, ':') {
        Some(colon) => trim(raw.subrange(colon + 1, raw.len() as int)),
        None => raw,
    }
}

/// The label of a stand-alone node: the text between the first two quotes
/// after the first `label=`, with each backslash-`n` pair turned into a
/// space, trimmed.
pub open spec fn node_label(line: Seq<char>) -> Option<Seq<char>> {
    match first_index(line, "label="@) {
        Some(at) => {
            let part = line.subrange(at + "label="@.len(), line.len() as int);
            let first = position(part, '"');
            let inner = part.subrange(first + 1, part.len() as int);
            let second = position(inner, '"');
            if first < part.len() && second < inner.len() {
                Some(trim(replaced(inner.subrange(0, second), "\\n"@, " "@)))
            } else {
                None
            }
        },
        None => None,
    }
}

/// The kind of node that a cluster is, judged by its lower-case label.
pub open spec fn cluster_kind(lowered: Seq<char>) -> NodeTypeView {
    if includes(lowered, "tenant"@) || includes(lowered, "organization"@) {
        NodeTypeView::Custom("organization"@)
    } else if includes(lowered, "contact center"@) {
        NodeTypeView::Custom("line_of_business"@)
    } else if includes(lowered, "site"@) {
        NodeTypeView::Custom("site"@)
    } else {
        NodeTypeView::Node
    }
}

/// The kind of node that a stand-alone node is, judged by its lower-case label.
pub open spec fn leaf_kind(lowered: Seq<char>) -> NodeTypeView {
    if includes(lowered, "supervisor"@) {
        NodeTypeView::Custom("team"@)
    } else {
        NodeTypeView::Custom("user"@)
    }
}

/// The layer for a nesting depth; depths beyond `u32::MAX` count as `u32::MAX`.
pub open spec fn layer(depth: int) -> u32 {
    if depth > u32::MAX {
        u32::MAX
    } else if depth < 0 {
        0
    } else {
        depth as u32
    }
}

/// The node of the nested dialect: its label is its id, and it lies on a layer.
pub open spec fn chart_node(label: Seq<char>, node_type: NodeTypeView, level: u32) -> GraphEventView {
    GraphEventView::AddNode {
        id: label,
        label: Some(label),
        node_type,
        properties: PropertiesView::at(PositionView::Layer { level }),
    }
}

/// The directed edge from a parent, where there is one, to `child`.
pub open spec fn parent_edge(parent: Option<Seq<char>>, child: Seq<char>) -> Seq<GraphEventView> {
    match parent {
        Some(id) => seq![plain_edge(id, "->"@, child, EdgeTypeView::Directed)],
        None => Seq::empty(),
    }
}

/// What a scan of the nested dialect has gathered: for each open cluster, from
/// the outermost, the node it resolved to (once its label was seen), and the
/// events emitted.
pub struct ChartScan {
    pub stack: Seq<Option<Seq<char>>>,
    pub events: Seq<GraphEventView>,
}

/// The scan of the nested dialect after one more trimmed line.
///
/// - A `subgraph` line with a `cluster_` name opens a cluster.
/// - A `label=` or `Label=` line inside a cluster makes the cluster a node,
///   on the layer of its depth less one, with an edge from the node of the
///   cluster around it.
/// - Any other line with a `[`, a `label=` and no `->` is a stand-alone node
///   at the current depth, with an edge from the innermost cluster's node.
/// - A line that is just `}` closes the innermost cluster.
pub open spec fn chart_step(scan: ChartScan, line: Seq<char>) -> ChartScan {
    let depth = scan.stack.len() as int;
    if has_prefix(line, "subgraph"@) {
        if includes(line, "cluster_"@) {
            ChartScan { stack: scan.stack.push(None), ..scan }
        } else {
            scan
        }
    } else if (has_prefix(line, "label="@) || has_prefix(line, "Label="@)) && depth > 0 {
        let label = label_value(line);
        let parent = if depth > 1 {
            scan.stack[depth - 2]
        } else {
            None
        };
        ChartScan {
            stack: scan.stack.update(depth - 1, Some(label)),
            events: scan.events.push(
                chart_node(label, cluster_kind(lowercase(label)), layer(depth - 1)),
            ) + parent_edge(parent, label),
        }
    } else if position(line, '[') < line.len() && includes(line, "label="@) && !includes(
        line,
        "->"@,
    ) {
        let id = trim_matches(trim(line.subrange(0, position(line, '['))), '"');
        let label = match node_label(line) {
            Some(label) => label,
            None => id,
        };
        let parent = if depth > 0 {
            scan.stack[depth - 1]
        } else {
            None
        };
        ChartScan {
            events: scan.events.push(chart_node(label, leaf_kind(lowercase(label)), layer(depth)))
                + parent_edge(parent, label),
            ..scan
        }
    } else if line == "}"@ && depth > 0 {
        ChartScan { stack: scan.stack.drop_last(), ..scan }
    } else {
        scan
    }
}

/// The scan of the nested dialect over `lines`, begun at `start`.
pub open spec fn scan_chart(lines: Seq<Seq<char>>, start: ChartScan) -> ChartScan
    decreases lines.len(),
{
    if lines.len() == 0 {
        start
    } else {
        chart_step(scan_chart(lines.drop_last(), start), trim(lines.last()))
    }
}

/// The events of a nested-cluster text, after those in `before`.
pub open spec fn nested_events(content: Seq<char>, before: Seq<GraphEventView>) -> Seq<
    GraphEventView,
> {
    scan_chart(lines(content), ChartScan { stack: Seq::empty(), events: before }).events
}

/// Reads the label of a cluster from its `label=` line, given as characters.
pub fn read_label_value(line: &[char]) -> (label: Vec<char>)
    ensures
        label@ == label_value(line@),
{
    let eq = find_char(line, '=');
    let start: usize = if eq < line.len() {
        eq + 1
    } else if line.len() > 0 {
        1
    } else {
        0
    };
    let raw = unwrap(slice_subrange(line, start, line.len()));
    let label = match rfind_char(raw, ':') {
        Some(colon) => strip(slice_subrange(raw, colon + 1, raw.len())),
        None => raw,
    };
    let mut out: Vec<char> = Vec::new();
    push_all(&mut out, label);
    assert(out@ =~= label@);
    out
}

/// Reads the label of a cluster from its `label=` line.
pub fn extract_label_value(line: &str) -> (label: String)
    ensures
        label@ == label_value(line@),
{
    let text = to_chars(line);
    let label = read_label_value(text.as_slice());
    to_string(label.as_slice())
}

/// Reads the quoted label of a stand-alone node, given as characters.
pub fn read_node_label(line: &[char]) -> (label: Option<Vec<char>>)
    ensures
        match label {
            Some(text) => node_label(line@) == Some(text@),
            None => node_label(line@) is None,
        },
{
    let keyword = to_chars("label=");
    match find(line, keyword.as_slice()) {
        Some(at) => {
            proof {
                crate::text::lemma_first_index_from(line@, keyword@, 0);
                assert(at + keyword.len() <= line.len());
            }
            let part = slice_subrange(line, at + keyword.len(), line.len());
            let first = find_char(part, '"');
            if first < part.len() {
                let inner = slice_subrange(part, first + 1, part.len());
                let second = find_char(inner, '"');
                if second < inner.len() {
                    let escape = to_chars("\\n");
                    let blank = to_chars(" ");
                    proof {
                        reveal_strlit("\\n");
                    }
                    let spaced = replace(
                        slice_subrange(inner, 0, second),
                        escape.as_slice(),
                        blank.as_slice(),
                    );
                    let label = strip(spaced.as_slice());
                    let mut out: Vec<char> = Vec::new();
                    push_all(&mut out, label);
                    assert(out@ =~= label@);
                    Some(out)
                } else {
                    None
                }
            } else {
                None
            }
        },
        None => None,
    }
}

/// Reads the quoted label of a stand-alone node.
pub fn extract_node_label(line: &str) -> (label: Option<String>)
    ensures
        label.deep_view() == node_label(line@),
{
    let text = to_chars(line);
    match read_node_label(text.as_slice()) {
        Some(label) => Some(to_string(label.as_slice())),
        None => None,
    }
}

/// The kind of node that a cluster with the lower-case label `lowered` is.
pub fn classify_cluster(lowered: &[char]) -> (kind: NodeType)
    ensures
        kind.deep_view() == cluster_kind(lowered@),
{
    let tenant = to_chars("tenant");
    let organization = to_chars("organization");
    let contact_center = to_chars("contact center");
    let site = to_chars("site");
    if contains(lowered, tenant.as_slice()) || contains(lowered, organization.as_slice()) {
        NodeType::Custom("organization".to_owned())
    } else if contains(lowered, contact_center.as_slice()) {
        NodeType::Custom("line_of_business".to_owned())
    } else if contains(lowered, site.as_slice()) {
        NodeType::Custom("site".to_owned())
    } else {
        NodeType::Node
    }
}

/// The kind of node that a stand-alone node with the lower-case label
/// `lowered` is.
pub fn classify_leaf(lowered: &[char]) -> (kind: NodeType)
    ensures
        kind.deep_view() == leaf_kind(lowered@),
{
    let supervisor = to_chars("supervisor");
    if contains(lowered, supervisor.as_slice()) {
        NodeType::Custom("team".to_owned())
    } else {
        NodeType::Custom("user".to_owned())
    }
}

/// The layer for a nesting depth.
fn layer_of(depth: usize) -> (level: u32)
    ensures
        level == layer(depth as int),
{
    if depth > u32::MAX as usize {
        u32::MAX
    } else {
        depth as u32
    }
}

/// Emits a node of the nested dialect and the edge from its parent.
fn emit_chart_node(
    events: &mut Vec<GraphEvent>,
    label: &[char],
    node_type: NodeType,
    level: u32,
    parent: &Option<String>,
)
    ensures
        final(events).deep_view() == old(events).deep_view().push(
            chart_node(label@, node_type.deep_view(), level),
        ) + parent_edge(parent.deep_view(), label@),
{
    let id = to_string(label);
    emit(
        events,
        GraphEvent::AddNode {
            id: id.clone(),
            label: Some(id.clone()),
            node_type,
            properties: Properties::at(Position::Layer { level }),
        },
    );
    let ghost with_node = events.deep_view();
    match parent {
        Some(parent_id) => {
            let arrow = to_chars("->");
            emit(
                events,
                make_edge_event(parent_id.clone(), arrow.as_slice(), id, EdgeType::Directed),
            );
            assert(events.deep_view() =~= with_node + parent_edge(parent.deep_view(), label@));
        },
        None => {
            assert(events.deep_view() =~= with_node + parent_edge(parent.deep_view(), label@));
        },
    }
}

/// Reads one trimmed line of the nested dialect.
fn chart_line(line: &[char], stack: &mut Vec<Option<String>>, events: &mut Vec<GraphEvent>)
    ensures
        (ChartScan { stack: final(stack).deep_view(), events: final(events).deep_view() })
            == chart_step(
            ChartScan { stack: old(stack).deep_view(), events: old(events).deep_view() },
            line@,
        ),
{
    let subgraph = to_chars("subgraph");
    let cluster = to_chars("cluster_");
    let label_key = to_chars("label=");
    let label_key_upper = to_chars("Label=");
    let arrow = to_chars("->");
    let depth = stack.len();
    let ghost before = stack.deep_view();
    if starts_with(line, subgraph.as_slice()) {
        if contains(line, cluster.as_slice()) {
            stack.push(None);
            assert(stack.deep_view() =~= before.push(None));
        }
    } else if (starts_with(line, label_key.as_slice()) || starts_with(
        line,
        label_key_upper.as_slice(),
    )) && depth > 0 {
        let label = read_label_value(line);
        let lowered = lower(label.as_slice());
        let node_type = classify_cluster(lowered.as_slice());
        let no_parent: Option<String> = None;
        if depth > 1 {
            assert(before[depth - 2] == stack@[depth - 2].deep_view());
            emit_chart_node(events, label.as_slice(), node_type, layer_of(depth - 1), &stack[depth - 2]);
        } else {
            emit_chart_node(events, label.as_slice(), node_type, layer_of(depth - 1), &no_parent);
        }
        stack.set(depth - 1, Some(to_string(label.as_slice())));
        assert(stack.deep_view() =~= before.update(depth - 1, Some(label@)));
    } else if find_char(line, '[') < line.len() && contains(line, label_key.as_slice())
        && !contains(line, arrow.as_slice()) {
        let id = strip_matches(strip(slice_subrange(line, 0, find_char(line, '['))), '"');
        let label = match read_node_label(line) {
            Some(label) => label,
            None => {
                let mut out: Vec<char> = Vec::new();
                push_all(&mut out, id);
                assert(out@ =~= id@);
                out
            },
        };
        let lowered = lower(label.as_slice());
        let node_type = classify_leaf(lowered.as_slice());
        let no_parent: Option<String> = None;
        if depth > 0 {
            assert(before[depth - 1] == stack@[depth - 1].deep_view());
            emit_chart_node(events, label.as_slice(), node_type, layer_of(depth), &stack[depth - 1]);
        } else {
            emit_chart_node(events, label.as_slice(), node_type, layer_of(depth), &no_parent);
        }
    } else if spells(line, "}") && depth > 0 {
        stack.pop();
        assert(stack.deep_view() =~= before.drop_last());
    }
}

/// Reads a nested-cluster text and appends its events to `events`.
pub fn parse_nested_subgraphs_to_events(content: &[char], events: &mut Vec<GraphEvent>)
    ensures
        final(events).deep_view() == nested_events(content@, old(events).deep_view()),
{
    let lines = split_lines(content);
    let mut stack: Vec<Option<String>> = Vec::new();
    let ghost start = ChartScan { stack: Seq::empty(), events: old(events).deep_view() };
    let mut i: usize = 0;
    proof {
        lemma_views_ends(lines@);
    }
    assert(stack.deep_view() =~= Seq::empty());
    while i < lines.len()
        invariant
            i <= lines.len(),
            (ChartScan { stack: stack.deep_view(), events: events.deep_view() }) == scan_chart(
                views(lines@).subrange(0, i as int),
                start,
            ),
        decreases lines.len() - i,
    {
        proof {
            lemma_views_step(lines@, i as int);
        }
        chart_line(strip(lines[i]), &mut stack, events);
        i += 1;
    }
    proof {
        lemma_views_ends(lines@);
    }
}

/// Whether a DOT text is in the nested dialect: it names a `subgraph` and
/// holds neither `->` nor `--`.
pub open spec fn is_nested(content: Seq<char>) -> bool {
    !includes(content, "->"@) && !includes(content, "--"@) && includes(content, "subgraph"@)
}

/// The events that a DOT text stands for: `BatchStart`, the events of its
/// dialect, `BatchEnd`. A text is directed where it holds the word `digraph`.
pub open spec fn dot_events(content: Seq<char>) -> Seq<GraphEventView> {
    let start = seq![GraphEventView::BatchStart];
    let body = if is_nested(content) {
        nested_events(content, start)
    } else {
        regular_events(content, start, includes(content, "digraph"@))
    };
    body.push(GraphEventView::BatchEnd)
}

/// Reads a DOT text into its events. No text is refused: what cannot be read
/// is passed over.
pub fn parse_dot_to_events(content: &str) -> (events: Vec<GraphEvent>)
    ensures
        events.deep_view() == dot_events(content@),
        is_one_batch(events.deep_view()),
        edges_join_added_nodes(events.deep_view()),
        match rankdir(content@) {
            Some(value) => if is_nested(content@) {
                sets_no_layout(events.deep_view()) && adds_elements_from(events.deep_view(), 1)
            } else {
                sets_layout_first(
                    events.deep_view(),
                    LayoutTypeView::Hierarchical { direction: rank_direction(value) },
                ) && adds_elements_from(events.deep_view(), 2)
            },
            None => sets_no_layout(events.deep_view()) && adds_elements_from(
                events.deep_view(),
                1,
            ),
        },
        !includes(content@, "rankdir"@) ==> sets_no_layout(events.deep_view()),
        is_nested(content@) ==> crate::dot::laws::is_parent_chain(events.deep_view()),
        !is_nested(content@) && crate::dot::laws::defines_no_node(content@) ==> {
            &&& added_edges(events.deep_view()) == crate::dot::laws::edges_of(
                lines(content@),
                includes(content@, "digraph"@),
            )
            &&& node_ids(events.deep_view()) == crate::dot::laws::first_seen(
                Seq::empty(),
                lines(content@),
                includes(content@, "digraph"@),
            )
            &&& node_ids(events.deep_view()).no_duplicates()
        },
{
    proof {
        if !includes(content@, "rankdir"@) {
            crate::dot::laws::lemma_no_rankdir_word_no_layout(content@);
        }
        if is_nested(content@) {
            crate::dot::laws::lemma_nested_events_are_parent_chains(content@);
        } else if crate::dot::laws::defines_no_node(content@) {
            crate::dot::laws::lemma_edges_and_nodes_in_order(content@);
        }
        crate::dot::laws::lemma_dot_events_are_one_batch(content@);
        crate::dot::laws::lemma_dot_edges_join_added_nodes(content@);
        if is_nested(content@) || rankdir(content@) is None {
            crate::dot::laws::lemma_no_rankdir_no_layout(content@);
        } else {
            crate::dot::laws::lemma_rankdir_sets_layout_once(content@, rankdir(content@)->0);
        }
    }
    let text = to_chars(content);
    let directed_arrow = to_chars("->");
    let plain_arrow = to_chars("--");
    let subgraph = to_chars("subgraph");
    let digraph = to_chars("digraph");
    let mut events: Vec<GraphEvent> = Vec::new();
    assert(events.deep_view() =~= Seq::empty());
    emit(&mut events, GraphEvent::BatchStart);
    assert(events.deep_view() =~= seq![GraphEventView::BatchStart]);
    let has_edges = contains(text.as_slice(), directed_arrow.as_slice()) || contains(
        text.as_slice(),
        plain_arrow.as_slice(),
    );
    if !has_edges && contains(text.as_slice(), subgraph.as_slice()) {
        parse_nested_subgraphs_to_events(text.as_slice(), &mut events);
    } else {
        let is_digraph = contains(text.as_slice(), digraph.as_slice());
        parse_regular_dot(text.as_slice(), &mut events, is_digraph);
    }
    emit(&mut events, GraphEvent::BatchEnd);
    events
}

} // verus!
