//! The event model: one format-free stream of graph mutations.
//!
//! Each executable type has a mathematical view (`deep_view`) in which strings
//! are sequences of characters and the custom properties are a map. Contracts
//! throughout the crate are stated over these views.

use crate::property_map::PropertyMap;
use vstd::prelude::*;
use vstd::string::StringExecFns;

verus! {

/// The kinds of state in a state machine.
#[derive(Debug, Clone, Copy, PartialEq, Eq, Structural)]
pub enum StateType {
    Initial,
    Final,
    Normal,
    Composite,
    History,
}

/// The kinds of message in a sequence diagram.
#[derive(Debug, Clone, Copy, PartialEq, Eq, Structural)]
pub enum MessageType {
    Synchronous,
    Asynchronous,
    Return,
    Create,
    Destroy,
}

/// The four directions in which a layout can run.
#[derive(Debug, Clone, Copy, PartialEq, Eq, Structural)]
pub enum Direction {
    TopToBottom,
    BottomToTop,
    LeftToRight,
    RightToLeft,
}

/// A single-precision number, carried as its IEEE-754 bit pattern.
///
/// The library passes such numbers through and never computes with them.
#[derive(Debug, Clone, Copy, PartialEq, Eq, Structural)]
pub struct Scalar {
    pub bits: u32,
}

/// What a node stands for.
#[derive(Debug, Clone, PartialEq, Eq)]
pub enum NodeType {
    /// A plain node.
    Node,
    /// An actor or participant of a sequence diagram.
    Actor { actor_type: String },
    /// A state of a state machine.
    State { state_type: StateType },
    /// A process or activity.
    Process,
    /// A data store.
    DataStore,
    /// An external entity.
    External,
    /// Any other kind, by name.
    Custom(String),
}

/// The view of a [`NodeType`].
pub enum NodeTypeView {
    Node,
    Actor { actor_type: Seq<char> },
    State { state_type: StateType },
    Process,
    DataStore,
    External,
    Custom(Seq<char>),
}

impl DeepView for NodeType {
    type V = NodeTypeView;

    open spec fn deep_view(&self) -> NodeTypeView {
        match self {
            NodeType::Node => NodeTypeView::Node,
            NodeType::Actor { actor_type } => NodeTypeView::Actor { actor_type: actor_type@ },
            NodeType::State { state_type } => NodeTypeView::State { state_type: *state_type },
            NodeType::Process => NodeTypeView::Process,
            NodeType::DataStore => NodeTypeView::DataStore,
            NodeType::External => NodeTypeView::External,
            NodeType::Custom(name) => NodeTypeView::Custom(name@),
        }
    }
}

/// What an edge stands for.
#[derive(Debug, Clone, PartialEq, Eq)]
pub enum EdgeType {
    /// An edge with a direction.
    Directed,
    /// An edge without direction.
    Undirected,
    /// An edge that runs both ways.
    Bidirectional,
    /// A message of a sequence diagram, with its place in the order of messages.
    Message { message_type: MessageType, sequence: Option<u32> },
    /// A transition of a state machine.
    Transition { trigger: Option<String>, guard: Option<String>, action: Option<String> },
    /// An association.
    Association { association_type: String },
    /// Any other kind, by name.
    Custom(String),
}

/// The view of an [`EdgeType`].
pub enum EdgeTypeView {
    Directed,
    Undirected,
    Bidirectional,
    Message { message_type: MessageType, sequence: Option<u32> },
    Transition { trigger: Option<Seq<char>>, guard: Option<Seq<char>>, action: Option<Seq<char>> },
    Association { association_type: Seq<char> },
    Custom(Seq<char>),
}

impl DeepView for EdgeType {
    type V = EdgeTypeView;

    open spec fn deep_view(&self) -> EdgeTypeView {
        match self {
            EdgeType::Directed => EdgeTypeView::Directed,
            EdgeType::Undirected => EdgeTypeView::Undirected,
            EdgeType::Bidirectional => EdgeTypeView::Bidirectional,
            EdgeType::Message { message_type, sequence } => EdgeTypeView::Message {
                message_type: *message_type,
                sequence: *sequence,
            },
            EdgeType::Transition { trigger, guard, action } => EdgeTypeView::Transition {
                trigger: trigger.deep_view(),
                guard: guard.deep_view(),
                action: action.deep_view(),
            },
            EdgeType::Association { association_type } => EdgeTypeView::Association {
                association_type: association_type@,
            },
            EdgeType::Custom(name) => EdgeTypeView::Custom(name@),
        }
    }
}

/// How the members of a group belong together.
#[derive(Debug, Clone, PartialEq, Eq)]
pub enum GroupType {
    /// A logical grouping.
    Cluster,
    /// A sequential grouping, such as the fragments of a sequence diagram.
    Sequential { sequence_type: String },
    /// Members that run in parallel.
    Parallel,
    /// Hierarchical containment.
    Container,
    /// Any other kind, by name.
    Custom(String),
}

/// The view of a [`GroupType`].
pub enum GroupTypeView {
    Cluster,
    Sequential { sequence_type: Seq<char> },
    Parallel,
    Container,
    Custom(Seq<char>),
}

impl DeepView for GroupType {
    type V = GroupTypeView;

    open spec fn deep_view(&self) -> GroupTypeView {
        match self {
            GroupType::Cluster => GroupTypeView::Cluster,
            GroupType::Sequential { sequence_type } => GroupTypeView::Sequential {
                sequence_type: sequence_type@,
            },
            GroupType::Parallel => GroupTypeView::Parallel,
            GroupType::Container => GroupTypeView::Container,
            GroupType::Custom(name) => GroupTypeView::Custom(name@),
        }
    }
}

/// A hint on how to lay the graph out.
#[derive(Debug, Clone, PartialEq, Eq)]
pub enum LayoutType {
    /// Trees and organisational charts.
    Hierarchical { direction: Direction },
    /// Force-directed.
    Force,
    /// On a circle.
    Circular,
    /// On a grid.
    Grid { columns: Option<u32> },
    /// One after another, as in a sequence diagram.
    Sequential { direction: Direction },
    /// In layers, as in a workflow.
    Layered { direction: Direction },
    /// Any other layout, by name.
    Custom(String),
}

/// The view of a [`LayoutType`].
pub enum LayoutTypeView {
    Hierarchical { direction: Direction },
    Force,
    Circular,
    Grid { columns: Option<u32> },
    Sequential { direction: Direction },
    Layered { direction: Direction },
    Custom(Seq<char>),
}

impl DeepView for LayoutType {
    type V = LayoutTypeView;

    open spec fn deep_view(&self) -> LayoutTypeView {
        match self {
            LayoutType::Hierarchical { direction } => LayoutTypeView::Hierarchical {
                direction: *direction,
            },
            LayoutType::Force => LayoutTypeView::Force,
            LayoutType::Circular => LayoutTypeView::Circular,
            LayoutType::Grid { columns } => LayoutTypeView::Grid { columns: *columns },
            LayoutType::Sequential { direction } => LayoutTypeView::Sequential {
                direction: *direction,
            },
            LayoutType::Layered { direction } => LayoutTypeView::Layered { direction: *direction },
            LayoutType::Custom(name) => LayoutTypeView::Custom(name@),
        }
    }
}

/// How an element is drawn.
#[derive(Debug, Clone, PartialEq, Eq)]
pub struct Style {
    pub color: Option<String>,
    pub background_color: Option<String>,
    pub border_style: Option<String>,
    pub border_color: Option<String>,
    pub border_width: Option<Scalar>,
    pub shape: Option<String>,
    pub size: Option<Scalar>,
    pub font_size: Option<Scalar>,
    pub font_family: Option<String>,
    pub opacity: Option<Scalar>,
}

/// The view of a [`Style`].
pub struct StyleView {
    pub color: Option<Seq<char>>,
    pub background_color: Option<Seq<char>>,
    pub border_style: Option<Seq<char>>,
    pub border_color: Option<Seq<char>>,
    pub border_width: Option<Scalar>,
    pub shape: Option<Seq<char>>,
    pub size: Option<Scalar>,
    pub font_size: Option<Scalar>,
    pub font_family: Option<Seq<char>>,
    pub opacity: Option<Scalar>,
}

impl DeepView for Style {
    type V = StyleView;

    open spec fn deep_view(&self) -> StyleView {
        StyleView {
            color: self.color.deep_view(),
            background_color: self.background_color.deep_view(),
            border_style: self.border_style.deep_view(),
            border_color: self.border_color.deep_view(),
            border_width: self.border_width,
            shape: self.shape.deep_view(),
            size: self.size,
            font_size: self.font_size,
            font_family: self.font_family.deep_view(),
            opacity: self.opacity,
        }
    }
}

/// Where an element is placed.
#[derive(Debug, Clone, PartialEq, Eq)]
pub enum Position {
    /// At given coordinates.
    Absolute { x: Scalar, y: Scalar, z: Option<Scalar> },
    /// At an offset from another element.
    Relative { anchor: String, offset_x: Scalar, offset_y: Scalar, offset_z: Option<Scalar> },
    /// In a cell of a grid.
    Grid { row: u32, column: u32 },
    /// At a place in a sequence.
    Sequential { order: u32 },
    /// On a level of a hierarchy.
    Layer { level: u32 },
}

/// The view of a [`Position`].
pub enum PositionView {
    Absolute { x: Scalar, y: Scalar, z: Option<Scalar> },
    Relative { anchor: Seq<char>, offset_x: Scalar, offset_y: Scalar, offset_z: Option<Scalar> },
    Grid { row: u32, column: u32 },
    Sequential { order: u32 },
    Layer { level: u32 },
}

impl DeepView for Position {
    type V = PositionView;

    open spec fn deep_view(&self) -> PositionView {
        match self {
            Position::Absolute { x, y, z } => PositionView::Absolute { x: *x, y: *y, z: *z },
            Position::Relative { anchor, offset_x, offset_y, offset_z } => PositionView::Relative {
                anchor: anchor@,
                offset_x: *offset_x,
                offset_y: *offset_y,
                offset_z: *offset_z,
            },
            Position::Grid { row, column } => PositionView::Grid { row: *row, column: *column },
            Position::Sequential { order } => PositionView::Sequential { order: *order },
            Position::Layer { level } => PositionView::Layer { level: *level },
        }
    }
}

/// What can be attached to any element: a style, a position, and custom
/// key-value pairs.
#[derive(Debug, Clone, PartialEq, Eq)]
pub struct Properties {
    pub style: Option<Style>,
    pub position: Option<Position>,
    pub custom: PropertyMap,
}

/// The view of [`Properties`].
pub struct PropertiesView {
    pub style: Option<StyleView>,
    pub position: Option<PositionView>,
    pub custom: Map<Seq<char>, Seq<char>>,
}

impl PropertiesView {
    /// No style, no position, no custom pairs.
    pub open spec fn empty() -> PropertiesView {
        PropertiesView { style: None, position: None, custom: Map::empty() }
    }

    /// A position and nothing else.
    pub open spec fn at(position: PositionView) -> PropertiesView {
        PropertiesView { style: None, position: Some(position), custom: Map::empty() }
    }
}

impl DeepView for Properties {
    type V = PropertiesView;

    open spec fn deep_view(&self) -> PropertiesView {
        PropertiesView {
            style: self.style.deep_view(),
            position: self.position.deep_view(),
            custom: self.custom.deep_view(),
        }
    }
}

impl Default for Properties {
    fn default() -> (p: Self)
        ensures
            p.deep_view() == PropertiesView::empty(),
    {
        Properties { style: None, position: None, custom: PropertyMap::new() }
    }
}

impl Properties {
    /// Properties that hold a position and nothing else.
    pub fn at(position: Position) -> (p: Self)
        ensures
            p.deep_view() == PropertiesView::at(position.deep_view()),
    {
        Properties { style: None, position: Some(position), custom: PropertyMap::new() }
    }
}

/// One mutation of a graph.
#[derive(Debug, Clone, PartialEq, Eq)]
pub enum GraphEvent {
    /// Add a node.
    AddNode { id: String, label: Option<String>, node_type: NodeType, properties: Properties },
    /// Change a node.
    UpdateNode { id: String, label: Option<String>, properties: Properties },
    /// Remove a node.
    RemoveNode { id: String },
    /// Add an edge between two nodes.
    AddEdge {
        id: String,
        from: String,
        to: String,
        edge_type: EdgeType,
        label: Option<String>,
        properties: Properties,
    },
    /// Change an edge.
    UpdateEdge { id: String, label: Option<String>, properties: Properties },
    /// Remove an edge.
    RemoveEdge { id: String },
    /// Put nodes into a group.
    AddGroup {
        id: String,
        label: Option<String>,
        members: Vec<String>,
        group_type: GroupType,
        properties: Properties,
    },
    /// Change the members of a group.
    UpdateGroup { id: String, members: Vec<String> },
    /// Remove a group.
    RemoveGroup { id: String },
    /// Hint at a layout.
    SetLayout { layout_type: LayoutType, properties: Properties },
    /// Remove everything.
    Clear,
    /// The first event of a batch.
    BatchStart,
    /// The last event of a batch.
    BatchEnd,
}

/// The view of a [`GraphEvent`].
pub enum GraphEventView {
    AddNode {
        id: Seq<char>,
        label: Option<Seq<char>>,
        node_type: NodeTypeView,
        properties: PropertiesView,
    },
    UpdateNode { id: Seq<char>, label: Option<Seq<char>>, properties: PropertiesView },
    RemoveNode { id: Seq<char> },
    AddEdge {
        id: Seq<char>,
        from: Seq<char>,
        to: Seq<char>,
        edge_type: EdgeTypeView,
        label: Option<Seq<char>>,
        properties: PropertiesView,
    },
    UpdateEdge { id: Seq<char>, label: Option<Seq<char>>, properties: PropertiesView },
    RemoveEdge { id: Seq<char> },
    AddGroup {
        id: Seq<char>,
        label: Option<Seq<char>>,
        members: Seq<Seq<char>>,
        group_type: GroupTypeView,
        properties: PropertiesView,
    },
    UpdateGroup { id: Seq<char>, members: Seq<Seq<char>> },
    RemoveGroup { id: Seq<char> },
    SetLayout { layout_type: LayoutTypeView, properties: PropertiesView },
    Clear,
    BatchStart,
    BatchEnd,
}

impl DeepView for GraphEvent {
    type V = GraphEventView;

    open spec fn deep_view(&self) -> GraphEventView {
        match self {
            GraphEvent::AddNode { id, label, node_type, properties } => GraphEventView::AddNode {
                id: id@,
                label: label.deep_view(),
                node_type: node_type.deep_view(),
                properties: properties.deep_view(),
            },
            GraphEvent::UpdateNode { id, label, properties } => GraphEventView::UpdateNode {
                id: id@,
                label: label.deep_view(),
                properties: properties.deep_view(),
            },
            GraphEvent::RemoveNode { id } => GraphEventView::RemoveNode { id: id@ },
            GraphEvent::AddEdge { id, from, to, edge_type, label, properties } => {
                GraphEventView::AddEdge {
                    id: id@,
                    from: from@,
                    to: to@,
                    edge_type: edge_type.deep_view(),
                    label: label.deep_view(),
                    properties: properties.deep_view(),
                }
            },
            GraphEvent::UpdateEdge { id, label, properties } => GraphEventView::UpdateEdge {
                id: id@,
                label: label.deep_view(),
                properties: properties.deep_view(),
            },
            GraphEvent::RemoveEdge { id } => GraphEventView::RemoveEdge { id: id@ },
            GraphEvent::AddGroup { id, label, members, group_type, properties } => {
                GraphEventView::AddGroup {
                    id: id@,
                    label: label.deep_view(),
                    members: members.deep_view(),
                    group_type: group_type.deep_view(),
                    properties: properties.deep_view(),
                }
            },
            GraphEvent::UpdateGroup { id, members } => GraphEventView::UpdateGroup {
                id: id@,
                members: members.deep_view(),
            },
            GraphEvent::RemoveGroup { id } => GraphEventView::RemoveGroup { id: id@ },
            GraphEvent::SetLayout { layout_type, properties } => GraphEventView::SetLayout {
                layout_type: layout_type.deep_view(),
                properties: properties.deep_view(),
            },
            GraphEvent::Clear => GraphEventView::Clear,
            GraphEvent::BatchStart => GraphEventView::BatchStart,
            GraphEvent::BatchEnd => GraphEventView::BatchEnd,
        }
    }
}

/// What came of applying an event.
#[derive(Debug, Clone, PartialEq, Eq)]
pub enum EventResult {
    /// The event was applied.
    Success,
    /// The node is there already.
    NodeExists(String),
    /// There is no such node.
    NodeNotFound(String),
    /// The edge is there already.
    EdgeExists(String),
    /// There is no such edge.
    EdgeNotFound(String),
    /// The event cannot be applied.
    Invalid(String),
}

/// The view of an [`EventResult`].
pub enum EventResultView {
    Success,
    NodeExists(Seq<char>),
    NodeNotFound(Seq<char>),
    EdgeExists(Seq<char>),
    EdgeNotFound(Seq<char>),
    Invalid(Seq<char>),
}

impl DeepView for EventResult {
    type V = EventResultView;

    open spec fn deep_view(&self) -> EventResultView {
        match self {
            EventResult::Success => EventResultView::Success,
            EventResult::NodeExists(id) => EventResultView::NodeExists(id@),
            EventResult::NodeNotFound(id) => EventResultView::NodeNotFound(id@),
            EventResult::EdgeExists(id) => EventResultView::EdgeExists(id@),
            EventResult::EdgeNotFound(id) => EventResultView::EdgeNotFound(id@),
            EventResult::Invalid(what) => EventResultView::Invalid(what@),
        }
    }
}

/// The event that adds a plain node with a label and no properties.
pub open spec fn plain_node(id: Seq<char>, label: Seq<char>) -> GraphEventView {
    GraphEventView::AddNode {
        id,
        label: Some(label),
        node_type: NodeTypeView::Node,
        properties: PropertiesView::empty(),
    }
}

/// The event that adds an unlabelled edge of the given type, named by its two
/// ends with `arrow` between them.
pub open spec fn plain_edge(
    from: Seq<char>,
    arrow: Seq<char>,
    to: Seq<char>,
    edge_type: EdgeTypeView,
) -> GraphEventView {
    GraphEventView::AddEdge {
        id: from + arrow + to,
        from,
        to,
        edge_type,
        label: None,
        properties: PropertiesView::empty(),
    }
}

impl GraphEvent {
    /// An `AddNode` for a plain node.
    pub fn simple_node(id: &str, label: &str) -> (event: Self)
        ensures
            event.deep_view() == plain_node(id@, label@),
    {
        GraphEvent::AddNode {
            id: id.to_owned(),
            label: Some(label.to_owned()),
            node_type: NodeType::Node,
            properties: Properties::default(),
        }
    }

    /// An `AddEdge` for a directed edge, whose id is `from`, `->` and `to`.
    pub fn simple_edge(from: &str, to: &str) -> (event: Self)
        ensures
            event.deep_view() == plain_edge(from@, "->"@, to@, EdgeTypeView::Directed),
    {
        let mut id = from.to_owned();
        id.append("->");
        id.append(to);
        GraphEvent::AddEdge {
            id,
            from: from.to_owned(),
            to: to.to_owned(),
            edge_type: EdgeType::Directed,
            label: None,
            properties: Properties::default(),
        }
    }
}

/// Appends `event` to `events`.
pub fn emit(events: &mut Vec<GraphEvent>, event: GraphEvent)
    ensures
        final(events).deep_view() == old(events).deep_view().push(event.deep_view()),
{
    events.push(event);
    assert(events.deep_view() =~= old(events).deep_view().push(event.deep_view()));
}

impl GraphEventView {
    /// Whether the event opens or closes a batch.
    pub open spec fn is_batch_mark(self) -> bool {
        self is BatchStart || self is BatchEnd
    }

    /// Whether the event adds a node or an edge.
    pub open spec fn adds_element(self) -> bool {
        self is AddNode || self is AddEdge
    }
}

/// Whether a stream is one batch: its first event is `BatchStart`, its last is
/// `BatchEnd`, and no event between them is either of the two.
pub open spec fn is_one_batch(events: Seq<GraphEventView>) -> bool {
    &&& events.len() >= 2
    &&& events.first() == GraphEventView::BatchStart
    &&& events.last() == GraphEventView::BatchEnd
    &&& forall|i: int| 0 < i < events.len() - 1 ==> !(#[trigger] events[i]).is_batch_mark()
}

/// Whether a stream sets the layout exactly once, with its second event, and
/// to `layout`: the hint precedes whatever the stream adds.
pub open spec fn sets_layout_first(events: Seq<GraphEventView>, layout: LayoutTypeView) -> bool {
    &&& events.len() >= 3
    &&& events[1] == GraphEventView::SetLayout { layout_type: layout, properties: PropertiesView::empty() }
    &&& forall|i: int| 0 <= i < events.len() && i != 1 ==> !(#[trigger] events[i] is SetLayout)
}

/// Whether the events of a stream from index `from` up to the last, which is
/// left out, all add a node or an edge.
pub open spec fn adds_elements_from(events: Seq<GraphEventView>, from: int) -> bool {
    forall|i: int| from <= i < events.len() - 1 ==> (#[trigger] events[i]).adds_element()
}

/// Whether a stream holds no `SetLayout` event.
pub open spec fn sets_no_layout(events: Seq<GraphEventView>) -> bool {
    forall|i: int| 0 <= i < events.len() ==> !(#[trigger] events[i] is SetLayout)
}

/// Whether `after` is `before` followed by events that all satisfy `allowed`.
pub open spec fn continues(
    before: Seq<GraphEventView>,
    after: Seq<GraphEventView>,
    allowed: spec_fn(GraphEventView) -> bool,
) -> bool {
    &&& before.len() <= after.len()
    &&& after.subrange(0, before.len() as int) == before
    &&& forall|i: int| before.len() <= i < after.len() ==> allowed(#[trigger] after[i])
}

/// Every stream continues itself.
pub proof fn lemma_continues_itself(
    events: Seq<GraphEventView>,
    allowed: spec_fn(GraphEventView) -> bool,
)
    ensures
        continues(events, events, allowed),
{
    assert(events.subrange(0, events.len() as int) =~= events);
}

/// A continuation of a continuation is a continuation.
pub proof fn lemma_continues_transitive(
    first: Seq<GraphEventView>,
    second: Seq<GraphEventView>,
    third: Seq<GraphEventView>,
    allowed: spec_fn(GraphEventView) -> bool,
)
    requires
        continues(first, second, allowed),
        continues(second, third, allowed),
    ensures
        continues(first, third, allowed),
{
    assert(third.subrange(0, first.len() as int) =~= first) by {
        assert forall|i: int| 0 <= i < first.len() implies third[i] == first[i] by {
            assert(third.subrange(0, second.len() as int)[i] == second[i]);
            assert(second.subrange(0, first.len() as int)[i] == first[i]);
        }
    }
    assert forall|i: int| first.len() <= i < third.len() implies allowed(#[trigger] third[i]) by {
        if i < second.len() {
            assert(third.subrange(0, second.len() as int)[i] == second[i]);
        }
    }
}

/// Appending one allowed event continues a sequence.
pub proof fn lemma_continues_push(
    before: Seq<GraphEventView>,
    event: GraphEventView,
    allowed: spec_fn(GraphEventView) -> bool,
)
    requires
        allowed(event),
    ensures
        continues(before, before.push(event), allowed),
{
    assert(before.push(event).subrange(0, before.len() as int) =~= before);
}

/// The id of the node that an event adds, if it adds one.
pub open spec fn added_node(event: GraphEventView) -> Option<Seq<char>> {
    match event {
        GraphEventView::AddNode { id, .. } => Some(id),
        _ => None,
    }
}

/// Whether one of the first `upto` events adds the node `id`.
pub open spec fn introduces(events: Seq<GraphEventView>, upto: int, id: Seq<char>) -> bool {
    exists|j: int| 0 <= j < upto && j < events.len() && added_node(#[trigger] events[j]) == Some(id)
}

/// Whether an event, if it adds an edge, has both ends among the nodes that
/// the first `upto` events of `events` add.
pub open spec fn joins_added_nodes(events: Seq<GraphEventView>, upto: int, event: GraphEventView) -> bool {
    event matches GraphEventView::AddEdge { from, to, .. } ==> introduces(events, upto, from)
        && introduces(events, upto, to)
}

/// Whether every edge of a stream runs between nodes that earlier events of
/// the stream added.
pub open spec fn edges_join_added_nodes(events: Seq<GraphEventView>) -> bool {
    forall|i: int| 0 <= i < events.len() ==> joins_added_nodes(events, i, #[trigger] events[i])
}

/// What earlier events introduce, later events leave introduced.
pub proof fn lemma_introduces_stays(
    events: Seq<GraphEventView>,
    upto: int,
    longer: Seq<GraphEventView>,
    further: int,
    id: Seq<char>,
)
    requires
        introduces(events, upto, id),
        upto <= further,
        events.len() <= longer.len(),
        longer.subrange(0, events.len() as int) == events,
    ensures
        introduces(longer, further, id),
{
    let j = choose|j: int| 0 <= j < upto && j < events.len() && added_node(#[trigger] events[j])
        == Some(id);
    assert(longer.subrange(0, events.len() as int)[j] == longer[j]);
    assert(added_node(longer[j]) == Some(id));
}

/// A stream whose edges join added nodes stays so when an event is appended
/// that adds no edge, or an edge between nodes that the stream adds.
pub proof fn lemma_push_keeps_edges_joined(events: Seq<GraphEventView>, event: GraphEventView)
    requires
        edges_join_added_nodes(events),
        joins_added_nodes(events, events.len() as int, event),
    ensures
        edges_join_added_nodes(events.push(event)),
        forall|id: Seq<char>|
            introduces(events, events.len() as int, id) ==> #[trigger] introduces(
                events.push(event),
                (events.len() + 1) as int,
                id,
            ),
        forall|id: Seq<char>|
            added_node(event) == Some(id) ==> #[trigger] introduces(
                events.push(event),
                (events.len() + 1) as int,
                id,
            ),
{
    let longer = events.push(event);
    assert(longer.subrange(0, events.len() as int) =~= events);
    assert forall|i: int| 0 <= i < longer.len() implies joins_added_nodes(
        longer,
        i,
        #[trigger] longer[i],
    ) by {
        if i < events.len() {
            assert(longer[i] == events[i]);
            assert(joins_added_nodes(events, i, events[i]));
        }
        if let GraphEventView::AddEdge { from, to, .. } = longer[i] {
            lemma_introduces_stays(events, i, longer, i, from);
            lemma_introduces_stays(events, i, longer, i, to);
        }
    }
    assert forall|id: Seq<char>| introduces(events, events.len() as int, id) implies #[trigger] introduces(
        longer,
        (events.len() + 1) as int,
        id,
    ) by {
        lemma_introduces_stays(events, events.len() as int, longer, (events.len() + 1) as int, id);
    }
    assert forall|id: Seq<char>| added_node(event) == Some(id) implies #[trigger] introduces(
        longer,
        (events.len() + 1) as int,
        id,
    ) by {
        assert(added_node(longer[events.len() as int]) == Some(id));
    }
}

/// Whether every id in `known` is that of a node that `events` adds.
pub open spec fn known_are_added(known: Set<Seq<char>>, events: Seq<GraphEventView>) -> bool {
    forall|id: Seq<char>| #[trigger] known.contains(id) ==> introduces(events, events.len() as int, id)
}

/// Appending an event to a stream whose edges join added nodes and whose
/// known ids are those of added nodes: both stay so, also with the id of the
/// node that the event adds among the known ones.
pub proof fn lemma_push_keeps_known_added(
    known: Set<Seq<char>>,
    events: Seq<GraphEventView>,
    event: GraphEventView,
)
    requires
        edges_join_added_nodes(events),
        known_are_added(known, events),
        joins_added_nodes(events, events.len() as int, event),
    ensures
        edges_join_added_nodes(events.push(event)),
        known_are_added(known, events.push(event)),
        forall|id: Seq<char>|
            added_node(event) == Some(id) ==> known_are_added(
                #[trigger] known.insert(id),
                events.push(event),
            ),
{
    lemma_push_keeps_edges_joined(events, event);
    let longer = events.push(event);
    assert forall|id: Seq<char>| #[trigger] known.contains(id) implies introduces(
        longer,
        longer.len() as int,
        id,
    ) by {
        assert(introduces(longer, (events.len() + 1) as int, id));
    }
    assert forall|id: Seq<char>| added_node(event) == Some(id) implies known_are_added(
        #[trigger] known.insert(id),
        longer,
    ) by {
        assert(introduces(longer, (events.len() + 1) as int, id));
        assert forall|other: Seq<char>| #[trigger]
            known.insert(id).contains(other) implies introduces(
            longer,
            longer.len() as int,
            other,
        ) by {
            if other != id {
                assert(known.contains(other));
            }
        }
    }
}

/// The ids of the nodes that a stream adds, in the order of the events.
pub open spec fn node_ids(events: Seq<GraphEventView>) -> Seq<Seq<char>>
    decreases events.len(),
{
    if events.len() == 0 {
        Seq::empty()
    } else {
        match added_node(events.last()) {
            Some(id) => node_ids(events.drop_last()).push(id),
            None => node_ids(events.drop_last()),
        }
    }
}

/// The two ends of the edge that an event adds, if it adds one.
pub open spec fn added_edge(event: GraphEventView) -> Option<(Seq<char>, Seq<char>)> {
    match event {
        GraphEventView::AddEdge { from, to, .. } => Some((from, to)),
        _ => None,
    }
}

/// The ends of the edges that a stream adds, in the order of the events.
pub open spec fn added_edges(events: Seq<GraphEventView>) -> Seq<(Seq<char>, Seq<char>)>
    decreases events.len(),
{
    if events.len() == 0 {
        Seq::empty()
    } else {
        match added_edge(events.last()) {
            Some(ends) => added_edges(events.drop_last()).push(ends),
            None => added_edges(events.drop_last()),
        }
    }
}

/// What one more event adds to the node ids and the edges of a stream.
pub proof fn lemma_ids_and_edges_of_push(events: Seq<GraphEventView>, event: GraphEventView)
    ensures
        node_ids(events.push(event)) == match added_node(event) {
            Some(id) => node_ids(events).push(id),
            None => node_ids(events),
        },
        added_edges(events.push(event)) == match added_edge(event) {
            Some(ends) => added_edges(events).push(ends),
            None => added_edges(events),
        },
{
    assert(events.push(event).drop_last() =~= events);
}

} // verus!
