//! Turns the statements of a sequence diagram into graph events.
//!
//! Participants become nodes, in the order in which they are first met;
//! messages become edges, numbered in the order in which they are sent. A
//! participant that a message names before any declaration is declared on the
//! spot.

use crate::events::{
    edges_join_added_nodes, emit, is_one_batch, sets_layout_first, Direction, EdgeType,
    EdgeTypeView, GraphEvent, GraphEventView, LayoutType, LayoutTypeView, MessageType, NodeType,
    NodeTypeView, Position, PositionView, Properties, PropertiesView,
};
use crate::plantuml::laws::has_unknown_arrow;
use crate::plantuml::grammar::{diagram, read_diagram, Statement, StatementView, SyntaxError};
use crate::plantuml::types::{arrow_of, ArrowType};
use crate::property_map::PropertyMap;
use crate::text::{decimal, push_all, push_decimal, spells, to_chars, to_string};
use vstd::hash_map::StringHashMap;
use vstd::hash_set::StringHashSet;
use vstd::prelude::*;
use vstd::string::StringExecFns;

verus! {

/// The grammar of sequence diagrams, as a reader of texts.
#[derive(Debug, Clone, Copy, PartialEq, Eq, Structural)]
pub struct PlantUMLParser;

impl PlantUMLParser {
    /// Reads the statements of the diagram that `input` writes.
    pub fn parse(input: &str) -> (r: Result<Vec<Statement>, SyntaxError>)
        ensures
            match r {
                Ok(statements) => diagram(input@) == Ok::<Seq<StatementView>, SyntaxError>(
                    statements.deep_view(),
                ),
                Err(error) => diagram(input@) == Err::<Seq<StatementView>, SyntaxError>(error),
            },
    {
        let text = to_chars(input);
        read_diagram(text.as_slice())
    }
}

/// What to say of a text that is no sequence diagram.
pub open spec fn syntax_message(error: SyntaxError) -> Seq<char> {
    "Parse error: "@ + match error {
        SyntaxError::MissingStart => "expected @startuml"@,
        SyntaxError::MissingEnd => "expected @enduml"@,
        SyntaxError::Unrecognized { line } => "line "@ + decimal(line as nat)
            + ": unrecognized statement"@,
        SyntaxError::Trailing { line } => "line "@ + decimal(line as nat)
            + ": text after @enduml"@,
    }
}

/// What to say of an arrow that has none of the known shapes.
pub open spec fn arrow_message(arrow: Seq<char>) -> Seq<char> {
    "Unknown arrow type: "@ + arrow
}

/// The counter after `n`; it stays at `u32::MAX`.
pub open spec fn next(n: u32) -> u32 {
    if n < u32::MAX {
        (n + 1) as u32
    } else {
        n
    }
}

/// How far the reading of a diagram has come.
pub struct Progress {
    /// The place in the sequence that the next new participant gets.
    pub order: u32,
    /// The number that the next message gets.
    pub sequence: u32,
    /// The id that each alias stands for.
    pub aliases: Map<Seq<char>, Seq<char>>,
    /// The ids of the participants that have a node.
    pub known: Set<Seq<char>>,
    /// The events emitted.
    pub events: Seq<GraphEventView>,
}

/// The kind of node that a participant keyword declares.
pub open spec fn participant_kind(keyword: Seq<char>) -> NodeTypeView {
    if keyword == "actor"@ {
        NodeTypeView::Actor { actor_type: "human"@ }
    } else if keyword == "database"@ {
        NodeTypeView::DataStore
    } else if keyword == "entity"@ {
        NodeTypeView::External
    } else if keyword == "boundary"@ || keyword == "control"@ {
        NodeTypeView::Process
    } else {
        NodeTypeView::Actor { actor_type: keyword }
    }
}

/// The node of a participant, at a place in the sequence.
pub open spec fn participant_node(
    id: Seq<char>,
    label: Seq<char>,
    node_type: NodeTypeView,
    order: u32,
) -> GraphEventView {
    GraphEventView::AddNode {
        id,
        label: Some(label),
        node_type,
        properties: PropertiesView::at(PositionView::Sequential { order }),
    }
}

/// The progress after a participant declaration: the alias, if any, is
/// recorded and becomes the label; the node gets the next place.
pub open spec fn declare_participant(
    progress: Progress,
    keyword: Seq<char>,
    id: Seq<char>,
    alias: Option<Seq<char>>,
) -> Progress {
    Progress {
        order: next(progress.order),
        aliases: match alias {
            Some(name) => progress.aliases.insert(name, id),
            None => progress.aliases,
        },
        known: progress.known.insert(id),
        events: progress.events.push(
            participant_node(
                id,
                match alias {
                    Some(name) => name,
                    None => id,
                },
                participant_kind(keyword),
                progress.order,
            ),
        ),
        ..progress
    }
}

/// The id that `name` stands for: what it is an alias of, or itself.
pub open spec fn resolve(aliases: Map<Seq<char>, Seq<char>>, name: Seq<char>) -> Seq<char> {
    if aliases.dom().contains(name) {
        aliases[name]
    } else {
        name
    }
}

/// The progress after a message named the participant `name`: where its id
/// has no node yet, it gets one, labelled `name`, at the next place.
pub open spec fn mention(progress: Progress, name: Seq<char>) -> Progress {
    let id = resolve(progress.aliases, name);
    if progress.known.contains(id) {
        progress
    } else {
        Progress {
            order: next(progress.order),
            known: progress.known.insert(id),
            events: progress.events.push(
                participant_node(
                    id,
                    name,
                    NodeTypeView::Actor { actor_type: "participant"@ },
                    progress.order,
                ),
            ),
            ..progress
        }
    }
}

/// The edge of the message with number `sequence`.
pub open spec fn message_edge(
    from: Seq<char>,
    to: Seq<char>,
    message_type: MessageType,
    sequence: u32,
    text: Seq<char>,
) -> GraphEventView {
    GraphEventView::AddEdge {
        id: "msg-"@ + decimal(sequence as nat),
        from,
        to,
        edge_type: EdgeTypeView::Message { message_type, sequence: Some(sequence) },
        label: if text.len() == 0 {
            None
        } else {
            Some(text)
        },
        properties: PropertiesView::empty(),
    }
}

/// The progress after a message: an arrow that points leftwards swaps the two
/// sides; sender and receiver are mentioned, in this order; the edge runs
/// between their ids and takes the next number.
pub open spec fn send(
    progress: Progress,
    left: Seq<char>,
    arrow: ArrowType,
    right: Seq<char>,
    text: Seq<char>,
) -> Progress {
    let sender = if arrow.reversed() {
        right
    } else {
        left
    };
    let receiver = if arrow.reversed() {
        left
    } else {
        right
    };
    let mentioned = mention(mention(progress, sender), receiver);
    Progress {
        sequence: next(progress.sequence),
        events: mentioned.events.push(
            message_edge(
                resolve(progress.aliases, sender),
                resolve(progress.aliases, receiver),
                arrow.message_type(),
                progress.sequence,
                text,
            ),
        ),
        ..mentioned
    }
}

/// The event that marks the participant `id` as activated or not.
pub open spec fn activation_event(id: Seq<char>, active: bool) -> GraphEventView {
    GraphEventView::UpdateNode {
        id,
        label: None,
        properties: PropertiesView {
            style: None,
            position: None,
            custom: Map::<Seq<char>, Seq<char>>::empty().insert(
                "activated"@,
                if active {
                    "true"@
                } else {
                    "false"@
                },
            ),
        },
    }
}

/// The progress after one more statement, or the complaint about its arrow.
pub open spec fn step(progress: Progress, statement: StatementView) -> Result<Progress, Seq<char>> {
    match statement {
        StatementView::Participant { kind, id, alias } => Ok(
            declare_participant(progress, kind, id, alias),
        ),
        StatementView::Message { left, arrow, right, text } => match arrow_of(arrow) {
            Some(shape) => Ok(send(progress, left, shape, right, text)),
            None => Err(arrow_message(arrow)),
        },
        StatementView::Activate { id } => Ok(
            Progress { events: progress.events.push(activation_event(id, true)), ..progress },
        ),
        StatementView::Deactivate { id } => Ok(
            Progress { events: progress.events.push(activation_event(id, false)), ..progress },
        ),
        StatementView::Other => Ok(progress),
    }
}

/// The progress after all of `statements`, or the first complaint.
pub open spec fn run(statements: Seq<StatementView>, start: Progress) -> Result<
    Progress,
    Seq<char>,
>
    decreases statements.len(),
{
    if statements.len() == 0 {
        Ok(start)
    } else {
        match run(statements.drop_last(), start) {
            Ok(progress) => step(progress, statements.last()),
            Err(complaint) => Err(complaint),
        }
    }
}

/// The progress before the first statement: the batch is open and the layout
/// is set to a sequence that runs from left to right.
pub open spec fn opening() -> Progress {
    Progress {
        order: 0,
        sequence: 0,
        aliases: Map::empty(),
        known: Set::empty(),
        events: seq![
            GraphEventView::BatchStart,
            GraphEventView::SetLayout {
                layout_type: LayoutTypeView::Sequential { direction: Direction::LeftToRight },
                properties: PropertiesView::empty(),
            },
        ],
    }
}

/// The events of the diagram that `text` writes, or the message that says why
/// there are none.
pub open spec fn diagram_events(text: Seq<char>) -> Result<Seq<GraphEventView>, Seq<char>> {
    match diagram(text) {
        Ok(statements) => match run(statements, opening()) {
            Ok(progress) => Ok(progress.events.push(GraphEventView::BatchEnd)),
            Err(complaint) => Err(complaint),
        },
        Err(error) => Err(syntax_message(error)),
    }
}

/// The bookkeeping of one reading of a diagram.
pub struct Tracker {
    /// The place in the sequence that the next new participant gets.
    pub participant_order: u32,
    /// The number that the next message gets.
    pub sequence_number: u32,
    /// The id that each alias stands for.
    pub participants: StringHashMap<String>,
    /// The ids of the participants that have a node.
    pub known_ids: StringHashSet,
}

/// The ids that the aliases of a tracker stand for.
pub open spec fn alias_views(participants: Map<Seq<char>, String>) -> Map<Seq<char>, Seq<char>> {
    Map::new(|name: Seq<char>| participants.dom().contains(name), |name: Seq<char>| participants[name]@)
}

impl Tracker {
    /// The progress that the tracker and the events emitted amount to.
    pub open spec fn progress(&self, events: Seq<GraphEventView>) -> Progress {
        Progress {
            order: self.participant_order,
            sequence: self.sequence_number,
            aliases: alias_views(self.participants@),
            known: self.known_ids@,
            events,
        }
    }

    /// A tracker that has seen nothing.
    pub fn new() -> (tracker: Self)
        ensures
            tracker.participant_order == 0,
            tracker.sequence_number == 0,
            alias_views(tracker.participants@) == Map::<Seq<char>, Seq<char>>::empty(),
            tracker.known_ids@ == Set::<Seq<char>>::empty(),
    {
        let tracker = Tracker {
            participant_order: 0,
            sequence_number: 0,
            participants: StringHashMap::new(),
            known_ids: StringHashSet::new(),
        };
        assert(alias_views(tracker.participants@) =~= Map::<Seq<char>, Seq<char>>::empty());
        tracker
    }
}

/// The counter after `n`.
fn bump(n: u32) -> (m: u32)
    ensures
        m == next(n),
{
    if n < u32::MAX {
        n + 1
    } else {
        n
    }
}

/// The kind of node that a participant keyword declares.
fn node_type_of(keyword: &String) -> (node_type: NodeType)
    ensures
        node_type.deep_view() == participant_kind(keyword@),
{
    let letters = to_chars(keyword.as_str());
    if spells(letters.as_slice(), "actor") {
        NodeType::Actor { actor_type: "human".to_owned() }
    } else if spells(letters.as_slice(), "database") {
        NodeType::DataStore
    } else if spells(letters.as_slice(), "entity") {
        NodeType::External
    } else if spells(letters.as_slice(), "boundary") || spells(letters.as_slice(), "control") {
        NodeType::Process
    } else {
        NodeType::Actor { actor_type: keyword.clone() }
    }
}

/// Emits the node of a declared participant and records it.
pub fn process_participant(
    keyword: &String,
    id: &String,
    alias: &Option<String>,
    events: &mut Vec<GraphEvent>,
    tracker: &mut Tracker,
)
    ensures
        final(tracker).progress(final(events).deep_view()) == declare_participant(
            old(tracker).progress(old(events).deep_view()),
            keyword@,
            id@,
            alias.deep_view(),
        ),
{
    let ghost before = alias_views(tracker.participants@);
    let label = match alias {
        Some(name) => {
            tracker.participants.insert(name.clone(), id.clone());
            assert(alias_views(tracker.participants@) =~= before.insert(name@, id@));
            name.clone()
        },
        None => id.clone(),
    };
    emit(
        events,
        GraphEvent::AddNode {
            id: id.clone(),
            label: Some(label),
            node_type: node_type_of(keyword),
            properties: Properties::at(Position::Sequential { order: tracker.participant_order }),
        },
    );
    tracker.known_ids.insert(id.clone());
    tracker.participant_order = bump(tracker.participant_order);
}

/// The id that `name` stands for.
fn resolve_name(tracker: &Tracker, name: &String) -> (id: String)
    ensures
        id@ == resolve(alias_views(tracker.participants@), name@),
{
    match tracker.participants.get(name.as_str()) {
        Some(id) => id.clone(),
        None => name.clone(),
    }
}

/// Declares the participant that a message names, unless it has a node.
fn mention_participant(name: &String, events: &mut Vec<GraphEvent>, tracker: &mut Tracker)
    ensures
        final(tracker).progress(final(events).deep_view()) == mention(
            old(tracker).progress(old(events).deep_view()),
            name@,
        ),
{
    let id = resolve_name(tracker, name);
    if !tracker.known_ids.contains(id.as_str()) {
        emit(
            events,
            GraphEvent::AddNode {
                id: id.clone(),
                label: Some(name.clone()),
                node_type: NodeType::Actor { actor_type: "participant".to_owned() },
                properties: Properties::at(
                    Position::Sequential { order: tracker.participant_order },
                ),
            },
        );
        tracker.known_ids.insert(id);
        tracker.participant_order = bump(tracker.participant_order);
    }
}

/// The id of the message with number `sequence`.
fn message_id(sequence: u32) -> (id: String)
    ensures
        id@ == "msg-"@ + decimal(sequence as nat),
{
    let mut letters = to_chars("msg-");
    push_decimal(&mut letters, sequence as u64);
    to_string(letters.as_slice())
}

/// Emits the edge of a message whose arrow has the known shape `arrow`, after
/// the nodes of those of its participants that have none yet.
pub fn send_message(
    left: &String,
    arrow: ArrowType,
    right: &String,
    text: &String,
    events: &mut Vec<GraphEvent>,
    tracker: &mut Tracker,
)
    ensures
        final(tracker).progress(final(events).deep_view()) == send(
            old(tracker).progress(old(events).deep_view()),
            left@,
            arrow,
            right@,
            text@,
        ),
{
    let (sender, receiver) = if arrow.is_reversed() {
        (right, left)
    } else {
        (left, right)
    };
    let from = resolve_name(tracker, sender);
    let to = resolve_name(tracker, receiver);
    mention_participant(sender, events, tracker);
    mention_participant(receiver, events, tracker);
    let label = if text.as_str().is_empty() {
        None
    } else {
        Some(text.clone())
    };
    emit(
        events,
        GraphEvent::AddEdge {
            id: message_id(tracker.sequence_number),
            from,
            to,
            edge_type: EdgeType::Message {
                message_type: arrow.to_message_type(),
                sequence: Some(tracker.sequence_number),
            },
            label,
            properties: Properties::default(),
        },
    );
    tracker.sequence_number = bump(tracker.sequence_number);
}

/// The message that complains of an arrow.
fn unknown_arrow(arrow: &String) -> (message: String)
    ensures
        message@ == arrow_message(arrow@),
{
    let mut message = "Unknown arrow type: ".to_owned();
    message.append(arrow.as_str());
    message
}

/// Reads the arrow of a message and emits its events, or complains of the
/// arrow; then nothing is emitted and nothing counted.
pub fn process_message(
    left: &String,
    arrow: &String,
    right: &String,
    text: &String,
    events: &mut Vec<GraphEvent>,
    tracker: &mut Tracker,
) -> (r: Result<(), String>)
    ensures
        match r {
            Ok(()) => arrow_of(arrow@) is Some && final(tracker).progress(
                final(events).deep_view(),
            ) == send(
                old(tracker).progress(old(events).deep_view()),
                left@,
                arrow_of(arrow@)->0,
                right@,
                text@,
            ),
            Err(message) => arrow_of(arrow@) is None && message@ == arrow_message(arrow@)
                && final(tracker).progress(final(events).deep_view()) == old(tracker).progress(
                old(events).deep_view(),
            ),
        },
{
    match ArrowType::parse_arrow(arrow.as_str()) {
        Some(shape) => {
            send_message(left, shape, right, text, events, tracker);
            Ok(())
        },
        None => Err(unknown_arrow(arrow)),
    }
}

/// Emits the event that marks a participant as activated or not.
fn mark(id: &String, active: bool, events: &mut Vec<GraphEvent>)
    ensures
        final(events).deep_view() == old(events).deep_view().push(activation_event(id@, active)),
{
    let mut custom = PropertyMap::new();
    let value = if active {
        "true"
    } else {
        "false"
    };
    custom.insert("activated".to_owned(), value.to_owned());
    emit(
        events,
        GraphEvent::UpdateNode {
            id: id.clone(),
            label: None,
            properties: Properties { style: None, position: None, custom },
        },
    );
}

/// Emits the event for the activation of a participant.
pub fn process_activation(id: &String, events: &mut Vec<GraphEvent>)
    ensures
        final(events).deep_view() == old(events).deep_view().push(activation_event(id@, true)),
{
    mark(id, true, events)
}

/// Emits the event for the deactivation of a participant.
pub fn process_deactivation(id: &String, events: &mut Vec<GraphEvent>)
    ensures
        final(events).deep_view() == old(events).deep_view().push(activation_event(id@, false)),
{
    mark(id, false, events)
}

/// A complaint in a prefix of the statements is the complaint of all of them.
pub proof fn lemma_complaint_stays(statements: Seq<StatementView>, start: Progress, n: int)
    requires
        0 <= n <= statements.len(),
        run(statements.subrange(0, n), start) is Err,
    ensures
        run(statements, start) == run(statements.subrange(0, n), start),
    decreases statements.len(),
{
    if n == statements.len() {
        assert(statements.subrange(0, n) =~= statements);
    } else {
        assert(statements.drop_last().subrange(0, n) =~= statements.subrange(0, n));
        lemma_complaint_stays(statements.drop_last(), start, n);
    }
}

/// Emits the events of the statements of a diagram, in their order. At the
/// first arrow of unknown shape it stops and complains.
pub fn process_diagram_content(
    statements: &Vec<Statement>,
    events: &mut Vec<GraphEvent>,
    tracker: &mut Tracker,
) -> (r: Result<(), String>)
    ensures
        match r {
            Ok(()) => run(statements.deep_view(), old(tracker).progress(old(events).deep_view()))
                == Ok::<Progress, Seq<char>>(final(tracker).progress(final(events).deep_view())),
            Err(message) => run(
                statements.deep_view(),
                old(tracker).progress(old(events).deep_view()),
            ) == Err::<Progress, Seq<char>>(message@),
        },
{
    let ghost start = tracker.progress(events.deep_view());
    let ghost all = statements.deep_view();
    let mut i: usize = 0;
    assert(all.subrange(0, 0) =~= Seq::empty());
    while i < statements.len()
        invariant
            i <= statements.len(),
            all == statements.deep_view(),
            start == old(tracker).progress(old(events).deep_view()),
            run(all.subrange(0, i as int), start) == Ok::<Progress, Seq<char>>(
                tracker.progress(events.deep_view()),
            ),
        decreases statements.len() - i,
    {
        proof {
            let head = all.subrange(0, i + 1);
            assert(head.drop_last() =~= all.subrange(0, i as int));
            assert(head.last() == statements@[i as int].deep_view());
        }
        let ghost before = tracker.progress(events.deep_view());
        match &statements[i] {
            Statement::Participant { kind, id, alias } => {
                process_participant(kind, id, alias, events, tracker);
            },
            Statement::Message { left, arrow, right, text } => {
                match process_message(left, arrow, right, text, events, tracker) {
                    Ok(()) => {},
                    Err(message) => {
                        proof {
                            let head = all.subrange(0, i + 1);
                            assert(step(before, head.last()) == Err::<Progress, Seq<char>>(
                                message@,
                            ));
                            assert(run(head, start) == Err::<Progress, Seq<char>>(message@));
                            lemma_complaint_stays(all, start, i + 1);
                        }
                        return Err(message);
                    },
                }
            },
            Statement::Activate { id } => {
                process_activation(id, events);
            },
            Statement::Deactivate { id } => {
                process_deactivation(id, events);
            },
            Statement::Other => {},
        }
        i += 1;
    }
    assert(all.subrange(0, all.len() as int) =~= all);
    Ok(())
}

impl SyntaxError {
    /// The message that says what is wrong.
    pub fn message(&self) -> (message: String)
        ensures
            message@ == syntax_message(*self),
    {
        let mut letters = to_chars("Parse error: ");
        match self {
            SyntaxError::MissingStart => {
                let what = to_chars("expected @startuml");
                push_all(&mut letters, what.as_slice());
            },
            SyntaxError::MissingEnd => {
                let what = to_chars("expected @enduml");
                push_all(&mut letters, what.as_slice());
            },
            SyntaxError::Unrecognized { line } => {
                let prefix = to_chars("line ");
                let what = to_chars(": unrecognized statement");
                push_all(&mut letters, prefix.as_slice());
                push_decimal(&mut letters, *line as u64);
                push_all(&mut letters, what.as_slice());
                assert(letters@ =~= syntax_message(*self));
            },
            SyntaxError::Trailing { line } => {
                let prefix = to_chars("line ");
                let what = to_chars(": text after @enduml");
                push_all(&mut letters, prefix.as_slice());
                push_decimal(&mut letters, *line as u64);
                push_all(&mut letters, what.as_slice());
                assert(letters@ =~= syntax_message(*self));
            },
        }
        to_string(letters.as_slice())
    }
}

/// Reads a PlantUML sequence diagram into its events: `BatchStart`, the
/// layout hint, the events of the statements, `BatchEnd`. A text that is no
/// diagram, or that holds an arrow of unknown shape, yields a message and no
/// event.
pub fn parse(input: &str) -> (r: Result<Vec<GraphEvent>, String>)
    ensures
        match r {
            Ok(events) => diagram_events(input@) == Ok::<Seq<GraphEventView>, Seq<char>>(
                events.deep_view(),
            ),
            Err(message) => diagram_events(input@) == Err::<Seq<GraphEventView>, Seq<char>>(
                message@,
            ),
        },
        r is Ok <==> (diagram(input@) matches Ok(statements) && forall|i: int|
            0 <= i < statements.len() ==> !has_unknown_arrow(#[trigger] statements[i])),
        r matches Ok(events) ==> is_one_batch(events.deep_view()) && sets_layout_first(
            events.deep_view(),
            LayoutTypeView::Sequential { direction: Direction::LeftToRight },
        ) && edges_join_added_nodes(events.deep_view()),
{
    proof {
        crate::plantuml::laws::lemma_events_iff_well_formed(input@);
        if diagram_events(input@) is Ok {
            crate::plantuml::laws::lemma_diagram_events_are_one_batch(input@);
            crate::plantuml::laws::lemma_messages_join_added_nodes(input@);
        }
    }
    let mut events: Vec<GraphEvent> = Vec::new();
    let mut tracker = Tracker::new();
    assert(events.deep_view() =~= Seq::empty());
    emit(&mut events, GraphEvent::BatchStart);
    emit(
        &mut events,
        GraphEvent::SetLayout {
            layout_type: LayoutType::Sequential { direction: Direction::LeftToRight },
            properties: Properties::default(),
        },
    );
    assert(tracker.progress(events.deep_view()) == opening()) by {
        assert(events.deep_view() =~= opening().events);
    }
    let statements = match PlantUMLParser::parse(input) {
        Ok(statements) => statements,
        Err(error) => {
            return Err(error.message());
        },
    };
    match process_diagram_content(&statements, &mut events, &mut tracker) {
        Ok(()) => {},
        Err(message) => {
            return Err(message);
        },
    }
    emit(&mut events, GraphEvent::BatchEnd);
    Ok(events)
}

} // verus!
