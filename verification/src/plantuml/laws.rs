//! What holds of the events of every sequence diagram.

use crate::events::{
    continues, edges_join_added_nodes, is_one_batch, known_are_added, lemma_continues_itself,
    lemma_continues_push, lemma_continues_transitive, lemma_push_keeps_known_added,
    sets_layout_first, Direction, GraphEvent, GraphEventView, LayoutTypeView,
};
use crate::plantuml::grammar::{
    diagram, label_tail, lemma_line_of_words_is_message, lemma_message_line, read_lines, statement,
    Reading, StatementView,
};
use crate::text::{all_in, lines, trim, CharClass};
use crate::plantuml::parser::{
    diagram_events, mention, message_edge, next, opening, resolve, run, send, step, Progress,
};
use crate::plantuml::types::{arrow_of, ArrowType};
use vstd::prelude::*;

verus! {

/// An arrow that points leftwards stands for the same message as one that
/// points rightwards between the swapped sides: `B <- A` and `A -> B` declare
/// the same participants in the same order, run between the same ends, take
/// the same number and carry the same label. They differ at most in the kind
/// of message; where the two arrows send the same kind, as `<-` and `->` do,
/// they lead to the same progress, event for event.
pub proof fn lemma_reversed_arrow_swaps_sides(
    progress: Progress,
    a: Seq<char>,
    b: Seq<char>,
    text: Seq<char>,
    leftward: ArrowType,
    rightward: ArrowType,
)
    requires
        leftward.reversed(),
        !rightward.reversed(),
    ensures
        ({
            let left = send(progress, b, leftward, a, text);
            let right = send(progress, a, rightward, b, text);
            &&& left.order == right.order
            &&& left.sequence == right.sequence
            &&& left.aliases == right.aliases
            &&& left.known == right.known
            &&& left.events.drop_last() == right.events.drop_last()
            &&& left.events.last() == message_edge(
                resolve(progress.aliases, a),
                resolve(progress.aliases, b),
                leftward.message_type(),
                progress.sequence,
                text,
            )
            &&& right.events.last() == message_edge(
                resolve(progress.aliases, a),
                resolve(progress.aliases, b),
                rightward.message_type(),
                progress.sequence,
                text,
            )
            &&& leftward.message_type() == rightward.message_type() ==> left == right
        }),
        send(progress, b, ArrowType::LeftSync, a, text) == send(
            progress,
            a,
            ArrowType::SolidSync,
            b,
            text,
        ),
{
    let mentioned = mention(mention(progress, a), b);
    let left = send(progress, b, leftward, a, text);
    let right = send(progress, a, rightward, b, text);
    assert(left.events.drop_last() =~= mentioned.events);
    assert(right.events.drop_last() =~= mentioned.events);
}

/// Whatever the arrow, a message runs from the resolved sender to the resolved
/// receiver, takes the current number, and moves the counter on by one: the
/// sender is the right-hand side for an arrow that points leftwards, the
/// left-hand side otherwise.
pub proof fn lemma_message_takes_next_number(
    progress: Progress,
    left: Seq<char>,
    arrow: ArrowType,
    right: Seq<char>,
    text: Seq<char>,
)
    ensures
        send(progress, left, arrow, right, text).sequence == next(progress.sequence),
        send(progress, left, arrow, right, text).events.last() == message_edge(
            resolve(
                progress.aliases,
                if arrow.reversed() {
                    right
                } else {
                    left
                },
            ),
            resolve(
                progress.aliases,
                if arrow.reversed() {
                    left
                } else {
                    right
                },
            ),
            arrow.message_type(),
            progress.sequence,
            text,
        ),
{
}

/// Whether a statement is a message whose arrow has none of the known shapes.
pub open spec fn has_unknown_arrow(statement: StatementView) -> bool {
    statement matches StatementView::Message { arrow, .. } && arrow_of(arrow) is None
}

/// Statements that hold a message with an arrow of unknown shape yield no
/// progress but a complaint, wherever the message stands.
pub proof fn lemma_unknown_arrow_fails(statements: Seq<StatementView>, start: Progress, at: int)
    requires
        0 <= at < statements.len(),
        has_unknown_arrow(statements[at]),
    ensures
        run(statements, start) is Err,
    decreases statements.len(),
{
    if at < statements.len() - 1 {
        assert(statements.drop_last()[at] == statements[at]);
        lemma_unknown_arrow_fails(statements.drop_last(), start, at);
    }
}

/// Statements without an arrow of unknown shape always yield progress.
pub proof fn lemma_known_arrows_succeed(statements: Seq<StatementView>, start: Progress)
    requires
        forall|i: int| 0 <= i < statements.len() ==> !has_unknown_arrow(#[trigger] statements[i]),
    ensures
        run(statements, start) is Ok,
    decreases statements.len(),
{
    if statements.len() > 0 {
        assert forall|i: int| 0 <= i < statements.drop_last().len() implies !has_unknown_arrow(
            #[trigger] statements.drop_last()[i],
        ) by {
            assert(statements.drop_last()[i] == statements[i]);
        }
        lemma_known_arrows_succeed(statements.drop_last(), start);
        assert(!has_unknown_arrow(statements[statements.len() - 1]));
    }
}

/// A text yields events exactly when it is a diagram all of whose arrows have
/// a known shape; a diagram with an arrow of unknown shape yields none.
pub proof fn lemma_events_iff_well_formed(text: Seq<char>)
    ensures
        diagram_events(text) is Ok <==> (diagram(text) matches Ok(statements) && forall|i: int|
            0 <= i < statements.len() ==> !has_unknown_arrow(#[trigger] statements[i])),
{
    if let Ok(statements) = diagram(text) {
        if forall|i: int| 0 <= i < statements.len() ==> !has_unknown_arrow(#[trigger] statements[i]) {
            lemma_known_arrows_succeed(statements, opening());
        } else {
            let at = choose|i: int| 0 <= i < statements.len() && has_unknown_arrow(statements[i]);
            lemma_unknown_arrow_fails(statements, opening(), at);
        }
    }
}

/// The events that neither open nor close a batch nor set the layout.
pub open spec fn inner_events() -> spec_fn(GraphEventView) -> bool {
    |event: GraphEventView| !event.is_batch_mark() && !(event is SetLayout)
}

/// One statement adds neither a batch mark nor a layout hint.
pub proof fn lemma_step_adds_inner_events(progress: Progress, statement: StatementView)
    requires
        step(progress, statement) is Ok,
    ensures
        continues(progress.events, step(progress, statement)->Ok_0.events, inner_events()),
{
    let before = progress.events;
    let after = step(progress, statement)->Ok_0.events;
    match statement {
        StatementView::Message { left, arrow, right, text } => {
            let shape = arrow_of(arrow)->0;
            let sender = if shape.reversed() {
                right
            } else {
                left
            };
            let receiver = if shape.reversed() {
                left
            } else {
                right
            };
            let first = mention(progress, sender);
            let second = mention(first, receiver);
            assert(continues(before, first.events, inner_events())) by {
                if first.events == before {
                    lemma_continues_itself(before, inner_events());
                } else {
                    lemma_continues_push(before, first.events.last(), inner_events());
                }
            }
            assert(continues(first.events, second.events, inner_events())) by {
                if second.events == first.events {
                    lemma_continues_itself(first.events, inner_events());
                } else {
                    lemma_continues_push(first.events, second.events.last(), inner_events());
                }
            }
            lemma_continues_push(second.events, after.last(), inner_events());
            lemma_continues_transitive(before, first.events, second.events, inner_events());
            lemma_continues_transitive(before, second.events, after, inner_events());
        },
        StatementView::Other => {
            lemma_continues_itself(before, inner_events());
        },
        _ => {
            lemma_continues_push(before, after.last(), inner_events());
        },
    }
}

/// The statements of a diagram add neither a batch mark nor a layout hint.
pub proof fn lemma_run_adds_inner_events(statements: Seq<StatementView>, start: Progress)
    requires
        run(statements, start) is Ok,
    ensures
        continues(start.events, run(statements, start)->Ok_0.events, inner_events()),
    decreases statements.len(),
{
    if statements.len() == 0 {
        lemma_continues_itself(start.events, inner_events());
    } else {
        let before = run(statements.drop_last(), start)->Ok_0;
        lemma_run_adds_inner_events(statements.drop_last(), start);
        lemma_step_adds_inner_events(before, statements.last());
        lemma_continues_transitive(
            start.events,
            before.events,
            run(statements, start)->Ok_0.events,
            inner_events(),
        );
    }
}

/// The events of a diagram are one batch: the first is `BatchStart`, the last
/// is `BatchEnd`, and no event between the first and the last is a batch mark.
/// The second event, and no other, sets the layout: a sequence from left to
/// right.
pub proof fn lemma_diagram_events_are_one_batch(text: Seq<char>)
    requires
        diagram_events(text) is Ok,
    ensures
        is_one_batch(diagram_events(text)->Ok_0),
        sets_layout_first(
            diagram_events(text)->Ok_0,
            LayoutTypeView::Sequential { direction: Direction::LeftToRight },
        ),
{
    let statements = diagram(text)->Ok_0;
    let progress = run(statements, opening())->Ok_0;
    lemma_run_adds_inner_events(statements, opening());
    let events = diagram_events(text)->Ok_0;
    let head = opening().events;
    assert(progress.events.subrange(0, 2)[0] == head[0]);
    assert(progress.events.subrange(0, 2)[1] == head[1]);
    assert forall|i: int| 0 < i < events.len() - 1 implies !(#[trigger] events[i]).is_batch_mark() by {
        if i >= 2 {
            assert(inner_events()(progress.events[i]));
        }
    }
    assert forall|i: int| 0 <= i < events.len() && i != 1 implies !(#[trigger] events[i] is SetLayout) by {
        if 2 <= i < events.len() - 1 {
            assert(inner_events()(progress.events[i]));
        }
    }
}

/// Reading the same text twice gives the same outcome: any two results that
/// meet the contract of the reader have equal views, be they events or a
/// message.
pub proof fn lemma_reading_is_repeatable(
    text: Seq<char>,
    first: Result<Vec<GraphEvent>, String>,
    second: Result<Vec<GraphEvent>, String>,
)
    requires
        outcome(first) == diagram_events(text),
        outcome(second) == diagram_events(text),
    ensures
        outcome(first) == outcome(second),
{
}

/// The view of what the reader returns.
pub open spec fn outcome(result: Result<Vec<GraphEvent>, String>) -> Result<
    Seq<GraphEventView>,
    Seq<char>,
> {
    match result {
        Ok(events) => Ok(events.deep_view()),
        Err(message) => Err(message@),
    }
}

/// Whether every edge so far joins nodes that earlier events added, and every
/// participant known to have a node has one.
pub open spec fn tracks_participants(progress: Progress) -> bool {
    edges_join_added_nodes(progress.events) && known_are_added(progress.known, progress.events)
}

/// Mentioning a participant keeps track of the nodes, and the participant has
/// a node afterwards.
pub proof fn lemma_mention_tracks(progress: Progress, name: Seq<char>)
    requires
        tracks_participants(progress),
    ensures
        tracks_participants(mention(progress, name)),
        mention(progress, name).known.contains(resolve(progress.aliases, name)),
        mention(progress, name).aliases == progress.aliases,
        progress.known.subset_of(mention(progress, name).known),
{
    let id = resolve(progress.aliases, name);
    if !progress.known.contains(id) {
        let event = mention(progress, name).events.last();
        lemma_push_keeps_known_added(progress.known, progress.events, event);
        assert(known_are_added(progress.known.insert(id), progress.events.push(event)));
    }
}

/// One statement keeps track of the nodes.
pub proof fn lemma_step_tracks(progress: Progress, statement: StatementView)
    requires
        tracks_participants(progress),
        step(progress, statement) is Ok,
    ensures
        tracks_participants(step(progress, statement)->Ok_0),
{
    let after = step(progress, statement)->Ok_0;
    match statement {
        StatementView::Participant { kind, id, alias } => {
            let event = after.events.last();
            lemma_push_keeps_known_added(progress.known, progress.events, event);
            assert(known_are_added(progress.known.insert(id), progress.events.push(event)));
        },
        StatementView::Message { left, arrow, right, text } => {
            let shape = arrow_of(arrow)->0;
            let sender = if shape.reversed() {
                right
            } else {
                left
            };
            let receiver = if shape.reversed() {
                left
            } else {
                right
            };
            let first = mention(progress, sender);
            lemma_mention_tracks(progress, sender);
            let second = mention(first, receiver);
            lemma_mention_tracks(first, receiver);
            assert(second.known.contains(resolve(progress.aliases, sender)));
            assert(second.known.contains(resolve(progress.aliases, receiver)));
            lemma_push_keeps_known_added(second.known, second.events, after.events.last());
        },
        StatementView::Activate { id } => {
            lemma_push_keeps_known_added(progress.known, progress.events, after.events.last());
        },
        StatementView::Deactivate { id } => {
            lemma_push_keeps_known_added(progress.known, progress.events, after.events.last());
        },
        StatementView::Other => {},
    }
}

/// The statements of a diagram keep track of the nodes.
pub proof fn lemma_run_tracks(statements: Seq<StatementView>, start: Progress)
    requires
        tracks_participants(start),
        run(statements, start) is Ok,
    ensures
        tracks_participants(run(statements, start)->Ok_0),
    decreases statements.len(),
{
    if statements.len() > 0 {
        lemma_run_tracks(statements.drop_last(), start);
        lemma_step_tracks(run(statements.drop_last(), start)->Ok_0, statements.last());
    }
}

/// In the events of every diagram, each message runs between participants
/// whose nodes earlier events of the same stream add: a participant that a
/// message is the first to name gets its node just before the message.
pub proof fn lemma_messages_join_added_nodes(text: Seq<char>)
    requires
        diagram_events(text) is Ok,
    ensures
        edges_join_added_nodes(diagram_events(text)->Ok_0),
{
    let statements = diagram(text)->Ok_0;
    assert(tracks_participants(opening()));
    lemma_run_tracks(statements, opening());
    let progress = run(statements, opening())->Ok_0;
    lemma_push_keeps_known_added(progress.known, progress.events, GraphEventView::BatchEnd);
}

/// Whether `leftward` and `rightward` write the same message, the one with
/// an arrow that points leftwards, the other with the sides swapped and an
/// arrow of the same kind that points rightwards, as `X <- Y: m` and
/// `Y -> X: m` do.
pub open spec fn same_message_reversed(leftward: StatementView, rightward: StatementView) -> bool {
    &&& leftward matches StatementView::Message { left, arrow, right, text }
    &&& rightward matches StatementView::Message {
        left: other_left,
        arrow: other_arrow,
        right: other_right,
        text: other_text,
    }
    &&& other_left == right
    &&& other_right == left
    &&& other_text == text
    &&& arrow_of(arrow) matches Some(shape)
    &&& arrow_of(other_arrow) matches Some(other_shape)
    &&& shape.reversed()
    &&& !other_shape.reversed()
    &&& shape.message_type() == other_shape.message_type()
}

/// A message and the same message written the other way round lead to the
/// same progress.
pub proof fn lemma_step_of_reversed_message(
    progress: Progress,
    leftward: StatementView,
    rightward: StatementView,
)
    requires
        same_message_reversed(leftward, rightward),
    ensures
        step(progress, leftward) == step(progress, rightward),
{
    if let StatementView::Message { left, arrow, right, text } = leftward {
        if let StatementView::Message { arrow: other_arrow, .. } = rightward {
            lemma_reversed_arrow_swaps_sides(
                progress,
                right,
                left,
                text,
                arrow_of(arrow)->0,
                arrow_of(other_arrow)->0,
            );
        }
    }
}

/// Statements that differ in one message, written with a leftward arrow in
/// the one and the other way round in the other, lead to the same progress:
/// the same events with the same ids and numbers, and the same participants
/// declared in the same order.
pub proof fn lemma_run_of_reversed_message(
    statements: Seq<StatementView>,
    start: Progress,
    at: int,
    rightward: StatementView,
)
    requires
        0 <= at < statements.len(),
        same_message_reversed(statements[at], rightward),
    ensures
        run(statements.update(at, rightward), start) == run(statements, start),
    decreases statements.len(),
{
    let other = statements.update(at, rightward);
    if at == statements.len() - 1 {
        assert(other.drop_last() =~= statements.drop_last());
        if let Ok(progress) = run(statements.drop_last(), start) {
            lemma_step_of_reversed_message(progress, statements[at], rightward);
        }
    } else {
        assert(other.drop_last() =~= statements.drop_last().update(at, rightward));
        assert(statements.drop_last()[at] == statements[at]);
        lemma_run_of_reversed_message(statements.drop_last(), start, at, rightward);
    }
}

/// Reading one more statement keeps equal what two runs of statements have
/// come to.
proof fn lemma_run_push(
    first: Seq<StatementView>,
    second: Seq<StatementView>,
    one: StatementView,
    other: StatementView,
    start: Progress,
)
    requires
        run(first, start) == run(second, start),
        forall|progress: Progress| #[trigger] step(progress, one) == step(progress, other),
    ensures
        run(first.push(one), start) == run(second.push(other), start),
{
    assert(first.push(one).drop_last() =~= first);
    assert(second.push(other).drop_last() =~= second);
    if let Ok(progress) = run(first, start) {
        assert(step(progress, one) == step(progress, other));
    }
}

/// Lines that differ in one message line, written with a leftward arrow in
/// the one text and the other way round in the other, are read alike: after
/// any number of lines the two readers are in the same phase, have found the
/// same error, and their statements lead to the same progress.
pub proof fn lemma_reading_of_reversed_line(
    leftward: Seq<Seq<char>>,
    rightward: Seq<Seq<char>>,
    at: int,
    n: int,
    start: Progress,
)
    requires
        0 <= at < leftward.len(),
        rightward == leftward.update(at, rightward[at]),
        statement(trim(leftward[at])) is Some,
        statement(trim(rightward[at])) is Some,
        same_message_reversed(statement(trim(leftward[at]))->0, statement(trim(rightward[at]))->0),
        0 <= n <= leftward.len(),
    ensures
        read_lines(leftward.subrange(0, n)).phase == read_lines(rightward.subrange(0, n)).phase,
        read_lines(leftward.subrange(0, n)).error == read_lines(rightward.subrange(0, n)).error,
        run(read_lines(leftward.subrange(0, n)).statements, start) == run(
            read_lines(rightward.subrange(0, n)).statements,
            start,
        ),
    decreases n,
{
    if n > 0 {
        let one = leftward.subrange(0, n);
        let other = rightward.subrange(0, n);
        assert(one.drop_last() =~= leftward.subrange(0, n - 1));
        assert(other.drop_last() =~= rightward.subrange(0, n - 1));
        lemma_reading_of_reversed_line(leftward, rightward, at, n - 1, start);
        let before_one = read_lines(one.drop_last());
        let before_other = read_lines(other.drop_last());
        let line = trim(one.last());
        let other_line = trim(other.last());
        if n - 1 == at {
            let message = statement(line)->0;
            let other_message = statement(other_line)->0;
            lemma_message_line(line);
            lemma_message_line(other_line);
            assert forall|progress: Progress| #[trigger]
                step(progress, message) == step(progress, other_message) by {
                lemma_step_of_reversed_message(progress, message, other_message);
            }
            lemma_run_push(
                before_one.statements,
                before_other.statements,
                message,
                other_message,
                start,
            );
        } else {
            assert(one.last() == other.last());
            if statement(line) is Some {
                lemma_run_push(
                    before_one.statements,
                    before_other.statements,
                    statement(line)->0,
                    statement(line)->0,
                    start,
                );
            }
        }
    }
}

/// Two texts that differ in one line, a message written with a leftward
/// arrow in the one and the other way round in the other (`X <- Y: m` for
/// `Y -> X: m`, `<--` for `-->`, `<<-` for `->>`, `<<--` for `-->>`), have
/// the same outcome: the same events with the same ends, kinds, ids and
/// numbers, the same participants declared in the same order, or the same
/// message of failure.
pub proof fn lemma_reversed_line_same_outcome(leftward: Seq<char>, rightward: Seq<char>, at: int)
    requires
        0 <= at < lines(leftward).len(),
        lines(rightward) == lines(leftward).update(at, lines(rightward)[at]),
        statement(trim(lines(leftward)[at])) is Some,
        statement(trim(lines(rightward)[at])) is Some,
        same_message_reversed(
            statement(trim(lines(leftward)[at]))->0,
            statement(trim(lines(rightward)[at]))->0,
        ),
    ensures
        diagram_events(leftward) == diagram_events(rightward),
{
    let one = lines(leftward);
    let other = lines(rightward);
    lemma_reading_of_reversed_line(one, other, at, one.len() as int, opening());
    assert(one.subrange(0, one.len() as int) =~= one);
    assert(other.subrange(0, one.len() as int) =~= other);
}

/// Two texts that differ in one line, which reads `X <- Y: m` in the one and
/// `Y -> X: m` in the other, `X` and `Y` being words, have the same outcome.
/// The same holds of any leftward arrow and the rightward arrow of its kind,
/// with or without white space round the arrow, with or without a label.
pub proof fn lemma_reversed_words_same_outcome(
    leftward: Seq<char>,
    rightward: Seq<char>,
    at: int,
    x: Seq<char>,
    y: Seq<char>,
    left_arrow: Seq<char>,
    right_arrow: Seq<char>,
    gaps: (Seq<char>, Seq<char>, Seq<char>),
    other_gaps: (Seq<char>, Seq<char>, Seq<char>),
    label: Option<Seq<char>>,
)
    requires
        0 <= at < lines(leftward).len(),
        lines(rightward) == lines(leftward).update(at, lines(rightward)[at]),
        trim(lines(leftward)[at]) == x + gaps.0 + left_arrow + gaps.1 + y + label_tail(
            gaps.2,
            label,
        ),
        trim(lines(rightward)[at]) == y + other_gaps.0 + right_arrow + other_gaps.1 + x
            + label_tail(other_gaps.2, label),
        x.len() > 0 && all_in(x, CharClass::Word),
        y.len() > 0 && all_in(y, CharClass::Word),
        left_arrow.len() > 0 && all_in(left_arrow, CharClass::Symbol),
        right_arrow.len() > 0 && all_in(right_arrow, CharClass::Symbol),
        all_in(gaps.0, CharClass::Whitespace) && all_in(gaps.1, CharClass::Whitespace) && all_in(
            gaps.2,
            CharClass::Whitespace,
        ),
        all_in(other_gaps.0, CharClass::Whitespace) && all_in(other_gaps.1, CharClass::Whitespace)
            && all_in(other_gaps.2, CharClass::Whitespace),
        arrow_of(left_arrow) matches Some(shape) && shape.reversed(),
        arrow_of(right_arrow) matches Some(shape) && !shape.reversed(),
        arrow_of(left_arrow)->0.message_type() == arrow_of(right_arrow)->0.message_type(),
    ensures
        diagram_events(leftward) == diagram_events(rightward),
{
    lemma_line_of_words_is_message(x, gaps.0, left_arrow, gaps.1, y, gaps.2, label);
    lemma_line_of_words_is_message(
        y,
        other_gaps.0,
        right_arrow,
        other_gaps.1,
        x,
        other_gaps.2,
        label,
    );
    lemma_reversed_line_same_outcome(leftward, rightward, at);
}

} // verus!
