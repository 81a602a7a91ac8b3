//! The grammar of PlantUML sequence diagrams.
//!
//! A diagram is read line by line. Blank lines count nowhere. The first line
//! that is not blank must be `@startuml`, alone or with a name after white
//! space; statements follow, one per line, up to the `@enduml` line; nothing
//! but blank lines may come after. In an extended notation, with `ws` for
//! white space:
//!
//! ```text
//! statement   = participant / activation / deactivation / message / other
//! participant = kind ws+ identifier (ws+ "as" ws+ identifier)?
//! kind        = "participant" / "actor" / "boundary" / "control" / "entity"
//!             / "database" / "collections" / "queue"
//! activation  = "activate" ws+ identifier
//! deactivation= "deactivate" ws+ identifier
//! message     = identifier ws* arrow ws* identifier ws* (":" text)?
//! identifier  = word / '"' (escape / any-but-quote)* '"'
//! word        = (ASCII letter / ASCII digit / "_")+
//! escape      = "\" any
//! arrow       = (any but white space, word characters, '"' and ":")+
//! other       = "'" any* / keyword any* / "==" any* / "..." any* / "|||" any*
//! keyword     = "note" / "alt" / "else" / "opt" / "loop" / "par" / "break"
//!             / "critical" / "group" / "end" / "title" / "autonumber"
//!             / "hide" / "skinparam" / "box" / "ref" / "newpage" / "create"
//!             / "destroy" / "return"
//! ```
//!
//! The alternatives of `statement` are tried in this order; a keyword must end
//! where the word ends. A `note` line without a colon opens a note that runs
//! to the next `end note` line; the lines between are free text.

use crate::text::{
    after_lead, all_in, find_char, has_prefix, is_part, is_symbol_char, is_whitespace, is_word_char,
    lead, leading, lemma_leading_bounds, lemma_leading_run, lemma_part_of_part,
    lemma_part_starts_in_whole, lemma_subrange_is_part, lemma_trim_start_is_part, lemma_views_ends,
    lemma_views_step, lines, position, spells, split_lines, starts_with, strip, strip_start, take,
    to_chars, to_string, trim, trim_start_of, views, CharClass,
};
use vstd::prelude::*;
use vstd::slice::slice_subrange;

verus! {

/// One statement of a sequence diagram.
#[derive(Debug, Clone, PartialEq, Eq)]
pub enum Statement {
    /// The declaration of a participant: its kind, its id and its alias.
    Participant { kind: String, id: String, alias: Option<String> },
    /// A message between two participants: the names on the two sides of the
    /// arrow, the arrow as written, and the trimmed text after the colon
    /// (empty where there is none).
    Message { left: String, arrow: String, right: String, text: String },
    /// The activation of a participant.
    Activate { id: String },
    /// The deactivation of a participant.
    Deactivate { id: String },
    /// A statement that is recognised and stands for nothing: a comment, a
    /// note, a fragment keyword, a title.
    Other,
}

/// The view of a [`Statement`].
pub enum StatementView {
    Participant { kind: Seq<char>, id: Seq<char>, alias: Option<Seq<char>> },
    Message { left: Seq<char>, arrow: Seq<char>, right: Seq<char>, text: Seq<char> },
    Activate { id: Seq<char> },
    Deactivate { id: Seq<char> },
    Other,
}

impl DeepView for Statement {
    type V = StatementView;

    open spec fn deep_view(&self) -> StatementView {
        match self {
            Statement::Participant { kind, id, alias } => StatementView::Participant {
                kind: kind@,
                id: id@,
                alias: alias.deep_view(),
            },
            Statement::Message { left, arrow, right, text } => StatementView::Message {
                left: left@,
                arrow: arrow@,
                right: right@,
                text: text@,
            },
            Statement::Activate { id } => StatementView::Activate { id: id@ },
            Statement::Deactivate { id } => StatementView::Deactivate { id: id@ },
            Statement::Other => StatementView::Other,
        }
    }
}

/// Why a text is no sequence diagram.
#[derive(Debug, Clone, Copy, PartialEq, Eq, Structural)]
pub enum SyntaxError {
    /// The first line that is not blank is not `@startuml`, or there is none.
    MissingStart,
    /// There is no `@enduml`.
    MissingEnd,
    /// The line with this number, counted from 1, is no statement.
    Unrecognized { line: usize },
    /// The line with this number, counted from 1, follows `@enduml` and is not blank.
    Trailing { line: usize },
}

/// The word at the start of `s` (which may be empty).
pub open spec fn word(s: Seq<char>) -> Seq<char> {
    lead(s, CharClass::Word)
}

/// What follows the word at the start of `s`.
pub open spec fn after_word(s: Seq<char>) -> Seq<char> {
    after_lead(s, CharClass::Word)
}

/// `s` without leading white space.
pub open spec fn skip_blank(s: Seq<char>) -> Seq<char> {
    trim_start_of(s, CharClass::Whitespace)
}

/// Whether `s` begins with white space.
pub open spec fn starts_blank(s: Seq<char>) -> bool {
    s.len() > 0 && is_whitespace(s[0])
}

/// The index of the quote that closes a quoted string whose content begins at
/// `from`: the first quote that no backslash precedes as an escape.
pub open spec fn closing_quote(s: Seq<char>, from: int) -> Option<int>
    decreases s.len() - from,
{
    if from < 0 || from >= s.len() {
        None
    } else if s[from] == '"' {
        Some(from)
    } else if s[from] == '\\' {
        if from + 1 < s.len() {
            closing_quote(s, from + 2)
        } else {
            None
        }
    } else {
        closing_quote(s, from + 1)
    }
}

/// The quoted string at the start of `s` and what follows it: the string
/// stands for the raw text between its quotes.
pub open spec fn quoted_string(s: Seq<char>) -> Option<(Seq<char>, Seq<char>)> {
    if s.len() > 0 && s[0] == '"' {
        match closing_quote(s, 1) {
            Some(close) => Some((s.subrange(1, close), s.subrange(close + 1, s.len() as int))),
            None => None,
        }
    } else {
        None
    }
}

/// The identifier at the start of `s` and what follows it: a quoted string or
/// a non-empty word.
pub open spec fn identifier(s: Seq<char>) -> Option<(Seq<char>, Seq<char>)> {
    if s.len() > 0 && s[0] == '"' {
        quoted_string(s)
    } else if word(s).len() > 0 {
        Some((word(s), after_word(s)))
    } else {
        None
    }
}

/// Whether `kind` is a keyword that declares a participant.
pub open spec fn is_participant_kind(kind: Seq<char>) -> bool {
    kind == "participant"@ || kind == "actor"@ || kind == "boundary"@ || kind == "control"@
        || kind == "entity"@ || kind == "database"@ || kind == "collections"@ || kind
        == "queue"@
}

/// Whether `keyword` opens a statement that stands for nothing.
pub open spec fn is_passive_keyword(keyword: Seq<char>) -> bool {
    keyword == "note"@ || keyword == "alt"@ || keyword == "else"@ || keyword == "opt"@ || keyword
        == "loop"@ || keyword == "par"@ || keyword == "break"@ || keyword == "critical"@
        || keyword == "group"@ || keyword == "end"@ || keyword == "title"@ || keyword
        == "autonumber"@ || keyword == "hide"@ || keyword == "skinparam"@ || keyword == "box"@
        || keyword == "ref"@ || keyword == "newpage"@ || keyword == "create"@ || keyword
        == "destroy"@ || keyword == "return"@
}

/// Whether the trimmed line `line` is the marker `marker`, alone or followed
/// by white space and a name.
pub open spec fn is_marker(line: Seq<char>, marker: Seq<char>) -> bool {
    has_prefix(line, marker) && (line.len() == marker.len() || is_whitespace(
        line[marker.len() as int],
    ))
}

/// The identifier that alone follows, after white space, the keyword
/// `keyword` at the start of the trimmed line `line`.
pub open spec fn keyword_target(line: Seq<char>, keyword: Seq<char>) -> Option<Seq<char>> {
    if word(line) == keyword && starts_blank(after_word(line)) {
        match identifier(skip_blank(after_word(line))) {
            Some((id, rest)) => if skip_blank(rest).len() == 0 {
                Some(id)
            } else {
                None
            },
            None => None,
        }
    } else {
        None
    }
}

/// The alias that ` as identifier` writes in `rest`, the part of a participant
/// declaration after the id; `Some(None)` where `rest` is blank.
pub open spec fn alias_clause(rest: Seq<char>) -> Option<Option<Seq<char>>> {
    let clause = skip_blank(rest);
    if clause.len() == 0 {
        Some(None)
    } else if starts_blank(rest) && word(clause) == "as"@ && starts_blank(after_word(clause)) {
        match identifier(skip_blank(after_word(clause))) {
            Some((alias, end)) => if skip_blank(end).len() == 0 {
                Some(Some(alias))
            } else {
                None
            },
            None => None,
        }
    } else {
        None
    }
}

/// The participant declaration that the trimmed line `line` writes.
pub open spec fn participant_statement(line: Seq<char>) -> Option<StatementView> {
    if is_participant_kind(word(line)) && starts_blank(after_word(line)) {
        match identifier(skip_blank(after_word(line))) {
            Some((id, rest)) => match alias_clause(rest) {
                Some(alias) => Some(StatementView::Participant { kind: word(line), id, alias }),
                None => None,
            },
            None => None,
        }
    } else {
        None
    }
}

/// The message that the trimmed line `line` writes.
pub open spec fn message_statement(line: Seq<char>) -> Option<StatementView> {
    match identifier(line) {
        Some((left, rest)) => {
            let arrow = lead(skip_blank(rest), CharClass::Symbol);
            match identifier(skip_blank(after_lead(skip_blank(rest), CharClass::Symbol))) {
                Some((right, end)) => {
                    let tail = skip_blank(end);
                    if arrow.len() == 0 {
                        None
                    } else if tail.len() == 0 {
                        Some(StatementView::Message { left, arrow, right, text: Seq::empty() })
                    } else if tail[0] == ':' {
                        Some(
                            StatementView::Message {
                                left,
                                arrow,
                                right,
                                text: trim(tail.subrange(1, tail.len() as int)),
                            },
                        )
                    } else {
                        None
                    }
                },
                None => None,
            }
        },
        None => None,
    }
}

/// Whether the trimmed line `line` is a comment, begins with a passive
/// keyword, or is a divider, a delay or a spacing line.
pub open spec fn is_passive(line: Seq<char>) -> bool {
    (line.len() > 0 && line[0] == '\'') || is_passive_keyword(word(line)) || has_prefix(
        line,
        "=="@,
    ) || has_prefix(line, "..."@) || has_prefix(line, "|||"@)
}

/// Whether the trimmed line `line` opens a note of several lines: its first
/// word is `note` and it holds no colon.
pub open spec fn opens_note(line: Seq<char>) -> bool {
    word(line) == "note"@ && position(line, ':') >= line.len()
}

/// The statement that the trimmed line `line` writes, by the first
/// alternative that fits.
pub open spec fn statement(line: Seq<char>) -> Option<StatementView> {
    if participant_statement(line) is Some {
        participant_statement(line)
    } else if keyword_target(line, "activate"@) is Some {
        Some(StatementView::Activate { id: keyword_target(line, "activate"@)->0 })
    } else if keyword_target(line, "deactivate"@) is Some {
        Some(StatementView::Deactivate { id: keyword_target(line, "deactivate"@)->0 })
    } else if message_statement(line) is Some {
        message_statement(line)
    } else if is_passive(line) {
        Some(StatementView::Other)
    } else {
        None
    }
}

/// Where a reader stands in a diagram.
#[derive(Debug, Clone, Copy, PartialEq, Eq, Structural)]
pub enum Phase {
    /// Before `@startuml`.
    Before,
    /// Between `@startuml` and `@enduml`.
    Inside,
    /// Inside a note of several lines.
    Note,
    /// After `@enduml`.
    After,
}

/// What a reader has gathered from the lines read so far.
pub struct Reading {
    pub phase: Phase,
    pub statements: Seq<StatementView>,
    pub error: Option<SyntaxError>,
}

/// The reading after the line with number `number`, whose trimmed text is
/// `line`. Once an error is found, nothing changes any more.
pub open spec fn read_line(reading: Reading, number: int, line: Seq<char>) -> Reading {
    if reading.error is Some {
        reading
    } else {
        match reading.phase {
            Phase::Before => if line.len() == 0 {
                reading
            } else if is_marker(line, "@startuml"@) {
                Reading { phase: Phase::Inside, ..reading }
            } else {
                Reading { error: Some(SyntaxError::MissingStart), ..reading }
            },
            Phase::Inside => if line.len() == 0 {
                reading
            } else if is_marker(line, "@enduml"@) {
                Reading { phase: Phase::After, ..reading }
            } else {
                match statement(line) {
                    Some(s) => Reading {
                        phase: if s is Other && opens_note(line) {
                            Phase::Note
                        } else {
                            Phase::Inside
                        },
                        statements: reading.statements.push(s),
                        ..reading
                    },
                    None => Reading {
                        error: Some(SyntaxError::Unrecognized { line: number as usize }),
                        ..reading
                    },
                }
            },
            Phase::Note => if line == "end note"@ {
                Reading { phase: Phase::Inside, ..reading }
            } else {
                reading
            },
            Phase::After => if line.len() == 0 {
                reading
            } else {
                Reading { error: Some(SyntaxError::Trailing { line: number as usize }), ..reading }
            },
        }
    }
}

/// The reading after all of `lines`.
pub open spec fn read_lines(lines: Seq<Seq<char>>) -> Reading
    decreases lines.len(),
{
    if lines.len() == 0 {
        Reading { phase: Phase::Before, statements: Seq::empty(), error: None }
    } else {
        read_line(read_lines(lines.drop_last()), lines.len() as int, trim(lines.last()))
    }
}

/// The statements of the diagram that `text` writes, or the first reason why
/// it writes none.
pub open spec fn diagram(text: Seq<char>) -> Result<Seq<StatementView>, SyntaxError> {
    let reading = read_lines(lines(text));
    match reading.error {
        Some(error) => Err(error),
        None => match reading.phase {
            Phase::Before => Err(SyntaxError::MissingStart),
            Phase::After => Ok(reading.statements),
            _ => Err(SyntaxError::MissingEnd),
        },
    }
}

/// The closing quote lies at or after `from`, within the text.
pub proof fn lemma_closing_quote_bounds(s: Seq<char>, from: int)
    requires
        0 <= from,
        closing_quote(s, from) is Some,
    ensures
        from <= closing_quote(s, from)->0 < s.len(),
    decreases s.len() - from,
{
    if from < s.len() && s[from] != '"' {
        if s[from] == '\\' {
            lemma_closing_quote_bounds(s, from + 2);
        } else {
            lemma_closing_quote_bounds(s, from + 1);
        }
    }
}

/// What follows an identifier is part of the text that begins with it.
pub proof fn lemma_identifier_rest_is_part(s: Seq<char>)
    requires
        identifier(s) is Some,
    ensures
        is_part((identifier(s)->0).1, s),
        s.len() > 0,
        s[0] == '"' || is_word_char(s[0]),
{
    if s.len() > 0 && s[0] == '"' {
        lemma_closing_quote_bounds(s, 1);
        lemma_subrange_is_part(s, closing_quote(s, 1)->0 + 1, s.len() as int);
    } else {
        lemma_leading_bounds(s, CharClass::Word);
        lemma_subrange_is_part(s, leading(s, CharClass::Word), s.len() as int);
    }
}

/// A line that writes a message is not blank, is no marker of the start or
/// the end of a diagram, and is not the line that ends a note.
pub proof fn lemma_message_line(line: Seq<char>)
    requires
        message_statement(line) is Some,
    ensures
        line.len() > 0,
        !is_marker(line, "@startuml"@),
        !is_marker(line, "@enduml"@),
        line != "end note"@,
{
    lemma_identifier_rest_is_part(line);
    reveal_strlit("@startuml");
    reveal_strlit("@enduml");
    if is_marker(line, "@startuml"@) {
        assert(line.subrange(0, "@startuml"@.len() as int)[0] == '@');
    }
    if is_marker(line, "@enduml"@) {
        assert(line.subrange(0, "@enduml"@.len() as int)[0] == '@');
    }
    // The arrow of the message begins with a character of punctuation, and
    // `end note` holds none.
    let rest = (identifier(line)->0).1;
    let ahead = skip_blank(rest);
    lemma_trim_start_is_part(rest, CharClass::Whitespace);
    lemma_part_of_part(ahead, rest, line);
    lemma_leading_bounds(ahead, CharClass::Symbol);
    assert(lead(ahead, CharClass::Symbol).len() > 0);
    let at = lemma_part_starts_in_whole(ahead, line);
    assert(is_symbol_char(line[at]));
    if line == "end note"@ {
        reveal_strlit("end note");
        let note = "end note"@;
        assert(!is_symbol_char(note[0]) && !is_symbol_char(note[1]) && !is_symbol_char(note[2])
            && !is_symbol_char(note[3]) && !is_symbol_char(note[4]) && !is_symbol_char(note[5])
            && !is_symbol_char(note[6]) && !is_symbol_char(note[7]));
    }
}

/// What may follow the right-hand side of a message: nothing, or white space,
/// a colon and the text of the label.
pub open spec fn label_tail(blank: Seq<char>, label: Option<Seq<char>>) -> Seq<char> {
    match label {
        Some(text) => blank + seq![':'] + text,
        None => Seq::empty(),
    }
}

/// A word, followed by a text that does not go on with a word character, is
/// the identifier at the start.
pub proof fn lemma_word_is_identifier(name: Seq<char>, rest: Seq<char>)
    requires
        name.len() > 0,
        all_in(name, CharClass::Word),
        rest.len() == 0 || !is_word_char(rest[0]),
    ensures
        identifier(name + rest) == Some((name, rest)),
        word(name + rest) == name,
        after_word(name + rest) == rest,
{
    lemma_leading_run(name, rest, CharClass::Word);
    assert((name + rest)[0] == name[0]);
    assert(CharClass::Word.holds(name[0]));
}

/// White space, followed by a text that does not begin with white space, is
/// what skipping blanks takes away.
pub proof fn lemma_gap_is_skipped(gap: Seq<char>, rest: Seq<char>)
    requires
        all_in(gap, CharClass::Whitespace),
        rest.len() == 0 || !is_whitespace(rest[0]),
    ensures
        skip_blank(gap + rest) == rest,
{
    lemma_leading_run(gap, rest, CharClass::Whitespace);
}

/// No identifier begins with a character of punctuation.
pub proof fn lemma_no_identifier_at_symbol(s: Seq<char>)
    requires
        s.len() > 0,
        is_symbol_char(s[0]),
    ensures
        identifier(s) is None,
{
    assert(leading(s, CharClass::Word) == 0);
}

/// A line whose parts are read as an identifier, an arrow, an identifier and
/// a colon with a text writes the message of these parts.
proof fn lemma_message_of_parts(
    line: Seq<char>,
    left: Seq<char>,
    after_left: Seq<char>,
    arrow: Seq<char>,
    after_arrow: Seq<char>,
    right: Seq<char>,
    tail: Seq<char>,
    text: Seq<char>,
)
    requires
        identifier(line) == Some((left, after_left)),
        lead(skip_blank(after_left), CharClass::Symbol) == arrow,
        after_lead(skip_blank(after_left), CharClass::Symbol) == after_arrow,
        arrow.len() > 0,
        identifier(skip_blank(after_arrow)) == Some((right, tail)),
        skip_blank(tail).len() == 0 && text.len() == 0 || skip_blank(tail).len() > 0 && skip_blank(
            tail,
        )[0] == ':' && text == trim(skip_blank(tail).subrange(1, skip_blank(tail).len() as int)),
    ensures
        message_statement(line) == Some(StatementView::Message { left, arrow, right, text }),
{
    assert(text.len() == 0 ==> text =~= Seq::<char>::empty());
}

/// A line made of a word, an arrow of punctuation and a word, with or
/// without white space between them and with or without a label, writes the
/// message between the two words: `X <- Y: m` writes the message with `X` on
/// the left, `Y` on the right, the arrow `<-` and the text `m`.
pub proof fn lemma_line_of_words_is_message(
    left: Seq<char>,
    gap: Seq<char>,
    arrow: Seq<char>,
    other_gap: Seq<char>,
    right: Seq<char>,
    blank: Seq<char>,
    label: Option<Seq<char>>,
)
    requires
        left.len() > 0,
        all_in(left, CharClass::Word),
        all_in(gap, CharClass::Whitespace),
        arrow.len() > 0,
        all_in(arrow, CharClass::Symbol),
        all_in(other_gap, CharClass::Whitespace),
        right.len() > 0,
        all_in(right, CharClass::Word),
        all_in(blank, CharClass::Whitespace),
    ensures
        statement(left + gap + arrow + other_gap + right + label_tail(blank, label)) == Some(
            StatementView::Message {
                left,
                arrow,
                right,
                text: match label {
                    Some(text) => trim(text),
                    None => Seq::empty(),
                },
            },
        ),
{
    let tail = label_tail(blank, label);
    let at_right = right + tail;
    let after_arrow = other_gap + at_right;
    let at_arrow = arrow + after_arrow;
    let after_left = gap + at_arrow;
    let line = left + gap + arrow + other_gap + right + tail;
    let text = match label {
        Some(text) => trim(text),
        None => Seq::empty(),
    };
    assert(line =~= left + after_left);
    assert(CharClass::Symbol.holds(arrow[0]));
    assert(CharClass::Word.holds(right[0]));
    assert(at_arrow[0] == arrow[0]);
    assert(at_right[0] == right[0]);
    // The left-hand word ends where the gap or the arrow begins.
    assert(!is_word_char(after_left[0])) by {
        if gap.len() > 0 {
            assert(CharClass::Whitespace.holds(gap[0]));
            assert(after_left[0] == gap[0]);
        } else {
            assert(after_left =~= at_arrow);
        }
    }
    lemma_word_is_identifier(left, after_left);
    lemma_gap_is_skipped(gap, at_arrow);
    // The arrow ends where the gap or the right-hand word begins.
    assert(!is_symbol_char(after_arrow[0])) by {
        if other_gap.len() > 0 {
            assert(CharClass::Whitespace.holds(other_gap[0]));
            assert(after_arrow[0] == other_gap[0]);
        } else {
            assert(after_arrow =~= at_right);
        }
    }
    lemma_leading_run(arrow, after_arrow, CharClass::Symbol);
    lemma_gap_is_skipped(other_gap, at_right);
    // The right-hand word ends where the line ends or the label begins.
    match label {
        Some(written) => {
            let colon = seq![':'] + written;
            assert(tail =~= blank + colon);
            assert(colon[0] == ':');
            assert(!is_word_char(tail[0])) by {
                if blank.len() > 0 {
                    assert(CharClass::Whitespace.holds(blank[0]));
                    assert(tail[0] == blank[0]);
                } else {
                    assert(tail =~= colon);
                }
            }
            lemma_gap_is_skipped(blank, colon);
            assert(colon.subrange(1, colon.len() as int) =~= written);
        },
        None => {},
    }
    lemma_word_is_identifier(right, tail);
    lemma_message_of_parts(line, left, after_left, arrow, after_arrow, right, tail, text);
    lemma_no_identifier_at_symbol(at_arrow);
}

/// Finds the quote that closes a quoted string whose content begins at `from`.
fn find_closing_quote(s: &[char], from: usize) -> (r: Option<usize>)
    requires
        from <= s.len(),
    ensures
        match r {
            Some(close) => closing_quote(s@, from as int) == Some(close as int) && from <= close
                < s.len(),
            None => closing_quote(s@, from as int) is None,
        },
{
    let mut i: usize = from;
    while i < s.len()
        invariant
            from <= i <= s.len(),
            closing_quote(s@, from as int) == closing_quote(s@, i as int),
        decreases s.len() - i,
    {
        if s[i] == '"' {
            return Some(i);
        } else if s[i] == '\\' {
            if i + 1 < s.len() {
                i += 2;
            } else {
                return None;
            }
        } else {
            i += 1;
        }
    }
    None
}

/// Reads the quoted string at the start of `s`: gives the raw text between
/// the quotes and what follows the closing quote.
pub fn extract_quoted_string<'a>(s: &'a [char]) -> (r: Option<(&'a [char], &'a [char])>)
    ensures
        match r {
            Some((inner, rest)) => quoted_string(s@) == Some((inner@, rest@)),
            None => quoted_string(s@) is None,
        },
{
    if s.len() > 0 && s[0] == '"' {
        match find_closing_quote(s, 1) {
            Some(close) => Some(
                (slice_subrange(s, 1, close), slice_subrange(s, close + 1, s.len())),
            ),
            None => None,
        }
    } else {
        None
    }
}

/// Reads the identifier at the start of `s`: gives its text and what follows it.
pub fn extract_identifier<'a>(s: &'a [char]) -> (r: Option<(&'a [char], &'a [char])>)
    ensures
        match r {
            Some((id, rest)) => identifier(s@) == Some((id@, rest@)),
            None => identifier(s@) is None,
        },
{
    if s.len() > 0 && s[0] == '"' {
        extract_quoted_string(s)
    } else {
        let (head, rest) = take(s, CharClass::Word);
        if head.len() > 0 {
            Some((head, rest))
        } else {
            None
        }
    }
}

/// Tests whether `s` begins with white space.
fn begins_blank(s: &[char]) -> (r: bool)
    ensures
        r == starts_blank(s@),
{
    s.len() > 0 && CharClass::is_space(s[0])
}

/// Strips leading white space.
fn skip<'a>(s: &'a [char]) -> (r: &'a [char])
    ensures
        r@ == skip_blank(s@),
{
    strip_start(s, CharClass::Whitespace)
}

/// Tests whether `kind` declares a participant.
fn participant_kind(kind: &[char]) -> (r: bool)
    ensures
        r == is_participant_kind(kind@),
{
    spells(kind, "participant") || spells(kind, "actor") || spells(kind, "boundary") || spells(
        kind,
        "control",
    ) || spells(kind, "entity") || spells(kind, "database") || spells(kind, "collections")
        || spells(kind, "queue")
}

/// Tests whether `keyword` opens a statement that stands for nothing.
fn passive_keyword(keyword: &[char]) -> (r: bool)
    ensures
        r == is_passive_keyword(keyword@),
{
    spells(keyword, "note") || spells(keyword, "alt") || spells(keyword, "else") || spells(
        keyword,
        "opt",
    ) || spells(keyword, "loop") || spells(keyword, "par") || spells(keyword, "break") || spells(
        keyword,
        "critical",
    ) || spells(keyword, "group") || spells(keyword, "end") || spells(keyword, "title") || spells(
        keyword,
        "autonumber",
    ) || spells(keyword, "hide") || spells(keyword, "skinparam") || spells(keyword, "box")
        || spells(keyword, "ref") || spells(keyword, "newpage") || spells(keyword, "create")
        || spells(keyword, "destroy") || spells(keyword, "return")
}

/// Tests whether a trimmed line is the marker `name`, alone or followed by
/// white space.
fn marker(line: &[char], name: &str) -> (r: bool)
    ensures
        r == is_marker(line@, name@),
{
    let letters = to_chars(name);
    if starts_with(line, letters.as_slice()) {
        line.len() == letters.len() || CharClass::is_space(line[letters.len()])
    } else {
        false
    }
}

/// Reads the identifier that alone follows `keyword` on a trimmed line.
fn read_keyword_target(line: &[char], keyword: &str) -> (r: Option<String>)
    ensures
        r.deep_view() == keyword_target(line@, keyword@),
{
    let (head, rest) = take(line, CharClass::Word);
    if spells(head, keyword) && begins_blank(rest) {
        match extract_identifier(skip(rest)) {
            Some((id, end)) => {
                if skip(end).len() == 0 {
                    Some(to_string(id))
                } else {
                    None
                }
            },
            None => None,
        }
    } else {
        None
    }
}

/// Reads the alias clause of a participant declaration.
fn read_alias_clause(rest: &[char]) -> (r: Option<Option<String>>)
    ensures
        r.deep_view() == alias_clause(rest@),
{
    let clause = skip(rest);
    if clause.len() == 0 {
        return Some(None);
    }
    let (head, after) = take(clause, CharClass::Word);
    if begins_blank(rest) && spells(head, "as") && begins_blank(after) {
        match extract_identifier(skip(after)) {
            Some((alias, end)) => {
                if skip(end).len() == 0 {
                    Some(Some(to_string(alias)))
                } else {
                    None
                }
            },
            None => None,
        }
    } else {
        None
    }
}

/// Reads a participant declaration from a trimmed line.
fn read_participant(line: &[char]) -> (r: Option<Statement>)
    ensures
        r.deep_view() == participant_statement(line@),
{
    let (kind, rest) = take(line, CharClass::Word);
    if participant_kind(kind) && begins_blank(rest) {
        match extract_identifier(skip(rest)) {
            Some((id, tail)) => match read_alias_clause(tail) {
                Some(alias) => Some(
                    Statement::Participant { kind: to_string(kind), id: to_string(id), alias },
                ),
                None => None,
            },
            None => None,
        }
    } else {
        None
    }
}

/// Reads a message from a trimmed line.
fn read_message(line: &[char]) -> (r: Option<Statement>)
    ensures
        r.deep_view() == message_statement(line@),
{
    match extract_identifier(line) {
        Some((left, rest)) => {
            let (arrow, after) = take(skip(rest), CharClass::Symbol);
            match extract_identifier(skip(after)) {
                Some((right, end)) => {
                    let tail = skip(end);
                    if arrow.len() == 0 {
                        None
                    } else if tail.len() == 0 {
                        let text = String::new();
                        Some(
                            Statement::Message {
                                left: to_string(left),
                                arrow: to_string(arrow),
                                right: to_string(right),
                                text,
                            },
                        )
                    } else if tail[0] == ':' {
                        let text = strip(slice_subrange(tail, 1, tail.len()));
                        Some(
                            Statement::Message {
                                left: to_string(left),
                                arrow: to_string(arrow),
                                right: to_string(right),
                                text: to_string(text),
                            },
                        )
                    } else {
                        None
                    }
                },
                None => None,
            }
        },
        None => None,
    }
}

/// Tests whether a trimmed line is a comment or begins with a passive keyword.
fn passive(line: &[char]) -> (r: bool)
    ensures
        r == is_passive(line@),
{
    let (head, _rest) = take(line, CharClass::Word);
    let divider = to_chars("==");
    let delay = to_chars("...");
    let spacing = to_chars("|||");
    (line.len() > 0 && line[0] == '\'') || passive_keyword(head) || starts_with(
        line,
        divider.as_slice(),
    ) || starts_with(line, delay.as_slice()) || starts_with(line, spacing.as_slice())
}

/// Tests whether a trimmed line opens a note of several lines.
fn note_opener(line: &[char]) -> (r: bool)
    ensures
        r == opens_note(line@),
{
    let (head, _rest) = take(line, CharClass::Word);
    spells(head, "note") && find_char(line, ':') >= line.len()
}

/// Reads the statement on a trimmed line.
pub fn read_statement(line: &[char]) -> (r: Option<Statement>)
    ensures
        r.deep_view() == statement(line@),
{
    let participant = read_participant(line);
    if participant.is_some() {
        return participant;
    }
    match read_keyword_target(line, "activate") {
        Some(id) => {
            return Some(Statement::Activate { id });
        },
        None => {},
    }
    match read_keyword_target(line, "deactivate") {
        Some(id) => {
            return Some(Statement::Deactivate { id });
        },
        None => {},
    }
    let message = read_message(line);
    if message.is_some() {
        return message;
    }
    if passive(line) {
        Some(Statement::Other)
    } else {
        None
    }
}

/// Reads the statements of a diagram from its text.
pub fn read_diagram(text: &[char]) -> (r: Result<Vec<Statement>, SyntaxError>)
    ensures
        match r {
            Ok(statements) => diagram(text@) == Ok::<Seq<StatementView>, SyntaxError>(
                statements.deep_view(),
            ),
            Err(error) => diagram(text@) == Err::<Seq<StatementView>, SyntaxError>(error),
        },
{
    let lines = split_lines(text);
    let mut statements: Vec<Statement> = Vec::new();
    let mut phase = Phase::Before;
    let mut i: usize = 0;
    proof {
        lemma_views_ends(lines@);
    }
    assert(statements.deep_view() =~= Seq::empty());
    while i < lines.len()
        invariant
            i <= lines.len(),
            views(lines@) == crate::text::lines(text@),
            read_lines(views(lines@).subrange(0, i as int)) == (Reading {
                phase,
                statements: statements.deep_view(),
                error: None,
            }),
        decreases lines.len() - i,
    {
        let ghost before = statements.deep_view();
        proof {
            lemma_views_step(lines@, i as int);
        }
        let line = strip(lines[i]);
        let mut error: Option<SyntaxError> = None;
        match phase {
            Phase::Before => {
                if line.len() == 0 {
                } else if marker(line, "@startuml") {
                    phase = Phase::Inside;
                } else {
                    error = Some(SyntaxError::MissingStart);
                }
            },
            Phase::Inside => {
                if line.len() == 0 {
                } else if marker(line, "@enduml") {
                    phase = Phase::After;
                } else {
                    match read_statement(line) {
                        Some(s) => {
                            let is_other = match &s {
                                Statement::Other => true,
                                _ => false,
                            };
                            if is_other && note_opener(line) {
                                phase = Phase::Note;
                            }
                            statements.push(s);
                            assert(statements.deep_view() =~= before.push(s.deep_view()));
                        },
                        None => {
                            error = Some(SyntaxError::Unrecognized { line: i + 1 });
                        },
                    }
                }
            },
            Phase::Note => {
                if spells(line, "end note") {
                    phase = Phase::Inside;
                }
            },
            Phase::After => {
                if line.len() != 0 {
                    error = Some(SyntaxError::Trailing { line: i + 1 });
                }
            },
        }
        match error {
            Some(e) => {
                proof {
                    lemma_error_stays(views(lines@), i + 1);
                    assert(views(lines@).subrange(0, lines@.len() as int) =~= views(lines@));
                }
                return Err(e);
            },
            None => {},
        }
        i += 1;
    }
    proof {
        lemma_views_ends(lines@);
    }
    match phase {
        Phase::Before => Err(SyntaxError::MissingStart),
        Phase::After => Ok(statements),
        _ => Err(SyntaxError::MissingEnd),
    }
}

/// An error found in a prefix of the lines is the error of all the lines.
pub proof fn lemma_error_stays(lines: Seq<Seq<char>>, n: int)
    requires
        0 <= n <= lines.len(),
        read_lines(lines.subrange(0, n)).error is Some,
    ensures
        read_lines(lines).error == read_lines(lines.subrange(0, n)).error,
    decreases lines.len(),
{
    if n == lines.len() {
        assert(lines.subrange(0, n) =~= lines);
    } else {
        assert(lines.drop_last().subrange(0, n) =~= lines.subrange(0, n));
        lemma_error_stays(lines.drop_last(), n);
    }
}

} // verus!
