//! The conversation as styled lines, and the copy buttons on them.
use std::borrow::Cow;

use vstd::prelude::*;
use vstd::slice::slice_subrange;

use crate::chat::{conversation, Message, MessageView, Role};
use crate::highlight::Highlighter;
use crate::markdown::{
    code_blocks, code_of, extensions, headers_in_order, headers_mark_copy_buttons, indices,
    is_code_header, line_borrows, lines_borrow, render, rendered, string_views, COPY_BUTTON,
};
use crate::parser::borrows_all;
use crate::style::{
    a_styled_line_holds_its_text, accent, all_borrowed, line_views, Color, Line, LineView, Span, Style,
};
use crate::terminal::{
    draw_row, line_texts, paragraph_rows, row_cells, rows_of, span_texts, MAX_COLUMNS,
};
use crate::text::{lines, lines_hold_no_line_feed, lines_of, views};

verus! {

/// What stands over a message of the user.
pub const USER_HEADER: &'static str = "❯ you";

/// What stands over a message of the assistant.
pub const ASSISTANT_HEADER: &'static str = "◆ assistant";

/// The colour of what the user wrote, and of notices.
#[verifier::allow_in_spec]
pub fn user_color() -> Color
    returns
        Color::Rgb(166, 227, 161),
{
    Color::Rgb(166, 227, 161)
}

/// A code block's copy button in the transcript.
#[derive(Debug, Clone, Copy, PartialEq, Eq, Structural)]
pub struct CopyButton {
    /// The transcript line the button is on.
    pub line: usize,
    /// The message the code block belongs to.
    pub message: usize,
    /// Which code block of that message it is.
    pub block: usize,
}

/// A copy button as mathematical values.
pub struct ButtonView {
    pub line: int,
    pub message: int,
    pub block: int,
}

impl View for CopyButton {
    type V = ButtonView;

    open spec fn view(&self) -> ButtonView {
        ButtonView { line: self.line as int, message: self.message as int, block: self.block as int }
    }
}

/// The views of some buttons.
pub open spec fn button_views(buttons: Seq<CopyButton>) -> Seq<ButtonView> {
    buttons.map_values(|button: CopyButton| button@)
}

/// The lines of a conversation, and the copy buttons on them.
#[verifier::ext_equal]
pub struct TranscriptView {
    pub lines: Seq<LineView>,
    pub buttons: Seq<ButtonView>,
}

impl TranscriptView {
    /// The message at `index` is added: nothing for the system prompt, which is not shown; else a
    /// header, the message, and a blank line. What the user wrote is shown as it is, what the
    /// assistant wrote as Markdown.
    pub open spec fn add(
        self,
        index: int,
        message: MessageView,
        highlighter: Highlighter,
    ) -> Self {
        match message.role {
            Role::System => self,
            Role::User => TranscriptView {
                lines: self.lines.push(
                    LineView::styled(USER_HEADER@, Style::colored(user_color()).bold()),
                ) + plain_lines(lines(message.content)) + seq![LineView::blank()],
                buttons: self.buttons,
            },
            Role::Assistant => {
                let markdown = rendered(message.content, highlighter);
                TranscriptView {
                    lines: self.lines.push(
                        LineView::styled(ASSISTANT_HEADER@, Style::colored(accent()).bold()),
                    ) + markdown.lines + seq![LineView::blank()],
                    buttons: self.buttons + buttons_of(
                        self.lines.len() as int + 1,
                        index,
                        markdown.code_headers,
                    ),
                }
            },
        }
    }
}

/// Texts as lines of their own.
pub open spec fn plain_lines(texts: Seq<Seq<char>>) -> Seq<LineView> {
    texts.map_values(|text: Seq<char>| LineView::styled(text, Style::plain()))
}

/// The buttons of the message at `message`, whose Markdown starts at line `first` of the
/// transcript.
pub open spec fn buttons_of(first: int, message: int, code_headers: Seq<int>) -> Seq<ButtonView> {
    Seq::new(
        code_headers.len(),
        |block: int| ButtonView { line: first + code_headers[block], message, block },
    )
}

/// The transcript of a conversation.
pub open spec fn transcript(messages: Seq<MessageView>, highlighter: Highlighter) -> TranscriptView
    decreases messages.len(),
{
    if messages.len() == 0 {
        TranscriptView { lines: Seq::empty(), buttons: Seq::empty() }
    } else {
        transcript(messages.drop_last(), highlighter).add(
            messages.len() - 1,
            messages.last(),
            highlighter,
        )
    }
}

/// Whether the buttons stand one below the other on lines that end with a copy button, and each
/// is of a code block that the assistant wrote.
pub open spec fn buttons_in_order(shown: TranscriptView, messages: Seq<MessageView>) -> bool {
    &&& forall|i: int|
        #![trigger shown.buttons[i]]
        0 <= i < shown.buttons.len() ==> button_in_place(shown.lines, shown.buttons[i], messages)
    &&& forall|i: int, j: int|
        0 <= i < j < shown.buttons.len() ==> shown.buttons[i].line < shown.buttons[j].line
}

/// Whether a button's line ends with a copy button, and its message is the assistant's.
pub open spec fn button_in_place(
    lines: Seq<LineView>,
    button: ButtonView,
    messages: Seq<MessageView>,
) -> bool {
    &&& 0 <= button.line < lines.len()
    &&& is_code_header(lines[button.line])
    &&& 0 <= button.message < messages.len()
    &&& messages[button.message].role == Role::Assistant
    &&& 0 <= button.block
}

/// In every conversation the copy buttons stand one below the other, each on the header of a code
/// block that the assistant wrote.
pub proof fn buttons_mark_code_blocks(messages: Seq<MessageView>, highlighter: Highlighter)
    ensures
        buttons_in_order(transcript(messages, highlighter), messages),
    decreases messages.len(),
{
    if messages.len() > 0 {
        let before = transcript(messages.drop_last(), highlighter);
        let after = transcript(messages, highlighter);
        buttons_mark_code_blocks(messages.drop_last(), highlighter);
        headers_mark_copy_buttons(messages.last().content, highlighter);
        let markdown = rendered(messages.last().content, highlighter);
        let first = before.lines.len() + 1;
        assert forall|i: int|
            #![trigger after.buttons[i]]
            0 <= i < after.buttons.len() implies button_in_place(
            after.lines,
            after.buttons[i],
            messages,
        ) by {
            if i < before.buttons.len() {
                let button = before.buttons[i];
                assert(after.buttons[i] == button);
                assert(button_in_place(before.lines, button, messages.drop_last()));
                assert(messages.drop_last()[button.message] == messages[button.message]);
                assert(after.lines[button.line] == before.lines[button.line]);
            } else {
                let block = i - before.buttons.len();
                let header = markdown.code_headers[block];
                assert(after.buttons[i] == (ButtonView {
                    line: first + header,
                    message: messages.len() - 1,
                    block,
                }));
                assert(after.lines[first + header] == markdown.lines[header]);
            }
        }
        assert forall|i: int, j: int| 0 <= i < j < after.buttons.len() implies after.buttons[i].line
            < after.buttons[j].line by {
            if i < before.buttons.len() {
                assert(after.buttons[i] == before.buttons[i]);
                assert(button_in_place(before.lines, before.buttons[i], messages.drop_last()));
            }
            if j < before.buttons.len() {
                assert(after.buttons[j] == before.buttons[j]);
            }
        }
    }
}

/// Whether every message of the assistant is rendered with one header for each of its code
/// blocks.
pub open spec fn one_header_per_block(
    messages: Seq<MessageView>,
    highlighter: Highlighter,
) -> bool {
    forall|m: int|
        0 <= m < messages.len() && (#[trigger] messages[m]).role == Role::Assistant ==> rendered(
            messages[m].content,
            highlighter,
        ).code_headers.len() == code_of(messages[m].content).len()
}

/// Whether the button for block `block` of message `message` is among `buttons`.
pub open spec fn has_button(buttons: Seq<ButtonView>, message: int, block: int) -> bool {
    exists|i: int|
        0 <= i < buttons.len() && (#[trigger] buttons[i]).message == message && buttons[i].block
            == block
}

/// Every code block that the assistant wrote has a copy button, and every copy button is of a
/// code block that exists.
pub proof fn every_code_block_has_a_button(
    messages: Seq<MessageView>,
    highlighter: Highlighter,
    message: int,
    block: int,
)
    requires
        one_header_per_block(messages, highlighter),
        0 <= message < messages.len(),
    ensures
        has_button(transcript(messages, highlighter).buttons, message, block) <==> (
        messages[message].role == Role::Assistant && 0 <= block < code_of(
            messages[message].content,
        ).len()),
    decreases messages.len(),
{
    let before = transcript(messages.drop_last(), highlighter);
    let after = transcript(messages, highlighter);
    let last = messages.len() - 1;
    let added = buttons_of(
        before.lines.len() as int + 1,
        last,
        rendered(messages.last().content, highlighter).code_headers,
    );
    assert(one_header_per_block(messages.drop_last(), highlighter)) by {
        assert forall|m: int|
            0 <= m < last && (#[trigger] messages.drop_last()[m]).role
                == Role::Assistant implies rendered(
            messages.drop_last()[m].content,
            highlighter,
        ).code_headers.len() == code_of(messages.drop_last()[m].content).len() by {
            assert(messages[m].role == Role::Assistant);
        }
    }
    buttons_mark_code_blocks(messages.drop_last(), highlighter);
    if message < last {
        every_code_block_has_a_button(messages.drop_last(), highlighter, message, block);
        if has_button(before.buttons, message, block) {
            let i = choose|i: int|
                0 <= i < before.buttons.len() && (#[trigger] before.buttons[i]).message == message
                    && before.buttons[i].block == block;
            assert(after.buttons[i] == before.buttons[i]);
        }
        if has_button(after.buttons, message, block) {
            let i = choose|i: int|
                0 <= i < after.buttons.len() && (#[trigger] after.buttons[i]).message == message
                    && after.buttons[i].block == block;
            assert(i < before.buttons.len());
            assert(after.buttons[i] == before.buttons[i]);
        }
    } else {
        if messages[message].role == Role::Assistant && 0 <= block < code_of(
            messages[message].content,
        ).len() {
            assert(added[block].message == message);
            assert(after.buttons[before.buttons.len() + block] == added[block]);
        }
        if has_button(after.buttons, message, block) {
            let i = choose|i: int|
                0 <= i < after.buttons.len() && (#[trigger] after.buttons[i]).message == message
                    && after.buttons[i].block == block;
            if i < before.buttons.len() {
                assert(after.buttons[i] == before.buttons[i]);
                assert(button_in_place(before.lines, before.buttons[i], messages.drop_last()));
            } else {
                assert(after.buttons[i] == added[i - before.buttons.len()]);
            }
        }
    }
}

/// Whether the lines that show a message borrow its text. Those of the user do; those of the
/// assistant do in code blocks, and elsewhere where the parser does not rewrite the text.
pub open spec fn message_borrows(message: MessageView, lines: Seq<Line<'_>>) -> bool {
    if message.role == Role::Assistant {
        lines_borrow(lines, borrows_all(message.content, extensions()))
    } else {
        forall|i: int| 0 <= i < lines.len() ==> all_borrowed((#[trigger] lines[i]).spans@)
    }
}

/// Whether the lines that show a conversation borrow the text of its messages.
pub open spec fn transcript_borrows(
    lines: Seq<Line<'_>>,
    messages: Seq<MessageView>,
    highlighter: Highlighter,
) -> bool
    decreases messages.len(),
{
    messages.len() == 0 || {
        let before = transcript(messages.drop_last(), highlighter).lines.len() as int;
        &&& before <= lines.len()
        &&& transcript_borrows(lines.take(before), messages.drop_last(), highlighter)
        &&& message_borrows(messages.last(), lines.skip(before))
    }
}

/// Turns the conversation into styled lines, and notes where the copy buttons are. The lines
/// borrow the message text; nothing is copied.
pub fn transcript_lines<'a>(messages: &'a [Message], highlighter: &Highlighter) -> (shown: (
    Vec<Line<'a>>,
    Vec<CopyButton>,
))
    requires
        highlighter.wf(),
    ensures
        line_views(shown.0@) == transcript(conversation(messages@), *highlighter).lines,
        button_views(shown.1@) == transcript(conversation(messages@), *highlighter).buttons,
        one_header_per_block(conversation(messages@), *highlighter),
        transcript_borrows(shown.0@, conversation(messages@), *highlighter),
{
    let mut lines: Vec<Line<'a>> = Vec::new();
    let mut buttons: Vec<CopyButton> = Vec::new();
    let ghost all = conversation(messages@);
    assert(all.take(0) =~= Seq::empty());
    assert(line_views(lines@) =~= Seq::empty());
    assert(button_views(buttons@) =~= Seq::empty());
    for index in 0..messages.len()
        invariant
            highlighter.wf(),
            all == conversation(messages@),
            line_views(lines@) == transcript(all.take(index as int), *highlighter).lines,
            button_views(buttons@) == transcript(all.take(index as int), *highlighter).buttons,
            one_header_per_block(all.take(index as int), *highlighter),
            transcript_borrows(lines@, all.take(index as int), *highlighter),
    {
        let message: &'a Message = &messages[index];
        let ghost before = all.take(index as int);
        let ghost after = all.take(index + 1);
        proof {
            assert(after.drop_last() =~= before);
            assert(after.last() == message@);
        }
        let ghost shown = lines@;
        add_message(&mut lines, &mut buttons, index, message, highlighter);
        assert(transcript_borrows(lines@, after, *highlighter)) by {
            assert(shown.len() == line_views(shown).len());
        }
        assert(one_header_per_block(after, *highlighter)) by {
            assert forall|m: int|
                0 <= m < after.len() && (#[trigger] after[m]).role
                    == Role::Assistant implies rendered(
                after[m].content,
                *highlighter,
            ).code_headers.len() == code_of(after[m].content).len() by {
                if m < index {
                    assert(after[m] == before[m]);
                }
            }
        }
    }
    assert(all.take(all.len() as int) =~= all);
    (lines, buttons)
}

/// Adds the message at `index` to the transcript.
fn add_message<'a>(
    lines: &mut Vec<Line<'a>>,
    buttons: &mut Vec<CopyButton>,
    index: usize,
    message: &'a Message,
    highlighter: &Highlighter,
)
    requires
        highlighter.wf(),
    ensures
        (TranscriptView { lines: line_views(final(lines)@), buttons: button_views(final(buttons)@) })
            == (TranscriptView {
            lines: line_views(old(lines)@),
            buttons: button_views(old(buttons)@),
        }).add(index as int, message@, *highlighter),
        message.role == Role::Assistant ==> rendered(
            message.content@,
            *highlighter,
        ).code_headers.len() == code_of(message.content@).len(),
        old(lines)@.len() <= final(lines)@.len(),
        final(lines)@.take(old(lines)@.len() as int) == old(lines)@,
        message_borrows(message@, final(lines)@.skip(old(lines)@.len() as int)),
{
    let ghost above = lines@;
    let ghost all = borrows_all(message.content@, extensions());
    let ghost before = TranscriptView {
        lines: line_views(lines@),
        buttons: button_views(buttons@),
    };
    let content: &'a str = message.content.as_str();
    match message.role {
        Role::System => {
            // the system prompt is not shown
            assert(lines@.take(above.len() as int) =~= above);
            return ;
        },
        Role::User => {
            lines.push(
                Line::styled(Cow::Borrowed(USER_HEADER), Style::colored(user_color()).bold()),
            );
            assert(lines@.take(above.len() as int) =~= above);
            let ghost headed = line_views(lines@);
            let text_lines: Vec<&'a str> = lines_of(content);
            for line in 0..text_lines.len()
                invariant
                    line_views(lines@) == headed + plain_lines(views(text_lines@).take(line as int)),
                    above.len() <= lines@.len(),
                    lines@.take(above.len() as int) == above,
                    forall|i: int|
                        above.len() <= i < lines@.len() ==> all_borrowed(
                            (#[trigger] lines@[i]).spans@,
                        ),
            {
                let ghost shown = line_views(lines@);
                let ghost earlier = lines@;
                lines.push(Line::styled(Cow::Borrowed(text_lines[line]), Style::plain()));
                assert(lines@.take(above.len() as int) =~= earlier.take(above.len() as int));
                let ghost text = views(text_lines@)[line as int];
                assert(line_views(lines@) =~= shown.push(LineView::styled(text, Style::plain())));
                assert(plain_lines(views(text_lines@).take(line + 1)) =~= plain_lines(
                    views(text_lines@).take(line as int),
                ).push(LineView::styled(text, Style::plain())));
                assert(line_views(lines@) =~= headed + plain_lines(
                    views(text_lines@).take(line + 1),
                ));
            }
            assert(views(text_lines@).take(text_lines@.len() as int) =~= views(text_lines@));
        },
        Role::Assistant => {
            lines.push(
                Line::styled(Cow::Borrowed(ASSISTANT_HEADER), Style::colored(accent()).bold()),
            );
            let ghost headed = line_views(lines@);
            let mut markdown = render(content, highlighter);
            let ghost shown = markdown@;
            let first: usize = lines.len();
            let ghost text = markdown.lines@;
            lines.append(&mut markdown.lines);
            assert(line_views(lines@) =~= headed + shown.lines);
            assert(lines@.take(above.len() as int) =~= above);
            assert forall|i: int| above.len() <= i < lines@.len() implies line_borrows(
                (#[trigger] lines@[i]).spans@,
                all,
            ) by {
                if i > above.len() {
                    assert(lines@[i] == text[i - above.len() - 1]);
                }
            }
            let headers: Vec<usize> = markdown.code_headers;
            let ghost added = buttons_of(first as int, index as int, indices(headers@));
            for block in 0..headers.len()
                invariant
                    shown.code_headers == indices(headers@),
                    headers_in_order(shown.lines, shown.code_headers),
                    lines@.len() == first + shown.lines.len(),
                    added == buttons_of(first as int, index as int, indices(headers@)),
                    button_views(buttons@) == before.buttons + added.take(block as int),
            {
                assert(shown.code_headers[block as int] == headers@[block as int]);
                assert(first + headers@[block as int] < lines.len());
                let line: usize = first + headers[block];
                let ghost placed = button_views(buttons@);
                buttons.push(CopyButton { line, message: index, block });
                assert(button_views(buttons@) =~= placed.push(added[block as int]));
                assert(added.take(block + 1) =~= added.take(block as int).push(added[block as int]));
                assert(button_views(buttons@) =~= before.buttons + added.take(block + 1));
            }
            assert(added.take(added.len() as int) =~= added);
        },
    }
    let ghost shown = line_views(lines@);
    let ghost earlier = lines@;
    lines.push(Line::blank());  // blank line between messages
    assert(lines@.take(above.len() as int) =~= earlier.take(above.len() as int));
    assert(forall|i: int|
        0 <= i < lines@.len() - above.len() ==> (#[trigger] lines@.skip(above.len() as int)[i])
            == lines@[i + above.len()]);
    assert(line_views(lines@) =~= shown + seq![LineView::blank()]);
}

/// How many rows each line takes in a number of columns, wrapped between words.
pub open spec fn row_counts(lines: Seq<LineView>, width: u16) -> Seq<usize> {
    lines.map_values(|line: LineView| paragraph_rows(seq![line.texts()], false, width))
}

/// The index of the line that a row falls on, and which of the line's rows it is, where each line
/// takes so many rows.
pub open spec fn line_at(counts: Seq<usize>, row: int) -> Option<(int, int)>
    decreases counts.len(),
{
    if counts.len() == 0 {
        None
    } else if row < counts[0] {
        Some((0, row))
    } else {
        match line_at(counts.skip(1), row - counts[0]) {
            Some((index, rest)) => Some((index + 1, rest)),
            None => None,
        }
    }
}

/// The first button on a line.
pub open spec fn button_on(buttons: Seq<ButtonView>, line: int) -> Option<ButtonView>
    decreases buttons.len(),
{
    if buttons.len() == 0 {
        None
    } else if buttons[0].line == line {
        Some(buttons[0])
    } else {
        button_on(buttons.skip(1), line)
    }
}

/// The modifiers by which the cells of a line's last text are told from the others: bold.
pub const MARK: u16 = 1;

/// Whether a column shows the text that was drawn with [`MARK`].
pub open spec fn is_marked(cells: Seq<u16>, column: int) -> bool {
    0 <= column < cells.len() && cells[column] == MARK
}

/// Whether a cell shows the last text of a line that is wrapped to `width` columns. The cell is
/// given by which of the line's rows it is on, and its column.
pub open spec fn is_on_last_text(
    texts: Seq<Seq<char>>,
    width: u16,
    row: int,
    column: int,
) -> bool {
    &&& row <= u16::MAX
    &&& is_marked(
        row_cells(texts.drop_last(), texts.last(), MARK, width, (4 * width) as u16, row as u16),
        column,
    )
}

/// The code of the block whose copy button is on a cell of the transcript, where the transcript is
/// wrapped to `width` columns and its lines take so many rows.
pub open spec fn code_on_cell(
    messages: Seq<MessageView>,
    highlighter: Highlighter,
    width: u16,
    counts: Seq<usize>,
    row: int,
    column: int,
) -> Option<Seq<char>> {
    let shown = transcript(messages, highlighter);
    match line_at(counts, row) {
        Some((line, rest)) => match button_on(shown.buttons, line) {
            Some(button) => if is_on_last_text(
                shown.lines[line].texts(),
                width,
                rest,
                column,
            ) {
                Some(code_of(messages[button.message].content)[button.block])
            } else {
                None
            },
            None => None,
        },
        None => None,
    }
}

/// How many rows each line takes in `width` columns.
fn count_rows(lines: &Vec<Line<'_>>, width: u16) -> (counts: Vec<usize>)
    requires
        width <= MAX_COLUMNS,
    ensures
        counts@ == row_counts(line_views(lines@), width),
{
    let mut counts: Vec<usize> = Vec::new();
    for index in 0..lines.len()
        invariant
            width <= MAX_COLUMNS,
            counts@ == row_counts(line_views(lines@).take(index as int), width),
    {
        let line: &[Line<'_>] = slice_subrange(lines.as_slice(), index, index + 1);
        assert(line_texts(line@) =~= seq![lines@[index as int]@.texts()]);
        counts.push(rows_of(line, false, width));
        assert(counts@ =~= row_counts(line_views(lines@).take(index + 1), width));
    }
    assert(line_views(lines@).take(lines@.len() as int) =~= line_views(lines@));
    counts
}

/// The index of the line that row `row` falls on, and which of the line's rows it is, where line
/// `i` takes `counts[i]` rows.
pub fn line_on_row(counts: &Vec<usize>, row: usize) -> (line: Option<(usize, usize)>)
    ensures
        match line {
            Some((line, rest)) => line_at(counts@, row as int) == Some((line as int, rest as int))
                && line < counts@.len(),
            None => line_at(counts@, row as int) is None,
        },
{
    let mut rest: usize = row;
    assert(counts@.skip(0) =~= counts@);
    for index in 0..counts.len()
        invariant
            line_at(counts@, row as int) == match line_at(counts@.skip(index as int), rest as int) {
                Some((line, rest)) => Some((line + index, rest)),
                None => None,
            },
    {
        let ghost left = counts@.skip(index as int);
        assert(left[0] == counts@[index as int]);
        assert(left.skip(1) =~= counts@.skip(index + 1));
        if rest < counts[index] {
            return Some((index, rest));
        }
        rest = rest - counts[index];
    }
    None
}

/// Tells whether a column shows the text that was drawn with [`MARK`].
pub fn on_button(cells: &Vec<u16>, column: u16) -> (result: bool)
    ensures
        result == is_marked(cells@, column as int),
{
    (column as usize) < cells.len() && cells[column as usize] == MARK
}

/// Tells whether a cell shows the last text of `line`, which is `last`. The line is wrapped to
/// `width` columns, and the cell is on row `row` of it.
fn on_last_text(line: &Line<'_>, last: &str, width: u16, row: usize, column: u16) -> (result: bool)
    requires
        width <= MAX_COLUMNS,
        line.spans@.len() > 0,
        line.spans@.last().content@ == last@,
    ensures
        result == is_on_last_text(line@.texts(), width, row as int, column as int),
{
    if row > u16::MAX as usize {
        return false;
    }
    let before: &[Span<'_>] = slice_subrange(line.spans.as_slice(), 0, line.spans.len() - 1);
    assert(span_texts(before@) =~= line@.texts().drop_last());
    on_button(&draw_row(before, last, MARK, width, 4 * width, row as u16), column)
}

/// The first button on line `line`.
fn find_button(buttons: &Vec<CopyButton>, line: usize) -> (button: Option<CopyButton>)
    ensures
        match button {
            Some(button) => button_on(button_views(buttons@), line as int) == Some(button@)
                && buttons@.contains(button),
            None => button_on(button_views(buttons@), line as int) is None,
        },
{
    let ghost all = button_views(buttons@);
    assert(all.skip(0) =~= all);
    for index in 0..buttons.len()
        invariant
            all == button_views(buttons@),
            button_on(all, line as int) == button_on(all.skip(index as int), line as int),
    {
        assert(all.skip(index as int)[0] == buttons@[index as int]@);
        assert(all.skip(index as int).skip(1) =~= all.skip(index + 1));
        if buttons[index].line == line {
            return Some(buttons[index]);
        }
    }
    None
}

/// The code of the block whose copy button is on row `row`, column `column` of the transcript,
/// wrapped to `width` columns.
pub fn code_at_cell(
    messages: &[Message],
    highlighter: &Highlighter,
    width: u16,
    row: usize,
    column: u16,
) -> (code: Option<String>)
    requires
        highlighter.wf(),
        width <= MAX_COLUMNS,
    ensures
        ({
            let shown = transcript(conversation(messages@), *highlighter);
            let expected = code_on_cell(
                conversation(messages@),
                *highlighter,
                width,
                row_counts(shown.lines, width),
                row as int,
                column as int,
            );
            match code {
                Some(code) => expected == Some(code@),
                None => expected is None,
            }
        }),
{
    let (lines, buttons) = transcript_lines(messages, highlighter);
    let counts: Vec<usize> = count_rows(&lines, width);

    // Find the transcript line on the clicked row, allowing for wrapped lines.
    match line_on_row(&counts, row) {
        Some((line, rest)) => match find_button(&buttons, line) {
            Some(button) => {
                let ghost all = conversation(messages@);
                let ghost views = button_views(buttons@);
                proof {
                    buttons_mark_code_blocks(all, *highlighter);
                    let i = choose|i: int| 0 <= i < buttons@.len() && buttons@[i] == button;
                    assert(views[i] == button@);
                    lemma_button_line(views, line as int);
                    assert(button_in_place(line_views(lines@), views[i], all));
                    assert(line_views(lines@)[line as int] == lines@[line as int]@);
                    assert(has_button(views, button.message as int, button.block as int));
                    every_code_block_has_a_button(
                        all,
                        *highlighter,
                        button.message as int,
                        button.block as int,
                    );
                }
                if !on_last_text(&lines[line], COPY_BUTTON, width, rest, column) {
                    return None;
                }
                let mut blocks: Vec<String> = code_blocks(messages[button.message].content.as_str());
                let ghost expected = string_views(blocks@)[button.block as int];
                let code: String = blocks.swap_remove(button.block);
                assert(code@ == expected);
                Some(code)
            },
            None => None,
        },
        None => None,
    }
}

/// The number of rows above a line.
pub open spec fn rows_above(counts: Seq<usize>, line: int) -> nat
    decreases counts.len(),
{
    if line <= 0 || counts.len() == 0 {
        0
    } else {
        counts[0] as nat + rows_above(counts.skip(1), line - 1)
    }
}

proof fn lemma_line_at(counts: Seq<usize>, line: int, row: int)
    requires
        0 <= line < counts.len(),
        rows_above(counts, line) <= row < rows_above(counts, line) + counts[line],
    ensures
        line_at(counts, row) == Some((line, row - rows_above(counts, line))),
    decreases counts.len(),
{
    if line > 0 {
        assert(counts.skip(1)[line - 1] == counts[line]);
        lemma_line_at(counts.skip(1), line - 1, row - counts[0]);
    }
}

proof fn lemma_button_on(buttons: Seq<ButtonView>, index: int)
    requires
        0 <= index < buttons.len(),
        forall|i: int, j: int| 0 <= i < j < buttons.len() ==> buttons[i].line < buttons[j].line,
    ensures
        button_on(buttons, buttons[index].line) == Some(buttons[index]),
    decreases buttons.len(),
{
    if index > 0 {
        let rest = buttons.skip(1);
        assert(rest[index - 1] == buttons[index]);
        assert forall|i: int, j: int| 0 <= i < j < rest.len() implies rest[i].line
            < rest[j].line by {
            assert(rest[i] == buttons[i + 1] && rest[j] == buttons[j + 1]);
        }
        lemma_button_on(rest, index - 1);
    }
}

proof fn lemma_button_line(buttons: Seq<ButtonView>, line: int)
    ensures
        button_on(buttons, line) matches Some(button) ==> button.line == line,
    decreases buttons.len(),
{
    if buttons.len() > 0 && buttons[0].line != line {
        lemma_button_line(buttons.skip(1), line);
    }
}

/// A click on a copy button copies the code of that button's block, however the lines above it are
/// wrapped, and a click elsewhere on the button's line copies nothing.
pub proof fn a_click_copies_the_block_it_hits(
    messages: Seq<MessageView>,
    highlighter: Highlighter,
    width: u16,
    counts: Seq<usize>,
    index: int,
    row: int,
    column: int,
)
    requires
        counts.len() == transcript(messages, highlighter).lines.len(),
        0 <= index < transcript(messages, highlighter).buttons.len(),
        ({
            let line = transcript(messages, highlighter).buttons[index].line;
            rows_above(counts, line) <= row < rows_above(counts, line) + counts[line]
        }),
    ensures
        ({
            let shown = transcript(messages, highlighter);
            let button = shown.buttons[index];
            let texts = shown.lines[button.line].texts();
            &&& texts.last() == COPY_BUTTON@
            &&& code_on_cell(messages, highlighter, width, counts, row, column)
                == if is_on_last_text(
                texts,
                width,
                row - rows_above(counts, button.line),
                column,
            ) {
                Some(code_of(messages[button.message].content)[button.block])
            } else {
                None
            }
        }),
{
    let shown = transcript(messages, highlighter);
    buttons_mark_code_blocks(messages, highlighter);
    assert(button_in_place(shown.lines, shown.buttons[index], messages));
    lemma_line_at(counts, shown.buttons[index].line, row);
    lemma_button_on(shown.buttons, index);
}

/// A click off every button's line copies nothing.
pub proof fn a_click_off_the_buttons_copies_nothing(
    messages: Seq<MessageView>,
    highlighter: Highlighter,
    width: u16,
    counts: Seq<usize>,
    row: int,
    column: int,
)
    requires
        forall|i: int|
            0 <= i < transcript(messages, highlighter).buttons.len() ==> {
                let line = (#[trigger] transcript(messages, highlighter).buttons[i]).line;
                !(rows_above(counts, line) <= row < rows_above(counts, line) + counts[line])
            },
        counts.len() == transcript(messages, highlighter).lines.len(),
        row >= 0,
    ensures
        code_on_cell(messages, highlighter, width, counts, row, column) is None,
{
    let shown = transcript(messages, highlighter);
    if line_at(counts, row) is Some {
        let line = (line_at(counts, row)->0).0;
        lemma_row_on_line(counts, row);
        if button_on(shown.buttons, line) is Some {
            lemma_button_line(shown.buttons, line);
            lemma_button_found(shown.buttons, line);
        }
    }
}

proof fn lemma_row_on_line(counts: Seq<usize>, row: int)
    requires
        row >= 0,
    ensures
        line_at(counts, row) matches Some((line, rest)) ==> 0 <= line < counts.len() && rows_above(
            counts,
            line,
        ) <= row < rows_above(counts, line) + counts[line],
    decreases counts.len(),
{
    if counts.len() > 0 && row >= counts[0] {
        lemma_row_on_line(counts.skip(1), row - counts[0]);
    }
}

proof fn lemma_button_found(buttons: Seq<ButtonView>, line: int)
    ensures
        button_on(buttons, line) matches Some(button) ==> exists|i: int|
            0 <= i < buttons.len() && #[trigger] buttons[i] == button,
    decreases buttons.len(),
{
    if buttons.len() > 0 {
        if buttons[0].line == line {
            assert(buttons[0] == buttons[0]);
        } else {
            lemma_button_found(buttons.skip(1), line);
            if button_on(buttons, line) is Some {
                let button = button_on(buttons, line)->0;
                let i = choose|i: int|
                    0 <= i < buttons.skip(1).len() && #[trigger] buttons.skip(1)[i] == button;
                assert(buttons[i + 1] == button);
            }
        }
    }
}

/// Messages are shown one below the other. The system prompt is not shown. A message of the user is
/// shown below a green header, each of its lines as it is; one of the assistant below a blue header,
/// rendered from Markdown, with a copy button for each of its code blocks. A blank line comes after
/// each.
pub proof fn messages_are_shown_one_below_the_other(
    messages: Seq<MessageView>,
    message: MessageView,
    highlighter: Highlighter,
)
    ensures
        transcript(Seq::empty(), highlighter).lines.len() == 0,
        transcript(Seq::empty(), highlighter).buttons.len() == 0,
        ({
            let before = transcript(messages, highlighter);
            let after = transcript(messages.push(message), highlighter);
            let first = before.lines.len() as int;
            let header = after.lines[first];
            let bold = Style {
                fg: None,
                bg: None,
                bold: true,
                italic: false,
                underlined: false,
                crossed_out: false,
            };
            match message.role {
                Role::System => after == before,
                Role::User => {
                    let text = lines(message.content);
                    &&& after.lines.len() == first + text.len() + 2
                    &&& after.lines.take(first) == before.lines
                    &&& header.texts() == seq!["❯ you"@]
                    &&& header.style == (Style { fg: Some(Color::Rgb(166, 227, 161)), ..bold })
                    &&& forall|i: int|
                        0 <= i < text.len() ==> {
                            let shown = #[trigger] after.lines[first + 1 + i];
                            &&& shown.texts() == if text[i].len() == 0 {
                                Seq::<Seq<char>>::empty()
                            } else {
                                seq![text[i]]
                            }
                            &&& shown.style == (Style { bold: false, ..bold })
                        }
                    &&& after.lines.last().spans.len() == 0
                    &&& after.buttons == before.buttons
                },
                Role::Assistant => {
                    let markdown = rendered(message.content, highlighter);
                    &&& after.lines.len() == first + markdown.lines.len() + 2
                    &&& after.lines.take(first) == before.lines
                    &&& header.texts() == seq!["◆ assistant"@]
                    &&& header.style == (Style { fg: Some(Color::Rgb(137, 180, 250)), ..bold })
                    &&& after.lines.subrange(first + 1, first + 1 + markdown.lines.len())
                        == markdown.lines
                    &&& after.lines.last().spans.len() == 0
                    &&& after.buttons.len() == before.buttons.len() + markdown.code_headers.len()
                    &&& after.buttons.take(before.buttons.len() as int) == before.buttons
                    &&& forall|i: int|
                        0 <= i < markdown.code_headers.len() ==> {
                            let button = #[trigger] after.buttons[before.buttons.len() + i];
                            &&& button.line == first + 1 + markdown.code_headers[i]
                            &&& button.message == messages.len()
                            &&& button.block == i
                        }
                },
            }
        }),
{
    reveal_strlit("❯ you");
    reveal_strlit("◆ assistant");
    let before = transcript(messages, highlighter);
    let after = transcript(messages.push(message), highlighter);
    let first = before.lines.len() as int;
    assert(messages.push(message).drop_last() =~= messages);
    assert(messages.push(message).last() == message);
    match message.role {
        Role::System => {},
        Role::User => {
            let text = lines(message.content);
            a_styled_line_holds_its_text(USER_HEADER@, Style::colored(user_color()).bold());
            assert(after.lines.take(first) =~= before.lines);
            assert forall|i: int| 0 <= i < text.len() implies {
                let shown = #[trigger] after.lines[first + 1 + i];
                &&& shown.texts() == if text[i].len() == 0 {
                    Seq::<Seq<char>>::empty()
                } else {
                    seq![text[i]]
                }
                &&& shown.style == Style::plain()
            } by {
                lines_hold_no_line_feed(message.content, i);
                a_styled_line_holds_its_text(text[i], Style::plain());
                assert(after.lines[first + 1 + i] == LineView::styled(text[i], Style::plain()));
            }
        },
        Role::Assistant => {
            let markdown = rendered(message.content, highlighter);
            a_styled_line_holds_its_text(ASSISTANT_HEADER@, Style::colored(accent()).bold());
            assert(after.lines.take(first) =~= before.lines);
            assert(after.lines.subrange(first + 1, first + 1 + markdown.lines.len())
                =~= markdown.lines);
            assert(after.buttons.take(before.buttons.len() as int) =~= before.buttons);
        },
    }
}

/// A line begins on the row after all the rows of the lines above it, and each line takes as many
/// rows as it is wrapped to, with its white space.
pub proof fn rows_add_up(counts: Seq<usize>, line: int, lines: Seq<LineView>, width: u16)
    ensures
        rows_above(counts, 0) == 0,
        0 <= line < counts.len() ==> rows_above(counts, line + 1) == rows_above(counts, line)
            + counts[line],
        row_counts(lines, width).len() == lines.len(),
        forall|i: int|
            0 <= i < lines.len() ==> #[trigger] row_counts(lines, width)[i] == paragraph_rows(
                seq![lines[i].texts()],
                false,
                width,
            ),
    decreases counts.len(),
{
    if 0 < line < counts.len() {
        rows_add_up(counts.skip(1), line - 1, lines, width);
        assert(counts.skip(1)[line - 1] == counts[line]);
    } else if line == 0 && counts.len() > 0 {
        assert(rows_above(counts.skip(1), 0) == 0);
    }
}

/// The last text of a line is where it is drawn: on the cells that carry its mark when the line is
/// wrapped to the window's width, on the row in question.
pub proof fn a_button_is_where_it_is_drawn(
    before: Seq<Seq<char>>,
    last: Seq<char>,
    width: u16,
    row: u16,
    column: int,
)
    ensures
        is_on_last_text(before.push(last), width, row as int, column) <==> {
            let cells = row_cells(before, last, 1, width, (4 * width) as u16, row);
            0 <= column < cells.len() && cells[column] == 1
        },
{
    assert(before.push(last).drop_last() =~= before);
}

/// A copy button is seen with its line, its message and its block.
pub proof fn buttons_are_seen_as_they_are(buttons: Seq<CopyButton>)
    ensures
        button_views(buttons).len() == buttons.len(),
        forall|i: int|
            0 <= i < buttons.len() ==> {
                let button = #[trigger] button_views(buttons)[i];
                &&& button.line == buttons[i].line
                &&& button.message == buttons[i].message
                &&& button.block == buttons[i].block
            },
{
}

/// The lines of a message of the user hold no copy of a text, and come after those of the messages
/// before it; so do those of the assistant, whose code is borrowed.
pub proof fn the_transcript_holds_no_copies(
    lines: Seq<Line<'_>>,
    messages: Seq<MessageView>,
    message: MessageView,
    highlighter: Highlighter,
)
    requires
        transcript_borrows(lines, messages.push(message), highlighter),
    ensures
        ({
            let first = transcript(messages, highlighter).lines.len() as int;
            &&& first <= lines.len()
            &&& transcript_borrows(lines.take(first), messages, highlighter)
            &&& message.role == Role::Assistant ==> lines_borrow(
                lines.skip(first),
                borrows_all(message.content, extensions()),
            )
            &&& message.role == Role::User ==> forall|i: int, j: int|
                first <= i < lines.len() && 0 <= j < lines[i].spans@.len()
                    ==> (#[trigger] lines[i].spans@[j]).content is Borrowed
        }),
{
    let first = transcript(messages, highlighter).lines.len() as int;
    assert(messages.push(message).drop_last() =~= messages);
    if message.role == Role::User {
        let part = lines.skip(first);
        assert forall|i: int, j: int|
            first <= i < lines.len() && 0 <= j < lines[i].spans@.len() implies (
        #[trigger] lines[i].spans@[j]).content is Borrowed by {
            assert(part[i - first] == lines[i]);
            assert(all_borrowed(part[i - first].spans@));
        }
    }
}

} // verus!
