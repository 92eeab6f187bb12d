//! Drawing the chat window: transcript on top, input box, status bar.
use std::borrow::Cow;

use vstd::prelude::*;

use crate::app::{App, AppState, ReplyTiming, Status, StatusView};
use crate::chat::{conversation, Message, MessageView, ReplyStream, Role};
use crate::style::{
    a_styled_line_holds_its_text, accent, dark, line_views, muted, span_views, Color, Line, LineView, Span, SpanView, Style,
};
use crate::terminal::{
    corners_of, display_width, line_texts, line_width, may_split, minus, paragraph_rows, rows_of, split,
    text_width, texts_width, Area, Position, Room, Spare, MAX_COLUMNS,
};
use crate::text::{after_last, after_last_of, decimal, decimal_of, occurrences, occurrences_of};
use crate::transcript::{
    code_at_cell, transcript, transcript_borrows, transcript_lines, user_color,
};

verus! {

/// The input box grows with its text up to this many lines.
pub const MAX_INPUT_LINES: u16 = 8;

/// The keys, shown in the status bar.
pub const KEY_HINTS: &'static str =
    "enter send · alt+enter newline · ^y copy code · ^c stop · ^l clear · ^d quit ";

/// The colour of errors.
#[verifier::allow_in_spec]
pub fn error_color() -> Color
    returns
        Color::Rgb(243, 139, 168),
{
    Color::Rgb(243, 139, 168)
}

/// NVIDIA's brand green, used for the badges in the status bar.
#[verifier::allow_in_spec]
pub fn nvidia_green() -> Color
    returns
        Color::Rgb(118, 185, 0),
{
    Color::Rgb(118, 185, 0)
}

/// The number of lines in the input box, counted in 16 bits.
pub open spec fn input_rows(input: Seq<char>) -> u16 {
    (occurrences(input, '\n') + 1) as u16
}

/// The height of the input box, with its top and bottom border.
pub open spec fn input_height(input: Seq<char>) -> u16 {
    if input_rows(input) <= MAX_INPUT_LINES {
        (input_rows(input) + 2) as u16
    } else {
        (MAX_INPUT_LINES + 2) as u16
    }
}

/// Whether anything but the system prompt was said.
pub open spec fn has_conversation(messages: Seq<MessageView>) -> bool {
    exists|i: int| 0 <= i < messages.len() && (#[trigger] messages[i]).role != Role::System
}

/// Counts the lines in the input box.
fn count_input_rows(input: &str) -> (rows: u16)
    ensures
        rows == input_rows(input@),
{
    #[verifier::truncate]
    ((occurrences_of(input, '\n') as u128 + 1) as u16)
}

/// The room that the window's parts ask for: the transcript takes what is left by the input box
/// and the status bar.
pub fn window_rooms(input: &str) -> (rooms: [Room; 3])
    ensures
        rooms@ == seq![Room::Min(1), Room::Length(input_height(input@)), Room::Length(1)],
{
    let rows: u16 = count_input_rows(input);
    let height: u16 = if rows <= MAX_INPUT_LINES {
        rows + 2  // + top and bottom border
    } else {
        MAX_INPUT_LINES + 2
    };
    let rooms = [Room::Min(1), Room::Length(height), Room::Length(1)];
    assert(rooms@ =~= seq![Room::Min(1), Room::Length(height), Room::Length(1)]);
    rooms
}

/// Tells whether anything but the system prompt was said.
fn is_conversation(messages: &Vec<Message>) -> (result: bool)
    ensures
        result == has_conversation(conversation(messages@)),
{
    for index in 0..messages.len()
        invariant
            forall|i: int|
                0 <= i < index ==> (#[trigger] conversation(messages@)[i]).role == Role::System,
    {
        if messages[index].role != Role::System {
            assert(conversation(messages@)[index as int].role != Role::System);
            return true;
        }
    }
    false
}

impl AppState {
    /// The transcript was drawn in `area`, where it takes `rows` rows, counted in 16 bits.
    pub open spec fn drawn(self, area: Area, rows: usize) -> Self {
        AppState {
            max_scroll: minus((rows as u16) as int, area.height as int) as u16,
            page_height: area.height,
            transcript_area: area,
            ..self
        }
    }
}

/// Where the window's parts go.
#[derive(Debug, Clone, Copy, PartialEq, Eq, Structural)]
pub struct Panels {
    pub transcript: Area,
    pub input: Area,
    pub status: Area,
}

impl Panels {
    /// Whether the panels come of splitting `area` from top to bottom: the transcript takes what
    /// is left by the input box and the status bar, but for a column on each side.
    pub open spec fn split_window(self, area: Area, input: Seq<char>) -> bool {
        exists|top: Area|
            self.transcript == top.between_sides() && may_split(
                area,
                true,
                seq![Room::Min(1), Room::Length(input_height(input)), Room::Length(1)],
                Spare::AtEnd,
                seq![#[trigger] top.corners(), self.input.corners(), self.status.corners()],
            )
    }
}

/// Lays the whole window out in `area`. Takes `&mut App` only to record the transcript's scroll
/// limits, which depend on the terminal size.
pub fn draw(area: Area, app: &mut App) -> (panels: Panels)
    requires
        old(app).wf(),
        area.width <= MAX_COLUMNS,
    ensures
        final(app).wf(),
        final(app).same_model(*old(app)),
        panels.split_window(area, old(app)@.input),
        panels.input.is_part_of(area, true),
        panels.status.is_part_of(area, true),
        panels.transcript.width == minus(area.width as int, 2),
        final(app)@ == recorded(*old(app), panels.transcript),
{
    let parts: Vec<Area> = split(
        area,
        true,
        window_rooms(app.input.as_str()).as_slice(),
        Spare::AtEnd,
    );
    let transcript_area = parts[0].without_sides();
    record_transcript(app, transcript_area);
    let panels = Panels { transcript: transcript_area, input: parts[1], status: parts[2] };
    assert(corners_of(parts@) =~= seq![
        parts@[0].corners(),
        panels.input.corners(),
        panels.status.corners(),
    ]);
    panels
}

/// What is recorded of a transcript that is drawn in `area`: nothing while only the greeting is.
pub open spec fn recorded(app: App, area: Area) -> AppState {
    if has_conversation(app@.messages) {
        app@.drawn(
            area,
            paragraph_rows(
                transcript(app@.messages, app.highlighter).lines.map_values(
                    |line: LineView| line.texts(),
                ),
                false,
                area.width,
            ),
        )
    } else {
        app@
    }
}

/// Records the scroll limits of the transcript, drawn in `area`.
fn record_transcript(app: &mut App, area: Area)
    requires
        old(app).wf(),
        area.width <= MAX_COLUMNS,
    ensures
        final(app).wf(),
        final(app).same_model(*old(app)),
        final(app)@ == recorded(*old(app), area),
{
    if is_conversation(&app.messages) {
        let total_rows: usize = transcript_rows(app, area.width);
        record_rows(app, area, total_rows);
    }
}

/// The number of rows that the transcript takes in `width` columns.
fn transcript_rows(app: &App, width: u16) -> (rows: usize)
    requires
        app.wf(),
        width <= MAX_COLUMNS,
    ensures
        rows == paragraph_rows(
            transcript(app@.messages, app.highlighter).lines.map_values(
                |line: LineView| line.texts(),
            ),
            false,
            width,
        ),
{
    let (lines, _) = transcript_lines(app.messages.as_slice(), &app.highlighter);
    assert(line_texts(lines@) =~= line_views(lines@).map_values(|line: LineView| line.texts()));
    rows_of(lines.as_slice(), false, width)
}

/// Records that the transcript is drawn in `area` and takes `rows` rows.
pub fn record_rows(app: &mut App, area: Area, rows: usize)
    ensures
        final(app).same_model(*old(app)),
        final(app)@ == old(app)@.drawn(area, rows),
{
    let total_rows: u16 = #[verifier::truncate]
    (rows as u16);
    app.max_scroll = total_rows.saturating_sub(area.height);
    app.page_height = area.height;
    app.transcript_area = area;
}

/// What is drawn in the transcript's area.
pub enum TranscriptPanel<'a> {
    /// A line in the middle.
    Greeting(Line<'a>),
    /// The conversation, wrapped, from row `scroll` on.
    Conversation { lines: Vec<Line<'a>>, scroll: u16 },
}

/// The conversation, or a greeting when it is empty.
pub fn draw_transcript<'a>(app: &'a App) -> (panel: TranscriptPanel<'a>)
    requires
        app.wf(),
    ensures
        match panel {
            TranscriptPanel::Greeting(line) => !has_conversation(app@.messages) && line@
                == LineView::styled(
                "chatting with "@ + app.model.name@ + ": say something"@,
                Style::colored(muted()),
            ),
            TranscriptPanel::Conversation { lines, scroll } => has_conversation(app@.messages)
                && line_views(lines@) == transcript(app@.messages, app.highlighter).lines && scroll
                == app@.scroll_offset() && transcript_borrows(
                lines@,
                app@.messages,
                app.highlighter,
            ),
        },
{
    if is_conversation(&app.messages) {
        let (lines, _) = transcript_lines(app.messages.as_slice(), &app.highlighter);
        TranscriptPanel::Conversation { lines, scroll: app.scroll_offset() }
    } else {
        let mut greeting: String = String::new();
        greeting.append("chatting with ");
        greeting.append(app.model.name());
        greeting.append(": say something");
        TranscriptPanel::Greeting(Line::styled(Cow::Owned(greeting), Style::colored(muted())))
    }
}

/// The code of the block whose copy button is at `position` on screen, if any.
pub fn code_block_at(app: &App, position: Position) -> (code: Option<String>)
    requires
        app.wf(),
    ensures
        match code {
            Some(code) => app@.code_at(app.highlighter, position) == Some(code@),
            None => app@.code_at(app.highlighter, position) is None,
        },
{
    let area = app.transcript_area;
    if !area.contains(position) {
        return None;
    }
    let clicked_row: usize = app.scroll_offset() as usize + (position.y - area.y) as usize;
    code_at_cell(
        app.messages.as_slice(),
        &app.highlighter,
        area.width,
        clicked_row,
        position.x - area.x,
    )
}

/// What is drawn in the input box's area.
pub struct InputPanel<'a> {
    pub border: Color,
    pub text: &'a str,
    /// How many columns and rows of the text are scrolled out of view.
    pub scroll_x: u16,
    pub scroll_y: u16,
    /// Where the cursor goes; nowhere while a reply streams in.
    pub cursor: Option<Position>,
}

/// Whether the cursor's place can be counted in 16 bits. It is after column `column` of the last
/// of `rows` rows, in a box with the area `inner` inside its border.
pub open spec fn cursor_fits(inner: Area, rows: u16, column: u16, streaming: bool) -> bool {
    &&& column < u16::MAX
    &&& streaming || {
        &&& inner.x + column <= u16::MAX
        &&& inner.x + column >= minus(column + 1, inner.width as int)
        &&& inner.y + rows <= u16::MAX
        &&& inner.y + rows - 1 >= minus(rows as int, inner.height as int)
    }
}

/// The columns scrolled out of view so that the cursor after `column` is in it.
pub open spec fn scroll_x(inner: Area, column: u16) -> int {
    minus(column + 1, inner.width as int)
}

/// The rows scrolled out of view so that the last of `rows` rows is in it.
pub open spec fn scroll_y(inner: Area, rows: u16) -> int {
    minus(rows as int, inner.height as int)
}

/// The input box, with the cursor at the end of the text: after column `column` of its last line.
pub fn input_panel(app: &App, inner: Area, column: u16) -> (panel: InputPanel<'_>)
    requires
        cursor_fits(inner, input_rows(app@.input), column, app@.status is Streaming),
    ensures
        panel.border == if app@.status is Streaming {
            muted()
        } else {
            accent()
        },
        panel.text@ == app@.input,
        panel.scroll_x == scroll_x(inner, column),
        panel.scroll_y == scroll_y(inner, input_rows(app@.input)),
        match panel.cursor {
            Some(cursor) => {
                &&& !(app@.status is Streaming)
                &&& cursor.x == inner.x + column - scroll_x(inner, column)
                &&& cursor.y == inner.y + input_rows(app@.input) - 1 - scroll_y(
                    inner,
                    input_rows(app@.input),
                )
            },
            None => app@.status is Streaming,
        },
{
    // The cursor sits after the last character, so keep that end in view.
    let row_count: u16 = count_input_rows(app.input.as_str());
    let scroll_x: u16 = (column + 1).saturating_sub(inner.width);
    let scroll_y: u16 = row_count.saturating_sub(inner.height);
    let streaming: bool = app.is_streaming();
    let cursor = if streaming {
        None
    } else {
        Some(
            Position {
                x: inner.x + column - scroll_x,
                y: inner.y + row_count - 1 - scroll_y,
            },
        )
    };
    InputPanel {
        border: if streaming {
            muted()
        } else {
            accent()
        },
        text: app.input.as_str(),
        scroll_x,
        scroll_y,
        cursor,
    }
}

/// The input box inside `area`, with the cursor at the end of the text, or `None` where the
/// cursor's place cannot be counted.
pub fn draw_input(app: &App, area: Area) -> (panel: Option<InputPanel<'_>>)
    ensures
        ({
            let inner = area.inside();
            let rows = input_rows(app@.input);
            let column = display_width(after_last(app@.input, '\n')) as u16;
            match panel {
                Some(panel) => {
                    &&& cursor_fits(inner, rows, column, app@.status is Streaming)
                    &&& panel.text@ == app@.input
                    &&& panel.border == if app@.status is Streaming {
                        muted()
                    } else {
                        accent()
                    }
                    &&& panel.scroll_x == scroll_x(inner, column)
                    &&& panel.scroll_y == scroll_y(inner, rows)
                    &&& panel.cursor matches Some(cursor) ==> {
                        &&& cursor.x == inner.x + column - scroll_x(inner, column)
                        &&& cursor.y == inner.y + rows - 1 - scroll_y(inner, rows)
                    }
                    &&& panel.cursor is None <==> app@.status is Streaming
                },
                None => !cursor_fits(inner, rows, column, app@.status is Streaming),
            }
        }),
{
    let inner = area.inside_border();
    let row_count: u16 = count_input_rows(app.input.as_str());
    let last_line: &str = after_last_of(app.input.as_str(), '\n');
    let column: u16 = #[verifier::truncate]
    (text_width(last_line) as u16);
    let x: u32 = inner.x as u32 + column as u32;
    let y: u32 = inner.y as u32 + row_count as u32;
    if column == u16::MAX {
        return None;
    }
    let hidden_columns: u32 = (column + 1).saturating_sub(inner.width) as u32;
    let hidden_rows: u32 = row_count.saturating_sub(inner.height) as u32;
    if !app.is_streaming() && (x > u16::MAX as u32 || x < hidden_columns || y > u16::MAX as u32 || y
        < 1 + hidden_rows) {
        return None;
    }
    Some(input_panel(app, inner, column))
}

/// The texts of a reply's speed, with one decimal each.
#[derive(Debug)]
pub struct Speed {
    pub tokens_per_second: String,
    /// How many seconds the first token took.
    pub first_token: String,
}

/// A reply's speed, e.g. `212 tok · 16.3 tok/s · first token 0.4s`.
pub open spec fn speed_text(timing: ReplyTiming, speed: Speed) -> Seq<char> {
    let text = decimal(timing.token_count as nat) + " tok · "@ + speed.tokens_per_second@
        + " tok/s"@;
    if timing.first_token_at is Some {
        text + " · first token "@ + speed.first_token@ + "s"@
    } else {
        text
    }
}

/// Formats a reply's speed.
pub fn reply_speed(timing: &ReplyTiming, speed: &Speed) -> (text: String)
    ensures
        text@ == speed_text(*timing, *speed),
{
    let mut text: String = decimal_of(timing.token_count as u128);
    text.append(" tok · ");
    text.append(speed.tokens_per_second.as_str());
    text.append(" tok/s");
    if timing.wait_for_first_token().is_some() {
        text.append(" · first token ");
        text.append(speed.first_token.as_str());
        text.append("s");
    }
    text
}

/// What the status bar says of the reply.
pub open spec fn progress(status: StatusView, speed: Speed) -> SpanView {
    match status {
        StatusView::Idle => SpanView { content: ""@, style: Style::plain() },
        StatusView::Streaming { timing, .. } => SpanView {
            content: if timing.first_token_at is None {
                "reading the prompt…"@
            } else {
                "generating · "@ + speed_text(timing, speed)
            },
            style: Style::colored(accent()),
        },
        StatusView::Finished(timing) => SpanView {
            content: speed_text(timing, speed),
            style: Style::colored(muted()),
        },
        StatusView::Failed(error) => SpanView {
            content: error,
            style: Style::colored(error_color()),
        },
    }
}

/// The left side of the status bar: the badges, the model's name, how full the context is, and
/// the progress of the reply.
pub open spec fn status_line(app: App, speed: Speed) -> LineView {
    LineView::of(
        seq![
            SpanView {
                content: " ▲ NVIDIA "@,
                style: Style::colored(dark()).on(nvidia_green()).bold(),
            },
            SpanView { content: " "@, style: Style::plain() },
            SpanView {
                content: " TensorRT-LLM "@,
                style: Style::colored(nvidia_green()).on(dark()).bold(),
            },
            SpanView {
                content: " "@ + app.model.name@ + " "@,
                style: Style::colored(accent()),
            },
            SpanView {
                content: "ctx "@ + decimal(app.context_tokens as nat) + "/"@ + decimal(
                    app.model.limits.max_input_len as nat,
                ) + " · "@,
                style: Style::colored(muted()),
            },
            progress(app.status@, speed),
        ],
    )
}

/// The span that tells of the reply's progress.
fn progress_span<'a>(status: &'a Status, speed: &Speed) -> (span: Span<'a>)
    ensures
        span@ == progress(status@, *speed),
{
    match status {
        Status::Idle => Span::borrowed("", Style::plain()),
        Status::Streaming { timing, .. } => match timing.wait_for_first_token() {
            None => Span::borrowed("reading the prompt…", Style::colored(accent())),
            Some(_) => {
                let mut text: String = String::new();
                text.append("generating · ");
                text.append(reply_speed(timing, speed).as_str());
                Span::owned(text, Style::colored(accent()))
            },
        },
        Status::Finished(timing) => Span::owned(
            reply_speed(timing, speed),
            Style::colored(muted()),
        ),
        Status::Failed(error) => Span::borrowed(error.as_str(), Style::colored(error_color())),
    }
}

/// The model name and progress, with a solid green "NVIDIA" badge and "TensorRT-LLM" in green on
/// dark before them.
pub fn draw_status<'a>(app: &'a App, speed: &Speed) -> (line: Line<'a>)
    ensures
        line@ == status_line(*app, *speed),
{
    let mut name: String = String::new();
    name.append(" ");
    name.append(app.model.name());
    name.append(" ");
    let mut context: String = String::new();
    context.append("ctx ");
    context.append(decimal_of(app.context_tokens as u128).as_str());
    context.append("/");
    context.append(decimal_of(app.model.context_limit() as u128).as_str());
    context.append(" · ");

    let mut spans: Vec<Span<'a>> = Vec::new();
    spans.push(
        Span::borrowed(" ▲ NVIDIA ", Style::colored(dark()).on(nvidia_green()).bold()),
    );
    spans.push(Span::borrowed(" ", Style::plain()));
    spans.push(
        Span::borrowed(" TensorRT-LLM ", Style::colored(nvidia_green()).on(dark()).bold()),
    );
    spans.push(Span::owned(name, Style::colored(accent())));
    spans.push(Span::owned(context, Style::colored(muted())));
    spans.push(progress_span(&app.status, speed));
    assert(span_views(spans@) =~= status_line(*app, *speed).spans);
    Line::of(spans)
}

/// The right side of the status bar: a notice, or the key hints.
pub open spec fn right_line(notice: Option<Seq<char>>) -> LineView {
    match notice {
        Some(notice) => LineView::styled(
            " "@ + notice + " "@,
            Style::colored(user_color()),
        ),
        None => LineView::styled(KEY_HINTS@, Style::colored(muted())),
    }
}

/// What is drawn in the status bar's area.
pub struct StatusPanel<'a> {
    pub status: Line<'a>,
    pub status_area: Area,
    /// Aligned to the right.
    pub right: Line<'a>,
    pub right_area: Area,
}

/// The notice or the key hints.
pub fn draw_right<'a>(app: &'a App) -> (line: Line<'a>)
    ensures
        line@ == right_line(app@.notice),
{
    match &app.notice {
        Some(notice) => {
            let mut text: String = String::new();
            text.append(" ");
            text.append(notice.as_str());
            text.append(" ");
            Line::styled(Cow::Owned(text), Style::colored(user_color()))
        },
        None => Line::styled(Cow::Borrowed(KEY_HINTS), Style::colored(muted())),
    }
}

/// The room that the two sides of the status bar ask for. The key hints give way on narrow
/// terminals, but a notice always shows in full.
pub fn status_rooms(status: &Line<'_>, right: &Line<'_>, has_notice: bool) -> (rooms: [Room; 2])
    ensures
        rooms@ == seq![
            Room::Max(texts_width(status@.texts()) as u16),
            if has_notice {
                Room::Length(texts_width(right@.texts()) as u16)
            } else {
                Room::Fill(1)
            },
        ],
{
    let status_width: u16 = #[verifier::truncate]
    (line_width(status) as u16);
    let right_room = if has_notice {
        let width: u16 = #[verifier::truncate]
        (line_width(right) as u16);
        Room::Length(width)
    } else {
        Room::Fill(1)
    };
    let rooms = [Room::Max(status_width), right_room];
    assert(rooms@ =~= seq![Room::Max(status_width), right_room]);
    rooms
}

/// The status bar in `area`: model name and progress on the left, key hints or a notice on the
/// right.
pub fn draw_status_bar<'a>(app: &'a App, area: Area, speed: &Speed) -> (panel: StatusPanel<'a>)
    ensures
        panel.status@ == status_line(*app, *speed),
        panel.right@ == right_line(app@.notice),
        may_split(
            area,
            false,
            seq![
                Room::Max(texts_width(panel.status@.texts()) as u16),
                if app@.notice is Some {
                    Room::Length(texts_width(panel.right@.texts()) as u16)
                } else {
                    Room::Fill(1)
                },
            ],
            Spare::Between,
            seq![panel.status_area.corners(), panel.right_area.corners()],
        ),
        panel.status_area.is_part_of(area, false),
        panel.right_area.is_part_of(area, false),
{
    let status = draw_status(app, speed);
    let right = draw_right(app);
    let rooms = status_rooms(&status, &right, app.notice.is_some());
    let parts: Vec<Area> = split(area, false, rooms.as_slice(), Spare::Between);
    assert(corners_of(parts@) =~= seq![parts@[0].corners(), parts@[1].corners()]);
    StatusPanel { status, status_area: parts[0], right, right_area: parts[1] }
}

/// The row in the middle of `area`, where the greeting goes.
pub fn middle_row(area: Area) -> (row: Area)
    ensures
        may_split(area, true, seq![Room::Length(1)], Spare::Around, seq![row.corners()]),
        row.is_part_of(area, true),
{
    let rooms = [Room::Length(1)];
    assert(rooms@ =~= seq![Room::Length(1)]);
    let parts: Vec<Area> = split(area, true, rooms.as_slice(), Spare::Around);
    assert(corners_of(parts@) =~= seq![parts@[0].corners()]);
    parts[0]
}

/// The cursor is inside the input box, whatever is typed, as long as the box has room for one
/// cell.
pub proof fn the_cursor_stays_in_the_box(inner: Area, rows: u16, column: u16)
    requires
        inner.width >= 1,
        inner.height >= 1,
        rows >= 1,
    ensures
        inner.x <= inner.x + column - scroll_x(inner, column) < inner.x + inner.width,
        inner.y <= inner.y + rows - 1 - scroll_y(inner, rows) < inner.y + inner.height,
{
}

/// Scrolled to the bottom, the window shows the transcript's last row on its own last row, or the
/// whole transcript.
pub proof fn the_bottom_shows_the_last_row(state: AppState, area: Area, rows: usize)
    requires
        rows <= u16::MAX,
    ensures
        rows >= area.height ==> state.drawn(area, rows).max_scroll + area.height == rows,
        rows < area.height ==> state.drawn(area, rows).max_scroll == 0,
{
}

/// The input box is as high as its text has lines, up to eight, and two rows more for its border.
pub proof fn the_input_box_grows_with_its_text(input: Seq<char>)
    requires
        occurrences(input, '\n') < 65535,
    ensures
        input_rows(input) == occurrences(input, '\n') + 1,
        input_height(input) == if occurrences(input, '\n') < 8 {
            occurrences(input, '\n') + 3
        } else {
            10
        },
{
}

/// Drawing the conversation notes where it went and how far it can be scrolled: by the rows it takes
/// beyond those on screen. It changes nothing else. While there is no conversation but the system
/// prompt, nothing is noted.
pub proof fn drawing_notes_the_scroll_limits(app: App, area: Area)
    ensures
        ({
            let after = recorded(app, area);
            let shown = transcript(app@.messages, app.highlighter).lines;
            let texts = Seq::new(shown.len(), |i: int| shown[i].texts());
            let rows = paragraph_rows(texts, false, area.width) as u16;
            let silent = forall|i: int|
                0 <= i < app@.messages.len() ==> (#[trigger] app@.messages[i]).role == Role::System;
            if silent {
                after == app@
            } else {
                after == (AppState {
                    max_scroll: if rows > area.height {
                        (rows - area.height) as u16
                    } else {
                        0
                    },
                    page_height: area.height,
                    transcript_area: area,
                    ..app@
                })
            }
        }),
{
    let shown = transcript(app@.messages, app.highlighter).lines;
    assert(shown.map_values(|line: LineView| line.texts()) =~= Seq::new(
        shown.len(),
        |i: int| shown[i].texts(),
    ));
}

/// The input box is scrolled just so far that the cursor, behind the last character, is inside.
pub proof fn the_input_is_scrolled_to_the_cursor(inner: Area, rows: u16, column: u16)
    ensures
        column < inner.width ==> scroll_x(inner, column) == 0,
        column >= inner.width ==> scroll_x(inner, column) + inner.width == column + 1,
        rows <= inner.height ==> scroll_y(inner, rows) == 0,
        rows > inner.height ==> scroll_y(inner, rows) + inner.height == rows,
{
}

/// The status bar names the model, how much of the context is taken, and how the reply is coming
/// along: nothing before the first one, that the prompt is read until the first token is there, then
/// the number of its tokens and its speed; the speed of the last reply; or what went wrong, in red.
pub proof fn the_status_bar_tells_of_the_reply(
    app: App,
    speed: Speed,
    stream: ReplyStream,
    timing: ReplyTiming,
    error: Seq<char>,
)
    ensures
        ({
            let count = decimal(timing.token_count as nat) + " tok · "@ + speed.tokens_per_second@
                + " tok/s"@;
            let text = if timing.first_token_at is Some {
                count + " · first token "@ + speed.first_token@ + "s"@
            } else {
                count
            };
            let streaming = progress(StatusView::Streaming { stream, timing }, speed);
            let spans = status_line(app, speed).spans;
            &&& progress(StatusView::Idle, speed).content.len() == 0
            &&& streaming.content == if timing.first_token_at is None {
                "reading the prompt…"@
            } else {
                "generating · "@ + text
            }
            &&& progress(StatusView::Finished(timing), speed).content == text
            &&& progress(StatusView::Failed(error), speed).content == error
            &&& progress(StatusView::Failed(error), speed).style.fg == Some(
                Color::Rgb(243, 139, 168),
            )
            &&& spans.len() == 6
            &&& spans[0].content == " ▲ NVIDIA "@
            &&& spans[2].content == " TensorRT-LLM "@
            &&& spans[3].content == " "@ + app.model.name@ + " "@
            &&& spans[4].content == "ctx "@ + decimal(app.context_tokens as nat) + "/"@ + decimal(
                app.model.limits.max_input_len as nat,
            ) + " · "@
            &&& spans[5] == progress(app.status@, speed)
        }),
{
    reveal_strlit("");
}

/// The right side of the status bar shows the notice, and the keys where there is none.
pub proof fn a_notice_takes_the_place_of_the_keys(notice: Seq<char>)
    requires
        !notice.contains('\n'),
    ensures
        right_line(Some(notice)).texts() == seq![" "@ + notice + " "@],
        right_line(None).texts() == seq![
            "enter send · alt+enter newline · ^y copy code · ^c stop · ^l clear · ^d quit "@,
        ],
{
    reveal_strlit(" ");
    reveal_strlit(
        "enter send · alt+enter newline · ^y copy code · ^c stop · ^l clear · ^d quit ",
    );
    let text = " "@ + notice + " "@;
    assert(!text.contains('\n')) by {
        if text.contains('\n') {
            let i = choose|i: int| 0 <= i < text.len() && text[i] == '\n';
            assert(notice[i - 1] == '\n');
        }
    }
    a_styled_line_holds_its_text(text, Style::colored(user_color()));
    assert(!KEY_HINTS@.contains('\n'));
    a_styled_line_holds_its_text(KEY_HINTS@, Style::colored(muted()));
}

/// The window is split from top to bottom: the transcript takes what is left, the input box its
/// height, the status bar one row at the bottom; and the transcript keeps a column free on each
/// side.
pub proof fn the_window_is_split_in_three(panels: Panels, area: Area, input: Seq<char>)
    requires
        panels.split_window(area, input),
    ensures
        exists|top: Area|
            {
                &&& panels.transcript == #[trigger] top.between_sides()
                &&& may_split(
                    area,
                    true,
                    seq![Room::Min(1), Room::Length(input_height(input)), Room::Length(1)],
                    Spare::AtEnd,
                    seq![
                        (top.x, top.y, top.width, top.height),
                        (
                            panels.input.x,
                            panels.input.y,
                            panels.input.width,
                            panels.input.height,
                        ),
                        (
                            panels.status.x,
                            panels.status.y,
                            panels.status.width,
                            panels.status.height,
                        ),
                    ],
                )
            },
{
    let top = choose|top: Area|
        panels.transcript == top.between_sides() && may_split(
            area,
            true,
            seq![Room::Min(1), Room::Length(input_height(input)), Room::Length(1)],
            Spare::AtEnd,
            seq![#[trigger] top.corners(), panels.input.corners(), panels.status.corners()],
        );
    assert(panels.transcript == top.between_sides());
}

/// The cursor has a place as long as it and what is scrolled away can be counted in 16 bits; while a
/// reply streams in there is no cursor to place.
pub proof fn a_cursor_in_range_has_a_place(inner: Area, rows: u16, column: u16)
    requires
        inner.width >= 1,
        inner.height >= 1,
        rows >= 1,
        column < u16::MAX,
    ensures
        cursor_fits(inner, rows, column, true),
        inner.x + column <= u16::MAX && inner.y + rows <= u16::MAX ==> cursor_fits(
            inner,
            rows,
            column,
            false,
        ),
        inner.x + column > u16::MAX || inner.y + rows > u16::MAX ==> !cursor_fits(
            inner,
            rows,
            column,
            false,
        ),
{
}

} // verus!
