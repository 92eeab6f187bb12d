//! Application state and what each key and reply event does to it.
use vstd::prelude::*;

use crate::chat::{
    conversation, ChatModel, EngineCommand, Message, MessageView, ReplyRequest, ReplyStream,
    RequestId, Role, StartError,
};
use crate::event::{
    Event, KeyCode, KeyEvent, MouseEvent, MouseKind, ReplyPiece, TerminalEvent, ALT, CONTROL,
    NO_MODIFIERS, SHIFT,
};
use crate::highlight::Highlighter;
use crate::markdown::{code_blocks, code_of, string_views};
use crate::std_items::is_white_space;
use crate::terminal::{least, minus, Area, Position, MAX_COLUMNS};
use crate::text::{
    decimal, decimal_of, lemma_trim_empty, lines, lines_end_at_line_feeds, lines_of, optional_text,
    trim, trim_of, views,
};
use crate::transcript::{code_on_cell, row_counts, transcript};
use crate::ui::code_block_at;

verus! {

/// Rows one turn of the mouse wheel scrolls.
pub const WHEEL_ROWS: u16 = 3;

/// A moment, in nanoseconds since some fixed moment before the chat began.
pub type Moment = u64;

/// When a reply's tokens arrived, for the speed shown in the status bar.
///
/// The wait before the first token is the model reading the prompt (prefill); generation speed is
/// measured from the first token on, so a long prompt doesn't make generation look slow.
#[derive(Debug, Clone, Copy, PartialEq, Eq, Structural)]
pub struct ReplyTiming {
    pub sent_at: Moment,
    pub first_token_at: Option<Moment>,
    pub finished_at: Option<Moment>,
    pub token_count: u32,
}

impl ReplyTiming {
    /// The timing of a reply that is asked for at `now`.
    #[verifier::allow_in_spec]
    pub fn start(now: Moment) -> Self
        returns
            (ReplyTiming { sent_at: now, first_token_at: None, finished_at: None, token_count: 0 }),
    {
        ReplyTiming { sent_at: now, first_token_at: None, finished_at: None, token_count: 0 }
    }

    /// The timing after `count` more tokens arrived at `now`.
    pub open spec fn with_tokens(self, count: u32, now: Moment) -> Self {
        ReplyTiming {
            first_token_at: if self.first_token_at is None && count > 0 {
                Some(now)
            } else {
                self.first_token_at
            },
            token_count: (self.token_count + count) as u32,
            ..self
        }
    }

    /// Counts `count` tokens that arrived at `now`.
    pub fn add_tokens(&mut self, count: u32, now: Moment)
        requires
            old(self).token_count + count <= u32::MAX,
        ensures
            *final(self) == old(self).with_tokens(count, now),
    {
        if self.first_token_at.is_none() && count > 0 {
            self.first_token_at = Some(now);
        }
        self.token_count += count;
    }

    /// The timing of a reply that ended at `now`.
    #[verifier::allow_in_spec]
    pub fn finish(self, now: Moment) -> Self
        returns
            (ReplyTiming { finished_at: Some(now), ..self }),
    {
        ReplyTiming { finished_at: Some(now), ..self }
    }

    /// How long the prompt took to process: from when it was sent to the first token.
    pub open spec fn wait(self) -> Option<int> {
        match self.first_token_at {
            Some(moment) => Some(minus(moment as int, self.sent_at as int)),
            None => None,
        }
    }

    /// How long the reply has been generated: from its first token to its end, or to `now`.
    pub open spec fn generating(self, now: Moment) -> Option<int> {
        match (self.first_token_at, self.finished_at) {
            (Some(moment), Some(end)) => Some(minus(end as int, moment as int)),
            (Some(moment), None) => Some(minus(now as int, moment as int)),
            (None, _) => None,
        }
    }

    /// How long the prompt took to process, in nanoseconds, once the first token has arrived.
    pub fn wait_for_first_token(&self) -> (wait: Option<u64>)
        ensures
            wait == match self.first_token_at {
                Some(moment) => Some(minus(moment as int, self.sent_at as int) as u64),
                None => None,
            },
            match wait {
                Some(time) => self.wait() == Some(time as int),
                None => self.wait() is None,
            },
    {
        match self.first_token_at {
            Some(moment) => Some(moment.saturating_sub(self.sent_at)),
            None => None,
        }
    }

    /// How long the reply has been generated, in nanoseconds: from its first token to its end, or
    /// to `now` while it goes on.
    pub fn generating_for(&self, now: Moment) -> (time: Option<u64>)
        ensures
            time == match self.first_token_at {
                Some(moment) => Some(
                    minus(
                        match self.finished_at {
                            Some(end) => end as int,
                            None => now as int,
                        },
                        moment as int,
                    ) as u64,
                ),
                None => None,
            },
            match time {
                Some(time) => self.generating(now) == Some(time as int),
                None => self.generating(now) is None,
            },
    {
        match self.first_token_at {
            Some(moment) => {
                let end: Moment = match self.finished_at {
                    Some(end) => end,
                    None => now,
                };
                Some(end.saturating_sub(moment))
            },
            None => None,
        }
    }
}

/// What the assistant is doing right now; shown in the status bar.
#[derive(Debug)]
pub enum Status {
    /// Nothing sent yet.
    Idle,
    /// A reply is streaming in.
    Streaming { stream: ReplyStream, timing: ReplyTiming },
    /// The last reply finished (or was stopped).
    Finished(ReplyTiming),
    /// The last request failed.
    Failed(String),
}

/// A status as a mathematical value.
pub enum StatusView {
    Idle,
    Streaming { stream: ReplyStream, timing: ReplyTiming },
    Finished(ReplyTiming),
    Failed(Seq<char>),
}

impl View for Status {
    type V = StatusView;

    open spec fn view(&self) -> StatusView {
        match self {
            Status::Idle => StatusView::Idle,
            Status::Streaming { stream, timing } => StatusView::Streaming {
                stream: *stream,
                timing: *timing,
            },
            Status::Finished(timing) => StatusView::Finished(*timing),
            Status::Failed(error) => StatusView::Failed(error@),
        }
    }
}

/// What is left to do after an event.
#[derive(Debug)]
pub enum Action {
    Nothing,
    /// Ask the engine for this reply, and report with [`App::reply_started`].
    Start(ReplyRequest),
    /// Pass a command to the engine.
    Engine(EngineCommand),
    /// Copy this code, and report with [`App::copied`].
    Copy(String),
}

/// What is left to do after an event, as a mathematical value.
pub enum Reaction {
    Nothing,
    Engine(EngineCommand),
    Copy(Seq<char>),
}

impl Action {
    /// Whether it is `reaction`.
    pub open spec fn is_reaction(self, reaction: Reaction) -> bool {
        match reaction {
            Reaction::Nothing => self is Nothing,
            Reaction::Engine(command) => self == Action::Engine(command),
            Reaction::Copy(code) => self matches Action::Copy(text) && text@ == code,
        }
    }
}

/// The state of the chat, without the model and the highlighter, which never change.
#[verifier::ext_equal]
pub struct AppState {
    pub messages: Seq<MessageView>,
    pub input: Seq<char>,
    pub status: StatusView,
    pub scroll_position: Option<u16>,
    pub max_scroll: u16,
    pub page_height: u16,
    pub context_tokens: usize,
    pub transcript_area: Area,
    pub notice: Option<Seq<char>>,
    pub should_quit: bool,
}

/// The messages that make up the system prompt.
pub open spec fn system_only(messages: Seq<MessageView>) -> Seq<MessageView>
    decreases messages.len(),
{
    if messages.len() == 0 {
        messages
    } else if messages.last().role == Role::System {
        system_only(messages.drop_last()).push(messages.last())
    } else {
        system_only(messages.drop_last())
    }
}

/// The last code block of the conversation that the assistant wrote.
pub open spec fn latest_code(messages: Seq<MessageView>) -> Option<Seq<char>>
    decreases messages.len(),
{
    if messages.len() == 0 {
        None
    } else {
        let blocks = code_of(messages.last().content);
        if messages.last().role == Role::Assistant && blocks.len() > 0 {
            Some(blocks.last())
        } else {
            latest_code(messages.drop_last())
        }
    }
}

impl AppState {
    /// The start of a chat. The optional system prompt starts every conversation.
    pub open spec fn start(system_prompt: Option<Seq<char>>) -> Self {
        AppState {
            messages: match system_prompt {
                Some(prompt) => seq![MessageView { role: Role::System, content: prompt }],
                None => Seq::empty(),
            },
            input: Seq::empty(),
            status: StatusView::Idle,
            scroll_position: None,
            max_scroll: 0,
            page_height: 0,
            context_tokens: 0,
            transcript_area: Area::zero(),
            notice: None,
            should_quit: false,
        }
    }

    /// The first transcript row to show.
    pub open spec fn scroll_offset(self) -> u16 {
        match self.scroll_position {
            Some(position) => if position <= self.max_scroll {
                position
            } else {
                self.max_scroll
            },
            None => self.max_scroll,
        }
    }

    /// The view moves up by `rows`.
    pub open spec fn scroll_up(self, rows: u16) -> Self {
        AppState {
            scroll_position: Some(minus(self.scroll_offset() as int, rows as int) as u16),
            ..self
        }
    }

    /// The view moves down by `rows`; back at the bottom it follows new output.
    pub open spec fn scroll_down(self, rows: u16) -> Self {
        let position = least(self.scroll_offset() + rows, u16::MAX as int) as u16;
        AppState {
            scroll_position: if position >= self.max_scroll {
                None
            } else {
                Some(position)
            },
            ..self
        }
    }

    /// How far a page key scrolls.
    pub open spec fn page(self) -> u16 {
        if self.page_height > 3 {
            (self.page_height - 2) as u16
        } else {
            1
        }
    }

    /// If the reply ended up empty, it is removed and the prompt is back in the input box. So is
    /// a prompt that has no reply yet.
    pub open spec fn restore_unanswered_prompt(self) -> Self {
        let empty_reply = self.messages.len() > 0 && self.messages.last().role == Role::Assistant
            && self.messages.last().content.len() == 0;
        let asked = if empty_reply {
            self.messages.drop_last()
        } else {
            self.messages
        };
        if asked.len() > 0 && asked.last().role == Role::User {
            AppState { messages: asked.drop_last(), input: asked.last().content, ..self }
        } else {
            AppState { messages: asked, ..self }
        }
    }

    /// The reply that is streaming stops; the text received so far is kept.
    pub open spec fn stop_reply(self, now: Moment) -> (Self, Reaction) {
        match self.status {
            StatusView::Streaming { stream, timing } => (
                AppState {
                    status: StatusView::Finished(timing.finish(now)),
                    ..self
                }.restore_unanswered_prompt(),
                Reaction::Engine(EngineCommand::Cancel(stream.request_id)),
            ),
            _ => (self, Reaction::Nothing),
        }
    }

    /// The reply stops if one is streaming, otherwise the input is cleared.
    pub open spec fn interrupt(self, now: Moment) -> (Self, Reaction) {
        if self.status is Streaming {
            self.stop_reply(now)
        } else {
            (AppState { input: Seq::empty(), ..self }, Reaction::Nothing)
        }
    }

    /// The conversation starts over with only the system prompt.
    pub open spec fn new_conversation(self) -> (Self, Reaction) {
        (
            AppState {
                messages: system_only(self.messages),
                context_tokens: 0,
                status: StatusView::Idle,
                scroll_position: None,
                ..self
            },
            match self.status {
                StatusView::Streaming { stream, .. } => Reaction::Engine(
                    EngineCommand::Cancel(stream.request_id),
                ),
                _ => Reaction::Nothing,
            },
        )
    }

    /// The last code block of the conversation is copied.
    pub open spec fn copy_latest_code_block(self) -> (Self, Reaction) {
        match latest_code(self.messages) {
            Some(code) => (self, Reaction::Copy(code)),
            None => (
                AppState { notice: Some("no code to copy yet"@), ..self },
                Reaction::Nothing,
            ),
        }
    }

    /// `ch` is typed.
    pub open spec fn typed(self, ch: char) -> Self {
        AppState { input: self.input.push(ch), ..self }
    }

    /// Whether a key press sends the input box.
    pub open spec fn sends(self, event: Event) -> bool {
        &&& event matches Event::Terminal(TerminalEvent::Key(key))
        &&& key.press
        &&& key.code is Enter
        &&& key.modifiers != ALT
        &&& key.modifiers != SHIFT
        &&& !(self.status is Streaming)
        &&& trim(self.input).len() > 0
    }

    /// A key is pressed, one that does not send the input box. The notice goes.
    pub open spec fn key(self, key: KeyEvent, now: Moment) -> (Self, Reaction) {
        let cleared = AppState { notice: None, ..self };
        match key.code {
            KeyCode::Char(ch) => if key.modifiers == CONTROL {
                if ch == 'd' {
                    (AppState { should_quit: true, ..cleared }, Reaction::Nothing)
                } else if ch == 'c' {
                    cleared.interrupt(now)
                } else if ch == 'l' {
                    cleared.new_conversation()
                } else if ch == 'y' {
                    cleared.copy_latest_code_block()
                } else if ch == 'j' {
                    (cleared.typed('\n'), Reaction::Nothing)
                } else {
                    (cleared, Reaction::Nothing)
                }
            } else if key.modifiers == NO_MODIFIERS || key.modifiers == SHIFT {
                (cleared.typed(ch), Reaction::Nothing)
            } else {
                (cleared, Reaction::Nothing)
            },
            KeyCode::Enter => if key.modifiers == ALT || key.modifiers == SHIFT {
                (cleared.typed('\n'), Reaction::Nothing)
            } else {
                (cleared, Reaction::Nothing)
            },
            KeyCode::Esc => cleared.stop_reply(now),
            KeyCode::Backspace => (
                AppState {
                    input: if self.input.len() == 0 {
                        self.input
                    } else {
                        self.input.drop_last()
                    },
                    ..cleared
                },
                Reaction::Nothing,
            ),
            KeyCode::Up => (cleared.scroll_up(1), Reaction::Nothing),
            KeyCode::Down => (cleared.scroll_down(1), Reaction::Nothing),
            KeyCode::PageUp => (cleared.scroll_up(cleared.page()), Reaction::Nothing),
            KeyCode::PageDown => (cleared.scroll_down(cleared.page()), Reaction::Nothing),
            KeyCode::End => (AppState { scroll_position: None, ..cleared }, Reaction::Nothing),
            KeyCode::Other => (cleared, Reaction::Nothing),
        }
    }

    /// The code of the block whose copy button is at `position` on screen.
    pub open spec fn code_at(self, highlighter: Highlighter, position: Position) -> Option<
        Seq<char>,
    > {
        if self.transcript_area.holds(position) {
            code_on_cell(
                self.messages,
                highlighter,
                self.transcript_area.width,
                row_counts(
                    transcript(self.messages, highlighter).lines,
                    self.transcript_area.width,
                ),
                self.scroll_offset() + (position.y - self.transcript_area.y),
                position.x - self.transcript_area.x,
            )
        } else {
            None
        }
    }

    /// The mouse does something. Clicking a code block's copy button copies its code; the wheel
    /// scrolls.
    pub open spec fn mouse(self, highlighter: Highlighter, mouse: MouseEvent) -> (Self, Reaction) {
        match mouse.kind {
            MouseKind::LeftDown => match self.code_at(
                highlighter,
                Position { x: mouse.column, y: mouse.row },
            ) {
                Some(code) => (self, Reaction::Copy(code)),
                None => (self, Reaction::Nothing),
            },
            MouseKind::ScrollUp => (self.scroll_up(WHEEL_ROWS), Reaction::Nothing),
            MouseKind::ScrollDown => (self.scroll_down(WHEEL_ROWS), Reaction::Nothing),
            MouseKind::Other => (self, Reaction::Nothing),
        }
    }

    /// A piece of the reply to request `request_id` arrives. A piece of any reply but the one
    /// that is streaming is ignored.
    pub open spec fn reply(self, request_id: RequestId, piece: ReplyPiece, now: Moment) -> Self {
        match self.status {
            StatusView::Streaming { stream, timing } => if stream.request_id != request_id {
                self
            } else {
                match piece {
                    ReplyPiece::Text { text, token_count } => AppState {
                        messages: if self.messages.len() > 0 {
                            self.messages.drop_last().push(
                                MessageView {
                                    content: self.messages.last().content + text@,
                                    ..self.messages.last()
                                },
                            )
                        } else {
                            self.messages
                        },
                        status: StatusView::Streaming {
                            stream,
                            timing: timing.with_tokens(token_count, now),
                        },
                        context_tokens: (self.context_tokens + token_count) as usize,
                        ..self
                    },
                    ReplyPiece::Finished => AppState {
                        status: StatusView::Finished(timing.finish(now)),
                        ..self
                    }.restore_unanswered_prompt(),
                    ReplyPiece::Failed(error) => AppState {
                        status: StatusView::Failed(error@),
                        ..self
                    }.restore_unanswered_prompt(),
                }
            },
            _ => self,
        }
    }

    /// An event happens, one that does not send the input box.
    pub open spec fn react(self, highlighter: Highlighter, event: Event, now: Moment) -> (
        Self,
        Reaction,
    ) {
        match event {
            Event::Terminal(TerminalEvent::Key(key)) => if key.press {
                self.key(key, now)
            } else {
                (self, Reaction::Nothing)
            },
            Event::Terminal(TerminalEvent::Paste(text)) => (
                AppState { input: self.input + text@, ..self },
                Reaction::Nothing,
            ),
            Event::Terminal(TerminalEvent::Mouse(mouse)) => self.mouse(highlighter, mouse),
            Event::Terminal(TerminalEvent::Other) => (self, Reaction::Nothing),
            Event::Reply { request_id, piece } => (
                self.reply(request_id, piece, now),
                Reaction::Nothing,
            ),
        }
    }

    /// The input box becomes a message of the user.
    pub open spec fn ask(self) -> Self {
        AppState {
            messages: self.messages.push(
                MessageView { role: Role::User, content: self.input },
            ),
            input: Seq::empty(),
            notice: None,
            ..self
        }
    }

    /// The reply to the last message could not be started.
    pub open spec fn fail(self, reason: Seq<char>) -> Self {
        AppState { status: StatusView::Failed(reason), ..self }.restore_unanswered_prompt()
    }

    /// The reply to the last message was started.
    pub open spec fn stream(self, stream: ReplyStream, now: Moment) -> Self {
        AppState {
            context_tokens: stream.prompt_tokens,
            messages: self.messages.push(
                MessageView { role: Role::Assistant, content: Seq::empty() },
            ),
            status: StatusView::Streaming { stream, timing: ReplyTiming::start(now) },
            scroll_position: None,
            ..self
        }
    }

    /// Whether an event's tokens can still be counted.
    pub open spec fn can_count(self, event: Event) -> bool {
        match (self.status, event) {
            (
                StatusView::Streaming { stream, timing },
                Event::Reply { request_id, piece: ReplyPiece::Text { token_count, .. } },
            ) => stream.request_id == request_id ==> timing.token_count + token_count <= u32::MAX
                && self.context_tokens + token_count <= usize::MAX,
            _ => true,
        }
    }
}

/// Everything the chat window needs to draw itself and react to input.
pub struct App {
    pub model: ChatModel,
    pub highlighter: Highlighter,
    pub messages: Vec<Message>,
    /// Text typed into the input box, not sent yet.
    pub input: String,
    pub status: Status,
    /// First transcript row on screen, when the user has scrolled up. `None` means "stick to the
    /// bottom and follow new output".
    pub scroll_position: Option<u16>,
    /// Largest useful scroll position; updated every frame.
    pub max_scroll: u16,
    /// Rows the transcript area has on screen; updated every frame.
    pub page_height: u16,
    /// Tokens the conversation takes up so far, out of `model.context_limit()`.
    pub context_tokens: usize,
    /// Where the transcript was drawn; updated every frame.
    pub transcript_area: Area,
    /// A short message for the status bar (e.g. "copied"), until the next key.
    pub notice: Option<String>,
    /// Whether the user asked to quit.
    pub should_quit: bool,
}

impl View for App {
    type V = AppState;

    open spec fn view(&self) -> AppState {
        AppState {
            messages: conversation(self.messages@),
            input: self.input@,
            status: self.status@,
            scroll_position: self.scroll_position,
            max_scroll: self.max_scroll,
            page_height: self.page_height,
            context_tokens: self.context_tokens,
            transcript_area: self.transcript_area,
            notice: optional_text(self.notice),
            should_quit: self.should_quit,
        }
    }
}

impl App {
    /// The model's limits, the grammars and the transcript's width are in order.
    pub open spec fn wf(self) -> bool {
        self.model.wf() && self.highlighter.wf() && self.transcript_area.width <= MAX_COLUMNS
    }

    /// Whether `self` has the model and the highlighter of `other`.
    pub open spec fn same_model(self, other: App) -> bool {
        self.model == other.model && self.highlighter == other.highlighter
    }

    /// Creates the app. The optional system prompt starts every conversation.
    pub fn new(model: ChatModel, highlighter: Highlighter, system_prompt: Option<String>) -> (app:
        Self)
        ensures
            app.model == model,
            app.highlighter == highlighter,
            app@ == AppState::start(optional_text(system_prompt)),
    {
        let ghost prompt = optional_text(system_prompt);
        let mut messages: Vec<Message> = Vec::new();
        if let Some(content) = system_prompt {
            messages.push(Message { role: Role::System, content });
        }
        let app = App {
            model,
            highlighter,
            messages,
            input: String::new(),
            status: Status::Idle,
            scroll_position: None,
            max_scroll: 0,
            page_height: 0,
            context_tokens: 0,
            transcript_area: Area::zero(),
            notice: None,
            should_quit: false,
        };
        assert(app@ =~= AppState::start(prompt));
        app
    }

    /// Whether a reply is streaming in right now.
    pub fn is_streaming(&self) -> (result: bool)
        ensures
            result == (self@.status is Streaming),
    {
        match self.status {
            Status::Streaming { .. } => true,
            _ => false,
        }
    }

    /// The scroll position to draw with.
    pub fn scroll_offset(&self) -> (offset: u16)
        ensures
            offset == self@.scroll_offset(),
            offset <= self.max_scroll,
    {
        match self.scroll_position {
            Some(position) => if position <= self.max_scroll {
                position
            } else {
                self.max_scroll
            },
            None => self.max_scroll,
        }
    }

    /// Tells whether the tokens of `event` can still be counted.
    pub fn can_take(&self, event: &Event) -> (result: bool)
        ensures
            result == self@.can_count(*event),
    {
        match (&self.status, event) {
            (
                Status::Streaming { stream, timing },
                Event::Reply { request_id, piece: ReplyPiece::Text { token_count, .. } },
            ) => stream.request_id != *request_id || (timing.token_count <= u32::MAX - *token_count
                && *token_count as u64 <= (usize::MAX - self.context_tokens) as u64),
            _ => true,
        }
    }

    /// Applies an event, and says what is left to do. Sending the input box can go three ways:
    /// the reply is planned and is to be started; the tokenizer fails; or the conversation is too
    /// long. In the last two the prompt is back in the input box.
    pub fn handle_event(&mut self, event: Event, now: Moment) -> (action: Action)
        requires
            old(self).wf(),
            old(self)@.can_count(event),
        ensures
            final(self).wf(),
            final(self).same_model(*old(self)),
            if old(self)@.sends(event) {
                let asked = old(self)@.ask();
                exists|result: Result<ReplyRequest, StartError>|
                    {
                        &&& #[trigger] old(self).model.may_start(asked.messages, result)
                        &&& match result {
                            Ok(request) => final(self)@ == asked && action == Action::Start(request),
                            Err(error) => final(self)@ == asked.fail(error.explanation())
                                && action is Nothing,
                        }
                    }
            } else {
                let (state, reaction) = old(self)@.react(old(self).highlighter, event, now);
                final(self)@ == state && action.is_reaction(reaction)
            },
    {
        match event {
            Event::Terminal(TerminalEvent::Key(key)) => {
                if key.press {
                    self.handle_key(key, now)
                } else {
                    Action::Nothing
                }
            },
            Event::Terminal(TerminalEvent::Paste(text)) => {
                self.input.append(text.as_str());
                assert(self@ =~= (AppState { input: old(self)@.input + text@, ..old(self)@ }));
                Action::Nothing
            },
            Event::Terminal(TerminalEvent::Mouse(mouse)) => self.handle_mouse(mouse),
            Event::Terminal(TerminalEvent::Other) => Action::Nothing,  // resizes just need a redraw
            Event::Reply { request_id, piece } => {
                self.handle_reply(request_id, piece, now);
                Action::Nothing
            },
        }
    }

    fn handle_key(&mut self, key: KeyEvent, now: Moment) -> (action: Action)
        requires
            old(self).wf(),
            key.press,
        ensures
            final(self).wf(),
            final(self).same_model(*old(self)),
            if old(self)@.sends(Event::Terminal(TerminalEvent::Key(key))) {
                let asked = old(self)@.ask();
                exists|result: Result<ReplyRequest, StartError>|
                    {
                        &&& #[trigger] old(self).model.may_start(asked.messages, result)
                        &&& match result {
                            Ok(request) => final(self)@ == asked && action == Action::Start(request),
                            Err(error) => final(self)@ == asked.fail(error.explanation())
                                && action is Nothing,
                        }
                    }
            } else {
                let (state, reaction) = old(self)@.key(key, now);
                final(self)@ == state && action.is_reaction(reaction)
            },
    {
        self.notice = None;
        assert(self@ =~= (AppState { notice: None, ..old(self)@ }));
        let page: u16 = if self.page_height > 3 {
            self.page_height - 2
        } else {
            1
        };
        match key.code {
            KeyCode::Char(ch) => {
                if key.modifiers == CONTROL {
                    if ch == 'd' {
                        self.should_quit = true;
                        Action::Nothing
                    } else if ch == 'c' {
                        self.interrupt(now)
                    } else if ch == 'l' {
                        self.new_conversation()
                    } else if ch == 'y' {
                        self.copy_latest_code_block()
                    } else if ch == 'j' {
                        self.input.push('\n');
                        Action::Nothing
                    } else {
                        Action::Nothing
                    }
                } else if key.modifiers == NO_MODIFIERS || key.modifiers == SHIFT {
                    self.input.push(ch);
                    Action::Nothing
                } else {
                    Action::Nothing
                }
            },
            KeyCode::Enter => {
                if key.modifiers == ALT || key.modifiers == SHIFT {
                    self.input.push('\n');
                    Action::Nothing
                } else {
                    self.send_message()
                }
            },
            KeyCode::Esc => self.stop_reply(now),
            KeyCode::Backspace => {
                let _ = self.input.pop();
                Action::Nothing
            },
            KeyCode::Up => {
                self.scroll_up(1);
                Action::Nothing
            },
            KeyCode::Down => {
                self.scroll_down(1);
                Action::Nothing
            },
            KeyCode::PageUp => {
                self.scroll_up(page);
                Action::Nothing
            },
            KeyCode::PageDown => {
                self.scroll_down(page);
                Action::Nothing
            },
            KeyCode::End => {
                self.scroll_position = None;
                Action::Nothing
            },
            KeyCode::Other => Action::Nothing,
        }
    }

    /// Clicking a code block's copy button copies its code; the wheel scrolls.
    fn handle_mouse(&mut self, mouse: MouseEvent) -> (action: Action)
        requires
            old(self).wf(),
        ensures
            final(self).wf(),
            final(self).same_model(*old(self)),
            ({
                let (state, reaction) = old(self)@.mouse(old(self).highlighter, mouse);
                final(self)@ == state && action.is_reaction(reaction)
            }),
    {
        match mouse.kind {
            MouseKind::LeftDown => {
                match code_block_at(self, Position { x: mouse.column, y: mouse.row }) {
                    Some(code) => Action::Copy(code),
                    None => Action::Nothing,
                }
            },
            MouseKind::ScrollUp => {
                self.scroll_up(WHEEL_ROWS);
                Action::Nothing
            },
            MouseKind::ScrollDown => {
                self.scroll_down(WHEEL_ROWS);
                Action::Nothing
            },
            MouseKind::Other => Action::Nothing,
        }
    }

    /// Copies the last code block of the conversation.
    fn copy_latest_code_block(&mut self) -> (action: Action)
        requires
            old(self).wf(),
        ensures
            final(self).wf(),
            final(self).same_model(*old(self)),
            ({
                let (state, reaction) = old(self)@.copy_latest_code_block();
                final(self)@ == state && action.is_reaction(reaction)
            }),
    {
        match latest_code_block(&self.messages) {
            Some(code) => Action::Copy(code),
            None => {
                self.notice = Some("no code to copy yet".to_owned());
                Action::Nothing
            },
        }
    }

    /// What is said of copying code: how many lines were copied, or why they were not.
    pub open spec fn copy_notice(code: Seq<char>, failure: Option<Seq<char>>) -> Seq<char> {
        match failure {
            None => "✓ copied "@ + decimal(lines(code).len()) + " lines"@,
            Some(error) => "cannot copy: "@ + error,
        }
    }

    /// Notes how copying `code` went: how many lines were copied, or why they were not.
    pub fn copied(&mut self, code: &str, outcome: Result<(), String>)
        ensures
            final(self).same_model(*old(self)),
            final(self)@ == (AppState {
                notice: Some(
                    match outcome {
                        Ok(_) => "✓ copied "@ + decimal(lines(code@).len()) + " lines"@,
                        Err(error) => "cannot copy: "@ + error@,
                    },
                ),
                ..old(self)@
            }),
            final(self)@.notice == Some(
                App::copy_notice(
                    code@,
                    match outcome {
                        Ok(_) => None,
                        Err(error) => Some(error@),
                    },
                ),
            ),
    {
        let mut notice: String = String::new();
        match outcome {
            Ok(_) => {
                let code_lines: Vec<&str> = lines_of(code);
                assert(views(code_lines@).len() == code_lines@.len());
                notice.append("✓ copied ");
                notice.append(decimal_of(code_lines.len() as u128).as_str());
                notice.append(" lines");
            },
            Err(error) => {
                notice.append("cannot copy: ");
                notice.append(error.as_str());
            },
        }
        self.notice = Some(notice);
    }

    /// Sends the input box as a user message and plans the reply.
    fn send_message(&mut self) -> (action: Action)
        requires
            old(self).wf(),
            old(self)@.notice is None,
        ensures
            final(self).wf(),
            final(self).same_model(*old(self)),
            if old(self)@.status is Streaming || trim(old(self)@.input).len() == 0 {
                final(self)@ == old(self)@ && action is Nothing
            } else {
                let asked = old(self)@.ask();
                exists|result: Result<ReplyRequest, StartError>|
                    {
                        &&& #[trigger] old(self).model.may_start(asked.messages, result)
                        &&& match result {
                            Ok(request) => final(self)@ == asked && action == Action::Start(request),
                            Err(error) => final(self)@ == asked.fail(error.explanation())
                                && action is Nothing,
                        }
                    }
            },
    {
        if self.is_streaming() || trim_of(self.input.as_str()).unicode_len() == 0 {
            return Action::Nothing;
        }
        let mut text: String = String::new();
        std::mem::swap(&mut text, &mut self.input);  // moves the text, no copy
        self.messages.push(Message { role: Role::User, content: text });
        assert(self@ =~= old(self)@.ask());
        let ghost asked = self@;

        let result = self.model.start_reply(self.messages.as_slice());
        assert(old(self).model.may_start(asked.messages, result));
        match result {
            Ok(request) => Action::Start(request),
            Err(error) => {
                self.fail(error.message());
                Action::Nothing
            },
        }
    }

    /// The reply to the last message cannot be started.
    fn fail(&mut self, reason: String)
        requires
            old(self).wf(),
        ensures
            final(self).wf(),
            final(self).same_model(*old(self)),
            final(self)@ == old(self)@.fail(reason@),
    {
        self.status = Status::Failed(reason);
        self.restore_unanswered_prompt();
    }

    /// Notes whether the engine took the reply that was planned: the id of its request, or why
    /// there is none. `prompt_tokens` is the length of its prompt.
    pub fn reply_started(
        &mut self,
        prompt_tokens: usize,
        outcome: Result<RequestId, String>,
        now: Moment,
    )
        requires
            old(self).wf(),
        ensures
            final(self).wf(),
            final(self).same_model(*old(self)),
            match outcome {
                Ok(request_id) => final(self)@ == old(self)@.stream(
                    ReplyStream { request_id, prompt_tokens },
                    now,
                ),
                Err(reason) => final(self)@ == old(self)@.fail(reason@),
            },
    {
        match outcome {
            Ok(request_id) => {
                self.context_tokens = prompt_tokens;
                self.messages.push(Message { role: Role::Assistant, content: String::new() });
                let stream = ReplyStream { request_id, prompt_tokens };
                self.status = Status::Streaming { stream, timing: ReplyTiming::start(now) };
                self.scroll_position = None;
                assert(self@ =~= old(self)@.stream(stream, now));
            },
            Err(reason) => self.fail(reason),
        }
    }

    /// Applies a piece of a reply, ignoring pieces of replies that were stopped.
    fn handle_reply(&mut self, request_id: RequestId, piece: ReplyPiece, now: Moment)
        requires
            old(self).wf(),
            old(self)@.can_count(Event::Reply { request_id, piece }),
        ensures
            final(self).wf(),
            final(self).same_model(*old(self)),
            final(self)@ == old(self)@.reply(request_id, piece, now),
    {
        let (stream, timing) = match &self.status {
            Status::Streaming { stream, timing } => (*stream, *timing),
            _ => return ,  // nothing is streaming, so this piece is left over from a stopped reply
        };
        if stream.request_id != request_id {
            return ;
        }
        match piece {
            ReplyPiece::Text { text, token_count } => {
                if let Some(reply) = self.messages.pop() {
                    let mut content: String = reply.content;
                    content.append(text.as_str());
                    self.messages.push(Message { role: reply.role, content });
                }
                let mut counted = timing;
                counted.add_tokens(token_count, now);
                self.status = Status::Streaming { stream, timing: counted };
                self.context_tokens = self.context_tokens + token_count as usize;
                assert(self@ =~= old(self)@.reply(request_id, piece, now));
            },
            ReplyPiece::Finished => {
                self.status = Status::Finished(timing.finish(now));
                self.restore_unanswered_prompt();
            },
            ReplyPiece::Failed(error) => {
                self.status = Status::Failed(error);
                self.restore_unanswered_prompt();
            },
        }
    }

    /// Stops the reply if one is streaming, otherwise clears the input. It never quits, so a
    /// stray Ctrl+C can't end the conversation.
    fn interrupt(&mut self, now: Moment) -> (action: Action)
        requires
            old(self).wf(),
        ensures
            final(self).wf(),
            final(self).same_model(*old(self)),
            ({
                let (state, reaction) = old(self)@.interrupt(now);
                final(self)@ == state && action.is_reaction(reaction)
            }),
    {
        if self.is_streaming() {
            self.stop_reply(now)
        } else {
            self.input = String::new();
            assert(self@ =~= (AppState { input: Seq::empty(), ..old(self)@ }));
            Action::Nothing
        }
    }

    /// Stops the reply that is streaming, keeping the text received so far.
    fn stop_reply(&mut self, now: Moment) -> (action: Action)
        requires
            old(self).wf(),
        ensures
            final(self).wf(),
            final(self).same_model(*old(self)),
            ({
                let (state, reaction) = old(self)@.stop_reply(now);
                final(self)@ == state && action.is_reaction(reaction)
            }),
    {
        let (stream, timing) = match &self.status {
            Status::Streaming { stream, timing } => (*stream, *timing),
            _ => return Action::Nothing,
        };
        self.status = Status::Finished(timing.finish(now));
        self.restore_unanswered_prompt();
        Action::Engine(stream.cancel())
    }

    /// If the reply ended up empty, removes it and puts the prompt back into the input box, so
    /// the user can retry with Enter.
    fn restore_unanswered_prompt(&mut self)
        requires
            old(self).wf(),
        ensures
            final(self).wf(),
            final(self).same_model(*old(self)),
            final(self)@ == old(self)@.restore_unanswered_prompt(),
    {
        let count: usize = self.messages.len();
        if count > 0 && self.messages[count - 1].role == Role::Assistant
            && self.messages[count - 1].content.as_str().unicode_len() == 0 {
            let _ = self.messages.pop();
            assert(conversation(self.messages@) =~= old(self)@.messages.drop_last());
        }
        let ghost asked = conversation(self.messages@);
        let count: usize = self.messages.len();
        if count > 0 && self.messages[count - 1].role == Role::User {
            if let Some(prompt) = self.messages.pop() {
                self.input = prompt.content;
            }
            assert(conversation(self.messages@) =~= asked.drop_last());
        }
        assert(self@ =~= old(self)@.restore_unanswered_prompt());
    }

    /// Starts over, keeping only the system prompt.
    fn new_conversation(&mut self) -> (action: Action)
        requires
            old(self).wf(),
        ensures
            final(self).wf(),
            final(self).same_model(*old(self)),
            ({
                let (state, reaction) = old(self)@.new_conversation();
                final(self)@ == state && action.is_reaction(reaction)
            }),
    {
        let action = match &self.status {
            Status::Streaming { stream, .. } => Action::Engine(stream.cancel()),
            _ => Action::Nothing,
        };
        let mut messages: Vec<Message> = Vec::new();
        std::mem::swap(&mut messages, &mut self.messages);
        self.messages = keep_system(messages);
        self.context_tokens = 0;
        self.status = Status::Idle;
        self.scroll_position = None;
        assert(self@ =~= old(self)@.new_conversation().0);
        action
    }

    fn scroll_up(&mut self, rows: u16)
        requires
            old(self).wf(),
        ensures
            final(self).wf(),
            final(self).same_model(*old(self)),
            final(self)@ == old(self)@.scroll_up(rows),
    {
        self.scroll_position = Some(self.scroll_offset().saturating_sub(rows));
    }

    fn scroll_down(&mut self, rows: u16)
        requires
            old(self).wf(),
        ensures
            final(self).wf(),
            final(self).same_model(*old(self)),
            final(self)@ == old(self)@.scroll_down(rows),
    {
        let position: u16 = self.scroll_offset().saturating_add(rows);
        // Scrolling back to the bottom resumes following new output.
        self.scroll_position = if position >= self.max_scroll {
            None
        } else {
            Some(position)
        };
    }
}

/// The messages that make up the system prompt.
fn keep_system(messages: Vec<Message>) -> (kept: Vec<Message>)
    ensures
        conversation(kept@) == system_only(conversation(messages@)),
{
    let mut kept: Vec<Message> = Vec::new();
    let ghost all = conversation(messages@);
    assert(all.take(0) =~= Seq::empty());
    assert(conversation(kept@) =~= Seq::empty());
    for message in iter: messages
        invariant
            iter.seq() == messages@,
            all == conversation(messages@),
            conversation(kept@) == system_only(all.take(iter.index())),
    {
        let ghost before = conversation(kept@);
        let ghost seen = all.take(iter.index() + 1);
        proof {
            assert(seen.drop_last() =~= all.take(iter.index()));
            assert(seen.last() == message@);
        }
        if message.role == Role::System {
            kept.push(message);
            assert(conversation(kept@) =~= before.push(message@));
        }
    }
    assert(all.take(all.len() as int) =~= all);
    kept
}

/// The last code block that the assistant wrote.
fn latest_code_block(messages: &Vec<Message>) -> (code: Option<String>)
    ensures
        match code {
            Some(code) => latest_code(conversation(messages@)) == Some(code@),
            None => latest_code(conversation(messages@)) is None,
        },
{
    let ghost all = conversation(messages@);
    let mut left: usize = messages.len();
    assert(all.take(left as int) =~= all);
    while left > 0
        invariant
            left <= messages@.len(),
            all == conversation(messages@),
            latest_code(all) == latest_code(all.take(left as int)),
        decreases left,
    {
        let message: &Message = &messages[left - 1];
        proof {
            assert(all.take(left as int).last() == message@);
            assert(all.take(left as int).drop_last() =~= all.take(left - 1));
        }
        if message.role == Role::Assistant {
            let mut blocks: Vec<String> = code_blocks(message.content.as_str());
            let ghost found = string_views(blocks@);
            if let Some(code) = blocks.pop() {
                assert(found.last() == code@);
                return Some(code);
            }
        }
        left = left - 1;
    }
    None
}

impl AppState {
    /// Where the turns begin: after the system prompt, if there is one.
    pub open spec fn first_turn(self) -> int {
        if self.messages.len() > 0 && self.messages[0].role == Role::System {
            1
        } else {
            0
        }
    }

    /// Whether the user and the assistant take turns, and the user has the first one.
    pub open spec fn in_turn(self) -> bool {
        forall|i: int|
            self.first_turn() <= i < self.messages.len() ==> (#[trigger] self.messages[i]).role
                == if (i - self.first_turn()) % 2 == 0 {
                Role::User
            } else {
                Role::Assistant
            }
    }

    /// Whether every prompt has its reply.
    pub open spec fn answered(self) -> bool {
        (self.messages.len() - self.first_turn()) % 2 == 0
    }

    /// Whether no reply is empty, but for the last one while it streams in.
    pub open spec fn replies_not_empty(self) -> bool {
        forall|i: int|
            0 <= i < self.messages.len() && (#[trigger] self.messages[i]).role == Role::Assistant
                ==> self.messages[i].content.len() > 0 || (i == self.messages.len() - 1
                && self.status is Streaming)
    }

    /// Whether the conversation and the counters are in order: after the system prompt the user
    /// and the assistant take turns, every prompt has its reply, and while a reply streams in its
    /// tokens are counted on top of the prompt's.
    pub open spec fn consistent(self) -> bool {
        &&& self.in_turn()
        &&& self.answered()
        &&& self.replies_not_empty()
        &&& self.status matches StatusView::Streaming { stream, timing } ==> {
            &&& self.messages.len() >= self.first_turn() + 2
            &&& self.context_tokens == stream.prompt_tokens + timing.token_count
        }
    }
}

/// A chat starts in order.
pub proof fn start_is_consistent(system_prompt: Option<Seq<char>>)
    ensures
        AppState::start(system_prompt).consistent(),
{
}

proof fn lemma_restore(state: AppState)
    requires
        state.in_turn(),
        state.answered(),
        state.messages.len() > 0 && state.messages.last().role == Role::Assistant
            && state.messages.last().content.len() == 0 ==> state.messages.len()
            >= state.first_turn() + 2,
    ensures
        state.restore_unanswered_prompt().in_turn(),
        state.restore_unanswered_prompt().answered(),
        state.messages.len() >= state.first_turn() + 2 && state.messages.last().content.len() == 0
            ==> {
            &&& state.restore_unanswered_prompt().messages == state.messages.take(
                state.messages.len() - 2,
            )
            &&& state.restore_unanswered_prompt().input == state.messages[state.messages.len()
                - 2].content
        },
        state.messages.len() == 0 || state.messages.last().content.len() > 0
            || state.messages.last().role != Role::Assistant
            ==> state.restore_unanswered_prompt().messages == state.messages
            && state.restore_unanswered_prompt().input == state.input,
{
    let first = state.first_turn();
    let len = state.messages.len() as int;
    if len > first {
        assert(state.messages[len - 1].role == Role::Assistant);
        assert((len - 1 - first) % 2 == 1);
        if len >= first + 2 {
            assert(state.messages[len - 2].role == Role::User);
            if state.messages.last().content.len() == 0 {
                assert(state.messages.drop_last().drop_last() =~= state.messages.take(len - 2));
            }
        }
    }
}

/// Whatever happens, a chat that is in order stays in order. The event that sends the input box
/// is followed by [`sending_stays_consistent`].
pub proof fn events_stay_consistent(
    state: AppState,
    highlighter: Highlighter,
    event: Event,
    now: Moment,
)
    requires
        state.consistent(),
        state.can_count(event),
    ensures
        state.react(highlighter, event, now).0.consistent(),
{
    let first = state.first_turn();
    let len = state.messages.len() as int;
    if let StatusView::Streaming { stream, timing } = state.status {
        assert(state.messages[len - 1].role == Role::Assistant) by {
            assert((len - 1 - first) % 2 == 1);
        }
        lemma_restore(state);
    }
    lemma_system_only(state);
    match event {
        Event::Reply { request_id, piece } => {
            let after = state.reply(request_id, piece, now);
            assert(after.in_turn());
        },
        _ => {},
    }
}

/// In a conversation in turn the system prompt is the first message or none.
proof fn lemma_system_only(state: AppState)
    requires
        state.in_turn(),
    ensures
        system_only(state.messages) == state.messages.take(state.first_turn()),
    decreases state.messages.len(),
{
    let first = state.first_turn();
    if state.messages.len() > first {
        let shorter = AppState { messages: state.messages.drop_last(), ..state };
        assert(state.messages.last() == state.messages[state.messages.len() - 1]);
        assert(state.messages.last().role != Role::System);
        assert(shorter.first_turn() == first);
        assert(shorter.in_turn());
        lemma_system_only(shorter);
        assert(shorter.messages.take(first) =~= state.messages.take(first));
    } else if state.messages.len() > 0 {
        let none = state.messages.drop_last();
        assert(system_only(none) == none);
        assert(state.messages.take(1) =~= none.push(state.messages.last()));
    } else {
        assert(state.messages.take(0) =~= state.messages);
    }
}

/// Sending the input box leaves the chat in order, whether the reply is started or not.
pub proof fn sending_stays_consistent(
    state: AppState,
    stream: ReplyStream,
    reason: Seq<char>,
    now: Moment,
)
    requires
        state.consistent(),
        !(state.status is Streaming),
    ensures
        state.ask().stream(stream, now).consistent(),
        state.ask().fail(reason).consistent(),
{
    a_failed_send_keeps_the_prompt(state, reason);
    let started = state.ask().stream(stream, now);
    assert(started.first_turn() == state.first_turn());
    assert forall|i: int|
        started.first_turn() <= i < started.messages.len() implies (
    #[trigger] started.messages[i]).role == if (i - started.first_turn()) % 2 == 0 {
        Role::User
    } else {
        Role::Assistant
    } by {
        if i < state.messages.len() {
            assert(started.messages[i] == state.messages[i]);
        }
    }
    assert forall|i: int|
        0 <= i < started.messages.len() && (#[trigger] started.messages[i]).role
            == Role::Assistant implies started.messages[i].content.len() > 0 || (i
        == started.messages.len() - 1 && started.status is Streaming) by {
        if i < state.messages.len() {
            assert(started.messages[i] == state.messages[i]);
        }
    }
}

impl AppState {
    /// Whether `after` can come next: an event happened, and where it sent the input box, the reply
    /// was started or not; the window was drawn; or what was copied was noted.
    pub open spec fn may_become(self, after: Self, highlighter: Highlighter) -> bool {
        ||| exists|event: Event, now: Moment|
            {
                &&& self.can_count(event)
                &&& !self.sends(event)
                &&& after == (#[trigger] self.react(highlighter, event, now)).0
            }
        ||| {
            &&& exists|event: Event| #[trigger] self.sends(event)
            &&& {
                ||| exists|stream: ReplyStream, now: Moment|
                    after == #[trigger] self.ask().stream(stream, now)
                ||| exists|reason: Seq<char>| after == #[trigger] self.ask().fail(reason)
            }
        }
        ||| exists|area: Area, rows: usize| after == #[trigger] self.drawn(area, rows)
        ||| after == (AppState { notice: after.notice, ..self })
    }

    /// Whether the conversation is the system prompt, if there is one, and then prompts of the user
    /// and replies of the assistant in turn, ending with a reply. Only the last reply can be empty,
    /// while it streams in.
    pub open spec fn in_order(self, system_prompt: Option<Seq<char>>) -> bool {
        let opening = AppState::start(system_prompt).messages;
        let first = opening.len() as int;
        let len = self.messages.len() as int;
        &&& opening.is_prefix_of(self.messages)
        &&& forall|i: int|
            first <= i < len ==> (#[trigger] self.messages[i]).role == if (i - first) % 2 == 0 {
                Role::User
            } else {
                Role::Assistant
            }
        &&& len > first ==> self.messages.last().role == Role::Assistant
        &&& forall|i: int|
            0 <= i < len && (#[trigger] self.messages[i]).role == Role::Assistant
                ==> self.messages[i].content.len() > 0 || (i == len - 1 && self.status is Streaming)
        &&& self.status is Streaming ==> len > first
    }
}

/// Whatever happens in a chat from its start on, the conversation is in order in every state it
/// comes to.
pub proof fn the_conversation_is_always_in_order(
    system_prompt: Option<Seq<char>>,
    highlighter: Highlighter,
    states: Seq<AppState>,
)
    requires
        states.len() > 0,
        states[0] == AppState::start(system_prompt),
        forall|i: int|
            #![trigger states[i]]
            0 < i < states.len() ==> states[i - 1].may_become(states[i], highlighter),
    ensures
        states.last().in_order(system_prompt),
        states.last().consistent(),
        system_only(states.last().messages) == AppState::start(system_prompt).messages,
    decreases states.len(),
{
    let start = AppState::start(system_prompt);
    let after = states.last();
    if states.len() == 1 {
        lemma_system_only(start);
        assert(start.messages.take(start.first_turn()) =~= start.messages);
    } else {
        let earlier = states.drop_last();
        the_conversation_is_always_in_order(system_prompt, highlighter, earlier);
        let before = earlier.last();
        assert(states[states.len() - 1] == after && states[states.len() - 2] == before);
        assert(before.may_become(after, highlighter));
        lemma_stays_in_order(before, after, highlighter);
    }
    lemma_system_only(after);
    let first = after.first_turn();
    assert(start.messages == after.messages.take(first));
    assert(start.messages.len() == first);
    if after.messages.len() > first {
        let last = after.messages.len() - 1;
        assert((last - first) % 2 == 1);
        assert(after.messages[last].role == Role::Assistant);
    }
}

proof fn lemma_stays_in_order(before: AppState, after: AppState, highlighter: Highlighter)
    requires
        before.consistent(),
        before.may_become(after, highlighter),
    ensures
        after.consistent(),
        system_only(after.messages) == system_only(before.messages),
{
    if exists|event: Event, now: Moment|
        {
            &&& before.can_count(event)
            &&& !before.sends(event)
            &&& after == (#[trigger] before.react(highlighter, event, now)).0
        } {
        let (event, now) = choose|event: Event, now: Moment|
            {
                &&& before.can_count(event)
                &&& !before.sends(event)
                &&& after == (#[trigger] before.react(highlighter, event, now)).0
            };
        events_stay_consistent(before, highlighter, event, now);
        the_system_prompt_stays(before, highlighter, event, now);
    } else if exists|event: Event| #[trigger] before.sends(event) {
        if exists|stream: ReplyStream, now: Moment| after == #[trigger] before.ask().stream(
            stream,
            now,
        ) {
            let (stream, now) = choose|stream: ReplyStream, now: Moment|
                after == #[trigger] before.ask().stream(stream, now);
            sending_stays_consistent(before, stream, Seq::empty(), now);
            let asked = before.ask().messages;
            assert(after.messages.drop_last() =~= asked);
            assert(asked.drop_last() =~= before.messages);
            assert(system_only(after.messages) == system_only(asked));
            assert(system_only(asked) == system_only(before.messages));
        } else if exists|reason: Seq<char>| after == #[trigger] before.ask().fail(reason) {
            let reason = choose|reason: Seq<char>| after == #[trigger] before.ask().fail(reason);
            a_failed_send_keeps_the_prompt(before, reason);
        }
    }
}

/// A prompt that could not be sent is back in the input box: nothing changes but the status,
/// which gives the reason, and the notice, which the key took away.
pub proof fn a_failed_send_keeps_the_prompt(state: AppState, reason: Seq<char>)
    ensures
        state.ask().fail(reason) == (AppState {
            status: StatusView::Failed(reason),
            notice: None,
            ..state
        }),
{
    assert(state.ask().messages.drop_last() =~= state.messages);
}

/// After a failed send the same prompt can be sent again.
pub proof fn a_failed_send_can_be_retried(state: AppState, reason: Seq<char>)
    ensures
        state.ask().fail(reason).ask().messages == state.ask().messages,
{
    a_failed_send_keeps_the_prompt(state, reason);
}

/// Only Ctrl+D quits.
pub proof fn only_control_d_quits(
    state: AppState,
    highlighter: Highlighter,
    event: Event,
    now: Moment,
)
    ensures
        state.react(highlighter, event, now).0.should_quit <==> (state.should_quit || (event matches
            Event::Terminal(TerminalEvent::Key(key)) && key.press && key.code == KeyCode::Char('d')
            && key.modifiers == CONTROL)),
{
}

/// Sending never quits.
pub proof fn sending_does_not_quit(
    state: AppState,
    stream: ReplyStream,
    reason: Seq<char>,
    now: Moment,
)
    ensures
        state.ask().should_quit == state.should_quit,
        state.ask().stream(stream, now).should_quit == state.should_quit,
        state.ask().fail(reason).should_quit == state.should_quit,
{
}

/// The system prompt outlives everything that happens, a new conversation too.
pub proof fn the_system_prompt_stays(
    state: AppState,
    highlighter: Highlighter,
    event: Event,
    now: Moment,
)
    requires
        state.consistent(),
        state.can_count(event),
    ensures
        system_only(state.react(highlighter, event, now).0.messages) == system_only(state.messages),
{
    let after = state.react(highlighter, event, now).0;
    events_stay_consistent(state, highlighter, event, now);
    lemma_system_only(state);
    lemma_system_only(after);
    let len = state.messages.len() as int;
    if let StatusView::Streaming { .. } = state.status {
        assert(state.messages[len - 1].role == Role::Assistant) by {
            assert((len - 1 - state.first_turn()) % 2 == 1);
        }
        lemma_restore(state);
    }
    assert(after.first_turn() == state.first_turn());
    assert(after.messages.take(after.first_turn()) =~= state.messages.take(state.first_turn()));
}

/// A new conversation holds the system prompt and nothing else, is idle, and counts no tokens.
pub proof fn a_new_conversation_is_empty(state: AppState)
    ensures
        ({
            let (after, _) = state.new_conversation();
            &&& forall|i: int|
                0 <= i < after.messages.len() ==> (#[trigger] after.messages[i]).role == Role::System
            &&& system_only(after.messages) == after.messages
            &&& after.status is Idle
            &&& after.context_tokens == 0
            &&& after.scroll_offset() == after.max_scroll
        }),
{
    lemma_system_only_again(state.messages);
}

proof fn lemma_system_only_again(messages: Seq<MessageView>)
    ensures
        system_only(system_only(messages)) == system_only(messages),
        forall|i: int|
            0 <= i < system_only(messages).len() ==> (#[trigger] system_only(messages)[i]).role
                == Role::System,
    decreases messages.len(),
{
    if messages.len() > 0 {
        lemma_system_only_again(messages.drop_last());
        if messages.last().role == Role::System {
            let kept = system_only(messages.drop_last());
            assert(kept.push(messages.last()).drop_last() =~= kept);
        }
    }
}

/// What Ctrl+Y copies is the last code block of the latest message of the assistant that has one.
/// Where no message of the assistant has a code block, nothing is copied, and the status bar says
/// so.
pub proof fn the_latest_code_block_is_copied(
    state: AppState,
    highlighter: Highlighter,
    key: KeyEvent,
    now: Moment,
)
    requires
        key.press,
        key.code == KeyCode::Char('y'),
        key.modifiers == CONTROL,
    ensures
        ({
            let event = Event::Terminal(TerminalEvent::Key(key));
            let (after, reaction) = state.react(highlighter, event, now);
            let has_code = |i: int|
                state.messages[i].role == Role::Assistant && code_of(
                    state.messages[i].content,
                ).len() > 0;
            match reaction {
                Reaction::Copy(code) => {
                    &&& exists|i: int|
                        0 <= i < state.messages.len() && #[trigger] has_code(i) && code == code_of(
                            state.messages[i].content,
                        ).last() && forall|j: int|
                            i < j < state.messages.len() ==> !#[trigger] has_code(j)
                    &&& after == (AppState { notice: None, ..state })
                },
                Reaction::Nothing => {
                    &&& forall|i: int| 0 <= i < state.messages.len() ==> !#[trigger] has_code(i)
                    &&& after == (AppState { notice: Some("no code to copy yet"@), ..state })
                },
                Reaction::Engine(_) => false,
            }
        }),
{
    let has_code = |i: int|
        state.messages[i].role == Role::Assistant && code_of(state.messages[i].content).len() > 0;
    lemma_latest_code(state.messages);
    match latest_code(state.messages) {
        Some(code) => {
            let i = choose|i: int|
                #![trigger state.messages[i]]
                0 <= i < state.messages.len() && state.messages[i].role == Role::Assistant
                    && code_of(state.messages[i].content).len() > 0 && code == code_of(
                    state.messages[i].content,
                ).last() && forall|j: int|
                    #![trigger state.messages[j]]
                    i < j < state.messages.len() ==> !(state.messages[j].role == Role::Assistant
                        && code_of(state.messages[j].content).len() > 0);
            assert(has_code(i));
        },
        None => {},
    }
}

proof fn lemma_latest_code(messages: Seq<MessageView>)
    ensures
        match latest_code(messages) {
            Some(code) => exists|i: int|
                #![trigger messages[i]]
                0 <= i < messages.len() && messages[i].role == Role::Assistant && code_of(
                    messages[i].content,
                ).len() > 0 && code == code_of(messages[i].content).last() && forall|j: int|
                    #![trigger messages[j]]
                    i < j < messages.len() ==> !(messages[j].role == Role::Assistant && code_of(
                        messages[j].content,
                    ).len() > 0),
            None => forall|i: int|
                #![trigger messages[i]]
                0 <= i < messages.len() ==> !(messages[i].role == Role::Assistant && code_of(
                    messages[i].content,
                ).len() > 0),
        },
    decreases messages.len(),
{
    if messages.len() > 0 {
        let last = messages.len() - 1;
        let shorter = messages.drop_last();
        lemma_latest_code(shorter);
        if messages[last].role == Role::Assistant && code_of(messages[last].content).len() > 0 {
            assert(messages[last] == messages.last());
        } else if latest_code(messages) is Some {
            let code = latest_code(messages)->0;
            let i = choose|i: int|
                #![trigger shorter[i]]
                0 <= i < shorter.len() && shorter[i].role == Role::Assistant && code_of(
                    shorter[i].content,
                ).len() > 0 && code == code_of(shorter[i].content).last() && forall|j: int|
                    #![trigger shorter[j]]
                    i < j < shorter.len() ==> !(shorter[j].role == Role::Assistant && code_of(
                        shorter[j].content,
                    ).len() > 0);
            assert(messages[i] == shorter[i]);
            assert forall|j: int|
                #![trigger messages[j]]
                i < j < messages.len() implies !(messages[j].role == Role::Assistant && code_of(
                messages[j].content,
            ).len() > 0) by {
                if j < last {
                    assert(messages[j] == shorter[j]);
                }
            }
        } else {
            assert forall|i: int|
                #![trigger messages[i]]
                0 <= i < messages.len() implies !(messages[i].role == Role::Assistant && code_of(
                messages[i].content,
            ).len() > 0) by {
                if i < last {
                    assert(messages[i] == shorter[i]);
                }
            }
        }
    }
}

/// A piece of a reply that is not streaming, because it was stopped or never was, changes
/// nothing.
pub proof fn stale_pieces_are_ignored(
    state: AppState,
    request_id: RequestId,
    piece: ReplyPiece,
    now: Moment,
)
    requires
        state.status matches StatusView::Streaming { stream, .. } ==> stream.request_id
            != request_id,
    ensures
        state.reply(request_id, piece, now) == state,
{
}

/// Stopping a reply keeps the text received so far; a reply without text is taken back, and its
/// prompt is in the input box again. Either way the request is cancelled on the engine, and
/// nothing that still arrives for it has an effect.
pub proof fn stopping_keeps_the_partial_reply(
    state: AppState,
    request_id: RequestId,
    piece: ReplyPiece,
    now: Moment,
    later: Moment,
)
    requires
        state.consistent(),
        state.status matches StatusView::Streaming { stream, .. } && stream.request_id
            == request_id,
    ensures
        ({
            let (after, reaction) = state.stop_reply(now);
            let len = state.messages.len();
            &&& reaction == Reaction::Engine(EngineCommand::Cancel(request_id))
            &&& after.status is Finished
            &&& after.reply(request_id, piece, later) == after
            &&& if state.messages.last().content.len() > 0 {
                after.messages == state.messages && after.input == state.input
            } else {
                after.messages == state.messages.take(len - 2) && after.input
                    == state.messages[len - 2].content
            }
        }),
{
    let len = state.messages.len() as int;
    assert(state.messages[len - 1].role == Role::Assistant) by {
        assert((len - 1 - state.first_turn()) % 2 == 1);
    }
    lemma_restore(state);
}

/// The rows that are shown never start below the last useful position. At the bottom the view
/// follows new output, whatever the bottom is by then.
pub proof fn the_bottom_is_followed(state: AppState, rows: u16, max_scroll: u16)
    ensures
        state.scroll_offset() <= state.max_scroll,
        state.scroll_offset() + rows >= state.max_scroll ==> (AppState {
            max_scroll,
            ..state.scroll_down(rows)
        }).scroll_offset() == max_scroll,
        state.scroll_up(rows).scroll_offset() <= state.scroll_offset(),
        state.scroll_down(rows).scroll_offset() >= state.scroll_offset(),
{
}

/// While a reply streams in, Enter changes nothing but the notice.
pub proof fn enter_waits_for_the_reply(
    state: AppState,
    highlighter: Highlighter,
    key: KeyEvent,
    now: Moment,
)
    requires
        state.status is Streaming,
        key.press,
        key.code is Enter,
        key.modifiers != ALT,
        key.modifiers != SHIFT,
    ensures
        ({
            let event = Event::Terminal(TerminalEvent::Key(key));
            &&& !state.sends(event)
            &&& state.react(highlighter, event, now) == (
                AppState { notice: None, ..state },
                Reaction::Nothing,
            )
        }),
{
}

/// What is sent is not blank: it holds something other than white space.
pub proof fn blank_input_is_not_sent(state: AppState, event: Event)
    requires
        state.sends(event),
    ensures
        exists|i: int| 0 <= i < state.input.len() && !is_white_space(#[trigger] state.input[i]),
{
    lemma_trim_empty(state.input);
}

/// However a reply is cut into pieces, the conversation and the number of its tokens come out the
/// same: two pieces one after the other do what the two together would.
pub proof fn pieces_add_up(
    state: AppState,
    request_id: RequestId,
    first: ReplyPiece,
    second: ReplyPiece,
    both: ReplyPiece,
    now: Moment,
    later: Moment,
)
    requires
        first is Text && second is Text && both is Text,
        both->text@ == first->text@ + second->text@,
        both->token_count == first->token_count + second->token_count,
        state.can_count(Event::Reply { request_id, piece: both }),
    ensures
        ({
            let apart = state.reply(request_id, first, now).reply(request_id, second, later);
            let together = state.reply(request_id, both, later);
            &&& apart.messages == together.messages
            &&& apart.context_tokens == together.context_tokens
        }),
{
    let halfway = state.reply(request_id, first, now);
    let apart = halfway.reply(request_id, second, later);
    let together = state.reply(request_id, both, later);
    if state.messages.len() > 0 && state.status is Streaming {
        let content = state.messages.last().content;
        assert(content + first->text@ + second->text@ =~= content + (first->text@ + second->text@));
        assert(apart.messages =~= together.messages);
    }
}

/// The event of a key that goes down.
pub open spec fn pressed(code: KeyCode, modifiers: u8) -> Event {
    Event::Terminal(TerminalEvent::Key(KeyEvent { code, modifiers, press: true }))
}

/// Typing adds to the end of the input box and takes the notice away, and does nothing else. A
/// character is typed as it is, with or without shift; Ctrl+J, Alt+Enter and Shift+Enter type a line
/// break; what is pasted is added whole, and the notice stays. Backspace takes away the last
/// character.
pub proof fn typing_changes_the_input_alone(
    state: AppState,
    highlighter: Highlighter,
    ch: char,
    modifiers: u8,
    text: String,
    now: Moment,
)
    ensures
        ({
            let with_input = |input: Seq<char>|
                (AppState { input, notice: None, ..state }, Reaction::Nothing);
            let does = |event: Event| state.react(highlighter, event, now);
            &&& does(pressed(KeyCode::Char(ch), NO_MODIFIERS)) == with_input(state.input.push(ch))
            &&& does(pressed(KeyCode::Char(ch), SHIFT)) == with_input(state.input.push(ch))
            &&& does(pressed(KeyCode::Char('j'), CONTROL)) == with_input(state.input.push('\n'))
            &&& does(pressed(KeyCode::Enter, ALT)) == with_input(state.input.push('\n'))
            &&& does(pressed(KeyCode::Enter, SHIFT)) == with_input(state.input.push('\n'))
            &&& does(pressed(KeyCode::Backspace, modifiers)) == with_input(
                if state.input.len() > 0 {
                    state.input.drop_last()
                } else {
                    state.input
                },
            )
            &&& does(Event::Terminal(TerminalEvent::Paste(text))) == (
                AppState { input: state.input + text@, ..state },
                Reaction::Nothing,
            )
        }),
{
}

/// Nothing happens when a key is held or let go, on a resize, or when the mouse does anything but
/// click with its left button or turn its wheel. A key that means nothing takes the notice away.
pub proof fn other_events_do_nothing(
    state: AppState,
    highlighter: Highlighter,
    key: KeyEvent,
    column: u16,
    row: u16,
    ch: char,
    modifiers: u8,
    now: Moment,
)
    ensures
        modifiers != NO_MODIFIERS && modifiers != SHIFT && modifiers != CONTROL ==> state.react(
            highlighter,
            pressed(KeyCode::Char(ch), modifiers),
            now,
        ) == (AppState { notice: None, ..state }, Reaction::Nothing),
        modifiers != ALT && modifiers != SHIFT && !state.sends(pressed(KeyCode::Enter, modifiers))
            ==> state.react(highlighter, pressed(KeyCode::Enter, modifiers), now) == (
            AppState { notice: None, ..state },
            Reaction::Nothing,
        ),
        !key.press ==> state.react(highlighter, Event::Terminal(TerminalEvent::Key(key)), now) == (
            state,
            Reaction::Nothing,
        ),
        state.react(highlighter, Event::Terminal(TerminalEvent::Other), now) == (
            state,
            Reaction::Nothing,
        ),
        state.react(
            highlighter,
            Event::Terminal(
                TerminalEvent::Mouse((MouseEvent { kind: MouseKind::Other, column, row })),
            ),
            now,
        ) == (state, Reaction::Nothing),
        state.react(highlighter, pressed(KeyCode::Other, modifiers), now) == (
            AppState { notice: None, ..state },
            Reaction::Nothing,
        ),
        ch != 'd' && ch != 'c' && ch != 'l' && ch != 'y' && ch != 'j' ==> state.react(
            highlighter,
            pressed(KeyCode::Char(ch), CONTROL),
            now,
        ) == (AppState { notice: None, ..state }, Reaction::Nothing),
{
}

/// Ctrl+D asks to quit, and changes nothing else but the notice.
pub proof fn control_d_quits(state: AppState, highlighter: Highlighter, now: Moment)
    ensures
        state.react(highlighter, pressed(KeyCode::Char('d'), CONTROL), now) == (
            AppState { should_quit: true, notice: None, ..state },
            Reaction::Nothing,
        ),
{
}

/// The first row on screen is the one that was scrolled to, but never below the last useful one;
/// where nothing was scrolled to, it is the last useful one, whatever that is.
pub proof fn the_view_is_where_it_was_scrolled_to(state: AppState, position: u16)
    ensures
        (AppState { scroll_position: None, ..state }).scroll_offset() == state.max_scroll,
        position <= state.max_scroll ==> (AppState {
            scroll_position: Some(position),
            ..state
        }).scroll_offset() == position,
        position > state.max_scroll ==> (AppState {
            scroll_position: Some(position),
            ..state
        }).scroll_offset() == state.max_scroll,
{
}

/// Keys and the wheel move the view by so many rows, up as far as the first row and down as far as
/// the last useful one, and change nothing else: the arrow keys by one row, the page keys by a page
/// less two rows, the wheel by three. At the bottom, and after the End key, the view follows new
/// output; above it, it stays.
pub proof fn scrolling_moves_the_view_alone(
    state: AppState,
    highlighter: Highlighter,
    column: u16,
    row: u16,
    modifiers: u8,
    now: Moment,
)
    ensures
        ({
            let offset = state.scroll_offset() as int;
            let page = if state.page_height > 3 {
                state.page_height - 2
            } else {
                1
            };
            let key = |code: KeyCode| state.react(highlighter, pressed(code, modifiers), now);
            let wheel = |kind: MouseKind|
                state.react(
                    highlighter,
                    Event::Terminal(TerminalEvent::Mouse((MouseEvent { kind, column, row }))),
                    now,
                );
            &&& scrolled(state, key(KeyCode::Up).0, offset - 1, true)
            &&& scrolled(state, key(KeyCode::Down).0, offset + 1, true)
            &&& scrolled(state, key(KeyCode::PageUp).0, offset - page, true)
            &&& scrolled(state, key(KeyCode::PageDown).0, offset + page, true)
            &&& scrolled(state, wheel(MouseKind::ScrollUp).0, offset - 3, false)
            &&& scrolled(state, wheel(MouseKind::ScrollDown).0, offset + 3, false)
            &&& key(KeyCode::End).0 == (AppState { scroll_position: None, notice: None, ..state })
            &&& offset + 1 >= state.max_scroll ==> key(KeyCode::Down).0.scroll_position is None
            &&& offset + 1 < state.max_scroll ==> key(KeyCode::Down).0.scroll_position is Some
            &&& key(KeyCode::Up).0.scroll_position is Some
            &&& key(KeyCode::Up).1 is Nothing && key(KeyCode::Down).1 is Nothing
            &&& key(KeyCode::PageUp).1 is Nothing && key(KeyCode::PageDown).1 is Nothing
            &&& wheel(MouseKind::ScrollUp).1 is Nothing && wheel(MouseKind::ScrollDown).1 is Nothing
        }),
{
}

/// Whether the view of `after` begins at `row`, or as near to it as it can, and nothing else is
/// different, but for the notice where a key took it away.
pub open spec fn scrolled(before: AppState, after: AppState, row: int, by_key: bool) -> bool {
    &&& after == (AppState {
        scroll_position: after.scroll_position,
        notice: if by_key {
            None
        } else {
            before.notice
        },
        ..before
    })
    &&& after.scroll_offset() == if row < 0 {
        0
    } else if row > before.max_scroll {
        before.max_scroll as int
    } else {
        row
    }
}

/// Ctrl+L starts over: of the messages the system prompt alone is left, nothing is counted, shown
/// or waited for any more, and a reply that was streaming in is cancelled. What is typed stays.
pub proof fn a_new_conversation_starts_over(
    state: AppState,
    highlighter: Highlighter,
    now: Moment,
)
    ensures
        ({
            let (after, reaction) = state.react(
                highlighter,
                pressed(KeyCode::Char('l'), CONTROL),
                now,
            );
            &&& after == (AppState {
                messages: state.messages.filter(|message: MessageView| message.role == Role::System),
                context_tokens: 0,
                status: StatusView::Idle,
                scroll_position: None,
                notice: None,
                ..state
            })
            &&& match state.status {
                StatusView::Streaming { stream, .. } => reaction == Reaction::Engine(
                    EngineCommand::Cancel(stream.request_id),
                ),
                _ => reaction is Nothing,
            }
        }),
{
    lemma_system_filter(state.messages);
}

proof fn lemma_system_filter(messages: Seq<MessageView>)
    ensures
        system_only(messages) == messages.filter(
            |message: MessageView| message.role == Role::System,
        ),
    decreases messages.len(),
{
    reveal(Seq::filter);
    if messages.len() > 0 {
        lemma_system_filter(messages.drop_last());
    } else {
        assert(messages =~= messages.filter(|message: MessageView| message.role == Role::System));
    }
}

/// Esc, and Ctrl+C while a reply streams in, stop the reply and cancel its request. The clock of
/// the reply stops at that moment, its text so far stays, and so does everything else; only a reply
/// without text goes, and its prompt with it, which is in the input box again. Ctrl+C without a
/// reply empties the input box, and Esc does nothing. None of them quits.
pub proof fn stopping_ends_the_reply_where_it_is(
    state: AppState,
    highlighter: Highlighter,
    modifiers: u8,
    now: Moment,
)
    requires
        state.consistent(),
    ensures
        ({
            let escaped = state.react(highlighter, pressed(KeyCode::Esc, modifiers), now);
            let interrupted = state.react(highlighter, pressed(KeyCode::Char('c'), CONTROL), now);
            match state.status {
                StatusView::Streaming { stream, timing } => {
                    let len = state.messages.len() as int;
                    let stopped = AppState {
                        status: StatusView::Finished(
                            (ReplyTiming { finished_at: Some(now), ..timing }),
                        ),
                        notice: None,
                        ..state
                    };
                    let restored = AppState {
                        messages: state.messages.take(len - 2),
                        input: state.messages[len - 2].content,
                        ..stopped
                    };
                    &&& escaped.0 == if state.messages.last().content.len() > 0 {
                        stopped
                    } else {
                        restored
                    }
                    &&& escaped.1 == Reaction::Engine(EngineCommand::Cancel(stream.request_id))
                    &&& interrupted == escaped
                },
                _ => {
                    &&& escaped == (AppState { notice: None, ..state }, Reaction::Nothing)
                    &&& interrupted == (
                        AppState { input: Seq::empty(), notice: None, ..state },
                        Reaction::Nothing,
                    )
                },
            }
        }),
{
    if state.status is Streaming {
        let len = state.messages.len() as int;
        assert(state.messages[len - 1].role == Role::Assistant) by {
            assert((len - 1 - state.first_turn()) % 2 == 1);
        }
        assert(state.messages[len - 2].role == Role::User);
        lemma_restore(state);
        assert(state.messages.drop_last().drop_last() =~= state.messages.take(len - 2));
    }
}

/// What arrives for the reply that streams in is added to the end of the last message, and its
/// tokens are counted, for the reply and for the conversation. The first tokens set the moment from
/// which the speed is measured. Nothing else changes.
pub proof fn a_piece_is_added_to_the_reply(
    state: AppState,
    highlighter: Highlighter,
    stream: ReplyStream,
    timing: ReplyTiming,
    text: String,
    token_count: u32,
    now: Moment,
)
    requires
        state.status == (StatusView::Streaming { stream, timing }),
        state.messages.len() > 0,
        timing.token_count + token_count <= u32::MAX,
        state.context_tokens + token_count <= usize::MAX,
    ensures
        ({
            let piece = ReplyPiece::Text { text, token_count };
            let (after, reaction) = state.react(
                highlighter,
                Event::Reply { request_id: stream.request_id, piece },
                now,
            );
            let last = state.messages.len() - 1;
            &&& reaction is Nothing
            &&& after.messages.len() == state.messages.len()
            &&& after.messages.take(last) == state.messages.take(last)
            &&& after.messages[last].role == state.messages[last].role
            &&& after.messages[last].content == state.messages[last].content + text@
            &&& after.status matches StatusView::Streaming { stream: same, timing: later }
            &&& same == stream
            &&& later.token_count == timing.token_count + token_count
            &&& later.sent_at == timing.sent_at && later.finished_at == timing.finished_at
            &&& later.first_token_at == if timing.first_token_at is None && token_count > 0 {
                Some(now)
            } else {
                timing.first_token_at
            }
            &&& after.context_tokens == state.context_tokens + token_count
            &&& after == (AppState {
                messages: after.messages,
                status: after.status,
                context_tokens: after.context_tokens,
                ..state
            })
        }),
{
    let last = state.messages.len() - 1;
    let longer = state.messages.drop_last().push(
        MessageView {
            content: state.messages.last().content + text@,
            ..state.messages.last()
        },
    );
    assert(longer.take(last) =~= state.messages.take(last));
}

/// A reply that has text stays as it is when it ends: what changes is the status, which gives its
/// speed, or what went wrong. A reply without text goes, and its prompt is in the input box again.
pub proof fn the_end_of_a_reply_is_noted(
    state: AppState,
    highlighter: Highlighter,
    stream: ReplyStream,
    timing: ReplyTiming,
    error: String,
    now: Moment,
)
    requires
        state.consistent(),
        state.status == (StatusView::Streaming { stream, timing }),
    ensures
        ({
            let ends = |piece: ReplyPiece|
                state.react(
                    highlighter,
                    Event::Reply { request_id: stream.request_id, piece },
                    now,
                ).0;
            let len = state.messages.len() as int;
            let with_status = |status: StatusView|
                if state.messages.last().content.len() > 0 {
                    AppState { status, ..state }
                } else {
                    AppState {
                        status,
                        messages: state.messages.take(len - 2),
                        input: state.messages[len - 2].content,
                        ..state
                    }
                };
            &&& ends(ReplyPiece::Finished) == with_status(
                StatusView::Finished((ReplyTiming { finished_at: Some(now), ..timing })),
            )
            &&& ends(ReplyPiece::Failed(error)) == with_status(StatusView::Failed(error@))
        }),
{
    let len = state.messages.len() as int;
    assert(state.messages[len - 1].role == Role::Assistant) by {
        assert((len - 1 - state.first_turn()) % 2 == 1);
    }
    assert(state.messages[len - 2].role == Role::User);
    assert(state.messages.drop_last().drop_last() =~= state.messages.take(len - 2));
}

/// Enter, without alt or shift, sends what is in the input box, unless a reply is streaming in or
/// there is nothing but white space. What is sent becomes a message of the user, word for word, at
/// the end of the conversation; once the reply is started an empty message of the assistant follows
/// it, the input box is empty, and the view follows the reply.
pub proof fn enter_sends_the_input(
    state: AppState,
    key: KeyEvent,
    stream: ReplyStream,
    now: Moment,
)
    ensures
        state.sends(Event::Terminal(TerminalEvent::Key(key))) <==> {
            &&& key.press
            &&& key.code is Enter
            &&& key.modifiers != ALT
            &&& key.modifiers != SHIFT
            &&& !(state.status is Streaming)
            &&& exists|i: int|
                0 <= i < state.input.len() && !is_white_space(#[trigger] state.input[i])
        },
        ({
            let asked = state.ask();
            let started = state.ask().stream(stream, now);
            let prompt = MessageView { role: Role::User, content: state.input };
            let reply = MessageView { role: Role::Assistant, content: Seq::empty() };
            &&& asked == (AppState {
                messages: state.messages.push(prompt),
                input: Seq::empty(),
                notice: None,
                ..state
            })
            &&& started == (AppState {
                messages: state.messages.push(prompt).push(reply),
                input: Seq::empty(),
                notice: None,
                context_tokens: stream.prompt_tokens,
                scroll_position: None,
                status: StatusView::Streaming {
                    stream,
                    timing: ReplyTiming {
                        sent_at: now,
                        first_token_at: None,
                        finished_at: None,
                        token_count: 0,
                    },
                },
                ..state
            })
        }),
        forall|text: String|
            !#[trigger] state.sends(Event::Terminal(TerminalEvent::Paste(text))),
{
    lemma_trim_empty(state.input);
}

/// A click on a cell copies the code that [`AppState::code_at`] finds there, and changes nothing. A
/// click outside the transcript finds none; inside, the cell counts from the transcript's corner,
/// and its row from the first row on screen.
pub proof fn a_click_looks_where_it_points(
    state: AppState,
    highlighter: Highlighter,
    column: u16,
    row: u16,
    now: Moment,
)
    ensures
        ({
            let (after, reaction) = state.react(
                highlighter,
                Event::Terminal(
                    TerminalEvent::Mouse((MouseEvent { kind: MouseKind::LeftDown, column, row })),
                ),
                now,
            );
            let area = state.transcript_area;
            let inside = area.x <= column && column < area.x + area.width && column < u16::MAX
                && area.y <= row && row < area.y + area.height && row < u16::MAX;
            let code = code_on_cell(
                state.messages,
                highlighter,
                area.width,
                row_counts(transcript(state.messages, highlighter).lines, area.width),
                state.scroll_offset() + row - area.y,
                column - area.x,
            );
            &&& after == state
            &&& match reaction {
                Reaction::Copy(copied) => inside && code == Some(copied),
                Reaction::Nothing => !inside || code is None,
                Reaction::Engine(_) => false,
            }
        }),
{
}

/// A chat starts with the system prompt, if one is given, and nothing else: nothing typed, nothing
/// under way, nothing scrolled.
pub proof fn a_chat_starts_with_the_system_prompt(prompt: Seq<char>)
    ensures
        AppState::start(None).messages.len() == 0,
        AppState::start(Some(prompt)).messages == seq![
            (MessageView { role: Role::System, content: prompt }),
        ],
        forall|given: Option<Seq<char>>|
            {
                let start = #[trigger] AppState::start(given);
                &&& start.input.len() == 0
                &&& start.status is Idle
                &&& start.scroll_position is None && start.max_scroll == 0
                &&& start.context_tokens == 0
                &&& start.notice is None
                &&& !start.should_quit
            },
{
}

/// The state of a chat is what its window holds.
pub proof fn the_state_is_what_the_window_holds(app: App, reaction: Reaction, action: Action)
    ensures
        app@.messages == conversation(app.messages@),
        app@.input == app.input@,
        app@.scroll_position == app.scroll_position,
        app@.max_scroll == app.max_scroll,
        app@.page_height == app.page_height,
        app@.context_tokens == app.context_tokens,
        app@.transcript_area == app.transcript_area,
        app@.should_quit == app.should_quit,
        match app.notice {
            Some(notice) => app@.notice == Some(notice@),
            None => app@.notice is None,
        },
        match app.status {
            Status::Idle => app@.status is Idle,
            Status::Streaming { stream, timing } => app@.status == (StatusView::Streaming {
                stream,
                timing,
            }),
            Status::Finished(timing) => app@.status == StatusView::Finished(timing),
            Status::Failed(error) => app@.status == StatusView::Failed(error@),
        },
        action.is_reaction(reaction) ==> match action {
            Action::Nothing => reaction is Nothing,
            Action::Engine(command) => reaction == Reaction::Engine(command),
            Action::Copy(text) => reaction == Reaction::Copy(text@),
            Action::Start(_) => false,
        },
{
}

/// The tokens of an event can be counted unless the count of the reply would not fit in 32 bits, or
/// that of the conversation not in a word of the machine.
pub proof fn tokens_are_counted_as_long_as_they_fit(
    state: AppState,
    stream: ReplyStream,
    timing: ReplyTiming,
    text: String,
    token_count: u32,
    event: Event,
)
    requires
        state.status == (StatusView::Streaming { stream, timing }),
    ensures
        state.can_count(
            Event::Reply {
                request_id: stream.request_id,
                piece: ReplyPiece::Text { text, token_count },
            },
        ) <==> timing.token_count + token_count <= u32::MAX && state.context_tokens + token_count
            <= usize::MAX,
        !(event is Reply) ==> state.can_count(event),
{
}

/// The first token ends the wait and starts the reply's clock, which runs until the reply is
/// finished and then stands still, however much later it is looked at. Before the first token there
/// is neither.
pub proof fn the_clock_runs_from_the_first_token_to_the_end(
    sent: Moment,
    first: Moment,
    end: Moment,
    later: Moment,
    count: u32,
)
    requires
        sent <= first <= end <= later,
        0 < count,
    ensures
        ({
            let waiting = ReplyTiming::start(sent);
            let running = waiting.with_tokens(count, first);
            let over = running.with_tokens(0, end).finish(end);
            &&& waiting.wait() is None && waiting.generating(later) is None
            &&& waiting.with_tokens(0, first).wait() is None
            &&& running.wait() == Some(first - sent)
            &&& running.generating(end) == Some(end - first)
            &&& over.wait() == Some(first - sent)
            &&& over.generating(later) == Some(end - first)
            &&& over.token_count == count
        }),
{
}

/// The user is told how many lines were copied, or why they were not.
pub proof fn copying_is_reported(line: Seq<char>, rest: Seq<char>, error: Seq<char>)
    requires
        !line.contains('\n'),
    ensures
        ({
            let code = line + seq!['\n'] + rest;
            &&& App::copy_notice(code, None) == "✓ copied "@ + decimal(1 + lines(rest).len())
                + " lines"@
            &&& App::copy_notice(Seq::empty(), None) == "✓ copied "@ + decimal(0) + " lines"@
            &&& error.is_suffix_of(App::copy_notice(code, Some(error)))
            &&& "cannot copy: "@.is_prefix_of(App::copy_notice(code, Some(error)))
        }),
{
    lines_end_at_line_feeds(line, rest);
    let text = "cannot copy: "@ + error;
    assert(error =~= text.subrange(text.len() - error.len(), text.len() as int));
    assert("cannot copy: "@ =~= text.subrange(0, "cannot copy: "@.len() as int));
}

} // verus!
