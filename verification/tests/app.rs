use codebuddy::app::{Action, App, ReplyTiming, Status};
use codebuddy::chat::{ChatModel, ChatTokenizer, EngineCommand, Message, Role, Settings};
use codebuddy::decode::TextDecoder;
use codebuddy::event::{
    Event, KeyCode, KeyEvent, MouseEvent, MouseKind, ReplyPiece, TerminalEvent, ALT, CONTROL, NO_MODIFIERS, SHIFT,
};
use codebuddy::highlight::Highlighter;
use codebuddy::limits::EngineLimits;
use codebuddy::stream::{Command, Phase, ReplyWorker, Report};
use codebuddy::style::{Color, Line, Style};
use codebuddy::terminal::{line_width, split, Area, Position, Room, Spare};
use codebuddy::transcript::{code_at_cell, line_on_row, on_button, transcript_lines, CopyButton, MARK};
use codebuddy::ui::{
    code_block_at, draw, draw_input, draw_right, draw_status, draw_status_bar, draw_transcript, input_panel,
    middle_row, record_rows, reply_speed, status_rooms, window_rooms, Speed, TranscriptPanel, KEY_HINTS,
};

/// The character that stands for a byte in a byte-level vocabulary.
fn byte_char(byte: u8) -> char {
    let plain = |byte: u8| matches!(byte, b'!'..=b'~' | 0xA1..=0xAC | 0xAE..=0xFF);
    if plain(byte) {
        return char::from(byte);
    }
    let earlier = (0..byte).filter(|&other| !plain(other)).count() as u32;
    char::from_u32(256 + earlier).unwrap()
}

/// A tokenizer with one token for each byte, and one that ends a message.
fn chat_tokenizer() -> ChatTokenizer {
    let mut vocabulary = serde_json::Map::new();
    for byte in 0..=255u8 {
        vocabulary.insert(byte_char(byte).to_string(), serde_json::Value::from(byte));
    }
    let vocabulary = serde_json::Value::Object(vocabulary).to_string();
    let byte_level = "{\"type\":\"ByteLevel\",\"add_prefix_space\":false,\"trim_offsets\":true,\"use_regex\":false}";
    let json = format!(
        "{{\"version\":\"1.0\",\"truncation\":null,\"padding\":null,\"added_tokens\":[{{\"id\":256,\
         \"content\":\"<|im_end|>\",\"single_word\":false,\"lstrip\":false,\"rstrip\":false,\
         \"normalized\":false,\"special\":true}}],\"normalizer\":null,\"pre_tokenizer\":{byte_level},\
         \"post_processor\":null,\"decoder\":{byte_level},\"model\":{{\"type\":\"BPE\",\"dropout\":null,\
         \"unk_token\":null,\"continuing_subword_prefix\":null,\"end_of_word_suffix\":null,\
         \"fuse_unk\":false,\"byte_fallback\":false,\"ignore_merges\":false,\"vocab\":{vocabulary},\
         \"merges\":[]}}}}"
    );
    match ChatTokenizer::load(&json) {
        Ok(tokenizer) => tokenizer,
        Err(error) => panic!("{}", error.message("tokenizer.json")),
    }
}

fn app_with_limit(max_input_len: usize) -> App {
    let limits = EngineLimits { max_input_len, max_seq_len: max_input_len + 50 };
    let settings = Settings { max_tokens: 100, kv_cache_tokens: 100_000 };
    let model = ChatModel::load(Some("test".to_owned()), chat_tokenizer(), limits, 100_000, settings);
    App::new(model, Highlighter::new(), Some("Be brief.".to_owned()))
}

fn app() -> App {
    app_with_limit(10_000)
}

fn key(code: KeyCode, modifiers: u8) -> Event {
    Event::Terminal(TerminalEvent::Key(KeyEvent { code, modifiers, press: true }))
}

fn press(app: &mut App, code: KeyCode, modifiers: u8) -> Action {
    app.handle_event(key(code, modifiers), 0)
}

fn type_text(app: &mut App, text: &str) {
    for ch in text.chars() {
        assert!(matches!(press(app, KeyCode::Char(ch), NO_MODIFIERS), Action::Nothing));
    }
}

fn text_piece(request_id: u64, text: &str, token_count: u32) -> Event {
    Event::Reply { request_id, piece: ReplyPiece::Text { text: text.to_owned(), token_count } }
}

/// Sends `text` and has the engine start the reply as request `request_id`.
fn send(app: &mut App, text: &str, request_id: u64) {
    type_text(app, text);
    match app.handle_event(key(KeyCode::Enter, NO_MODIFIERS), 100) {
        Action::Start(request) => app.reply_started(request.prompt_tokens.len(), Ok(request_id), 100),
        other => panic!("{other:?}"),
    }
}

/// A finished conversation in which the assistant wrote `reply`.
fn answered(reply: &str) -> App {
    let mut app = app();
    send(&mut app, "question", 1);
    app.handle_event(text_piece(1, reply, 3), 200);
    app.handle_event(Event::Reply { request_id: 1, piece: ReplyPiece::Finished }, 300);
    app
}

fn roles(app: &App) -> Vec<Role> {
    app.messages.iter().map(|message| message.role).collect()
}

fn line_text(line: &Line<'_>) -> String {
    line.spans.iter().map(|span| span.content.as_ref()).collect()
}

fn speed() -> Speed {
    Speed { tokens_per_second: "16.3".to_owned(), first_token: "0.4".to_owned() }
}

#[test]
fn a_message_is_sent_and_answered() {
    let mut app = app();
    assert!(!app.is_streaming());
    send(&mut app, "Hi", 7);
    assert!(app.is_streaming());
    assert_eq!(app.input, "");
    assert_eq!(roles(&app), [Role::System, Role::User, Role::Assistant]);
    let prompt_tokens = app.context_tokens;
    assert!(prompt_tokens > 0);

    app.handle_event(text_piece(7, "Hel", 2), 150);
    app.handle_event(text_piece(7, "lo!", 1), 160);
    assert_eq!(app.messages[2].content, "Hello!");
    assert_eq!(app.context_tokens, prompt_tokens + 3);

    app.handle_event(Event::Reply { request_id: 7, piece: ReplyPiece::Finished }, 200);
    match &app.status {
        Status::Finished(timing) => {
            assert_eq!(timing.token_count, 3);
            assert_eq!(timing.wait_for_first_token(), Some(50));
            assert_eq!(timing.generating_for(900), Some(50));
        }
        other => panic!("{other:?}"),
    }
}

#[test]
fn pieces_add_up_to_the_same_reply() {
    let mut apart = app();
    send(&mut apart, "Hi", 7);
    apart.handle_event(text_piece(7, "Hel", 2), 150);
    apart.handle_event(text_piece(7, "lo", 3), 160);
    let mut together = app();
    send(&mut together, "Hi", 7);
    together.handle_event(text_piece(7, "Hello", 5), 160);
    assert_eq!(apart.messages[2].content, together.messages[2].content);
    assert_eq!(apart.context_tokens, together.context_tokens);
}

#[test]
fn blank_input_is_not_sent() {
    let mut app = app();
    type_text(&mut app, "  ");
    assert!(matches!(press(&mut app, KeyCode::Enter, NO_MODIFIERS), Action::Nothing));
    assert_eq!(app.input, "  ");
    assert_eq!(roles(&app), [Role::System]);
}

#[test]
fn enter_waits_while_a_reply_streams_in() {
    let mut app = app();
    send(&mut app, "Hi", 1);
    type_text(&mut app, "more");
    assert!(matches!(press(&mut app, KeyCode::Enter, NO_MODIFIERS), Action::Nothing));
    assert_eq!(app.input, "more");
    assert!(app.is_streaming());
}

#[test]
fn stale_pieces_have_no_effect() {
    let mut app = app();
    send(&mut app, "Hi", 1);
    app.handle_event(text_piece(2, "stray", 1), 0);
    assert_eq!(app.messages[2].content, "");
    app.handle_event(text_piece(1, "part", 1), 0);
    press(&mut app, KeyCode::Esc, NO_MODIFIERS);
    app.handle_event(text_piece(1, "late", 1), 0);
    assert_eq!(app.messages[2].content, "part");
}

#[test]
fn stopping_keeps_the_text_so_far() {
    for stop in [(KeyCode::Esc, NO_MODIFIERS), (KeyCode::Char('c'), CONTROL)] {
        let mut app = app();
        send(&mut app, "Hi", 5);
        app.handle_event(text_piece(5, "part", 1), 0);
        match press(&mut app, stop.0, stop.1) {
            Action::Engine(command) => assert_eq!(command, EngineCommand::Cancel(5)),
            other => panic!("{other:?}"),
        }
        assert!(matches!(app.status, Status::Finished(_)));
        assert_eq!(app.messages[2].content, "part");
        assert!(!app.should_quit);
    }
}

#[test]
fn an_empty_reply_gives_the_prompt_back() {
    let mut app = app();
    send(&mut app, "Hi", 5);
    press(&mut app, KeyCode::Esc, NO_MODIFIERS);
    assert_eq!(app.input, "Hi");
    assert_eq!(roles(&app), [Role::System]);

    press(&mut app, KeyCode::Enter, NO_MODIFIERS);
    assert_eq!(roles(&app), [Role::System, Role::User]);
}

#[test]
fn a_failed_reply_gives_the_prompt_back() {
    let mut app = app();
    send(&mut app, "Hi", 5);
    app.handle_event(Event::Reply { request_id: 5, piece: ReplyPiece::Failed("out of memory".to_owned()) }, 0);
    assert!(matches!(&app.status, Status::Failed(error) if error == "out of memory"));
    assert_eq!(app.input, "Hi");
    assert_eq!(roles(&app), [Role::System]);
}

#[test]
fn an_engine_that_does_not_start_gives_the_prompt_back() {
    let mut app = app();
    type_text(&mut app, "Hi");
    match press(&mut app, KeyCode::Enter, NO_MODIFIERS) {
        Action::Start(request) => {
            assert_eq!(request.end_token, 256);
            assert_eq!(request.max_new_tokens, 100);
            app.reply_started(request.prompt_tokens.len(), Err("no".to_owned()), 0);
        }
        other => panic!("{other:?}"),
    }
    assert!(matches!(&app.status, Status::Failed(error) if error == "no"));
    assert_eq!(app.input, "Hi");
    assert_eq!(roles(&app), [Role::System]);
}

#[test]
fn a_conversation_over_the_limit_is_not_sent() {
    let mut app = app_with_limit(10);
    type_text(&mut app, "Hi");
    assert!(matches!(press(&mut app, KeyCode::Enter, NO_MODIFIERS), Action::Nothing));
    match &app.status {
        Status::Failed(error) => assert!(error.contains("over this engine's 10 limit")),
        other => panic!("{other:?}"),
    }
    assert_eq!(app.input, "Hi");
    assert_eq!(roles(&app), [Role::System]);
}

#[test]
fn control_c_clears_the_input_when_idle_and_never_quits() {
    let mut app = app();
    type_text(&mut app, "Hi");
    press(&mut app, KeyCode::Char('c'), CONTROL);
    assert_eq!(app.input, "");
    assert!(!app.should_quit);
    press(&mut app, KeyCode::Char('d'), CONTROL);
    assert!(app.should_quit);
}

#[test]
fn keys_edit_the_input() {
    let mut app = app();
    type_text(&mut app, "ab");
    press(&mut app, KeyCode::Char('C'), SHIFT);
    press(&mut app, KeyCode::Enter, ALT);
    press(&mut app, KeyCode::Enter, SHIFT);
    press(&mut app, KeyCode::Char('j'), CONTROL);
    press(&mut app, KeyCode::Char('x'), ALT);
    press(&mut app, KeyCode::Char('x'), CONTROL);
    press(&mut app, KeyCode::Other, NO_MODIFIERS);
    assert_eq!(app.input, "abC\n\n\n");
    press(&mut app, KeyCode::Backspace, NO_MODIFIERS);
    assert_eq!(app.input, "abC\n\n");
    app.handle_event(Event::Terminal(TerminalEvent::Paste("é\n".to_owned())), 0);
    assert_eq!(app.input, "abC\n\né\n");
    app.handle_event(Event::Terminal(TerminalEvent::Other), 0);
    let released = KeyEvent { code: KeyCode::Char('z'), modifiers: NO_MODIFIERS, press: false };
    app.handle_event(Event::Terminal(TerminalEvent::Key(released)), 0);
    assert_eq!(app.input, "abC\n\né\n");
}

#[test]
fn backspace_leaves_an_empty_input_alone() {
    let mut app = app();
    press(&mut app, KeyCode::Backspace, NO_MODIFIERS);
    assert_eq!(app.input, "");
}

#[test]
fn a_new_conversation_keeps_only_the_system_prompt() {
    let mut app = answered("Hello");
    send(&mut app, "again", 2);
    match press(&mut app, KeyCode::Char('l'), CONTROL) {
        Action::Engine(command) => assert_eq!(command, EngineCommand::Cancel(2)),
        other => panic!("{other:?}"),
    }
    assert_eq!(roles(&app), [Role::System]);
    assert_eq!(app.messages[0].content, "Be brief.");
    assert_eq!(app.context_tokens, 0);
    assert!(matches!(app.status, Status::Idle));
    assert!(matches!(press(&mut app, KeyCode::Char('l'), CONTROL), Action::Nothing));
}

#[test]
fn scrolling_stops_at_both_ends_and_follows_the_bottom() {
    let mut app = answered("Hello");
    app.max_scroll = 10;
    app.page_height = 6;
    assert_eq!(app.scroll_offset(), 10);
    press(&mut app, KeyCode::Up, NO_MODIFIERS);
    assert_eq!(app.scroll_position, Some(9));
    press(&mut app, KeyCode::PageUp, NO_MODIFIERS);
    assert_eq!(app.scroll_position, Some(5));
    let wheel = |kind| Event::Terminal(TerminalEvent::Mouse(MouseEvent { kind, column: 0, row: 0 }));
    app.handle_event(wheel(MouseKind::ScrollUp), 0);
    app.handle_event(wheel(MouseKind::ScrollUp), 0);
    assert_eq!(app.scroll_position, Some(0));
    app.handle_event(wheel(MouseKind::ScrollDown), 0);
    assert_eq!(app.scroll_position, Some(3));
    press(&mut app, KeyCode::PageDown, NO_MODIFIERS);
    press(&mut app, KeyCode::Down, NO_MODIFIERS);
    assert_eq!(app.scroll_position, Some(8));
    press(&mut app, KeyCode::PageDown, NO_MODIFIERS);
    assert_eq!(app.scroll_position, None);
    press(&mut app, KeyCode::Up, NO_MODIFIERS);
    press(&mut app, KeyCode::End, NO_MODIFIERS);
    assert_eq!(app.scroll_position, None);
    app.scroll_position = Some(99);
    assert_eq!(app.scroll_offset(), 10);
    app.handle_event(wheel(MouseKind::Other), 0);
    assert_eq!(app.scroll_position, Some(99));
}

#[test]
fn the_latest_code_block_is_copied() {
    let mut app = answered("```\none\n```\n\n```\ntwo\nlines\n```\n");
    send(&mut app, "again", 2);
    app.handle_event(text_piece(2, "no code", 1), 0);
    let code = match press(&mut app, KeyCode::Char('y'), CONTROL) {
        Action::Copy(code) => code,
        other => panic!("{other:?}"),
    };
    assert_eq!(code, "two\nlines\n");
    app.copied(&code, Ok(()));
    assert_eq!(app.notice.as_deref(), Some("✓ copied 2 lines"));
    press(&mut app, KeyCode::Other, NO_MODIFIERS);
    assert_eq!(app.notice, None);
    app.copied(&code, Err("no clipboard".to_owned()));
    assert_eq!(app.notice.as_deref(), Some("cannot copy: no clipboard"));
}

#[test]
fn without_code_there_is_nothing_to_copy() {
    let mut app = answered("no code");
    assert!(matches!(press(&mut app, KeyCode::Char('y'), CONTROL), Action::Nothing));
    assert_eq!(app.notice.as_deref(), Some("no code to copy yet"));
}

#[test]
fn tokens_are_counted_as_long_as_they_fit() {
    let mut app = app();
    send(&mut app, "Hi", 1);
    assert!(app.can_take(&text_piece(1, "x", u32::MAX)));
    app.handle_event(text_piece(1, "x", u32::MAX), 0);
    assert!(!app.can_take(&text_piece(1, "x", 1)));
    assert!(app.can_take(&text_piece(2, "x", 1)));
}

#[test]
fn timing_starts_with_the_first_token() {
    let mut timing = ReplyTiming::start(10);
    assert_eq!(timing.wait_for_first_token(), None);
    assert_eq!(timing.generating_for(99), None);
    timing.add_tokens(0, 20);
    assert_eq!(timing.wait_for_first_token(), None);
    timing.add_tokens(2, 30);
    timing.add_tokens(3, 40);
    assert_eq!(timing.token_count, 5);
    assert_eq!(timing.wait_for_first_token(), Some(20));
    assert_eq!(timing.generating_for(50), Some(20));
    assert_eq!(timing.finish(70).generating_for(99), Some(40));
}

#[test]
fn an_app_without_a_system_prompt_starts_empty() {
    let full = app();
    let empty = App::new(full.model, full.highlighter, None);
    assert!(empty.messages.is_empty());
}

#[test]
fn the_transcript_shows_the_conversation() {
    let app = answered("Look:\n\n```rust\nfn f() {}\n```\n");
    let (lines, buttons) = transcript_lines(&app.messages, &app.highlighter);
    let texts: Vec<String> = lines.iter().map(line_text).collect();
    assert_eq!(
        texts,
        ["❯ you", "question", "", "◆ assistant", "Look:", "", "▏ rust   copy ", "▏ fn f() {}", ""]
    );
    assert_eq!(buttons, [CopyButton { line: 6, message: 2, block: 0 }]);
    assert_eq!(lines[0].style, Style::colored(Color::Rgb(166, 227, 161)).bold());
    assert_eq!(lines[3].style, Style::colored(Color::Rgb(137, 180, 250)).bold());
}

#[test]
fn every_code_block_has_its_button() {
    let mut app = answered("```\na\n```\n\n```\nb\n```\n");
    app.messages.push(Message { role: Role::User, content: "```\nnot mine\n```".to_owned() });
    app.messages.push(Message { role: Role::Assistant, content: "    c".to_owned() });
    let (_, buttons) = transcript_lines(&app.messages, &app.highlighter);
    let places: Vec<(usize, usize)> = buttons.iter().map(|button| (button.message, button.block)).collect();
    assert_eq!(places, [(2, 0), (2, 1), (4, 0)]);
    assert!(buttons.windows(2).all(|pair| pair[0].line < pair[1].line));
}

#[test]
fn a_row_falls_on_a_line() {
    let counts = vec![1, 0, 3, 1];
    assert_eq!(line_on_row(&counts, 0), Some((0, 0)));
    assert_eq!(line_on_row(&counts, 1), Some((2, 0)));
    assert_eq!(line_on_row(&counts, 3), Some((2, 2)));
    assert_eq!(line_on_row(&counts, 4), Some((3, 0)));
    assert_eq!(line_on_row(&counts, 5), None);
}

#[test]
fn a_column_is_on_a_button() {
    let cells = vec![0, MARK, MARK, 4];
    let hits: Vec<u16> = (0..6).filter(|column| on_button(&cells, *column)).collect();
    assert_eq!(hits, [1, 2]);
}

#[test]
fn wrapped_lines_are_counted() {
    let app = answered("one two three four five six seven eight nine ten\n\n```\ncode\n```\n");
    let code_at = |width, row| code_at_cell(&app.messages, &app.highlighter, width, row, 4);
    // "❯ you", "question", "", "◆ assistant", the text, "", the header, the code, "".
    assert_eq!(code_at(80, 6).as_deref(), Some("code\n"));
    assert_eq!(code_at(80, 7), None);
    // In 24 columns the text takes two rows, so the header is a row further down.
    assert_eq!(code_at(24, 6), None);
    assert_eq!(code_at(24, 7).as_deref(), Some("code\n"));
}

#[test]
fn only_the_copy_button_copies() {
    let app = answered("```rust\ncode\n```\n");
    // "❯ you", "question", "", "◆ assistant", the header: "▏ rust   copy ".
    let code_at = |width, row, column| code_at_cell(&app.messages, &app.highlighter, width, row, column);
    let hits: Vec<u16> = (0..20).filter(|column| code_at(80, 4, *column).is_some()).collect();
    assert_eq!(hits, [8, 9, 10, 11, 12, 13]);
    assert_eq!(code_at(80, 4, 8).as_deref(), Some("code\n"));
    assert_eq!(code_at(80, 4, 3), None, "the language");
    assert_eq!(code_at(80, 4, 0), None, "the gutter");
}

#[test]
fn the_button_is_where_it_is_drawn() {
    // The tab in the language is not drawn: the header is "▏ rustx   copy ".
    let app = answered("```rust\tx\ncode\n```\n");
    let code_at = |column| code_at_cell(&app.messages, &app.highlighter, 80, 4, column);
    let hits: Vec<u16> = (0..20).filter(|column| code_at(*column).is_some()).collect();
    assert_eq!(hits, [9, 10, 11, 12, 13, 14]);
}

#[test]
fn a_wrapped_header_has_its_button_on_its_last_row() {
    let app = answered("```rust\ncode\n```\n");
    // In 12 columns the header is "▏ rust" and "copy ".
    let hits = |row| -> Vec<u16> {
        (0..12).filter(|column| code_at_cell(&app.messages, &app.highlighter, 12, row, *column).is_some()).collect()
    };
    assert_eq!(hits(4), Vec::<u16>::new());
    assert_eq!(hits(5), [0, 1, 2, 3, 4]);
    assert_eq!(hits(6), Vec::<u16>::new());
}

#[test]
fn clicking_a_copy_button_copies_its_block() {
    let mut app = answered("```\na\n```\n\n```\nb\n```\n");
    app.transcript_area = Area { x: 1, y: 2, width: 40, height: 20 };
    // "❯ you", "question", "", "◆ assistant", header, code, "", header, code, "".
    let at = |x, y| Position { x, y };
    assert_eq!(code_block_at(&app, at(5, 2 + 4)).as_deref(), Some("a\n"));
    assert_eq!(code_block_at(&app, at(5, 2 + 7)).as_deref(), Some("b\n"));
    assert_eq!(code_block_at(&app, at(5, 2 + 5)), None);
    assert_eq!(code_block_at(&app, at(0, 2 + 4)), None);
    assert_eq!(code_block_at(&app, at(2, 2 + 4)), None, "left of the button");
    assert_eq!(code_block_at(&app, at(9, 2 + 4)), None, "right of the button");
    assert_eq!(code_block_at(&app, at(5, 1)), None);
    app.max_scroll = 3;
    assert_eq!(code_block_at(&app, at(5, 2 + 4)).as_deref(), Some("b\n"));

    let click = MouseEvent { kind: MouseKind::LeftDown, column: 5, row: 6 };
    match app.handle_event(Event::Terminal(TerminalEvent::Mouse(click)), 0) {
        Action::Copy(code) => assert_eq!(code, "b\n"),
        other => panic!("{other:?}"),
    }
    let miss = MouseEvent { kind: MouseKind::LeftDown, column: 5, row: 7 };
    assert!(matches!(app.handle_event(Event::Terminal(TerminalEvent::Mouse(miss)), 0), Action::Nothing));
}

#[test]
fn the_window_is_divided() {
    let mut app = answered("Hello");
    let area = Area { x: 0, y: 0, width: 40, height: 20 };
    let panels = draw(area, &mut app);
    assert_eq!(panels.transcript, Area { x: 1, y: 0, width: 38, height: 16 });
    assert_eq!(panels.input, Area { x: 0, y: 16, width: 40, height: 3 });
    assert_eq!(panels.status, Area { x: 0, y: 19, width: 40, height: 1 });
    assert_eq!((app.max_scroll, app.page_height), (0, 16));
    assert_eq!(app.transcript_area, panels.transcript);

    let panels = draw(Area { height: 7, ..area }, &mut app);
    assert_eq!(panels.transcript.height, 3);
    // Six rows: two headers, two texts and two blank lines.
    assert_eq!((app.max_scroll, app.page_height), (3, 3));
}

#[test]
fn a_greeting_records_nothing() {
    let mut app = app();
    draw(Area { x: 0, y: 0, width: 40, height: 20 }, &mut app);
    assert_eq!(app.transcript_area, Area { x: 0, y: 0, width: 0, height: 0 });
    match draw_transcript(&app) {
        TranscriptPanel::Greeting(line) => {
            assert_eq!(line_text(&line), "chatting with test: say something");
            assert_eq!(line.style, Style::colored(Color::Rgb(108, 112, 134)));
        }
        TranscriptPanel::Conversation { .. } => panic!("there is no conversation"),
    }
    assert_eq!(middle_row(Area { x: 3, y: 0, width: 9, height: 11 }), Area { x: 3, y: 5, width: 9, height: 1 });
}

#[test]
fn the_conversation_is_drawn_scrolled() {
    let mut app = answered("Hello");
    record_rows(&mut app, Area { x: 0, y: 0, width: 10, height: 4 }, 9);
    assert_eq!(app.max_scroll, 5);
    press(&mut app, KeyCode::Up, NO_MODIFIERS);
    match draw_transcript(&app) {
        TranscriptPanel::Conversation { lines, scroll } => {
            assert_eq!(lines.len(), 6);
            assert_eq!(scroll, 4);
        }
        TranscriptPanel::Greeting(_) => panic!("there is a conversation"),
    }
}

#[test]
fn the_input_box_grows_up_to_a_limit() {
    let rooms = |input: &str| window_rooms(input)[1];
    assert_eq!(rooms(""), Room::Length(3));
    assert_eq!(rooms("a\nb"), Room::Length(4));
    assert_eq!(rooms(&"\n".repeat(7)), Room::Length(10));
    assert_eq!(rooms(&"\n".repeat(30)), Room::Length(10));
    assert_eq!(window_rooms("")[0], Room::Min(1));
    assert_eq!(window_rooms("")[2], Room::Length(1));
}

#[test]
fn the_cursor_is_after_the_text() {
    let mut app = app();
    app.input = "first\nsecond 世".to_owned();
    let area = Area { x: 0, y: 10, width: 40, height: 4 };
    let panel = draw_input(&app, area).unwrap();
    assert_eq!(panel.cursor, Some(Position { x: 1 + 9, y: 12 }));
    assert_eq!((panel.scroll_x, panel.scroll_y), (0, 0));
    assert_eq!(panel.border, Color::Rgb(137, 180, 250));
    assert_eq!(panel.text, "first\nsecond 世");

    let narrow = Area { x: 0, y: 10, width: 7, height: 3 };
    let panel = draw_input(&app, narrow).unwrap();
    assert_eq!((panel.scroll_x, panel.scroll_y), (5, 1));
    assert_eq!(panel.cursor, Some(Position { x: 5, y: 11 }));

    let inner = Area { x: 1, y: 11, width: 5, height: 1 };
    assert_eq!(input_panel(&app, inner, 9).cursor, panel.cursor);
}

#[test]
fn a_box_without_room_has_no_place_for_the_cursor() {
    let app = app();
    assert!(draw_input(&app, Area { x: 0, y: 0, width: 0, height: 0 }).is_none());
}

#[test]
fn the_cursor_is_hidden_while_a_reply_streams_in() {
    let mut app = app();
    send(&mut app, "Hi", 1);
    let panel = draw_input(&app, Area { x: 0, y: 0, width: 20, height: 3 }).unwrap();
    assert_eq!(panel.cursor, None);
    assert_eq!(panel.border, Color::Rgb(108, 112, 134));
}

#[test]
fn the_speed_is_spelled_out() {
    let mut timing = ReplyTiming::start(0);
    timing.add_tokens(212, 400);
    assert_eq!(reply_speed(&timing, &speed()), "212 tok · 16.3 tok/s · first token 0.4s");
    assert_eq!(reply_speed(&ReplyTiming::start(0), &speed()), "0 tok · 16.3 tok/s");
}

#[test]
fn the_status_bar_tells_the_progress() {
    let mut app = app();
    let status = |app: &App| line_text(&draw_status(app, &speed()));
    assert_eq!(status(&app), " ▲ NVIDIA   TensorRT-LLM  test ctx 0/10000 · ");
    send(&mut app, "Hi", 1);
    let context = app.context_tokens;
    assert!(status(&app).ends_with(&format!("ctx {context}/10000 · reading the prompt…")));
    app.handle_event(text_piece(1, "x", 2), 0);
    assert!(status(&app).ends_with("generating · 2 tok · 16.3 tok/s · first token 0.4s"));
    app.handle_event(Event::Reply { request_id: 1, piece: ReplyPiece::Finished }, 0);
    assert!(status(&app).ends_with(" · 2 tok · 16.3 tok/s · first token 0.4s"));
    app.status = Status::Failed("broken".to_owned());
    let line = draw_status(&app, &speed());
    let last = line.spans.last().unwrap();
    assert_eq!(last.content, "broken");
    assert_eq!(last.style, Style::colored(Color::Rgb(243, 139, 168)));
}

#[test]
fn a_notice_takes_the_place_of_the_key_hints() {
    let mut app = app();
    assert_eq!(line_text(&draw_right(&app)), KEY_HINTS);
    app.notice = Some("copied".to_owned());
    assert_eq!(line_text(&draw_right(&app)), " copied ");
    let status = draw_status(&app, &speed());
    let rooms = status_rooms(&status, &draw_right(&app), true);
    assert_eq!(rooms, [Room::Max(line_width(&status) as u16), Room::Length(8)]);
    assert_eq!(status_rooms(&status, &draw_right(&app), false)[1], Room::Fill(1));

    let area = Area { x: 0, y: 5, width: 100, height: 1 };
    let panel = draw_status_bar(&app, area, &speed());
    assert_eq!(panel.right_area, Area { x: 92, y: 5, width: 8, height: 1 });
    assert_eq!(panel.status_area.x, 0);
    assert_eq!(line_text(&panel.right), " copied ");
}

#[test]
fn areas_are_split_and_bordered() {
    let area = Area { x: 2, y: 3, width: 10, height: 5 };
    let parts = split(area, false, &[Room::Length(3), Room::Fill(1)], Spare::AtEnd);
    assert_eq!(parts, [Area { width: 3, ..area }, Area { x: 5, width: 7, ..area }]);
    assert_eq!(area.inside_border(), Area { x: 3, y: 4, width: 8, height: 3 });
    assert_eq!(area.without_sides(), Area { x: 3, y: 3, width: 8, height: 5 });
    assert_eq!(Area { width: 1, ..area }.without_sides(), Area { x: 0, y: 0, width: 0, height: 0 });
    assert_eq!(Area { width: 0, height: 0, ..area }.inside_border(), Area { x: 2, y: 3, width: 0, height: 0 });
    assert!(area.contains(Position { x: 11, y: 7 }));
    assert!(!area.contains(Position { x: 12, y: 7 }));
    assert!(!area.contains(Position { x: 11, y: 8 }));
}

#[test]
fn a_reply_is_streamed_piece_by_piece() {
    let tokenizer = chat_tokenizer().tokenizer;
    let mut worker = ReplyWorker::new();
    let bytes = "é!".bytes().map(u32::from).collect::<Vec<_>>();

    let report = Report::Tokens { tokens: bytes[..1].to_vec(), finished: false };
    match worker.step(&tokenizer, report) {
        Command::Send(ReplyPiece::Text { text, token_count }) => assert_eq!((text.as_str(), token_count), ("", 1)),
        other => panic!("{other:?}"),
    }
    assert!(matches!(worker.step(&tokenizer, Report::Sent), Command::Wait));
    let report = Report::Tokens { tokens: bytes[1..].to_vec(), finished: true };
    match worker.step(&tokenizer, report) {
        Command::Send(ReplyPiece::Text { text, token_count }) => assert_eq!((text.as_str(), token_count), ("é!", 2)),
        other => panic!("{other:?}"),
    }
    assert!(matches!(worker.step(&tokenizer, Report::Sent), Command::Send(ReplyPiece::Finished)));
    assert!(matches!(worker.step(&tokenizer, Report::Sent), Command::Stop));
    assert_eq!(worker.phase, Phase::Done);
}

#[test]
fn a_failing_engine_ends_the_stream() {
    let tokenizer = chat_tokenizer().tokenizer;
    let mut worker = ReplyWorker::new();
    match worker.step(&tokenizer, Report::EngineFailed("why".to_owned())) {
        Command::Send(ReplyPiece::Failed(reason)) => assert_eq!(reason, "why"),
        other => panic!("{other:?}"),
    }
    assert!(matches!(worker.step(&tokenizer, Report::ChatGone), Command::Stop));
}

#[test]
fn a_chat_that_is_gone_cancels_the_request() {
    let tokenizer = chat_tokenizer().tokenizer;
    let mut worker = ReplyWorker::new();
    worker.step(&tokenizer, Report::Tokens { tokens: vec![65], finished: false });
    assert!(matches!(worker.step(&tokenizer, Report::ChatGone), Command::Cancel));
    assert!(matches!(worker.step(&tokenizer, Report::Sent), Command::Stop));
}

#[test]
fn batches_do_not_matter() {
    let tokenizer = chat_tokenizer().tokenizer;
    let tokens: Vec<u32> = "a世b".bytes().map(u32::from).collect();
    let whole = TextDecoder::new().push_all(&tokenizer, &tokens).unwrap();
    let mut decoder = TextDecoder::new();
    let mut parts = decoder.push_all(&tokenizer, &tokens[..2].to_vec()).unwrap();
    parts.push_str(&decoder.push_all(&tokenizer, &tokens[2..].to_vec()).unwrap());
    assert_eq!(parts, whole);
}
