use base64::Engine as _;
use codebuddy::cli::{engine_dir, is_gguf, system_prompt};
use codebuddy::clipboard::{copy, CopyStep};
use codebuddy::engine::{error_message, failure, outcome, started, Task};
use codebuddy::event::{KeyCode, KeyEvent, CONTROL, NO_MODIFIERS};
use codebuddy::limits::FileEntry;
use codebuddy::llama::{
    first_room, progress, token_piece, token_room, tokenized, trained_context, PieceStep, Progress,
};
use codebuddy::picker::{
    choose_model, choose_with_key, discover, gguf_models, list_area, list_rooms, model_name, picker_lines,
    tensorrt_models, Choosing, EngineDir, GgufEntry, GgufFile, ModelChoice, Pick,
};
use codebuddy::style::{Color, Style};
use codebuddy::terminal::{Area, Room};

fn choice(name: &str, bytes: u64) -> ModelChoice {
    ModelChoice { name: name.to_owned(), engine: "llama.cpp", path: name.as_bytes().to_vec(), bytes }
}

fn names(choices: &[ModelChoice]) -> Vec<&str> {
    choices.iter().map(|choice| choice.name.as_str()).collect()
}

#[test]
fn the_rules_follow_the_system_prompt() {
    let prompt = system_prompt("Be brief.", Ok("\n- no unsafe\n\n".to_owned()), true, "r.md").unwrap();
    assert_eq!(
        prompt,
        "Be brief.\n\nThe user's coding rules. Follow them in every answer, for the whole conversation:\n\n- no \
         unsafe"
    );
}

#[test]
fn missing_rules_matter_only_when_named() {
    let missing = || Err("not found".to_owned());
    assert_eq!(system_prompt("Be brief.", missing(), false, "r.md").unwrap(), "Be brief.");
    assert_eq!(
        system_prompt("Be brief.", missing(), true, "r.md").unwrap_err(),
        "cannot read the rules file r.md: not found"
    );
}

#[test]
fn the_engine_is_next_to_the_model() {
    assert_eq!(engine_dir(None, &b"/m/qwen".to_vec()), b"/m/qwen-engine");
    assert_eq!(engine_dir(Some(b"/e".to_vec()), &b"/m/qwen".to_vec()), b"/e");
    assert!(is_gguf("qwen.gguf"));
    assert!(!is_gguf("qwen"));
}

#[test]
fn the_system_clipboard_comes_first() {
    assert!(matches!(copy("x", Some(true)), CopyStep::Done));
}

#[test]
fn without_a_system_clipboard_the_terminal_gets_the_text() {
    for system in [None, Some(false)] {
        let sent = |text: &str| match copy(text, system) {
            CopyStep::SendToTerminal(sequence) => sequence,
            CopyStep::Done => panic!("nothing took the text"),
        };
        assert_eq!(sent(""), "\u{1b}]52;c;\u{7}");
        assert_eq!(sent("f"), "\u{1b}]52;c;Zg==\u{7}");
        assert_eq!(sent("fo"), "\u{1b}]52;c;Zm8=\u{7}");
        assert_eq!(sent("foo"), "\u{1b}]52;c;Zm9v\u{7}");
        assert_eq!(sent("fn é() {}\n?>~"), "\u{1b}]52;c;Zm4gw6koKSB7fQo/Pn4=\u{7}");
    }
}

#[test]
fn what_was_copied_reads_back() {
    let text = "fn main() {\n    println!(\"世界 🦀\");\n}\n";
    let CopyStep::SendToTerminal(sequence) = copy(text, None) else { panic!("nothing took the text") };
    let payload = &sequence["\u{1b}]52;c;".len()..sequence.len() - 1];
    assert!(payload.chars().all(|ch| ch.is_ascii_graphic()));
    let bytes = base64::engine::general_purpose::STANDARD.decode(payload).unwrap();
    assert_eq!(bytes, text.as_bytes());
}

#[test]
fn errors_are_read_up_to_the_zero_byte() {
    assert_eq!(error_message(b"no engine\0rest"), "no engine");
    assert_eq!(error_message(b"\0"), "");
    assert_eq!(error_message(b"no zero"), "unknown error");
    assert_eq!(error_message(b""), "unknown error");
    assert_eq!(error_message(b"caf\xe9\0"), "caf\u{FFFD}");
    assert_eq!(error_message("世\0".as_bytes()), "世");
}

#[test]
fn failures_say_what_was_tried() {
    assert_eq!(failure(Task::LoadEngine, b"x\0"), "cannot load the engine: x");
    assert_eq!(failure(Task::LoadModel, b"x\0"), "cannot load the model: x");
    assert_eq!(failure(Task::Generate, b"x\0"), "generation failed: x");
    assert_eq!(outcome(Task::Generate, true, b"x\0"), Ok(()));
    assert_eq!(outcome(Task::LoadEngine, false, b"x\0"), Err("cannot load the engine: x".to_owned()));
    assert_eq!(started(3, b"x\0"), Ok(3));
    assert_eq!(started(0, b"x\0"), Err("cannot start generating: x".to_owned()));
}

#[test]
fn llama_reports_reading_and_tokens() {
    assert!(matches!(progress(-1, b"ab"), Progress::Reading));
    assert!(matches!(progress(7, b"ab"), Progress::Token(b"ab")));
    assert_eq!(trained_context(-1), 0);
    assert_eq!(trained_context(32768), 32768);
}

#[test]
fn llama_tokens_are_cut_to_their_number() {
    assert_eq!(token_room(5), 21);
    assert_eq!(tokenized(2, vec![4, 5, 6]).unwrap(), [4, 5]);
    assert_eq!(tokenized(9, vec![4, 5, 6]).unwrap(), [4, 5, 6]);
    assert_eq!(tokenized(1, vec![-1]).unwrap(), [u32::MAX]);
    assert_eq!(tokenized(-3, vec![4]).unwrap_err(), "cannot tokenize the conversation");
}

#[test]
fn a_piece_grows_until_it_fits() {
    assert_eq!(first_room(0), 64);
    assert_eq!(first_room(100), 100);
    assert!(matches!(token_piece(vec![0; 64], -70), PieceStep::Grow(70)));
    assert!(matches!(token_piece(vec![0; 64], i32::MIN), PieceStep::Grow(2_147_483_648)));
    match token_piece(vec![104, 105, 0, 0], 2) {
        PieceStep::Done(bytes) => assert_eq!(bytes, b"hi"),
        other => panic!("{other:?}"),
    }
}

#[test]
fn complete_engines_are_models() {
    let file = |name: &str, bytes| FileEntry { name: name.to_owned(), bytes };
    let dir = |name: Option<&str>, files, has_tokenizer| EngineDir {
        name: name.map(str::to_owned),
        files,
        model_path: b"/m/qwen".to_vec(),
        has_tokenizer,
    };
    assert_eq!(model_name("qwen-engine"), Some("qwen"));
    assert_eq!(model_name("qwen"), None);
    let choices = tensorrt_models(vec![
        dir(Some("qwen"), vec![file("rank0.engine", 1)], true),
        dir(Some("a-engine"), vec![], true),
        dir(Some("b-engine"), vec![file("rank0.engine", 1)], false),
        dir(None, vec![file("rank0.engine", 1)], true),
        dir(Some("qwen-engine"), vec![file("rank0.engine", 10), file("x", 5), file("rank1.engine", 20)], true),
    ]);
    assert_eq!(names(&choices), ["qwen"]);
    assert_eq!((choices[0].engine, choices[0].bytes), ("TensorRT-LLM", 30));
    assert_eq!(choices[0].path, b"/m/qwen");
}

#[test]
fn gguf_files_are_models() {
    let file = |name: Option<&str>, bytes| GgufFile { name: name.map(str::to_owned), path: vec![1], bytes };
    let choices = gguf_models(vec![
        GgufEntry::File(file(Some("a.gguf"), 7)),
        GgufEntry::File(file(Some("a.txt"), 7)),
        GgufEntry::File(file(None, 7)),
        GgufEntry::Directory(vec![file(Some("b.Q4.gguf"), 9), file(Some("mmproj-b.gguf"), 9)]),
        GgufEntry::File(file(Some("gguf"), 7)),
    ]);
    assert_eq!(names(&choices), ["a", "b.Q4"]);
    assert_eq!((choices[1].engine, choices[1].bytes), ("llama.cpp", 9));
}

#[test]
fn models_are_ordered_by_name() {
    let choices = discover(vec![choice("b", 1), choice("a", 2)], vec![choice("c", 3), choice("a", 4)]);
    assert_eq!(names(&choices), ["a", "a", "b", "c"]);
    assert_eq!((choices[0].bytes, choices[1].bytes), (2, 4));
    assert!(discover(vec![], vec![]).is_empty());
}

#[test]
fn one_model_needs_no_question() {
    assert_eq!(choose_model(&vec![]), Choosing::NoModels);
    assert_eq!(choose_model(&vec![choice("a", 1)]), Choosing::Only);
    assert_eq!(choose_model(&vec![choice("a", 1), choice("b", 1)]), Choosing::Ask);
}

#[test]
fn keys_move_the_selection() {
    let pick = |code, modifiers, selected| choose_with_key(KeyEvent { code, modifiers, press: true }, selected, 3);
    assert_eq!(pick(KeyCode::Up, NO_MODIFIERS, 0), Pick::Select(0));
    assert_eq!(pick(KeyCode::Up, NO_MODIFIERS, 2), Pick::Select(1));
    assert_eq!(pick(KeyCode::Down, NO_MODIFIERS, 1), Pick::Select(2));
    assert_eq!(pick(KeyCode::Down, NO_MODIFIERS, 2), Pick::Select(2));
    assert_eq!(pick(KeyCode::Enter, NO_MODIFIERS, 2), Pick::Choose);
    assert_eq!(pick(KeyCode::Esc, NO_MODIFIERS, 2), Pick::Quit);
    assert_eq!(pick(KeyCode::Char('c'), CONTROL, 2), Pick::Quit);
    assert_eq!(pick(KeyCode::Char('d'), CONTROL, 2), Pick::Quit);
    assert_eq!(pick(KeyCode::Char('d'), NO_MODIFIERS, 2), Pick::Select(2));
    let released = KeyEvent { code: KeyCode::Enter, modifiers: NO_MODIFIERS, press: false };
    assert_eq!(choose_with_key(released, 1, 3), Pick::Select(1));
}

#[test]
fn the_list_of_models_is_aligned() {
    let choices = vec![choice("a", 1), choice("longer", 1)];
    let sizes = vec!["  1.0 GB".to_owned(), " 12.3 GB".to_owned()];
    let lines = picker_lines(&choices, &sizes, 1);
    let texts: Vec<String> =
        lines.iter().map(|line| line.spans.iter().map(|span| span.content.as_ref()).collect()).collect();
    assert_eq!(
        texts,
        [
            "Choose a model",
            "",
            "  a        llama.cpp     1.0 GB",
            "❯ longer   llama.cpp    12.3 GB",
            "",
            "↑↓ select · enter load · esc quit",
        ]
    );
    assert_eq!(lines[0].style, Style::colored(Color::Rgb(137, 180, 250)).bold());
    assert_eq!(lines[2].spans[1].style, Style::plain());
    assert_eq!(lines[3].spans[1].style, Style::plain().bold());
    assert_eq!(list_rooms(&lines), (Room::Length(33), Room::Length(6)));
    let area = list_area(Area { x: 0, y: 0, width: 53, height: 16 }, &lines);
    assert_eq!(area, Area { x: 10, y: 5, width: 33, height: 6 });
}
