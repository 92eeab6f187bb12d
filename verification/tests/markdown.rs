use std::borrow::Cow;

use codebuddy::highlight::{
    spans_of, style_of, Highlighter, Region, FONT_BOLD, FONT_ITALIC, FONT_UNDERLINE, MAX_HIGHLIGHTED,
};
use codebuddy::markdown::{code_blocks, code_in, heading_marker, list_indent, render, render_events, COPY_BUTTON};
use codebuddy::parser::{parse, Closing, Extensions, Markup, Opening};
use codebuddy::style::{Color, Line, Style};

fn line_text(line: &Line<'_>) -> String {
    line.spans.iter().map(|span| span.content.as_ref()).collect()
}

/// The text of each line, without styles.
fn plain_text(lines: &[Line<'_>]) -> Vec<String> {
    lines.iter().map(line_text).collect()
}

fn rendered_text(source: &str) -> Vec<String> {
    plain_text(&render(source, &Highlighter::new()).lines)
}

#[test]
fn renders_common_blocks() {
    let source = "# Title\n\nSome **bold** and `code`.\n\n- one\n- two\n\n1. first\n2. second\n\n> quoted\n";
    let lines = render(source, &Highlighter::new()).lines;
    let expected =
        ["# Title", "", "Some bold and code.", "", "• one", "• two", "", "1. first", "2. second", "", "│ quoted"];
    assert_eq!(plain_text(&lines), expected);
}

#[test]
fn highlights_code_and_borrows_from_the_source() {
    let source = "```rust\nfn main() {}\n\n```\n";
    let rendered = render(source, &Highlighter::new());
    let lines = rendered.lines;
    assert_eq!(plain_text(&lines), ["▏ rust   copy ", "▏ fn main() {}", "▏ "]);
    assert_eq!(rendered.code_headers, [0]);

    let code_spans = &lines[1].spans[1..]; // skip the gutter
    assert!(code_spans.len() > 1, "expected several highlighted tokens");
    assert!(code_spans.iter().all(|span| matches!(span.content, Cow::Borrowed(_))));
    assert!(code_spans.iter().any(|span| span.style.fg.is_some()));
}

#[test]
fn code_blocks_hold_the_code_without_markup() {
    let source =
        "Try:\n\n```rust\nfn main() {\n    run();\n}\n```\n\nthen\n\n```\nls -la\n```\n\n```sh\necho still stre";
    let rendered = render(source, &Highlighter::new());
    let blocks = code_blocks(source);
    assert_eq!(blocks, ["fn main() {\n    run();\n}\n", "ls -la\n", "echo still stre"]);
    assert_eq!(rendered.code_headers.len(), blocks.len());
    for header in rendered.code_headers {
        assert!(line_text(&rendered.lines[header]).contains(COPY_BUTTON));
    }
}

#[test]
fn unclosed_fence_mid_stream_still_renders() {
    let lines = render("text\n\n```py\ndef f(", &Highlighter::new()).lines;
    assert_eq!(plain_text(&lines).last().map(String::as_str), Some("▏ def f("));
}

#[test]
fn nothing_renders_to_nothing() {
    assert!(rendered_text("").is_empty());
    assert!(rendered_text("\n\n").is_empty());
}

#[test]
fn headings_show_their_level() {
    assert_eq!(rendered_text("###### deep\n\ntext"), ["###### deep", "", "text"]);
    let highlighter = Highlighter::new();
    let lines = render("# a\n\n## b\n\n### c", &highlighter).lines;
    let style = |line: usize| lines[line].spans[1].style;
    assert_eq!(style(0), Style::colored(Color::Rgb(203, 166, 247)).bold());
    assert_eq!(style(2), Style::colored(Color::Rgb(137, 180, 250)).bold());
    assert_eq!(style(4), Style::plain().bold());
}

#[test]
fn lists_nest_and_count() {
    let source = "9. nine\n10. ten\n    - inner\n\nafter";
    assert_eq!(rendered_text(source), ["9. nine", "10. ten", "    • inner", "", "after"]);
}

#[test]
fn tasks_have_checkboxes() {
    assert_eq!(rendered_text("- [x] done\n- [ ] open"), ["• [x] done", "• [ ] open"]);
}

#[test]
fn tables_are_rows_with_bars() {
    assert_eq!(rendered_text("| a | b |\n|---|---|\n| 1 | 2 |\n"), ["a │ b", "1 │ 2"]);
}

#[test]
fn breaks_and_rules() {
    assert_eq!(rendered_text("a\nb  \nc\n\n---\n\nd"), ["a b", "c", "", &"─".repeat(40), "", "d"]);
}

#[test]
fn html_is_shown_as_it_is() {
    assert_eq!(rendered_text("<div>\nx\n</div>\n"), ["<div>", "x", "</div>"]);
}

#[test]
fn inline_styles_add_up() {
    let highlighter = Highlighter::new();
    let lines = render("a ***b*** ~~c~~ [d](e) `f`", &highlighter).lines;
    let style_of_text = |text: &str| lines[0].spans.iter().find(|span| span.content == text).unwrap().style;
    assert_eq!(style_of_text("b"), Style::plain().bold().italic());
    assert_eq!(style_of_text("c"), Style::plain().crossed_out());
    assert_eq!(style_of_text("d"), Style::colored(Color::Rgb(137, 180, 250)).underlined());
    assert_eq!(style_of_text("f"), Style::colored(Color::Rgb(250, 179, 135)));
}

#[test]
fn styles_are_laid_over_each_other() {
    let red = Color::Rgb(1, 0, 0);
    let blue = Color::Rgb(0, 0, 1);
    let top = Style::colored(red).italic();
    let patched = Style::colored(blue).on(blue).bold().patch(top);
    assert_eq!(patched, Style::colored(red).on(blue).bold().italic());
    assert_eq!(Style::colored(blue).patch(Style::plain()), Style::colored(blue));
}

#[test]
fn quotes_and_code_nest() {
    let source = "> quoted\n>\n> ```\n> code\n> ```\n";
    assert_eq!(rendered_text(source), ["│ quoted", "", "│ ▏  copy ", "│ ▏ code"]);
}

#[test]
fn an_indented_block_is_code_too() {
    assert_eq!(rendered_text("text\n\n    let x;\n"), ["text", "", "▏  copy ", "▏ let x;"]);
    assert_eq!(code_blocks("text\n\n    let x;\n"), ["let x;\n"]);
}

#[test]
fn headers_come_in_order() {
    let source = "```a\n1\n```\n\n- item\n\n  ```b\n  2\n  ```\n\n```c\n3\n```\n";
    let rendered = render(source, &Highlighter::new());
    assert_eq!(rendered.code_headers.len(), 3);
    assert!(rendered.code_headers.windows(2).all(|pair| pair[0] < pair[1]));
    assert_eq!(code_blocks(source), ["1\n", "2\n", "3\n"]);
    assert!(!rendered.lines.last().unwrap().spans.is_empty());
}

#[test]
fn the_parser_gives_steps() {
    let extensions = Extensions { strikethrough: false, tables: false, task_lists: false };
    let events = parse("~~a~~ *b*", extensions);
    assert!(matches!(events[0], Markup::Start(Opening::Other)));
    assert!(events.iter().any(|event| matches!(event, Markup::Start(Opening::Emphasis))));
    assert!(events.iter().any(|event| matches!(event, Markup::End(Closing::Emphasis))));
    assert!(!events.iter().any(|event| matches!(event, Markup::Start(Opening::Strikethrough))));
    assert!(matches!(events.last(), Some(Markup::End(Closing::Paragraph))));

    let with_strikethrough = Extensions { strikethrough: true, ..extensions };
    let events = parse("~~a~~", with_strikethrough);
    assert!(events.iter().any(|event| matches!(event, Markup::Start(Opening::Strikethrough))));
}

#[test]
fn steps_can_be_rendered_on_their_own() {
    let events = || {
        vec![
            Markup::Start(Opening::List(Some(9))),
            Markup::Start(Opening::Item),
            Markup::Text(Cow::Borrowed("x")),
            Markup::End(Closing::Item),
            Markup::Start(Opening::Item),
            Markup::Start(Opening::CodeBlock(None)),
            Markup::Text(Cow::Owned("y\n".to_owned())),
            Markup::End(Closing::CodeBlock),
            Markup::End(Closing::Item),
            Markup::End(Closing::List),
        ]
    };
    let rendered = render_events(events(), &Highlighter::new());
    assert_eq!(plain_text(&rendered.lines), ["9. x", "10. ", "    ▏  copy ", "    ▏ y"]);
    assert_eq!(rendered.code_headers, [2]);
    assert_eq!(code_in(events()), ["y\n"]);
}

#[test]
fn markers_and_indents() {
    assert_eq!(heading_marker(1), "# ");
    assert_eq!(heading_marker(6), "###### ");
    assert_eq!(list_indent(0), "");
    assert_eq!(list_indent(3), "   ");
    assert_eq!(list_indent(99), " ".repeat(10));
}

#[test]
fn rendering_copies_no_text() {
    let source = "# A\n\nb *c* `d`\n\n7. e\n\n```rust\nfn f() {}\n```\n\n<p>\ng\n</p>\n";
    let rendered = render(source, &Highlighter::new());
    let owned: Vec<&str> = rendered
        .lines
        .iter()
        .flat_map(|line| &line.spans)
        .filter(|span| matches!(span.content, Cow::Owned(_)))
        .map(|span| span.content.as_ref())
        .collect();
    assert_eq!(owned, ["7. ", "rust"]);
}

#[test]
fn code_is_borrowed_even_where_other_text_is_rewritten() {
    let source = "1. a &#66; b\n\n   ```\n   c &#66; d\n   ```\n";
    let rendered = render(source, &Highlighter::new());
    let owned: Vec<&str> = rendered
        .lines
        .iter()
        .flat_map(|line| &line.spans)
        .filter(|span| matches!(span.content, Cow::Owned(_)))
        .map(|span| span.content.as_ref())
        .collect();
    assert_eq!(owned, ["1. ", "B"]);
    assert_eq!(code_blocks(source), ["c &#66; d\n"]);
}

#[test]
fn a_region_keeps_its_colour_and_font() {
    let region = Region { red: 1, green: 2, blue: 3, font: FONT_BOLD | FONT_UNDERLINE, text: "x" };
    assert_eq!(style_of(&region), Style::colored(Color::Rgb(1, 2, 3)).bold().underlined());
    let region = Region { red: 1, green: 2, blue: 3, font: FONT_ITALIC, text: "x" };
    assert_eq!(style_of(&region), Style::colored(Color::Rgb(1, 2, 3)).italic());
}

#[test]
fn a_line_the_grammar_fails_on_is_shown_unstyled() {
    let spans = spans_of("line", None);
    assert_eq!(spans.len(), 1);
    assert_eq!(spans[0].content, "line");
    assert_eq!(spans[0].style, Style::plain());
}

#[test]
fn a_long_line_is_highlighted_in_parts() {
    let highlighter = Highlighter::new();
    let mut block = highlighter.code_block("rust");
    let first = format!("let x = 1;{}", " ".repeat(MAX_HIGHLIGHTED - 10));
    let line = format!("{first}let y = 2; /* open");
    let spans = block.highlight_line(Cow::Borrowed(&line));
    let text: String = spans.iter().map(|span| span.content.as_ref()).collect();
    assert_eq!(text, line);
    let style_of_word = |word: &str| spans.iter().find(|span| span.content == word).map(|span| span.style);
    assert_eq!(style_of_word("1"), style_of_word("2"));
    assert!(style_of_word("1").is_some());
    // The comment that the last part opens goes on.
    let inside = block.highlight_line(Cow::Borrowed("let x = 1;"));
    assert_eq!(inside.len(), 1);
    assert_eq!(inside[0].style, spans.last().unwrap().style);
}

#[test]
fn what_is_ended_leaves_no_trace() {
    let source = "> # A *b*\n>\n> 1. c\n>    ```\n>    d\n>    ```\n\nplain\n";
    let rendered = render(source, &Highlighter::new());
    let last = rendered.lines.last().unwrap();
    assert_eq!(last.spans.len(), 1);
    assert_eq!(last.spans[0].content, "plain");
    assert_eq!(last.spans[0].style, Style::plain());
}

#[test]
fn the_grammar_carries_over_from_line_to_line() {
    let highlighter = Highlighter::new();
    let mut block = highlighter.code_block("rust");
    let opening = block.highlight_line(Cow::Borrowed("/* comment"));
    let inside = block.highlight_line(Cow::Owned("let x = 1;".to_owned()));
    let text: String = inside.iter().map(|span| span.content.as_ref()).collect();
    assert_eq!(text, "let x = 1;");
    assert_eq!(inside.len(), 1, "a comment is one region");
    assert_eq!(inside[0].style, opening.last().unwrap().style);
    assert!(matches!(inside[0].content, Cow::Owned(_)));

    let mut fresh = highlighter.code_block("rust");
    assert!(fresh.highlight_line(Cow::Borrowed("let x = 1;")).len() > 1);
}

#[test]
fn an_unknown_language_is_plain_text() {
    let highlighter = Highlighter::new();
    let mut block = highlighter.code_block("no such language");
    let spans = block.highlight_line(Cow::Borrowed("fn main() {}"));
    assert_eq!(spans.len(), 1);
    assert_eq!(spans[0].content, "fn main() {}");
}
