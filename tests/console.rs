use repl_console::app::{key_request, settle_step, App, Effect, Msg, Request, Settle};
use repl_console::sink::OutWriter;
use repl_console::transcript::HistElem;

fn prompt(s: &str) -> HistElem {
    HistElem::Prompt(s.to_string())
}

fn output(s: &str) -> HistElem {
    HistElem::Output(s.to_string())
}

fn submit(app: &mut App, code: &str, writes: &[&[u8]], res: Result<Option<String>, String>) {
    let writes: Vec<Vec<u8>> = writes.iter().map(|w| w.to_vec()).collect();
    app.eval(code.to_string(), writes, res);
}

fn run_sink(chunks: &[&[u8]]) -> Vec<String> {
    let mut w = OutWriter::new();
    let mut out = Vec::new();
    for c in chunks {
        if let Some(s) = w.write(c) {
            out.push(s);
        }
    }
    if let Some(s) = w.flush() {
        out.push(s);
    }
    out
}

#[test]
fn sink_byte_at_a_time_matches_all_at_once() {
    let data: &[u8] = b"hello\nworld";
    let singles: Vec<&[u8]> = data.chunks(1).collect();
    assert_eq!(run_sink(&singles), run_sink(&[data]));
    assert_eq!(run_sink(&[data]), vec!["hello\n".to_string(), "world".to_string()]);
}

#[test]
fn sink_write_keeps_bytes_after_last_newline() {
    let mut w = OutWriter::new();
    assert_eq!(w.write(b"ab"), None);
    assert_eq!(w.write(b"c\nd\ne"), Some("abc\nd\n".to_string()));
    assert_eq!(w.flush(), Some("e".to_string()));
    assert_eq!(w.flush(), None);
}

#[test]
fn sink_flush_on_empty_emits_nothing() {
    let mut w = OutWriter::new();
    assert_eq!(w.flush(), None);
}

#[test]
fn sink_flush_emits_unterminated_text() {
    let mut w = OutWriter::new();
    assert_eq!(w.write(b"partial"), None);
    assert_eq!(w.flush(), Some("partial".to_string()));
}

#[test]
fn sink_replaces_invalid_bytes() {
    let mut w = OutWriter::new();
    assert_eq!(w.write(&[0x61, 0xff, b'\n']), Some("a\u{fffd}\n".to_string()));
}

#[test]
fn submit_with_value() {
    let mut app = App::new();
    submit(&mut app, "(+ 1 2)", &[], Ok(Some("3".to_string())));
    assert_eq!(app.hist(), &vec![prompt("(+ 1 2)"), HistElem::Result("3".to_string())]);
    assert_eq!(app.hist_idx(), None);
}

#[test]
fn submit_with_streamed_output() {
    let mut app = App::new();
    submit(&mut app, "(cmd)", &[b"a\n", b"b"], Ok(None));
    assert_eq!(app.hist(), &vec![prompt("(cmd)"), output("a\n"), output("b")]);
}

#[test]
fn submit_that_fails() {
    let mut app = App::new();
    submit(&mut app, "x", &[], Err("undefined: x".to_string()));
    let h = app.hist();
    assert_eq!(h.len(), 2);
    assert_eq!(h[0], prompt("x"));
    assert_eq!(h[1], HistElem::Error("undefined: x".to_string()));
}

#[test]
fn submit_output_comes_before_error() {
    let mut app = App::new();
    submit(&mut app, "(f)", &[b"line\n"], Err("boom".to_string()));
    assert_eq!(
        app.hist(),
        &vec![prompt("(f)"), output("line\n"), HistElem::Error("boom".to_string())]
    );
}

#[test]
fn recall_on_empty_transcript_is_noop() {
    let mut app = App::new();
    assert_eq!(app.hist_prev(), None);
    assert_eq!(app.hist_idx(), None);
    assert!(app.hist().is_empty());
    assert_eq!(app.hist_next(), None);
    assert_eq!(app.hist_idx(), None);
}

fn sample() -> App {
    let mut app = App::new();
    submit(&mut app, "one", &[], Ok(Some("1".to_string())));
    submit(&mut app, "   ", &[], Ok(None));
    submit(&mut app, "two", &[b"out\n"], Ok(None));
    submit(&mut app, "", &[], Ok(None));
    submit(&mut app, "three", &[], Err("e".to_string()));
    app
}

#[test]
fn recall_previous_skips_blank_prompts_and_stops() {
    let mut app = sample();
    assert_eq!(app.hist_prev(), Some("three".to_string()));
    assert_eq!(app.hist_idx(), Some(6));
    assert_eq!(app.hist_prev(), Some("two".to_string()));
    assert_eq!(app.hist_idx(), Some(3));
    assert_eq!(app.hist_prev(), Some("one".to_string()));
    assert_eq!(app.hist_idx(), Some(0));
    assert_eq!(app.hist_prev(), None);
    assert_eq!(app.hist_idx(), Some(0));
}

#[test]
fn recall_next_replays_forward_and_holds() {
    let mut app = sample();
    for _ in 0..3 {
        app.hist_prev();
    }
    assert_eq!(app.hist_next(), Some("two".to_string()));
    assert_eq!(app.hist_next(), Some("three".to_string()));
    assert_eq!(app.hist_next(), None);
    assert_eq!(app.hist_idx(), Some(6));
}

#[test]
fn recall_next_on_live_line_is_noop() {
    let mut app = sample();
    assert_eq!(app.hist_next(), None);
    assert_eq!(app.hist_idx(), None);
}

#[test]
fn submit_resets_cursor() {
    let mut app = sample();
    app.hist_prev();
    app.hist_prev();
    submit(&mut app, "four", &[], Ok(None));
    assert_eq!(app.hist_idx(), None);
    assert_eq!(app.hist_prev(), Some("four".to_string()));
}

#[test]
fn update_dispatches_events() {
    let mut app = App::new();
    let e = app.update(Msg::Eval("(+ 1 2)".to_string(), vec![], Ok(Some("3".to_string()))));
    assert_eq!(e, Effect::Render);
    let e = app.update(Msg::Output("late\n".to_string()));
    assert_eq!(e, Effect::Render);
    assert_eq!(app.hist().last(), Some(&output("late\n")));
    assert_eq!(app.update(Msg::HistPrev), Effect::SetPrompt("(+ 1 2)".to_string()));
    assert_eq!(app.update(Msg::HistPrev), Effect::Nothing);
    assert_eq!(app.update(Msg::HistNext), Effect::Nothing);
    assert_eq!(app.update(Msg::ScrollBottom), Effect::ScrollBottom);
    assert_eq!(app.hist().len(), 3);
}

#[test]
fn write_output_streams_lines() {
    let mut app = App::new();
    assert_eq!(app.write_output(b"x"), 1);
    assert!(app.hist().is_empty());
    assert_eq!(app.write_output(b"y\nz"), 3);
    assert_eq!(app.hist(), &vec![output("xy\n")]);
    app.flush_output();
    assert_eq!(app.hist(), &vec![output("xy\n"), output("z")]);
    app.flush_output();
    assert_eq!(app.hist().len(), 2);
}

#[test]
fn keys_map_to_requests() {
    assert_eq!(
        key_request(&"Enter".to_string(), "(+ 1 2)".to_string()),
        Some(Request::Submit("(+ 1 2)".to_string()))
    );
    assert_eq!(key_request(&"ArrowUp".to_string(), String::new()), Some(Request::Previous));
    assert_eq!(key_request(&"ArrowDown".to_string(), String::new()), Some(Request::Next));
    assert_eq!(key_request(&"a".to_string(), String::new()), None);
}

#[test]
fn scroll_settle_decisions() {
    assert_eq!(settle_step(500, 500, 3), Settle::Done);
    assert_eq!(settle_step(800, 500, 3), Settle::MoveTo(800, true));
    assert_eq!(settle_step(800, 500, 0), Settle::MoveTo(800, false));
}

#[test]
fn blank_detection_uses_whitespace() {
    assert!(repl_console::text::blank(" \t\n"));
    assert!(repl_console::text::blank(""));
    assert!(!repl_console::text::blank("  a "));
}
