use mame::buffer::{Buffer, BufferId, BufferPosition, BufferRegion, CursorDelta, TerminalSize};
use mame::editor::{Editor, EditorOutcome};
use mame::fmt::{centered, padding};
use mame::json::format_line_around_position;
use mame::key_mapper::{Key, KeyCode, KeyEvent, KeyMapper, TerminalEvent};
use mame::lsp::SemanticTokenType;
use mame::rpc::{
    MoveDeltaParams, MoveToParams, NotifyTerminalEventParams, Request, RpcError, SemanticToken,
};
use mame::vec_map::VecMap;

fn lines(texts: &[&str]) -> Vec<Vec<char>> {
    texts.iter().map(|t| t.chars().collect()).collect()
}

fn text_of(buffer: &Buffer) -> Vec<String> {
    buffer.lines.iter().map(|l| l.iter().collect()).collect()
}

fn press(code: KeyCode) -> Request {
    Request::NotifyTerminalEvent {
        params: NotifyTerminalEventParams {
            event: TerminalEvent::Key(KeyEvent { code, alt: false, ctrl: false, press: true }),
        },
    }
}

fn ctrl(c: char) -> Request {
    Request::NotifyTerminalEvent {
        params: NotifyTerminalEventParams {
            event: TerminalEvent::Key(KeyEvent {
                code: KeyCode::Char(c),
                alt: false,
                ctrl: true,
                press: true,
            }),
        },
    }
}

#[test]
fn buffer_id_from_path_takes_last_component() {
    let id = BufferId::from_path("/work/src/main.rs".to_string());
    assert_eq!(id.name, "main.rs");
    assert_eq!(id.path, "/work/src/main.rs");
    let id = BufferId::from_path("plain".to_string());
    assert_eq!(id.name, "plain");
    let id = BufferId::from_path("dir/".to_string());
    assert_eq!(id.name, "*scratch");
    let id = BufferId::from_path(String::new());
    assert_eq!(id.name, "*scratch");
}

#[test]
fn open_focuses_and_replaces_by_identity() {
    let mut editor = Editor::new(0, 100);
    let outcome = editor.handle_request(&Request::Open {
        params: mame::rpc::OpenParams { path: "/tmp/a.txt".to_string() },
    });
    match outcome {
        EditorOutcome::NeedsOpen { path } => assert_eq!(path, "/tmp/a.txt"),
        _ => panic!("open asks the caller to read the file"),
    }
    editor.finish_open("/tmp/a.txt".to_string(), lines(&["one"]));
    editor.finish_open("/tmp/b.txt".to_string(), lines(&["two"]));
    assert_eq!(editor.buffers.len(), 2);
    // reopening the same path replaces, not duplicates
    editor.finish_open("/tmp/a.txt".to_string(), lines(&["three"]));
    assert_eq!(editor.buffers.len(), 2);
    assert_eq!(editor.current_buffer_id.as_ref().unwrap().name, "a.txt");
    assert_eq!(text_of(&editor.buffers[0]), vec!["three"]);
}

#[test]
fn typing_inserts_and_deletes() {
    let mut editor = Editor::new(0, 100);
    editor.finish_open("/tmp/t".to_string(), lines(&["ab"]));
    editor.handle_request(&press(KeyCode::Right));
    editor.handle_request(&press(KeyCode::Char('X')));
    assert_eq!(text_of(&editor.buffers[0]), vec!["aXb"]);
    editor.handle_request(&press(KeyCode::Enter));
    assert_eq!(text_of(&editor.buffers[0]), vec!["aX", "b"]);
    assert_eq!((editor.buffers[0].cursor.line, editor.buffers[0].cursor.column), (1, 0));
    editor.handle_request(&press(KeyCode::Backspace));
    // backspace at the start of a non-empty line eats the previous line's
    // last character and moves the cursor there
    assert_eq!(text_of(&editor.buffers[0]), vec!["a", "b"]);
    assert_eq!((editor.buffers[0].cursor.line, editor.buffers[0].cursor.column), (0, 1));
}

#[test]
fn control_characters_are_not_inserted() {
    let mut editor = Editor::new(0, 100);
    editor.finish_open("/tmp/t".to_string(), lines(&["ab"]));
    editor.handle_request(&press(KeyCode::Char('\u{7}')));
    assert_eq!(text_of(&editor.buffers[0]), vec!["ab"]);
}

#[test]
fn release_events_do_nothing() {
    let mut editor = Editor::new(0, 100);
    editor.finish_open("/tmp/t".to_string(), lines(&["ab"]));
    editor.needs_redraw = false;
    let req = Request::NotifyTerminalEvent {
        params: NotifyTerminalEventParams {
            event: TerminalEvent::Key(KeyEvent {
                code: KeyCode::Char('x'),
                alt: false,
                ctrl: false,
                press: false,
            }),
        },
    };
    editor.handle_request(&req);
    assert_eq!(text_of(&editor.buffers[0]), vec!["ab"]);
    assert!(!editor.needs_redraw);
}

#[test]
fn move_to_clamps_to_line_lengths() {
    let mut editor = Editor::new(0, 100);
    editor.terminal_size = TerminalSize { width: 80, height: 24 };
    editor.finish_open("/tmp/t".to_string(), lines(&["short", "a much longer line"]));
    editor.handle_request(&Request::MoveTo {
        params: MoveToParams { row: Some(0), col: Some(999) },
    });
    assert_eq!((editor.buffers[0].cursor.line, editor.buffers[0].cursor.column), (0, 5));
    editor.handle_request(&Request::MoveDelta { params: MoveDeltaParams { row: 1, col: 2 } });
    assert_eq!((editor.buffers[0].cursor.line, editor.buffers[0].cursor.column), (1, 7));
    editor.handle_request(&Request::MoveDelta { params: MoveDeltaParams { row: -5, col: -99 } });
    assert_eq!((editor.buffers[0].cursor.line, editor.buffers[0].cursor.column), (0, 0));
}

#[test]
fn mark_copy_cut_paste_round_trip() {
    let mut editor = Editor::new(0, 100);
    editor.finish_open("/tmp/t".to_string(), lines(&["hello", "world"]));
    // mark at (0,1), cursor to (1,2): region covers "ello" and "wo"
    editor.handle_request(&Request::MoveTo { params: MoveToParams { row: Some(0), col: Some(1) } });
    editor.handle_request(&Request::Mark);
    editor.handle_request(&Request::MoveTo { params: MoveToParams { row: Some(1), col: Some(2) } });
    editor.handle_request(&Request::Cut);
    assert_eq!(text_of(&editor.buffers[0]), vec!["hrld"]);
    assert_eq!((editor.buffers[0].cursor.line, editor.buffers[0].cursor.column), (0, 1));
    assert!(editor.buffers[0].mark_origin.is_none());
    let clip: Vec<String> = editor.clipboard.as_ref().unwrap().iter().map(|l| {
        l.iter().collect()
    }).collect();
    assert_eq!(clip, vec!["ello", "wo"]);
    // pasting the cut text back restores the buffer
    editor.handle_request(&Request::Paste);
    assert_eq!(text_of(&editor.buffers[0]), vec!["hello", "world"]);
    assert_eq!((editor.buffers[0].cursor.line, editor.buffers[0].cursor.column), (1, 2));
}

#[test]
fn copy_without_mark_clears_clipboard() {
    let mut editor = Editor::new(0, 100);
    editor.finish_open("/tmp/t".to_string(), lines(&["hello"]));
    editor.clipboard = Some(lines(&["stale"]));
    editor.handle_request(&Request::Copy);
    assert!(editor.clipboard.is_none());
}

#[test]
fn cancel_drops_the_mark() {
    let mut editor = Editor::new(0, 100);
    editor.finish_open("/tmp/t".to_string(), lines(&["hello"]));
    editor.handle_request(&Request::Mark);
    assert!(editor.buffers[0].mark_origin.is_some());
    editor.handle_request(&Request::Cancel);
    assert!(editor.buffers[0].mark_origin.is_none());
}

#[test]
fn save_hands_back_path_and_joined_text() {
    let mut editor = Editor::new(0, 100);
    editor.finish_open("/tmp/t".to_string(), lines(&["one", "two"]));
    match editor.handle_request(&Request::Save { params: mame::rpc::SaveParams {} }) {
        EditorOutcome::NeedsSave { path, text } => {
            assert_eq!(path, "/tmp/t");
            assert_eq!(text, "one\ntwo");
        },
        _ => panic!("save asks the caller to write the file"),
    }
}

#[test]
fn save_with_no_buffer_is_a_no_op() {
    let mut editor = Editor::new(0, 100);
    assert!(matches!(
        editor.handle_request(&Request::Save { params: mame::rpc::SaveParams {} }),
        EditorOutcome::Done
    ));
}

#[test]
fn exit_request_stops_the_loop() {
    let mut editor = Editor::new(0, 100);
    let outcome = editor.handle_request(&Request::Exit);
    assert!(matches!(outcome, EditorOutcome::Exit));
    assert!(editor.exit);
}

#[test]
fn chords_fire_their_requests() {
    let mut editor = Editor::new(0, 100);
    editor.finish_open("/tmp/t".to_string(), lines(&["one"]));
    // C-x C-s is bound to save
    editor.handle_request(&ctrl('x'));
    match editor.handle_request(&ctrl('s')) {
        EditorOutcome::NeedsSave { path, .. } => assert_eq!(path, "/tmp/t"),
        _ => panic!("the save chord hands back a save"),
    }
    // Esc is bound to exit
    match editor.handle_request(&press(KeyCode::Esc)) {
        EditorOutcome::Exit => {},
        _ => panic!("escape exits"),
    }
    assert!(editor.exit);
}

#[test]
fn key_mapper_matches_longest_pending_tail() {
    let mut mapper = KeyMapper::new();
    let e = KeyEvent { code: KeyCode::Char('a'), alt: false, ctrl: true, press: true };
    // C-a alone is bound to a cursor move
    match mapper.handle_input(&e) {
        Some(Request::MoveTo { params }) => {
            assert_eq!(params.row, None);
            assert_eq!(params.col, Some(0));
        },
        _ => panic!("C-a is bound"),
    }
    // an unbound key leaves the request unfired
    let other = KeyEvent { code: KeyCode::Char('q'), alt: false, ctrl: true, press: true };
    assert!(mapper.handle_input(&other).is_none());
}

#[test]
fn key_mapper_add_shadows_earlier_binding() {
    let mut mapper = KeyMapper::new();
    let mut chord = Vec::new();
    chord.push(Key::from_char('g').ctrl());
    mapper.add(chord, Request::paste());
    let e = KeyEvent { code: KeyCode::Char('g'), alt: false, ctrl: true, press: true };
    assert!(matches!(mapper.handle_input(&e), Some(Request::Paste)));
}

#[test]
fn start_lsp_conflict_is_a_structured_error() {
    let mut editor = Editor::new(0, 100);
    let params = mame::rpc::StartLspParams {
        name: "x".to_string(),
        root_dir: "/".to_string(),
        command: "echo-lsp".to_string(),
        args: Vec::new(),
        env: VecMap::new(),
    };
    editor.finish_start_lsp(&params).unwrap();
    match editor.handle_request(&Request::StartLsp { params }) {
        EditorOutcome::Fail { error: RpcError::Other { message } } => {
            assert_eq!(message, "LSP server name conflicts");
        },
        _ => panic!("a duplicate name is rejected before spawning"),
    }
}

#[test]
fn command_request_is_handed_to_the_caller() {
    let mut editor = Editor::new(0, 100);
    let outcome = editor.handle_request(&Request::Command {
        params: mame::rpc::CommandParams {
            path: "tmux".to_string(),
            args: vec!["display".to_string()],
        },
    });
    match outcome {
        EditorOutcome::NeedsCommand { path, args } => {
            assert_eq!(path, "tmux");
            assert_eq!(args, vec!["display".to_string()]);
        },
        _ => panic!("commands run outside the loop"),
    }
}

#[test]
fn region_contains_is_half_open() {
    let region = BufferRegion::new(BufferPosition::new(1, 2), BufferPosition::new(0, 4));
    // the positions are reordered
    assert_eq!((region.start.row, region.start.col), (0, 4));
    assert_eq!((region.end.row, region.end.col), (1, 2));
    assert!(region.contains(BufferPosition::new(0, 4)));
    assert!(region.contains(BufferPosition::new(1, 1)));
    assert!(!region.contains(BufferPosition::new(1, 2)));
    assert!(!region.contains(BufferPosition::new(0, 3)));
}

#[test]
fn buffer_text_joins_lines() {
    let b = Buffer::new(BufferId::from_path("/x".to_string()), lines(&["ab", "", "c"]));
    assert_eq!(b.text(), "ab\n\nc");
    let empty = Buffer::new(BufferId::from_path("/x".to_string()), Vec::new());
    assert_eq!(empty.text(), "");
}

#[test]
fn cursor_position_is_screen_relative() {
    let mut b = Buffer::new(BufferId::from_path("/x".to_string()), lines(&["a", "b", "c"]));
    b.move_cursor(CursorDelta::xy(0, 2), TerminalSize { width: 10, height: 5 });
    b.start_line = 1;
    let p = b.cursor_position();
    assert_eq!((p.x, p.y), (0, 1));
}

#[test]
fn vec_map_keeps_order_and_first_match_wins() {
    let mut m: VecMap<String, u32> = VecMap::new();
    assert!(m.is_empty());
    m.insert("first".to_string(), 1);
    m.insert("second".to_string(), 2);
    m.insert("first".to_string(), 3);
    assert_eq!(m.len(), 3);
    assert!(!m.is_empty());
    assert_eq!(m.get("first"), Some(&1));
    assert_eq!(m.get("second"), Some(&2));
    assert_eq!(m.get("third"), None);
    assert!(m.contains_key("first"));
    assert!(!m.contains_key("third"));
    let keys: Vec<&String> = m.keys();
    assert_eq!(keys, vec!["first", "second", "first"]);
    let values: Vec<&u32> = m.values();
    assert_eq!(values, vec![&1, &2, &3]);
    let pairs = m.iter();
    assert_eq!(pairs.len(), 3);
    assert_eq!(*pairs[2].0, "first");
    assert_eq!(*pairs[2].1, 3);
}

#[test]
fn padding_and_centered_format() {
    assert_eq!(padding('x', 3), "xxx");
    assert_eq!(padding('x', 0), "");
    assert_eq!(centered("ab", '-', 8), "-- ab --");
    assert_eq!(centered("abc", '-', 8), "- abc --");
    // too wide to fit with its surrounding spaces: full padding
    assert_eq!(centered("abcdef", '-', 8), "--------");
}

#[test]
fn line_window_short_line_is_untouched() {
    let (shown, caret) = format_line_around_position("let x = 1;", 5);
    assert_eq!(shown, "let x = 1;");
    assert_eq!(caret, 5);
}

#[test]
fn line_window_long_line_is_trimmed() {
    let long: String = std::iter::repeat('a').take(200).collect();
    let (shown, caret) = format_line_around_position(&long, 100);
    assert!(shown.starts_with("..."));
    assert!(shown.ends_with("..."));
    assert_eq!(caret, 40 + 1 + 3);
    assert_eq!(shown.len(), 3 + 81 + 3);
}

#[test]
fn command_line_quotes_arguments_that_need_it() {
    let cmd = mame::command::ExternalCommand {
        command: "grep".to_string(),
        args: vec!["plain".to_string(), "two words".to_string(), String::new()],
        envs: VecMap::new(),
        stdin: mame::command::CommandInput::Null,
        stdout: mame::command::CommandOutput::Null,
        stderr: mame::command::CommandOutput::Null,
    };
    assert_eq!(cmd.command_line(), "grep plain \"two words\" \"\"");
}

#[test]
fn command_output_skip_rules() {
    let sink = mame::command::CommandOutput::File {
        path: "/tmp/out".to_string(),
        append: false,
        skip_if_empty: true,
        skip_if_success: true,
    };
    assert!(!sink.should_write(true, false));
    assert!(!sink.should_write(false, true));
    assert!(sink.should_write(false, false));
    assert!(!mame::command::CommandOutput::Null.should_write(false, false));
}

#[test]
fn rpc_error_builders() {
    match RpcError::other("boom") {
        RpcError::Other { message } => assert_eq!(message, "boom"),
        _ => panic!(),
    }
    match RpcError::file_error("/f".to_string(), "denied".to_string()) {
        RpcError::FileError { path, reason } => {
            assert_eq!(path, "/f");
            assert_eq!(reason, "denied");
        },
        _ => panic!(),
    }
}

#[test]
fn context_name_round_trips() {
    let c = mame::action::ContextName::new("insert");
    assert_eq!(c.get(), "insert");
}

#[test]
fn lsp_started_announces_open_buffers() {
    let mut editor = Editor::new(0, 100);
    editor.finish_open("/tmp/a".to_string(), lines(&["alpha"]));
    editor.finish_open("/tmp/b".to_string(), lines(&["beta"]));
    let params = mame::rpc::StartLspParams {
        name: "srv".to_string(),
        root_dir: "/tmp".to_string(),
        command: "echo-lsp".to_string(),
        args: Vec::new(),
        env: VecMap::new(),
    };
    editor.finish_start_lsp(&params).unwrap();
    editor.handle_request(&Request::NotifyLspStarted {
        params: mame::rpc::NotifyLspStartedParams { name: "srv".to_string() },
    });
    for b in &editor.buffers {
        assert_eq!(b.lsp_server_name.as_deref(), Some("srv"));
    }
    let buffered = editor.lsp_client_manager.clients[0].unsent_bytes();
    let text = String::from_utf8(buffered).unwrap();
    assert_eq!(text.matches("didOpen").count(), 2);
    assert_eq!(text.matches("semanticTokens/full").count(), 2);
}

fn run_strings(
    runs: Vec<(Option<mame::lsp::SemanticTokenType>, bool, Vec<char>)>,
) -> Vec<(Option<mame::lsp::SemanticTokenType>, bool, String)> {
    runs.into_iter().map(|(ty, marked, s)| (ty, marked, s.iter().collect())).collect()
}

#[test]
fn line_tokens_splits_at_token_boundaries() {
    let mut b = Buffer::new(BufferId::from_path("/x".to_string()), lines(&["abc def", "next"]));
    b.set_semantic_tokens(&vec![
        SemanticToken { line: 0, column: 0, token_len: 3, token_type: SemanticTokenType::Keyword },
        SemanticToken { line: 1, column: 0, token_len: 4, token_type: SemanticTokenType::Comment },
    ]);
    let runs = run_strings(b.line_tokens(0));
    assert_eq!(runs.len(), 2);
    assert!(runs[0].0 == Some(SemanticTokenType::Keyword));
    assert!(!runs[0].1);
    assert_eq!(runs[0].2, "abc");
    assert!(runs[1].0.is_none());
    assert_eq!(runs[1].2, " def");
}

#[test]
fn line_tokens_drops_tail_without_a_closing_token() {
    let mut b = Buffer::new(BufferId::from_path("/x".to_string()), lines(&["abc def"]));
    b.set_semantic_tokens(&vec![
        SemanticToken { line: 0, column: 0, token_len: 3, token_type: SemanticTokenType::Keyword },
    ]);
    let runs = run_strings(b.line_tokens(0));
    assert_eq!(runs.len(), 1);
    assert_eq!(runs[0].2, "abc");
}

#[test]
fn line_tokens_splits_at_the_marked_region_edge() {
    let mut b = Buffer::new(BufferId::from_path("/x".to_string()), lines(&["abc def", "next"]));
    b.set_semantic_tokens(&vec![
        SemanticToken { line: 0, column: 0, token_len: 3, token_type: SemanticTokenType::Keyword },
        SemanticToken { line: 1, column: 0, token_len: 4, token_type: SemanticTokenType::Comment },
    ]);
    // mark columns 2..7 of row 0
    b.set_cursor(Some(0), Some(2), TerminalSize { width: 80, height: 24 });
    b.mark();
    b.set_cursor(Some(0), Some(7), TerminalSize { width: 80, height: 24 });
    let runs = run_strings(b.line_tokens(0));
    let flat: Vec<(bool, String)> = runs.iter().map(|r| (r.1, r.2.clone())).collect();
    // the run that crosses the region's end is split there, leaving an
    // empty unmarked piece when the region ends exactly at the line's end
    assert_eq!(flat, vec![
        (false, "ab".to_string()),
        (true, "c".to_string()),
        (true, " def".to_string()),
        (false, String::new()),
    ]);
    assert!(runs[0].0 == Some(SemanticTokenType::Keyword));
    assert!(runs[1].0 == Some(SemanticTokenType::Keyword));
    assert!(runs[2].0.is_none());
    assert!(runs[3].0.is_none());
}

#[test]
fn line_tokens_of_a_missing_row_is_empty() {
    let b = Buffer::new(BufferId::from_path("/x".to_string()), lines(&["abc"]));
    assert!(b.line_tokens(5).is_empty());
}

#[test]
fn character_widths_drive_the_estimator() {
    let est = mame::terminal::UnicodeCharWidthEstimator;
    assert_eq!(est.estimate_char_width('A'), 1);
    assert_eq!(est.estimate_char_width('漢'), 2);
    assert_eq!(est.estimate_char_width('\u{7}'), 0);
    assert_eq!(mame::terminal::str_cols("abc"), 3);
    assert_eq!(mame::terminal::str_cols(""), 0);
    assert_eq!(mame::terminal::char_cols('あ'), 2);
}
