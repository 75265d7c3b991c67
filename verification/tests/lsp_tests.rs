use mame::buffer::BufferId;
use mame::codec::{encode_frame, try_parse_frames};
use mame::editor::{Editor, EditorOutcome};
use mame::lsp::{
    decode_semantic_tokens, LspClientManager, OngoingRequest, SemanticTokenType,
};
use mame::rpc::{
    NotifyLspStartedParams, NotifySemanticTokensParams, Request, RpcError, StartLspParams,
};
use mame::vec_map::VecMap;

fn start_params(name: &str, command: &str) -> StartLspParams {
    StartLspParams {
        name: name.to_string(),
        root_dir: "/work/project".to_string(),
        command: command.to_string(),
        args: Vec::new(),
        env: VecMap::new(),
    }
}

#[test]
fn semantic_token_decode_example() {
    // the column carries over when the line delta is zero and resets when
    // a new line starts
    let data: Vec<u64> = vec![0, 5, 3, 1, 0, 1, 2, 4, 1, 0];
    let legend = vec![SemanticTokenType::Keyword, SemanticTokenType::Variable];
    let tokens = decode_semantic_tokens(&data, &legend).expect("indices are in the legend");
    assert_eq!(tokens.len(), 2);
    assert_eq!((tokens[0].line, tokens[0].column, tokens[0].token_len), (0, 5, 3));
    assert!(tokens[0].token_type == SemanticTokenType::Variable);
    assert_eq!((tokens[1].line, tokens[1].column, tokens[1].token_len), (1, 2, 4));
    assert!(tokens[1].token_type == SemanticTokenType::Variable);
}

#[test]
fn semantic_token_decode_column_accumulates() {
    let data: Vec<u64> = vec![2, 3, 1, 0, 0, 0, 4, 2, 0, 0];
    let legend = vec![SemanticTokenType::Comment];
    let tokens = decode_semantic_tokens(&data, &legend).unwrap();
    assert_eq!((tokens[0].line, tokens[0].column), (2, 3));
    // same line: the second token starts 4 columns after the first
    assert_eq!((tokens[1].line, tokens[1].column), (2, 7));
}

#[test]
fn semantic_token_decode_ignores_trailing_partial_chunk() {
    let data: Vec<u64> = vec![0, 0, 7, 0, 0, 9, 9];
    let legend = vec![SemanticTokenType::Comment];
    let tokens = decode_semantic_tokens(&data, &legend).unwrap();
    assert_eq!(tokens.len(), 1);
}

#[test]
fn semantic_token_decode_rejects_bad_legend_index() {
    let data: Vec<u64> = vec![0, 0, 7, 3, 0];
    let legend = vec![SemanticTokenType::Comment];
    assert!(decode_semantic_tokens(&data, &legend).is_none());
}

#[test]
fn semantic_token_decode_rejects_overflow() {
    let data: Vec<u64> = vec![u64::MAX, 0, 1, 0, 0, 1, 0, 1, 0, 0];
    let legend = vec![SemanticTokenType::Comment];
    assert!(decode_semantic_tokens(&data, &legend).is_none());
}

#[test]
fn wire_names_map_to_token_types() {
    assert!(SemanticTokenType::from_wire_name("keyword") == Some(SemanticTokenType::Keyword));
    assert!(SemanticTokenType::from_wire_name("typeParameter")
        == Some(SemanticTokenType::TypeParameter));
    assert!(SemanticTokenType::from_wire_name("comment") == Some(SemanticTokenType::Comment));
    assert!(SemanticTokenType::from_wire_name("Keyword").is_none());
    assert!(SemanticTokenType::from_wire_name("no-such-kind").is_none());
}

#[test]
fn token_isolation_between_two_clients() {
    let mut mgr = LspClientManager::new(100, 200);
    let (a0, a1, a2) = mgr.start(&start_params("alpha", "srv-a")).expect("no conflict");
    let (b0, b1, b2) = mgr.start(&start_params("beta", "srv-b")).expect("no conflict");
    let a = [a0, a1, a2];
    let b = [b0, b1, b2];
    for x in a {
        for y in b {
            assert_ne!(x, y);
        }
    }
    // an event for one client's token routes to that client and no other
    assert_eq!(mgr.owner_of_token(a1), Some(0));
    assert_eq!(mgr.owner_of_token(b2), Some(1));
    assert_eq!(mgr.owner_of_token(199), None);
    let before = mgr.clients[0].unsent_bytes();
    // mutate only the routed client
    let i = mgr.owner_of_token(b0).unwrap();
    mgr.clients[i].on_bytes_written(0);
    assert_eq!(mgr.clients[0].unsent_bytes(), before);
}

#[test]
fn duplicate_client_name_is_rejected() {
    let mut mgr = LspClientManager::new(0, 30);
    mgr.start(&start_params("x", "echo-lsp")).expect("first start succeeds");
    match mgr.start(&start_params("x", "echo-lsp")) {
        Err(RpcError::Other { message }) => assert_eq!(message, "LSP server name conflicts"),
        other => panic!("expected a name conflict, got {:?}", other.is_ok()),
    }
}

#[test]
fn removed_client_routes_nowhere() {
    let mut mgr = LspClientManager::new(0, 30);
    let (t0, t1, t2) = mgr.start(&start_params("x", "echo-lsp")).unwrap();
    let i = mgr.owner_of_token(t1).expect("token owned");
    mgr.remove_client(i);
    assert_eq!(mgr.clients.len(), 0);
    assert_eq!(mgr.owner_of_token(t0), None);
    assert_eq!(mgr.owner_of_token(t1), None);
    assert_eq!(mgr.owner_of_token(t2), None);
}

#[test]
fn backpressure_drops_excess_messages() {
    let mut mgr = LspClientManager::new(0, 30);
    mgr.start(&start_params("x", "echo-lsp")).unwrap();
    let client = &mut mgr.clients[0];
    let method = b"textDocument/didOpen".to_vec();
    let big_params = {
        let mut v = vec![b'"'];
        v.extend(std::iter::repeat(b'a').take(4000));
        v.push(b'"');
        v
    };
    // fill the buffer past the cap: no flush happens in between
    let mut dropped_seen = false;
    let mut sent = 0;
    for _ in 0..5 {
        let dropped = client.send_notification(&method, &big_params);
        if dropped {
            dropped_seen = true;
        } else {
            assert!(!dropped_seen, "a message fit after one was dropped");
            sent += 1;
        }
    }
    assert!(dropped_seen, "the cap was never exceeded");
    // what was buffered is exactly the accepted prefix, framed
    let buffered = client.unsent_bytes();
    let batch = try_parse_frames(&buffered).expect("buffer holds whole frames");
    assert_eq!(batch.frames.len(), 1 + sent, "initialize plus accepted notifications");
    // once over the cap, everything else is dropped too
    assert!(client.send_notification(&method, &big_params));
    assert_eq!(client.unsent_bytes(), buffered);
}

#[test]
fn correlation_removes_the_outstanding_id() {
    let mut mgr = LspClientManager::new(0, 30);
    mgr.start(&start_params("x", "echo-lsp")).unwrap();
    let client = &mut mgr.clients[0];
    match client.begin_response(0) {
        Some(OngoingRequest::Initialize) => {},
        _ => panic!("id 0 is the initialize request"),
    }
    assert!(client.begin_response(0).is_none(), "an id resolves only once");
    assert!(client.begin_response(7).is_none(), "an unknown id is a protocol violation");
}

#[test]
fn stdout_bytes_assemble_into_frames() {
    let mut mgr = LspClientManager::new(0, 30);
    mgr.start(&start_params("x", "echo-lsp")).unwrap();
    let client = &mut mgr.clients[0];
    let body = b"{\"jsonrpc\":\"2.0\",\"id\":0,\"result\":null}".to_vec();
    let wire = encode_frame(&body);
    let (head, tail) = wire.split_at(7);
    let frames = client.on_stdout_data(&head.to_vec()).expect("not malformed");
    assert_eq!(frames.len(), 0);
    let frames = client.on_stdout_data(&tail.to_vec()).expect("not malformed");
    assert_eq!(frames, vec![body]);
}

#[test]
fn malformed_stdout_is_fatal() {
    let mut mgr = LspClientManager::new(0, 30);
    mgr.start(&start_params("x", "echo-lsp")).unwrap();
    let client = &mut mgr.clients[0];
    assert!(client.on_stdout_data(&b"Content-Length:x\r\n\r\n".to_vec()).is_none());
}

#[test]
fn initialize_result_stores_legend_and_sends_initialized() {
    let mut mgr = LspClientManager::new(0, 30);
    mgr.start(&start_params("x", "echo-lsp")).unwrap();
    let client = &mut mgr.clients[0];
    let names = vec!["comment".to_string(), "keyword".to_string()];
    assert!(client.on_initialize_result(&names));
    assert!(client.legend()[0] == SemanticTokenType::Comment);
    assert!(client.legend()[1] == SemanticTokenType::Keyword);
    let buffered = client.unsent_bytes();
    let text = String::from_utf8(buffered).unwrap();
    assert!(text.contains("\"method\":\"initialized\""));
}

#[test]
fn unknown_legend_name_is_rejected() {
    let mut mgr = LspClientManager::new(0, 30);
    mgr.start(&start_params("x", "echo-lsp")).unwrap();
    let client = &mut mgr.clients[0];
    let names = vec!["comment".to_string(), "galaxy".to_string()];
    assert!(!client.on_initialize_result(&names));
    assert_eq!(client.legend().len(), 0);
}

#[test]
fn end_to_end_scenario() {
    // StartLsp{name:"x", command:"echo-lsp"} with one open buffer
    let mut editor = Editor::new(1000, 2000);
    editor.finish_open("/work/demo.erl".to_string(), vec!["-module.".chars().collect()]);
    let params = start_params("x", "echo-lsp");
    let outcome = editor.handle_request(&Request::StartLsp { params });
    assert!(matches!(outcome, EditorOutcome::NeedsSpawn));
    // the caller spawned the process; the manager stores the client
    let params = start_params("x", "echo-lsp");
    let (t0, t1, t2) = editor.finish_start_lsp(&params).expect("no conflict");
    assert_eq!((t0, t1, t2), (1000, 1001, 1002));
    // the client framed its initialize request, id 0
    let client = &mut editor.lsp_client_manager.clients[0];
    let first = client.unsent_bytes();
    let batch = try_parse_frames(&first).unwrap();
    let init_body = String::from_utf8(batch.frames[0].clone()).unwrap();
    assert!(init_body.contains("\"method\":\"initialize\""));
    assert!(init_body.contains("\"id\":0"));
    assert!(init_body.contains("\"rootUri\":\"/work/project\""));
    // the mock server replies with a capabilities payload: legend ["comment"]
    let reply = b"{\"jsonrpc\":\"2.0\",\"id\":0,\"result\":{\"capabilities\":{\"semanticTokensProvider\":{\"legend\":{\"tokenTypes\":[\"comment\"]}}}}}".to_vec();
    let frames = client.on_stdout_data(&encode_frame(&reply)).expect("not malformed");
    assert_eq!(frames.len(), 1);
    // the caller resolves the id and hands over the legend
    assert!(matches!(client.begin_response(0), Some(OngoingRequest::Initialize)));
    assert!(client.on_initialize_result(&vec!["comment".to_string()]));
    // ... and emits NotifyLspStarted{"x"} back into the dispatch path
    let outcome = editor.handle_request(&Request::NotifyLspStarted {
        params: NotifyLspStartedParams { name: "x".to_string() },
    });
    assert!(matches!(outcome, EditorOutcome::Done));
    // the editor sent didOpen and then requested full semantic tokens
    let client = &mut editor.lsp_client_manager.clients[0];
    let buffered = client.unsent_bytes();
    let batch = try_parse_frames(&buffered).unwrap();
    let texts: Vec<String> = batch.frames.iter().map(|f| {
        String::from_utf8(f.clone()).unwrap()
    }).collect();
    assert!(texts[0].contains("\"method\":\"initialize\""));
    assert!(texts[1].contains("\"method\":\"initialized\""));
    assert!(texts[2].contains("\"method\":\"textDocument/didOpen\""));
    assert!(texts[2].contains("file:////work/demo.erl"));
    assert!(texts[2].contains("-module."));
    assert!(texts[3].contains("\"method\":\"textDocument/semanticTokens/full\""));
    assert!(texts[3].contains("\"id\":1"));
    // the mock server answers the request with one tuple (0,0,7,0,0)
    assert!(matches!(
        client.begin_response(1),
        Some(OngoingRequest::SemanticTokensFull { .. })
    ));
    let tokens = decode_semantic_tokens(&vec![0, 0, 7, 0, 0], client.legend()).unwrap();
    editor.needs_redraw = false;
    let outcome = editor.handle_request(&Request::NotifySemanticTokens {
        params: NotifySemanticTokensParams {
            buffer_id: BufferId::from_path("/work/demo.erl".to_string()),
            tokens,
        },
    });
    assert!(matches!(outcome, EditorOutcome::Done));
    // the buffer ends up with one stored token and the redraw flag set
    assert_eq!(editor.buffers[0].semantic_tokens.len(), 1);
    let t = editor.buffers[0].semantic_tokens[0];
    assert_eq!((t.line, t.column, t.token_len), (0, 0, 7));
    assert!(t.token_type == SemanticTokenType::Comment);
    assert!(editor.needs_redraw);
}

#[test]
fn process_exit_removes_client_and_tokens() {
    // the caller observes the exit; the manager then deregisters the
    // client and its three tokens without panicking
    let mut editor = Editor::new(0, 600);
    editor.finish_open("/tmp/a".to_string(), vec![vec!['a']]);
    let params = start_params("x", "echo-lsp");
    editor.finish_start_lsp(&params).unwrap();
    let (t0, t1, t2) = (0, 1, 2);
    let i = editor.lsp_client_manager.owner_of_token(t1).expect("token routed");
    editor.lsp_client_manager.remove_client(i);
    assert_eq!(editor.lsp_client_manager.clients.len(), 0);
    assert_eq!(editor.lsp_client_manager.owner_of_token(t0), None);
    assert_eq!(editor.lsp_client_manager.owner_of_token(t1), None);
    assert_eq!(editor.lsp_client_manager.owner_of_token(t2), None);
    // a later start may reuse the range without touching the old state
    let params2 = start_params("y", "echo-lsp");
    editor.finish_start_lsp(&params2).unwrap();
    assert_eq!(editor.lsp_client_manager.clients.len(), 1);
}

#[test]
fn response_body_classification() {
    let mut mgr = LspClientManager::new(0, 30);
    mgr.start(&start_params("x", "echo-lsp")).unwrap();
    let client = &mut mgr.clients[0];
    // a server-initiated notification is dropped, not fatal
    let step = client.on_response_body(
        &b"{\"jsonrpc\":\"2.0\",\"method\":\"window/logMessage\",\"params\":{}}".to_vec(),
    );
    assert!(matches!(step, mame::lsp::ResponseStep::Ignored));
    // a response to an unknown id is fatal
    let step = client.on_response_body(
        &b"{\"jsonrpc\":\"2.0\",\"id\":9,\"result\":null}".to_vec(),
    );
    assert!(matches!(step, mame::lsp::ResponseStep::Fatal));
    // the initialize response stores the legend and frames `initialized`
    let step = client.on_response_body(
        &b"{\"jsonrpc\":\"2.0\",\"id\":0,\"result\":{\"capabilities\":{\"semanticTokensProvider\":{\"legend\":{\"tokenTypes\":[\"keyword\"]}}}}}".to_vec(),
    );
    assert!(matches!(step, mame::lsp::ResponseStep::Initialized));
    assert!(client.legend()[0] == SemanticTokenType::Keyword);
}

#[test]
fn response_body_decodes_semantic_tokens() {
    let mut editor = Editor::new(0, 600);
    editor.finish_open("/tmp/a".to_string(), vec!["-module.".chars().collect()]);
    editor.finish_start_lsp(&start_params("x", "echo-lsp")).unwrap();
    let client = &mut editor.lsp_client_manager.clients[0];
    let init = b"{\"jsonrpc\":\"2.0\",\"id\":0,\"result\":{\"capabilities\":{\"semanticTokensProvider\":{\"legend\":{\"tokenTypes\":[\"comment\"]}}}}}".to_vec();
    assert!(matches!(client.on_response_body(&init), mame::lsp::ResponseStep::Initialized));
    editor.handle_request(&Request::NotifyLspStarted {
        params: NotifyLspStartedParams { name: "x".to_string() },
    });
    let client = &mut editor.lsp_client_manager.clients[0];
    let reply = b"{\"jsonrpc\":\"2.0\",\"id\":1,\"result\":{\"data\":[0,0,7,0,0]}}".to_vec();
    match client.on_response_body(&reply) {
        mame::lsp::ResponseStep::Tokens { buffer_id, tokens } => {
            assert_eq!(buffer_id.path, "/tmp/a");
            assert_eq!(tokens.len(), 1);
            assert_eq!((tokens[0].line, tokens[0].column, tokens[0].token_len), (0, 0, 7));
            assert!(tokens[0].token_type == SemanticTokenType::Comment);
        },
        _ => panic!("a well-formed tokens response decodes"),
    }
    // an error response is fatal
    let client = &mut editor.lsp_client_manager.clients[0];
    client.notify_did_open(&editor.buffers[0]);
    let err = b"{\"jsonrpc\":\"2.0\",\"id\":5,\"error\":{\"code\":1,\"message\":\"x\"}}".to_vec();
    assert!(matches!(client.on_response_body(&err), mame::lsp::ResponseStep::Fatal));
}

#[test]
fn did_open_escapes_the_buffer_text() {
    let mut editor = Editor::new(0, 600);
    editor.finish_open("/tmp/a".to_string(), vec!["say \"hi\"\\".chars().collect()]);
    editor.finish_start_lsp(&start_params("x", "echo-lsp")).unwrap();
    let client = &mut editor.lsp_client_manager.clients[0];
    editor.handle_request(&Request::NotifyLspStarted {
        params: NotifyLspStartedParams { name: "x".to_string() },
    });
    let text = String::from_utf8(editor.lsp_client_manager.clients[0].unsent_bytes()).unwrap();
    assert!(text.contains("say \\\"hi\\\"\\\\"));
}
