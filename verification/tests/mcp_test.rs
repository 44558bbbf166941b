use pankh::agent::CodeBlock;
use pankh::llmstxt::LlmsDoc;
use pankh::mcp::{
    classify_method, classify_tool, code_blocks_listing, matching_headings, prompt_text,
    read_markdown_section, strip_file_uri, McpMethod, McpTool,
};

#[test]
fn methods_and_notifications() {
    assert_eq!(classify_method("initialize"), McpMethod::Initialize);
    assert_eq!(classify_method("tools/call"), McpMethod::ToolsCall);
    assert_eq!(classify_method("$/cancelRequest"), McpMethod::Notification);
    assert_eq!(classify_method("notifications/initialized"), McpMethod::Notification);
    assert_eq!(classify_method("bogus"), McpMethod::Unknown);
    assert_eq!(classify_tool("chunk_markdown"), McpTool::Chunk);
    assert_eq!(classify_tool("nope"), McpTool::Unknown);
}

#[test]
fn file_uris_lose_their_scheme() {
    assert_eq!(strip_file_uri("file:///tmp/a.md"), Ok("tmp/a.md".to_string()));
    assert_eq!(strip_file_uri("file://docs/a.md"), Ok("docs/a.md".to_string()));
    assert_eq!(strip_file_uri("README.md"), Ok("README.md".to_string()));
    assert_eq!(strip_file_uri("file:///   "), Err("Path argument cannot be empty".to_string()));
    assert_eq!(strip_file_uri(""), Err("Path argument cannot be empty".to_string()));
}

#[test]
fn sections_are_read_under_their_heading() {
    let doc = "# Intro\ntext\n## Installation\nstep 1\nstep 2\n## Usage\nrun";
    assert_eq!(read_markdown_section(doc, "install"), "## Installation\nstep 1\nstep 2");
    assert_eq!(read_markdown_section(doc, "USAGE"), "## Usage\nrun");
    assert_eq!(read_markdown_section(doc, "missing"), "");
}

#[test]
fn headings_match_case_insensitively() {
    let found = matching_headings("# Install\n## Setup\n# Installation notes", "INSTALL");
    let titles: Vec<&str> = found.iter().map(|h| h.title.as_str()).collect();
    assert_eq!(titles, vec!["Install", "Installation notes"]);
}

#[test]
fn code_blocks_are_listed_for_the_server() {
    let blocks = vec![
        CodeBlock { language: "rust".to_string(), code: "fn a() {}".to_string() },
        CodeBlock { language: "text".to_string(), code: "x".to_string() },
    ];
    assert_eq!(code_blocks_listing(&blocks), "// Lang: rust\nfn a() {}\n---\n// Lang: text\nx");
    assert_eq!(code_blocks_listing(&Vec::new()), "");
}

#[test]
fn prompts_have_their_texts() {
    assert_eq!(
        prompt_text("summarize_markdown", "clean", "{}", 0),
        Some("Please provide a concise summary of the following Markdown document:\n\nclean".to_string())
    );
    assert_eq!(
        prompt_text("extract_architecture_decisions", "c", "{tree}", 3),
        Some("Analyze the architecture decisions from this outline:\n\nTree: {tree}\n\nCode Snippets Count: 3".to_string())
    );
    assert_eq!(prompt_text("other", "c", "t", 0), None);
}

use pankh::mcp::{answer_gathered, answer_request, decide_request, parse_request, McpReply, McpStep};

#[test]
fn invalid_json_gets_the_parse_error() {
    let req = parse_request("invalid json {");
    assert!(req.is_none());
    match decide_request(&req) {
        McpStep::Reply(McpReply::Error { code, message }) => {
            assert_eq!(code, -32700);
            assert_eq!(message, "Parse error");
        }
        other => panic!("unexpected {:?}", other),
    }
}

#[test]
fn notifications_get_no_reply() {
    for raw in [
        r#"{"jsonrpc":"2.0","method":"$/cancelRequest","params":{"requestId":1}}"#,
        r#"{"jsonrpc":"2.0","method":"notifications/initialized","params":{}}"#,
    ] {
        assert!(matches!(decide_request(&parse_request(raw)), McpStep::Silent));
    }
}

#[test]
fn requests_are_read_and_decided() {
    let req = parse_request(r#"{"jsonrpc":"2.0","id":2,"method":"tools/list","params":{}}"#);
    assert_eq!(req.as_ref().unwrap().id.as_deref(), Some("2"));
    assert!(matches!(decide_request(&req), McpStep::Reply(McpReply::ToolsList)));
    let req = parse_request(r#"{"id":"a","params":{}}"#);
    assert!(matches!(decide_request(&req), McpStep::Reply(McpReply::Error { code: -32600, .. })));
    let req = parse_request(r#"{"id":1,"method":"nope"}"#);
    assert!(matches!(decide_request(&req), McpStep::Reply(McpReply::Error { code: -32601, .. })));
    let req = parse_request(
        r#"{"id":3,"method":"tools/call","params":{"name":"search_markdown_sections","arguments":{"path":"  ","query":"Inst"}}}"#,
    );
    match decide_request(&req) {
        McpStep::Reply(McpReply::IndexSearch { query }) => assert_eq!(query, "Inst"),
        other => panic!("unexpected {:?}", other),
    }
}

#[test]
fn answers_follow_the_tool() {
    let req = parse_request(
        r#"{"id":4,"method":"tools/call","params":{"name":"read_clean_markdown","arguments":{"path":"doc.md"}}}"#,
    )
    .unwrap();
    match decide_request(&Some(req.clone())) {
        McpStep::Read { path } => assert_eq!(path, "doc.md"),
        other => panic!("unexpected {:?}", other),
    }
    match answer_request(&req, Ok("# Title\n\nBody".to_string())) {
        McpReply::ToolText { text } => assert_eq!(text, "# Title\n\nBody"),
        other => panic!("unexpected {:?}", other),
    }
    match answer_request(&req, Err("File not found or invalid path: doc.md".to_string())) {
        McpReply::Error { code, message } => {
            assert_eq!(code, -32602);
            assert_eq!(message, "File not found or invalid path: doc.md");
        }
        other => panic!("unexpected {:?}", other),
    }
    let unknown = parse_request(r#"{"id":5,"method":"tools/call","params":{"name":"foo","arguments":{"path":"d.md"}}}"#)
        .unwrap();
    match answer_request(&unknown, Ok("x".to_string())) {
        McpReply::Error { code, message } => {
            assert_eq!(code, -32601);
            assert_eq!(message, "Unknown tool: foo");
        }
        other => panic!("unexpected {:?}", other),
    }
    let chunk = parse_request(r#"{"id":6,"method":"tools/call","params":{"name":"chunk_markdown","arguments":{"path":"d.md"}}}"#)
        .unwrap();
    match answer_request(&chunk, Ok("# A\ntext".to_string())) {
        McpReply::ToolChunks { chunks } => assert_eq!(chunks.len(), 1),
        other => panic!("unexpected {:?}", other),
    }
    let prompt = parse_request(r#"{"id":7,"method":"prompts/get","params":{"name":"nope","arguments":{"path":"d.md"}}}"#)
        .unwrap();
    match answer_request(&prompt, Ok("x".to_string())) {
        McpReply::Error { code, message } => {
            assert_eq!(code, -32602);
            assert_eq!(message, "Unknown prompt: nope");
        }
        other => panic!("unexpected {:?}", other),
    }
}

fn llms_docs() -> Vec<LlmsDoc> {
    vec![LlmsDoc { path: "docs/guide.md".to_string(), content: "# Guide\n\nInstall it.".to_string() }]
}

#[test]
fn test_mcp_llms_txt_resources_and_tools() {
    let list = parse_request(r#"{"jsonrpc":"2.0","id":11,"method":"resources/list","params":{}}"#);
    match decide_request(&list) {
        McpStep::Reply(McpReply::ResourcesList { uris }) => {
            assert!(uris.iter().any(|u| u == "llms://index"));
            assert!(uris.iter().any(|u| u == "llms://full"));
        }
        other => panic!("unexpected {:?}", other),
    }

    let read = parse_request(r#"{"jsonrpc":"2.0","id":12,"method":"resources/read","params":{"uri":"llms://index"}}"#);
    assert!(matches!(decide_request(&read), McpStep::Gather));
    match answer_gathered(read.as_ref().unwrap(), &llms_docs()) {
        McpReply::Resource { uri, text } => {
            assert_eq!(uri, "llms://index");
            assert!(text.contains("Project Documentation Index"));
            assert!(text.contains("- [Guide](docs/guide.md)"));
        }
        other => panic!("unexpected {:?}", other),
    }

    let tool = parse_request(
        r#"{"jsonrpc":"2.0","id":13,"method":"tools/call","params":{"name":"generate_llms_txt","arguments":{}}}"#,
    );
    assert!(matches!(decide_request(&tool), McpStep::Gather));
    match answer_gathered(tool.as_ref().unwrap(), &llms_docs()) {
        McpReply::Llms { output, text } => {
            assert!(text.contains("Successfully generated llms.txt"));
            assert_eq!(output.files_processed, 1);
        }
        other => panic!("unexpected {:?}", other),
    }
}

#[test]
fn llms_full_resource_gives_the_clean_payload() {
    let read = parse_request(r#"{"id":14,"method":"resources/read","params":{"uri":"llms://full"}}"#);
    match answer_gathered(read.as_ref().unwrap(), &llms_docs()) {
        McpReply::Resource { text, .. } => {
            assert!(text.starts_with("# Project Documentation\n\n## Guide\nSource: docs/guide.md\n\n"));
            assert!(text.contains("Install it."));
        }
        other => panic!("unexpected {:?}", other),
    }
    let other = parse_request(r#"{"id":15,"method":"resources/read","params":{"uri":"file:///tmp/a.md"}}"#);
    match decide_request(&other) {
        McpStep::Read { path } => assert_eq!(path, "file:///tmp/a.md"),
        x => panic!("unexpected {:?}", x),
    }
}
