use monkeycli::{
    action_label, agent_system_prompt, agent_turn_messages, build_agent_prompt, classify_diff_line, count_actions,
    count_diff_stats, extract_json_object, fallback_model, file_operation, is_confirmation,
    is_supported_text_file, normalize_path, one_shot_messages, preferred_model, preview_change,
    resolve_host, response_preview, should_skip, smoke_test_messages, system_prompt, trim_text,
    AgentAction, AgentSession, ChangeAction, ChangePreview, ChatStream, CliError, ContextBuilder,
    DiffLineKind, EditPlan, FileChange, FileOperation, Message, Mode, OllamaClient, PlanError,
    ReplAction, ReplSession, path_sorts_before, sorted_path_order,
};
use std::path::Path;

fn change(path: &str, action: ChangeAction, content: Option<&str>) -> FileChange {
    FileChange {
        path: path.to_string(),
        action,
        content: content.map(|c| c.to_string()),
        note: None,
    }
}

#[test]
fn system_prompts_differ_by_mode() {
    assert!(system_prompt(Mode::Assistant).starts_with("Tu es MonkeyCLI, un assistant technique"));
    assert!(system_prompt(Mode::Code).starts_with("Tu es MonkeyCLI en mode code."));
    assert_ne!(system_prompt(Mode::Assistant), system_prompt(Mode::Code));
}

#[test]
fn agent_prompt_asks_for_strict_json() {
    let p = agent_system_prompt();
    assert!(p.starts_with("Tu es MonkeyCLI en mode agent."));
    assert!(p.contains("\"action\": \"create\"|\"update\"|\"delete\""));
    assert!(p.ends_with("garde les changements minimaux."));
}

#[test]
fn message_constructors_set_roles() {
    let s = Message::system("rules");
    let u = Message::user("question");
    let a = Message::assistant("answer");
    assert_eq!((s.role(), s.content()), ("system", "rules"));
    assert_eq!((u.role(), u.content()), ("user", "question"));
    assert_eq!((a.role(), a.content()), ("assistant", "answer"));
}

#[test]
fn client_host_loses_trailing_slashes() {
    let c = OllamaClient::new("http://localhost:11434///");
    assert_eq!(c.host(), "http://localhost:11434");
    assert_eq!(c.chat_url(), "http://localhost:11434/api/chat");
    assert_eq!(c.tags_url(), "http://localhost:11434/api/tags");
    let again = OllamaClient::new(c.host());
    assert_eq!(again.host(), c.host());
    assert_eq!(OllamaClient::new("///").host(), "");
}

#[test]
fn json_object_is_found_inside_noise() {
    let text = "Voici le plan:\n{\"summary\": \"x\", \"changes\": [{\"path\": \"a\"}]}\nfin } {";
    assert_eq!(
        extract_json_object(text),
        Some("{\"summary\": \"x\", \"changes\": [{\"path\": \"a\"}]}")
    );
}

#[test]
fn json_braces_inside_strings_do_not_count() {
    let text = "{\"a\": \"}\", \"b\": \"\\\"}\"} tail";
    assert_eq!(extract_json_object(text), Some("{\"a\": \"}\", \"b\": \"\\\"}\"}"));
}

#[test]
fn json_absent_or_unclosed() {
    assert_eq!(extract_json_object("no json here"), None);
    assert_eq!(extract_json_object("{\"a\": {\"b\": 1}"), None);
    assert_eq!(extract_json_object(""), None);
}

#[test]
fn json_extraction_is_idempotent() {
    let text = "prefix é {\"k\": [1, {\"n\": \"ü{\"}]} suffix";
    let once = extract_json_object(text).unwrap();
    assert_eq!(extract_json_object(once), Some(once));
    assert!(once.starts_with('{') && once.ends_with('}'));
}

#[test]
fn diff_stats_skip_file_headers() {
    let diff = "--- a/x\n+++ b/x\n@@ -1,2 +1,2 @@\n-old\n+new\n+more\n context\n";
    assert_eq!(count_diff_stats(diff), (2, 1));
    assert_eq!(count_diff_stats(""), (0, 0));
    assert_eq!(count_diff_stats("+++\n---\n++\n--\n"), (1, 1));
}

#[test]
fn diff_lines_are_classified() {
    assert_eq!(classify_diff_line("+++ b/x"), DiffLineKind::FileHeader);
    assert_eq!(classify_diff_line("--- a/x"), DiffLineKind::FileHeader);
    assert_eq!(classify_diff_line("@@ -1 +1 @@"), DiffLineKind::HunkHeader);
    assert_eq!(classify_diff_line("+added"), DiffLineKind::Added);
    assert_eq!(classify_diff_line("-removed"), DiffLineKind::Removed);
    assert_eq!(classify_diff_line(" same"), DiffLineKind::Context);
    assert_eq!(classify_diff_line(""), DiffLineKind::Context);
}

#[test]
fn trim_text_keeps_short_text() {
    assert_eq!(trim_text("hello", 5), "hello");
    assert_eq!(trim_text("", 0), "");
}

#[test]
fn trim_text_cuts_on_char_boundary() {
    assert_eq!(trim_text("hello world", 5), "hello\n... [truncated] ...");
    // "é" takes two bytes: a cut at 3 bytes falls back to 2.
    assert_eq!(trim_text("ééé", 3), "é\n... [truncated] ...");
    assert_eq!(trim_text("é", 1), "\n... [truncated] ...");
}

#[test]
fn skipped_entries() {
    assert!(should_skip(".git", false));
    assert!(should_skip("node_modules", true));
    assert!(should_skip("Cargo.lock", true));
    assert!(!should_skip("Cargo.lock", false));
    assert!(!should_skip("src", false));
    assert!(!should_skip("main.rs", true));
}

#[test]
fn text_files_by_extension() {
    assert!(is_supported_text_file("main.rs"));
    assert!(is_supported_text_file("README.MD"));
    assert!(is_supported_text_file("script.Ps1"));
    assert!(is_supported_text_file(".hidden.toml"));
    assert!(!is_supported_text_file(".rs"));
    assert!(!is_supported_text_file("Makefile"));
    assert!(!is_supported_text_file("archive.tar.gz"));
    assert!(!is_supported_text_file("trailing."));
    assert!(!is_supported_text_file(".."));
}

#[test]
fn context_lists_files_in_order() {
    let mut b = ContextBuilder::new("/work");
    assert!(b.accepts_more());
    b.add_file("src\\main.rs", "fn main() {}");
    b.add_file("README.md", "hi");
    assert_eq!(
        b.finish(),
        "Workspace root: /work\nUse only these files as source of truth.\n\nFiles:\n\n--- FILE: src/main.rs\nfn main() {}\n\n--- FILE: README.md\nhi\n"
    );
}

#[test]
fn context_without_files_says_so() {
    let b = ContextBuilder::new("/w");
    assert_eq!(
        b.finish(),
        "Workspace root: /w\nUse only these files as source of truth.\n\nFiles:\n\n(no readable text files found)\n"
    );
}

#[test]
fn context_stops_after_max_files() {
    let mut b = ContextBuilder::new("/w");
    let mut added = 0;
    while b.accepts_more() {
        b.add_file("f.txt", "x");
        added += 1;
    }
    assert_eq!(added, 24);
}

#[test]
fn context_stops_after_max_bytes() {
    let mut b = ContextBuilder::new("/w");
    let big = "a".repeat(30_000);
    let mut added = 0;
    while b.accepts_more() {
        b.add_file("big.txt", &big);
        added += 1;
    }
    // Each section holds 20_000 bytes of text plus its frame.
    assert_eq!(added, 6);
    assert!(b.finish().contains("... [truncated] ..."));
}

#[test]
fn stream_reassembles_split_lines() {
    let mut s = ChatStream::new();
    s.push_bytes(b"{\"message\":{\"content\":\"Bon");
    assert_eq!(s.next_line(), None);
    s.push_bytes(b"jour\"}}\n\n  \n{\"done\":true}\n{\"x\"");
    assert_eq!(s.next_line().as_deref(), Some("{\"message\":{\"content\":\"Bonjour\"}}"));
    assert_eq!(s.next_line().as_deref(), Some("{\"done\":true}"));
    assert_eq!(s.next_line(), None);
    assert_eq!(s.tail().as_deref(), Some("{\"x\""));
}

#[test]
fn stream_decodes_invalid_bytes_leniently() {
    let mut s = ChatStream::new();
    s.push_bytes(&[0x61, 0xff, 0x0a]);
    assert_eq!(s.next_line().as_deref(), Some("a\u{fffd}"));
    assert_eq!(s.tail(), None);
}

#[test]
fn stream_records_content_until_done() {
    let mut s = ChatStream::new();
    assert!(s.record_chunk(Some("Hel"), None));
    assert!(s.record_chunk(Some("lo"), Some(false)));
    assert!(!s.record_chunk(None, Some(true)));
    assert_eq!(s.output(), "Hello");
}

#[test]
fn agent_session_commands() {
    let mut s = AgentSession::new("llama3.1");
    assert!(matches!(s.handle_line("   \n"), AgentAction::Skip));
    assert!(matches!(s.handle_line("/quit\n"), AgentAction::Exit));
    assert!(matches!(s.handle_line("/help"), AgentAction::ShowHelp));
    assert!(matches!(s.handle_line("/model   "), AgentAction::Run(ref r) if r == "/model"));
    assert!(matches!(s.handle_line("/model qwen2 \n"), AgentAction::ModelChanged));
    assert_eq!(s.model(), "qwen2");
    assert!(matches!(s.handle_line("/model /model mistral"), AgentAction::ModelChanged));
    assert_eq!(s.model(), "mistral");
    assert!(matches!(s.handle_line("  add a README  "), AgentAction::Run(ref r) if r == "add a README"));
    assert!(matches!(s.handle_line("/clear"), AgentAction::Run(ref r) if r == "/clear"));
}

#[test]
fn repl_session_keeps_history() {
    let mut s = ReplSession::new("m", Mode::Code);
    assert_eq!(s.history().len(), 1);
    assert_eq!(s.history()[0].content(), system_prompt(Mode::Code));
    assert!(matches!(s.handle_line(" what is rust? "), ReplAction::Ask));
    s.record_answer("a language");
    assert_eq!(s.history().len(), 3);
    assert_eq!(s.history()[1].role(), "user");
    assert_eq!(s.history()[1].content(), "what is rust?");
    assert_eq!(s.history()[2].role(), "assistant");
    assert!(matches!(s.handle_line("/models"), ReplAction::ListModels));
    assert!(matches!(s.handle_line("/model other"), ReplAction::ModelChanged));
    assert_eq!(s.model(), "other");
    assert!(matches!(s.handle_line("/clear"), ReplAction::Cleared));
    assert_eq!(s.history().len(), 1);
    assert_eq!(s.history()[0].role(), "system");
    assert!(matches!(s.handle_line("/exit"), ReplAction::Exit));
    assert!(matches!(s.handle_line(""), ReplAction::Skip));
    assert!(matches!(s.handle_line("/help"), ReplAction::ShowHelp));
}

#[test]
fn paths_join_under_root() {
    assert_eq!(normalize_path("/work", "src/main.rs"), "/work/src/main.rs");
    assert_eq!(normalize_path("/work/", "a.txt"), "/work/a.txt");
    assert_eq!(normalize_path("", "a.txt"), "a.txt");
    assert_eq!(normalize_path("/work", "/etc/hosts"), "/etc/hosts");
    assert_eq!(normalize_path("/work", ""), "/work/");
}

#[test]
fn file_operations_follow_actions() {
    match file_operation(&change("a/b.txt", ChangeAction::Create, Some("hi")), "/w") {
        Ok(FileOperation::Write { path, content }) => {
            assert_eq!(path, "/w/a/b.txt");
            assert_eq!(content, "hi");
        }
        other => panic!("unexpected {:?}", other),
    }
    match file_operation(&change("old.txt", ChangeAction::Delete, None), "/w") {
        Ok(FileOperation::Remove { path }) => assert_eq!(path, "/w/old.txt"),
        other => panic!("unexpected {:?}", other),
    }
    match file_operation(&change("x.rs", ChangeAction::Update, None), "/w") {
        Err(PlanError::MissingContent { path }) => assert_eq!(path, "x.rs"),
        other => panic!("unexpected {:?}", other),
    }
}

#[test]
fn confirmation_words() {
    assert!(is_confirmation("y\n"));
    assert!(is_confirmation("  YES "));
    assert!(is_confirmation("Oui"));
    assert!(is_confirmation("o"));
    assert!(!is_confirmation("no"));
    assert!(!is_confirmation("yess"));
    assert!(!is_confirmation(""));
}

#[test]
fn preview_of_an_update_counts_lines() {
    let c = change("notes.txt", ChangeAction::Update, Some("a\nB\nc\nd\n"));
    match preview_change(&c, Some("a\nb\nc\n")) {
        ChangePreview::Edit { diff, additions, deletions } => {
            assert!(diff.starts_with("--- a/notes.txt\n+++ b/notes.txt\n"));
            assert_eq!((additions, deletions), (2, 1));
        }
        other => panic!("unexpected {:?}", other),
    }
}

#[test]
fn preview_of_creation_and_deletion() {
    let created = change("new.txt", ChangeAction::Create, Some("one\ntwo\n"));
    match preview_change(&created, None) {
        ChangePreview::Edit { additions, deletions, .. } => assert_eq!((additions, deletions), (2, 0)),
        other => panic!("unexpected {:?}", other),
    }
    let deleted = change("gone.txt", ChangeAction::Delete, None);
    match preview_change(&deleted, Some("x\ny\nz\n")) {
        ChangePreview::Removal { deletions, .. } => assert_eq!(deletions, 3),
        other => panic!("unexpected {:?}", other),
    }
    assert!(matches!(preview_change(&deleted, None), ChangePreview::MissingFile));
    let empty = change("e.txt", ChangeAction::Update, None);
    assert!(matches!(preview_change(&empty, Some("x")), ChangePreview::NoContent));
    let same = change("s.txt", ChangeAction::Update, Some("k\n"));
    match preview_change(&same, Some("k\n")) {
        ChangePreview::Edit { diff, additions, deletions } => {
            assert_eq!(diff, "");
            assert_eq!((additions, deletions), (0, 0));
        }
        other => panic!("unexpected {:?}", other),
    }
}

#[test]
fn plan_overview_counts_actions() {
    let plan = EditPlan {
        summary: "s".to_string(),
        changes: vec![
            change("a", ChangeAction::Create, Some("")),
            change("b", ChangeAction::Update, Some("")),
            change("c", ChangeAction::Create, Some("")),
            change("d", ChangeAction::Delete, None),
        ],
    };
    assert_eq!(count_actions(&plan), (2, 1, 1));
    assert_eq!(action_label(ChangeAction::Create), ("+", "CREATE"));
    assert_eq!(action_label(ChangeAction::Update), ("~", "UPDATE"));
    assert_eq!(action_label(ChangeAction::Delete), ("-", "DELETE"));
}

#[test]
fn agent_prompt_layout() {
    assert_eq!(
        build_agent_prompt("fix bug", "CTX"),
        "TASK:\nfix bug\n\nWORKSPACE CONTEXT:\nCTX\n\nReturn strict JSON only."
    );
}

#[test]
fn response_preview_cuts_long_answers() {
    assert_eq!(response_preview("short"), "short");
    let long = "x".repeat(600);
    let p = response_preview(&long);
    assert_eq!(p.len(), 503);
    assert!(p.ends_with("..."));
}

#[test]
fn host_and_model_resolution() {
    assert_eq!(resolve_host(Some("h1".into()), Some("h2".into())), "h1");
    assert_eq!(resolve_host(None, Some("h2".into())), "h2");
    assert_eq!(resolve_host(None, None), "http://127.0.0.1:11434");
    assert_eq!(preferred_model(Some(" ".into()), Some("env".into())).as_deref(), Some(" "));
    assert_eq!(preferred_model(None, Some("env".into())).as_deref(), Some("env"));
    assert_eq!(preferred_model(None, Some("  \t".into())), None);
    assert_eq!(preferred_model(None, None), None);
    assert_eq!(fallback_model(Some("local".into())), "local");
    assert_eq!(fallback_model(None), "llama3.1");
}

#[test]
fn one_shot_conversation() {
    let words = vec!["hello".to_string(), "world".to_string()];
    let ms = one_shot_messages(Mode::Assistant, &words).unwrap();
    assert_eq!(ms.len(), 2);
    assert_eq!(ms[0].content(), system_prompt(Mode::Assistant));
    assert_eq!((ms[1].role(), ms[1].content()), ("user", "hello world"));
    let blank = vec![" ".to_string(), "".to_string()];
    assert_eq!(one_shot_messages(Mode::Code, &blank).err(), Some(CliError::PromptMissing));
}

#[test]
fn smoke_test_conversation() {
    let ms = smoke_test_messages();
    assert_eq!((ms[0].role(), ms[0].content()), ("system", "Tu reponds uniquement OK."));
    assert_eq!((ms[1].role(), ms[1].content()), ("user", "ping"));
}

#[test]
fn counted_lines_match_displayed_lines() {
    let c = change("f.txt", ChangeAction::Update, Some("1\n2\n+3\n---4\n5\n"));
    let diff = match preview_change(&c, Some("1\n--2\n3\n4\n5\n")) {
        ChangePreview::Edit { diff, .. } => diff,
        other => panic!("unexpected {:?}", other),
    };
    let added = diff.lines().filter(|l| classify_diff_line(l) == DiffLineKind::Added).count();
    let removed = diff.lines().filter(|l| classify_diff_line(l) == DiffLineKind::Removed).count();
    assert_eq!(count_diff_stats(&diff), (added, removed));
    assert!(added > 0 && removed > 0);
}

#[test]
fn deleting_a_file_previews_every_line_removed() {
    let d = change("a.txt", ChangeAction::Delete, None);
    match preview_change(&d, Some("only\n")) {
        ChangePreview::Removal { diff, deletions } => {
            assert_eq!(deletions, 1);
            assert!(diff.contains("-only"));
        }
        other => panic!("unexpected {:?}", other),
    }
}

#[test]
fn paths_sort_component_by_component() {
    let names = ["b.rs", "a/b.rs", "a.rs", "a-b/x.md", "a/a/z.txt", "a", "A.rs"];
    let keys: Vec<Vec<u8>> = names.iter().map(|n| n.as_bytes().to_vec()).collect();
    let order = sorted_path_order(&keys);
    let sorted: Vec<&str> = order.iter().map(|&i| names[i]).collect();
    assert_eq!(sorted, vec!["A.rs", "a", "a/a/z.txt", "a/b.rs", "a-b/x.md", "a.rs", "b.rs"]);
    let mut by_path: Vec<&str> = names.to_vec();
    by_path.sort_by(|l, r| Path::new(l).cmp(Path::new(r)));
    assert_eq!(sorted, by_path);
    assert!(path_sorts_before(&b"a/b".to_vec(), &b"a.b".to_vec()));
    assert!(!path_sorts_before(&b"a".to_vec(), &b"a".to_vec()));
}

#[test]
fn equal_path_keys_keep_their_order() {
    let keys = vec![b"x".to_vec(), b"a".to_vec(), b"x".to_vec(), b"a".to_vec()];
    assert_eq!(sorted_path_order(&keys), vec![1, 3, 0, 2]);
    assert_eq!(sorted_path_order(&Vec::new()), Vec::<usize>::new());
}

fn drain(stream: &mut ChatStream) -> Vec<String> {
    let mut lines = Vec::new();
    while let Some(line) = stream.next_line() {
        lines.push(line);
    }
    lines
}

#[test]
fn stream_lines_do_not_depend_on_chunking() {
    let body = "{\"a\":\"é\"}\n\n{\"b\":1}\r\n  {\"c\":2}  \n{\"tail\":3}".as_bytes();
    let mut whole = ChatStream::new();
    whole.push_bytes(body);
    let mut expected = drain(&mut whole);
    expected.extend(whole.tail());
    for cut in [1usize, 5, 12, 13, 20, body.len() - 1] {
        if !std::str::from_utf8(&body[..cut]).is_ok() {
            continue;
        }
        let mut split = ChatStream::new();
        split.push_bytes(&body[..cut]);
        let mut got = drain(&mut split);
        split.push_bytes(&body[cut..]);
        got.extend(drain(&mut split));
        got.extend(split.tail());
        assert_eq!(got, expected);
    }
    assert_eq!(expected, vec!["{\"a\":\"é\"}", "{\"b\":1}", "{\"c\":2}", "{\"tail\":3}"]);
}

#[test]
fn repl_history_has_a_single_system_message() {
    let mut s = ReplSession::new("m", Mode::Assistant);
    for line in ["hello", "/model x", "again", "/clear", "more"] {
        if let ReplAction::Ask = s.handle_line(line) {
            s.record_answer("ok");
        }
    }
    let roles: Vec<&str> = s.history().iter().map(|m| m.role()).collect();
    assert_eq!(roles, vec!["system", "user", "assistant"]);
}

#[test]
fn agent_turn_conversation() {
    let ms = agent_turn_messages("fix bug", "CTX");
    assert_eq!(ms.len(), 2);
    assert_eq!((ms[0].role(), ms[0].content()), ("system", agent_system_prompt()));
    assert_eq!(ms[1].role(), "user");
    assert_eq!(ms[1].content(), build_agent_prompt("fix bug", "CTX"));
}

#[test]
fn stream_lines_do_not_depend_on_many_cuts() {
    let body = "{\"a\":1}\n{\"b\":\"ü\"}\n\n {\"c\":3} \n{\"d\"".as_bytes();
    let mut whole = ChatStream::new();
    whole.push_bytes(body);
    let mut expected = drain(&mut whole);
    expected.extend(whole.tail());
    // every chunk of three bytes or less, cut where a character ends
    let mut got = Vec::new();
    let mut stream = ChatStream::new();
    let mut start = 0;
    while start < body.len() {
        let mut end = (start + 3).min(body.len());
        while std::str::from_utf8(&body[start..end]).is_err() {
            end += 1;
        }
        stream.push_bytes(&body[start..end]);
        got.extend(drain(&mut stream));
        start = end;
    }
    got.extend(stream.tail());
    assert_eq!(got, expected);
    assert_eq!(expected.len(), 4);
}
