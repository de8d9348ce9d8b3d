//! The state of the desktop client.

use deepseek_swarm::gui::chat::{
    in_progress_sections, message_card, CardSide, ChatMessage, EngineEvent,
};
use deepseek_swarm::gui::errors::{friendly_error_message, friendly_from_lowercase};
use deepseek_swarm::gui::files::{
    directory_header, extension_of, file_row, file_type_color, file_type_icon, is_skipped_dir,
    is_text_le, sort_entries, tree_entries, FileEntry, MAX_TREE_ENTRIES,
};
use deepseek_swarm::gui::highlight::{
    assemble, highlight_code, layout_file, plain_text_layout_job, split_lines, CodeColors,
    TextRun, MAX_HIGHLIGHT_CHARS,
};
use deepseek_swarm::gui::settings::{settings_file, update_or_insert_line};
use deepseek_swarm::gui::state::{EngineStart, GuiApp};
use deepseek_swarm::gui::tabs::{tab_color, tab_label, Editor, MAX_TABS};
use deepseek_swarm::gui::theme::{
    first_readable, font_slots, DeepSeekColors, FontFamilies, FontSlot, Rgb, WHITE,
};

fn app(engine_ready: bool) -> GuiApp {
    GuiApp::new(engine_ready, "deepseek-chat".to_string(), "/work".to_string())
}

fn delta(content: &str) -> EngineEvent {
    EngineEvent::MessageDelta { content: content.to_string() }
}

#[test]
fn the_first_status_tells_of_the_engine() {
    assert_eq!(app(true).status, "Ready");
    assert_eq!(app(false).status, "Config error — check API key");
    assert_eq!(app(true).settings_model, "deepseek-chat");
}

#[test]
fn streamed_replies_are_recorded() {
    let mut app = app(true);
    app.poll_engine_events(vec![
        EngineEvent::MessageStarted,
        EngineEvent::ThinkingStarted,
        EngineEvent::ThinkingDelta { content: "hm".to_string() },
        EngineEvent::ThinkingComplete,
        delta("Hel"),
        delta("lo"),
    ]);
    assert!(app.is_streaming);
    assert!(app.shows_progress());
    assert_eq!(app.current_assistant_text, "Hello");
    app.apply_event(EngineEvent::MessageComplete);
    assert!(!app.is_streaming);
    assert!(!app.shows_progress());
    assert_eq!(app.status, "Ready");
    match &app.messages[0] {
        ChatMessage::Assistant { text, thinking } => {
            assert_eq!(text, "Hello");
            assert_eq!(thinking.as_deref(), Some("hm"));
        }
        other => panic!("unexpected entry {other:?}"),
    }
    // An empty reply leaves no entry.
    app.poll_engine_events(vec![EngineEvent::MessageStarted, EngineEvent::MessageComplete]);
    assert_eq!(app.messages.len(), 1);
}

#[test]
fn tool_calls_and_errors_are_shown() {
    let mut app = app(true);
    app.poll_engine_events(vec![
        EngineEvent::ToolCallStarted { name: "ls".to_string(), input: "{}".to_string() },
        EngineEvent::ToolCallComplete { name: "ls".to_string(), result: Ok("a b".to_string()) },
        EngineEvent::ToolCallComplete { name: "ls".to_string(), result: Err("no".to_string()) },
        EngineEvent::Status { message: "busy".to_string() },
        EngineEvent::Other,
    ]);
    assert_eq!(app.status, "busy");
    assert!(matches!(&app.messages[2], ChatMessage::ToolResult { output, .. } if output == "Error: no"));
    app.is_streaming = true;
    app.apply_event(EngineEvent::Error { message: "HTTP 429".to_string() });
    assert!(!app.is_streaming);
    assert_eq!(app.status, "请求过于频繁，请稍后重试。");
    assert!(matches!(&app.messages[3], ChatMessage::SystemError { text } if text == "请求过于频繁，请稍后重试。"));
}

#[test]
fn messages_are_trimmed_and_sent_once() {
    let mut app = app(true);
    app.input = "  hi \n".to_string();
    assert_eq!(app.send_message().as_deref(), Some("hi"));
    assert_eq!(app.input, "");
    assert_eq!(app.status, "Thinking...");
    assert_eq!(app.messages.len(), 1);
    assert_eq!(app.send_message(), None);
    app.is_streaming = true;
    app.input = "more".to_string();
    assert_eq!(app.send_message(), None);
    assert_eq!(app.input, "more");
}

#[test]
fn without_an_engine_the_user_is_told() {
    let mut app = app(false);
    app.input = "hi".to_string();
    assert_eq!(app.send_message(), None);
    assert_eq!(app.status, "Engine not ready");
    assert!(matches!(&app.messages[1], ChatMessage::SystemError { text }
        if text == "Engine not ready. Please set your API key in Settings (⚙) and save."));
}

#[test]
fn engines_can_be_started_anew() {
    let mut app = app(false);
    app.restart_engine(EngineStart::Ready);
    assert!(app.engine_ready);
    assert_eq!(app.status, "Ready");
    app.restart_engine(EngineStart::EngineFailed("x".to_string()));
    assert!(!app.engine_ready);
    assert_eq!(app.status, "Engine start failed: x");
    app.restart_engine(EngineStart::ConfigFailed("y".to_string()));
    assert_eq!(app.status, "Config reload failed: y");
}

#[test]
fn settings_can_be_saved() {
    let mut app = app(true);
    app.set_settings_visible(true);
    assert!(!app.settings_saved(Err("full".to_string())));
    assert_eq!(app.status, "Save failed: full");
    assert!(app.show_settings);
    assert!(app.settings_saved(Ok(())));
    assert_eq!(app.status, "Settings saved, restarting engine...");
    assert!(!app.show_settings);
}

fn approval(id: &str) -> EngineEvent {
    EngineEvent::ApprovalRequired {
        id: id.to_string(),
        tool_name: "sh".to_string(),
        description: "rm".to_string(),
    }
}

#[test]
fn approvals_are_answered_from_the_last() {
    let mut app = app(true);
    app.poll_engine_events(vec![approval("a"), approval("b"), approval("c")]);
    let resolved = app.resolve_approvals(vec![(0, true), (2, false)]);
    assert!(resolved.acted);
    let seen: Vec<(String, bool)> = resolved.replies.into_iter().map(|r| (r.id, r.approved)).collect();
    assert_eq!(seen, vec![("c".to_string(), false), ("a".to_string(), true)]);
    assert_eq!(app.pending_approvals.len(), 1);
    assert_eq!(app.pending_approvals[0].id, "b");
    let untouched = app.resolve_approvals(vec![]);
    assert!(!untouched.acted);
    assert!(untouched.replies.is_empty());
    assert_eq!(app.pending_approvals.len(), 1);
    app.engine_ready = false;
    let unsent = app.resolve_approvals(vec![(0, true)]);
    assert!(unsent.acted, "a card was clicked though no engine hears of it");
    assert!(unsent.replies.is_empty());
    assert!(app.pending_approvals.is_empty());
}

#[test]
fn labels_follow_the_state() {
    let mut app = app(true);
    assert_eq!(app.status_label(), ("Ready".to_string(), DeepSeekColors::SUCCESS));
    assert_eq!(app.send_button_colors(), (DeepSeekColors::ACCENT, WHITE));
    app.status = "Error: x".to_string();
    assert_eq!(app.status_label().1, DeepSeekColors::ERROR);
    app.status = "Config error".to_string();
    assert_eq!(app.status_label().1, DeepSeekColors::ERROR);
    app.is_streaming = true;
    assert_eq!(app.status_label(), ("● Generating".to_string(), DeepSeekColors::ACCENT));
    assert_eq!(
        app.send_button_colors(),
        (DeepSeekColors::TEXT_SECONDARY, DeepSeekColors::BORDER)
    );
}

#[test]
fn sessions_can_be_cleared() {
    let mut app = app(true);
    app.change_workspace("/other".to_string());
    assert_eq!(app.workspace_path, "/other");
    assert!(matches!(&app.messages[0], ChatMessage::SystemError { text } if text == "Workspace changed to: /other"));
    app.clear_messages(false);
    assert!(app.messages.is_empty());
    assert!(!app.take_scroll());
    app.clear_messages(true);
    assert!(app.take_scroll());
    assert!(!app.take_scroll());
}

#[test]
fn entries_have_cards() {
    let user = message_card(&ChatMessage::User { text: "hi".to_string() });
    assert_eq!(user.side, CardSide::Right);
    assert_eq!(user.fill, DeepSeekColors::USER_BUBBLE);
    assert_eq!(user.sections[0].content, "hi");
    let reply = message_card(&ChatMessage::Assistant {
        text: "yes".to_string(),
        thinking: Some("hm".to_string()),
    });
    assert_eq!(reply.side, CardSide::Left);
    assert_eq!(reply.sections[0].heading.as_deref(), Some("Thinking"));
    assert_eq!(reply.sections[1].content, "yes");
    let call = message_card(&ChatMessage::ToolCall {
        name: "ls".to_string(),
        input: "{}".to_string(),
    });
    assert_eq!(call.sections[0].heading.as_deref(), Some("Tool: ls"));
    assert!(call.sections[0].monospace);
    let result = message_card(&ChatMessage::ToolResult {
        name: "ls".to_string(),
        output: "a".to_string(),
    });
    assert_eq!(result.sections[0].heading.as_deref(), Some("Result: ls"));
    assert_eq!(result.sections[0].color, DeepSeekColors::SUCCESS);
    let error = message_card(&ChatMessage::SystemError { text: "oh".to_string() });
    assert!(error.warning);
    assert_eq!(error.fill, DeepSeekColors::ERROR);
    let progress = in_progress_sections("", "hm");
    assert_eq!(progress[0].content, "hm");
    assert_eq!(progress[1].content, "● ● ●");
    assert_eq!(in_progress_sections("so", "")[0].content, "so");
}

#[test]
fn errors_are_told_in_plain_words() {
    let told = |raw: &str| friendly_error_message(raw);
    assert_eq!(
        told("Insufficient BALANCE"),
        "API 余额不足，请前往 DeepSeek 控制台充值后重试。"
    );
    assert_eq!(told("status 402, timeout"), told("insufficient balance"));
    assert_eq!(told("Unauthorized"), "API Key 无效或已过期，请在设置中重新配置。");
    assert_eq!(told("Invalid API Key"), told("401"));
    assert_eq!(told("Rate Limit"), "请求过于频繁，请稍后重试。");
    assert_eq!(told("403"), "无权访问该资源，请检查 API Key 权限。");
    assert_eq!(told("TIMED OUT"), "请求超时，请检查网络连接后重试。");
    assert_eq!(told("Network down"), "网络连接失败，请检查网络设置。");
    assert_eq!(told("CONNECTION refused"), told("network"));
    assert_eq!(told("Something Else"), "Something Else");
    assert_eq!(friendly_from_lowercase("RAW", "429"), "请求过于频繁，请稍后重试。");
    assert_eq!(friendly_from_lowercase("RAW", "raw"), "RAW");
}

#[test]
fn settings_lines_are_replaced_or_added() {
    let key = "default_text_model";
    assert_eq!(
        update_or_insert_line("a = 1\n", key, "m"),
        "a = 1\ndefault_text_model = \"m\"\n"
    );
    assert_eq!(
        update_or_insert_line("  default_text_model = \"x\"\r\nb = 2", key, "m"),
        "default_text_model = \"m\"\nb = 2\n"
    );
    assert_eq!(
        update_or_insert_line("default_text_model=\"x\"", key, "m"),
        "default_text_model=\"x\"\ndefault_text_model = \"m\"\n"
    );
    let once = update_or_insert_line("a = 1\ndefault_text_model = 3\n", key, "m");
    assert_eq!(update_or_insert_line(&once, key, "m"), once);
    assert_eq!(
        settings_file(None, "k", "m"),
        "api_key = \"k\"\ndefault_text_model = \"m\"\n"
    );
    assert_eq!(settings_file(Some(""), "k", "m"), "default_text_model = \"m\"\n");
    // A stray carriage return is read as part of a line ending the next time.
    let stray = update_or_insert_line("a\r", key, "m");
    assert_ne!(update_or_insert_line(&stray, key, "m"), stray);
}

fn entry(name: &str, is_dir: bool) -> FileEntry {
    FileEntry { name: name.to_string(), is_dir }
}

#[test]
fn directories_come_first() {
    let entries = vec![
        entry("b.txt", false),
        entry("src", true),
        entry("a.txt", false),
        entry("Zed", true),
        entry("ab", false),
    ];
    let names: Vec<String> = sort_entries(&entries).into_iter().map(|e| e.name).collect();
    assert_eq!(names, vec!["Zed", "src", "a.txt", "ab", "b.txt"]);
    let words = ["", "a", "ab", "b", "é", "z", "Z", "你", "\u{10000}"];
    for a in words {
        for b in words {
            assert_eq!(is_text_le(a, b), a <= b);
        }
    }
}

#[test]
fn large_directories_are_cut() {
    let entries: Vec<FileEntry> = (0..250).map(|i| entry(&format!("f{i:03}"), false)).collect();
    let shown = tree_entries(&entries);
    assert_eq!(shown.len(), MAX_TREE_ENTRIES);
    assert_eq!(shown[199].name, "f199");
    assert_eq!(tree_entries(&entries[..3]).len(), 3);
}

#[test]
fn files_have_icons_and_colors() {
    for name in ["a.rs", "Cargo.toml", ".bashrc", "noext", "a.b.c", "x.", "...", "a.YML"] {
        let expected = std::path::Path::new(name).extension().and_then(|e| e.to_str());
        assert_eq!(extension_of(name), expected, "{name}");
    }
    assert_eq!(extension_of(".."), None);
    assert_eq!(file_type_icon("a.rs"), "\u{e7a8}");
    assert_eq!(file_type_icon("a.yml"), "\u{e6a8}");
    assert_eq!(file_type_icon("a.ps1"), "\u{e795}");
    assert_eq!(file_type_icon("a"), "\u{ea7b}");
    assert_eq!(Rgb::from_code(file_type_color("a.rs")), Rgb { r: 222, g: 165, b: 132 });
    assert_eq!(Rgb::from_code(file_type_color("a.ts")), Rgb { r: 49, g: 120, b: 198 });
    assert_eq!(Rgb::from_code(file_type_color("a.bat")), Rgb { r: 137, g: 224, b: 81 });
    assert_eq!(Rgb::from_code(file_type_color("a")), Rgb { r: 156, g: 163, b: 175 });
    let row = file_row("a.rs", false);
    assert_eq!(row.display, "\u{e7a8} a.rs");
    assert_eq!(row.color, file_type_color("a.rs"));
    assert_eq!(file_row("a.rs", true).color, DeepSeekColors::TEXT_PRIMARY);
    assert!(is_skipped_dir("node_modules"));
    assert!(!is_skipped_dir("src"));
    assert_eq!(directory_header("src", true), "▾ src");
    assert_eq!(directory_header("src", false), "▸ src");
}

fn open(editor: &mut Editor, path: &str) {
    if !editor.activate_path(path) {
        editor.open_file(path.to_string(), format!("content of {path}"));
    }
}

fn paths(editor: &Editor) -> Vec<String> {
    (0..editor.len()).map(|i| editor.file(i).path.clone()).collect()
}

#[test]
fn files_open_once() {
    let mut editor = Editor::new();
    assert!(editor.active_file().is_none());
    open(&mut editor, "a");
    open(&mut editor, "b");
    assert_eq!(editor.active_index(), 1);
    open(&mut editor, "a");
    assert_eq!(editor.active_index(), 0);
    assert_eq!(editor.len(), 2);
    assert_eq!(editor.position("b"), Some(1));
    assert_eq!(editor.active_file().unwrap().content, "content of a");
}

#[test]
fn clean_tabs_make_room() {
    let mut editor = Editor::new();
    for i in 0..MAX_TABS {
        open(&mut editor, &format!("f{i}"));
    }
    editor.select(0);
    editor.edit("changed".to_string());
    open(&mut editor, "new");
    assert_eq!(editor.len(), MAX_TABS);
    assert_eq!(paths(&editor)[0], "f0");
    assert_eq!(paths(&editor)[1], "f2");
    assert_eq!(editor.active_file().unwrap().path, "new");
    // Tabs with unsaved changes are never closed for room.
    for i in 0..MAX_TABS {
        editor.select(i);
        editor.edit("changed".to_string());
    }
    open(&mut editor, "one more");
    assert_eq!(editor.len(), MAX_TABS + 1);
}

#[test]
fn tabs_close() {
    let mut editor = Editor::new();
    for path in ["a", "b", "c"] {
        open(&mut editor, path);
    }
    editor.close_tab(0);
    assert_eq!(paths(&editor), vec!["b", "c"]);
    assert_eq!(editor.active_index(), 1);
    editor.close_tab(1);
    assert_eq!(editor.active_index(), 0);
    editor.close_tab(0);
    assert_eq!(editor.len(), 0);
    assert_eq!(editor.active_index(), 0);
}

#[test]
fn deferred_requests_are_met() {
    let mut editor = Editor::new();
    for path in ["a", "b", "c"] {
        open(&mut editor, path);
    }
    editor.edit("text".to_string());
    assert!(editor.active_file().unwrap().dirty);
    editor.request_close_others(1);
    assert!(editor.settle());
    assert_eq!(paths(&editor), vec!["b"]);
    assert!(!editor.settle());
    editor.request_close_others(7);
    editor.settle();
    assert_eq!(editor.len(), 1);
    editor.request_close_all();
    editor.settle();
    assert_eq!(editor.len(), 0);
}

#[test]
fn saving_cleans_the_file() {
    let mut app = app(true);
    app.file_read("a".to_string(), Ok("x".to_string()), true);
    app.editor.edit("y".to_string());
    app.save_current_file(Err("disk".to_string()));
    assert_eq!(app.status, "Save failed: disk");
    assert!(app.editor.file(0).dirty);
    app.save_current_file(Ok(()));
    assert_eq!(app.status, "File saved");
    assert!(!app.editor.file(0).dirty);
    assert_eq!(app.editor.file(0).content, "y");
    app.file_read("b".to_string(), Err("gone".to_string()), false);
    assert_eq!(app.status, "File saved");
    app.file_read("b".to_string(), Err("gone".to_string()), true);
    assert_eq!(app.status, "Failed to read file: gone");
    assert_eq!(tab_label("a", true), "● a");
    assert_eq!(tab_label("a", false), "a");
    assert_eq!(tab_color(true), DeepSeekColors::TEXT_PRIMARY);
    assert_eq!(tab_color(false), DeepSeekColors::TEXT_SECONDARY);
}

fn joined(runs: &[TextRun]) -> String {
    runs.iter().map(|run| run.content.as_str()).collect()
}

#[test]
fn highlighting_keeps_the_text() {
    let colors = CodeColors::load();
    let code = "fn main() {\n    let x = \"é\"; // note\r\n}";
    for ext in ["rs", "py", "nonsense", ""] {
        let runs = highlight_code(code, ext, &colors);
        assert_eq!(joined(&runs), code);
        assert!(runs.iter().all(|run| run.color.is_some()));
    }
    let rust = highlight_code(code, "rs", &colors);
    let first = rust[0].color;
    assert!(rust.iter().any(|run| run.color != first), "code has several colors");
    let plain = highlight_code(code, "nonsense", &colors);
    assert_eq!(plain[0].color, Some(Rgb { r: 192, g: 197, b: 206 }));
    assert!(plain.iter().all(|run| run.color == plain[0].color));
    assert!(highlight_code("", "rs", &colors).is_empty());
}

#[test]
fn long_files_stay_plain() {
    let colors = CodeColors::load();
    let long = "a".repeat(MAX_HIGHLIGHT_CHARS + 1);
    let runs = layout_file(&long, "rs", &colors);
    assert_eq!(runs.len(), 1);
    assert_eq!(runs[0].color, None);
    assert_eq!(layout_file("let x = 1;", "rs", &colors)[0].content, "let");
    let longest = "a".repeat(MAX_HIGHLIGHT_CHARS);
    assert!(layout_file(&longest, "rs", &colors)[0].color.is_some());
    let marker = "A".repeat(MAX_HIGHLIGHT_CHARS / 2 - 20);
    let heredoc = format!("x = <<-{marker}\nbody\n{marker}\n");
    assert_eq!(joined(&layout_file(&heredoc, "rb", &colors)), heredoc);
    assert_eq!(plain_text_layout_job("x")[0].content, "x");
}

#[test]
fn unparsed_lines_stay_plain() {
    let lines = vec!["a\n".to_string(), "b".to_string()];
    let run = TextRun { content: "a\n".to_string(), color: Some(Rgb { r: 1, g: 2, b: 3 }) };
    let runs = assemble(&lines, &vec![Some(vec![run]), None]);
    assert_eq!(joined(&runs), "a\nb");
    assert_eq!(runs[0].color, Some(Rgb { r: 1, g: 2, b: 3 }));
    assert_eq!(runs[1].color, None);
    assert_eq!(split_lines("a\nb\n\nc"), vec!["a\n", "b\n", "\n", "c"]);
    assert!(split_lines("").is_empty());
}

#[test]
fn shown_text_is_kept_until_the_file_changes() {
    let colors = CodeColors::load();
    let mut editor = Editor::new();
    open(&mut editor, "a.rs");
    editor.refresh_highlight("rs", &colors);
    let (cached, runs) = editor.file(0).highlight_cache.as_ref().unwrap();
    assert_eq!(cached, "content of a.rs");
    assert_eq!(joined(runs), "content of a.rs");
    editor.edit("fn x() {}".to_string());
    assert!(editor.file(0).highlight_cache.is_none());
    editor.refresh_highlight("rs", &colors);
    assert_eq!(editor.file(0).highlight_cache.as_ref().unwrap().0, "fn x() {}");
}

#[test]
fn colors_are_those_of_the_brand() {
    assert_eq!(Rgb::from_code(DeepSeekColors::BACKGROUND), Rgb { r: 13, g: 17, b: 23 });
    assert_eq!(Rgb::from_code(DeepSeekColors::SURFACE), Rgb { r: 22, g: 27, b: 34 });
    assert_eq!(Rgb::from_code(DeepSeekColors::BORDER), Rgb { r: 33, g: 38, b: 45 });
    assert_eq!(Rgb::from_code(DeepSeekColors::TEXT_PRIMARY), Rgb { r: 201, g: 209, b: 217 });
    assert_eq!(Rgb::from_code(DeepSeekColors::TEXT_SECONDARY), Rgb { r: 139, g: 148, b: 158 });
    assert_eq!(Rgb::from_code(DeepSeekColors::ACCENT), Rgb { r: 88, g: 166, b: 255 });
    assert_eq!(Rgb::from_code(DeepSeekColors::ACCENT_HOVER), Rgb { r: 121, g: 184, b: 255 });
    assert_eq!(Rgb::from_code(DeepSeekColors::USER_BUBBLE), Rgb { r: 31, g: 111, b: 235 });
    assert_eq!(Rgb::from_code(DeepSeekColors::SUCCESS), Rgb { r: 63, g: 185, b: 80 });
    assert_eq!(Rgb::from_code(DeepSeekColors::WARNING), Rgb { r: 210, g: 153, b: 34 });
    assert_eq!(Rgb::from_code(DeepSeekColors::ERROR), Rgb { r: 248, g: 81, b: 73 });
}

#[test]
fn found_fonts_join_their_families() {
    let mut families = FontFamilies {
        proportional: vec!["default".to_string()],
        monospace: vec!["mono".to_string()],
    };
    let mut names = Vec::new();
    for slot in font_slots() {
        let path = slot.candidates()[0];
        names.push(families.add_font(slot, path));
    }
    assert_eq!(
        names,
        vec!["inter", "jetbrains_mono", "ui_segoeui.ttf", "code_consola.ttf", "cjk_msyh.ttc"]
    );
    assert_eq!(
        families.proportional,
        vec!["inter", "default", "jetbrains_mono", "ui_segoeui.ttf", "cjk_msyh.ttc"]
    );
    assert_eq!(
        families.monospace,
        vec!["jetbrains_mono", "mono", "code_consola.ttf", "cjk_msyh.ttc"]
    );
    assert_eq!(
        FontSlot::Cjk.font_name("/System/Library/Fonts/STHeiti Light.ttc"),
        "cjk_STHeiti Light.ttc"
    );
    assert_eq!(FontSlot::Cjk.candidates().len(), 9);
}

#[test]
fn first_readable_font_is_taken() {
    assert_eq!(first_readable(&vec![false, true, true]), Some(1));
    assert_eq!(first_readable(&vec![true]), Some(0));
    assert_eq!(first_readable(&vec![false, false]), None);
    assert_eq!(first_readable(&vec![]), None);
}
