use mc_velocity_installer::editors::{
    add_server, current_bind, current_forwarding_mode, current_online_mode,
    current_show_max_players, delete_servers, delete_try, edit_bind, edit_forwarding_mode,
    edit_online_mode, edit_server, forwarding_mode_default_index, parse_action, parse_server_menu,
    parse_yes_no, remove_server, server_entries, server_list_lines, server_names, store_try,
    try_list, unknown_names, Action, BoolEdit, ModeEdit, ServerEditError, ServerMenu, StringEdit,
};
use mc_velocity_installer::integrity::{apply_host_cleanup, collect_invalid, drop_host, host_entries};
use mc_velocity_installer::session::{
    commit_text, detect_crlf, load_document, render_document, review, ReviewOutcome,
};
use mc_velocity_installer::text::normalize_line_endings;

fn doc(input: &str) -> toml_edit::DocumentMut {
    load_document(input).expect("parse toml")
}

const SAMPLE: &str = "bind = \"0.0.0.0:25565\"\n\n[servers]\nlobby = \"127.0.0.1:30066\"\npvp = \"127.0.0.1:30067\"\ntry = [\"lobby\"]\n\n[forced-hosts]\n\"pvp.example.com\" = [\"pvp\"]\n";

#[test]
fn untouched_session_reports_no_changes() {
    let original = doc(SAMPLE);
    let working = doc(SAMPLE);
    match review(SAMPLE, &original, &working) {
        ReviewOutcome::NoChanges => {}
        ReviewOutcome::Confirm(_) => panic!("an untouched session must reach the no-changes state"),
    }
}

#[test]
fn skipped_editors_leave_the_text_identical() {
    let original = doc(SAMPLE);
    let mut working = doc(SAMPLE);
    edit_bind(&mut working, &StringEdit::Skip);
    edit_online_mode(&mut working, &BoolEdit::Skip);
    assert_eq!(render_document(&working), render_document(&original));
}

#[test]
fn add_server_rejects_empty_name() {
    let mut working = doc(SAMPLE);
    let before = render_document(&working);
    assert_eq!(
        add_server(&mut working, "   ", "127.0.0.1:1"),
        Err(ServerEditError::EmptyName)
    );
    assert_eq!(render_document(&working), before);
}

#[test]
fn add_server_rejects_reserved_name() {
    let mut working = doc(SAMPLE);
    let before = render_document(&working);
    assert_eq!(
        add_server(&mut working, "try", "127.0.0.1:1"),
        Err(ServerEditError::ReservedName)
    );
    assert_eq!(render_document(&working), before);
}

#[test]
fn add_server_rejects_duplicate_name() {
    let mut working = doc(SAMPLE);
    let before = render_document(&working);
    assert_eq!(
        add_server(&mut working, "lobby", "127.0.0.1:1"),
        Err(ServerEditError::DuplicateName)
    );
    assert_eq!(render_document(&working), before);
}

#[test]
fn add_server_rejects_empty_address() {
    let mut working = doc(SAMPLE);
    let before = render_document(&working);
    assert_eq!(
        add_server(&mut working, "hub", "  "),
        Err(ServerEditError::EmptyAddress)
    );
    assert_eq!(render_document(&working), before);
}

#[test]
fn add_server_appends_trimmed_entry() {
    let mut working = doc(SAMPLE);
    assert_eq!(add_server(&mut working, " hub ", " 127.0.0.1:30070 "), Ok(()));
    let rows = server_entries(&working);
    assert!(rows
        .iter()
        .any(|(name, addr)| name == "hub" && addr.as_deref() == Some("127.0.0.1:30070")));
}

#[test]
fn edit_server_requires_existing_name() {
    let mut working = doc(SAMPLE);
    assert_eq!(
        edit_server(&mut working, "missing", "127.0.0.1:1"),
        Err(ServerEditError::UnknownName)
    );
    assert_eq!(edit_server(&mut working, "lobby", "127.0.0.1:40000"), Ok(()));
    let rows = server_entries(&working);
    assert!(rows
        .iter()
        .any(|(name, addr)| name == "lobby" && addr.as_deref() == Some("127.0.0.1:40000")));
}

#[test]
fn remove_server_reports_unknown_names() {
    let mut working = doc(SAMPLE);
    assert_eq!(
        remove_server(&mut working, "missing"),
        Err(ServerEditError::UnknownName)
    );
    assert_eq!(remove_server(&mut working, "pvp"), Ok(()));
    let rows = server_entries(&working);
    assert!(!rows.iter().any(|(name, _)| name == "pvp"));
}

#[test]
fn delete_servers_drops_the_whole_table() {
    let mut working = doc(SAMPLE);
    delete_servers(&mut working);
    assert!(server_entries(&working).is_empty());
    assert!(try_list(&working).is_empty());
}

#[test]
fn try_editor_stores_and_deletes_the_list() {
    let mut working = doc(SAMPLE);
    store_try(&mut working, &vec!["lobby".to_string(), "pvp".to_string()]);
    assert_eq!(try_list(&working), vec!["lobby".to_string(), "pvp".to_string()]);
    delete_try(&mut working);
    assert!(try_list(&working).is_empty());
    let rows = server_entries(&working);
    assert!(rows.iter().any(|(name, _)| name == "lobby"));
}

#[test]
fn unknown_names_keeps_input_order() {
    let list = vec!["x".to_string(), "lobby".to_string(), "y".to_string()];
    let names = vec!["lobby".to_string()];
    assert_eq!(unknown_names(&list, &names), vec!["x".to_string(), "y".to_string()]);
}

#[test]
fn server_list_lines_marks_unsupported_values() {
    let working = doc("[servers]\nlobby = \"127.0.0.1:30066\"\nweird = 5\ntry = [\"lobby\"]\n");
    let lines = server_list_lines(&server_entries(&working));
    assert_eq!(
        lines,
        vec![
            "lobby = 127.0.0.1:30066".to_string(),
            "weird = <非対応の値>".to_string(),
        ]
    );
}

#[test]
fn dangling_reference_cleanup_removes_exactly_the_reference() {
    let mut working = doc(SAMPLE);
    assert_eq!(remove_server(&mut working, "pvp"), Ok(()));
    let rows = host_entries(&working);
    let names = server_names(&server_entries(&working));
    let invalid = collect_invalid(&rows, &names);
    assert_eq!(invalid.len(), 1);
    assert_eq!(invalid[0].host, "pvp.example.com");
    assert_eq!(invalid[0].all, vec!["pvp".to_string()]);
    assert_eq!(invalid[0].invalid, vec!["pvp".to_string()]);
    let became_empty = apply_host_cleanup(&mut working, "pvp.example.com", &invalid[0].invalid);
    assert!(became_empty);
    let rows = host_entries(&working);
    assert_eq!(rows.len(), 1);
    assert!(rows[0].1.is_empty());
    drop_host(&mut working, "pvp.example.com");
    assert!(host_entries(&working).is_empty());
}

#[test]
fn declined_cleanup_leaves_the_dangling_reference() {
    let mut working = doc(SAMPLE);
    assert_eq!(remove_server(&mut working, "pvp"), Ok(()));
    // the operator declined, so no cleanup function runs
    let rows = host_entries(&working);
    assert_eq!(rows.len(), 1);
    assert_eq!(rows[0].1, vec!["pvp".to_string()]);
    assert!(!server_entries(&working).iter().any(|(name, _)| name == "pvp"));
}

#[test]
fn cleanup_keeps_valid_references_in_order() {
    let mut working = doc(
        "[servers]\na = \"1\"\nb = \"2\"\n\n[forced-hosts]\n\"h.example.com\" = [\"a\", \"ghost\", \"b\"]\n",
    );
    let rows = host_entries(&working);
    let names = server_names(&server_entries(&working));
    let invalid = collect_invalid(&rows, &names);
    assert_eq!(invalid.len(), 1);
    let became_empty = apply_host_cleanup(&mut working, "h.example.com", &invalid[0].invalid);
    assert!(!became_empty);
    let rows = host_entries(&working);
    assert_eq!(rows[0].1, vec!["a".to_string(), "b".to_string()]);
}

#[test]
fn end_to_end_online_mode_edit_is_the_only_change() {
    let input = "# header comment\nbind = \"0.0.0.0:25565\"\nonline-mode = true\nmotd = \"hi\"\n";
    let original = doc(input);
    let mut working = doc(input);
    assert!(current_online_mode(&working));
    edit_online_mode(&mut working, &BoolEdit::Store(false));
    let changes = match review(input, &original, &working) {
        ReviewOutcome::Confirm(changes) => changes,
        ReviewOutcome::NoChanges => panic!("the edit must be visible"),
    };
    assert_eq!(changes, vec!["online-mode: true -> false".to_string()]);
    let rendered = render_document(&working);
    let saved = commit_text(&rendered, detect_crlf(input));
    assert_eq!(
        saved,
        "# header comment\nbind = \"0.0.0.0:25565\"\nonline-mode = false\nmotd = \"hi\"\n"
    );
    let reloaded = doc(&saved);
    assert!(!current_online_mode(&reloaded));
    assert_eq!(current_bind(&reloaded), "0.0.0.0:25565");
}

#[test]
fn commit_restores_crlf_convention() {
    let input = "bind = \"a\"\r\nmotd = \"b\"\r\n";
    assert!(detect_crlf(input));
    let original = doc(input);
    let rendered = render_document(&original);
    let saved = commit_text(&rendered, true);
    assert_eq!(saved, input);
    assert_eq!(normalize_line_endings(&saved), "bind = \"a\"\nmotd = \"b\"\n");
}

#[test]
fn decision_codes_parse_case_insensitively() {
    assert_eq!(parse_action("", true), Some(Action::Skip));
    assert_eq!(parse_action(" S ", true), Some(Action::Skip));
    assert_eq!(parse_action("e", true), Some(Action::Edit));
    assert_eq!(parse_action("D", true), Some(Action::Delete));
    assert_eq!(parse_action("d", false), None);
    assert_eq!(parse_action("x", true), None);
}

#[test]
fn yes_no_answers_parse_case_insensitively() {
    assert_eq!(parse_yes_no("", true), Some(true));
    assert_eq!(parse_yes_no("", false), Some(false));
    assert_eq!(parse_yes_no("YES", false), Some(true));
    assert_eq!(parse_yes_no(" no ", true), Some(false));
    assert_eq!(parse_yes_no("maybe", true), None);
}

#[test]
fn server_menu_codes_parse() {
    assert_eq!(parse_server_menu(""), Some(ServerMenu::Finish));
    assert_eq!(parse_server_menu("F"), Some(ServerMenu::Finish));
    assert_eq!(parse_server_menu("a"), Some(ServerMenu::Add));
    assert_eq!(parse_server_menu("e"), Some(ServerMenu::EditExisting));
    assert_eq!(parse_server_menu("r"), Some(ServerMenu::Remove));
    assert_eq!(parse_server_menu("q"), None);
}

#[test]
fn scalar_editors_apply_their_decision() {
    let mut working = doc("bind = \"0.0.0.0:25565\"\n");
    edit_bind(&mut working, &StringEdit::Store("0.0.0.0:25566".to_string()));
    assert_eq!(current_bind(&working), "0.0.0.0:25566");
    edit_bind(&mut working, &StringEdit::Delete);
    assert_eq!(current_bind(&working), "0.0.0.0:25565");
}

#[test]
fn malformed_numeric_field_degrades_to_default() {
    let working = doc("show-max-players = \"lots\"\n");
    assert_eq!(current_show_max_players(&working), 500);
    let working = doc("show-max-players = -3\n");
    assert_eq!(current_show_max_players(&working), 500);
    let working = doc("show-max-players = 300\n");
    assert_eq!(current_show_max_players(&working), 300);
}

#[test]
fn forwarding_mode_editor_round_trips_the_menu() {
    let mut working = doc("player-info-forwarding-mode = \"MODERN\"\n");
    assert_eq!(current_forwarding_mode(&working), "modern");
    assert_eq!(forwarding_mode_default_index(&current_forwarding_mode(&working)), 4);
    edit_forwarding_mode(&mut working, &ModeEdit::Select(3));
    assert_eq!(current_forwarding_mode(&working), "bungeeguard");
    let working = doc("player-info-forwarding-mode = \"odd\"\n");
    assert_eq!(forwarding_mode_default_index(&current_forwarding_mode(&working)), 1);
}

#[test]
fn removing_the_try_row_clears_the_try_order() {
    let mut working = doc(SAMPLE);
    assert_eq!(remove_server(&mut working, "try"), Ok(()));
    assert!(try_list(&working).is_empty());
    assert!(server_entries(&working).iter().any(|(name, _)| name == "lobby"));
}
