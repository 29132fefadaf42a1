use mc_velocity_installer::diff::{diff_map, summarize_changes};
use mc_velocity_installer::doc::parse_and_serialize;
use mc_velocity_installer::session::load_document;
use mc_velocity_installer::text::list_display;

fn parse_text(input: &str) -> toml_edit::DocumentMut {
    load_document(input).expect("parse toml")
}

#[test]
fn summarize_changes_reports_key_updates() {
    let before = parse_text(
        r#"
bind = "0.0.0.0:25565"

[servers]
lobby = "127.0.0.1:30066"
try = ["lobby"]
"#,
    );
    let after = parse_text(
        r#"
bind = "0.0.0.0:25566"

[servers]
lobby = "127.0.0.1:30066"
pvp = "127.0.0.1:30067"
try = ["lobby", "pvp"]
"#,
    );

    let changes = summarize_changes(&before, &after);
    assert!(
        changes
            .iter()
            .any(|line| line.contains("bind: 0.0.0.0:25565 -> 0.0.0.0:25566"))
    );
    assert!(
        changes
            .iter()
            .any(|line| line.contains("servers: 追加 pvp = 127.0.0.1:30067"))
    );
    assert!(
        changes
            .iter()
            .any(|line| line.contains("servers.try: [lobby] -> [lobby, pvp]"))
    );
}

#[test]
fn round_trip_preserves_document() {
    let input = "# leading comment\nbind = \"0.0.0.0:25565\"   # trailing\n\n[servers]\nlobby = \"127.0.0.1:30066\"   \ntry = [ \"lobby\" ]\n";
    let out = parse_and_serialize(input).expect("well-formed toml");
    assert_eq!(out, input);
}

#[test]
fn round_trip_rejects_malformed_document() {
    assert!(parse_and_serialize("bind = ").is_none());
}

#[test]
fn round_trip_drops_a_leading_byte_order_mark() {
    // the lexer consumes a leading U+FEFF before any token exists, so it
    // is not re-emitted
    let out = parse_and_serialize("\u{feff}bind = \"x\"\n").expect("well-formed toml");
    assert_eq!(out, "bind = \"x\"\n");
}

#[test]
fn round_trip_adds_only_the_missing_final_line_break() {
    // the one layout detail the tree does not keep: a file that does not
    // end in a line break gains one
    let out = parse_and_serialize("bind = \"x\"").expect("well-formed toml");
    assert_eq!(out, "bind = \"x\"\n");
}

#[test]
fn bind_change_emits_exactly_one_line() {
    let before = parse_text("bind = \"0.0.0.0:25565\"\n");
    let after = parse_text("bind = \"0.0.0.0:25566\"\n");
    let changes = summarize_changes(&before, &after);
    assert_eq!(changes.len(), 1);
    assert_eq!(changes[0], "bind: 0.0.0.0:25565 -> 0.0.0.0:25566");
}

#[test]
fn added_server_emits_one_line_and_keeps_quiet_about_the_rest() {
    let before = parse_text("[servers]\nlobby = \"127.0.0.1:30066\"\n");
    let after = parse_text("[servers]\nlobby = \"127.0.0.1:30066\"\npvp = \"127.0.0.1:30067\"\n");
    let changes = summarize_changes(&before, &after);
    assert_eq!(changes.len(), 1);
    assert_eq!(changes[0], "servers: 追加 pvp = 127.0.0.1:30067");
    assert!(!changes.iter().any(|line| line.contains("lobby")));
}

#[test]
fn try_order_change_emits_one_list_line() {
    let before = parse_text("[servers]\nlobby = \"a\"\npvp = \"b\"\ntry = [\"lobby\"]\n");
    let after = parse_text("[servers]\nlobby = \"a\"\npvp = \"b\"\ntry = [\"lobby\", \"pvp\"]\n");
    let changes = summarize_changes(&before, &after);
    assert_eq!(changes.len(), 1);
    assert_eq!(changes[0], "servers.try: [lobby] -> [lobby, pvp]");
}

#[test]
fn scalar_diff_renders_unset_and_removed() {
    let before = parse_text("motd = \"hello\"\n");
    let after = parse_text("bind = \"0.0.0.0:25565\"\n");
    let changes = summarize_changes(&before, &after);
    assert_eq!(changes.len(), 2);
    assert_eq!(changes[0], "bind: (未設定) -> 0.0.0.0:25565");
    assert_eq!(changes[1], "motd: hello -> (削除)");
}

#[test]
fn forced_hosts_diff_renders_reference_lists() {
    let before = parse_text("[forced-hosts]\n\"a.example.com\" = [\"lobby\"]\n");
    let after = parse_text("[forced-hosts]\n\"a.example.com\" = [\"lobby\", \"pvp\"]\n\"b.example.com\" = [\"pvp\"]\n");
    let changes = summarize_changes(&before, &after);
    assert_eq!(changes.len(), 2);
    assert_eq!(
        changes[0],
        "forced-hosts: 変更 a.example.com = [lobby] -> [lobby, pvp]"
    );
    assert_eq!(changes[1], "forced-hosts: 追加 b.example.com = [pvp]");
}

#[test]
fn diff_map_merges_sorted_listings() {
    let before = vec![
        ("alpha".to_string(), "1".to_string()),
        ("beta".to_string(), "2".to_string()),
        ("gamma".to_string(), "3".to_string()),
    ];
    let after = vec![
        ("beta".to_string(), "2".to_string()),
        ("delta".to_string(), "4".to_string()),
        ("gamma".to_string(), "9".to_string()),
    ];
    let changes = diff_map("servers", &before, &after);
    assert_eq!(
        changes,
        vec![
            "servers: 削除 alpha = 1".to_string(),
            "servers: 追加 delta = 4".to_string(),
            "servers: 変更 gamma = 3 -> 9".to_string(),
        ]
    );
}

#[test]
fn diff_ignores_integer_valued_show_max_players_when_equal() {
    let before = parse_text("show-max-players = 500\n");
    let after = parse_text("show-max-players = 500\n");
    assert!(summarize_changes(&before, &after).is_empty());
}

#[test]
fn show_max_players_change_renders_numbers() {
    let before = parse_text("show-max-players = 500\n");
    let after = parse_text("show-max-players = 300\n");
    let changes = summarize_changes(&before, &after);
    assert_eq!(changes, vec!["show-max-players: 500 -> 300".to_string()]);
}

#[test]
fn list_display_brackets_entries() {
    assert_eq!(list_display(&Vec::new()), "(未設定)");
    assert_eq!(
        list_display(&vec!["a".to_string(), "b".to_string(), "c".to_string()]),
        "[a, b, c]"
    );
}
