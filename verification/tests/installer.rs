use mc_velocity_installer::digest::{download_checksum_ok, sha256_hex};
use mc_velocity_installer::install::{
    build_velocity_config, build_version_list, check_backend_entry, check_backend_name,
    escape_toml, forwarding_needs_secret, parse_install_try_order, parse_selection,
    parse_u32_entry, prompt_config_path, prompt_memory, prompt_with_default, render_summary,
    start_bat_contents, start_sh_contents, BackendEntryError, BackendServer, InstallSettings,
    Selection, TryOrderError, VersionInfo, VersionIndexError, VersionRow,
};
use mc_velocity_installer::text::{i64_to_string, parse_u32, split_csv, u64_to_string};

fn row(version: &str, sha: Option<&str>) -> VersionRow {
    VersionRow {
        version: version.to_string(),
        url: format!("https://example.invalid/{version}.jar"),
        kind: "stable".to_string(),
        sha256: sha.map(str::to_string),
    }
}

#[test]
fn fetch_versions_rejects_status_error() {
    let result = build_version_list(&Some("error".to_string()), &vec![row("1.2.3", Some("aa"))]);
    let err = result.err().expect("error");
    assert!(matches!(err, VersionIndexError::Status(_)));
    assert!(err.message().contains("status=error"));
}

#[test]
fn fetch_versions_requires_sha256() {
    let result = build_version_list(&Some("ok".to_string()), &vec![row("1.2.3", None)]);
    let err = result.err().expect("error");
    assert!(matches!(err, VersionIndexError::MissingSha256(_)));
    assert!(err.message().contains("sha256"));
    assert!(err.message().contains("1.2.3"));
}

#[test]
fn fetch_versions_rejects_empty_list() {
    let result = build_version_list(&Some("ok".to_string()), &Vec::new());
    let err = result.err().expect("error");
    assert!(err.message().contains("バージョン一覧が空です"));
}

#[test]
fn version_list_is_sorted_newest_first() {
    let rows = vec![
        row("1.0.0", Some("a1")),
        row("1.10.0", Some("a2")),
        row("1.2.0", Some("a3")),
    ];
    let versions = build_version_list(&None, &rows).expect("catalog accepted");
    let order: Vec<&str> = versions.iter().map(|v| v.version.as_str()).collect();
    assert_eq!(order, vec!["1.2.0", "1.10.0", "1.0.0"]);
    assert_eq!(versions[0].sha256, "a3");
    assert_eq!(versions[0].url, "https://example.invalid/1.2.0.jar");
}

#[test]
fn display_label_shows_version_and_kind() {
    let info = VersionInfo {
        version: "3.3.0".to_string(),
        kind: "stable".to_string(),
        url: String::new(),
        sha256: String::new(),
    };
    assert_eq!(info.display_label(), "3.3.0 (stable)");
}

#[test]
fn prompt_defaults_resolve_blank_input() {
    assert_eq!(prompt_with_default("  ", "fallback"), "fallback");
    assert_eq!(prompt_with_default("value\n", "fallback"), "value");
    assert_eq!(
        prompt_memory("", "1024M"),
        ("256M".to_string(), "1024M".to_string())
    );
    assert_eq!(
        prompt_config_path(" ", "/srv/velocity/velocity.toml"),
        "/srv/velocity/velocity.toml"
    );
}

#[test]
fn numeric_entries_parse_like_the_prompt() {
    assert_eq!(parse_u32("007"), Some(7));
    assert_eq!(parse_u32("+42"), Some(42));
    assert_eq!(parse_u32("4294967295"), Some(u32::MAX));
    assert_eq!(parse_u32("4294967296"), None);
    assert_eq!(parse_u32("12a"), None);
    assert_eq!(parse_u32(""), None);
    assert_eq!(parse_u32_entry("  ", 500), Some(500));
    assert_eq!(parse_u32_entry("300", 500), Some(300));
    assert_eq!(parse_u32_entry("abc", 500), None);
}

#[test]
fn menu_selection_distinguishes_failures() {
    assert_eq!(parse_selection("", 1, 1, 4), Selection::Chosen(1));
    assert_eq!(parse_selection("3", 1, 1, 4), Selection::Chosen(3));
    assert_eq!(parse_selection("9", 1, 1, 4), Selection::OutOfRange);
    assert_eq!(parse_selection("x", 1, 1, 4), Selection::NotANumber);
}

#[test]
fn backend_entries_are_validated() {
    let servers = vec![BackendServer {
        name: "lobby".to_string(),
        address: "127.0.0.1:30066".to_string(),
    }];
    assert_eq!(
        check_backend_entry(&servers, " ", "x").unwrap_err(),
        BackendEntryError::EmptyName
    );
    assert_eq!(
        check_backend_entry(&servers, "a,b", "x").unwrap_err(),
        BackendEntryError::CommaInName
    );
    assert_eq!(
        check_backend_entry(&servers, "lobby", "x").unwrap_err(),
        BackendEntryError::DuplicateName
    );
    assert_eq!(
        check_backend_entry(&servers, "pvp", "  ").unwrap_err(),
        BackendEntryError::EmptyAddress
    );
    let entry = check_backend_entry(&servers, "pvp", "127.0.0.1:30067").unwrap();
    assert_eq!(entry.name, "pvp");
    assert_eq!(entry.address, "127.0.0.1:30067");
}

#[test]
fn backend_names_are_checked_before_the_address_is_asked() {
    let servers = vec![BackendServer {
        name: "lobby".to_string(),
        address: "127.0.0.1:30066".to_string(),
    }];
    assert_eq!(
        check_backend_name(&servers, "  "),
        Err(BackendEntryError::EmptyName)
    );
    assert_eq!(
        check_backend_name(&servers, "a,b"),
        Err(BackendEntryError::CommaInName)
    );
    assert_eq!(
        check_backend_name(&servers, "lobby"),
        Err(BackendEntryError::DuplicateName)
    );
    assert_eq!(check_backend_name(&servers, "pvp"), Ok(()));
}

#[test]
fn only_the_modern_mode_asks_for_a_secret() {
    assert!(forwarding_needs_secret("MODERN"));
    assert!(forwarding_needs_secret("BUNGEGUARD"));
    assert!(!forwarding_needs_secret("BUNGEEGUARD"));
    assert!(!forwarding_needs_secret("NONE"));
    assert!(!forwarding_needs_secret("LEGACY"));
}

#[test]
fn install_try_order_is_validated() {
    let servers = vec![
        BackendServer { name: "lobby".to_string(), address: "a".to_string() },
        BackendServer { name: "pvp".to_string(), address: "b".to_string() },
    ];
    assert!(matches!(
        parse_install_try_order(" , ", &servers),
        Err(TryOrderError::Empty)
    ));
    assert!(matches!(
        parse_install_try_order("lobby,lobby", &servers),
        Err(TryOrderError::Duplicate)
    ));
    match parse_install_try_order("lobby,ghost", &servers) {
        Err(TryOrderError::Unknown(unknown)) => assert_eq!(unknown, vec!["ghost".to_string()]),
        _ => panic!("an unknown name must be reported"),
    }
    assert_eq!(
        parse_install_try_order(" pvp , lobby ", &servers).unwrap(),
        vec!["pvp".to_string(), "lobby".to_string()]
    );
}

#[test]
fn split_csv_trims_and_drops_empty_entries() {
    assert_eq!(
        split_csv(" a , ,b,, c "),
        vec!["a".to_string(), "b".to_string(), "c".to_string()]
    );
    assert!(split_csv(" , ,").is_empty());
}

#[test]
fn escape_toml_escapes_quotes_and_breaks() {
    assert_eq!(escape_toml("a\"b\\c\nd\re"), "a\\\"b\\\\c\\nd\\re");
    assert_eq!(escape_toml("plain"), "plain");
}

#[test]
fn decimal_renderings_are_exact() {
    assert_eq!(u64_to_string(0), "0");
    assert_eq!(u64_to_string(500), "500");
    assert_eq!(i64_to_string(-42), "-42");
    assert_eq!(i64_to_string(i64::MIN), "-9223372036854775808");
}

fn sample_settings() -> InstallSettings {
    InstallSettings {
        install_dir: "/opt/velocity".to_string(),
        version: VersionInfo {
            version: "3.3.0".to_string(),
            kind: "stable".to_string(),
            url: "https://example.invalid/velocity.jar".to_string(),
            sha256: "ab".to_string(),
        },
        bind: "0.0.0.0:25565".to_string(),
        motd: "A \"quoted\" motd".to_string(),
        show_max_players: 500,
        online_mode: true,
        force_key_authentication: false,
        forwarding_mode: "MODERN".to_string(),
        forwarding_secret: Some("SECRET-REDACTED".to_string()),
        servers: vec![
            BackendServer { name: "lobby".to_string(), address: "127.0.0.1:30066".to_string() },
        ],
        try_order: vec!["lobby".to_string()],
        xms: "256M".to_string(),
        xmx: "512M".to_string(),
    }
}

#[test]
fn generated_config_holds_the_gathered_values() {
    let config = build_velocity_config(&sample_settings());
    assert!(config.starts_with("# Config version. Do not change this\nconfig-version = \"2.7\"\n\n"));
    assert!(config.contains("bind = \"0.0.0.0:25565\"\n"));
    assert!(config.contains("motd = \"A \\\"quoted\\\" motd\"\n"));
    assert!(config.contains("show-max-players = 500\n"));
    assert!(config.contains("online-mode = true\n"));
    assert!(config.contains("force-key-authentication = false\n"));
    assert!(config.contains("player-info-forwarding-mode = \"MODERN\"\n"));
    assert!(config.contains("[servers]\n\"lobby\" = \"127.0.0.1:30066\"\ntry = [\n    \"lobby\",\n]\n"));
    assert!(config.contains("[advanced]\ncompression-threshold = 256\n"));
    assert!(config.ends_with("[query]\nenabled = false\nport = 25565\nmap = \"Velocity\"\nshow-plugins = false\n"));
}

#[test]
fn summary_lists_every_gathered_setting() {
    let lines = render_summary(&sample_settings());
    assert_eq!(lines[0], "- インストール先: /opt/velocity");
    assert_eq!(lines[1], "- バージョン: 3.3.0 (stable)");
    assert_eq!(lines[4], "- プレイヤー数表示: 500");
    assert_eq!(lines[5], "- オンラインモード: 有効");
    assert_eq!(lines[6], "- 鍵認証強制: 無効");
    assert_eq!(lines[7], "- 転送モード: modern");
    assert_eq!(lines[8], "- 共有シークレット: 設定済み");
    assert_eq!(lines[10], "  - lobby = 127.0.0.1:30066");
    assert_eq!(lines[11], "- 接続順序: lobby");
    assert_eq!(lines[12], "- 起動メモリ: Xms=256M / Xmx=512M");
}

#[test]
fn start_scripts_embed_the_memory_settings() {
    assert_eq!(
        start_sh_contents("256M", "512M"),
        "#!/usr/bin/env sh\nset -e\nDIR=\"$(cd \"$(dirname \"$0\")\" && pwd)\"\nexec java -Xms256M -Xmx512M -jar \"$DIR/velocity.jar\"\n"
    );
    assert_eq!(
        start_bat_contents("256M", "512M"),
        "@echo off\r\nset DIR=%~dp0\r\njava -Xms256M -Xmx512M -jar \"%DIR%velocity.jar\"\r\n"
    );
}

#[test]
fn sha256_digest_matches_the_reference_vector() {
    let data: Vec<u8> = b"abc".to_vec();
    assert_eq!(
        sha256_hex(&data),
        "ba7816bf8f01cfea414140de5dae2223b00361a396177a9cb410ff61f20015ad"
    );
    assert!(download_checksum_ok(
        &data,
        "BA7816BF8F01CFEA414140DE5DAE2223B00361A396177A9CB410FF61F20015AD"
    ));
    assert!(!download_checksum_ok(&data, "ba7816bf"));
}
