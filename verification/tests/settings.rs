use codex_limit_monitor::settings::{
    choose_codex_executable, codex_executable_candidates, is_blank, normalize, normalized_refresh_interval, BadgePosition,
};
use codex_limit_monitor::monitor::notification_key;
use codex_limit_monitor::text::str_eq;
use codex_limit_monitor::tray::{tray_menu_command, usage_tooltip, TrayCommand};

#[test]
fn badge_default_position() {
    assert_eq!(BadgePosition::default(), BadgePosition { x: 1530, y: 18 });
}

#[test]
fn refresh_interval_has_a_floor() {
    assert_eq!(normalized_refresh_interval(0), 15);
    assert_eq!(normalized_refresh_interval(14), 15);
    assert_eq!(normalized_refresh_interval(15), 15);
    assert_eq!(normalized_refresh_interval(60), 60);
}

#[test]
fn blank_is_unicode_white_space() {
    assert!(is_blank(""));
    assert!(is_blank(" \t\n\u{a0}\u{3000}"));
    assert!(!is_blank(" x "));
    assert!(!is_blank("\u{200b}"));
    for s in ["", " ", "a", " \u{2009} ", "\u{85}", "\u{180e}"] {
        assert_eq!(is_blank(s), s.trim().is_empty(), "{s:?}");
    }
}

#[test]
fn normalize_fixes_interval_and_blank_home() {
    let mut secs = 3;
    let mut home = "  ".to_string();
    normalize(&mut secs, &mut home, "/home/u/.codex".to_string());
    assert_eq!(secs, 15);
    assert_eq!(home, "/home/u/.codex");

    let (mut secs2, mut home2) = (secs, home.clone());
    normalize(&mut secs2, &mut home2, "/other".to_string());
    assert_eq!((secs2, home2), (secs, home));

    let mut secs = 90;
    let mut home = "/data/codex".to_string();
    normalize(&mut secs, &mut home, "/home/u/.codex".to_string());
    assert_eq!(secs, 90);
    assert_eq!(home, "/data/codex");
}

#[test]
fn executable_choice() {
    let candidates = vec![
        ("C:/a/codex.cmd".to_string(), false),
        ("C:/b/codex.cmd".to_string(), true),
        ("C:/c/codex".to_string(), true),
    ];
    assert_eq!(choose_codex_executable(&Some("D:/codex.exe".to_string()), &candidates), "D:/codex.exe");
    assert_eq!(choose_codex_executable(&Some(String::new()), &candidates), "C:/b/codex.cmd");
    assert_eq!(choose_codex_executable(&None, &candidates), "C:/b/codex.cmd");
    assert_eq!(choose_codex_executable(&None, &vec![("x".to_string(), false)]), "codex");
    assert_eq!(choose_codex_executable(&None, &Vec::new()), "codex");
}

#[test]
fn tooltip_without_buckets() {
    assert_eq!(usage_tooltip(1234, "offline"), "Codex usage: 1234 tokens today (offline)");
    assert_eq!(usage_tooltip(-5, "fallback"), "Codex usage: -5 tokens today (fallback)");
}

#[test]
fn integer_text() {
    for v in [0i64, 7, 10, 99, -1, 1730947200, i64::MAX, i64::MIN] {
        assert_eq!(notification_key("k", Some(v)), format!("k:{v}"));
    }
    assert!(str_eq("abc", "abc"));
    assert!(!str_eq("abc", "abd"));
    assert!(!str_eq("ab", "abc"));
}

#[test]
fn tray_menu_ids_round_trip() {
    let all = TrayCommand::all();
    assert_eq!(all.len(), 4);
    for c in all {
        assert_eq!(tray_menu_command(c.id()), Some(c));
    }
    assert_eq!(TrayCommand::OpenDashboard.label(), "Open Dashboard");
    assert_eq!(TrayCommand::Refresh.label(), "Refresh Now");
    assert_eq!(TrayCommand::ToggleBadge.label(), "Toggle Badge");
    assert_eq!(TrayCommand::Quit.label(), "Quit");
    assert_eq!(tray_menu_command("open"), Some(TrayCommand::OpenDashboard));
    assert_eq!(tray_menu_command("quit"), Some(TrayCommand::Quit));
    assert_eq!(tray_menu_command("other"), None);
}

fn parts(p: &[&str]) -> Vec<String> {
    p.iter().map(|s| s.to_string()).collect()
}

#[test]
fn windows_candidates_in_order() {
    let all = codex_executable_candidates(Some("C:\\Users\\a\\AppData\\Roaming".to_string()), Some("C:\\Users\\a".to_string()));
    assert_eq!(
        all,
        vec![
            parts(&["C:\\Users\\a\\AppData\\Roaming", "npm", "codex.cmd"]),
            parts(&["C:\\Program Files", "nodejs", "codex.cmd"]),
            parts(&["C:\\Program Files", "nodejs", "codex"]),
            parts(&["C:\\Users\\a", ".config", "herd", "bin", "nvm", "v25.2.1", "node_modules", ".bin", "codex.cmd"]),
            parts(&["C:\\Users\\a", ".config", "herd", "bin", "nvm", "v25.2.1", "node_modules", "@openai", "codex", "bin", "codex.js"]),
        ]
    );
    let fixed = codex_executable_candidates(None, None);
    assert_eq!(
        fixed,
        vec![parts(&["C:\\Program Files", "nodejs", "codex.cmd"]), parts(&["C:\\Program Files", "nodejs", "codex"])]
    );
    assert_eq!(codex_executable_candidates(Some("/x".to_string()), None).len(), 3);
    assert_eq!(codex_executable_candidates(None, Some("/h".to_string()))[2][0], "/h");
}
