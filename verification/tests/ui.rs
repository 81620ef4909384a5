use wrap::ansi::{display_width, sanitize, strip_ansi, truncate_cells};
use wrap::ui::{
    format_crossing, format_fatal, format_layer_end, format_layer_fail, format_leftover,
    format_live_line, format_live_region, format_rebuild, format_setup, format_stop_failed,
    spin_period, stderr_width, color_enabled, ColorEnv, CrossingKind, LayerEnd, LineBuf, Theme, Ui,
    HISTORY_CAP, PRIMARY,
};

fn plain() -> Theme {
    Theme { color: false }
}

fn color() -> Theme {
    Theme { color: true }
}

#[test]
fn theme_tokens_are_distinct() {
    let t = color();
    let primary = t.primary("x");
    let danger = t.danger("x");
    let accent = t.accent("x");
    let ok = t.ok("x");
    let warn = t.warn("x");
    let vm = t.vm("x");
    assert!(primary.contains("38;2;236;239;241m"));
    assert!(danger.contains("38;2;239;83;80m"));
    assert!(accent.contains("38;2;79;195;247m"));
    assert!(ok.contains("38;2;129;199;132m"));
    assert!(warn.contains("38;2;247;140;108m"));
    assert!(vm.contains("38;2;196;167;231m"));
    assert_ne!(primary, danger);
    assert_ne!(accent, vm);
    assert_ne!(ok, warn);
    assert!(t.paint(PRIMARY, "").is_empty());
    assert_eq!(plain().danger("x"), "x");
}

#[test]
fn crossing_states_and_widths() {
    let t = plain();
    let wide = format_crossing(
        t,
        80,
        "tobi-xe",
        "2026-08-13-smolvm",
        CrossingKind::Reused,
        4,
        4096,
        8192,
    );
    assert_eq!(
        wide,
        "tobi-xe → vm:2026-08-13-smolvm  ·  reused  ·  4 CPU · 4–8 GiB"
    );
    assert!(
        format_crossing(t, 80, "h", "w", CrossingKind::New, 2, 4096, 4096)
            .contains("new  ·  2 CPU · 4 GiB")
    );
    assert!(
        format_crossing(t, 80, "h", "w", CrossingKind::Reset, 8, 6144, 8192)
            .ends_with("8 CPU · 6–8 GiB")
    );

    let narrow = format_crossing(
        t,
        20,
        "very-long-hostname",
        "very-long-workspace",
        CrossingKind::Reused,
        4,
        4096,
        8192,
    );
    assert!(display_width(&narrow) <= 20);
    assert!(!narrow.contains("reused"));
    assert!(narrow.contains('…'));
}

#[test]
fn layer_marks_differ_without_color() {
    let t = plain();
    assert_eq!(
        format_layer_end(t, "packages", LayerEnd::Reused),
        "  ·  packages"
    );
    assert_eq!(
        format_layer_end(t, "packages", LayerEnd::Snapped),
        "  ●  packages"
    );
    assert_eq!(
        format_layer_fail(t, "languages", "exit 1"),
        "  ×  languages  ·  exit 1"
    );
    assert_eq!(
        format_layer_fail(t, "languages", "interrupted"),
        "  ×  languages  ·  interrupted"
    );
}

#[test]
fn live_line_aligns_spinner_and_truncates_phase() {
    let t = plain();
    let line = format_live_line(t, 28, "languages", '⠋', "pacman -S gcc clang make cmake");
    assert!(line.starts_with("  ⠋ languages  "));
    assert!(line.contains('…'));
    assert!(display_width(&line) <= 28);
    assert_eq!(format_live_line(t, 80, "tools", ' ', ""), "    tools");
    assert_eq!(line.chars().position(|c| c == '⠋'), Some(2));
    assert_eq!(
        format_layer_end(t, "languages", LayerEnd::Reused)
            .chars()
            .position(|c| c == '·'),
        Some(2)
    );
}

#[test]
fn live_region_streams_the_latest_four_lines() {
    let t = plain();
    let mut lines = LineBuf::new();
    lines.push("line-1\nline-2\nline-3\nline-4\nline-5\npartial\x1b[31m");
    let region = format_live_region(t, 80, "system", '⠋', "running setup", &lines);
    assert_eq!(
        region.lines().collect::<Vec<_>>(),
        [
            "  ⠋ system  running setup",
            "    line-3",
            "    line-4",
            "    line-5",
            "    partial",
        ]
    );
    assert!(!region.contains('\u{1b}'));
}

#[test]
fn status_lines_cover_remaining_states() {
    let t = plain();
    assert_eq!(format_rebuild(t, 4), "  rebuild  4 layers");
    assert_eq!(format_setup(t, "base"), "setting up base vm");
    assert_eq!(format_setup(t, "project"), "setting up project vm");
    assert_eq!(
        format_leftover(t, "wrap-build-languages", "busy"),
        "  leftover  wrap-build-languages  ·  busy"
    );
    assert_eq!(
        format_stop_failed(t, "timeout"),
        "  stop failed  ·  timeout"
    );
    assert_eq!(
        format_fatal(t, "layer languages failed"),
        "wrap  layer languages failed"
    );
}

#[test]
fn color_is_optional_decoration() {
    let p = plain();
    let c = color();
    let cases = [
        format_crossing(p, 80, "host", "ws", CrossingKind::New, 4, 4096, 8192),
        format_layer_end(p, "packages", LayerEnd::Snapped),
        format_layer_fail(p, "languages", "exit 1"),
        format_live_line(p, 80, "tools", '⠋', "mise use rust"),
        format_setup(p, "base"),
        format_rebuild(p, 4),
        format_fatal(p, "interrupted"),
    ];
    let colored = [
        format_crossing(c, 80, "host", "ws", CrossingKind::New, 4, 4096, 8192),
        format_layer_end(c, "packages", LayerEnd::Snapped),
        format_layer_fail(c, "languages", "exit 1"),
        format_live_line(c, 80, "tools", '⠋', "mise use rust"),
        format_setup(c, "base"),
        format_rebuild(c, 4),
        format_fatal(c, "interrupted"),
    ];
    for (plain_line, color_line) in cases.iter().zip(colored.iter()) {
        assert_eq!(plain_line, &strip_ansi(color_line));
        assert!(!plain_line.contains('\u{1b}'));
        assert!(color_line.contains("\x1b[38;2;"));
    }
}

#[test]
fn line_buf_handles_cr_and_ansi() {
    let mut buf = LineBuf::new();
    buf.push("wrap: layer packages\n");
    buf.push("downloading\r");
    buf.push("\x1b[32m100%\x1b[0m\n");
    buf.push("partial");
    assert_eq!(buf.snippet(), "partial");
    let hist: Vec<_> = buf.history();
    assert_eq!(hist, ["wrap: layer packages", "100%"]);
}

#[test]
fn sanitize_strips_controls_and_csi() {
    assert_eq!(sanitize("a\x1b[31mb\u{7}c"), "abc");
    assert_eq!(display_width("日本語"), 6);
    assert_eq!(truncate_cells("日本語", 5), "日本…");
    assert_eq!(truncate_cells("abc", 10), "abc");
}

#[test]
fn history_is_bounded() {
    let mut buf = LineBuf::new();
    for i in 0..80 {
        buf.push(&format!("line-{i}\n"));
    }
    assert_eq!(buf.history().len(), HISTORY_CAP);
    assert_eq!(buf.history().first().map(String::as_str), Some("line-32"));
}

#[test]
fn crossing_fits_every_terminal_width() {
    for width in [0usize, 5, 20, 21, 33, 50, 80, 200] {
        let line = format_crossing(
            plain(),
            width,
            "a-rather-long-host-name.example.com",
            "a-project-with-a-long-name",
            CrossingKind::Reset,
            16,
            6144,
            16384,
        );
        assert!(display_width(&line) <= width.max(20), "{width}: {line}");
    }
}

#[test]
fn live_line_fits_with_braille_spinner() {
    for width in [0usize, 10, 20, 28, 40] {
        let line = format_live_line(plain(), width, "a-very-long-layer-identifier", '⠙', "phase text");
        assert!(display_width(&line) <= width.max(20));
    }
}

#[test]
fn colour_strips_to_plain_on_status_lines() {
    let pairs = [
        (
            format_leftover(color(), "vm", "busy"),
            format_leftover(plain(), "vm", "busy"),
        ),
        (
            format_stop_failed(color(), "timeout"),
            format_stop_failed(plain(), "timeout"),
        ),
        (
            format_layer_end(color(), "tools", LayerEnd::Reused),
            format_layer_end(plain(), "tools", LayerEnd::Reused),
        ),
    ];
    for (c, p) in pairs.iter() {
        assert_eq!(&strip_ansi(c), p);
    }
}

#[test]
fn secret_access_names_tokens_and_hosts_only() {
    let ui = Ui::new(plain(), false);
    let none = ui.secret_access(&[]);
    assert_eq!(
        none,
        [
            "no secrets are exposed to the VM directly, but it can use the following pseudo tokens with the following hosts:",
            "  (none)",
        ]
    );
    let secrets: Vec<(String, Vec<String>)> = (0..6)
        .map(|i| (format!("TOKEN_{i}"), vec!["github.com".to_string(), "api.github.com".to_string()]))
        .collect();
    let lines = ui.secret_access(&secrets);
    assert_eq!(lines.len(), 6);
    assert_eq!(lines[1], "  github.com, api.github.com: TOKEN_0");
    assert_eq!(lines[4], "  github.com, api.github.com: TOKEN_3");
    assert_eq!(lines[5], "  [... and 2 more]");
    assert_eq!(ui.attached(), "  fully attached");
}

#[test]
fn width_and_colour_come_from_the_environment() {
    assert_eq!(stderr_width(Some(120), Some("40")), 120);
    assert_eq!(stderr_width(None, Some("40")), 40);
    assert_eq!(stderr_width(Some(10), Some("40")), 80);
    assert_eq!(stderr_width(None, Some("abc")), 80);
    assert_eq!(stderr_width(None, None), 80);
    let env = ColorEnv {
        no_color: false,
        clicolor: None,
        clicolor_force: Some("1".to_string()),
        stderr_terminal: false,
    };
    assert!(color_enabled(&env));
    let env = ColorEnv { no_color: true, ..env };
    assert!(!color_enabled(&env));
    assert_eq!(spin_period(), 90);
}

#[test]
fn live_region_waits_for_whole_characters() {
    let ui = Ui::new(plain(), true);
    let mut live = ui.start_layer("system", 0);
    let bytes = "日本\n".as_bytes();
    match live.feed_stdout(&bytes[..2], 0, 80) {
        wrap::ui::LiveWrite::Frame(text) => assert!(text.is_empty()),
        other => panic!("{other:?}"),
    }
    match live.feed_stdout(&bytes[2..], 0, 80) {
        wrap::ui::LiveWrite::Frame(text) => {
            assert!(text.contains("    日本"));
            assert!(text.contains("  ⠀ system") || text.contains("    system"));
        }
        other => panic!("{other:?}"),
    }
    let quiet = Ui::new(plain(), false);
    let mut pass = quiet.start_task("session", 0);
    match pass.feed_stderr(b"raw \xff bytes", 0, 80) {
        wrap::ui::LiveWrite::Stderr(bytes) => assert_eq!(bytes, b"raw \xff bytes"),
        other => panic!("{other:?}"),
    }
    let done = live.succeed();
    assert!(done.contains("  ●  system"));
    assert_eq!(live.succeed(), "");
}

#[test]
fn text_fed_in_pieces_gives_the_same_lines() {
    let mut whole = LineBuf::new();
    whole.push("first\nsec\x1b[1mond\r\nthird\n\npartial");
    let mut split = LineBuf::new();
    split.push("first\nsec\x1b[1m");
    split.push("ond\r");
    split.push("\nthird\n\npar");
    split.push("tial");
    assert_eq!(whole.history(), split.history());
    assert_eq!(whole.history(), vec!["first".to_string(), "third".to_string()]);
    assert_eq!(whole.snippet(), split.snippet());
    assert_eq!(whole.snippet(), "partial");
}

#[test]
fn history_keeps_the_last_lines_in_order() {
    let mut buf = LineBuf::new();
    for i in 0..(HISTORY_CAP + 5) {
        buf.push(&format!("l{i}\n"));
    }
    let lines = buf.history();
    assert_eq!(lines.len(), HISTORY_CAP);
    for (k, line) in lines.iter().enumerate() {
        assert_eq!(line, &format!("l{}", k + 5));
    }
}

#[test]
fn widths_add_over_concatenation() {
    let parts = ["", "abc", "\u{4e2d}\u{6587}", "\u{1f600}x", "\x07\t"];
    for a in parts {
        for b in parts {
            let joined = format!("{a}{b}");
            assert_eq!(display_width(&joined), display_width(a) + display_width(b));
        }
    }
    assert_eq!(display_width(""), 0);
    assert_eq!(display_width("\u{4e2d}"), 2);
    assert_eq!(display_width("a"), 1);
    assert_eq!(display_width("\x1b"), 0);
}
