use pi_command_not_found_adapter::ui::{printable, Paint, Ui};

fn ui() -> Ui {
    Ui::new(5, Some(20), false, None)
}

fn text_width(s: &str) -> usize {
    console::measure_text_width(s)
}

#[test]
fn keeps_control_characters_out() {
    assert_eq!(printable("a\u{7}b\tc\nd"), "ab\tc\nd");
}

#[test]
fn clips_wide_characters() {
    let ui = ui();
    assert_eq!(
        ui.clip("abcdefghijklmnopqrstuvwxyz"),
        "abcdefghijklmnopqrs…"
    );
    let wide = "你好世界你好世界你好世界你好世界";
    assert!(text_width(&ui.clip(wide)) <= 20);
}

#[test]
fn keeps_short_lines() {
    let ui = ui();
    assert_eq!(ui.clip("short"), "short");
}

#[test]
fn widths_come_from_the_setting_the_terminal_or_the_default() {
    let ui = Ui::new(0, None, true, Some(100));
    assert_eq!(ui.width(), 100);
    assert_eq!(ui.block_width, 100);
    assert_eq!(ui.max_lines, 1);
    assert!(ui.is_tty());
    let ui = Ui::new(5, Some(200), true, Some(100));
    assert_eq!(ui.width(), 200);
    assert_eq!(ui.block_width, 100);
    let ui = Ui::new(5, Some(3), false, None);
    assert_eq!(ui.width(), 20);
    let ui = Ui::new(5, None, false, None);
    assert_eq!(ui.width(), 80);
}

fn block(paints: &[Paint]) -> (usize, Vec<String>, usize) {
    match paints.last() {
        Some(Paint::Block { up, rows, total }) => (*up, rows.clone(), *total),
        _ => panic!("expected a redraw"),
    }
}

#[test]
fn the_block_rolls_and_redraws_in_place() {
    let mut ui = Ui::new(2, Some(40), true, Some(40));
    let (up, rows, total) = block(&ui.tool("bash", "ls  -l"));
    assert_eq!((up, total), (0, 2));
    assert_eq!(rows, ["🔧bash: ls  -l", "⠋"]);
    ui.tool("read", "");
    let (up, rows, total) = block(&ui.tool("grep", "x"));
    assert_eq!((up, total), (3, 3));
    assert_eq!(rows, ["🔧read", "🔧grep: x", "⠋"]);
    let (_, rows, _) = block(&ui.think());
    assert_eq!(rows.last().unwrap(), "💭⠋");
    let (_, rows, _) = block(&ui.tick());
    assert_eq!(rows.last().unwrap(), "💭⠙");
    let paints = ui.line("done");
    assert!(matches!(paints[0], Paint::Erase { count: 3 }));
    assert!(matches!(&paints[1], Paint::Line(line) if line == "done"));
    assert!(ui.clear().is_empty());
}

#[test]
fn without_a_terminal_lines_are_plain() {
    let mut ui = ui();
    let paints = ui.tool("bash", "ls");
    assert!(matches!(&paints[..], [Paint::Line(line)] if line == "🔧bash: ls"));
    assert!(ui.think().is_empty());
    assert!(ui.tick().is_empty());
    let paints = ui.announce("echo a\n\techo b\u{7}");
    assert!(matches!(&paints[..], [Paint::Line(line)] if line == "⚡ echo a⏎ echo b"));
    let paints = ui.rule();
    assert!(matches!(&paints[..], [Paint::Line(line)] if line == &"─".repeat(20)));
}

#[test]
fn a_terminal_announcement_is_bold() {
    let mut ui = Ui::new(5, Some(40), true, Some(40));
    let paints = ui.announce("ls");
    assert!(matches!(&paints[..], [Paint::Line(line)] if line == "⚡ \u{1b}[1mls\u{1b}[0m"));
}

#[test]
fn clouds_are_capped_by_the_room() {
    let mut ui = Ui::new(5, Some(20), true, Some(20));
    for _ in 0..30 {
        ui.think();
    }
    assert_eq!(ui.status(), format!("{}⠋", "💭".repeat(9)));
}
