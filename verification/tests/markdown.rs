use pi_command_not_found_adapter::markdown::{has_note, plain_note, renderer_args};

#[test]
fn a_blank_note_is_no_note() {
    assert!(!has_note(" \n\t"));
    assert!(!has_note(""));
    assert!(has_note(" hi "));
}

#[test]
fn the_plain_note_is_printable_and_trimmed() {
    assert_eq!(plain_note("# Title\u{7}\n\nbody  \n\n"), "# Title\n\nbody");
}

#[test]
fn the_renderer_wraps_at_least_twenty_columns() {
    assert_eq!(renderer_args(80, true, false), ["-P", "--silent", "--sc", "80xauto", "-c"]);
    assert_eq!(renderer_args(5, false, false), ["-P", "--silent", "--sc", "20xauto", "-C"]);
    assert_eq!(
        renderer_args(100, true, true),
        ["-P", "--silent", "--sc", "100xauto", "-c", "--theme", "makurai-light"]
    );
}
