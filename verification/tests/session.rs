use pi_command_not_found_adapter::cli::Run;
use pi_command_not_found_adapter::config::Config;
use pi_command_not_found_adapter::session::{
    civil_from_days, needs_fresh_id, sanitize, stamp, Session,
};

#[test]
fn sanitizes_path_hostile_ids() {
    assert_eq!(sanitize("a/b.c d"), "a_b_c_d");
    assert_eq!(sanitize("abc-123"), "abc-123");
}

#[test]
fn formats_known_instants() {
    assert_eq!(civil_from_days(0), (1970, 1, 1));
    assert_eq!(civil_from_days(19_723), (2024, 1, 1));
    assert_eq!(civil_from_days(-1), (1969, 12, 31));
}

#[test]
fn leap_days_and_era_edges() {
    assert_eq!(civil_from_days(11_016), (2000, 2, 29));
    assert_eq!(civil_from_days(11_017), (2000, 3, 1));
    assert_eq!(civil_from_days(-719_468), (0, 3, 1));
    assert_eq!(civil_from_days(-719_469), (0, 2, 29));
    assert_eq!(civil_from_days(47_541), (2100, 3, 1));
    assert_eq!(civil_from_days(47_540), (2100, 2, 28));
}

#[test]
fn stamps_name_the_history_directory() {
    assert_eq!(stamp(0), "1970-01-01T00-00-00-000Z");
    assert_eq!(stamp(1_788_972_960_023), "2026-09-09T16-56-00-023Z");
    assert_eq!(stamp(-1), "1969-12-31T23-59-59-999Z");
}

#[test]
fn sessions_live_under_the_state_directory() {
    let session = Session::locate(Some("a b"), "fresh", b"/home/u/.local/state", None);
    assert_eq!(session.id, "a_b");
    assert_eq!(session.state, b"/home/u/.local/state/pi-command-not-found-adapter");
    assert_eq!(
        session.dir,
        b"/home/u/.local/state/pi-command-not-found-adapter/sessions/a_b"
    );
    assert_eq!(
        session.session_file(),
        b"/home/u/.local/state/pi-command-not-found-adapter/sessions/a_b/session.jsonl"
    );
    assert_eq!(
        session.history_dir("1970-01-01T00-00-00-000Z"),
        b"/home/u/.local/state/pi-command-not-found-adapter/sessions/a_b/history/1970-01-01T00-00-00-000Z"
    );
}

#[test]
fn a_missing_id_takes_the_fresh_one_and_a_root_replaces_the_default() {
    let session = Session::locate(None, "fresh-id", b"/state/", Some("/tmp/sessions"));
    assert_eq!(session.id, "fresh-id");
    assert_eq!(session.state, b"/state/pi-command-not-found-adapter");
    assert_eq!(session.dir, b"/tmp/sessions/fresh-id");
    assert!(needs_fresh_id(None));
    assert!(needs_fresh_id(Some("")));
    assert!(!needs_fresh_id(Some("x")));
}

#[test]
fn the_extreme_days_have_dates() {
    let (year, month, day) = civil_from_days(i64::MAX - 719_468);
    assert!(year > 25_000_000_000_000_000);
    assert!((1..=12).contains(&month) && (1..=31).contains(&day));
    let (year, month, day) = civil_from_days(i64::MIN);
    assert!(year < -25_000_000_000_000_000);
    assert!((1..=12).contains(&month) && (1..=31).contains(&day));
    assert_eq!(stamp(i64::MIN), "-292275055-05-16T16-47-04-192Z");
    assert_eq!(stamp(i64::MAX), "292278994-08-17T07-12-55-807Z");
}

#[test]
fn a_state_home_that_is_not_utf8_is_kept_as_it_is() {
    let session = Session::locate(Some("é"), "fresh", b"/home/\xff", None);
    assert_eq!(session.state, b"/home/\xff/pi-command-not-found-adapter");
    let mut dir = b"/home/\xff/pi-command-not-found-adapter/sessions/".to_vec();
    dir.extend_from_slice("é".as_bytes());
    assert_eq!(session.dir, dir);
}

#[test]
fn a_missing_state_home_is_an_error() {
    let run = Run { input: vec!["ls".to_string()], shell: "bash".to_string(), session_id: None };
    let error = Session::at_home(None, &run, &Config::default(), "fresh").unwrap_err();
    assert_eq!(error, "cannot determine the XDG state directory");
    let session = Session::at_home(Some(b"/s".to_vec()), &run, &Config::default(), "fresh").unwrap();
    assert_eq!(session.dir, b"/s/pi-command-not-found-adapter/sessions/fresh");
}
