use pi_command_not_found_adapter::config::{
    config_files, config_layers, configuration_error, list_vars, Config,
};

#[test]
fn the_system_file_comes_first_and_the_user_file_last() {
    let files = config_files("/etc/xdg:/run/xdg", Some("/home/user/.config"));
    assert_eq!(
        files,
        [
            "/etc/xdg/pi-command-not-found/config.json",
            "/run/xdg/pi-command-not-found/config.json",
            "/home/user/.config/pi-command-not-found/config.json",
        ]
    );
    assert_eq!(
        config_files("", None),
        Vec::<String>::new(),
        "an empty search path has no files"
    );
}

#[test]
fn empty_search_entries_are_skipped_and_slashes_not_doubled() {
    let files = config_files("/etc/xdg/::/opt", None);
    assert_eq!(
        files,
        [
            "/etc/xdg/pi-command-not-found/config.json",
            "/opt/pi-command-not-found/config.json",
        ]
    );
}

#[test]
fn a_list_variable_is_split_like_the_adapter_reads_it() {
    let lists = list_vars(Some("--one\ntwo words".into()), Some("/a.md:/b/c.md".into()));
    assert_eq!(lists.pi_args.unwrap(), ["--one", "two words"]);
    assert_eq!(lists.system_prompt_file.unwrap(), ["/a.md", "/b/c.md"]);
    let unset = list_vars(None, None);
    assert!(unset.pi_args.is_none());
    assert!(unset.system_prompt_file.is_none());
}

#[test]
fn unset_settings_have_their_defaults() {
    let config = Config::default();
    assert_eq!(config.pi, "pi");
    assert_eq!(config.mcat, "mcat");
    assert_eq!(config.retries, 2);
    assert_eq!(config.tool_lines, 5);
    assert_eq!(config.timeout, 600);
    assert!(config.model.is_none());
    assert!(config.thinking.is_none());
    assert!(config.pi_args.is_empty());
    assert!(config.session_root.is_none());
    assert!(config.system_prompt_file.is_empty());
    assert!(config.width.is_none());
    assert!(config.trace.is_none());
}

fn file(path: &str, is_file: bool) -> (String, bool) {
    (path.to_string(), is_file)
}

#[test]
fn existing_search_files_are_merged_then_the_extra_one() {
    let search = vec![file("/etc/a.json", true), file("/etc/b.json", false), file("/home/c.json", true)];
    assert_eq!(
        config_layers(None, &search, Some(file("extra.json", true))).unwrap(),
        ["/etc/a.json", "/home/c.json", "extra.json"]
    );
    assert_eq!(config_layers(None, &search, None).unwrap(), ["/etc/a.json", "/home/c.json"]);
}

#[test]
fn the_named_file_replaces_the_search() {
    let search = vec![file("/etc/a.json", true)];
    assert_eq!(
        config_layers(Some(file("/tmp/named.json", true)), &search, None).unwrap(),
        ["/tmp/named.json"]
    );
    assert_eq!(
        config_layers(Some(file("/tmp/dir", false)), &search, None).unwrap_err(),
        "the config file /tmp/dir named by PI_COMMAND_NOT_FOUND_CONFIG is not a file"
    );
}

#[test]
fn a_missing_extra_file_is_an_error() {
    assert_eq!(
        config_layers(None, &Vec::new(), Some(file("nope.json", false))).unwrap_err(),
        "the config file nope.json given to --config is not a file"
    );
}

#[test]
fn a_failed_read_names_the_files() {
    assert_eq!(configuration_error(&[]), "cannot read the configuration");
    assert_eq!(
        configuration_error(&["/a.json".to_string(), "/b.json".to_string()]),
        "cannot read the configuration from /a.json, /b.json"
    );
}
