use tsundeoku::config::{
    get_config_file, get_config_value, get_config_value_display, get_cron_description,
    get_cron_expression, get_path_vector_display, ConfigFile, ConfigKey,
};
use tsundeoku::get_app_name;
use tsundeoku::logs::filter_logs;
use tsundeoku::paths::{
    get_file_name, get_file_stem, get_invalid_path_error, get_parent_directory, matches_file_name,
    path_join,
};
use tsundeoku::schedule::{
    get_app_plist_file_name, get_binary_path, get_calendar_interval, get_imported_files_path,
    get_log_path, get_plist, get_plist_file_name, get_plist_path, get_rotate_plist_file_name,
    get_time_unit_values, is_scheduled, CalendarInterval, TimeUnits,
};
use tsundeoku::LogLevel;

fn config() -> ConfigFile {
    ConfigFile {
        shared_directories: vec!["/shared".to_string(), "/dropbox".to_string()],
        ignored_paths: vec!["/shared/skip.mp3".to_string()],
        local_directory: "/local".to_string(),
        schedule_interval: "0 0 * * * *".to_string(),
    }
}

#[test]
fn overrides_win_over_configured_values() {
    let configured = "configured".to_string();
    let supplied = "supplied".to_string();
    assert_eq!(get_config_value(Some(&supplied), &configured), "supplied");
    assert_eq!(get_config_value(None, &configured), "configured");
}

#[test]
fn config_values_display_exactly() {
    let c = config();
    assert_eq!(
        get_config_value_display(&c, &ConfigKey::SharedDirectories).unwrap(),
        "/shared\n/dropbox"
    );
    assert_eq!(
        get_config_value_display(&c, &ConfigKey::IgnoredPaths).unwrap(),
        "/shared/skip.mp3"
    );
    assert_eq!(get_config_value_display(&c, &ConfigKey::LocalDirectory).unwrap(), "/local");
    assert_eq!(
        get_config_value_display(&c, &ConfigKey::ScheduleInterval).unwrap(),
        "0 0 * * * *"
    );
}

#[test]
fn config_file_path_prefers_the_supplied_one() {
    let supplied = "/etc/custom.toml".to_string();
    assert_eq!(get_config_file("/home/me", Some(&supplied)), "/etc/custom.toml");
    assert_eq!(
        get_config_file("/home/me", None),
        "/home/me/.config/tsundeoku/tsundeoku.toml"
    );
}

#[test]
fn path_vector_display_joins_lines() {
    let paths = vec!["/a".to_string(), "/b".to_string()];
    assert_eq!(get_path_vector_display(&paths), "/a\n/b");
    assert_eq!(get_path_vector_display(&Vec::new()), "");
}

#[test]
fn english_descriptions_become_cron_expressions() {
    assert_eq!(get_cron_expression("every 15 seconds").unwrap(), "0/15 * * * * ? *");
    assert_eq!(get_cron_expression("every minute").unwrap(), "0 * * * * ? *");
    let err = get_cron_expression("not a schedule at all ###").unwrap_err();
    assert_eq!(err, "invalid cron description");
}

#[test]
fn cron_descriptions_read_back() {
    let description = get_cron_description("0 0 * * * *").unwrap();
    assert!(!description.is_empty());
    let err = get_cron_description("not cron").unwrap_err();
    assert_eq!(err, "invalid cron expression");
}

#[test]
fn file_names_and_stems_split_as_documented() {
    assert_eq!(get_file_name("/shared/track.mp3").unwrap(), "track.mp3");
    assert_eq!(get_file_name("track.mp3").unwrap(), "track.mp3");
    assert_eq!(get_file_name("/shared/").unwrap_err(), "invalid path /shared/");
    assert_eq!(get_file_stem("/shared/track.mp3").unwrap(), "track");
    assert_eq!(get_file_stem("/shared/.hidden").unwrap(), ".hidden");
    assert_eq!(get_file_stem("/shared/archive.tar.gz").unwrap(), "archive.tar");
    assert_eq!(get_parent_directory("/shared/track.mp3").unwrap(), "/shared");
    assert_eq!(
        get_parent_directory("track.mp3").unwrap_err(),
        "failed to get parent of track.mp3"
    );
    assert_eq!(get_invalid_path_error("x"), "invalid path x");
    assert_eq!(path_join("/local", "artist"), "/local/artist");
}

#[test]
fn stems_match_by_containment() {
    assert!(matches_file_name("/local/a/track__1.mp3", "/local/a/track.mp3").unwrap());
    assert!(matches_file_name("/local/a/track.mp3", "/local/a/track.mp3").unwrap());
    assert!(!matches_file_name("/local/a/other.mp3", "/local/a/track.mp3").unwrap());
    assert!(matches_file_name("/local/a/", "/local/a/track.mp3").is_err());
}

#[test]
fn filter_logs_keeps_imported_lines() {
    let text = "one Imported /a\ntwo skipped /b\nthree Imported /c";
    assert_eq!(filter_logs(text, true), "one Imported /a\nthree Imported /c");
    assert_eq!(filter_logs(text, false), text);
}

#[test]
fn log_levels_have_upper_case_labels() {
    assert_eq!(LogLevel::Info.label(), "INFO");
    assert_eq!(LogLevel::Warning.label(), "WARNING");
    assert_eq!(LogLevel::Error.label(), "ERROR");
    assert_eq!(get_app_name(), "tsundeoku");
}

#[test]
fn plist_names_and_paths_compose() {
    assert_eq!(get_plist_file_name("import"), "com.tsundeoku.import.plist");
    assert_eq!(get_app_plist_file_name(), "com.tsundeoku.import.plist");
    assert_eq!(get_rotate_plist_file_name(), "com.tsundeoku.rotatelogs.plist");
    assert_eq!(
        get_plist_path("/home/me", "com.tsundeoku.import.plist"),
        "/home/me/Library/LaunchAgents/com.tsundeoku.import.plist"
    );
    assert_eq!(get_binary_path("/home/me"), "/home/me/.cargo/bin/tsu");
    assert_eq!(
        get_imported_files_path("/home/me"),
        "/home/me/.local/state/tsundeoku/tsundeoku-imported-files.log"
    );
    assert_eq!(get_log_path("/home/me"), "/home/me/.local/state/tsundeoku/tsundeoku.log");
}

#[test]
fn scheduled_means_exactly_one_listing_line() {
    let listing = "123\t0\tcom.tsundeoku.import.plist\n456\t0\tother\n";
    assert!(is_scheduled("com.tsundeoku.import.plist", listing));
    let twice = "1 com.tsundeoku.import.plist\n2 com.tsundeoku.import.plist\n";
    assert!(!is_scheduled("com.tsundeoku.import.plist", twice));
    assert!(!is_scheduled("com.tsundeoku.import.plist", "nothing here\n"));
}

#[test]
fn constrained_time_units_render_fragments() {
    let all = TimeUnits { is_all: true, values: Vec::new() };
    assert!(get_time_unit_values(&all, &CalendarInterval::Minute).is_none());
    let at_zero = TimeUnits { is_all: false, values: vec![0] };
    assert_eq!(
        get_time_unit_values(&at_zero, &CalendarInterval::Minute).unwrap(),
        "<key>Minute</key>\n      <integer>0</integer>"
    );
    let hours = TimeUnits { is_all: false, values: vec![6, 18] };
    assert_eq!(
        get_time_unit_values(&hours, &CalendarInterval::Hour).unwrap(),
        "<key>Hour</key>\n      <integer>6,18</integer>"
    );
}

#[test]
fn calendar_interval_joins_present_fragments() {
    let parts = vec![
        Some("<key>Minute</key>\n      <integer>0</integer>".to_string()),
        None,
        Some("<key>Hour</key>\n      <integer>6</integer>".to_string()),
    ];
    assert_eq!(
        get_calendar_interval(&parts),
        "<key>Minute</key>\n      <integer>0</integer>\n\n      <key>Hour</key>\n      <integer>6</integer>"
    );
    assert_eq!(get_calendar_interval(&vec![None, None]), "");
}

#[test]
fn plists_lay_out_label_interval_and_arguments() {
    let arguments = vec!["/home/me/.cargo/bin/tsu".to_string(), "import".to_string()];
    let plist = get_plist(
        "com.tsundeoku.import.plist",
        "<key>Minute</key>\n      <integer>0</integer>",
        &arguments,
    );
    assert!(plist.starts_with("<?xml version=\"1.0\" encoding=\"UTF-8\"?>\n"));
    assert!(plist.contains("<string>com.tsundeoku.import.plist</string>"));
    assert!(plist.contains("<key>Minute</key>\n      <integer>0</integer>"));
    assert!(plist.contains(
        "<string>/home/me/.cargo/bin/tsu</string>\n      <string>import</string>"
    ));
    assert!(plist.ends_with("</plist>"));
}
