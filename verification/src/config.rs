//! The configuration values the import engine consumes: shared
//! directories, ignored paths, the local library directory, and the
//! schedule interval's cron expression, all as plain values. Loading
//! and editing the file on disk stays with the caller; the display
//! and the cron translations are here.

use vstd::prelude::*;

use crate::ledger::join_lines;
use crate::ledger::join_lines_text;

verus! {

/// One displayable configuration value.
#[derive(Debug, Clone, Copy, PartialEq, Eq, Structural)]
pub enum ConfigKey {
    SharedDirectories,
    IgnoredPaths,
    LocalDirectory,
    ScheduleInterval,
    ScheduleIntervalDescription,
}

/// The configuration subcommands the tool dispatches on.
#[derive(Debug)]
pub enum Config {
    /// Open the config file in the user's editor.
    Edit,
    /// Show the config file's path.
    Path,
    /// Show config values, or the one under `key`.
    Show { key: Option<ConfigKey> },
}

/// The tool's configuration, as the import engine reads it. The
/// schedule interval is carried as its cron expression's source text.
#[derive(Debug)]
pub struct ConfigFile {
    pub shared_directories: Vec<String>,
    pub ignored_paths: Vec<String>,
    pub local_directory: String,
    pub schedule_interval: String,
}

/// A caller-supplied override wins over the configured value.
pub fn get_config_value<'a, T>(override_value: Option<&'a T>, config_value: &'a T) -> (r: &'a T)
    ensures
        r == match override_value {
            Some(v) => v,
            None => config_value,
        },
{
    match override_value {
        Some(value) => value,
        None => config_value,
    }
}

/// Paths listed one per line for display.
pub fn get_path_vector_display(vector: &Vec<String>) -> (r: String)
    ensures
        r@ == join_lines(vector.deep_view()),
{
    join_lines_text(vector)
}

/// The config file's path: a caller-supplied path wins; otherwise the
/// file sits at its fixed place under the home directory. Normalizing
/// a supplied path against the working directory stays with the
/// caller.
pub fn get_config_file(home: &str, custom: Option<&String>) -> (r: String)
    ensures
        custom is Some ==> r@ == custom->0@,
        custom is None ==> r@ == home@ + "/.config/tsundeoku/tsundeoku.toml"@,
{
    match custom {
        Some(path) => (*path).clone(),
        None => {
            let mut s = home.to_owned();
            s.append("/.config/tsundeoku/tsundeoku.toml");
            proof {
                assert(s@ =~= home@ + "/.config/tsundeoku/tsundeoku.toml"@);
            }
            s
        },
    }
}

/// The cron expression that `english_to_cron` derives from an English
/// schedule description, when the description parses.
pub uninterp spec fn cron_syntax_of(description: Seq<char>) -> Option<Seq<char>>;

#[verifier::external_type_specification]
#[verifier::external_body]
pub struct ExEnglishCronError(english_to_cron::Error);

/// Relies on `english_to_cron::str_cron_syntax`: its tokenizer reads
/// the description text alone, so the result is a function of it.
#[verifier::external_body]
fn english_cron_syntax(description: &str) -> (r: Result<String, english_to_cron::Error>)
    ensures
        r is Ok <==> cron_syntax_of(description@) is Some,
        r is Ok ==> Some(r->Ok_0@) == cron_syntax_of(description@),
{
    english_to_cron::str_cron_syntax(description)
}

/// Translates an English schedule description into a cron expression.
pub fn get_cron_expression(description: &str) -> (r: Result<String, String>)
    ensures
        r is Ok <==> cron_syntax_of(description@) is Some,
        r is Ok ==> Some(r->Ok_0@) == cron_syntax_of(description@),
        r is Err ==> r->Err_0@ == "invalid cron description"@,
{
    match english_cron_syntax(description) {
        Ok(expression) => Ok(expression),
        Err(_) => Err("invalid cron description".to_owned()),
    }
}

/// Relies on `cron_descriptor`'s `get_description_cron` for the
/// human-readable description; the text depends on the process
/// locale, so nothing is promised of it beyond success or failure.
#[verifier::external_body]
fn describe_cron(expression: &str) -> (r: Result<String, String>) {
    cron_descriptor::cronparser::cron_expression_descriptor::get_description_cron(expression)
        .map_err(|e| e.s)
}

/// Passes a description through, replacing any failure with the
/// tool's own report of an invalid expression.
pub fn describe_or_invalid(described: Result<String, String>) -> (r: Result<String, String>)
    ensures
        described is Ok ==> r is Ok && r->Ok_0 == described->Ok_0,
        described is Err ==> r is Err && r->Err_0@ == "invalid cron expression"@,
{
    match described {
        Ok(description) => Ok(description),
        Err(_) => Err("invalid cron expression".to_owned()),
    }
}

/// Describes a cron expression in words.
pub fn get_cron_description(expression: &str) -> (r: Result<String, String>)
    ensures
        r is Err ==> r->Err_0@ == "invalid cron expression"@,
{
    describe_or_invalid(describe_cron(expression))
}

/// Renders the configuration value under `key`. Every key displays
/// its exact stored value; only the schedule description goes through
/// the cron describer, whose failure reads `invalid cron expression`.
pub fn get_config_value_display(config: &ConfigFile, key: &ConfigKey) -> (r: Result<String, String>)
    ensures
        *key == ConfigKey::SharedDirectories ==> r is Ok && r->Ok_0@ == join_lines(
            config.shared_directories.deep_view(),
        ),
        *key == ConfigKey::IgnoredPaths ==> r is Ok && r->Ok_0@ == join_lines(
            config.ignored_paths.deep_view(),
        ),
        *key == ConfigKey::LocalDirectory ==> r is Ok && r->Ok_0@ == config.local_directory@,
        *key == ConfigKey::ScheduleInterval ==> r is Ok && r->Ok_0@ == config.schedule_interval@,
        *key == ConfigKey::ScheduleIntervalDescription && r is Err ==> r->Err_0@
            == "invalid cron expression"@,
{
    match key {
        ConfigKey::SharedDirectories => Ok(get_path_vector_display(&config.shared_directories)),
        ConfigKey::IgnoredPaths => Ok(get_path_vector_display(&config.ignored_paths)),
        ConfigKey::LocalDirectory => Ok(config.local_directory.clone()),
        ConfigKey::ScheduleInterval => Ok(config.schedule_interval.clone()),
        ConfigKey::ScheduleIntervalDescription => get_cron_description(
            config.schedule_interval.as_str(),
        ),
    }
}

} // verus!
