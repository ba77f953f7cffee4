//! `config` subcommands: read and mutate the layout. Every mutation goes
//! through the same checks as `config validate`, so unknown widget kinds,
//! bad colors and version mismatches never reach disk.

use vstd::prelude::*;

use crate::config::{
    add_spec, color_spec, colors_unique, config_colors_ok, invalid_with, remove_spec,
    validate_spec, Config,
};
use crate::context::payload::opt_view;
use crate::error::Error;
use crate::render::color::opt_text_ok;

verus! {

/// The `config` subcommands.
pub enum ConfigAction {
    /// Print the current (or default) config.
    Show { pretty: bool },
    /// Append or insert a widget.
    Add { kind: String, line: Option<usize>, position: Option<usize> },
    /// Remove the widget at a line and position.
    Remove { line: usize, position: usize },
    /// Replace the whole config with a validated file.
    Apply { file: String },
    /// Check a file, or the current config.
    Validate { file: Option<String> },
    /// Set, change or clear a widget's color override.
    Color {
        kind: String,
        fg: Option<String>,
        bg: Option<String>,
        bold: bool,
        no_bold: bool,
        clear: bool,
    },
}

/// What is left to do after a `config` subcommand decided.
pub enum ConfigOutcome {
    /// Print this config.
    Show { config: Config, pretty: bool },
    /// Persist this config, then print it.
    Save { config: Config },
    /// Print whether the config passed and, when it did not, why.
    Verdict { error: Option<String> },
}

/// A config as loaded from disk: one color entry per kind, and color
/// strings that can be parsed without a panic.
pub open spec fn loaded_ok(c: Config) -> bool {
    colors_unique(c@.colors) && config_colors_ok(c)
}

/// The outcome `run` owes for a config operation's result.
pub open spec fn saved_or_refused(r: Result<ConfigOutcome, Error>, s: Result<crate::config::ConfigView, Seq<char>>) -> bool {
    match s {
        Ok(v) => r matches Ok(ConfigOutcome::Save { config }) && config@ == v,
        Err(m) => r is Err && invalid_with(r->Err_0, m),
    }
}

/// Run one `config` subcommand against the `current` config and, for
/// `apply` and `validate --file`, the config loaded from the file.
pub fn run(action: ConfigAction, current: Config, file_config: Option<Config>) -> (r: Result<ConfigOutcome, Error>)
    requires
        loaded_ok(current),
        file_config matches Some(f) ==> loaded_ok(f),
        action is Apply ==> file_config is Some,
        action matches ConfigAction::Validate { file: Some(_) } ==> file_config is Some,
        action matches ConfigAction::Color { fg, bg, .. } ==> opt_text_ok(fg) && opt_text_ok(bg),
    ensures
        match action {
            ConfigAction::Show { pretty } => r matches Ok(ConfigOutcome::Show { config, pretty: p })
                && config == current && p == pretty,
            ConfigAction::Add { kind, line, position } => saved_or_refused(
                r,
                add_spec(current@, kind@, line, position),
            ),
            ConfigAction::Remove { line, position } => saved_or_refused(
                r,
                remove_spec(current@, line, position),
            ),
            ConfigAction::Apply { .. } => match validate_spec(file_config->0) {
                Some(m) => r is Err && invalid_with(r->Err_0, m),
                None => r matches Ok(ConfigOutcome::Save { config }) && config == file_config->0,
            },
            ConfigAction::Validate { file } => r matches Ok(ConfigOutcome::Verdict { error })
                && opt_view(error) == validate_spec(
                if file is Some {
                    file_config->0
                } else {
                    current
                },
            ),
            ConfigAction::Color { kind, fg, bg, bold, no_bold, clear } => saved_or_refused(
                r,
                color_spec(
                    current@,
                    kind@,
                    opt_view(fg),
                    opt_view(bg),
                    bold,
                    no_bold,
                    clear,
                ),
            ),
        },
{
    match action {
        ConfigAction::Show { pretty } => Ok(ConfigOutcome::Show { config: current, pretty }),
        ConfigAction::Add { kind, line, position } => match current.add_widget(kind.as_str(), line, position) {
            Ok(config) => Ok(ConfigOutcome::Save { config }),
            Err(e) => Err(e),
        },
        ConfigAction::Remove { line, position } => match current.remove_widget(line, position) {
            Ok(config) => Ok(ConfigOutcome::Save { config }),
            Err(e) => Err(e),
        },
        ConfigAction::Apply { .. } => {
            let f = file_config.unwrap();
            match f.validate() {
                Ok(()) => Ok(ConfigOutcome::Save { config: f }),
                Err(e) => Err(e),
            }
        },
        ConfigAction::Validate { file } => {
            let target = match (file, file_config) {
                (Some(_), Some(f)) => f,
                _ => current,
            };
            match target.validate() {
                Ok(()) => Ok(ConfigOutcome::Verdict { error: None }),
                Err(Error::InvalidConfig { reason }) => Ok(ConfigOutcome::Verdict { error: Some(reason) }),
                Err(e) => Err(e),
            }
        },
        ConfigAction::Color { kind, fg, bg, bold, no_bold, clear } => match current.set_color(
            kind.as_str(),
            fg,
            bg,
            bold,
            no_bold,
            clear,
        ) {
            Ok(config) => Ok(ConfigOutcome::Save { config }),
            Err(e) => Err(e),
        },
    }
}

} // verus!
