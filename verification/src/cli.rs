//! Command line model and the settings it decides.

use vstd::prelude::*;

use crate::commands::file::FileArgs;
use crate::commands::run::{CherryPickArgs, MergeArgs, PullArgs, RebaseArgs, RevertArgs};
use crate::config::UiSection;
use crate::i18n::Lang;

verus! {

/// Interface language option (command line and `[ui] lang`).
#[derive(Debug, Clone, Copy, PartialEq, Eq, Structural)]
pub enum LangArg {
    /// Follow the system locale (Chinese for a zh locale, else English)
    Auto,
    /// Chinese
    Zh,
    /// English
    En,
}

/// Theme option (command line and `[ui] theme`).
#[derive(Debug, Clone, Copy, PartialEq, Eq, Structural)]
pub enum ThemeArg {
    /// Follow the terminal (COLORFGBG; dark when unknown)
    Auto,
    /// Dark (Tokyo Night)
    Dark,
    /// Light (Maple Light)
    Light,
}

/// Shells a completion script can be written for.
#[derive(Debug, Clone, Copy, PartialEq, Eq, Structural)]
pub enum Shell {
    /// Bourne Again SHell
    Bash,
    /// Elvish
    Elvish,
    /// Friendly Interactive SHell
    Fish,
    /// PowerShell
    PowerShell,
    /// Z SHell
    Zsh,
}

/// Subcommands.
#[derive(Debug, Clone)]
pub enum Commands {
    /// Run `git merge` and take over the conflicts if any
    Merge(MergeArgs),
    /// Run `git rebase`, through every round of conflicts
    Rebase(RebaseArgs),
    /// Run `git pull` (arguments passed on)
    Pull(PullArgs),
    /// Run `git cherry-pick` (arguments passed on)
    CherryPick(CherryPickArgs),
    /// Run `git revert` (arguments passed on)
    Revert(RevertArgs),
    /// Resolve one conflict-marked file, no git needed
    File(FileArgs),
    /// Abort the operation in progress
    Abort,
    /// Write a shell completion script to stdout
    Completions(Shell),
}

/// The program's command line.
#[derive(Debug, Clone)]
pub struct Cli {
    /// The subcommand, if any
    pub command: Option<Commands>,
    /// Repository path (default: current directory)
    pub repo: Option<String>,
    /// Echo executed git commands
    pub verbose: bool,
    /// Theme
    pub theme: ThemeArg,
    /// Interface language
    pub lang: LangArg,
}

/// What a run needs once options, configuration and environment are weighed.
#[derive(Debug, Clone)]
pub struct Settings {
    /// Echo executed git commands
    pub verbose: bool,
    /// Repository directory
    pub dir: String,
    /// Use the light theme
    pub light: bool,
}

/// The language an explicit option names.
pub open spec fn explicit_lang(a: LangArg) -> Option<Lang> {
    match a {
        LangArg::Zh => Some(Lang::Zh),
        LangArg::En => Some(Lang::En),
        LangArg::Auto => None,
    }
}

/// The theme in effect: an explicit command-line theme, else the
/// configured one, else automatic.
pub open spec fn theme_spec(cli: ThemeArg, cfg: Option<ThemeArg>) -> ThemeArg {
    match cli {
        ThemeArg::Auto => match cfg {
            Some(t) => t,
            None => ThemeArg::Auto,
        },
        explicit => explicit,
    }
}

impl Cli {
    /// The language `--lang` names, applied before the configuration is
    /// read so that its own errors already use that language.
    pub fn cli_lang(&self) -> (l: Option<Lang>)
        ensures
            l == explicit_lang(self.lang),
    {
        match self.lang {
            LangArg::Zh => Some(Lang::Zh),
            LangArg::En => Some(Lang::En),
            LangArg::Auto => None,
        }
    }

    /// The language chosen after the configuration is read: the configured
    /// one, else the system's (`detected`). An earlier `--lang` still wins,
    /// since only the first choice counts.
    pub fn config_lang(cfg: Option<LangArg>, detected: Lang) -> (l: Lang)
        ensures
            l == match cfg {
                Some(LangArg::Zh) => Lang::Zh,
                Some(LangArg::En) => Lang::En,
                _ => detected,
            },
    {
        match cfg {
            Some(LangArg::Zh) => Lang::Zh,
            Some(LangArg::En) => Lang::En,
            _ => detected,
        }
    }

    /// Verbosity, directory and theme: `-v` or the configured `verbose`;
    /// the given repository or "."; the theme by precedence command line >
    /// configuration > terminal (`detected_light`).
    pub fn settings(&self, ui: &UiSection, detected_light: bool) -> (s: Settings)
        ensures
            s.verbose == (self.verbose || ui.verbose == Some(true)),
            s.dir@ == match self.repo {
                Some(r) => r@,
                None => "."@,
            },
            s.light == match theme_spec(self.theme, ui.theme) {
                ThemeArg::Light => true,
                ThemeArg::Dark => false,
                ThemeArg::Auto => detected_light,
            },
    {
        let verbose = self.verbose || match ui.verbose {
            Some(v) => v,
            None => false,
        };
        let dir = match &self.repo {
            Some(r) => crate::text::copy_string(r),
            None => String::from_str("."),
        };
        let theme = match self.theme {
            ThemeArg::Auto => match ui.theme {
                Some(t) => t,
                None => ThemeArg::Auto,
            },
            explicit => explicit,
        };
        let light = match theme {
            ThemeArg::Light => true,
            ThemeArg::Dark => false,
            ThemeArg::Auto => detected_light,
        };
        Settings { verbose, dir, light }
    }
}

} // verus!
