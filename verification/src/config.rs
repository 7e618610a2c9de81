//! User configuration: editor, pager and colours.
use vstd::prelude::*;

use crate::text::{owned, push_str};

verus! {

/// What the process environment says about the user's choices.
pub struct SystemEnv {
    /// `$HOME`
    pub home: Option<String>,
    /// `$EDITOR`
    pub editor: Option<String>,
    /// `$PAGER`
    pub pager: Option<String>,
    /// Whether `$NO_COLOR` is set.
    pub no_color: bool,
}

/// The configuration file's contents.
pub struct Config {
    pub preferences: Preferences,
    pub ui: UiConfig,
}

/// Preferred programs.
pub struct Preferences {
    editor: Option<String>,
    pager: Option<String>,
}

/// Display options.
pub struct UiConfig {
    colors: Option<bool>,
}

/// The view of an optional text.
pub open spec fn opt_text(o: Option<String>) -> Option<Seq<char>> {
    match o {
        Some(s) => Some(s@),
        None => None,
    }
}

impl Config {
    /// Nothing configured.
    pub fn default() -> (res: Config)
        ensures
            res.preferences.spec_editor() is None,
            res.preferences.spec_pager() is None,
            res.ui.spec_colors() is None,
    {
        Config {
            preferences: Preferences { editor: None, pager: None },
            ui: UiConfig { colors: None },
        }
    }

    /// The configuration file's name.
    pub fn filename() -> (res: String)
        ensures
            res@ == seq!['.', 'q', 'u', 'a', 'r', 't', 'z', '.', 't', 'o', 'm', 'l'],
    {
        proof {
            reveal_strlit(".quartz.toml");
        }
        owned(".quartz.toml")
    }

    /// The configuration file's path under the home directory `home`.
    pub fn filepath(home: &str) -> (res: String)
        ensures
            res@ == home@ + seq!['/', '.', 'q', 'u', 'a', 'r', 't', 'z', '.', 't', 'o', 'm', 'l'],
    {
        let mut p = owned(home);
        push_str(&mut p, "/");
        let f = Config::filename();
        push_str(&mut p, f.as_str());
        proof {
            reveal_strlit("/");
        }
        p
    }
}

impl Preferences {
    /// Preferences with the given settings.
    pub fn from_parts(editor: Option<String>, pager: Option<String>) -> (res: Preferences)
        ensures
            res.spec_editor() == opt_text(editor),
            res.spec_pager() == opt_text(pager),
    {
        Preferences { editor, pager }
    }

    /// The configured editor, if any.
    pub closed spec fn spec_editor(&self) -> Option<Seq<char>> {
        opt_text(self.editor)
    }

    /// The configured pager, if any.
    pub closed spec fn spec_pager(&self) -> Option<Seq<char>> {
        opt_text(self.pager)
    }

    /// The configured editor setting.
    pub fn editor_setting(&self) -> (res: Option<String>)
        ensures
            opt_text(res) == self.spec_editor(),
    {
        self.editor.clone()
    }

    /// The configured pager setting.
    pub fn pager_setting(&self) -> (res: Option<String>)
        ensures
            opt_text(res) == self.spec_pager(),
    {
        self.pager.clone()
    }

    /// The editor to use: the configured one, else `$EDITOR`, else `vim`.
    pub fn editor(&self, env_editor: Option<&str>) -> (res: String)
        ensures
            res@ == match self.spec_editor() {
                Some(e) => e,
                None => match env_editor {
                    Some(e) => e@,
                    None => seq!['v', 'i', 'm'],
                },
            },
    {
        proof {
            reveal_strlit("vim");
        }
        if let Some(editor) = &self.editor {
            editor.clone()
        } else if let Some(editor) = env_editor {
            owned(editor)
        } else {
            owned("vim")
        }
    }

    /// Sets the editor.
    pub fn set_editor(&mut self, editor: &str)
        ensures
            final(self).spec_editor() == Some(editor@),
            final(self).spec_pager() == old(self).spec_pager(),
    {
        self.editor = Some(owned(editor));
    }

    /// The pager to use: the configured one, else `$PAGER`, else `less`.
    pub fn pager(&self, env_pager: Option<&str>) -> (res: String)
        ensures
            res@ == match self.spec_pager() {
                Some(e) => e,
                None => match env_pager {
                    Some(e) => e@,
                    None => seq!['l', 'e', 's', 's'],
                },
            },
    {
        proof {
            reveal_strlit("less");
        }
        if let Some(pager) = &self.pager {
            pager.clone()
        } else if let Some(pager) = env_pager {
            owned(pager)
        } else {
            owned("less")
        }
    }

    /// Sets the pager.
    pub fn set_pager(&mut self, pager: &str)
        ensures
            final(self).spec_pager() == Some(pager@),
            final(self).spec_editor() == old(self).spec_editor(),
    {
        self.pager = Some(owned(pager));
    }
}

impl UiConfig {
    /// Display options with the given colour setting.
    pub fn from_parts(colors: Option<bool>) -> (res: UiConfig)
        ensures
            res.spec_colors() == colors,
    {
        UiConfig { colors }
    }

    /// The configured colour setting, if any.
    pub closed spec fn spec_colors(&self) -> Option<bool> {
        self.colors
    }

    /// The configured colour setting.
    pub fn colors_setting(&self) -> (res: Option<bool>)
        ensures
            res == self.spec_colors(),
    {
        self.colors
    }

    /// Whether to colour output: never when `$NO_COLOR` is set, else as
    /// configured, else yes.
    pub fn colors(&self, no_color: bool) -> (res: bool)
        ensures
            res == (!no_color && match self.spec_colors() {
                Some(c) => c,
                None => true,
            }),
    {
        if no_color {
            false
        } else if let Some(colors) = self.colors {
            colors
        } else {
            true
        }
    }

    /// Sets whether to colour output.
    pub fn set_colors(&mut self, colors: bool)
        ensures
            final(self).spec_colors() == Some(colors),
    {
        self.colors = Some(colors);
    }
}

} // verus!
