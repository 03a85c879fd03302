//! The color mode of external tools (`bat`, `delta`), which follows the light
//! or dark scheme of the desktop.
//!
//! The scheme is detected once at startup and pinned. It is passed on to the
//! tools explicitly, since they see a pipe rather than the terminal.
use crate::text::{self, contains, same, split_whitespace, trim};
use vstd::prelude::*;

verus! {

/// The color scheme of the desktop.
#[derive(Clone, Copy, Debug, PartialEq, Eq, Structural)]
pub enum ColorScheme {
    Light,
    Dark,
    /// not detected: tools get no theme forced on them
    Unknown,
}

impl Default for ColorScheme {
    fn default() -> (r: ColorScheme)
        ensures
            r == ColorScheme::Unknown,
    {
        ColorScheme::Unknown
    }
}

impl ColorScheme {
    /// The theme value of `bat` for a background of this kind.
    pub fn bat_theme(self) -> (r: Option<&'static str>)
        ensures
            match self {
                ColorScheme::Light => r is Some && r->0@ == "light"@,
                ColorScheme::Dark => r is Some && r->0@ == "dark"@,
                ColorScheme::Unknown => r is None,
            },
    {
        match self {
            ColorScheme::Light => Some("light"),
            ColorScheme::Dark => Some("dark"),
            ColorScheme::Unknown => None,
        }
    }

    /// The flag of `delta` that selects its syntax theme and its palette of
    /// additions and deletions.
    pub fn delta_flag(self) -> (r: Option<&'static str>)
        ensures
            match self {
                ColorScheme::Light => r is Some && r->0@ == "--light"@,
                ColorScheme::Dark => r is Some && r->0@ == "--dark"@,
                ColorScheme::Unknown => r is None,
            },
    {
        match self {
            ColorScheme::Light => Some("--light"),
            ColorScheme::Dark => Some("--dark"),
            ColorScheme::Unknown => None,
        }
    }
}

/// Pin the detected scheme; what was pinned first stays.
pub fn set(pinned: &mut Option<ColorScheme>, scheme: ColorScheme)
    ensures
        *final(pinned) == match *old(pinned) {
            Some(first) => Some(first),
            None => Some(scheme),
        },
{
    if pinned.is_none() {
        *pinned = Some(scheme);
    }
}

/// The pinned scheme, or [`ColorScheme::Unknown`] if none was pinned.
pub fn get(pinned: &Option<ColorScheme>) -> (r: ColorScheme)
    ensures
        r == match *pinned {
            Some(scheme) => scheme,
            None => ColorScheme::Unknown,
        },
{
    match pinned {
        Some(scheme) => *scheme,
        None => ColorScheme::Unknown,
    }
}

/// The scheme that a desktop portal's answer stands for. The value comes
/// wrapped in one or two variants.
pub open spec fn portal_scheme(output: Seq<char>) -> ColorScheme {
    let w = text::words(output);
    let twice = w.len() == 4 && w[0] == "v"@ && w[1] == "v"@ && w[2] == "u"@;
    let once = w.len() == 3 && w[0] == "v"@ && w[1] == "u"@;
    if (twice || once) && w.last() == "1"@ {
        ColorScheme::Dark
    } else if (twice || once) && w.last() == "2"@ {
        ColorScheme::Light
    } else {
        ColorScheme::Unknown
    }
}

/// The scheme that a GNOME setting stands for.
pub open spec fn gsettings_scheme(output: Seq<char>) -> ColorScheme {
    if text::trimmed(output) == "'prefer-light'"@ {
        ColorScheme::Light
    } else if text::trimmed(output) == "'prefer-dark'"@ {
        ColorScheme::Dark
    } else {
        ColorScheme::Unknown
    }
}

/// Read a desktop portal's answer, such as `v v u 2`.
pub fn parse_portal_scheme(output: &str) -> (r: ColorScheme)
    ensures
        r == portal_scheme(output@),
{
    let words = split_whitespace(output);
    let n: usize = words.len();
    assert(forall|i: int| 0 <= i < n ==> text::words(output@)[i] == (#[trigger] words@[i])@);
    let twice = n == 4 && same(words[0].as_str(), "v") && same(words[1].as_str(), "v") && same(
        words[2].as_str(),
        "u",
    );
    let once = n == 3 && same(words[0].as_str(), "v") && same(words[1].as_str(), "u");
    if twice || once {
        if same(words[n - 1].as_str(), "1") {
            return ColorScheme::Dark;
        }
        proof {
            reveal_strlit("1");
            reveal_strlit("2");
        }
        if same(words[n - 1].as_str(), "2") {
            return ColorScheme::Light;
        }
    }
    ColorScheme::Unknown
}

/// Read the GNOME color scheme setting.
pub fn parse_gsettings_scheme(output: &str) -> (r: ColorScheme)
    ensures
        r == gsettings_scheme(output@),
{
    let value = trim(output);
    if same(value.as_str(), "'prefer-light'") {
        ColorScheme::Light
    } else if same(value.as_str(), "'prefer-dark'") {
        ColorScheme::Dark
    } else {
        ColorScheme::Unknown
    }
}

/// Read the answer of a Windows registry query for the light app theme.
pub fn parse_registry_scheme(output: &str) -> (r: ColorScheme)
    ensures
        r == if text::occurs(output@, "0x1"@) {
            ColorScheme::Light
        } else if text::occurs(output@, "0x0"@) {
            ColorScheme::Dark
        } else {
            ColorScheme::Unknown
        },
{
    if contains(output, "0x1") {
        ColorScheme::Light
    } else if contains(output, "0x0") {
        ColorScheme::Dark
    } else {
        ColorScheme::Unknown
    }
}

/// What the portal's answer decides: the scheme, or `None` if the GNOME
/// settings have to be asked too.
pub fn scheme_from_portal(answer: Option<&str>) -> (r: Option<ColorScheme>)
    ensures
        match answer {
            Some(output) => r == if portal_scheme(output@) == ColorScheme::Unknown {
                None
            } else {
                Some(portal_scheme(output@))
            },
            None => r is None,
        },
{
    match answer {
        Some(output) => {
            let scheme = parse_portal_scheme(output);
            if scheme == ColorScheme::Unknown {
                None
            } else {
                Some(scheme)
            }
        },
        None => None,
    }
}

/// What the GNOME settings decide once the portal has not.
pub fn scheme_from_gsettings(answer: Option<&str>) -> (r: ColorScheme)
    ensures
        r == match answer {
            Some(output) => gsettings_scheme(output@),
            None => ColorScheme::Unknown,
        },
{
    match answer {
        Some(output) => parse_gsettings_scheme(output),
        None => ColorScheme::Unknown,
    }
}

/// What is known of a settings program that was started.
#[derive(Clone, Copy, Debug, PartialEq, Eq, Structural)]
pub enum SettingsPoll {
    /// it ended, successfully or not
    Exited(bool),
    Running,
    /// its state could not be read
    Failed,
}

/// What to do about a settings program.
#[derive(Clone, Copy, Debug, PartialEq, Eq, Structural)]
pub enum SettingsAction {
    ReadOutput,
    GiveUp,
    Sleep,
    Kill,
}

/// What follows a look at a settings program.
pub open spec fn action_after(poll: SettingsPoll, before_deadline: bool) -> SettingsAction {
    match poll {
        SettingsPoll::Exited(true) => SettingsAction::ReadOutput,
        SettingsPoll::Exited(false) => SettingsAction::GiveUp,
        SettingsPoll::Running => if before_deadline {
            SettingsAction::Sleep
        } else {
            SettingsAction::Kill
        },
        SettingsPoll::Failed => SettingsAction::Kill,
    }
}

/// Wait for a settings program, but not beyond the deadline.
pub fn settings_action(poll: SettingsPoll, before_deadline: bool) -> (r: SettingsAction)
    ensures
        r == action_after(poll, before_deadline),
{
    match poll {
        SettingsPoll::Exited(success) => if success {
            SettingsAction::ReadOutput
        } else {
            SettingsAction::GiveUp
        },
        SettingsPoll::Running => if before_deadline {
            SettingsAction::Sleep
        } else {
            SettingsAction::Kill
        },
        SettingsPoll::Failed => SettingsAction::Kill,
    }
}

/// The answers of the desktop: one is dark and two is light, with or without the
/// variant around it; anything else says nothing.
pub proof fn lemma_answers_of_the_desktop(output: Seq<char>)
    ensures
        text::words(output) == seq!["v"@, "v"@, "u"@, "1"@] ==> portal_scheme(output)
            == ColorScheme::Dark,
        text::words(output) == seq!["v"@, "u"@, "1"@] ==> portal_scheme(output)
            == ColorScheme::Dark,
        text::words(output) == seq!["v"@, "v"@, "u"@, "2"@] ==> portal_scheme(output)
            == ColorScheme::Light,
        text::words(output) == seq!["v"@, "u"@, "2"@] ==> portal_scheme(output)
            == ColorScheme::Light,
        text::words(output).len() != 3 && text::words(output).len() != 4 ==> portal_scheme(output)
            == ColorScheme::Unknown,
        portal_scheme(output) == ColorScheme::Dark ==> text::words(output).last() == "1"@,
        portal_scheme(output) == ColorScheme::Light ==> text::words(output).last() == "2"@,
{
    reveal_strlit("1");
    reveal_strlit("2");
    assert("1"@[0] == '1' && "2"@[0] == '2');
}

/// A setting is read whatever blanks stand around it.
pub proof fn lemma_settings_are_read(before: Seq<char>, behind: Seq<char>)
    requires
        forall|i: int| 0 <= i < before.len() ==> text::whitespace(#[trigger] before[i]),
        forall|i: int| 0 <= i < behind.len() ==> text::whitespace(#[trigger] behind[i]),
    ensures
        gsettings_scheme(before + "'prefer-light'"@ + behind) == ColorScheme::Light,
        gsettings_scheme(before + "'prefer-dark'"@ + behind) == ColorScheme::Dark,
        gsettings_scheme(before + "'default'"@ + behind) == ColorScheme::Unknown,
{
    reveal_strlit("'prefer-light'");
    reveal_strlit("'prefer-dark'");
    reveal_strlit("'default'");
    text::lemma_blanks_around(before, "'prefer-light'"@, behind);
    text::lemma_blanks_around(before, "'prefer-dark'"@, behind);
    text::lemma_blanks_around(before, "'default'"@, behind);
    assert("'prefer-light'"@.len() == 14 && "'prefer-dark'"@.len() == 13 && "'default'"@.len()
        == 9);
}

/// Only the output of a program that succeeded is read, nothing is waited for
/// beyond the deadline, and no program that has ended is killed.
pub proof fn lemma_programs_are_waited_for(poll: SettingsPoll, before_deadline: bool)
    ensures
        action_after(poll, before_deadline) == SettingsAction::ReadOutput <==> poll
            == SettingsPoll::Exited(true),
        action_after(poll, before_deadline) == SettingsAction::Sleep <==> poll
            == SettingsPoll::Running && before_deadline,
        action_after(poll, before_deadline) == SettingsAction::GiveUp <==> poll
            == SettingsPoll::Exited(false),
        poll is Exited ==> action_after(poll, before_deadline) != SettingsAction::Kill,
{
}

} // verus!
