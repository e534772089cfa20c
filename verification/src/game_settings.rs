//! Player-facing settings: color theme, username, and the two parameters of
//! a game — difficulty and board size — together with their string forms as
//! read from and written to the settings store.

use vstd::prelude::*;
use vstd::string::StrSliceExecFns;
use vstd::string::StringExecFns;
use crate::rng::rand_below;
use crate::utils::str_eq;

verus! {

/// The theme the other of the two color schemes is switched to.
pub open spec fn toggled_theme(t: Theme) -> Theme {
    match t {
        Theme::Light => Theme::Dark,
        Theme::Dark => Theme::Light,
    }
}

/// The word a theme is stored under.
pub open spec fn theme_name(t: Theme) -> Seq<char> {
    match t {
        Theme::Light => "light"@,
        Theme::Dark => "dark"@,
    }
}

/// Color scheme of the page, persisted outside the game core.
#[derive(Copy, Clone, Debug, PartialEq, Eq, Structural)]
pub enum Theme {
    Light,
    Dark,
}

impl Default for Theme {
    fn default() -> (r: Self)
        ensures
            r == Theme::Light,
    {
        Theme::Light
    }
}

impl Theme {
    /// Switches to the other color scheme.
    pub fn toggle(self) -> (r: Self)
        ensures
            r == toggled_theme(self),
    {
        match self {
            Self::Dark => Self::Light,
            Self::Light => Self::Dark,
        }
    }

    /// The word this theme is stored under.
    pub fn as_str(self) -> (r: &'static str)
        ensures
            r@ == theme_name(self),
    {
        match self {
            Self::Dark => "dark",
            Self::Light => "light",
        }
    }

    /// Reads a theme back from its stored word; any other word is rejected.
    pub fn parse(s: &str) -> (r: Result<Theme, ()>)
        ensures
            (match r {
                Ok(t) => s@ == theme_name(t),
                Err(()) => s@ != theme_name(Theme::Dark) && s@ != theme_name(Theme::Light),
            }),
    {
        if str_eq(s, "dark") {
            Ok(Theme::Dark)
        } else if str_eq(s, "light") {
            Ok(Theme::Light)
        } else {
            Err(())
        }
    }
}

/// The name a finished game is recorded under, and whether the player chose
/// it (`stable`) rather than having it drawn at random as a placeholder.
#[derive(Clone, Debug)]
pub struct Username {
    pub name: String,
    pub stable: bool,
}

/// Draws one of a fixed set of placeholder names for players who have not
/// chosen one.
fn random_name() -> (r: String) {
    let pick = rand_below(12);
    let name: &str = if pick == 0 {
        "Badger"
    } else if pick == 1 {
        "Falcon"
    } else if pick == 2 {
        "Otter"
    } else if pick == 3 {
        "Lynx"
    } else if pick == 4 {
        "Heron"
    } else if pick == 5 {
        "Marmot"
    } else if pick == 6 {
        "Puffin"
    } else if pick == 7 {
        "Weasel"
    } else if pick == 8 {
        "Osprey"
    } else if pick == 9 {
        "Stoat"
    } else if pick == 10 {
        "Gannet"
    } else {
        "Vole"
    };
    String::from_str(name)
}

impl Username {
    /// Wraps a name the player typed in.
    pub fn new(name: String) -> (r: Self)
        ensures
            r.name == name,
            r.stable,
    {
        Self { name, stable: true }
    }

    /// Draws a fresh placeholder name at the player's request.
    pub fn random() -> (r: Self)
        ensures
            r.stable,
    {
        Self { name: random_name(), stable: true }
    }

    /// The username read from the settings store: the stored name when there
    /// is one, otherwise a random placeholder that is not persisted back.
    pub fn from_option(value: Option<String>) -> (r: Self)
        ensures
            (match value {
                Some(name) => r.name == name && r.stable,
                None => !r.stable,
            }),
    {
        if let Some(name) = value {
            Self { name, stable: true }
        } else {
            Self { name: random_name(), stable: false }
        }
    }
}

/// Whether a character may appear in a username: ASCII letters and the
/// underscore.
pub open spec fn is_name_char(c: char) -> bool {
    ||| (97 <= c as u32 && c as u32 <= 122)
    ||| (65 <= c as u32 && c as u32 <= 90)
    ||| c == '_'
}

/// Checks that every character of a username is an ASCII letter or an
/// underscore.
pub fn valid_chars(username: &str) -> (r: bool)
    ensures
        r == (forall|i: int| 0 <= i < username@.len() ==> is_name_char(#[trigger] username@[i])),
{
    let n = username.unicode_len();
    let mut i: usize = 0;
    while i < n
        invariant
            i <= n,
            n == username@.len(),
            forall|j: int| 0 <= j < i ==> is_name_char(#[trigger] username@[j]),
        decreases n - i,
    {
        let c = username.get_char(i);
        let x = c as u32;
        let ok = (97 <= x && x <= 122) || (65 <= x && x <= 90) || c == '_';
        if !ok {
            return false;
        }
        i = i + 1;
    }
    true
}

/// Rejection marker for a difficulty word that names no difficulty.
#[derive(Copy, Clone, Debug, PartialEq, Eq, Structural)]
pub struct ParseDifficultyError;

impl ParseDifficultyError {
    /// The human-readable description of this rejection.
    pub fn message(&self) -> (r: String)
        ensures
            r@ == "Error parsing game difficulty"@,
    {
        String::from_str("Error parsing game difficulty")
    }
}

/// The word a difficulty is stored under.
pub open spec fn difficulty_name(d: Difficulty) -> Seq<char> {
    match d {
        Difficulty::Easy => "easy"@,
        Difficulty::Normal => "normal"@,
        Difficulty::Hard => "hard"@,
    }
}

/// How thickly the board is seeded with mines.
#[derive(Copy, Clone, Debug, PartialEq, Eq, Structural)]
pub enum Difficulty {
    Easy,
    Normal,
    Hard,
}

impl Default for Difficulty {
    fn default() -> (r: Self)
        ensures
            r == Difficulty::Easy,
    {
        Difficulty::Easy
    }
}

impl Difficulty {
    /// The word this difficulty is stored under.
    pub fn as_str(self) -> (r: &'static str)
        ensures
            r@ == difficulty_name(self),
    {
        match self {
            Self::Easy => "easy",
            Self::Normal => "normal",
            Self::Hard => "hard",
        }
    }

    /// Reads a difficulty back from its stored word; any other word is
    /// rejected.
    pub fn parse(s: &str) -> (r: Result<Difficulty, ParseDifficultyError>)
        ensures
            (match r {
                Ok(d) => s@ == difficulty_name(d),
                Err(_) => s@ != difficulty_name(Difficulty::Easy) && s@ != difficulty_name(
                    Difficulty::Normal,
                ) && s@ != difficulty_name(Difficulty::Hard),
            }),
    {
        if str_eq(s, "easy") {
            Ok(Difficulty::Easy)
        } else if str_eq(s, "normal") {
            Ok(Difficulty::Normal)
        } else if str_eq(s, "hard") {
            Ok(Difficulty::Hard)
        } else {
            Err(ParseDifficultyError)
        }
    }
}

/// Rejection marker for a board-size word that names no size.
#[derive(Copy, Clone, Debug, PartialEq, Eq, Structural)]
pub struct ParseSizeError;

impl ParseSizeError {
    /// The human-readable description of this rejection.
    pub fn message(&self) -> (r: String)
        ensures
            r@ == "Error parsing gameboard size"@,
    {
        String::from_str("Error parsing gameboard size")
    }
}

/// The word a board size is stored under.
pub open spec fn size_name(s: Size) -> Seq<char> {
    match s {
        Size::Small => "small"@,
        Size::Medium => "medium"@,
        Size::Large => "large"@,
    }
}

/// How many rows and columns the board has.
#[derive(Copy, Clone, Debug, PartialEq, Eq, Structural)]
pub enum Size {
    Small,
    Medium,
    Large,
}

impl Default for Size {
    fn default() -> (r: Self)
        ensures
            r == Size::Small,
    {
        Size::Small
    }
}

impl Size {
    /// The word this size is stored under.
    pub fn as_str(self) -> (r: &'static str)
        ensures
            r@ == size_name(self),
    {
        match self {
            Self::Small => "small",
            Self::Medium => "medium",
            Self::Large => "large",
        }
    }

    /// Reads a board size back from its stored word; any other word is
    /// rejected.
    pub fn parse(s: &str) -> (r: Result<Size, ParseSizeError>)
        ensures
            (match r {
                Ok(z) => s@ == size_name(z),
                Err(_) => s@ != size_name(Size::Small) && s@ != size_name(Size::Medium) && s@
                    != size_name(Size::Large),
            }),
    {
        if str_eq(s, "small") {
            Ok(Size::Small)
        } else if str_eq(s, "medium") {
            Ok(Size::Medium)
        } else if str_eq(s, "large") {
            Ok(Size::Large)
        } else {
            Err(ParseSizeError)
        }
    }
}

} // verus!
