use quan_minesweeper::game_logic::{GameParams, GameParamsError};
use quan_minesweeper::game_settings::{Difficulty, Size, Theme, Username, valid_chars};
use quan_minesweeper::utils::{to_time, to_title};

#[test]
fn theme_toggles_between_the_two_schemes() {
    assert_eq!(Theme::Light.toggle(), Theme::Dark);
    assert_eq!(Theme::Dark.toggle(), Theme::Light);
    assert_eq!(Theme::Light.toggle().toggle(), Theme::Light);
}

#[test]
fn theme_words_round_trip() {
    assert_eq!(Theme::parse("dark"), Ok(Theme::Dark));
    assert_eq!(Theme::parse("light"), Ok(Theme::Light));
    assert!(Theme::parse("sepia").is_err());
    assert_eq!(Theme::parse(Theme::Dark.as_str()), Ok(Theme::Dark));
}

#[test]
fn difficulty_words_round_trip() {
    assert_eq!(Difficulty::parse("easy"), Ok(Difficulty::Easy));
    assert_eq!(Difficulty::parse("normal"), Ok(Difficulty::Normal));
    assert_eq!(Difficulty::parse("hard"), Ok(Difficulty::Hard));
    assert!(Difficulty::parse("Easy").is_err());
    assert!(Difficulty::parse("").is_err());
    for d in [Difficulty::Easy, Difficulty::Normal, Difficulty::Hard] {
        assert_eq!(Difficulty::parse(d.as_str()), Ok(d));
    }
}

#[test]
fn size_words_round_trip() {
    assert_eq!(Size::parse("small"), Ok(Size::Small));
    assert_eq!(Size::parse("medium"), Ok(Size::Medium));
    assert_eq!(Size::parse("large"), Ok(Size::Large));
    assert!(Size::parse("huge").is_err());
    for z in [Size::Small, Size::Medium, Size::Large] {
        assert_eq!(Size::parse(z.as_str()), Ok(z));
    }
}

#[test]
fn game_params_parse_reports_the_bad_word() {
    let p = GameParams::parse("hard", "medium").unwrap();
    assert_eq!(p.difficulty, Difficulty::Hard);
    assert_eq!(p.size, Size::Medium);
    assert!(matches!(
        GameParams::parse("tough", "medium"),
        Err(GameParamsError::InvalidDifficulty(_))
    ));
    assert!(matches!(
        GameParams::parse("hard", "tiny"),
        Err(GameParamsError::InvalidSize(_))
    ));
}

#[test]
fn usernames_keep_their_origin() {
    let u = Username::new(String::from("Quan"));
    assert_eq!(u.name, "Quan");
    assert!(u.stable);
    assert!(Username::random().stable);
    let picked = Username::from_option(Some(String::from("ada_l")));
    assert_eq!(picked.name, "ada_l");
    assert!(picked.stable);
    let fallback = Username::from_option(None);
    assert!(!fallback.stable);
    assert!(!fallback.name.is_empty());
}

#[test]
fn username_characters_are_checked() {
    assert!(valid_chars("Quan_Player"));
    assert!(valid_chars(""));
    assert!(!valid_chars("no spaces"));
    assert!(!valid_chars("nine9"));
    assert!(!valid_chars("dash-ed"));
}

#[test]
fn titles_and_times_render() {
    assert_eq!(to_title("easy"), "Easy");
    assert_eq!(to_title("medium"), "Medium");
    assert_eq!(to_title("Hard"), "Hard");
    assert_eq!(to_time(0), "00:00");
    assert_eq!(to_time(65), "01:05");
    assert_eq!(to_time(599), "09:59");
    assert_eq!(to_time(60 * 99), "00:00");
    assert_eq!(to_time(3599), "59:59");
}
