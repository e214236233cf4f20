use rwpspread::config::{parse_diagonals, Alignment, Backend, Config, ConfigError, InitGroup, Locker};
use rwpspread::text::{i32_to_string, parse_diagonal_entry, parse_u32, trim_str, u32_to_string};

#[test]
fn parse_u32_accepts_exactly_fitting_digit_strings() {
    assert_eq!(parse_u32("0"), Some(0));
    assert_eq!(parse_u32("27"), Some(27));
    assert_eq!(parse_u32("4294967295"), Some(u32::MAX));
    assert_eq!(parse_u32("4294967296"), None);
    assert_eq!(parse_u32(""), None);
    assert_eq!(parse_u32("2a"), None);
    assert_eq!(parse_u32("-1"), None);
    assert_eq!(parse_u32(" 7"), None);
}

#[test]
fn decimal_formatting_round_trips() {
    assert_eq!(u32_to_string(0), "0");
    assert_eq!(u32_to_string(1080), "1080");
    assert_eq!(u32_to_string(u32::MAX), "4294967295");
    assert_eq!(i32_to_string(-1920), "-1920");
    assert_eq!(i32_to_string(0), "0");
    assert_eq!(i32_to_string(i32::MIN), "-2147483648");
    assert_eq!(parse_u32(&u32_to_string(987654321)), Some(987654321));
}

#[test]
fn trim_removes_surrounding_whitespace() {
    assert_eq!(trim_str("  DP-1\t"), "DP-1");
    assert_eq!(trim_str("x"), "x");
    assert_eq!(trim_str("   "), "");
    assert_eq!(trim_str(""), "");
}

#[test]
fn diagonal_entries_parse_name_and_inches() {
    assert_eq!(parse_diagonal_entry("DP-1:27"), Some(("DP-1".to_string(), 27)));
    assert_eq!(parse_diagonal_entry(" DP-1 : 27 "), Some(("DP-1".to_string(), 27)));
    assert_eq!(parse_diagonal_entry("DP-1"), None);
    assert_eq!(parse_diagonal_entry("a:b:c"), None);
    assert_eq!(parse_diagonal_entry("DP-1:x"), None);
    assert_eq!(parse_diagonal_entry("DP-1:"), None);
    assert_eq!(parse_diagonal_entry("DP-1:99999999999"), None);
}

#[test]
fn diagonal_list_rejects_malformed_entries() {
    let good = vec!["A:27".to_string(), "B:24".to_string()];
    assert_eq!(
        parse_diagonals(&good),
        Ok(vec![("A".to_string(), 27), ("B".to_string(), 24)])
    );
    for bad in ["broken", "C:zz", "a:1:2", "D:"] {
        let entries = vec!["A:27".to_string(), bad.to_string()];
        let r = parse_diagonals(&entries);
        assert_eq!(r, Err(ConfigError::MalformedDiagonalEntry));
        assert_eq!(r.unwrap_err().message(), "malformed monitor diagonal entry");
    }
}

#[test]
fn config_new_returns_none_without_an_image() {
    let init = InitGroup { image: None, info: true };
    let c = Config::new(
        init, None, None, None, None, None, None, None, false, false, false, None, None, false,
        false,
    )
    .unwrap();
    assert!(c.is_none());
}

#[test]
fn config_new_rejects_malformed_diagonals() {
    let init = InitGroup { image: Some("pic.png".to_string()), info: false };
    let r = Config::new(
        init,
        Some("/abs/pic.png".to_string()),
        None,
        None,
        None,
        None,
        None,
        Some(vec!["A:27".to_string(), "bad".to_string()]),
        true,
        false,
        false,
        None,
        None,
        false,
        false,
    );
    assert!(matches!(r, Err(ConfigError::MalformedDiagonalEntry)));
}

#[test]
fn config_new_assembles_all_fields() {
    let init = InitGroup { image: Some("pic.png".to_string()), info: false };
    let c = Config::new(
        init,
        Some("/abs/pic.png".to_string()),
        Some("/out".to_string()),
        Some(Alignment::Bl),
        Some(Backend::Hyprpaper),
        Some(Locker::Swaylock),
        Some(13),
        Some(vec!["A:27".to_string(), "B:24".to_string()]),
        true,
        true,
        true,
        Some("/pre.sh".to_string()),
        Some("/post.sh".to_string()),
        true,
        true,
    )
    .unwrap()
    .unwrap();
    assert_eq!(c.raw_input_path, "pic.png");
    assert_eq!(c.input_path, "/abs/pic.png");
    assert_eq!(c.output_path, Some("/out".to_string()));
    assert_eq!(c.align, Some(Alignment::Bl));
    assert_eq!(c.backend, Some(Backend::Hyprpaper));
    assert_eq!(c.locker, Some(Locker::Swaylock));
    assert_eq!(c.bezel, Some(13));
    assert_eq!(c.diagonals, vec![("A".to_string(), 27), ("B".to_string(), 24)]);
    assert!(c.ppi && c.daemon && c.palette && c.watch && c.force_resplit);
    assert!(!c.info);
    assert_eq!(c.pre_path, Some("/pre.sh".to_string()));
    assert_eq!(c.post_path, Some("/post.sh".to_string()));
}

#[test]
fn selection_names_match_their_binaries() {
    assert_eq!(Backend::Wpaperd.to_string(), "wpaperd");
    assert_eq!(Backend::Swaybg.to_string(), "swaybg");
    assert_eq!(Backend::Hyprpaper.to_string(), "hyprpaper");
    assert_eq!(Locker::Swaylock.to_string(), "swaylock");
    assert_eq!(Locker::Hyprlock.to_string(), "hyprlock");
}
