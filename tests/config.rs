use piemme::Config;

#[test]
fn test_default_config() {
    let config = Config::new();
    assert!(config.safe_mode);
    assert!(config.tag_colors.is_empty());
    assert_eq!(config.default_export_format, "rendered");
}

#[test]
fn test_tag_color() {
    let mut config = Config::new();

    let color1 = config.get_tag_color("coding").to_string();
    let color2 = config.get_tag_color("coding").to_string();
    assert_eq!(color1, color2);

    config.set_tag_color("coding".to_string(), "blue".to_string());
    assert_eq!(config.get_tag_color("coding"), "blue");
}

#[test]
fn default_tag_color_by_byte_sum() {
    let config = Config::new();
    // 'c' 'o' 'd' 'i' 'n' 'g' sum to 628, and 628 % 6 == 4
    assert_eq!(config.get_tag_color("coding"), "cyan");
    assert_eq!(config.get_tag_color(""), "blue");
    // 'a' is 97, 97 % 6 == 1
    assert_eq!(config.get_tag_color("a"), "green");
}

#[test]
fn setting_a_colour_twice_replaces_it() {
    let mut config = Config::new();
    config.set_tag_color("coding".to_string(), "blue".to_string());
    config.set_tag_color("writing".to_string(), "green".to_string());
    config.set_tag_color("coding".to_string(), "red".to_string());
    assert_eq!(config.get_tag_color("coding"), "red");
    assert_eq!(config.get_tag_color("writing"), "green");
    assert_eq!(config.tag_colors.len(), 2);
}

#[test]
fn default_is_new() {
    let config = Config::default();
    assert!(config.safe_mode);
    assert!(config.tag_colors.is_empty());
    assert_eq!(config.default_export_format, "rendered");
}
