use admiral::favorites::{
    add_favorite, favorites_in_display_order, is_starred, parse_hex_color, remove_favorite,
    toggle_star, validate_hex_color, Favorites,
};

#[test]
fn favorites_are_folded_sorted_and_unique() {
    let mut f = Favorites::new();
    assert!(add_favorite(&mut f, "Zed"));
    assert!(add_favorite(&mut f, "alpha"));
    assert!(add_favorite(&mut f, "Mid"));
    assert!(!add_favorite(&mut f, "ALPHA"));
    assert_eq!(f.channels, vec!["alpha".to_string(), "mid".to_string(), "zed".to_string()]);
}

#[test]
fn stars_follow_favorites() {
    let mut f = Favorites::new();
    assert!(add_favorite(&mut f, "b"));
    assert!(add_favorite(&mut f, "a"));
    toggle_star(&mut f, "nobody");
    assert!(f.starred.is_empty());
    toggle_star(&mut f, "B");
    toggle_star(&mut f, "a");
    assert_eq!(f.starred, vec!["a".to_string(), "b".to_string()]);
    assert!(is_starred(&f, "A"));
    toggle_star(&mut f, "a");
    assert!(!is_starred(&f, "a"));
    let (starred, regular) = favorites_in_display_order(&f);
    assert_eq!(starred, vec!["b".to_string()]);
    assert_eq!(regular, vec!["a".to_string()]);
    remove_favorite(&mut f, "B");
    assert_eq!(f.channels, vec!["a".to_string()]);
    assert!(f.starred.is_empty());
}

#[test]
fn hex_colors() {
    assert!(validate_hex_color("#1a1A9f"));
    assert!(!validate_hex_color("#1a1A9"));
    assert!(!validate_hex_color("1a1A9f0"));
    assert!(!validate_hex_color("#1a1A9g"));
    assert!(!validate_hex_color("#1a1A9é"));
    assert!(!validate_hex_color(""));
}

#[test]
fn hex_color_bytes() {
    assert_eq!(parse_hex_color("#1a2B3c"), Some((0x1a, 0x2b, 0x3c)));
    assert_eq!(parse_hex_color("#FFFFFF"), Some((255, 255, 255)));
    assert_eq!(parse_hex_color("#000000"), Some((0, 0, 0)));
    assert_eq!(parse_hex_color("#00000"), None);
}
