use gpuitop::data::theme::{find_sibling, theme_choice, list_theme_families, theme_family_of, ThemeChoice};
use gpuitop::lucide::LucideIcon;

fn themes(v: &[(&str, bool)]) -> Vec<(String, bool)> {
    v.iter().map(|(n, d)| (n.to_string(), *d)).collect()
}

#[test]
fn theme_family_is_name_before_last_space() {
    assert_eq!(theme_family_of("Ayu Dark"), "Ayu");
    assert_eq!(theme_family_of("Solarized Light Blue"), "Solarized Light");
    assert_eq!(theme_family_of("Nord"), "Nord");
    assert_eq!(theme_family_of(" Dark"), "");
}

#[test]
fn find_sibling_in_other_mode() {
    let t = themes(&[("Ayu Dark", true), ("Ayu Light", false), ("Nord", true)]);
    assert_eq!(find_sibling(&t, "Ayu Dark", false), Some(1));
    assert_eq!(find_sibling(&t, "Ayu Dark", true), None);
    assert_eq!(find_sibling(&t, "Nord", false), None);
}

#[test]
fn theme_families_grouped_and_sorted() {
    let t = themes(&[("Ayu Light", false), ("Nord", true), ("Ayu Dark", true), ("Catppuccin Mocha", true)]);
    let f = list_theme_families(&t);
    assert_eq!(
        f,
        vec![
            ("Ayu".to_string(), vec![0, 2]),
            ("Catppuccin".to_string(), vec![3]),
            ("Nord".to_string(), vec![1]),
        ]
    );
    assert!(list_theme_families(&vec![]).is_empty());
}

#[test]
fn lucide_icon_files() {
    assert_eq!(LucideIcon::Rows3.path(), "rows-3.svg");
    assert_eq!(LucideIcon::Activity.path(), "activity.svg");
    assert_eq!(LucideIcon::UserShield.path(), "user-shield.svg");
    assert_eq!(LucideIcon::X.path(), "x.svg");
}

#[test]
fn theme_choice_sets_both_slots() {
    let t = themes(&[("Ayu Dark", true), ("Ayu Light", false), ("Default Dark", true), ("Nord", true)]);
    assert_eq!(theme_choice(&t, "Ayu Light"), ThemeChoice { dark: Some(0), light: Some(1), dark_mode: false });
    assert_eq!(theme_choice(&t, "Nord"), ThemeChoice { dark: Some(3), light: None, dark_mode: true });
    assert_eq!(theme_choice(&t, "Missing"), ThemeChoice { dark: Some(2), light: None, dark_mode: true });
    let none = themes(&[("Nord", true)]);
    assert_eq!(theme_choice(&none, "Missing"), ThemeChoice { dark: None, light: None, dark_mode: true });
}
