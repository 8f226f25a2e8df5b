use niri_groom::theme::{all, index_of, DEFAULT};

#[test]
fn nine_themes_with_the_default_first() {
    let themes = all();
    assert_eq!(themes.len(), 9);
    assert_eq!(themes[0].name, DEFAULT);
    assert_eq!(themes[0].accent, 0x89b4fa);
}

#[test]
fn themes_are_found_by_name() {
    assert_eq!(index_of("catppuccin-mocha"), Some(0));
    assert_eq!(index_of("nord"), Some(6));
    assert_eq!(index_of("rose-pine"), Some(8));
    assert_eq!(index_of("Nord"), None);
    assert_eq!(index_of(""), None);
}
