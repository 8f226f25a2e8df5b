use kdl::KdlDocument;
use niri_groom::config::{
    badge_command_from, badge_command_in, mark_kinds_from, mark_kinds_in, theme_from, theme_in, theme_to_load,
    themed_config, DEFAULT_CONFIG,
};

fn parse(text: &str) -> KdlDocument {
    text.parse().expect("valid kdl")
}

fn kinds(src: &str) -> Vec<(String, char, String)> {
    let doc = parse(src);
    mark_kinds_from(&doc)
        .into_iter()
        .map(|k| (k.name, k.key, k.command))
        .collect()
}

#[test]
fn every_declared_kind_is_read_in_order() {
    assert_eq!(
        kinds(
            r#"
            mark-kind "work" key="m" command="work.sh"
            mark-kind "personal" key="p" command="personal.sh"
            "#
        ),
        vec![
            ("work".to_string(), 'm', "work.sh".to_string()),
            ("personal".to_string(), 'p', "personal.sh".to_string()),
        ]
    );
}

#[test]
fn two_kinds_may_share_one_command() {
    let read = kinds(
        r#"
        mark-kind "work" key="m" command="marks.sh"
        mark-kind "personal" key="p" command="marks.sh"
        "#,
    );
    assert_eq!(read[0].2, read[1].2);
}

#[test]
fn a_kind_without_a_key_or_a_command_is_dropped() {
    assert_eq!(
        kinds(
            r#"
            mark-kind "nokey" command="a.sh"
            mark-kind "nocmd" key="p"
            mark-kind "fine" key="p" command="a.sh"
            "#
        )
        .len(),
        1
    );
}

#[test]
fn a_key_must_be_a_single_character() {
    assert!(kinds(r#"mark-kind "work" key="mm" command="a.sh""#).is_empty());
    assert!(kinds(r#"mark-kind "work" key="" command="a.sh""#).is_empty());
}

#[test]
fn a_kind_left_unnamed_is_called_mark() {
    assert_eq!(kinds(r#"mark-kind key="p" command="a.sh""#)[0].0, "mark");
}

#[test]
fn the_shorthand_declares_one_kind_on_m() {
    assert_eq!(
        kinds(r#"workspace-mark-toggle command="marks.sh""#),
        vec![("mark".to_string(), 'm', "marks.sh".to_string())]
    );
}

#[test]
fn a_declared_kind_wins_over_the_shorthand() {
    assert_eq!(
        kinds(
            r#"
            workspace-mark-toggle command="old.sh"
            mark-kind "work" key="m" command="new.sh"
            "#
        ),
        vec![("work".to_string(), 'm', "new.sh".to_string())]
    );
}

#[test]
fn a_config_declaring_no_marks_yields_none() {
    assert!(kinds(r#"theme "nord""#).is_empty());
}

#[test]
fn the_theme_is_the_first_theme_nodes_string() {
    let doc = parse("theme \"nord\"\ntheme \"dracula\"\n");
    assert_eq!(theme_from(&doc), Some("nord".to_string()));
    let doc = parse("theme 3\n");
    assert_eq!(theme_from(&doc), None);
    let doc = parse("// nothing\n");
    assert_eq!(theme_from(&doc), None);
}

#[test]
fn the_badge_command_prefers_the_property_over_an_argument() {
    let doc = parse("workspace-badges \"arg.sh\" command=\"prop.sh\"\n");
    assert_eq!(badge_command_from(&doc), Some("prop.sh".to_string()));
    let doc = parse("workspace-badges \"arg.sh\"\n");
    assert_eq!(badge_command_from(&doc), Some("arg.sh".to_string()));
    let doc = parse("workspace-badges command=1\n");
    assert_eq!(badge_command_from(&doc), None);
    let doc = parse("theme \"nord\"\n");
    assert_eq!(badge_command_from(&doc), None);
}

#[test]
fn the_last_of_repeated_properties_counts() {
    assert_eq!(
        kinds(r#"mark-kind "work" key="a" key="b" command="x.sh""#),
        vec![("work".to_string(), 'b', "x.sh".to_string())]
    );
}

#[test]
fn text_that_is_not_kdl_sets_nothing() {
    assert_eq!(theme_in("theme \"unterminated"), None);
    assert_eq!(badge_command_in("workspace-badges command=\"x"), None);
    assert!(mark_kinds_in("mark-kind \"w").is_empty());
}

#[test]
fn settings_are_read_straight_from_config_text() {
    let text = "theme \"nord\"\nworkspace-badges command=\"b.sh\"\nmark-kind \"work\" key=\"m\" command=\"m.sh\"\n";
    assert_eq!(theme_in(text), Some("nord".to_string()));
    assert_eq!(badge_command_in(text), Some("b.sh".to_string()));
    let kinds = mark_kinds_in(text);
    assert_eq!(kinds.len(), 1);
    assert_eq!((kinds[0].name.as_str(), kinds[0].key, kinds[0].command.as_str()), ("work", 'm', "m.sh"));
}

#[test]
fn a_saved_theme_reads_back_and_the_rest_is_kept() {
    let before = "// my config\ntheme \"nord\"\nworkspace-badges command=\"b.sh\"\n";
    let text = themed_config(Some(before), "dracula").expect("valid config is rewritten");
    assert_eq!(theme_in(&text), Some("dracula".to_string()));
    assert_eq!(badge_command_in(&text), Some("b.sh".to_string()));
    assert!(text.contains("// my config"));
    assert_eq!(text, "// my config\ntheme dracula\nworkspace-badges command=\"b.sh\"\n");
}

#[test]
fn saving_a_theme_into_a_missing_config_starts_afresh() {
    let text = themed_config(None, "nord").expect("a missing config gets a new text");
    assert_eq!(theme_in(&text), Some("nord".to_string()));
    let text = themed_config(Some("workspace-badges command=\"b.sh\"\n"), "nord").expect("valid config");
    assert_eq!(theme_in(&text), Some("nord".to_string()));
    assert_eq!(badge_command_in(&text), Some("b.sh".to_string()));
    assert_eq!(text, "workspace-badges command=\"b.sh\"\ntheme nord\n");
    assert_eq!(themed_config(None, "nord"), Some("theme nord\n".to_string()));
}

#[test]
fn an_appended_theme_keeps_every_comment() {
    let before = "/* head */\nworkspace-badges command=\"b.sh\" // badges\n// the end\n";
    let text = themed_config(Some(before), "rose-pine").expect("valid config");
    assert!(text.contains("/* head */"));
    assert!(text.contains("// badges"));
    assert!(text.contains("// the end"));
    assert!(text.contains("theme rose-pine\n"));
    assert_eq!(text.replacen("theme rose-pine\n", "", 1), before);
    assert_eq!(theme_in(&text), Some("rose-pine".to_string()));
    assert_eq!(badge_command_in(&text), Some("b.sh".to_string()));
}

#[test]
fn a_broken_config_is_not_rewritten() {
    assert!(themed_config(Some("theme \"unterminated"), "nord").is_none());
    assert!(themed_config(Some("// keep me\nworkspace-badges command=\"b.sh"), "nord").is_none());
}

#[test]
fn an_appended_theme_is_saved_only_when_it_reads_back() {
    // The last node ends without a line break, so the appended node runs into it.
    assert_eq!(themed_config(Some("workspace-badges command=\"b.sh\""), "nord"), None);
}

#[test]
fn saving_a_theme_changes_only_the_theme_setting() {
    let before = "/* header */\n// my config\ntheme \"nord\" // keep this\nworkspace-badges command=\"b.sh\"\nmark-kind \"work\" key=\"m\" command=\"m.sh\"\n";
    let text = themed_config(Some(before), "dracula").expect("valid config is rewritten");
    assert_eq!(
        text,
        "/* header */\n// my config\ntheme dracula // keep this\nworkspace-badges command=\"b.sh\"\nmark-kind \"work\" key=\"m\" command=\"m.sh\"\n"
    );
    assert_eq!(theme_in(&text), Some("dracula".to_string()));
    assert_eq!(mark_kinds_in(&text).len(), 1);
}

#[test]
fn a_reserved_word_is_saved_quoted_and_reads_back() {
    let text = themed_config(Some("theme \"nord\"\n"), "true").expect("valid config");
    assert_eq!(theme_in(&text), Some("true".to_string()));
}

#[test]
fn the_first_run_loads_the_default_theme() {
    assert_eq!(theme_to_load(None), Some("catppuccin-mocha".to_string()));
    assert_eq!(theme_to_load(Some("theme \"nord\"\n")), Some("nord".to_string()));
    assert_eq!(theme_to_load(Some("theme \"nord")), None);
    assert_eq!(theme_to_load(Some("// nothing\n")), None);
    assert_eq!(theme_in(DEFAULT_CONFIG), theme_to_load(None));
}
