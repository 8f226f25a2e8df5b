use niri_groom::opts::{app_id_candidate, choose_app_id, parse_argv, APP_ID, APP_NAMESPACE};

fn argv(args: &[&str]) -> Vec<String> {
    args.iter().map(|s| s.to_string()).collect()
}

#[test]
fn defaults_without_flags() {
    let o = parse_argv(&argv(&["niri-groom"]));
    assert_eq!(o.namespace, APP_NAMESPACE);
    assert_eq!(o.solo_monitor, None);
    assert_eq!(o.output, None);
    assert!(!o.toggle);
    assert!(!o.focus);
}

#[test]
fn flags_take_values_inline_or_from_the_next_argument() {
    let o = parse_argv(&argv(&[
        "niri-groom", "--toggle", "--solo", "HDMI-A-1", "--open-on-monitor=eDP-1", "--app-id", "niri-groom-map", "--focus",
    ]));
    assert!(o.toggle);
    assert!(o.focus);
    assert_eq!(o.solo_monitor.as_deref(), Some("HDMI-A-1"));
    assert_eq!(o.output.as_deref(), Some("eDP-1"));
    assert_eq!(o.namespace, "niri-groom-map");
}

#[test]
fn an_unknown_flag_is_skipped_and_the_program_name_ignored() {
    let o = parse_argv(&argv(&["--toggle", "--verbose", "--focus"]));
    assert!(!o.toggle);
    assert!(o.focus);
}

#[test]
fn a_flag_missing_its_value_leaves_the_default() {
    let o = parse_argv(&argv(&["niri-groom", "--app-id"]));
    assert_eq!(o.namespace, APP_NAMESPACE);
    let o = parse_argv(&argv(&["niri-groom", "--solo"]));
    assert_eq!(o.solo_monitor, None);
}

#[test]
fn a_value_is_taken_even_when_it_looks_like_a_flag() {
    let o = parse_argv(&argv(&["niri-groom", "--solo", "--toggle"]));
    assert_eq!(o.solo_monitor.as_deref(), Some("--toggle"));
    assert!(!o.toggle);
}

#[test]
fn an_inline_value_splits_at_the_first_equals_sign() {
    let o = parse_argv(&argv(&["niri-groom", "--solo=a=b", "--app-id="]));
    assert_eq!(o.solo_monitor.as_deref(), Some("a=b"));
    assert_eq!(o.namespace, "");
    let o = parse_argv(&argv(&["niri-groom", "--toggle=yes"]));
    assert!(o.toggle);
}

#[test]
fn the_app_id_falls_back_from_namespace_to_candidate_to_default() {
    assert_eq!(app_id_candidate("map"), "io.iwd.map");
    assert_eq!(choose_app_id("a.b", true, true), "a.b");
    assert_eq!(choose_app_id("map", false, true), "io.iwd.map");
    assert_eq!(choose_app_id("!!", false, false), APP_ID);
}
