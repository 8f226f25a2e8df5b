use niri_groom::badges::{parse_hex, read_badges, Badges};

#[test]
fn lines_are_read_into_badges_keyed_by_lowercased_name() {
    let b = read_badges(b"Code\tF1\t#ff8800\nweb\t\nchat\tF3\n");
    let code = b.get("code").expect("badge for code");
    assert_eq!(code.label, "F1");
    assert_eq!(code.color, Some(0xff8800));
    assert_eq!(b.get("web").expect("badge for web").label, "");
    assert_eq!(b.get("chat").expect("badge for chat").color, None);
    assert!(b.get("Code").is_none());
}

#[test]
fn fields_are_trimmed_and_blank_names_skipped() {
    let b = read_badges(b"  Mail  \t  F2  \t  #00FF00 \r\n\t label only\n   \n");
    let mail = b.get("mail").expect("badge for mail");
    assert_eq!(mail.label, "F2");
    assert_eq!(mail.color, Some(0x00ff00));
    assert!(b.get("").is_none());
}

#[test]
fn a_later_line_for_the_same_workspace_wins() {
    let b = read_badges(b"code\tA\ncode\tB\n");
    assert_eq!(b.get("code").expect("badge").label, "B");
}

#[test]
fn a_bad_color_is_dropped_but_the_badge_kept() {
    let b = read_badges(b"code\tA\tred\nweb\tB\t#12345\n");
    assert_eq!(b.get("code").expect("badge").color, None);
    assert_eq!(b.get("web").expect("badge").color, None);
}

#[test]
fn empty_output_gives_no_badges() {
    let b = read_badges(b"");
    assert!(b.get("code").is_none());
    assert!(Badges::new().get("code").is_none());
}

#[test]
fn output_that_is_not_utf8_is_read_lossily() {
    let b = read_badges(b"caf\xff\tX\n");
    assert_eq!(b.get("caf\u{fffd}").expect("badge").label, "X");
}

#[test]
fn a_workspace_finds_its_badge_by_name_in_any_case() {
    let b = read_badges(b"code\tF1\n");
    assert_eq!(b.for_workspace(&Some("CODE".to_string())).expect("badge").label, "F1");
    assert!(b.for_workspace(&None).is_none());
}

#[test]
fn colors_are_hash_and_six_hex_digits() {
    assert_eq!(parse_hex("#a0B1c2"), Some(0xa0b1c2));
    assert_eq!(parse_hex("#000000"), Some(0));
    assert_eq!(parse_hex("a0b1c2"), None);
    assert_eq!(parse_hex("#a0b1c"), None);
    assert_eq!(parse_hex("#a0b1c2d"), None);
    assert_eq!(parse_hex("#g0b1c2"), None);
}
