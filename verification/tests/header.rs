use figfont::font::{FittingRules, FontError, FontOpts, Layout};
use figfont::output::OutputOpts;

#[test]
fn full_header_is_read_field_by_field() {
    let opts = FontOpts::parse("flf2a$ 6 5 16 15 11 0 24463 229").unwrap();
    assert_eq!(opts.hard_blank, '$');
    assert_eq!(opts.height, 6);
    assert_eq!(opts.baseline, 5);
    assert_eq!(opts.max_len, 16);
    assert_eq!(opts.num_comment_lines, 11);
    assert_eq!(opts.print_direction, 0);
    assert_eq!(opts.code_tag_count, Some(229));
    assert_eq!(opts.fitting_rules.hlayout(), Layout::Smushing);
    assert_eq!(opts.fitting_rules.vlayout(), Layout::Smushing);
    assert_eq!(opts.fitting_rules.hrules(), [true, true, true, true, false, false]);
    assert_eq!(opts.fitting_rules.vrules(), [true, true, true, true, true]);
}

#[test]
fn short_header_falls_back_to_the_legacy_layout() {
    let opts = FontOpts::parse("flf2a# 8 6 20 15 3").unwrap();
    assert_eq!(opts.hard_blank, '#');
    assert_eq!(opts.height, 8);
    assert_eq!(opts.baseline, 6);
    assert_eq!(opts.max_len, 20);
    assert_eq!(opts.num_comment_lines, 3);
    assert_eq!(opts.print_direction, 0);
    assert_eq!(opts.code_tag_count, None);
    assert_eq!(opts.fitting_rules.hlayout(), Layout::Smushing);
    assert_eq!(opts.fitting_rules.vlayout(), Layout::FullWidth);
    assert_eq!(opts.fitting_rules.hrules(), [true, true, true, true, false, false]);
    assert_eq!(opts.fitting_rules.vrules(), [false; 5]);
}

#[test]
fn print_direction_alone_keeps_the_legacy_layout() {
    let opts = FontOpts::parse("flf2a$ 4 3 10 -1 0 1").unwrap();
    assert_eq!(opts.print_direction, 1);
    assert_eq!(opts.code_tag_count, None);
    assert_eq!(opts.fitting_rules.hlayout(), Layout::FullWidth);
    assert_eq!(opts.fitting_rules.vlayout(), Layout::FullWidth);
    assert_eq!(opts.fitting_rules.hrules(), [false; 6]);
    let opts = FontOpts::parse("flf2a$ 4 3 10 0 0 1").unwrap();
    assert_eq!(opts.fitting_rules.hlayout(), Layout::Fitting);
    assert_eq!(opts.fitting_rules.vlayout(), Layout::FullWidth);
}

#[test]
fn layout_field_overrides_the_legacy_value() {
    let opts = FontOpts::parse("flf2a$ 4 3 10 15 0 0 64").unwrap();
    assert_eq!(opts.fitting_rules.hlayout(), Layout::Fitting);
    assert_eq!(opts.fitting_rules.hrules(), [false; 6]);
    let opts = FontOpts::parse("flf2a$ 4 3 10 -1 0 0 192").unwrap();
    assert_eq!(opts.fitting_rules.hlayout(), Layout::Smushing);
    let opts = FontOpts::parse("flf2a$ 4 3 10 -1 0 0 24576").unwrap();
    assert_eq!(opts.fitting_rules.vlayout(), Layout::Smushing);
    assert_eq!(opts.fitting_rules.hlayout(), Layout::FullWidth);
}

#[test]
fn unused_layout_bit_is_ignored() {
    let with = FontOpts::parse("flf2a$ 4 3 10 0 0 0 57231").unwrap();
    let without = FontOpts::parse("flf2a$ 4 3 10 0 0 0 24463").unwrap();
    assert_eq!(with.fitting_rules.hlayout(), without.fitting_rules.hlayout());
    assert_eq!(with.fitting_rules.vlayout(), without.fitting_rules.vlayout());
    assert_eq!(with.fitting_rules.hrules(), without.fitting_rules.hrules());
    assert_eq!(with.fitting_rules.vrules(), without.fitting_rules.vrules());
    assert_eq!(with.fitting_rules.hlayout(), Layout::Smushing);
}

#[test]
fn hard_blank_is_the_sixth_character_of_the_tag() {
    assert_eq!(FontOpts::parse("flf2a@ 1 1 1 0 0").unwrap().hard_blank, '@');
    assert_eq!(FontOpts::parse("flf2a$xyz 1 1 1 0 0").unwrap().hard_blank, '$');
    assert_eq!(FontOpts::parse("abcdef 1 1 1 0 0").unwrap().hard_blank, 'f');
}

#[test]
fn fields_beyond_the_ninth_are_ignored() {
    let opts = FontOpts::parse("flf2a$ 6 5 16 15 11 0 24463 229 junk more").unwrap();
    assert_eq!(opts.code_tag_count, Some(229));
    assert_eq!(opts.height, 6);
}

#[test]
fn parse_bytes_reads_the_same_header() {
    let opts = FontOpts::parse_bytes(b"flf2a$ 6 5 16 15 11 0 24463 229").unwrap();
    assert_eq!(opts.hard_blank, '$');
    assert_eq!(opts.height, 6);
    assert_eq!(opts.code_tag_count, Some(229));
}

#[test]
fn missing_required_field_is_a_header_error() {
    assert_eq!(FontOpts::parse("").unwrap_err(), FontError::FontHeaderError);
    assert_eq!(FontOpts::parse("flf2a$").unwrap_err(), FontError::FontHeaderError);
    assert_eq!(FontOpts::parse("flf2a$ 6").unwrap_err(), FontError::FontHeaderError);
    assert_eq!(FontOpts::parse("flf2a$ 6 5 16 15").unwrap_err(), FontError::FontHeaderError);
}

#[test]
fn short_tag_is_a_header_error() {
    assert_eq!(FontOpts::parse("flf2a 6 5 16 15 11").unwrap_err(), FontError::FontHeaderError);
    assert_eq!(FontOpts::parse(" 6 5 16 15 11").unwrap_err(), FontError::FontHeaderError);
}

#[test]
fn tag_is_counted_in_characters() {
    let opts = FontOpts::parse("fl\u{e9}2a$ 6 5 16 15 11").unwrap();
    assert_eq!(opts.hard_blank, '$');
    assert_eq!(opts.height, 6);
    let opts = FontOpts::parse("\u{e9}\u{e8}\u{20ac}\u{1f600}\u{df}$ 6 5 16 15 11").unwrap();
    assert_eq!(opts.hard_blank, '$');
    let opts = FontOpts::parse("flf2\u{e9}$x 6 5 16 15 11").unwrap();
    assert_eq!(opts.hard_blank, '$');
}

#[test]
fn hard_blank_may_be_a_wide_character() {
    let opts = FontOpts::parse("flf2a\u{a3} 6 5 16 15 11").unwrap();
    assert_eq!(opts.hard_blank, '\u{a3}');
    let opts = FontOpts::parse("flf2a\u{20ac}! 6 5 16 15 11").unwrap();
    assert_eq!(opts.hard_blank, '\u{20ac}');
}

#[test]
fn tag_of_six_bytes_but_fewer_characters_is_a_header_error() {
    // Five characters in six bytes.
    assert_eq!(FontOpts::parse("flf2\u{e9} 6 5 16 15 11").unwrap_err(), FontError::FontHeaderError);
    // Three characters in nine bytes.
    assert_eq!(
        FontOpts::parse("\u{20ac}\u{20ac}\u{20ac} 6 5 16 15 11").unwrap_err(),
        FontError::FontHeaderError
    );
}

#[test]
fn tag_that_is_no_text_is_a_header_error() {
    assert!(FontOpts::parse_bytes(b"flf2a$ 6 5 16 15 11").is_ok());
    assert_eq!(
        FontOpts::parse_bytes(b"flf2a\xff 6 5 16 15 11").unwrap_err(),
        FontError::FontHeaderError
    );
    assert_eq!(
        FontOpts::parse_bytes(b"fl\xc3f2a$ 6 5 16 15 11").unwrap_err(),
        FontError::FontHeaderError
    );
    assert_eq!(
        FontOpts::parse_bytes(b"flf2a$\xe2\x82 6 5 16 15 11").unwrap_err(),
        FontError::FontHeaderError
    );
}

#[test]
fn unreadable_number_is_a_header_error() {
    for header in [
        "flf2a$ x 5 16 15 11",
        "flf2a$ 6 -5 16 15 11",
        "flf2a$ 6 5 1.5 15 11",
        "flf2a$ 6 5 16 128 11",
        "flf2a$ 6 5 16 -129 11",
        "flf2a$ 6 5 16 15 eleven",
        "flf2a$ 6 5 16 15 11 256",
        "flf2a$ 6 5 16 15 11 0 65536",
        "flf2a$ 6 5 16 15 11 0 24463 -1",
        "flf2a$ 6 5 16 15 11 0 24463 x",
        "flf2a$ 6 5 16 15 99999999999999999999999999",
    ] {
        assert_eq!(FontOpts::parse(header).unwrap_err(), FontError::FontHeaderError, "{}", header);
    }
}

#[test]
fn doubled_or_trailing_space_is_an_empty_field() {
    assert_eq!(FontOpts::parse("flf2a$  6 5 16 15 11").unwrap_err(), FontError::FontHeaderError);
    assert_eq!(FontOpts::parse("flf2a$ 6 5 16 15 11 ").unwrap_err(), FontError::FontHeaderError);
    assert_eq!(FontOpts::parse("flf2a$ 6 5 16 15  11").unwrap_err(), FontError::FontHeaderError);
}

#[test]
fn legacy_value_range_is_that_of_a_signed_byte() {
    assert_eq!(
        FontOpts::parse("flf2a$ 1 1 1 127 0").unwrap().fitting_rules.hlayout(),
        Layout::Smushing
    );
    assert_eq!(
        FontOpts::parse("flf2a$ 1 1 1 -128 0").unwrap().fitting_rules.hlayout(),
        Layout::Smushing
    );
    assert_eq!(
        FontOpts::parse("flf2a$ 1 1 1 +0 0").unwrap().fitting_rules.hlayout(),
        Layout::Fitting
    );
}

#[test]
fn default_options_are_empty() {
    let opts = FontOpts::default();
    assert_eq!(opts.hard_blank, '\0');
    assert_eq!(opts.height, 0);
    assert_eq!(opts.baseline, 0);
    assert_eq!(opts.max_len, 0);
    assert_eq!(opts.num_comment_lines, 0);
    assert_eq!(opts.print_direction, 0);
    assert_eq!(opts.code_tag_count, None);
    assert_eq!(opts.fitting_rules.hlayout(), Layout::FullWidth);
    assert_eq!(opts.fitting_rules.vlayout(), Layout::FullWidth);
    assert_eq!(opts.fitting_rules.hrules(), [false; 6]);
    assert_eq!(opts.fitting_rules.vrules(), [false; 5]);
}

#[test]
fn output_options_carry_their_own_rules() {
    let out = OutputOpts {
        height: 6,
        width: 80,
        print_direction: 0,
        white_space_break: true,
        fittingRules: FittingRules::from_flags(0, None),
    };
    assert_eq!(out.height, 6);
    assert_eq!(out.width, 80);
    assert_eq!(out.print_direction, 0);
    assert!(out.white_space_break);
    assert_eq!(out.fittingRules.hlayout(), Layout::Fitting);
}
