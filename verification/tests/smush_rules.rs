use figfont::smush::{
    find_indexes, hrule1_smush, hrule2_smush, hrule3_smush, hrule4_smush, hrule5_smush,
    hrule6_smush, uni_smush, vrule1_smush, vrule2_smush, vrule3_smush, vrule4_smush, vrule5_smush,
};

#[test]
fn test_hrule3_smush() {
    assert_eq!(hrule3_smush(b'[', b')'), Some(b')'));
    assert_eq!(hrule3_smush(b'>', b')'), Some(b'>'));
    assert_eq!(hrule3_smush(b'>', b'_'), None);
}

#[test]
fn test_hrule5_smush() {
    assert_eq!(hrule5_smush(b'/', b'\\'), Some(b'|'));
    assert_eq!(hrule5_smush(b'\\', b'/'), Some(b'Y'));
    assert_eq!(hrule5_smush(b'>', b'<'), Some(b'X'));
    assert_eq!(hrule5_smush(b'>', b'_'), None);
}

#[test]
fn hrule1_takes_equal_pairs_but_not_hard_blanks() {
    assert_eq!(hrule1_smush(b'@', b'@', b'$'), Some(b'@'));
    assert_eq!(hrule1_smush(b'$', b'$', b'$'), None);
    assert_eq!(hrule1_smush(b'a', b'b', b'$'), None);
    assert_eq!(hrule1_smush(b'@', b'@', b'@'), None);
}

#[test]
fn hrule2_replaces_the_underscore() {
    assert_eq!(hrule2_smush(b'_', b'|'), Some(b'|'));
    assert_eq!(hrule2_smush(b'|', b'_'), Some(b'|'));
    assert_eq!(hrule2_smush(b'x', b'_'), None);
    assert_eq!(hrule2_smush(b'_', b'x'), None);
    assert_eq!(hrule2_smush(b'_', b'_'), None);
    for &c in b"|/\\[]{}()<>" {
        assert_eq!(hrule2_smush(b'_', c), Some(c));
        assert_eq!(hrule2_smush(c, b'_'), Some(c));
    }
}

#[test]
fn hrule3_keeps_the_later_place() {
    assert_eq!(hrule3_smush(b'|', b'>'), Some(b'>'));
    assert_eq!(hrule3_smush(b'>', b'|'), Some(b'>'));
    assert_eq!(hrule3_smush(b'/', b'['), Some(b'['));
    assert_eq!(hrule3_smush(b'{', b'('), Some(b'('));
}

#[test]
fn hrule3_declines_equal_and_neighbouring_places() {
    assert_eq!(hrule3_smush(b'|', b'|'), None);
    assert_eq!(hrule3_smush(b'|', b'/'), None);
    assert_eq!(hrule3_smush(b'/', b'\\'), None);
    assert_eq!(hrule3_smush(b'\\', b'['), None);
    assert_eq!(hrule3_smush(b'[', b']'), None);
    assert_eq!(hrule3_smush(b'a', b'['), None);
    assert_eq!(hrule3_smush(b'[', b' '), None);
}

#[test]
fn hrule4_turns_opposite_pairs_into_a_bar() {
    assert_eq!(hrule4_smush(b'[', b']'), Some(b'|'));
    assert_eq!(hrule4_smush(b']', b'['), Some(b'|'));
    assert_eq!(hrule4_smush(b'{', b'}'), Some(b'|'));
    assert_eq!(hrule4_smush(b'}', b'{'), Some(b'|'));
    assert_eq!(hrule4_smush(b'(', b')'), Some(b'|'));
    assert_eq!(hrule4_smush(b')', b'('), Some(b'|'));
    assert_eq!(hrule4_smush(b'[', b'}'), None);
    assert_eq!(hrule4_smush(b'[', b'('), None);
    assert_eq!(hrule4_smush(b'a', b']'), None);
    assert_eq!(hrule4_smush(b'<', b'>'), None);
}

#[test]
fn hrule4_goes_by_distance_in_its_text() {
    assert_eq!(hrule4_smush(b'[', b'['), Some(b'|'));
    assert_eq!(hrule4_smush(b']', b' '), Some(b'|'));
    assert_eq!(hrule4_smush(b' ', b'{'), Some(b'|'));
    assert_eq!(hrule4_smush(b'}', b' '), None);
    assert_eq!(hrule4_smush(b'}', b'('), None);
}

#[test]
fn hrule5_declines_the_open_pair() {
    assert_eq!(hrule5_smush(b'<', b'>'), None);
    assert_eq!(hrule5_smush(b'/', b'/'), None);
}

#[test]
fn hrule6_merges_two_hard_blanks() {
    assert_eq!(hrule6_smush(b'$', b'$', b'$'), Some(b'$'));
    assert_eq!(hrule6_smush(b'$', b'a', b'$'), None);
    assert_eq!(hrule6_smush(b'a', b'$', b'$'), None);
    assert_eq!(hrule6_smush(b'a', b'a', b'$'), None);
}

#[test]
fn vrule1_takes_any_equal_pair() {
    assert_eq!(vrule1_smush(b'a', b'a'), Some(b'a'));
    assert_eq!(vrule1_smush(b'$', b'$'), Some(b'$'));
    assert_eq!(vrule1_smush(b'a', b'b'), None);
}

#[test]
fn vrule2_and_vrule3_follow_the_horizontal_rules() {
    assert_eq!(vrule2_smush(b'_', b'/'), Some(b'/'));
    assert_eq!(vrule2_smush(b'}', b'_'), Some(b'}'));
    assert_eq!(vrule2_smush(b'_', b'a'), None);
    assert_eq!(vrule3_smush(b'[', b')'), Some(b')'));
    assert_eq!(vrule3_smush(b'>', b')'), Some(b'>'));
    assert_eq!(vrule3_smush(b'>', b'<'), None);
}

#[test]
fn vrule4_merges_horizontal_lines() {
    assert_eq!(vrule4_smush(b'-', b'_'), Some(b'='));
    assert_eq!(vrule4_smush(b'_', b'-'), Some(b'='));
    assert_eq!(vrule4_smush(b'-', b'-'), None);
    assert_eq!(vrule4_smush(b'_', b'_'), None);
    assert_eq!(vrule4_smush(b'-', b'a'), None);
}

#[test]
fn vrule5_merges_vertical_bars() {
    assert_eq!(vrule5_smush(b'|', b'|'), Some(b'|'));
    assert_eq!(vrule5_smush(b'|', b'/'), None);
    assert_eq!(vrule5_smush(b'a', b'|'), None);
}

#[test]
fn uni_smush_lets_the_later_one_overwrite() {
    assert_eq!(uni_smush(b'A', b' ', b'$'), b'A');
    assert_eq!(uni_smush(b'A', b'$', b'$'), b'A');
    assert_eq!(uni_smush(b'A', b'B', b'$'), b'B');
    assert_eq!(uni_smush(b' ', b'$', b'$'), b'$');
    assert_eq!(uni_smush(b' ', b' ', b'$'), b' ');
    assert_eq!(uni_smush(b'$', b'B', b'$'), b'B');
}

#[test]
fn find_indexes_gives_first_byte_indexes() {
    assert_eq!(find_indexes("|/\\[]{}()<>", b'[', b')'), (Some(3), Some(8)));
    assert_eq!(find_indexes("|/\\[]{}()<>", b'|', b'>'), (Some(0), Some(10)));
    assert_eq!(find_indexes("|/\\[]{}()<>", b'a', b'_'), (None, None));
    assert_eq!(find_indexes("[] {} ()", b' ', b'('), (Some(2), Some(6)));
    assert_eq!(find_indexes("", b'a', b'b'), (None, None));
    assert_eq!(find_indexes("abca", b'a', b'c'), (Some(0), Some(2)));
}

#[test]
fn find_indexes_reads_codes_as_characters() {
    // 0xE9 is the character U+00E9, two bytes in the text.
    assert_eq!(find_indexes("caf\u{e9}!", 0xE9, b'!'), (Some(3), Some(5)));
    assert_eq!(find_indexes("caf\u{e9}!", 0xC3, 0xA9), (None, None));
    assert_eq!(find_indexes("\u{a9}\u{e9}", 0xA9, 0xE9), (Some(0), Some(2)));
    assert_eq!(find_indexes("\u{e9}", 0xA9, 0x80), (None, None));
    let text: &'static str = "x\u{ff}";
    assert_eq!(find_indexes(text, 0xFF, b'x'), (text.find('\u{ff}'), text.find('x')));
}
