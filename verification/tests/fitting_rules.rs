use figfont::flags::{
    RuleFlags, ALL_FLAGS, HLAYOUT_FIT, HLAYOUT_SMUSH, HRULE1, HRULE3, HRULE6, VLAYOUT_FIT,
    VLAYOUT_SMUSH, VRULE2, VRULE5,
};
use figfont::font::{FittingRules, Layout};

fn rules_of(bits: u16) -> FittingRules {
    FittingRules::from_flags(0, Some(RuleFlags::from_bits_truncate(bits)))
}

#[test]
fn flags_drop_the_bit_without_meaning() {
    assert_eq!(RuleFlags::from_bits_truncate(0xffff).bits(), 0x7fff);
    assert_eq!(RuleFlags::from_bits_truncate(0x8000).bits(), 0);
    assert_eq!(RuleFlags::from_bits_truncate(24463).bits(), 24463);
    assert_eq!(RuleFlags::empty().bits(), 0);
    assert_eq!(ALL_FLAGS, 0x7fff);
}

#[test]
fn flags_contain_their_bits() {
    let f = RuleFlags::from_bits_truncate(HRULE1 | VRULE2);
    assert!(f.contains(HRULE1));
    assert!(f.contains(VRULE2));
    assert!(f.contains(HRULE1 | VRULE2));
    assert!(!f.contains(HRULE3));
    assert!(!f.contains(HRULE1 | HRULE3));
    assert!(!RuleFlags::empty().contains(HRULE1));
}

#[test]
fn bit_field_chooses_the_modes() {
    let r = rules_of(0);
    assert_eq!(r.hlayout(), Layout::FullWidth);
    assert_eq!(r.vlayout(), Layout::FullWidth);
    let r = rules_of(HLAYOUT_FIT);
    assert_eq!(r.hlayout(), Layout::Fitting);
    assert_eq!(r.vlayout(), Layout::FullWidth);
    let r = rules_of(HLAYOUT_SMUSH | VLAYOUT_FIT);
    assert_eq!(r.hlayout(), Layout::Smushing);
    assert_eq!(r.vlayout(), Layout::Fitting);
    let r = rules_of(VLAYOUT_SMUSH);
    assert_eq!(r.hlayout(), Layout::FullWidth);
    assert_eq!(r.vlayout(), Layout::Smushing);
}

#[test]
fn smushing_wins_over_fitting() {
    let r = rules_of(HLAYOUT_SMUSH | HLAYOUT_FIT | VLAYOUT_SMUSH | VLAYOUT_FIT);
    assert_eq!(r.hlayout(), Layout::Smushing);
    assert_eq!(r.vlayout(), Layout::Smushing);
}

#[test]
fn bit_field_switches_the_rules() {
    let r = rules_of(HRULE1 | HRULE6 | VRULE5);
    assert_eq!(r.hrules(), [true, false, false, false, false, true]);
    assert_eq!(r.vrules(), [false, false, false, false, true]);
    let r = rules_of(24463);
    assert_eq!(r.hlayout(), Layout::Smushing);
    assert_eq!(r.vlayout(), Layout::Smushing);
    assert_eq!(r.hrules(), [true, true, true, true, false, false]);
    assert_eq!(r.vrules(), [true, true, true, true, true]);
}

#[test]
fn bit_field_overrides_the_legacy_value() {
    for old in [-1i8, 0, 15, 63, -128, 127] {
        let r = FittingRules::from_flags(old, Some(RuleFlags::from_bits_truncate(HLAYOUT_FIT | HRULE3)));
        assert_eq!(r.hlayout(), Layout::Fitting);
        assert_eq!(r.vlayout(), Layout::FullWidth);
        assert_eq!(r.hrules(), [false, false, true, false, false, false]);
        assert_eq!(r.vrules(), [false; 5]);
    }
}

#[test]
fn legacy_minus_one_is_full_width() {
    let r = FittingRules::from_flags(-1, None);
    assert_eq!(r.hlayout(), Layout::FullWidth);
    assert_eq!(r.vlayout(), Layout::FullWidth);
    assert_eq!(r.hrules(), [false; 6]);
    assert_eq!(r.vrules(), [false; 5]);
}

#[test]
fn legacy_zero_is_fitting() {
    let r = FittingRules::from_flags(0, None);
    assert_eq!(r.hlayout(), Layout::Fitting);
    assert_eq!(r.vlayout(), Layout::FullWidth);
    assert_eq!(r.hrules(), [false; 6]);
    assert_eq!(r.vrules(), [false; 5]);
}

#[test]
fn legacy_values_are_smushing_with_their_bits() {
    let r = FittingRules::from_flags(15, None);
    assert_eq!(r.hlayout(), Layout::Smushing);
    assert_eq!(r.vlayout(), Layout::FullWidth);
    assert_eq!(r.hrules(), [true, true, true, true, false, false]);
    assert_eq!(r.vrules(), [false; 5]);
    let r = FittingRules::from_flags(36, None);
    assert_eq!(r.hlayout(), Layout::Smushing);
    assert_eq!(r.hrules(), [false, false, true, false, false, true]);
    let r = FittingRules::from_flags(64, None);
    assert_eq!(r.hlayout(), Layout::Smushing);
    assert_eq!(r.vlayout(), Layout::FullWidth);
    assert_eq!(r.hrules(), [false; 6]);
    assert_eq!(r.vrules(), [false; 5]);
}

#[test]
fn negative_legacy_values_are_read_in_twos_complement() {
    // -2 is 0xfffe in 16 bits: every horizontal rule bit but the lowest.
    let r = FittingRules::from_flags(-2, None);
    assert_eq!(r.hlayout(), Layout::Smushing);
    assert_eq!(r.vlayout(), Layout::FullWidth);
    assert_eq!(r.hrules(), [false, true, true, true, true, true]);
    // -128 is 0xff80: no horizontal rule bit.
    let r = FittingRules::from_flags(-128, None);
    assert_eq!(r.hlayout(), Layout::Smushing);
    assert_eq!(r.hrules(), [false; 6]);
}

#[test]
fn legacy_values_switch_no_vertical_rule() {
    for old in [-128i8, -2, -1, 0, 1, 15, 63, 127] {
        let r = FittingRules::from_flags(old, None);
        assert_eq!(r.vlayout(), Layout::FullWidth);
        assert_eq!(r.vrules(), [false; 5]);
    }
}

#[test]
fn default_rules_are_full_width() {
    let r = FittingRules::default();
    assert_eq!(r.hlayout(), Layout::FullWidth);
    assert_eq!(r.vlayout(), Layout::FullWidth);
    assert_eq!(r.hrules(), [false; 6]);
    assert_eq!(r.vrules(), [false; 5]);
    assert_eq!(Layout::default(), Layout::FullWidth);
}

#[test]
fn every_bit_field_resolves_by_its_bits() {
    for bits in 0..=u16::MAX {
        let r = FittingRules::from_flags(17, Some(RuleFlags::from_bits_truncate(bits)));
        let bit = |n: u32| bits >> n & 1 == 1;
        let h = if bit(7) {
            Layout::Smushing
        } else if bit(6) {
            Layout::Fitting
        } else {
            Layout::FullWidth
        };
        let v = if bit(14) {
            Layout::Smushing
        } else if bit(13) {
            Layout::Fitting
        } else {
            Layout::FullWidth
        };
        assert_eq!(r.hlayout(), h);
        assert_eq!(r.vlayout(), v);
        assert_eq!(r.hrules(), [bit(0), bit(1), bit(2), bit(3), bit(4), bit(5)]);
        assert_eq!(r.vrules(), [bit(8), bit(9), bit(10), bit(11), bit(12)]);
    }
}

#[test]
fn every_legacy_value_resolves_by_its_low_bits() {
    for old in i8::MIN..=i8::MAX {
        let r = FittingRules::from_flags(old, None);
        assert_eq!(r.vlayout(), Layout::FullWidth);
        if old == -1 {
            assert_eq!(r.hlayout(), Layout::FullWidth);
            assert_eq!(r.hrules(), [false; 6]);
            assert_eq!(r.vrules(), [false; 5]);
        } else if old == 0 {
            assert_eq!(r.hlayout(), Layout::Fitting);
            assert_eq!(r.hrules(), [false; 6]);
            assert_eq!(r.vrules(), [false; 5]);
        } else {
            let low = old as i16 as u16;
            let bit = |n: u32| low >> n & 1 == 1;
            assert_eq!(r.hlayout(), Layout::Smushing);
            assert_eq!(r.hrules(), [bit(0), bit(1), bit(2), bit(3), bit(4), bit(5)]);
            assert_eq!(r.vrules(), [false; 5]);
        }
    }
}
