use voicebot::volume::{check_volume, volume_argument, volume_command, VolumeCheck};
use voicebot::text::chars_vec;

#[test]
fn boundaries_are_inclusive() {
    assert_eq!(volume_command("!volume 0"), VolumeCheck::Valid);
    assert_eq!(volume_command("!volume 10"), VolumeCheck::Valid);
}

#[test]
fn above_ten_is_rejected() {
    assert_eq!(volume_command("!volume 10.5"), VolumeCheck::Invalid);
    assert_eq!(volume_command("!volume 11"), VolumeCheck::Invalid);
}

#[test]
fn negative_is_rejected() {
    assert_eq!(volume_command("!volume -1"), VolumeCheck::Invalid);
    assert_eq!(volume_command("!volume -0.5"), VolumeCheck::Invalid);
}

#[test]
fn not_a_number_spellings_are_rejected() {
    assert_eq!(volume_command("!volume NaN"), VolumeCheck::Invalid);
    assert_eq!(volume_command("!volume nan"), VolumeCheck::Invalid);
    assert_eq!(volume_command("!volume Infinity"), VolumeCheck::Invalid);
    assert_eq!(volume_command("!volume inf"), VolumeCheck::Invalid);
    assert_eq!(volume_command("!volume -inf"), VolumeCheck::Invalid);
}

#[test]
fn missing_argument_asks_for_usage() {
    assert_eq!(volume_command("!volume"), VolumeCheck::Empty);
    assert_eq!(volume_command("!volume    "), VolumeCheck::Empty);
}

#[test]
fn word_salad_is_no_number() {
    assert_eq!(volume_command("!volume loud"), VolumeCheck::NotANumber);
    assert_eq!(volume_command("!volume 1.2.3"), VolumeCheck::NotANumber);
    assert_eq!(volume_command("!volume ."), VolumeCheck::NotANumber);
    assert_eq!(volume_command("!volume 5e"), VolumeCheck::NotANumber);
}

#[test]
fn in_range_values_are_accepted() {
    assert_eq!(volume_command("!volume 5"), VolumeCheck::Valid);
    assert_eq!(volume_command("!volume 9.99"), VolumeCheck::Valid);
    assert_eq!(volume_command("!volume 10.0"), VolumeCheck::Valid);
    assert_eq!(volume_command("!volume .5"), VolumeCheck::Valid);
    assert_eq!(volume_command("!volume +2.5"), VolumeCheck::Valid);
    assert_eq!(volume_command("!volume 0.0"), VolumeCheck::Valid);
    assert_eq!(volume_command("!volume -0"), VolumeCheck::Valid);
}

#[test]
fn exponents_are_read() {
    assert_eq!(volume_command("!volume 1e1"), VolumeCheck::Valid);
    assert_eq!(volume_command("!volume 1e2"), VolumeCheck::Invalid);
    assert_eq!(volume_command("!volume 100e-1"), VolumeCheck::Valid);
    assert_eq!(volume_command("!volume 2E1"), VolumeCheck::Invalid);
    assert_eq!(volume_command("!volume 5e-1"), VolumeCheck::Valid);
    assert_eq!(volume_command("!volume 1e100"), VolumeCheck::Invalid);
    assert_eq!(volume_command("!volume 1e-100"), VolumeCheck::Valid);
    assert_eq!(
        volume_command("!volume 1e99999999999999999999999"),
        VolumeCheck::Invalid
    );
    assert_eq!(
        volume_command("!volume 1e-99999999999999999999999"),
        VolumeCheck::Valid
    );
}

#[test]
fn whitespace_inside_the_argument_is_stripped() {
    assert_eq!(volume_argument("!volume  1 0 "), "10");
    assert_eq!(volume_command("!volume 1 0"), VolumeCheck::Valid);
}

#[test]
fn cleaned_argument_checks_directly() {
    assert_eq!(check_volume(&chars_vec("10")), VolumeCheck::Valid);
    assert_eq!(check_volume(&chars_vec("10.5")), VolumeCheck::Invalid);
    assert_eq!(check_volume(&chars_vec("")), VolumeCheck::Empty);
}
