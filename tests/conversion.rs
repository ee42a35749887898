use core::convert::Infallible;
use hx711::{i24_to_i32, Error, Mode, MAX_VALUE, MIN_VALUE};

fn value_of<T>(r: Result<T, Error<Infallible, Infallible>>) -> T {
    match r {
        Ok(v) => v,
        Err(Error::Input(never)) => match never {},
        Err(Error::Output(never)) => match never {},
    }
}

#[test]
fn convert() {
    assert_eq!(i24_to_i32(0x000001), 1);
    assert_eq!(i24_to_i32(0x000002), 2);
    assert_eq!(i24_to_i32(0xFFFFFF), -1);
    assert_eq!(i24_to_i32(0xFFFFF3), -13);
    assert_eq!(i24_to_i32(0xF00000), -1048576);
    assert_eq!(i24_to_i32(0x800000), -8388608);
    assert_eq!(i24_to_i32(0x7FFFFF), 8388607);
}

#[test]
fn infallible_into_ok() {
    let this_is_ok: Result<usize, Error<Infallible, Infallible>> = Ok(77);
    assert_eq!(value_of(this_is_ok), 77);
}

#[test]
fn never_fail_into_ok() {
    let this_is_ok: Result<usize, Error<Infallible, Infallible>> = Ok(77);
    assert_eq!(value_of(this_is_ok), 77);
}

#[test]
fn non_negative_patterns_are_unchanged() {
    let mut x: i32 = 0;
    while x <= 0x7FFFFF {
        assert_eq!(i24_to_i32(x), x);
        x += 997;
    }
    assert_eq!(i24_to_i32(0), 0);
    assert_eq!(i24_to_i32(0x7FFFFF), MAX_VALUE);
}

#[test]
fn negative_patterns_are_sign_extended() {
    let mut x: i32 = 0x800000;
    while x <= 0xFFFFFF {
        assert_eq!(i24_to_i32(x), x - 0x1000000);
        x += 991;
    }
    assert_eq!(i24_to_i32(0x800000), MIN_VALUE);
}

#[test]
fn pulse_counts_of_modes() {
    assert_eq!(Mode::ChAGain128.pulse_count(), 1);
    assert_eq!(Mode::ChBGain32.pulse_count(), 2);
    assert_eq!(Mode::ChAGain64.pulse_count(), 3);
}
