use tickstream::decimal::{Decimal, MAX_SCALE};
use tickstream::text::{write_digits, write_padded};
use tickstream::wire::Wire;

fn bytes_of(d: &Decimal) -> Vec<u8> {
    let mut out: Vec<u8> = Vec::new();
    d.put(&mut out);
    out
}

fn as_array(bytes: &[u8]) -> [u8; 16] {
    let mut a = [0u8; 16];
    a.copy_from_slice(bytes);
    a
}

#[test]
fn new_keeps_sign_mantissa_and_scale() {
    let d = Decimal::new(1234567891, 6);
    assert_eq!(d.mantissa(), 1234567891);
    assert_eq!(d.scale(), 6);
    assert!(!d.is_sign_negative());
    assert_eq!(d.words(), (1234567891, 0, 0));
    let n = Decimal::new(-1, 28);
    assert_eq!(n.mantissa(), -1);
    assert_eq!(n.scale(), 28);
    assert!(n.is_sign_negative());
    let big = Decimal::new(i64::MAX, 0);
    assert_eq!(big.mantissa(), i64::MAX as i128);
    assert_eq!(big.words(), (0xFFFF_FFFF, 0x7FFF_FFFF, 0));
    let low = Decimal::new(i64::MIN, 0);
    assert_eq!(low.mantissa(), i64::MIN as i128);
    assert_eq!(low.words(), (0, 0x8000_0000, 0));
    let zero = Decimal::new(0, 3);
    assert_eq!(zero.mantissa(), 0);
    assert!(!zero.is_sign_negative());
}

#[test]
fn try_new_refuses_a_scale_over_the_largest() {
    assert_eq!(MAX_SCALE, 28);
    assert_eq!(Decimal::try_new(5, 28), Some(Decimal::new(5, 28)));
    assert_eq!(Decimal::try_new(5, 29), None);
    assert_eq!(Decimal::try_new(i64::MAX, u32::MAX), None);
}

#[test]
fn whole_numbers() {
    let d: Decimal = 100u64.into();
    assert_eq!(d, Decimal::new(100, 0));
    let big: Decimal = u64::MAX.into();
    assert_eq!(big.mantissa(), u64::MAX as i128);
    assert_eq!(big.words(), (0xFFFF_FFFF, 0xFFFF_FFFF, 0));
    assert_eq!(big.scale(), 0);
}

#[test]
fn parts_are_kept() {
    let d = Decimal::from_parts(1102470952, 185874565, 1703060790, false, 28);
    assert_eq!(d.words(), (1102470952, 185874565, 1703060790));
    assert_eq!(d.scale(), 28);
    assert_eq!(
        d.mantissa(),
        1102470952i128 + (185874565i128 << 32) + (1703060790i128 << 64)
    );
    let n = Decimal::from_parts(1, 0, 0, true, 0);
    assert_eq!(n.mantissa(), -1);
    assert_eq!(n, Decimal::new(-1, 0));
}

#[test]
fn equal_values_in_other_forms_are_other_decimals() {
    assert_ne!(Decimal::new(10, 1), Decimal::new(1, 0));
    assert_eq!(Decimal::new(10, 1), Decimal::new(10, 1));
}

#[test]
fn sixteen_bytes() {
    assert_eq!(
        bytes_of(&Decimal::new(1234567891, 6)),
        vec![0, 0, 6, 0, 0xD3, 0x02, 0x96, 0x49, 0, 0, 0, 0, 0, 0, 0, 0]
    );
    assert_eq!(
        bytes_of(&Decimal::new(-1, 28)),
        vec![0, 0, 28, 0x80, 1, 0, 0, 0, 0, 0, 0, 0, 0, 0, 0, 0]
    );
    assert_eq!(
        bytes_of(&Decimal::from_parts(0x04030201, 0x08070605, 0x0C0B0A09, false, 0)),
        vec![0, 0, 0, 0, 1, 2, 3, 4, 5, 6, 7, 8, 9, 10, 11, 12]
    );
}

#[test]
fn take_gives_back_what_put_wrote() {
    for d in [
        Decimal::new(1234567891, 6),
        Decimal::new(-1234567891, 6),
        Decimal::new(0, 0),
        Decimal::new(i64::MIN, 28),
        Decimal::from_parts(u32::MAX, u32::MAX, u32::MAX, true, 28),
        Decimal::from_parts(0, 0, 0, true, 0),
    ] {
        let mut out = vec![0xAAu8];
        d.put(&mut out);
        out.push(0xBB);
        assert_eq!(out.len(), 18);
        assert_eq!(Decimal::read(&out, 1), Some((d, 17)));
    }
}

#[test]
fn take_refuses_what_is_no_decimal() {
    let good = bytes_of(&Decimal::new(5, 2));
    assert_eq!(Decimal::read(&good[..15], 0), None);
    let mut scale = good.clone();
    scale[2] = 29;
    assert_eq!(Decimal::read(&scale, 0), None);
    let mut low_bits = good.clone();
    low_bits[0] = 1;
    assert_eq!(Decimal::read(&low_bits, 0), None);
    let mut second = good.clone();
    second[1] = 1;
    assert_eq!(Decimal::read(&second, 0), None);
    let mut sign_bits = good.clone();
    sign_bits[3] = 0x40;
    assert_eq!(Decimal::read(&sign_bits, 0), None);
    let mut both = good.clone();
    both[3] = 0x81;
    assert_eq!(Decimal::read(&both, 0), None);
    let mut negative = good.clone();
    negative[3] = 0x80;
    assert_eq!(Decimal::read(&negative, 0), Some((Decimal::new(-5, 2), 16)));
}

#[test]
fn the_bytes_are_those_of_the_decimal_crate() {
    for (num, scale) in [(1234567891i64, 6u32), (-7, 0), (0, 28), (i64::MAX, 3), (i64::MIN, 28)] {
        let ours = Decimal::new(num, scale);
        let theirs = rust_decimal::Decimal::new(num, scale);
        assert_eq!(bytes_of(&ours), theirs.serialize().to_vec());
        let read = rust_decimal::Decimal::deserialize(as_array(&bytes_of(&ours)));
        assert_eq!(read, theirs);
        assert_eq!(read.mantissa(), ours.mantissa());
        assert_eq!(read.scale(), ours.scale());
        assert_eq!(Decimal::read(&theirs.serialize(), 0), Some((ours, 16)));
    }
    let pi = rust_decimal::Decimal::from_parts(1102470952, 185874565, 1703060790, false, 28);
    let ours = Decimal::from_parts(1102470952, 185874565, 1703060790, false, 28);
    assert_eq!(bytes_of(&ours), pi.serialize().to_vec());
    assert_eq!(ours.mantissa(), pi.mantissa());
    assert_eq!(pi.to_string(), "3.1415926535897932384626433832");
    let text = rust_decimal::Decimal::deserialize(as_array(&bytes_of(&Decimal::new(1234567891, 6))));
    assert_eq!(text.to_string(), "1234.567891");
}

#[test]
fn digits_of_numbers() {
    for (n, text) in [
        (0u128, "0"),
        (7, "7"),
        (10, "10"),
        (909, "909"),
        (65535, "65535"),
        (u128::MAX, "340282366920938463463374607431768211455"),
    ] {
        let mut out = "n=".to_owned();
        write_digits(n, &mut out);
        assert_eq!(out, format!("n={}", text));
    }
    for (n, width, text) in [(0u128, 0u32, ""), (7, 0, ""), (7, 1, "7"), (7, 3, "007"), (1234, 2, "34"), (0, 4, "0000")] {
        let mut out = "<".to_owned();
        write_padded(n, width, &mut out);
        assert_eq!(out, format!("<{}", text));
    }
}

#[test]
fn decimal_notation() {
    assert_eq!(Decimal::new(1234567891, 6).to_text(), "1234.567891");
    assert_eq!(Decimal::new(-1234567891, 6).to_text(), "-1234.567891");
    assert_eq!(Decimal::new(0, 0).to_text(), "0");
    assert_eq!(Decimal::new(0, 3).to_text(), "0.000");
    assert_eq!(Decimal::new(5, 1).to_text(), "0.5");
    assert_eq!(Decimal::new(-5, 3).to_text(), "-0.005");
    assert_eq!(Decimal::new(100, 2).to_text(), "1.00");
    assert_eq!(Decimal::new(100, 0).to_text(), "100");
    assert_eq!(Decimal::new(1, 28).to_text(), "0.0000000000000000000000000001");
    assert_eq!(Decimal::from_parts(0, 0, 0, true, 0).to_text(), "-0");
    assert_eq!(
        Decimal::from_parts(u32::MAX, u32::MAX, u32::MAX, false, 0).to_text(),
        "79228162514264337593543950335"
    );
    assert_eq!(
        Decimal::from_parts(u32::MAX, u32::MAX, u32::MAX, true, 28).to_text(),
        "-7.9228162514264337593543950335"
    );
}

#[test]
fn the_notation_is_that_of_the_decimal_crate() {
    for (lo, mid, hi, negative, scale) in [
        (1234567891u32, 0u32, 0u32, false, 6u32),
        (1102470952, 185874565, 1703060790, false, 28),
        (u32::MAX, u32::MAX, u32::MAX, true, 0),
        (u32::MAX, u32::MAX, u32::MAX, true, 28),
        (0, 0, 0, false, 0),
        (0, 0, 0, false, 5),
        (7, 0, 0, true, 12),
        (0, 1, 0, false, 9),
        (0, 0, 1, true, 20),
    ] {
        let ours = Decimal::from_parts(lo, mid, hi, negative, scale);
        let theirs = rust_decimal::Decimal::from_parts(lo, mid, hi, negative, scale);
        assert_eq!(ours.to_text(), theirs.to_string());
    }
    let minus_zero = rust_decimal::Decimal::deserialize(as_array(&bytes_of(&Decimal::from_parts(0, 0, 0, true, 2))));
    assert_eq!(Decimal::from_parts(0, 0, 0, true, 2).to_text(), "-0.00");
    assert!(minus_zero.is_sign_negative());
}
