use cast2svg::numfmt::{dec, hundredths, point_trim, tenths};

fn s(v: Vec<char>) -> String {
    v.iter().collect()
}

#[test]
fn decimal_rendering() {
    assert_eq!(s(dec(0)), "0");
    assert_eq!(s(dec(7)), "7");
    assert_eq!(s(dec(1234)), "1234");
    assert_eq!(s(dec(1600)), "1600");
}

#[test]
fn hundredths_rendering() {
    assert_eq!(s(hundredths(52104)), "521.04");
    assert_eq!(s(hundredths(167)), "1.67");
    assert_eq!(s(hundredths(0)), "0.00");
}

#[test]
fn tenths_rendering() {
    assert_eq!(s(tenths(1000)), "100.0");
    assert_eq!(s(tenths(5)), "0.5");
    assert_eq!(s(tenths(620)), "62.0");
}

#[test]
fn point_trim_rendering() {
    // whole values lose the point entirely
    assert_eq!(s(point_trim(1, 0, 1_000_000)), "1");
    // trailing zeros of the fraction are trimmed
    assert_eq!(s(point_trim(0, 500_000, 1_000_000)), "0.5");
    // significant digits stay
    assert_eq!(s(point_trim(0, 248_848, 1_000_000)), "0.248848");
    assert_eq!(s(point_trim(52, 104, 1000)), "52.104");
    // interior zeros after trimming are kept
    assert_eq!(s(point_trim(0, 10, 1_000_000)), "0.00001");
}
