use nebula_procgen::text::{push_decimal, push_flag};

fn decimal_of(n: u128) -> String {
    let mut out = String::new();
    push_decimal(&mut out, n);
    out
}

#[test]
fn decimal_text_matches_the_standard_rendering() {
    for n in [0u128, 1, 9, 10, 11, 99, 100, 101, 1_000_000, 5_625_000_000, u64::MAX as u128] {
        assert_eq!(decimal_of(n), format!("{}", n));
    }
    assert_eq!(decimal_of(u128::MAX), "340282366920938463463374607431768211455");
    assert_eq!(decimal_of(1203), "1203");
}

#[test]
fn text_is_appended_to_what_is_there() {
    let mut out = String::from("n=");
    push_decimal(&mut out, 42);
    out.push_str(", ok=");
    push_flag(&mut out, true);
    out.push_str("/");
    push_flag(&mut out, false);
    assert_eq!(out, "n=42, ok=true/false");
}
