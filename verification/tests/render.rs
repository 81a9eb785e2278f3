use maths::eval::Value;
use maths::format::ToStringRadix;
use maths::lexer::NumberKind;

fn render(x: f64, kind: NumberKind) -> String {
    Value { bits: x.to_bits() }.to_string_radix(kind)
}

#[test]
fn bin() {
    assert_eq!(render(1.5, NumberKind::Bin), "0b1.1", "converting 1.5 to base 2");
    assert_eq!(render(1.25, NumberKind::Bin), "0b1.01", "converting 1.25 to base 2");
    assert_eq!(render(1.75, NumberKind::Bin), "0b1.11", "converting 1.75 to base 2");
    assert_eq!(render(5.625, NumberKind::Bin), "0b101.101", "converting 5.625 to base 2");
}

#[test]
fn hex() {
    assert_eq!(render(1.5, NumberKind::Hex), "0x1.8", "converting 1.5 to base 16");
    assert_eq!(render(1.25, NumberKind::Hex), "0x1.4", "converting 1.25 to base 16");
    assert_eq!(render(1.75, NumberKind::Hex), "0x1.c", "converting 1.75 to base 16");
    assert_eq!(render(5.625, NumberKind::Hex), "0x5.a", "converting 5.625 to base 16");
    assert_eq!(render(15.625, NumberKind::Hex), "0xf.a", "converting 15.625 to base 16");
    assert_eq!(render(16.625, NumberKind::Hex), "0x10.a", "converting 16.625 to base 16");
}

#[test]
fn negative_and_whole_values() {
    assert_eq!(render(-1.5, NumberKind::Bin), "-0b1.1");
    assert_eq!(render(0.0, NumberKind::Hex), "0x0");
    assert_eq!(render(12.1875, NumberKind::Hex), "0xc.3");
    assert_eq!(render(5.25, NumberKind::Bin), "0b101.01");
}
