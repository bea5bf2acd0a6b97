use supply_stats::amount::{decimal_string, format_scaled, parse_amount, parse_clamped};
use supply_stats::asset::{reference_currency, staking_token, AssetId};
use supply_stats::registry::{AssetImage, AugmentedMetadata};

fn meta(exponent: u8, symbol: &str, images: Vec<AssetImage>) -> AugmentedMetadata {
    AugmentedMetadata { exponent, symbol: symbol.to_string(), images }
}

fn img(png: &str, svg: &str) -> AssetImage {
    AssetImage { png: png.to_string(), svg: svg.to_string() }
}

#[test]
fn scales_and_rounds_to_four_digits() {
    assert_eq!(format_scaled(1_234_567, 6), "1.2346");
    assert_eq!(format_scaled(1_234_560, 6), "1.2346");
    assert_eq!(format_scaled(1_234_540, 6), "1.2345");
}

#[test]
fn half_way_rounds_up() {
    assert_eq!(format_scaled(1_234_550, 6), "1.2346");
    assert_eq!(format_scaled(1_234_549, 6), "1.2345");
    assert_eq!(format_scaled(5, 5), "0.0001");
    assert_eq!(format_scaled(4, 5), "0.0000");
}

#[test]
fn small_exponents_keep_four_digits() {
    assert_eq!(format_scaled(123, 0), "123.0000");
    assert_eq!(format_scaled(12345, 2), "123.4500");
    assert_eq!(format_scaled(12345, 4), "1.2345");
    assert_eq!(format_scaled(0, 6), "0.0000");
}

#[test]
fn amounts_beyond_64_bits() {
    assert_eq!(
        format_scaled(u128::MAX, 0),
        "340282366920938463463374607431768211455.0000"
    );
    assert_eq!(
        format_scaled(u128::MAX, 18),
        "340282366920938463463.3746"
    );
    assert_eq!(format_scaled(u128::MAX, 60), "0.0000");
    assert_eq!(format_scaled(u128::MAX, 42), "0.0003");
}

#[test]
fn parses_decimal_amounts() {
    assert_eq!(parse_amount("0"), Some(0));
    assert_eq!(parse_amount("1234"), Some(1234));
    assert_eq!(
        parse_amount("340282366920938463463374607431768211455"),
        Some(u128::MAX)
    );
    assert_eq!(parse_amount("340282366920938463463374607431768211456"), None);
    assert_eq!(parse_amount(""), None);
    assert_eq!(parse_amount("12a"), None);
    assert_eq!(parse_amount("-3"), None);
}

#[test]
fn negative_net_is_zero() {
    assert_eq!(parse_clamped("-3"), Some(0));
    assert_eq!(parse_clamped("7"), Some(7));
    assert_eq!(parse_clamped("x"), None);
}

#[test]
fn decimal_text_of_atomic_amounts() {
    assert_eq!(decimal_string(0), "0");
    assert_eq!(decimal_string(1_000_000), "1000000");
}

#[test]
fn format_with_symbol_appends_symbol() {
    let m = meta(6, "UM", vec![]);
    let id = staking_token();
    assert_eq!(m.format(&id, 2_500_000), "2.5000");
    assert_eq!(m.format_with_symbol(&id, 2_500_000), "2.5000 UM");
}

#[test]
fn icon_prefers_svg_when_png_empty() {
    let m = meta(6, "A", vec![img("", "<svg/>")]);
    assert_eq!(m.image(), Some("<svg/>".to_string()));
}

#[test]
fn icon_prefers_png_over_svg() {
    let m = meta(6, "A", vec![img("", "first.svg"), img("b.png", "b.svg")]);
    assert_eq!(m.image(), Some("b.png".to_string()));
}

#[test]
fn icon_absent_without_content() {
    let m = meta(6, "A", vec![img("", ""), img("", "")]);
    assert_eq!(m.image(), None);
    let empty = meta(6, "A", vec![]);
    assert_eq!(empty.image(), None);
}

#[test]
fn asset_id_text_is_bech32m() {
    assert_eq!(
        reference_currency().to_text(),
        "passet1w6e7fvgxsy6ccy3m8q0eqcuyw6mh3yzqu3uq9h58nu8m8mku359spvulf6"
    );
    assert_eq!(
        staking_token().to_text(),
        "passet1984fctenw8m2fpl8a9wzguzp7j34d7vravryuhft808nyt9fdggqxmanqm"
    );
}

#[test]
fn asset_id_from_bytes() {
    assert!(AssetId::from_slice(&[1u8; 31]).is_none());
    let a = AssetId::from_slice(&[7u8; 32]).unwrap();
    assert!(a.same_as(&AssetId::new([7u8; 32])));
    assert!(!a.same_as(&AssetId::new([8u8; 32])));
    assert!(!staking_token().same_as(&reference_currency()));
}
