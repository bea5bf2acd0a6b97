use supply_stats::asset::{reference_currency, staking_token, AssetId};
use supply_stats::present::{
    FormatError, FormattedDeposit, FormattedIndexResponse, FormattedShieldedValue,
    FormattedSupply,
};
use supply_stats::registry::{AssetImage, AugmentedMetadata, LoadError, MetadataRecord, Registry};
use supply_stats::supply::{
    build_response, supply_from_row, ConversionError, Deposit, Depositors, FetchError,
    IndexResponse, ShieldedValue, TotalSupply,
};

const PLACEHOLDER: &str = "data:image/png;base64,iVBORw0KGgoAAAANSUhEUgAAAAEAAAABCAYAAAAfFcSJAAAACklEQVR4nGMAAQAABQABDQottAAAAABJRU5ErkJggg==";

fn meta(exponent: u8, symbol: &str, images: Vec<AssetImage>) -> AugmentedMetadata {
    AugmentedMetadata { exponent, symbol: symbol.to_string(), images }
}

fn record(id: [u8; 32], m: AugmentedMetadata) -> MetadataRecord {
    MetadataRecord { asset_id: Some(id.to_vec()), metadata: m }
}

fn registry() -> Registry {
    let icon = AssetImage { png: "um.png".to_string(), svg: String::new() };
    Registry::from_records(vec![
        record(staking_token().bytes, meta(6, "UM", vec![icon])),
        record(reference_currency().bytes, meta(6, "USDC", vec![])),
        record([1u8; 32], meta(4, "AAA", vec![])),
        record([2u8; 32], meta(4, "BBB", vec![])),
        record([3u8; 32], meta(4, "CCC", vec![])),
    ])
    .unwrap()
}

fn deposit(id: [u8; 32], total: u128, current: u128) -> Deposit {
    Deposit { asset: AssetId::new(id), total, current }
}

fn supply(total: u64, unstaked: u64, staked: u64, auction: u64, dex: u64) -> TotalSupply {
    TotalSupply { total, unstaked, staked, auction, dex }
}

#[test]
fn unknown_asset_is_unscaled_with_placeholder() {
    let reg = registry();
    let f = FormattedDeposit::format(&reg, deposit([9u8; 32], 123456789, 42));
    assert!(!f.known);
    assert_eq!(f.total, "123456789");
    assert_eq!(f.current, "42");
    assert_eq!(f.image, PLACEHOLDER);
    assert_eq!(
        f.asset,
        "passet1pyysjzgfpyysjzgfpyysjzgfpyysjzgfpyysjzgfpyysjzgfpyys2kth74"
    );
    let v = FormattedShieldedValue::format(
        &reg,
        ShieldedValue { by_asset: vec![deposit([9u8; 32], 5, 1)] },
    );
    assert!(v.by_asset.is_empty());
    assert_eq!(v.unknown_asset.len(), 1);
    assert_eq!(v.unknown_asset[0].total, "5");
}

#[test]
fn known_asset_is_scaled_with_icon() {
    let reg = registry();
    let f = FormattedDeposit::format(&reg, deposit(staking_token().bytes, 1_234_550, 0));
    assert!(f.known);
    assert_eq!(f.asset, "UM");
    assert_eq!(f.total, "1.2346");
    assert_eq!(f.current, "0.0000");
    assert_eq!(f.image, "um.png");
    let g = FormattedDeposit::format(&reg, deposit([1u8; 32], 10, 0));
    assert_eq!(g.image, PLACEHOLDER);
}

#[test]
fn known_deposits_sorted_by_descending_total() {
    let reg = registry();
    let v = FormattedShieldedValue::format(
        &reg,
        ShieldedValue {
            by_asset: vec![
                deposit([1u8; 32], 1_000_000, 0),
                deposit([9u8; 32], 7, 7),
                deposit([2u8; 32], 50_000, 0),
                deposit([3u8; 32], 1_000_001, 0),
            ],
        },
    );
    let totals: Vec<&str> = v.by_asset.iter().map(|d| d.total.as_str()).collect();
    assert_eq!(totals, vec!["100.0001", "100.0000", "5.0000"]);
    assert_eq!(v.unknown_asset.len(), 1);
}

#[test]
fn negative_net_renders_as_zero() {
    let d = Deposit::from_row(&staking_token().bytes, "-3", "2000000").unwrap();
    assert_eq!(d.current, 0);
    assert_eq!(d.total, 2_000_000);
    let f = FormattedDeposit::format(&registry(), d);
    assert_eq!(f.current, "0.0000");
    assert_eq!(f.total, "2.0000");
}

#[test]
fn deposit_row_errors() {
    assert_eq!(
        Deposit::from_row(&[0u8; 32], "x", "1").unwrap_err(),
        ConversionError::Amount
    );
    assert_eq!(
        Deposit::from_row(&[0u8; 5], "1", "1").unwrap_err(),
        ConversionError::AssetId
    );
    assert_eq!(
        Deposit::from_row(&[0u8; 32], "1", "-1").unwrap_err(),
        ConversionError::Amount
    );
    let rows = vec![
        (vec![1u8; 32], "5".to_string(), "10".to_string()),
        (vec![2u8; 3], "5".to_string(), "10".to_string()),
    ];
    assert_eq!(ShieldedValue::from_rows(&rows).unwrap_err(), ConversionError::AssetId);
    let v = ShieldedValue::from_rows(&rows[..1].to_vec()).unwrap();
    assert_eq!(v.by_asset.len(), 1);
    assert_eq!(v.by_asset[0].current, 5);
    assert_eq!(v.by_asset[0].total, 10);
}

#[test]
fn supply_row_conversion() {
    let (a, b) = supply_from_row([10, 4, 3, 2, 1, 20, 8, 6, 4, 2]).unwrap();
    assert_eq!(a, supply(10, 3, 4, 2, 1));
    assert_eq!(b, supply(20, 6, 8, 4, 2));
    assert_eq!(
        supply_from_row([10, 4, 3, 2, 1, 20, 8, -6, 4, 2]).unwrap_err(),
        ConversionError::Negative
    );
    assert_eq!(Depositors::from_count(12).unwrap(), Depositors { total: 12 });
    assert_eq!(Depositors::from_count(-1).unwrap_err(), ConversionError::Negative);
}

#[test]
fn failed_depositor_fetch_fails_response() {
    let r = build_response(
        Ok((supply(1, 1, 0, 0, 0), supply(2, 2, 0, 0, 0))),
        Err(FetchError::Store),
        Ok(ShieldedValue { by_asset: vec![] }),
        Ok(ShieldedValue { by_asset: vec![] }),
    );
    assert_eq!(r.unwrap_err(), FetchError::Store);
    let ok = build_response(
        Ok((supply(1, 1, 0, 0, 0), supply(2, 2, 0, 0, 0))),
        Ok(Depositors { total: 3 }),
        Ok(ShieldedValue { by_asset: vec![] }),
        Ok(ShieldedValue { by_asset: vec![] }),
    )
    .unwrap();
    assert_eq!(ok.depositors.total, 3);
    let first = build_response(
        Err(FetchError::Conversion(ConversionError::Negative)),
        Err(FetchError::Store),
        Ok(ShieldedValue { by_asset: vec![] }),
        Err(FetchError::Store),
    );
    assert_eq!(first.unwrap_err(), FetchError::Conversion(ConversionError::Negative));
}

#[test]
fn supply_formatted_totals_stay_consistent() {
    let reg = registry();
    let s = supply(3_333_335, 1_111_112, 1_111_111, 1_111_112, 0);
    let f = FormattedSupply::format(&reg, &staking_token(), s).unwrap();
    assert_eq!(f.total, "3.3333 UM");
    assert_eq!(f.unstaked, "1.1111 UM");
    assert_eq!(f.staked, "1.1111 UM");
    assert_eq!(f.auction, "1.1111 UM");
    assert_eq!(f.dex, "0.0000 UM");
}

#[test]
fn full_response_formatting() {
    let reg = registry();
    let resp = IndexResponse {
        supply: supply(2_000_000, 1_000_000, 1_000_000, 0, 0),
        usdc_equivalent_supply: supply(4_000_000, 2_000_000, 2_000_000, 0, 0),
        depositors: Depositors { total: 5 },
        shielded: ShieldedValue { by_asset: vec![deposit([1u8; 32], 10_000, 10_000)] },
        unshielded: ShieldedValue { by_asset: vec![] },
    };
    let f = FormattedIndexResponse::format(&reg, resp.clone()).unwrap();
    assert_eq!(f.supply.total, "2.0000 UM");
    assert_eq!(f.usdc_equivalent_supply.total, "4.0000 USDC");
    assert_eq!(f.depositors.total, 5);
    assert_eq!(f.shielded.by_asset[0].total, "1.0000");
    let partial = Registry::from_records(vec![record(
        staking_token().bytes,
        meta(6, "UM", vec![]),
    )])
    .unwrap();
    assert_eq!(
        FormattedIndexResponse::format(&partial, resp).unwrap_err(),
        FormatError::UnknownSupplyAsset
    );
}

#[test]
fn registry_load_is_deterministic() {
    let a = registry();
    let b = registry();
    for id in [staking_token().bytes, reference_currency().bytes, [1u8; 32], [9u8; 32]] {
        let id = AssetId::new(id);
        let x = a.metadata(&id).map(|m| (m.symbol.clone(), m.exponent));
        let y = b.metadata(&id).map(|m| (m.symbol.clone(), m.exponent));
        assert_eq!(x, y);
    }
    assert!(a.metadata(&AssetId::new([9u8; 32])).is_none());
}

#[test]
fn registry_load_errors() {
    let missing = MetadataRecord { asset_id: None, metadata: meta(6, "X", vec![]) };
    let short = MetadataRecord { asset_id: Some(vec![1, 2, 3]), metadata: meta(6, "Y", vec![]) };
    assert_eq!(
        Registry::from_records(vec![record([1u8; 32], meta(1, "A", vec![])), missing])
            .unwrap_err(),
        LoadError::MissingAssetId
    );
    assert_eq!(Registry::from_records(vec![short]).unwrap_err(), LoadError::InvalidAssetId);
}

#[test]
fn later_record_replaces_earlier() {
    let reg = Registry::from_records(vec![
        record([1u8; 32], meta(1, "OLD", vec![])),
        record([1u8; 32], meta(2, "NEW", vec![])),
    ])
    .unwrap();
    let m = reg.metadata(&AssetId::new([1u8; 32])).unwrap();
    assert_eq!(m.symbol, "NEW");
    assert_eq!(m.exponent, 2);
}
