//! The aggregate figures handed over by the store, their conversion from
//! the store's raw values, and the joining of the four fetches.
use vstd::prelude::*;
use crate::amount::{parse_amount, parse_amount_spec, parse_clamped, parse_clamped_spec};
use crate::amount::{lemma_pow10_positive, lemma_rounding_bounds, pow10, rounded_units};
use crate::asset::AssetId;

verus! {

/// A raw value from the store that has no place in the target type.
#[derive(Clone, Copy, Debug, PartialEq, Eq, Structural)]
pub enum ConversionError {
    /// A count or supply figure is negative.
    Negative,
    /// An amount text is not a decimal number that fits in 128 bits.
    Amount,
    /// An asset identifier is not 32 bytes long.
    AssetId,
}

/// Why one of the aggregates could not be produced.
#[derive(Clone, Copy, Debug, PartialEq, Eq, Structural)]
pub enum FetchError {
    /// The store failed to answer the query.
    Store,
    /// The store answered with a value that could not be converted.
    Conversion(ConversionError),
}

/// Supply of the native asset on one pricing basis.
#[derive(Clone, Copy, Debug, PartialEq, Eq, Structural)]
pub struct TotalSupply {
    pub total: u64,
    pub unstaked: u64,
    pub staked: u64,
    pub auction: u64,
    pub dex: u64,
}

impl TotalSupply {
    /// The total is the sum of the four custody categories.
    pub open spec fn balanced(&self) -> bool {
        self.total == self.unstaked + self.staked + self.auction + self.dex
    }
}

pub open spec fn all_non_negative(row: Seq<i64>) -> bool {
    forall|i: int| 0 <= i < row.len() ==> #[trigger] row[i] >= 0
}

/// The supply record in the store's column order: total, staked, unstaked,
/// auction, dex.
pub open spec fn supply_of(row: Seq<i64>, at: int) -> TotalSupply {
    TotalSupply {
        total: row[at] as u64,
        staked: row[at + 1] as u64,
        unstaked: row[at + 2] as u64,
        auction: row[at + 3] as u64,
        dex: row[at + 4] as u64,
    }
}

/// Converts the store's supply row: five figures in native units followed
/// by the same five in the reference currency.
pub fn supply_from_row(row: [i64; 10]) -> (r: Result<(TotalSupply, TotalSupply), ConversionError>)
    ensures
        match r {
            Ok((native, reference)) => all_non_negative(row@) && native == supply_of(row@, 0)
                && reference == supply_of(row@, 5),
            Err(e) => !all_non_negative(row@) && e == ConversionError::Negative,
        },
{
    let mut i: usize = 0;
    while i < 10
        invariant
            0 <= i <= 10,
            forall|j: int| 0 <= j < i ==> #[trigger] row@[j] >= 0,
        decreases 10 - i,
    {
        if row[i] < 0 {
            return Err(ConversionError::Negative);
        }
        i = i + 1;
    }
    let native = TotalSupply {
        total: row[0] as u64,
        staked: row[1] as u64,
        unstaked: row[2] as u64,
        auction: row[3] as u64,
        dex: row[4] as u64,
    };
    let reference = TotalSupply {
        total: row[5] as u64,
        staked: row[6] as u64,
        unstaked: row[7] as u64,
        auction: row[8] as u64,
        dex: row[9] as u64,
    };
    Ok((native, reference))
}

/// Number of distinct external addresses that ever deposited.
#[derive(Clone, Copy, Debug, PartialEq, Eq, Structural)]
pub struct Depositors {
    pub total: u64,
}

impl Depositors {
    /// Converts the store's count.
    pub fn from_count(count: i64) -> (r: Result<Depositors, ConversionError>)
        ensures
            match r {
                Ok(d) => count >= 0 && d.total == count as u64,
                Err(e) => count < 0 && e == ConversionError::Negative,
            },
    {
        if count < 0 {
            Err(ConversionError::Negative)
        } else {
            Ok(Depositors { total: count as u64 })
        }
    }
}

/// Per-asset deposit figures, in atomic units.
#[derive(Clone, Copy, Debug)]
pub struct Deposit {
    pub asset: AssetId,
    /// Cumulative magnitude moved.
    pub total: u128,
    /// Net amount presently held, never below zero.
    pub current: u128,
}

/// The deposit that a store row gives, or the first conversion that fails:
/// the net position, then the identifier, then the total.
pub open spec fn deposit_of(asset: Seq<u8>, net: Seq<char>, total: Seq<char>) -> Result<
    (Seq<u8>, u128, u128),
    ConversionError,
> {
    match parse_clamped_spec(net) {
        None => Err(ConversionError::Amount),
        Some(current) => if asset.len() != 32 {
            Err(ConversionError::AssetId)
        } else {
            match parse_amount_spec(total) {
                None => Err(ConversionError::Amount),
                Some(t) => Ok((asset, t, current)),
            }
        },
    }
}

pub open spec fn deposit_matches(d: Deposit, v: (Seq<u8>, u128, u128)) -> bool {
    d.asset.bytes@ == v.0 && d.total == v.1 && d.current == v.2
}

impl Deposit {
    /// Converts one store row: identifier bytes, net position as text (a
    /// negative net position counts as zero), cumulative total as text.
    pub fn from_row(asset: &[u8], net: &str, total: &str) -> (r: Result<Deposit, ConversionError>)
        ensures
            match (r, deposit_of(asset@, net@, total@)) {
                (Ok(d), Ok(v)) => deposit_matches(d, v),
                (Err(e), Err(f)) => e == f,
                _ => false,
            },
    {
        let current = match parse_clamped(net) {
            Some(c) => c,
            None => {
                return Err(ConversionError::Amount);
            },
        };
        let id = match AssetId::from_slice(asset) {
            Some(id) => id,
            None => {
                return Err(ConversionError::AssetId);
            },
        };
        let total = match parse_amount(total) {
            Some(t) => t,
            None => {
                return Err(ConversionError::Amount);
            },
        };
        Ok(Deposit { asset: id, total, current })
    }
}

/// The deposits of a set of assets, one record per asset observed.
#[derive(Clone, Debug)]
pub struct ShieldedValue {
    pub by_asset: Vec<Deposit>,
}

/// A raw deposit row: identifier bytes, net position, cumulative total.
pub open spec fn row_result(row: (Vec<u8>, String, String)) -> Result<
    (Seq<u8>, u128, u128),
    ConversionError,
> {
    deposit_of(row.0@, row.1@, row.2@)
}

/// The row converts, to the deposit `d`.
pub open spec fn row_gives(row: (Vec<u8>, String, String), d: Deposit) -> bool {
    match row_result(row) {
        Ok(x) => deposit_matches(d, x),
        Err(_) => false,
    }
}

impl ShieldedValue {
    /// Converts all rows, or fails with the error of the first faulty row.
    pub fn from_rows(rows: &Vec<(Vec<u8>, String, String)>) -> (r: Result<ShieldedValue, ConversionError>)
        ensures
            match r {
                Ok(v) => v.by_asset@.len() == rows@.len() && forall|i: int|
                    0 <= i < rows@.len() ==> row_gives(#[trigger] rows@[i], v.by_asset@[i]),
                Err(e) => exists|i: int|
                    0 <= i < rows@.len() && row_result(rows@[i]) == Err::<(Seq<u8>, u128, u128), ConversionError>(e)
                        && forall|j: int| 0 <= j < i ==> (#[trigger] row_result(rows@[j])) is Ok,
            },
    {
        let mut out: Vec<Deposit> = Vec::new();
        let mut i: usize = 0;
        while i < rows.len()
            invariant
                0 <= i <= rows@.len(),
                out@.len() == i,
                forall|j: int|
                    0 <= j < i ==> row_gives(#[trigger] rows@[j], out@[j]),
            decreases rows@.len() - i,
        {
            let row = &rows[i];
            match Deposit::from_row(row.0.as_slice(), row.1.as_str(), row.2.as_str()) {
                Ok(d) => {
                    out.push(d);
                },
                Err(e) => {
                    assert(row_result(rows@[i as int]) == Err::<(Seq<u8>, u128, u128), ConversionError>(e));
                    return Err(e);
                },
            }
            i = i + 1;
        }
        Ok(ShieldedValue { by_asset: out })
    }
}

/// The four aggregates, unformatted.
#[derive(Clone, Debug)]
pub struct IndexResponse {
    pub supply: TotalSupply,
    pub usdc_equivalent_supply: TotalSupply,
    pub depositors: Depositors,
    pub shielded: ShieldedValue,
    pub unshielded: ShieldedValue,
}

/// Joins the outcomes of the four fetches. Fails as soon as one of them
/// failed, with the error of the first in the order supply, depositors,
/// shielded, unshielded; no partial response exists.
pub fn build_response(
    supply: Result<(TotalSupply, TotalSupply), FetchError>,
    depositors: Result<Depositors, FetchError>,
    shielded: Result<ShieldedValue, FetchError>,
    unshielded: Result<ShieldedValue, FetchError>,
) -> (r: Result<IndexResponse, FetchError>)
    ensures
        r is Ok <==> (supply is Ok && depositors is Ok && shielded is Ok && unshielded is Ok),
        r matches Ok(resp) ==> supply == Ok::<(TotalSupply, TotalSupply), FetchError>(
            (resp.supply, resp.usdc_equivalent_supply),
        ) && depositors == Ok::<Depositors, FetchError>(resp.depositors) && shielded == Ok::<
            ShieldedValue,
            FetchError,
        >(resp.shielded) && unshielded == Ok::<ShieldedValue, FetchError>(resp.unshielded),
        r matches Err(e) ==> match (supply, depositors, shielded, unshielded) {
            (Err(x), _, _, _) => e == x,
            (Ok(_), Err(x), _, _) => e == x,
            (Ok(_), Ok(_), Err(x), _) => e == x,
            (Ok(_), Ok(_), Ok(_), Err(x)) => e == x,
            _ => false,
        },
{
    let (supply, usdc_equivalent_supply) = match supply {
        Ok(s) => s,
        Err(e) => {
            return Err(e);
        },
    };
    let depositors = match depositors {
        Ok(d) => d,
        Err(e) => {
            return Err(e);
        },
    };
    let shielded = match shielded {
        Ok(s) => s,
        Err(e) => {
            return Err(e);
        },
    };
    let unshielded = match unshielded {
        Ok(s) => s,
        Err(e) => {
            return Err(e);
        },
    };
    Ok(IndexResponse { supply, usdc_equivalent_supply, depositors, shielded, unshielded })
}

/// Rounding each supply figure keeps a balanced supply balanced up to
/// rounding: in units of the last displayed digit, the rounded total and the
/// sum of the four rounded categories differ by at most 2.
pub proof fn lemma_rounded_supply_consistent(supply: TotalSupply, e: nat)
    requires
        supply.balanced(),
    ensures
        -2 <= rounded_units(supply.total as nat, e) as int - (rounded_units(supply.unstaked as nat, e)
            + rounded_units(supply.staked as nat, e) + rounded_units(supply.auction as nat, e)
            + rounded_units(supply.dex as nat, e)) <= 2,
{
    let total = supply.total as nat;
    let unstaked = supply.unstaked as nat;
    let staked = supply.staked as nat;
    let auction = supply.auction as nat;
    let dex = supply.dex as nat;
    lemma_pow10_positive(e);
    lemma_rounding_bounds(total, e);
    lemma_rounding_bounds(unstaked, e);
    lemma_rounding_bounds(staked, e);
    lemma_rounding_bounds(auction, e);
    lemma_rounding_bounds(dex, e);
    let p = pow10(e) as int;
    let t = rounded_units(total, e) as int;
    let a = rounded_units(unstaked, e) as int;
    let b = rounded_units(staked, e) as int;
    let c = rounded_units(auction, e) as int;
    let d = rounded_units(dex, e) as int;
    let s = a + b + c + d;
    assert(2 * p * t - 2 * p * s < 5 * p && 2 * p * t - 2 * p * s > -5 * p) by (nonlinear_arith)
        requires
            s == a + b + c + d,
            total == unstaked + staked + auction + dex,
            2 * (total as int) * 10000 - p < 2 * p * t <= 2 * (total as int) * 10000 + p,
            2 * (unstaked as int) * 10000 - p < 2 * p * a <= 2 * (unstaked as int) * 10000 + p,
            2 * (staked as int) * 10000 - p < 2 * p * b <= 2 * (staked as int) * 10000 + p,
            2 * (auction as int) * 10000 - p < 2 * p * c <= 2 * (auction as int) * 10000 + p,
            2 * (dex as int) * 10000 - p < 2 * p * d <= 2 * (dex as int) * 10000 + p,
    ;
    assert(-2 <= t - s <= 2) by (nonlinear_arith)
        requires
            p > 0,
            2 * p * t - 2 * p * s < 5 * p,
            2 * p * t - 2 * p * s > -5 * p,
    ;
}

} // verus!
