//! The human-facing record: scaled, rounded, symbol-annotated amounts,
//! deposits split into known and unknown assets, known ones sorted.
use vstd::prelude::*;
use vstd::multiset::Multiset;
use crate::amount::{
    decimal_string, decimal_text, four_digits, lemma_decimal_text_value, lemma_four_digits_value,
    lemma_pow10_positive, lemma_rounding_bounds, parse_amount, parse_amount_spec, pow10,
    rounded_units, scaled_text,
};
use crate::asset::{
    asset_prefix, bech32m_text, reference_currency, reference_currency_bytes, staking_token,
    staking_token_bytes, AssetId,
};
use crate::registry::{icon_of, AugmentedMetadata, Registry};
use crate::supply::{Deposit, Depositors, IndexResponse, ShieldedValue, TotalSupply};
use vstd::string::StrSliceExecFns;
use vstd::string::StringExecFns;

verus! {

/// The fixed 1x1 image shown where an asset has no icon.
pub open spec fn placeholder_text() -> Seq<char> {
    "data:image/png;base64,iVBORw0KGgoAAAANSUhEUgAAAAEAAAABCAYAAAAfFcSJAAAACklEQVR4nGMAAQAABQABDQottAAAAABJRU5ErkJggg=="@
}

fn placeholder_image() -> (r: String)
    ensures
        r@ == placeholder_text(),
{
    String::from_str(
        "data:image/png;base64,iVBORw0KGgoAAAANSUhEUgAAAAEAAAABCAYAAAAfFcSJAAAACklEQVR4nGMAAQAABQABDQottAAAAABJRU5ErkJggg==",
    )
}

/// Why the human-facing record could not be built.
#[derive(Clone, Copy, Debug, PartialEq, Eq, Structural)]
pub enum FormatError {
    /// The asset that a supply figure is denominated in is not registered.
    UnknownSupplyAsset,
}

/// A supply amount with the asset's symbol.
pub open spec fn supply_text(m: AugmentedMetadata, amount: u64) -> Seq<char> {
    scaled_text(amount as nat, m.exponent as nat) + seq![' '] + m.symbol@
}

/// Supply figures, each formatted with the asset's symbol.
#[derive(Clone, Debug)]
pub struct FormattedSupply {
    pub total: String,
    pub unstaked: String,
    pub staked: String,
    pub auction: String,
    pub dex: String,
}

impl FormattedSupply {
    /// Formats each figure in the units of `asset`, which must be registered.
    pub fn format(registry: &Registry, asset: &AssetId, value: TotalSupply) -> (r: Result<
        FormattedSupply,
        FormatError,
    >)
        ensures
            r is Ok <==> registry@.contains_key(asset.bytes@),
            r matches Ok(f) ==> {
                let m = registry@[asset.bytes@];
                &&& f.total@ == supply_text(m, value.total)
                &&& f.unstaked@ == supply_text(m, value.unstaked)
                &&& f.staked@ == supply_text(m, value.staked)
                &&& f.auction@ == supply_text(m, value.auction)
                &&& f.dex@ == supply_text(m, value.dex)
            },
            r matches Err(e) ==> e == FormatError::UnknownSupplyAsset,
    {
        match registry.metadata(asset) {
            None => Err(FormatError::UnknownSupplyAsset),
            Some(meta) => Ok(
                FormattedSupply {
                    total: meta.format_with_symbol(asset, value.total as u128),
                    unstaked: meta.format_with_symbol(asset, value.unstaked as u128),
                    staked: meta.format_with_symbol(asset, value.staked as u128),
                    auction: meta.format_with_symbol(asset, value.auction as u128),
                    dex: meta.format_with_symbol(asset, value.dex as u128),
                },
            ),
        }
    }
}

/// One deposit, ready for display.
#[derive(Clone, Debug)]
pub struct FormattedDeposit {
    /// The symbol if the asset is known, else the identifier's text.
    pub asset: String,
    pub total: String,
    pub current: String,
    pub known: bool,
    /// A data URI or link to the icon.
    pub image: String,
}

/// asset, total, current, known, image
pub type DepositText = (Seq<char>, Seq<char>, Seq<char>, bool, Seq<char>);

impl View for FormattedDeposit {
    type V = DepositText;

    open spec fn view(&self) -> DepositText {
        (self.asset@, self.total@, self.current@, self.known, self.image@)
    }
}

/// How a deposit is shown under the registry `reg`.
pub open spec fn deposit_text(reg: Map<Seq<u8>, AugmentedMetadata>, d: Deposit) -> DepositText {
    if reg.contains_key(d.asset.bytes@) {
        let m = reg[d.asset.bytes@];
        (
            m.symbol@,
            scaled_text(d.total as nat, m.exponent as nat),
            scaled_text(d.current as nat, m.exponent as nat),
            true,
            match icon_of(m.images@) {
                Some(i) => i,
                None => placeholder_text(),
            },
        )
    } else {
        (
            bech32m_text(asset_prefix(), d.asset.bytes@),
            decimal_text(d.total as nat),
            decimal_text(d.current as nat),
            false,
            placeholder_text(),
        )
    }
}

impl FormattedDeposit {
    /// Known assets are scaled and shown by symbol and icon; unknown ones keep
    /// their atomic amounts and are shown by identifier and placeholder.
    pub fn format(registry: &Registry, value: Deposit) -> (r: FormattedDeposit)
        ensures
            r@ == deposit_text(registry@, value),
    {
        match registry.metadata(&value.asset) {
            None => FormattedDeposit {
                asset: value.asset.to_text(),
                total: decimal_string(value.total),
                current: decimal_string(value.current),
                image: placeholder_image(),
                known: false,
            },
            Some(meta) => {
                let image = match meta.image() {
                    Some(i) => i,
                    None => placeholder_image(),
                };
                FormattedDeposit {
                    total: meta.format(&value.asset, value.total),
                    current: meta.format(&value.asset, value.current),
                    asset: meta.symbol.clone(),
                    image,
                    known: true,
                }
            },
        }
    }
}


/// The sort key of a rendered amount `I.FFFF`: its integer part and its four
/// fractional digits. Any other text has no key.
pub open spec fn decimal_key(s: Seq<char>) -> Option<(u128, u128)> {
    if s.len() >= 6 && s[s.len() - 5] == '.' {
        match (
            parse_amount_spec(s.subrange(0, s.len() - 5)),
            parse_amount_spec(s.subrange(s.len() - 4, s.len() as int)),
        ) {
            (Some(i), Some(f)) => Some((i, f)),
            _ => None,
        }
    } else {
        None
    }
}

/// `a` sorts at or before `b` in descending order; texts without a key sort last.
pub open spec fn key_ge(a: Option<(u128, u128)>, b: Option<(u128, u128)>) -> bool {
    match (a, b) {
        (_, None) => true,
        (None, Some(_)) => false,
        (Some(x), Some(y)) => x.0 > y.0 || (x.0 == y.0 && x.1 >= y.1),
    }
}

pub open spec fn total_key(d: FormattedDeposit) -> Option<(u128, u128)> {
    decimal_key(d.total@)
}

/// Descending order of the parsed totals.
pub open spec fn sorted_by_total(s: Seq<FormattedDeposit>) -> bool {
    forall|i: int, j: int|
        0 <= i < j < s.len() ==> key_ge(#[trigger] total_key(s[i]), #[trigger] total_key(s[j]))
}

fn decimal_key_of(s: &str) -> (r: Option<(u128, u128)>)
    ensures
        r == decimal_key(s@),
{
    let n = s.unicode_len();
    if n >= 6 && s.get_char(n - 5) == '.' {
        let whole = parse_amount(s.substring_char(0, n - 5));
        let frac = parse_amount(s.substring_char(n - 4, n));
        match (whole, frac) {
            (Some(i), Some(f)) => Some((i, f)),
            _ => None,
        }
    } else {
        None
    }
}

fn key_ge_exec(a: Option<(u128, u128)>, b: Option<(u128, u128)>) -> (r: bool)
    ensures
        r == key_ge(a, b),
{
    match (a, b) {
        (_, None) => true,
        (None, Some(_)) => false,
        (Some(x), Some(y)) => x.0 > y.0 || (x.0 == y.0 && x.1 >= y.1),
    }
}

/// Sorts by descending total, repeatedly taking the first largest remaining
/// deposit.
fn sort_by_total(v: Vec<FormattedDeposit>) -> (r: Vec<FormattedDeposit>)
    ensures
        texts(r@).to_multiset() == texts(v@).to_multiset(),
        sorted_by_total(r@),
{
    broadcast use vstd::seq_lib::group_to_multiset_ensures;

    let ghost all = v@;
    let mut rest = v;
    let mut out: Vec<FormattedDeposit> = Vec::new();
    while rest.len() > 0
        invariant
            texts(out@).to_multiset().add(texts(rest@).to_multiset()) == texts(all).to_multiset(),
            sorted_by_total(out@),
            forall|i: int, j: int|
                0 <= i < out@.len() && 0 <= j < rest@.len() ==> key_ge(
                    #[trigger] total_key(out@[i]),
                    #[trigger] total_key(rest@[j]),
                ),
        decreases rest@.len(),
    {
        let mut m: usize = 0;
        let mut km = decimal_key_of(rest[0].total.as_str());
        let mut k: usize = 1;
        while k < rest.len()
            invariant
                0 <= m < k <= rest@.len(),
                km == total_key(rest@[m as int]),
                forall|j: int| 0 <= j < k ==> key_ge(km, #[trigger] total_key(rest@[j])),
            decreases rest@.len() - k,
        {
            let kk = decimal_key_of(rest[k].total.as_str());
            if !key_ge_exec(km, kk) {
                m = k;
                km = kk;
            }
            k = k + 1;
        }
        let ghost before_rest = rest@;
        let ghost before_out = out@;
        let d = rest.remove(m);
        out.push(d);
        proof {
            texts(before_rest).to_multiset_ensures();
            texts(before_out).to_multiset_ensures();
            assert(texts(rest@) =~= texts(before_rest).remove(m as int));
            assert(texts(out@) =~= texts(before_out).push(d@));
            assert(texts(before_rest)[m as int] == d@);
            assert(texts(out@).to_multiset().add(texts(rest@).to_multiset()) =~= texts(
                all,
            ).to_multiset());
            assert forall|i: int, j: int| 0 <= i < j < out@.len() implies key_ge(
                #[trigger] total_key(out@[i]),
                #[trigger] total_key(out@[j]),
            ) by {
                if j < out@.len() - 1 {
                    assert(out@[i] == before_out[i]);
                    assert(out@[j] == before_out[j]);
                } else {
                    assert(out@[i] == before_out[i]);
                    assert(out@[j] == before_rest[m as int]);
                }
            }
            assert forall|i: int, j: int| 0 <= i < out@.len() && 0 <= j < rest@.len() implies key_ge(
                #[trigger] total_key(out@[i]),
                #[trigger] total_key(rest@[j]),
            ) by {
                let jj = if j < m { j } else { j + 1 };
                assert(rest@[j] == before_rest[jj]);
                if i < out@.len() - 1 {
                    assert(out@[i] == before_out[i]);
                } else {
                    assert(out@[i] == before_rest[m as int]);
                }
            }
        }
    }
    proof {
        assert(texts(rest@) =~= Seq::<DepositText>::empty());
        assert(texts(rest@).to_multiset() =~= Multiset::empty());
        assert(texts(out@).to_multiset().add(Multiset::empty()) =~= texts(out@).to_multiset());
    }
    out
}


/// How the known deposits of `deps` are shown, in input order.
pub open spec fn known_texts(reg: Map<Seq<u8>, AugmentedMetadata>, deps: Seq<Deposit>) -> Seq<DepositText>
    decreases deps.len(),
{
    if deps.len() == 0 {
        Seq::empty()
    } else {
        let rest = known_texts(reg, deps.drop_last());
        if reg.contains_key(deps.last().asset.bytes@) {
            rest.push(deposit_text(reg, deps.last()))
        } else {
            rest
        }
    }
}

/// How the unknown deposits of `deps` are shown, in input order.
pub open spec fn unknown_texts(reg: Map<Seq<u8>, AugmentedMetadata>, deps: Seq<Deposit>) -> Seq<DepositText>
    decreases deps.len(),
{
    if deps.len() == 0 {
        Seq::empty()
    } else {
        let rest = unknown_texts(reg, deps.drop_last());
        if reg.contains_key(deps.last().asset.bytes@) {
            rest
        } else {
            rest.push(deposit_text(reg, deps.last()))
        }
    }
}

pub open spec fn texts(s: Seq<FormattedDeposit>) -> Seq<DepositText> {
    s.map_values(|f: FormattedDeposit| f@)
}

/// Deposits split by whether the registry knows their asset.
#[derive(Clone, Debug)]
pub struct FormattedShieldedValue {
    /// Known assets, by descending total.
    pub by_asset: Vec<FormattedDeposit>,
    /// Unknown assets, in input order.
    pub unknown_asset: Vec<FormattedDeposit>,
}

/// `f` shows the deposits `deps` under the registry `reg`: the unknown ones
/// in input order; the known ones each once, by descending total.
pub open spec fn formats_shielded(
    reg: Map<Seq<u8>, AugmentedMetadata>,
    deps: Seq<Deposit>,
    f: FormattedShieldedValue,
) -> bool {
    let known = known_texts(reg, deps);
    &&& texts(f.unknown_asset@) == unknown_texts(reg, deps)
    &&& texts(f.by_asset@).to_multiset() == known.to_multiset()
    &&& sorted_by_total(f.by_asset@)
}

impl FormattedShieldedValue {
    /// Formats every deposit, routes it by whether its asset is known, and
    /// sorts the known ones by descending total.
    pub fn format(registry: &Registry, value: ShieldedValue) -> (r: FormattedShieldedValue)
        ensures
            formats_shielded(registry@, value.by_asset@, r),
    {
        let ghost reg = registry@;
        let ghost deps = value.by_asset@;
        let mut known: Vec<FormattedDeposit> = Vec::new();
        let mut unknown_asset: Vec<FormattedDeposit> = Vec::new();
        let n = value.by_asset.len();
        let mut i: usize = 0;
        while i < n
            invariant
                reg == registry@,
                deps == value.by_asset@,
                n == deps.len(),
                0 <= i <= n,
                texts(known@) == known_texts(reg, deps.subrange(0, i as int)),
                texts(unknown_asset@) == unknown_texts(reg, deps.subrange(0, i as int)),
            decreases n - i,
        {
            let f = FormattedDeposit::format(registry, value.by_asset[i]);
            proof {
                assert(deps.subrange(0, i + 1).drop_last() =~= deps.subrange(0, i as int));
                assert(deps.subrange(0, i + 1).last() == deps[i as int]);
            }
            let ghost k0 = known@;
            let ghost u0 = unknown_asset@;
            if f.known {
                known.push(f);
                proof {
                    assert(texts(known@) =~= texts(k0).push(f@));
                }
            } else {
                unknown_asset.push(f);
                proof {
                    assert(texts(unknown_asset@) =~= texts(u0).push(f@));
                }
            }
            i = i + 1;
        }
        proof {
            assert(deps.subrange(0, n as int) =~= deps);
        }
        FormattedShieldedValue { by_asset: sort_by_total(known), unknown_asset }
    }
}

/// The human-facing record.
#[derive(Clone, Debug)]
pub struct FormattedIndexResponse {
    pub supply: FormattedSupply,
    pub usdc_equivalent_supply: FormattedSupply,
    pub depositors: Depositors,
    pub shielded: FormattedShieldedValue,
    pub unshielded: FormattedShieldedValue,
}

/// `f` shows `value` in the units of the asset `id`, registered in `reg`.
pub open spec fn formats_supply(
    reg: Map<Seq<u8>, AugmentedMetadata>,
    id: Seq<u8>,
    value: TotalSupply,
    f: FormattedSupply,
) -> bool {
    let m = reg[id];
    &&& reg.contains_key(id)
    &&& f.total@ == supply_text(m, value.total)
    &&& f.unstaked@ == supply_text(m, value.unstaked)
    &&& f.staked@ == supply_text(m, value.staked)
    &&& f.auction@ == supply_text(m, value.auction)
    &&& f.dex@ == supply_text(m, value.dex)
}

impl FormattedIndexResponse {
    /// Formats the native supply in the staking token, the equivalent supply
    /// in the reference currency, and both deposit sets. Fails if either of
    /// the two supply assets is not registered.
    pub fn format(registry: &Registry, resp: IndexResponse) -> (r: Result<
        FormattedIndexResponse,
        FormatError,
    >)
        ensures
            r is Ok <==> registry@.contains_key(staking_token_bytes()) && registry@.contains_key(
                reference_currency_bytes(),
            ),
            r matches Ok(f) ==> {
                &&& formats_supply(registry@, staking_token_bytes(), resp.supply, f.supply)
                &&& formats_supply(
                    registry@,
                    reference_currency_bytes(),
                    resp.usdc_equivalent_supply,
                    f.usdc_equivalent_supply,
                )
                &&& f.depositors == resp.depositors
                &&& formats_shielded(registry@, resp.shielded.by_asset@, f.shielded)
                &&& formats_shielded(registry@, resp.unshielded.by_asset@, f.unshielded)
            },
            r matches Err(e) ==> e == FormatError::UnknownSupplyAsset,
    {
        let supply = FormattedSupply::format(registry, &staking_token(), resp.supply)?;
        let usdc_equivalent_supply = FormattedSupply::format(
            registry,
            &reference_currency(),
            resp.usdc_equivalent_supply,
        )?;
        Ok(
            FormattedIndexResponse {
                supply,
                usdc_equivalent_supply,
                depositors: resp.depositors,
                shielded: FormattedShieldedValue::format(registry, resp.shielded),
                unshielded: FormattedShieldedValue::format(registry, resp.unshielded),
            },
        )
    }
}


/// A rendered amount reads back as its rounded value: the key of the text of
/// `a / 10^e` is the integer part and the four fractional digits of the
/// amount rounded half up. Rendered totals thus always have a key, and the
/// order of keys is the numeric order of the rounded amounts.
pub proof fn lemma_rendered_amount_key(a: u128, e: u8)
    ensures
        rounded_units(a as nat, e as nat) / 10000 <= u128::MAX,
        decimal_key(scaled_text(a as nat, e as nat)) == Some(
            (
                (rounded_units(a as nat, e as nat) / 10000) as u128,
                (rounded_units(a as nat, e as nat) % 10000) as u128,
            ),
        ),
{
    let u = rounded_units(a as nat, e as nat);
    lemma_rounding_bounds(a as nat, e as nat);
    lemma_pow10_positive(e as nat);
    let p = pow10(e as nat) as int;
    assert(u <= (a as int) * 10000) by (nonlinear_arith)
        requires
            p >= 1,
            2 * p * u <= 2 * (a as int) * 10000 + p,
            u >= 0,
            a >= 0,
    ;
    let q = u / 10000;
    let r = u % 10000;
    assert(q <= a);
    lemma_decimal_text_value(q);
    lemma_four_digits_value(r);
    let d = decimal_text(q);
    let f = four_digits(r);
    let s = scaled_text(a as nat, e as nat);
    assert(s =~= d + seq!['.'] + f);
    assert(s[s.len() - 5] == '.');
    assert(s.subrange(0, s.len() - 5) =~= d);
    assert(s.subrange(s.len() - 4, s.len() as int) =~= f);
}

} // verus!
