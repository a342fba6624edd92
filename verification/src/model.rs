//! The ledger's record types: currencies, assets, their types, rate
//! observations and operations.
//!
//! Dates are plain `i64` timestamps; the data-access layer around the
//! library converts its calendar types to and from them.

use crate::decimal::Decimal;
use vstd::prelude::*;

verus! {

/// A currency record.
#[derive(Debug, Clone, PartialEq, Eq)]
pub struct Currency {
    pub id: i64,
    pub name: String,
    pub ticker: String,
}

/// One rate observation for a currency, against the implicit base currency.
#[derive(Debug, Clone, Copy, PartialEq, Eq, Structural)]
pub struct CurrencyRate {
    pub id: i64,
    pub currency_id: i64,
    pub rate: Decimal,
    pub date: i64,
}

/// An asset record.
#[derive(Debug, Clone, PartialEq, Eq)]
pub struct Asset {
    pub id: i64,
    pub name: String,
    pub ticker: String,
    pub description: String,
    pub currency: i64,
}

/// An asset type record.
#[derive(Debug, Clone, PartialEq, Eq)]
pub struct AssetType {
    pub id: i64,
    pub name: String,
    pub description: String,
}

/// The link between an asset and an asset type.
#[derive(Debug, Clone, PartialEq, Eq)]
pub struct AssetToType {
    pub asset_id: i64,
    pub type_id: String,
}

/// The kinds of ledger operation on an asset.
#[derive(Debug, Clone, Copy, PartialEq, Eq, Structural)]
pub enum OperationType {
    UpdatePrice,
    Buy,
    Sell,
    Dividend,
    DividendReinvest,
}

/// The numeric code of each operation kind, as stored by collaborators.
pub open spec fn spec_code(t: OperationType) -> u32 {
    match t {
        OperationType::UpdatePrice => 0,
        OperationType::Buy => 1,
        OperationType::Sell => 2,
        OperationType::Dividend => 3,
        OperationType::DividendReinvest => 4,
    }
}

/// The textual name of each operation kind, as stored by collaborators.
pub open spec fn spec_name(t: OperationType) -> Seq<char> {
    match t {
        OperationType::UpdatePrice => "UpdatePrice"@,
        OperationType::Buy => "Buy"@,
        OperationType::Sell => "Sell"@,
        OperationType::Dividend => "Dividend"@,
        OperationType::DividendReinvest => "DividendReinvest"@,
    }
}

impl OperationType {
    /// The kind's numeric code.
    pub fn code(self) -> (r: u32)
        ensures
            r == spec_code(self),
    {
        match self {
            OperationType::UpdatePrice => 0,
            OperationType::Buy => 1,
            OperationType::Sell => 2,
            OperationType::Dividend => 3,
            OperationType::DividendReinvest => 4,
        }
    }

    /// The kind with the given numeric code; nothing for an unknown code.
    pub fn from_code(value: u32) -> (r: Option<OperationType>)
        ensures
            match r {
                Some(t) => spec_code(t) == value,
                None => value > 4,
            },
    {
        match value {
            0 => Some(OperationType::UpdatePrice),
            1 => Some(OperationType::Buy),
            2 => Some(OperationType::Sell),
            3 => Some(OperationType::Dividend),
            4 => Some(OperationType::DividendReinvest),
            _ => None,
        }
    }

    /// The kind named by `value`; nothing for an unknown name.
    pub fn from_name(value: &str) -> (r: Option<OperationType>)
        ensures
            match r {
                Some(t) => spec_name(t) == value@,
                None => {
                    &&& value@ != spec_name(OperationType::UpdatePrice)
                    &&& value@ != spec_name(OperationType::Buy)
                    &&& value@ != spec_name(OperationType::Sell)
                    &&& value@ != spec_name(OperationType::Dividend)
                    &&& value@ != spec_name(OperationType::DividendReinvest)
                },
            },
    {
        if str_eq(value, "UpdatePrice") {
            Some(OperationType::UpdatePrice)
        } else if str_eq(value, "Buy") {
            Some(OperationType::Buy)
        } else if str_eq(value, "Sell") {
            Some(OperationType::Sell)
        } else if str_eq(value, "Dividend") {
            Some(OperationType::Dividend)
        } else if str_eq(value, "DividendReinvest") {
            Some(OperationType::DividendReinvest)
        } else {
            None
        }
    }

    /// The kind's textual name.
    pub fn name(self) -> (r: &'static str)
        ensures
            r@ == spec_name(self),
    {
        match self {
            OperationType::UpdatePrice => "UpdatePrice",
            OperationType::Buy => "Buy",
            OperationType::Sell => "Sell",
            OperationType::Dividend => "Dividend",
            OperationType::DividendReinvest => "DividendReinvest",
        }
    }
}

/// Character-for-character string comparison.
fn str_eq(a: &str, b: &str) -> (r: bool)
    ensures
        r == (a@ == b@),
{
    let na = a.unicode_len();
    let nb = b.unicode_len();
    if na != nb {
        return false;
    }
    let mut i: usize = 0;
    while i < na
        invariant
            0 <= i <= na,
            na == a@.len(),
            nb == b@.len(),
            na == nb,
            forall|j: int| 0 <= j < i ==> a@[j] == b@[j],
        decreases na - i,
    {
        if a.get_char(i) != b.get_char(i) {
            return false;
        }
        i += 1;
    }
    proof {
        assert(a@ =~= b@);
    }
    true
}

/// One ledger operation on an asset.
#[derive(Debug, Clone, Copy, PartialEq, Eq, Structural)]
pub struct AssetOperation {
    pub id: i64,
    pub asset_id: i64,
    pub operation_type: OperationType,
    pub operation_date: i64,
    pub operation_amount: Decimal,
}

} // verus!
