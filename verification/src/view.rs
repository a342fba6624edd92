//! Listing records handed to a presentation layer, and their verified text
//! lines.

use crate::decimal::Decimal;
use crate::decimal::render;
use vstd::prelude::*;

verus! {

/// A short listing line for an asset: its ticker and its type tags.
#[derive(Debug, Clone, PartialEq, Eq)]
pub struct AssetShortInfo {
    pub ticker: String,
    pub tags: Vec<String>,
}

/// A short listing line for a currency: its name, ticker and latest rate.
#[derive(Debug, Clone, PartialEq, Eq)]
pub struct CurrencyShortInfo {
    pub name: String,
    pub ticker: String,
    pub rate: Decimal,
}

/// A listing line for an asset type.
#[derive(Debug, Clone, PartialEq, Eq)]
pub struct TypeView {
    pub id: i64,
    pub name: String,
    pub description: String,
}

/// The listing line of a currency: `name = rate`, with the ticker added in
/// parentheses where it differs from the name.
pub open spec fn currency_line(name: Seq<char>, ticker: Seq<char>, rate: int) -> Seq<char> {
    if name == ticker {
        name + " = "@ + render(rate)
    } else {
        name + "("@ + ticker + ") = "@ + render(rate)
    }
}

impl CurrencyShortInfo {
    /// Renders the listing line for this currency.
    pub fn display_line(&self) -> (r: String)
        ensures
            r@ == currency_line(self.name@, self.ticker@, self.rate.0 as int),
    {
        let mut s = String::new();
        s.append(self.name.as_str());
        if self.name == self.ticker {
            s.append(" = ");
        } else {
            s.append("(");
            s.append(self.ticker.as_str());
            s.append(") = ");
        }
        let rate_text = self.rate.to_string();
        s.append(rate_text.as_str());
        proof {
            assert(s@ =~= currency_line(self.name@, self.ticker@, self.rate.0 as int));
        }
        s
    }
}

} // verus!
