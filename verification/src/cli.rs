//! The shapes of the command surface, and the pure decisions they carry.
//!
//! These are the commands as plain data. The program around the library
//! parses arguments into them and performs what they ask; the decisions
//! that need no I/O — which asset an operation concerns, and what price
//! update it implies — are answered here.

use crate::decimal::Decimal;
use crate::decimal::DecimalError;
use crate::decimal::parse_decimal;
use vstd::prelude::*;

verus! {

/// Commands on currencies.
pub enum CurrencyCommand {
    /// List all currencies.
    List,
    /// Add a new currency with its first rate against the base currency.
    Add { name: String, ticker: String, rate_to_base: String },
    /// Remove a currency.
    Remove { ticker: String },
    /// Add a new rate against the base currency.
    AddRate { ticker: String, rate_to_base: String },
}

/// Commands on asset types.
pub enum TypesCommand {
    /// List all asset types.
    List,
    /// Add a new asset type.
    Add { name: String, description: String },
    /// Remove an asset type.
    Remove { id: String },
    /// Apply an asset type to an asset.
    Apply { asset: String, asset_type: String },
    /// Remove an asset type from an asset.
    RemoveFrom { asset: String, asset_type: String },
}

/// Commands on assets.
pub enum AssetsCommand {
    /// List all assets.
    List,
    /// Add a new asset.
    Add { ticker: String, name: Option<String>, description: Option<String>, currency: String },
}

/// Ledger operations on an asset.
pub enum OpsCommand {
    /// Record a new price.
    Price { asset: String, price: String },
    /// Buy an amount, optionally recording a new price first.
    Buy { asset: String, amount: String, price: Option<String> },
    /// Sell an amount, optionally recording a new price first.
    Sell { asset: String, amount: String, price: Option<String> },
    /// Record a dividend, reinvested or paid out.
    Dividend { asset: String, amount: String, reinvest: bool },
}

/// The whole command surface.
pub enum Cli {
    /// Currency commands.
    Currency(CurrencyCommand),
    /// Asset type commands.
    Types(TypesCommand),
    /// Asset commands.
    Assets(AssetsCommand),
    /// Ledger operations.
    Ops(OpsCommand),
}

impl OpsCommand {
    /// The ticker of the asset the operation concerns, for contracts.
    pub open spec fn spec_asset(&self) -> Seq<char> {
        match self {
            OpsCommand::Price { asset, .. } => asset@,
            OpsCommand::Buy { asset, .. } => asset@,
            OpsCommand::Sell { asset, .. } => asset@,
            OpsCommand::Dividend { asset, .. } => asset@,
        }
    }

    /// The price text the operation carries, if any: a price update is
    /// mandatory for `Price`, optional for `Buy` and `Sell`, and never part
    /// of a `Dividend`.
    pub open spec fn spec_price_text(&self) -> Option<Seq<char>> {
        match self {
            OpsCommand::Price { price, .. } => Some(price@),
            OpsCommand::Buy { price, .. } => match price {
                Some(p) => Some(p@),
                None => None,
            },
            OpsCommand::Sell { price, .. } => match price {
                Some(p) => Some(p@),
                None => None,
            },
            OpsCommand::Dividend { .. } => None,
        }
    }

    /// The ticker of the asset the operation concerns.
    pub fn asset(&self) -> (r: &String)
        ensures
            r@ == self.spec_asset(),
    {
        match self {
            OpsCommand::Price { asset, .. } => asset,
            OpsCommand::Buy { asset, .. } => asset,
            OpsCommand::Sell { asset, .. } => asset,
            OpsCommand::Dividend { asset, .. } => asset,
        }
    }

    /// The price update the operation implies: the parsed price text where
    /// the command carries one, nothing where it does not, and a parse
    /// failure exactly where the text is invalid.
    pub fn new_price(&self) -> (r: Result<Option<Decimal>, DecimalError>)
        ensures
            match self.spec_price_text() {
                Some(t) => match r {
                    Ok(Some(d)) => parse_decimal(t) == Some(d.0),
                    Ok(None) => false,
                    Err(e) => e == DecimalError::ParseError && parse_decimal(t) is None,
                },
                None => r is Ok && r->Ok_0 is None,
            },
    {
        match self {
            OpsCommand::Price { price, .. } => match Decimal::from_str(price.as_str()) {
                Ok(d) => Ok(Some(d)),
                Err(e) => Err(e),
            },
            OpsCommand::Buy { price, .. } => match price {
                Some(p) => match Decimal::from_str(p.as_str()) {
                    Ok(d) => Ok(Some(d)),
                    Err(e) => Err(e),
                },
                None => Ok(None),
            },
            OpsCommand::Sell { price, .. } => match price {
                Some(p) => match Decimal::from_str(p.as_str()) {
                    Ok(d) => Ok(Some(d)),
                    Err(e) => Err(e),
                },
                None => Ok(None),
            },
            OpsCommand::Dividend { .. } => Ok(None),
        }
    }
}

} // verus!
