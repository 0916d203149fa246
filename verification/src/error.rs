//! The errors of the library, and how contracts speak of them.

use vstd::prelude::*;

verus! {

/// What can go wrong while decoding accounts or computing a quote.
#[derive(Debug)]
pub enum ArcherAmmError {
    /// Account bytes that are not what they should be.
    DeserializationFailed(String),
    /// State that has not been loaded.
    MissingState(String),
    /// An arithmetic step that has no result.
    MathError(String),
    /// The market does not trade.
    MarketNotActive,
    /// No maker offers anything on the side asked for.
    NoMatchingLiquidity,
}

/// An [`ArcherAmmError`] with its text as a sequence of characters.
pub enum ErrorModel {
    DeserializationFailed(Seq<char>),
    MissingState(Seq<char>),
    MathError(Seq<char>),
    MarketNotActive,
    NoMatchingLiquidity,
}

impl View for ArcherAmmError {
    type V = ErrorModel;

    open spec fn view(&self) -> ErrorModel {
        match *self {
            ArcherAmmError::DeserializationFailed(text) => ErrorModel::DeserializationFailed(text@),
            ArcherAmmError::MissingState(text) => ErrorModel::MissingState(text@),
            ArcherAmmError::MathError(text) => ErrorModel::MathError(text@),
            ArcherAmmError::MarketNotActive => ErrorModel::MarketNotActive,
            ArcherAmmError::NoMatchingLiquidity => ErrorModel::NoMatchingLiquidity,
        }
    }
}

impl ErrorModel {
    /// The text that a user is shown.
    pub open spec fn text(self) -> Seq<char> {
        match self {
            ErrorModel::DeserializationFailed(t) => "Deserialization failed: "@ + t,
            ErrorModel::MissingState(t) => "Missing state: "@ + t,
            ErrorModel::MathError(t) => "Math error: "@ + t,
            ErrorModel::MarketNotActive => "Market not active"@,
            ErrorModel::NoMatchingLiquidity => "No matching liquidity"@,
        }
    }
}

/// A result with its error replaced by the error's model.
pub open spec fn outcome<T>(r: Result<T, ArcherAmmError>) -> Result<T, ErrorModel> {
    match r {
        Ok(v) => Ok(v),
        Err(e) => Err(e@),
    }
}

/// The failure of an arithmetic step.
pub open spec fn math<T>(text: &str) -> Result<T, ErrorModel> {
    Err(ErrorModel::MathError(text@))
}

/// Reports the failure of an arithmetic step.
pub fn math_error(text: &str) -> (e: ArcherAmmError)
    ensures
        e@ == ErrorModel::MathError(text@),
{
    ArcherAmmError::MathError(text.to_string())
}

/// Reports account bytes that were refused.
pub fn decode_error(text: &str) -> (e: ArcherAmmError)
    ensures
        e@ == ErrorModel::DeserializationFailed(text@),
{
    ArcherAmmError::DeserializationFailed(text.to_string())
}

impl ArcherAmmError {
    /// The text that a user is shown.
    pub fn to_text(&self) -> (t: String)
        ensures
            t@ == self@.text(),
    {
        match self {
            ArcherAmmError::DeserializationFailed(t) => "Deserialization failed: ".to_string().concat(
                t.as_str(),
            ),
            ArcherAmmError::MissingState(t) => "Missing state: ".to_string().concat(t.as_str()),
            ArcherAmmError::MathError(t) => "Math error: ".to_string().concat(t.as_str()),
            ArcherAmmError::MarketNotActive => "Market not active".to_string(),
            ArcherAmmError::NoMatchingLiquidity => "No matching liquidity".to_string(),
        }
    }
}

/// What the adapter reports to the router that drives it.
#[derive(Debug)]
pub enum AmmError {
    Custom(String),
}

impl View for AmmError {
    type V = Seq<char>;

    open spec fn view(&self) -> Seq<char> {
        match *self {
            AmmError::Custom(text) => text@,
        }
    }
}

/// An adapter result with its error replaced by the error's text.
pub open spec fn amm_outcome<T>(r: Result<T, AmmError>) -> Result<T, Seq<char>> {
    match r {
        Ok(v) => Ok(v),
        Err(e) => Err(e@),
    }
}

/// Reports a failure of the adapter.
pub fn amm_error(text: &str) -> (e: AmmError)
    ensures
        e@ == text@,
{
    AmmError::Custom(text.to_string())
}

/// Reports a failure of the adapter by a lead and the cause behind it.
pub fn amm_error_because(lead: &str, cause: &str) -> (e: AmmError)
    ensures
        e@ == lead@ + cause@,
{
    AmmError::Custom(lead.to_string().concat(cause))
}

impl AmmError {
    /// The text that a user is shown.
    pub fn to_text(&self) -> (t: String)
        ensures
            t@ == self@,
    {
        match self {
            AmmError::Custom(text) => text.clone(),
        }
    }
}

} // verus!
