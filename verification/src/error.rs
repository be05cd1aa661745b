//! The errors of the exchange.

use vstd::prelude::*;
use vstd::string::*;

verus! {

/// What can go wrong in the exchange.
#[derive(Debug)]
pub enum ExchangeError {
    /// The order itself is malformed.
    InvalidOrder(String),
    /// No order book trades the symbol.
    SymbolNotFound(String),
    /// The book holds no such order.
    OrderNotFound(String),
    /// There is not enough quantity on the other side.
    InsufficientLiquidity,
    /// The time-in-force of the order forbids the execution.
    TimeInForceViolation(String),
    /// A message could not be handed to its receiver.
    ChannelSendError(String),
    /// A message could not be received.
    ChannelReceiveError(String),
    /// The exchange clock cannot answer.
    TimeError(String),
    /// An operation that should have been possible was not.
    InternalError(String),
    /// Input or output failed; the text describes the failure.
    IoError(String),
}

/// An [`ExchangeError`] with its text as a sequence of characters.
pub enum ErrorView {
    InvalidOrder(Seq<char>),
    SymbolNotFound(Seq<char>),
    OrderNotFound(Seq<char>),
    InsufficientLiquidity,
    TimeInForceViolation(Seq<char>),
    ChannelSendError(Seq<char>),
    ChannelReceiveError(Seq<char>),
    TimeError(Seq<char>),
    InternalError(Seq<char>),
    IoError(Seq<char>),
}

impl View for ExchangeError {
    type V = ErrorView;

    open spec fn view(&self) -> ErrorView {
        match self {
            ExchangeError::InvalidOrder(text) => ErrorView::InvalidOrder(text@),
            ExchangeError::SymbolNotFound(text) => ErrorView::SymbolNotFound(text@),
            ExchangeError::OrderNotFound(text) => ErrorView::OrderNotFound(text@),
            ExchangeError::InsufficientLiquidity => ErrorView::InsufficientLiquidity,
            ExchangeError::TimeInForceViolation(text) => ErrorView::TimeInForceViolation(text@),
            ExchangeError::ChannelSendError(text) => ErrorView::ChannelSendError(text@),
            ExchangeError::ChannelReceiveError(text) => ErrorView::ChannelReceiveError(text@),
            ExchangeError::TimeError(text) => ErrorView::TimeError(text@),
            ExchangeError::InternalError(text) => ErrorView::InternalError(text@),
            ExchangeError::IoError(text) => ErrorView::IoError(text@),
        }
    }
}

/// The error that a result holds, if any.
pub open spec fn error_of<T>(result: Result<T, ExchangeError>) -> Option<ErrorView> {
    match result {
        Ok(_) => None,
        Err(error) => Some(error@),
    }
}

impl ErrorView {
    /// The line that describes the error to a person.
    pub open spec fn message(self) -> Seq<char> {
        match self {
            ErrorView::InvalidOrder(text) => "Invalid order: "@ + text,
            ErrorView::SymbolNotFound(text) => "Symbol not found: "@ + text,
            ErrorView::OrderNotFound(text) => "Order not found: "@ + text,
            ErrorView::InsufficientLiquidity => "Insufficient liquidity"@,
            ErrorView::TimeInForceViolation(text) => "Time-in-force violation: "@ + text,
            ErrorView::ChannelSendError(text) => "Channel send error: "@ + text,
            ErrorView::ChannelReceiveError(text) => "Channel receive error: "@ + text,
            ErrorView::TimeError(text) => "Time error: "@ + text,
            ErrorView::InternalError(text) => "Internal error: "@ + text,
            ErrorView::IoError(text) => "IO error: "@ + text,
        }
    }
}

/// Two pieces of text, one after the other.
pub(crate) fn joined(first: &str, second: &str) -> (text: String)
    ensures
        text@ == first@ + second@,
{
    let mut text = first.to_owned();
    text.append(second);
    text
}

impl ExchangeError {
    /// The line that describes the error to a person.
    pub fn message(&self) -> (text: String)
        ensures
            text@ == self@.message(),
    {
        match self {
            ExchangeError::InvalidOrder(text) => joined("Invalid order: ", text.as_str()),
            ExchangeError::SymbolNotFound(text) => joined("Symbol not found: ", text.as_str()),
            ExchangeError::OrderNotFound(text) => joined("Order not found: ", text.as_str()),
            ExchangeError::InsufficientLiquidity => "Insufficient liquidity".to_owned(),
            ExchangeError::TimeInForceViolation(text) => joined(
                "Time-in-force violation: ",
                text.as_str(),
            ),
            ExchangeError::ChannelSendError(text) => joined("Channel send error: ", text.as_str()),
            ExchangeError::ChannelReceiveError(text) => joined(
                "Channel receive error: ",
                text.as_str(),
            ),
            ExchangeError::TimeError(text) => joined("Time error: ", text.as_str()),
            ExchangeError::InternalError(text) => joined("Internal error: ", text.as_str()),
            ExchangeError::IoError(text) => joined("IO error: ", text.as_str()),
        }
    }
}

} // verus!
