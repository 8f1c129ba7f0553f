//! Why a page could not be read.

use vstd::prelude::*;
use vstd::string::*;

verus! {

/// A failure that a provider reports to its host.
#[derive(Debug, PartialEq, Eq)]
pub enum Error {
    /// An action was run and failed.
    Action {
        /// Which action.
        action: String,
        /// What it said.
        message: String,
    },
    /// A stored value could not be turned into bytes or back.
    Decode {
        /// The key it is stored under.
        key: String,
        /// What was wrong with it.
        message: String,
    },
}

impl Error {
    /// The text that describes the failure: what failed, and what it said.
    pub open spec fn text(self) -> Seq<char> {
        match self {
            Error::Action { action, message } => action@ + ": "@ + message@,
            Error::Decode { key, message } => key@ + ": "@ + message@,
        }
    }

    /// The failure as text.
    pub fn to_text(&self) -> (text: String)
        ensures
            text@ == self.text(),
    {
        match self {
            Error::Action { action, message } => {
                let text = action.clone().concat(": ");
                text.concat(message.as_str())
            },
            Error::Decode { key, message } => {
                let text = key.clone().concat(": ");
                text.concat(message.as_str())
            },
        }
    }
}

} // verus!
