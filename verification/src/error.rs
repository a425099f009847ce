//! The error taxonomy of the library.
//!
//! Every engine operation either fully succeeds or returns one of these
//! errors before committing any write. Each error carries the quantities
//! of the condition that produced it, and `message` renders the stable
//! human-readable text for it.

use vstd::prelude::*;

verus! {

/// Why an operation was rejected.
///
/// Validation errors (`InvalidName`, `InvalidSymbol`, `InvalidDecimals`,
/// `InvalidAmount`, `InvalidQuorumPercentage`, `DescriptionTooShort`,
/// `DescriptionTooLong`, `InvalidCharacter`) reject bad input before any
/// state is touched. Authorization errors (`Unauthorized`, `NotPollCreator`)
/// abort the whole handler. Business-rule rejections carry the relevant
/// quantities. `CorruptData` signals a stored integer that is not the
/// expected fixed width and is treated as fatal storage corruption.
#[derive(Debug, Clone, Copy, PartialEq, Eq, Structural)]
pub enum Error {
    InvalidName,
    InvalidSymbol,
    InvalidDecimals,
    InvalidAmount,
    CorruptData,
    InsufficientFunds { balance: u128, required: u128 },
    InsufficientFundsBurn { balance: u128, required: u128 },
    InsufficientAllowance { allowance: u128, required: u128 },
    Unauthorized,
    InsufficientFundsSent,
    NothingStaked,
    ExcessiveWithdrawal,
    InvalidQuorumPercentage,
    DescriptionTooShort,
    DescriptionTooLong,
    InvalidCharacter { c: char },
    PollNotFound,
    PollNotInProgress,
    AlreadyVoted,
    InsufficientStake,
    NotPollCreator,
    VotingNotStarted,
    VotingNotExpired,
}

impl Error {
    /// The stable human-readable text of this error.
    pub open spec fn spec_message(self) -> Seq<char> {
        match self {
            Error::InvalidName => "Name is not in the expected format (3-30 UTF-8 bytes)"@,
            Error::InvalidSymbol => "Ticker symbol is not in expected format [A-Z]{3,6}"@,
            Error::InvalidDecimals => "Decimals must not exceed 18"@,
            Error::InvalidAmount => "Error while parsing string to u128"@,
            Error::CorruptData => "Corrupted data found. 16 byte expected."@,
            Error::InsufficientFunds { balance, required } => "Insufficient funds: balance="@
                + crate::codec::dec_of(balance as nat) + ", required="@ + crate::codec::dec_of(
                required as nat,
            ),
            Error::InsufficientFundsBurn { balance, required } =>
                "insufficient funds to burn: balance="@ + crate::codec::dec_of(balance as nat)
                + ", required="@ + crate::codec::dec_of(required as nat),
            Error::InsufficientAllowance { allowance, required } =>
                "Insufficient allowance: allowance="@ + crate::codec::dec_of(allowance as nat)
                + ", required="@ + crate::codec::dec_of(required as nat),
            Error::Unauthorized => "Unauthorized"@,
            Error::InsufficientFundsSent => "Insufficient funds sent"@,
            Error::NothingStaked => "Nothing staked"@,
            Error::ExcessiveWithdrawal => "User is trying to withdraw too many tokens."@,
            Error::InvalidQuorumPercentage => "quorum_percentage must be 0 to 100"@,
            Error::DescriptionTooShort => "Description too short"@,
            Error::DescriptionTooLong => "Description too long"@,
            Error::InvalidCharacter { c } => "Invalid character: '"@ + seq![c] + "'"@,
            Error::PollNotFound => "Poll does not exist"@,
            Error::PollNotInProgress => "Poll is not in progress"@,
            Error::AlreadyVoted => "User has already voted."@,
            Error::InsufficientStake => "User does not have enough staked tokens."@,
            Error::NotPollCreator => "User is not the creator of the poll."@,
            Error::VotingNotStarted => "Voting period has not started."@,
            Error::VotingNotExpired => "Voting period has not expired."@,
        }
    }

    /// Renders the stable human-readable message, reproducing the
    /// quantities of the condition where the error carries them.
    pub fn message(&self) -> (s: String)
        ensures
            s@ == self.spec_message(),
    {
        match self {
            Error::InvalidName => String::from_str(
                "Name is not in the expected format (3-30 UTF-8 bytes)",
            ),
            Error::InvalidSymbol => String::from_str(
                "Ticker symbol is not in expected format [A-Z]{3,6}",
            ),
            Error::InvalidDecimals => String::from_str("Decimals must not exceed 18"),
            Error::InvalidAmount => String::from_str("Error while parsing string to u128"),
            Error::CorruptData => String::from_str("Corrupted data found. 16 byte expected."),
            Error::InsufficientFunds { balance, required } => {
                let mut s = String::from_str("Insufficient funds: balance=");
                let b = crate::codec::u128_to_dec_string(*balance);
                s.append(b.as_str());
                s.append(", required=");
                let q = crate::codec::u128_to_dec_string(*required);
                s.append(q.as_str());
                s
            },
            Error::InsufficientFundsBurn { balance, required } => {
                let mut s = String::from_str("insufficient funds to burn: balance=");
                let b = crate::codec::u128_to_dec_string(*balance);
                s.append(b.as_str());
                s.append(", required=");
                let q = crate::codec::u128_to_dec_string(*required);
                s.append(q.as_str());
                s
            },
            Error::InsufficientAllowance { allowance, required } => {
                let mut s = String::from_str("Insufficient allowance: allowance=");
                let b = crate::codec::u128_to_dec_string(*allowance);
                s.append(b.as_str());
                s.append(", required=");
                let q = crate::codec::u128_to_dec_string(*required);
                s.append(q.as_str());
                s
            },
            Error::Unauthorized => String::from_str("Unauthorized"),
            Error::InsufficientFundsSent => String::from_str("Insufficient funds sent"),
            Error::NothingStaked => String::from_str("Nothing staked"),
            Error::ExcessiveWithdrawal => String::from_str(
                "User is trying to withdraw too many tokens.",
            ),
            Error::InvalidQuorumPercentage => String::from_str("quorum_percentage must be 0 to 100"),
            Error::DescriptionTooShort => String::from_str("Description too short"),
            Error::DescriptionTooLong => String::from_str("Description too long"),
            Error::InvalidCharacter { c } => {
                let mut s = String::from_str("Invalid character: '");
                crate::codec::push_char(&mut s, *c);
                s.append("'");
                proof {
                    assert(s@ =~= "Invalid character: '"@ + seq![*c] + "'"@);
                }
                s
            },
            Error::PollNotFound => String::from_str("Poll does not exist"),
            Error::PollNotInProgress => String::from_str("Poll is not in progress"),
            Error::AlreadyVoted => String::from_str("User has already voted."),
            Error::InsufficientStake => String::from_str(
                "User does not have enough staked tokens.",
            ),
            Error::NotPollCreator => String::from_str("User is not the creator of the poll."),
            Error::VotingNotStarted => String::from_str("Voting period has not started."),
            Error::VotingNotExpired => String::from_str("Voting period has not expired."),
        }
    }
}

} // verus!
