//! Why the book refuses an operation, and how it says so.

use vstd::prelude::*;

use crate::book::RefusedView;
use crate::text::{decimal, decimal_i64, decimal_u64};

verus! {

/// Why an operation on the book was refused.
#[derive(Debug)]
pub enum LedgerError {
    /// A deposit of more than a signed 64-bit number.
    DepositNotAValue,
    /// A stake of more than a signed 64-bit number.
    StakeNotAValue,
    /// A withdrawal of more than a signed 64-bit number.
    AmountNotAValue,
    /// No round has that number.
    NoSuchRound,
    /// The rows add up to more than a signed 64-bit number.
    SumTooLarge,
    /// More rows than an unsigned 32-bit number counts.
    CountTooLarge { count: usize },
    /// The round takes no more bets.
    RoundClosed { round_id: i64 },
    /// The round was decided before.
    AlreadySettled { round_id: i64, previous: String },
    /// The address does not have that much.
    Short { address_index: u32, available: i64, wanted: i64 },
    /// The depositor has a position in the round, or stakes nothing.
    PositionTaken,
    /// A withdrawal of nothing.
    NothingAsked,
    /// A transaction is recorded for the withdrawal.
    AlreadyPaid { id: i64, previous: String },
    /// No withdrawal has that number.
    NoSuchWithdrawal { id: i64 },
    /// A payout of the round is written though the round is open.
    PayoutStands,
    /// A rake of the round is written though the round is open.
    RakeStands,
    /// The rows break the rules that every book keeps.
    Inconsistent,
}

impl View for LedgerError {
    type V = RefusedView;

    open spec fn view(&self) -> RefusedView {
        match *self {
            LedgerError::DepositNotAValue => RefusedView::DepositNotAValue,
            LedgerError::StakeNotAValue => RefusedView::StakeNotAValue,
            LedgerError::AmountNotAValue => RefusedView::AmountNotAValue,
            LedgerError::NoSuchRound => RefusedView::NoSuchRound,
            LedgerError::SumTooLarge => RefusedView::SumTooLarge,
            LedgerError::CountTooLarge { count } => RefusedView::CountTooLarge {
                count: count as nat,
            },
            LedgerError::RoundClosed { round_id } => RefusedView::RoundClosed { round_id },
            LedgerError::AlreadySettled { round_id, previous } => RefusedView::AlreadySettled {
                round_id,
                previous: previous@,
            },
            LedgerError::Short { address_index, available, wanted } => RefusedView::Short {
                address_index,
                available: available as int,
                wanted: wanted as int,
            },
            LedgerError::PositionTaken => RefusedView::PositionTaken,
            LedgerError::NothingAsked => RefusedView::NothingAsked,
            LedgerError::AlreadyPaid { id, previous } => RefusedView::AlreadyPaid {
                id,
                previous: previous@,
            },
            LedgerError::NoSuchWithdrawal { id } => RefusedView::NoSuchWithdrawal { id },
            LedgerError::PayoutStands => RefusedView::PayoutStands,
            LedgerError::RakeStands => RefusedView::RakeStands,
            LedgerError::Inconsistent => RefusedView::Inconsistent,
        }
    }
}

/// What a refusal says.
pub open spec fn refusal_text(refused: RefusedView) -> Seq<char> {
    match refused {
        RefusedView::DepositNotAValue => "recording a deposit"@,
        RefusedView::StakeNotAValue => "that stake is not a value"@,
        RefusedView::AmountNotAValue => "that amount is not a value"@,
        RefusedView::NoSuchRound => "Query returned no rows"@,
        RefusedView::SumTooLarge => "integer overflow"@,
        RefusedView::CountTooLarge { count } => "Integer "@ + decimal(count as int)
            + " out of range at index 3"@,
        RefusedView::RoundClosed { round_id } => "round "@ + decimal(round_id as int)
            + " is already settled"@,
        RefusedView::AlreadySettled { round_id, previous } => "round "@ + decimal(round_id as int)
            + " already settled on "@ + previous,
        RefusedView::Short { address_index, available, wanted } => "address "@ + decimal(
            address_index as int,
        ) + " has "@ + decimal(available) + " zatoshi, not "@ + decimal(wanted),
        RefusedView::PositionTaken => "that depositor already has a position in this round"@,
        RefusedView::NothingAsked => "CHECK constraint failed: zatoshi > 0"@,
        RefusedView::AlreadyPaid { id, previous } => "withdrawal "@ + decimal(id as int)
            + " is already paid by "@ + previous,
        RefusedView::NoSuchWithdrawal { id } => "there is no withdrawal "@ + decimal(id as int),
        RefusedView::PayoutStands => {
            "UNIQUE constraint failed: payout.round_id, payout.address_index"@
        },
        RefusedView::RakeStands => "UNIQUE constraint failed: rake.round_id"@,
        RefusedView::Inconsistent => "the rows do not make a book"@,
    }
}

impl LedgerError {
    /// What the refusal says.
    pub fn message(&self) -> (text: String)
        ensures
            text@ == refusal_text(self@),
    {
        match self {
            LedgerError::DepositNotAValue => "recording a deposit".to_owned(),
            LedgerError::StakeNotAValue => "that stake is not a value".to_owned(),
            LedgerError::AmountNotAValue => "that amount is not a value".to_owned(),
            LedgerError::NoSuchRound => "Query returned no rows".to_owned(),
            LedgerError::SumTooLarge => "integer overflow".to_owned(),
            LedgerError::CountTooLarge { count } => {
                "Integer ".to_owned().concat(decimal_u64(*count as u64).as_str()).concat(
                    " out of range at index 3",
                )
            },
            LedgerError::RoundClosed { round_id } => {
                "round ".to_owned().concat(decimal_i64(*round_id).as_str()).concat(
                    " is already settled",
                )
            },
            LedgerError::AlreadySettled { round_id, previous } => {
                "round ".to_owned().concat(decimal_i64(*round_id).as_str()).concat(
                    " already settled on ",
                ).concat(previous.as_str())
            },
            LedgerError::Short { address_index, available, wanted } => {
                "address ".to_owned().concat(decimal_u64(*address_index as u64).as_str()).concat(
                    " has ",
                ).concat(decimal_i64(*available).as_str()).concat(" zatoshi, not ").concat(
                    decimal_i64(*wanted).as_str(),
                )
            },
            LedgerError::PositionTaken => {
                "that depositor already has a position in this round".to_owned()
            },
            LedgerError::NothingAsked => "CHECK constraint failed: zatoshi > 0".to_owned(),
            LedgerError::AlreadyPaid { id, previous } => {
                "withdrawal ".to_owned().concat(decimal_i64(*id).as_str()).concat(
                    " is already paid by ",
                ).concat(previous.as_str())
            },
            LedgerError::NoSuchWithdrawal { id } => {
                "there is no withdrawal ".to_owned().concat(decimal_i64(*id).as_str())
            },
            LedgerError::PayoutStands => {
                "UNIQUE constraint failed: payout.round_id, payout.address_index".to_owned()
            },
            LedgerError::RakeStands => "UNIQUE constraint failed: rake.round_id".to_owned(),
            LedgerError::Inconsistent => "the rows do not make a book".to_owned(),
        }
    }
}

/// A refusal is seen as it is, and says which of the things it names was wrong.
pub proof fn a_refusal_says_what_was_wrong(
    number: i64,
    address_index: u32,
    available: i64,
    wanted: i64,
    count: usize,
    previous: String,
)
    ensures
        refusal_text(LedgerError::DepositNotAValue@) == "recording a deposit"@,
        refusal_text(LedgerError::StakeNotAValue@) == "that stake is not a value"@,
        refusal_text(LedgerError::AmountNotAValue@) == "that amount is not a value"@,
        refusal_text(LedgerError::NoSuchRound@) == "Query returned no rows"@,
        refusal_text(LedgerError::SumTooLarge@) == "integer overflow"@,
        refusal_text((LedgerError::CountTooLarge { count })@) == "Integer "@ + decimal(count as int)
            + " out of range at index 3"@,
        refusal_text((LedgerError::RoundClosed { round_id: number })@) == "round "@ + decimal(
            number as int,
        ) + " is already settled"@,
        refusal_text((LedgerError::AlreadySettled { round_id: number, previous })@) == "round "@
            + decimal(number as int) + " already settled on "@ + previous@,
        refusal_text((LedgerError::Short { address_index, available, wanted })@) == "address "@
            + decimal(address_index as int) + " has "@ + decimal(available as int)
            + " zatoshi, not "@ + decimal(wanted as int),
        refusal_text(LedgerError::PositionTaken@)
            == "that depositor already has a position in this round"@,
        refusal_text(LedgerError::NothingAsked@) == "CHECK constraint failed: zatoshi > 0"@,
        refusal_text((LedgerError::AlreadyPaid { id: number, previous })@) == "withdrawal "@
            + decimal(number as int) + " is already paid by "@ + previous@,
        refusal_text((LedgerError::NoSuchWithdrawal { id: number })@) == "there is no withdrawal "@
            + decimal(number as int),
        refusal_text(LedgerError::PayoutStands@)
            == "UNIQUE constraint failed: payout.round_id, payout.address_index"@,
        refusal_text(LedgerError::RakeStands@) == "UNIQUE constraint failed: rake.round_id"@,
        refusal_text(LedgerError::Inconsistent@) == "the rows do not make a book"@,
{
}

/// Each refusal is seen under its own name, with what it names.
pub proof fn a_refusal_is_seen_under_its_own_name(
    number: i64,
    address_index: u32,
    available: i64,
    wanted: i64,
    count: usize,
    previous: String,
)
    ensures
        LedgerError::DepositNotAValue@ == RefusedView::DepositNotAValue,
        LedgerError::StakeNotAValue@ == RefusedView::StakeNotAValue,
        LedgerError::AmountNotAValue@ == RefusedView::AmountNotAValue,
        LedgerError::NoSuchRound@ == RefusedView::NoSuchRound,
        LedgerError::SumTooLarge@ == RefusedView::SumTooLarge,
        (LedgerError::CountTooLarge { count })@ == (RefusedView::CountTooLarge {
            count: count as nat,
        }),
        (LedgerError::RoundClosed { round_id: number })@ == (RefusedView::RoundClosed {
            round_id: number,
        }),
        (LedgerError::AlreadySettled { round_id: number, previous })@ == (
        RefusedView::AlreadySettled { round_id: number, previous: previous@ }),
        (LedgerError::Short { address_index, available, wanted })@ == (RefusedView::Short {
            address_index,
            available: available as int,
            wanted: wanted as int,
        }),
        LedgerError::PositionTaken@ == RefusedView::PositionTaken,
        LedgerError::NothingAsked@ == RefusedView::NothingAsked,
        (LedgerError::AlreadyPaid { id: number, previous })@ == (RefusedView::AlreadyPaid {
            id: number,
            previous: previous@,
        }),
        (LedgerError::NoSuchWithdrawal { id: number })@ == (RefusedView::NoSuchWithdrawal {
            id: number,
        }),
        LedgerError::PayoutStands@ == RefusedView::PayoutStands,
        LedgerError::RakeStands@ == RefusedView::RakeStands,
        LedgerError::Inconsistent@ == RefusedView::Inconsistent,
{
}

}
