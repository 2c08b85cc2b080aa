//! The rows of the book, as they are stored and as the contracts see them.

use vstd::prelude::*;

verus! {

/// One note that arrived: which transaction and output it is, whose address it
/// came to, what it is worth, where it was mined and what it said.
#[derive(Debug, Clone)]
pub struct Deposit {
    pub txid: String,
    pub output: u32,
    pub address_index: u32,
    pub zatoshi: u64,
    pub height: u32,
    pub memo: String,
}

/// Who an address was handed to.
#[derive(Debug, Clone)]
pub struct Depositor {
    pub address_index: u32,
    pub label: String,
    pub created_at: i64,
}

/// A round: the block whose miner decides it and, once decided, which miner.
#[derive(Debug, Clone)]
pub struct Round {
    pub id: i64,
    pub settles_on: u32,
    pub outcome: Option<String>,
    pub settled_at: Option<i64>,
}

/// A stake committed to a round.
#[derive(Debug, Clone)]
pub struct Bet {
    pub round_id: i64,
    pub address_index: u32,
    pub outcome: String,
    pub zatoshi: i64,
    pub placed_at: i64,
}

/// What a round returned to an address.
#[derive(Debug, Clone, Copy)]
pub struct Payout {
    pub round_id: i64,
    pub address_index: u32,
    pub zatoshi: i64,
}

/// A balance committed to leaving and, once a transaction pays it, which one.
#[derive(Debug, Clone)]
pub struct Withdrawal {
    pub id: i64,
    pub address_index: u32,
    pub zatoshi: i64,
    pub destination: String,
    pub requested_at: i64,
    pub txid: Option<String>,
    pub sent_at: Option<i64>,
}

/// What the house kept of a round.
#[derive(Debug, Clone, Copy)]
pub struct Rake {
    pub round_id: i64,
    pub zatoshi: i64,
}

/// How a round closed.
#[derive(Debug)]
pub struct Settlement {
    pub outcome: String,
    pub staked: i64,
    pub winners: usize,
    pub paid: i64,
    pub rake: i64,
    pub refunded: bool,
}

/// Every row there is.
#[derive(Debug)]
pub struct Tables {
    pub deposits: Vec<Deposit>,
    pub depositors: Vec<Depositor>,
    pub rounds: Vec<Round>,
    pub bets: Vec<Bet>,
    pub payouts: Vec<Payout>,
    pub withdrawals: Vec<Withdrawal>,
    pub rakes: Vec<Rake>,
}

/// An optional text, seen as its characters.
pub open spec fn text_of(text: Option<String>) -> Option<Seq<char>> {
    match text {
        Some(t) => Some(t@),
        None => None,
    }
}

#[verifier::ext_equal]
pub struct DepositView {
    pub txid: Seq<char>,
    pub output: u32,
    pub address_index: u32,
    pub zatoshi: u64,
    pub height: u32,
    pub memo: Seq<char>,
}

#[verifier::ext_equal]
pub struct DepositorView {
    pub address_index: u32,
    pub label: Seq<char>,
    pub created_at: i64,
}

#[verifier::ext_equal]
pub struct RoundView {
    pub id: i64,
    pub settles_on: u32,
    pub outcome: Option<Seq<char>>,
    pub settled_at: Option<i64>,
}

#[verifier::ext_equal]
pub struct BetView {
    pub round_id: i64,
    pub address_index: u32,
    pub outcome: Seq<char>,
    pub zatoshi: i64,
    pub placed_at: i64,
}

#[verifier::ext_equal]
pub struct WithdrawalView {
    pub id: i64,
    pub address_index: u32,
    pub zatoshi: i64,
    pub destination: Seq<char>,
    pub requested_at: i64,
    pub txid: Option<Seq<char>>,
    pub sent_at: Option<i64>,
}

#[verifier::ext_equal]
pub struct SettlementView {
    pub outcome: Seq<char>,
    pub staked: int,
    pub winners: nat,
    pub paid: int,
    pub rake: int,
    pub refunded: bool,
}

impl View for Deposit {
    type V = DepositView;

    open spec fn view(&self) -> DepositView {
        DepositView {
            txid: self.txid@,
            output: self.output,
            address_index: self.address_index,
            zatoshi: self.zatoshi,
            height: self.height,
            memo: self.memo@,
        }
    }
}

impl View for Depositor {
    type V = DepositorView;

    open spec fn view(&self) -> DepositorView {
        DepositorView {
            address_index: self.address_index,
            label: self.label@,
            created_at: self.created_at,
        }
    }
}

impl View for Round {
    type V = RoundView;

    open spec fn view(&self) -> RoundView {
        RoundView {
            id: self.id,
            settles_on: self.settles_on,
            outcome: text_of(self.outcome),
            settled_at: self.settled_at,
        }
    }
}

impl View for Bet {
    type V = BetView;

    open spec fn view(&self) -> BetView {
        BetView {
            round_id: self.round_id,
            address_index: self.address_index,
            outcome: self.outcome@,
            zatoshi: self.zatoshi,
            placed_at: self.placed_at,
        }
    }
}

impl View for Withdrawal {
    type V = WithdrawalView;

    open spec fn view(&self) -> WithdrawalView {
        WithdrawalView {
            id: self.id,
            address_index: self.address_index,
            zatoshi: self.zatoshi,
            destination: self.destination@,
            requested_at: self.requested_at,
            txid: text_of(self.txid),
            sent_at: self.sent_at,
        }
    }
}

impl View for Settlement {
    type V = SettlementView;

    open spec fn view(&self) -> SettlementView {
        SettlementView {
            outcome: self.outcome@,
            staked: self.staked as int,
            winners: self.winners as nat,
            paid: self.paid as int,
            rake: self.rake as int,
            refunded: self.refunded,
        }
    }
}

/// A copy of a deposit.
pub fn copy_deposit(deposit: &Deposit) -> (copy: Deposit)
    ensures
        copy@ == deposit@,
{
    Deposit {
        txid: deposit.txid.clone(),
        output: deposit.output,
        address_index: deposit.address_index,
        zatoshi: deposit.zatoshi,
        height: deposit.height,
        memo: deposit.memo.clone(),
    }
}

}
