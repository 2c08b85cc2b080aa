//! Spending from the wallet, with a memo: what is checked before anything is
//! built, and what the network's answer means.
//!
//! This needs the spending key, which the scanner never sees. The point of the
//! split is that the process which is reachable from the internet cannot do
//! this.

use vstd::prelude::*;
use vstd::utf8::encode_utf8;

use crate::keys::{
    account_of, is_address, read_seed, seed_of, takes_address, viewing_key, viewing_key_of, Account,
    SEED_SIZE,
};
use crate::memo::{memo_of, padded, MEMO_SIZE};
use crate::network::{other_than, Network};
use crate::supply::MONEY_SUPPLY;
use crate::text::{decimal, decimal_i64, trim, trimmed};

verus! {

/// `zcash_protocol::value::Zatoshis::from_u64`: an amount is a value where it
/// is at most 21 million coins of a hundred million zatoshi.
#[verifier::external_body]
fn is_value(zatoshi: u64) -> (is: bool)
    ensures
        is == (zatoshi <= MONEY_SUPPLY),
{
    zcash_protocol::value::Zatoshis::from_u64(zatoshi).is_ok()
}

/// A payment that may be built: whose it is, where it goes, how much it is and
/// what it says.
pub struct Payment {
    pub seed: [u8; SEED_SIZE],
    pub to: String,
    pub zatoshi: u64,
    pub memo: [u8; MEMO_SIZE],
}

/// Why a payment is not made.
#[derive(Debug)]
pub enum SendError {
    /// The file does not hold a seed phrase.
    Phrase(String),
    /// The seed gives no spending key.
    SpendingKey(String),
    /// The destination is no address of the network.
    NotAnAddress,
    /// The amount is more than there is.
    NotAValue,
    /// The memo does not fit.
    MemoTooLong,
    /// The wallet holds no account.
    NoAccount,
    /// The network refused the transaction.
    Refused { txid: String, code: i32, message: String },
}

/// What such a refusal says.
pub open spec fn send_error_text(error: SendError) -> Seq<char> {
    match error {
        SendError::Phrase(why) => "that file does not hold a seed phrase: "@ + why@,
        SendError::SpendingKey(_) => "deriving the spending key"@,
        SendError::NotAnAddress => "that is not an address for this network"@,
        SendError::NotAValue => "that amount is not a value"@,
        SendError::MemoTooLong => "a memo is at most 512 bytes"@,
        SendError::NoAccount => "this wallet has no account; run scan first"@,
        SendError::Refused { txid, code, message } => "the network refused "@ + txid@ + ": code "@
            + decimal(code as int) + " "@ + message@,
    }
}

impl SendError {
    /// What the refusal says.
    pub fn message(&self) -> (text: String)
        ensures
            text@ == send_error_text(*self),
    {
        match self {
            SendError::Phrase(why) => {
                "that file does not hold a seed phrase: ".to_owned().concat(why.as_str())
            },
            SendError::SpendingKey(_) => "deriving the spending key".to_owned(),
            SendError::NotAnAddress => "that is not an address for this network".to_owned(),
            SendError::NotAValue => "that amount is not a value".to_owned(),
            SendError::MemoTooLong => "a memo is at most 512 bytes".to_owned(),
            SendError::NoAccount => "this wallet has no account; run scan first".to_owned(),
            SendError::Refused { txid, code, message } => {
                "the network refused ".to_owned().concat(txid.as_str()).concat(": code ").concat(
                    decimal_i64(*code as i64).as_str(),
                ).concat(" ").concat(message.as_str())
            },
        }
    }
}

/// The payment from what the seed and the destination turned out to be.
pub fn payment_from(
    seed: [u8; SEED_SIZE],
    key: Result<String, String>,
    known: bool,
    to: &str,
    zatoshi: u64,
    memo: &str,
) -> (payment: Result<Payment, SendError>)
    ensures
        match payment {
            Ok(p) => {
                &&& key is Ok && known && zatoshi <= MONEY_SUPPLY
                &&& encode_utf8(memo@).len() <= MEMO_SIZE
                &&& p.seed == seed && p.to@ == to@ && p.zatoshi == zatoshi
                &&& p.memo@ == padded(encode_utf8(memo@))
            },
            Err(SendError::SpendingKey(why)) => key == Err::<String, String>(why),
            Err(SendError::NotAnAddress) => key is Ok && !known,
            Err(SendError::NotAValue) => key is Ok && known && zatoshi > MONEY_SUPPLY,
            Err(SendError::MemoTooLong) => key is Ok && known && zatoshi <= MONEY_SUPPLY
                && encode_utf8(memo@).len() > MEMO_SIZE,
            Err(_) => false,
        },
{
    match key {
        Err(why) => return Err(SendError::SpendingKey(why)),
        Ok(_) => {},
    }
    if !known {
        return Err(SendError::NotAnAddress);
    }
    if !is_value(zatoshi) {
        return Err(SendError::NotAValue);
    }
    match memo_of(memo) {
        None => Err(SendError::MemoTooLong),
        Some(memo) => Ok(Payment { seed, to: to.to_owned(), zatoshi, memo }),
    }
}

/// What a payment is, from the text of the file that holds the seed phrase and
/// nothing else, a destination, an amount and a memo. None is planned to an
/// address of the other network.
pub fn plan_payment(
    network: Network,
    file: &str,
    to: &str,
    zatoshi: u64,
    memo: &str,
) -> (payment: Result<Payment, SendError>)
    ensures
        payment is Ok ==> !is_address(other_than(network), to@),
        match seed_of(trimmed(file@)) {
            Err(refused) => payment matches Err(SendError::Phrase(why)) && why@ == refused,
            Ok(seed) => match viewing_key_of(network, seed) {
                Err(refused) => payment matches Err(SendError::SpendingKey(why)) && why@
                    == refused,
                Ok(_) => if !is_address(network, to@) {
                    payment matches Err(SendError::NotAnAddress)
                } else if zatoshi > MONEY_SUPPLY {
                    payment matches Err(SendError::NotAValue)
                } else if encode_utf8(memo@).len() > MEMO_SIZE {
                    payment matches Err(SendError::MemoTooLong)
                } else {
                    payment matches Ok(p) && p.seed@ == seed && p.to@ == to@ && p.zatoshi
                        == zatoshi && p.memo@ == padded(encode_utf8(memo@))
                },
            },
        },
{
    let phrase = trim(file);
    match read_seed(phrase.as_str()) {
        Err(why) => Err(SendError::Phrase(why)),
        Ok(seed) => {
            let key = viewing_key(network, &seed);
            let known = takes_address(network, to);
            payment_from(seed, key, known, to, zatoshi, memo)
        },
    }
}

/// The account that pays: the first there is.
pub fn first_account<A: Copy>(accounts: &Vec<A>) -> (account: Result<A, SendError>)
    ensures
        match account {
            Ok(account) => accounts.len() > 0 && account == accounts[0],
            Err(why) => accounts.len() == 0 && why is NoAccount,
        },
{
    if accounts.len() == 0 {
        Err(SendError::NoAccount)
    } else {
        Ok(accounts[0])
    }
}

/// What a server's answer to a transaction means. It answers with a code and a
/// string, and a non-zero code is a refusal however friendly the string reads.
pub fn broadcast_answer(txid: &str, code: i32, message: &str) -> (result: Result<
    String,
    SendError,
>)
    ensures
        match result {
            Ok(line) => code == 0 && line@ == "sent "@ + txid@,
            Err(SendError::Refused { txid: t, code: c, message: m }) => code != 0 && t@ == txid@
                && c == code && m@ == message@,
            Err(_) => false,
        },
{
    if code != 0 {
        Err(SendError::Refused { txid: txid.to_owned(), code, message: message.to_owned() })
    } else {
        Ok("sent ".to_owned().concat(txid))
    }
}

/// A wallet that was made can pay: from a file that holds its phrase, with or
/// without white space around it, a seed is read and a spending key derived.
pub proof fn a_wallet_that_was_made_can_pay(network: Network, account: Account, file: Seq<char>)
    requires
        account_of(network, account),
        trimmed(file) == account.phrase@,
    ensures
        seed_of(trimmed(file)) matches Ok(seed) && viewing_key_of(network, seed) is Ok,
{
}

/// What is said where a payment is not made, and what the most is that there is.
pub proof fn what_is_said_of_a_payment_that_is_not_made(
    why: String,
    txid: String,
    code: i32,
    message: String,
)
    ensures
        MONEY_SUPPLY == 21_000_000 * 100_000_000,
        MEMO_SIZE == 512,
        send_error_text(SendError::Phrase(why)) == "that file does not hold a seed phrase: "@
            + why@,
        send_error_text(SendError::SpendingKey(why)) == "deriving the spending key"@,
        send_error_text(SendError::NotAnAddress) == "that is not an address for this network"@,
        send_error_text(SendError::NotAValue) == "that amount is not a value"@,
        send_error_text(SendError::MemoTooLong) == "a memo is at most 512 bytes"@,
        send_error_text(SendError::NoAccount) == "this wallet has no account; run scan first"@,
        send_error_text(SendError::Refused { txid, code, message }) == "the network refused "@
            + txid@ + ": code "@ + decimal(code as int) + " "@ + message@,
{
}

}
