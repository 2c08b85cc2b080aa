//! The wallet's keys: a seed phrase, the viewing key and the address that
//! come of it, and which texts are keys and addresses of a network.
//!
//! The three are not interchangeable. The seed can spend and never touches a
//! server. The viewing key can read every position and spend none of them,
//! which is what a machine reachable from the internet is allowed to hold.
//! The address is published.

use bip0039::{Count, English, Mnemonic};
use vstd::prelude::*;
use zcash_keys::address::Address;
use zcash_keys::keys::{UnifiedAddressRequest, UnifiedFullViewingKey, UnifiedSpendingKey};
use zcash_protocol::consensus;
use zip32::AccountId;

use crate::network::{other_than, Network};

verus! {

/// Bytes of a seed.
pub const SEED_SIZE: usize = 64;

/// The words of a text in which one space stands between two words.
pub open spec fn words(text: Seq<char>) -> nat {
    text.filter(|c: char| c == ' ').len() + 1
}

/// The seed that a phrase stands for, or why it stands for none.
pub uninterp spec fn seed_of(phrase: Seq<char>) -> Result<Seq<u8>, Seq<char>>;

/// The viewing key of the first account under a seed, as text, or why there
/// is no spending key.
pub uninterp spec fn viewing_key_of(network: Network, seed: Seq<u8>) -> Result<
    Seq<char>,
    Seq<char>,
>;

/// The default address of the first account under a seed, as text, or why
/// there is none.
pub uninterp spec fn address_of(network: Network, seed: Seq<u8>) -> Result<Seq<char>, Seq<char>>;

/// Why a text is no viewing key of a network, where it is none.
pub uninterp spec fn viewing_key_refused(network: Network, text: Seq<char>) -> Option<Seq<char>>;

/// Whether a text is an address of a network.
pub uninterp spec fn is_address(network: Network, text: Seq<char>) -> bool;

/// `bip0039::Mnemonic::generate` for 24 English words: which words comes from
/// the system's generator. They stand one space apart, and the phrase is one
/// that `Mnemonic::from_phrase` reads.
#[verifier::external_body]
fn fresh_phrase() -> (phrase: String)
    ensures
        words(phrase@) == 24,
        seed_of(phrase@) is Ok,
{
    Mnemonic::<English>::generate(Count::Words24).phrase().to_owned()
}

/// `bip0039::Mnemonic::from_phrase`, and `Mnemonic::to_seed` with no
/// passphrase: the seed, or what the refusal of the phrase says.
#[verifier::external_body]
pub(crate) fn read_seed(phrase: &str) -> (seed: Result<[u8; SEED_SIZE], String>)
    ensures
        match seed {
            Ok(seed) => seed_of(phrase@) == Ok::<Seq<u8>, Seq<char>>(seed@),
            Err(why) => seed_of(phrase@) == Err::<Seq<u8>, Seq<char>>(why@),
        },
{
    match Mnemonic::<English>::from_phrase(phrase) {
        Ok(mnemonic) => Ok(mnemonic.to_seed("")),
        Err(why) => Err(why.to_string()),
    }
}

/// `zcash_keys::keys::UnifiedSpendingKey::from_seed` for the first account,
/// and of that key `to_unified_full_viewing_key` and its `encode`: the text,
/// or what the refusal of the seed says. `UnifiedFullViewingKey::decode` takes
/// the text on the network it was written for, and refuses it on the other.
#[verifier::external_body]
pub(crate) fn viewing_key(network: Network, seed: &[u8; SEED_SIZE]) -> (key: Result<String, String>)
    ensures
        match key {
            Ok(key) => viewing_key_of(network, seed@) == Ok::<Seq<char>, Seq<char>>(key@)
                && viewing_key_refused(network, key@) is None && viewing_key_refused(
                other_than(network),
                key@,
            ) is Some,
            Err(why) => viewing_key_of(network, seed@) == Err::<Seq<char>, Seq<char>>(why@),
        },
{
    let params = match network {
        Network::MainNetwork => consensus::Network::MainNetwork,
        Network::TestNetwork => consensus::Network::TestNetwork,
    };
    match UnifiedSpendingKey::from_seed(&params, seed, AccountId::ZERO) {
        Ok(key) => Ok(key.to_unified_full_viewing_key().encode(&params)),
        Err(why) => Err(why.to_string()),
    }
}

/// `zcash_keys::keys::UnifiedFullViewingKey::default_address` with a receiver
/// for every key there is, of the viewing key that comes of the seed as
/// above: its text, or what the refusal says. `Address::decode` takes the text
/// on the network it was written for, and refuses it on the other.
#[verifier::external_body]
fn default_address(network: Network, seed: &[u8; SEED_SIZE]) -> (address: Result<String, String>)
    ensures
        match address {
            Ok(address) => address_of(network, seed@) == Ok::<Seq<char>, Seq<char>>(address@)
                && is_address(network, address@) && !is_address(other_than(network), address@),
            Err(why) => address_of(network, seed@) == Err::<Seq<char>, Seq<char>>(why@),
        },
{
    let params = match network {
        Network::MainNetwork => consensus::Network::MainNetwork,
        Network::TestNetwork => consensus::Network::TestNetwork,
    };
    let key = match UnifiedSpendingKey::from_seed(&params, seed, AccountId::ZERO) {
        Ok(key) => key.to_unified_full_viewing_key(),
        Err(why) => return Err(why.to_string()),
    };
    match key.default_address(UnifiedAddressRequest::AllAvailableKeys) {
        Ok((address, _)) => Ok(address.encode(&params)),
        Err(why) => Err(why.to_string()),
    }
}

/// `zcash_keys::keys::UnifiedFullViewingKey::decode`: what the refusal of a
/// text says, where it is refused. A text that is taken on one network is
/// refused on the other.
#[verifier::external_body]
fn viewing_key_refusal(network: Network, text: &str) -> (why: Option<String>)
    ensures
        match why {
            Some(why) => viewing_key_refused(network, text@) == Some(why@),
            None => viewing_key_refused(network, text@) is None && viewing_key_refused(
                other_than(network),
                text@,
            ) is Some,
        },
{
    let params = match network {
        Network::MainNetwork => consensus::Network::MainNetwork,
        Network::TestNetwork => consensus::Network::TestNetwork,
    };
    UnifiedFullViewingKey::decode(&params, text).err()
}

/// `zcash_keys::address::Address::decode`: whether it takes a text. One that it
/// takes on one network it refuses on the other.
#[verifier::external_body]
pub(crate) fn takes_address(network: Network, text: &str) -> (taken: bool)
    ensures
        taken == is_address(network, text@),
        taken ==> !is_address(other_than(network), text@),
{
    let params = match network {
        Network::MainNetwork => consensus::Network::MainNetwork,
        Network::TestNetwork => consensus::Network::TestNetwork,
    };
    Address::decode(&params, text).is_some()
}

/// Why there is no key or no address.
#[derive(Debug)]
pub enum KeyError {
    /// The seed gives no spending key.
    SpendingKey(String),
    /// The viewing key gives no address.
    Address(String),
    /// The text is no viewing key of the network.
    ViewingKey(String),
}

/// What such a refusal says.
pub open spec fn key_error_text(error: KeyError) -> Seq<char> {
    match error {
        KeyError::SpendingKey(_) => "deriving the spending key"@,
        KeyError::Address(_) => "deriving the address"@,
        KeyError::ViewingKey(why) => "that is not a viewing key for this network: "@ + why@,
    }
}

impl KeyError {
    /// What the refusal says.
    pub fn message(&self) -> (text: String)
        ensures
            text@ == key_error_text(*self),
    {
        match self {
            KeyError::SpendingKey(_) => "deriving the spending key".to_owned(),
            KeyError::Address(_) => "deriving the address".to_owned(),
            KeyError::ViewingKey(why) => {
                "that is not a viewing key for this network: ".to_owned().concat(why.as_str())
            },
        }
    }

    /// What lies behind the refusal, where its message does not say so.
    pub fn cause(&self) -> (cause: Option<&String>)
        ensures
            match *self {
                KeyError::SpendingKey(why) => cause == Some(&why),
                KeyError::Address(why) => cause == Some(&why),
                KeyError::ViewingKey(_) => cause is None,
            },
    {
        match self {
            KeyError::SpendingKey(why) => Some(why),
            KeyError::Address(why) => Some(why),
            KeyError::ViewingKey(_) => None,
        }
    }
}

/// What comes of making a wallet.
#[derive(Debug)]
pub struct Account {
    pub phrase: String,
    pub viewing_key: String,
    pub address: String,
}

/// An account holds what its phrase stands for on a network.
pub open spec fn account_of(network: Network, account: Account) -> bool {
    match seed_of(account.phrase@) {
        Ok(seed) => {
            &&& viewing_key_of(network, seed) == Ok::<Seq<char>, Seq<char>>(account.viewing_key@)
            &&& address_of(network, seed) == Ok::<Seq<char>, Seq<char>>(account.address@)
        },
        Err(_) => false,
    }
}

/// The account from what its seed gave: without a spending key there is none,
/// and without an address there is none.
pub fn account_from(
    phrase: String,
    viewing_key: Result<String, String>,
    address: Result<String, String>,
) -> (account: Result<Account, KeyError>)
    ensures
        account == (match (viewing_key, address) {
            (Err(why), _) => Err(KeyError::SpendingKey(why)),
            (Ok(_), Err(why)) => Err(KeyError::Address(why)),
            (Ok(viewing_key), Ok(address)) => Ok(Account { phrase, viewing_key, address }),
        }),
{
    match viewing_key {
        Err(why) => Err(KeyError::SpendingKey(why)),
        Ok(viewing_key) => match address {
            Err(why) => Err(KeyError::Address(why)),
            Ok(address) => Ok(Account { phrase, viewing_key, address }),
        },
    }
}

/// Makes the wallet the market receives positions at.
///
/// It is deliberately not the treasury wallet. The treasury holds what the
/// pool earned; this one holds what other people staked, and the two must
/// never sit in the same place: mixing them makes it impossible to say
/// afterwards whose money was whose.
///
/// The viewing key that comes out is one that a scan takes on this network,
/// and the address one that a payment on this network may go to. Neither is
/// taken on the other network.
pub fn generate(network: Network) -> (account: Result<Account, KeyError>)
    ensures
        match account {
            Ok(account) => {
                &&& words(account.phrase@) == 24
                &&& account_of(network, account)
                &&& viewing_key_refused(network, account.viewing_key@) is None
                &&& is_address(network, account.address@)
                &&& viewing_key_refused(other_than(network), account.viewing_key@) is Some
                &&& !is_address(other_than(network), account.address@)
            },
            Err(KeyError::SpendingKey(why)) => exists|phrase: Seq<char>|
                #[trigger] seed_of(phrase) is Ok && words(phrase) == 24 && viewing_key_of(
                    network,
                    seed_of(phrase)->Ok_0,
                ) == Err::<Seq<char>, Seq<char>>(why@),
            Err(KeyError::Address(why)) => exists|phrase: Seq<char>|
                #[trigger] seed_of(phrase) is Ok && words(phrase) == 24 && viewing_key_of(
                    network,
                    seed_of(phrase)->Ok_0,
                ) is Ok && address_of(network, seed_of(phrase)->Ok_0) == Err::<
                    Seq<char>,
                    Seq<char>,
                >(why@),
            Err(KeyError::ViewingKey(_)) => false,
        },
{
    let phrase = fresh_phrase();
    let ghost text = phrase@;
    match read_seed(phrase.as_str()) {
        Ok(seed) => {
            assert(seed_of(text)->Ok_0 == seed@);
            let key = viewing_key(network, &seed);
            let address = default_address(network, &seed);
            account_from(phrase, key, address)
        },
        Err(why) => {
            assert(false);
            Err(KeyError::SpendingKey(why))
        },
    }
}

/// What is printed of a new wallet.
pub open spec fn account_text(account: Account) -> Seq<char> {
    "seed phrase (24 words; write it on paper, never paste it anywhere):\n"@ + account.phrase@
        + "\n\nviewing key (safe on the server; reads, cannot spend):\n"@ + account.viewing_key@
        + "\n\naddress (publish this; positions are sent here):\n"@ + account.address@
}

impl Account {
    /// What is printed of a new wallet.
    pub fn report(&self) -> (text: String)
        ensures
            text@ == account_text(*self),
    {
        "seed phrase (24 words; write it on paper, never paste it anywhere):\n".to_owned().concat(
            self.phrase.as_str(),
        ).concat("\n\nviewing key (safe on the server; reads, cannot spend):\n").concat(
            self.viewing_key.as_str(),
        ).concat("\n\naddress (publish this; positions are sent here):\n").concat(
            self.address.as_str(),
        )
    }
}

/// Takes a text as a viewing key of a network, or says why not. What is taken
/// on one network is refused on the other.
pub fn check_viewing_key(network: Network, text: &str) -> (result: Result<(), KeyError>)
    ensures
        match result {
            Ok(()) => viewing_key_refused(network, text@) is None && viewing_key_refused(
                other_than(network),
                text@,
            ) is Some,
            Err(KeyError::ViewingKey(why)) => viewing_key_refused(network, text@) == Some(why@),
            Err(_) => false,
        },
{
    match viewing_key_refusal(network, text) {
        None => Ok(()),
        Some(why) => Err(KeyError::ViewingKey(why)),
    }
}

/// A text without a space is one word, and a space between two texts joins the
/// words of both.
pub proof fn words_stand_a_space_apart(a: Seq<char>, b: Seq<char>)
    ensures
        (forall|i: int| 0 <= i < a.len() ==> #[trigger] a[i] != ' ') ==> words(a) == 1,
        words(a + seq![' '] + b) == words(a) + words(b),
{
    let space = |c: char| c == ' ';
    if forall|i: int| 0 <= i < a.len() ==> #[trigger] a[i] != ' ' {
        no_space_is_found(a);
    }
    let one = seq![' '];
    Seq::filter_distributes_over_add(a + one, b, space);
    Seq::filter_distributes_over_add(a, one, space);
    reveal_with_fuel(Seq::filter, 2);
    assert(one.drop_last() =~= Seq::empty());
    assert(one.filter(space) =~= one);
}

proof fn no_space_is_found(a: Seq<char>)
    requires
        forall|i: int| 0 <= i < a.len() ==> #[trigger] a[i] != ' ',
    ensures
        a.filter(|c: char| c == ' ').len() == 0,
    decreases a.len(),
{
    reveal(Seq::filter);
    if a.len() > 0 {
        no_space_is_found(a.drop_last());
    }
}

/// An account holds the viewing key and the address that come of the seed of its
/// phrase on its network.
pub proof fn an_account_holds_what_its_seed_gives(network: Network, account: Account, seed: Seq<u8>)
    ensures
        seed_of(account.phrase@) == Ok::<Seq<u8>, Seq<char>>(seed) ==> (account_of(
            network,
            account,
        ) <==> viewing_key_of(network, seed) == Ok::<Seq<char>, Seq<char>>(
            account.viewing_key@,
        ) && address_of(network, seed) == Ok::<Seq<char>, Seq<char>>(account.address@)),
        seed_of(account.phrase@) is Err ==> !account_of(network, account),
{
}

/// What is printed of a new wallet, and what is said where there is none.
pub proof fn what_is_said_of_a_wallet(account: Account, why: String)
    ensures
        SEED_SIZE == 64,
        account_text(account)
            == "seed phrase (24 words; write it on paper, never paste it anywhere):\n"@
            + account.phrase@ + "\n\nviewing key (safe on the server; reads, cannot spend):\n"@
            + account.viewing_key@ + "\n\naddress (publish this; positions are sent here):\n"@
            + account.address@,
        key_error_text(KeyError::SpendingKey(why)) == "deriving the spending key"@,
        key_error_text(KeyError::Address(why)) == "deriving the address"@,
        key_error_text(KeyError::ViewingKey(why)) == "that is not a viewing key for this network: "@
            + why@,
{
}

}
