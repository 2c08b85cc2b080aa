use ring_wallet::keys::{account_from, check_viewing_key, generate, KeyError};
use ring_wallet::network::Network;
use zcash_keys::address::Address;
use zcash_keys::keys::{UnifiedAddressRequest, UnifiedFullViewingKey, UnifiedSpendingKey};

fn params(network: Network) -> zcash_protocol::consensus::Network {
    match network {
        Network::MainNetwork => zcash_protocol::consensus::Network::MainNetwork,
        Network::TestNetwork => zcash_protocol::consensus::Network::TestNetwork,
    }
}

#[test]
fn a_new_wallet_is_what_its_phrase_stands_for() {
    for network in [Network::MainNetwork, Network::TestNetwork] {
        let account = generate(network).unwrap();
        assert_eq!(account.phrase.split(' ').count(), 24);

        let mnemonic =
            bip0039::Mnemonic::<bip0039::English>::from_phrase(account.phrase.as_str()).unwrap();
        let seed = mnemonic.to_seed("");
        let usk =
            UnifiedSpendingKey::from_seed(&params(network), &seed, zip32::AccountId::ZERO).unwrap();
        let ufvk = usk.to_unified_full_viewing_key();
        let (address, _) = ufvk.default_address(UnifiedAddressRequest::AllAvailableKeys).unwrap();
        assert_eq!(account.viewing_key, ufvk.encode(&params(network)));
        assert_eq!(account.address, address.encode(&params(network)));
    }
}

#[test]
fn two_new_wallets_are_two() {
    let one = generate(Network::TestNetwork).unwrap();
    let other = generate(Network::TestNetwork).unwrap();
    assert_ne!(one.phrase, other.phrase);
    assert_ne!(one.viewing_key, other.viewing_key);
    assert_ne!(one.address, other.address);
}

#[test]
fn what_is_printed_is_taken_on_the_network_it_was_made_for() {
    let account = generate(Network::TestNetwork).unwrap();
    assert!(check_viewing_key(Network::TestNetwork, &account.viewing_key).is_ok());
    let network = params(Network::TestNetwork);
    assert!(UnifiedFullViewingKey::decode(&network, &account.viewing_key).is_ok());
    assert!(Address::decode(&network, &account.address).is_some());
}

#[test]
fn a_key_of_the_other_network_is_refused() {
    let account = generate(Network::TestNetwork).unwrap();
    let error = check_viewing_key(Network::MainNetwork, &account.viewing_key).unwrap_err();
    assert_eq!(
        error.message(),
        "that is not a viewing key for this network: UFVK is for network Test but we expected Main"
    );
    assert!(error.cause().is_none());
    assert!(check_viewing_key(Network::MainNetwork, "a key").is_err());
}

#[test]
fn the_report_holds_the_three_and_keeps_them_apart() {
    let account = account_from(
        "words".to_string(),
        Ok("viewing".to_string()),
        Ok("address".to_string()),
    )
    .unwrap();
    assert_eq!(
        account.report(),
        "seed phrase (24 words; write it on paper, never paste it anywhere):\nwords\n\n\
         viewing key (safe on the server; reads, cannot spend):\nviewing\n\n\
         address (publish this; positions are sent here):\naddress"
    );
}

#[test]
fn without_a_key_or_an_address_there_is_no_account() {
    let error =
        account_from("w".to_string(), Err("zero".to_string()), Ok("a".to_string())).unwrap_err();
    assert!(matches!(error, KeyError::SpendingKey(_)));
    assert_eq!(error.message(), "deriving the spending key");
    assert_eq!(error.cause().unwrap(), "zero");
    let error =
        account_from("w".to_string(), Ok("k".to_string()), Err("none".to_string())).unwrap_err();
    assert!(matches!(error, KeyError::Address(_)));
    assert_eq!(error.message(), "deriving the address");
    assert_eq!(error.cause().unwrap(), "none");
}
