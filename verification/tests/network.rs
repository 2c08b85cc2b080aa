use ring_wallet::network::{endpoint, name_of, unit_of, Network};

#[test]
fn each_network_has_its_own_words() {
    assert_eq!(endpoint(Network::MainNetwork), "https://zec.rocks:443");
    assert_eq!(endpoint(Network::TestNetwork), "https://testnet.zec.rocks:443");
    assert_eq!(name_of(Network::MainNetwork), "mainnet");
    assert_eq!(name_of(Network::TestNetwork), "testnet");
    assert_eq!(unit_of(Network::MainNetwork), "ZEC");
    assert_eq!(unit_of(Network::TestNetwork), "TAZ");
}
