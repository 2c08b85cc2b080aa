//! The two networks, and what is said of each.

use vstd::prelude::*;

verus! {

/// Which chain a key, an address and a figure belong to.
#[derive(Debug, Clone, Copy, PartialEq, Eq, Structural)]
pub enum Network {
    MainNetwork,
    TestNetwork,
}

/// The network that this one is not.
pub open spec fn other_than(network: Network) -> Network {
    match network {
        Network::MainNetwork => Network::TestNetwork,
        Network::TestNetwork => Network::MainNetwork,
    }
}

/// Where to sync from, per network. Testnet exists so the whole pipeline can
/// be tried without moving money: the coins have no value and the faucet
/// gives them away.
pub fn endpoint(network: Network) -> (url: &'static str)
    ensures
        url@ == (match network {
            Network::MainNetwork => "https://zec.rocks:443"@,
            Network::TestNetwork => "https://testnet.zec.rocks:443"@,
        }),
{
    match network {
        Network::MainNetwork => "https://zec.rocks:443",
        Network::TestNetwork => "https://testnet.zec.rocks:443",
    }
}

/// What a network is called.
pub open spec fn called(network: Network) -> Seq<char> {
    match network {
        Network::MainNetwork => "mainnet"@,
        Network::TestNetwork => "testnet"@,
    }
}

/// What a network's coins are called.
pub open spec fn coin(network: Network) -> Seq<char> {
    match network {
        Network::MainNetwork => "ZEC"@,
        Network::TestNetwork => "TAZ"@,
    }
}

/// What a network is called.
pub fn name_of(network: Network) -> (name: &'static str)
    ensures
        name@ == called(network),
{
    match network {
        Network::MainNetwork => "mainnet",
        Network::TestNetwork => "testnet",
    }
}

/// Testnet coins are called TAZ and are worth nothing. Calling them ZEC on a
/// page that also prints an address is how somebody sends real money to a
/// testnet address and never sees it again.
pub fn unit_of(network: Network) -> (unit: &'static str)
    ensures
        unit@ == coin(network),
{
    match network {
        Network::MainNetwork => "ZEC",
        Network::TestNetwork => "TAZ",
    }
}

/// The two networks are told apart by every word that is said of them, so no
/// figure is shown under the other network's name or unit.
pub proof fn the_networks_are_told_apart(network: Network)
    ensures
        called(network) != called(other_than(network)),
        coin(network) != coin(other_than(network)),
{
    reveal_strlit("mainnet");
    reveal_strlit("testnet");
    reveal_strlit("ZEC");
    reveal_strlit("TAZ");
    assert("mainnet"@[0] != "testnet"@[0]);
    assert("ZEC"@[0] != "TAZ"@[0]);
}

/// What is said of each network.
pub proof fn what_is_said_of_each_network()
    ensures
        called(Network::MainNetwork) == "mainnet"@,
        called(Network::TestNetwork) == "testnet"@,
        coin(Network::MainNetwork) == "ZEC"@,
        coin(Network::TestNetwork) == "TAZ"@,
        forall|network: Network| #[trigger] other_than(network) != network,
{
}

}
