use orchard::builder::{Builder, BundleType};
use orchard::bundle::{Authorized, BundleVersion};
use orchard::keys::Scope;
use orchard::value::NoteValue;
use orchard::{Anchor, Bundle, Proof};
use ring_wallet::keys::generate;
use ring_wallet::memo::memo_of;
use ring_wallet::network::Network;
use ring_wallet::scan::{
    begin, imports_key, received_in, take_answer, tree_state_height, write_down, Fetched, Next, Note,
    Received, Scan, ScanError,
};
use zcash_keys::keys::UnifiedFullViewingKey;
use zcash_primitives::transaction::{TransactionData, TxVersion};
use zcash_protocol::consensus::{BlockHeight, BranchId};
use zcash_protocol::value::ZatBalance;

/// A height on testnet after the upgrade that brought Ironwood.
const HEIGHT: u32 = 4_140_000;

fn a_key() -> String {
    generate(Network::TestNetwork).unwrap().viewing_key
}

/// A bundle that pays a key. What proves and signs it is left blank: reading
/// it asks for neither.
fn paying(
    version: BundleVersion,
    key: &str,
    outputs: &[(u64, &str)],
) -> Bundle<Authorized, ZatBalance> {
    let params = zcash_protocol::consensus::Network::TestNetwork;
    let ufvk = UnifiedFullViewingKey::decode(&params, key).unwrap();
    let to = ufvk.orchard().unwrap().address_at(0u32, Scope::External);
    let shape = BundleType::Transactional { bundle_required: false, pad_to_minimum: None };
    let mut builder =
        Builder::new(shape, version, version.default_flags(), Anchor::empty_tree()).unwrap();
    for (value, memo) in outputs {
        let memo = memo_of(memo).unwrap();
        builder.add_output(None, to, NoteValue::from_raw(*value), memo).unwrap();
    }
    let (bundle, _) = builder.build::<ZatBalance>(rand::rngs::OsRng).unwrap().unwrap();
    let size = Proof::expected_proof_size(bundle.actions().len());
    bundle.map_authorization(
        &mut (),
        |_, _, _| [0u8; 64].into(),
        |_, _| Authorized::from_parts(Proof::new(vec![0u8; size]), [0u8; 64].into()),
    )
}

fn orchard_transaction(key: &str, outputs: &[(u64, &str)]) -> Vec<u8> {
    let bundle = paying(BundleVersion::orchard_v2(), key, outputs);
    let data: TransactionData<zcash_primitives::transaction::Authorized> =
        TransactionData::from_parts(
            TxVersion::V5,
            BranchId::Nu6_2,
            0,
            BlockHeight::from_u32(0),
            None,
            None,
            None,
            Some(bundle),
        );
    let mut bytes = Vec::new();
    data.freeze().unwrap().write(&mut bytes).unwrap();
    bytes
}

fn ironwood_transaction(key: &str, outputs: &[(u64, &str)]) -> Vec<u8> {
    let bundle = paying(BundleVersion::ironwood_v3(), key, outputs);
    let data: TransactionData<zcash_primitives::transaction::Authorized> =
        TransactionData::from_parts_v6(
            BranchId::Nu6_3,
            0,
            BlockHeight::from_u32(0),
            None,
            None,
            None,
            Some(bundle),
        );
    let mut bytes = Vec::new();
    data.freeze().unwrap().write(&mut bytes).unwrap();
    bytes
}

fn read(data: &[u8], keys: &[&str]) -> Vec<(u32, u64, String)> {
    let keys = keys.iter().map(|k| k.to_string()).collect();
    let mut received: Vec<(u32, u64, String)> =
        received_in(Network::TestNetwork, "ab", HEIGHT, data, &keys)
            .unwrap()
            .into_iter()
            .map(|r| (r.height, r.value, r.memo))
            .collect();
    // The builder shuffles its outputs.
    received.sort();
    received
}

#[test]
fn an_orchard_note_is_read_with_its_memo() {
    let key = a_key();
    let data = orchard_transaction(&key, &[(700, "Foundry"), (300, "Luxor")]);
    assert_eq!(
        read(&data, &[&key]),
        [
            (HEIGHT, 300, "\"Luxor\"".to_string()),
            (HEIGHT, 700, "\"Foundry\"".to_string()),
        ]
    );
}

#[test]
fn an_ironwood_note_is_read_with_its_memo() {
    let key = a_key();
    let data = ironwood_transaction(&key, &[(41, "2Miners"), (42, ""), (43, "unsigned")]);
    assert_eq!(
        read(&data, &[&key]),
        [
            (HEIGHT, 41, "\"2Miners\"".to_string()),
            (HEIGHT, 42, "\"\"".to_string()),
            (HEIGHT, 43, "\"unsigned\"".to_string()),
        ]
    );
}

#[test]
fn a_note_is_read_by_the_key_it_came_to_and_by_no_other() {
    let key = a_key();
    let other = a_key();
    for data in [
        orchard_transaction(&key, &[(5, "a")]),
        ironwood_transaction(&key, &[(5, "a")]),
    ] {
        assert_eq!(read(&data, &[]), []);
        assert_eq!(read(&data, &[&other]), []);
        assert_eq!(read(&data, &[&other, &key]), [(HEIGHT, 5, "\"a\"".to_string())]);
    }
}

#[test]
fn a_transaction_that_cannot_be_read_ends_the_scan() {
    let error =
        received_in(Network::TestNetwork, "ab", HEIGHT, &[1, 2, 3], &Vec::new()).unwrap_err();
    assert!(matches!(error, ScanError::Reading { .. }));
    assert_eq!(error.message(), "reading transaction ab");
    assert!(!error.cause().unwrap().is_empty());
}

#[test]
fn a_key_that_is_none_is_refused() {
    let key = a_key();
    let data = orchard_transaction(&key, &[(5, "a")]);
    let keys = vec![key, "no key".to_string()];
    let error = received_in(Network::TestNetwork, "ab", HEIGHT, &data, &keys).unwrap_err();
    assert!(matches!(error, ScanError::Key(_)));
    assert!(error.message().starts_with("that is not a viewing key for this network: "));
}

#[test]
fn one_transaction_that_is_not_handed_over_does_not_end_the_scan() {
    let refused = Fetched::Refused("gone".to_string());
    match take_answer(Network::TestNetwork, "ab", refused) {
        Ok(Next::Pass(Some(line))) => assert_eq!(line, "  could not fetch ab: gone"),
        _ => panic!("not passed over"),
    }
    let empty = Fetched::Given { data: Vec::new(), height: 7 };
    assert!(matches!(take_answer(Network::TestNetwork, "ab", empty), Ok(Next::Pass(None))));
}

#[test]
fn one_that_is_handed_over_is_read_at_its_height() {
    let bytes = orchard_transaction(&a_key(), &[(5, "a")]);
    let given = Fetched::Given { data: bytes.clone(), height: u64::from(HEIGHT) };
    match take_answer(Network::TestNetwork, "ab", given) {
        Ok(Next::Read { data, height }) => {
            assert_eq!(data, bytes);
            assert_eq!(height, HEIGHT);
        }
        _ => panic!("not read"),
    }
    // A height that is none counts as zero.
    let given = Fetched::Given { data: bytes, height: u64::MAX };
    match take_answer(Network::TestNetwork, "ab", given) {
        Ok(Next::Read { height, .. }) => assert_eq!(height, 0),
        _ => panic!("not read"),
    }
    let given = Fetched::Given { data: vec![0], height: 7 };
    assert!(take_answer(Network::TestNetwork, "ab", given).is_err());
}

#[test]
fn what_is_written_down_is_the_value_and_what_the_memo_says() {
    let mut received = Vec::new();
    let notes = vec![
        Note { value: 9, memo: memo_of("Luxor").unwrap() },
        Note { value: 8, memo: [0xFF; 512] },
    ];
    write_down(&mut received, 12, &notes);
    assert_eq!(received.len(), 2);
    assert_eq!(received[0].line(), "  received 9 zatoshi in block 12  memo \"Luxor\"");
    assert_eq!(received[1].line(), "  received 8 zatoshi in block 12  memo (not text)");
}

#[test]
fn a_scan_tells_what_it_came_to() {
    let mut scan = Scan::new();
    assert_eq!(scan.fetched_line(), None);
    assert!(scan.received_lines().is_empty());
    scan.arrived(vec![Received { height: 3, value: 4, memo: "(empty)".to_string() }]);
    scan.stored();
    scan.arrived(Vec::new());
    scan.stored();
    assert_eq!(scan.enhanced(), 2);
    assert_eq!(scan.fetched_line().unwrap(), "fetched 2 transaction(s) in full");
    assert_eq!(scan.received_lines(), ["  received 4 zatoshi in block 3  memo (empty)"]);
}

#[test]
fn a_scan_begins_with_a_key_that_is_one() {
    let key = a_key();
    assert_eq!(begin(Network::TestNetwork, &key, 100).unwrap(), 99);
    assert_eq!(begin(Network::TestNetwork, &key, 0).unwrap(), 0);
    let error = begin(Network::MainNetwork, &key, 100).unwrap_err();
    assert!(error.message().starts_with("that is not a viewing key for this network: "));
}

#[test]
fn the_key_is_imported_where_there_is_no_account() {
    assert!(imports_key(0));
    assert!(!imports_key(1));
    assert!(!imports_key(2));
}

#[test]
fn a_birthday_is_the_tree_before_it() {
    assert_eq!(tree_state_height(0), 0);
    assert_eq!(tree_state_height(1), 0);
    assert_eq!(tree_state_height(2_000_000), 1_999_999);
}
