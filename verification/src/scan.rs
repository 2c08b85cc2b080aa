//! Reading what arrived: which notes of a transaction are the wallet's, what
//! each is worth, and what each says.
//!
//! Scanning compact blocks spots a note and its value; the memo needs the
//! transaction in full. The memo is the whole reason for the round trip: it is
//! where a position names what it is backing.

use std::collections::HashMap;

use orchard::keys::{PreparedIncomingViewingKey, Scope};
use orchard::note_encryption::IronwoodDomain;
use vstd::prelude::*;
use zcash_client_backend::decrypt_transaction;
use zcash_keys::keys::UnifiedFullViewingKey;
use zcash_note_encryption::try_note_decryption;
use zcash_primitives::transaction::Transaction;
use zcash_protocol::consensus::{self, BranchId};

use crate::keys::{check_viewing_key, key_error_text, viewing_key_refused, KeyError};
use crate::memo::{describe, memo_kind, said, MEMO_SIZE};
use crate::network::Network;
use crate::sums::{total, total_prefix};
use crate::text::{decimal, decimal_u64, texts};

verus! {

/// A note as it was decrypted: what it is worth, and its memo.
pub struct Note {
    pub value: u64,
    pub memo: [u8; MEMO_SIZE],
}

impl View for Note {
    type V = (u64, Seq<u8>);

    open spec fn view(&self) -> (u64, Seq<u8>) {
        (self.value, self.memo@)
    }
}

/// Notes, seen as what they are worth and their memos.
pub open spec fn note_views(notes: Seq<Note>) -> Seq<(u64, Seq<u8>)> {
    notes.map_values(|note: Note| note@)
}

/// How many Ironwood actions a transaction holds, read from its bytes under
/// the rules of the height it was mined at, or why it cannot be read.
pub uninterp spec fn transaction_of(network: Network, height: u32, data: Seq<u8>) -> Result<
    nat,
    Seq<char>,
>;

/// The Sapling notes of a transaction that a viewing key decrypts, in the order
/// of their outputs, where the transaction and the key can be read.
pub uninterp spec fn sapling_notes_of(
    network: Network,
    height: u32,
    data: Seq<u8>,
    key: Seq<char>,
) -> Seq<(u64, Seq<u8>)>;

/// The Orchard notes of a transaction that a viewing key decrypts, in the order
/// of their actions, where the transaction and the key can be read.
pub uninterp spec fn orchard_notes_of(
    network: Network,
    height: u32,
    data: Seq<u8>,
    key: Seq<char>,
) -> Seq<(u64, Seq<u8>)>;

/// The note of an Ironwood action that came to an address of a viewing key.
/// Nothing where it did not, and where the transaction or the key cannot be
/// read.
pub uninterp spec fn ironwood_note_of(
    network: Network,
    height: u32,
    data: Seq<u8>,
    key: Seq<char>,
    action: nat,
) -> Option<(u64, Seq<u8>)>;

/// `zcash_primitives::transaction::Transaction::read`, for the consensus
/// branch that `BranchId::for_height` gives: how many actions the
/// `ironwood_bundle` of what was read holds, or what the refusal says.
#[verifier::external_body]
fn read_transaction(network: Network, height: u32, data: &[u8]) -> (actions: Result<usize, String>)
    ensures
        match actions {
            Ok(actions) => transaction_of(network, height, data@) == Ok::<nat, Seq<char>>(
                actions as nat,
            ),
            Err(why) => transaction_of(network, height, data@) == Err::<nat, Seq<char>>(why@),
        },
{
    let params = match network {
        Network::MainNetwork => consensus::Network::MainNetwork,
        Network::TestNetwork => consensus::Network::TestNetwork,
    };
    let branch = BranchId::for_height(&params, height.into());
    match Transaction::read(data, branch) {
        Ok(tx) => match tx.ironwood_bundle() {
            Some(bundle) => Ok(bundle.actions().len()),
            None => Ok(0),
        },
        Err(why) => Err(why.to_string()),
    }
}

/// `sapling_outputs` of what `zcash_client_backend::decrypt_transaction` makes
/// of a transaction with one viewing key, where `Transaction::read` reads the
/// transaction and `UnifiedFullViewingKey::decode` takes the key: the value and
/// the memo of each.
#[verifier::external_body]
fn sapling_notes(
    network: Network,
    height: u32,
    data: &[u8],
    key: &str,
) -> (notes: Option<Vec<Note>>)
    ensures
        match notes {
            Some(notes) => transaction_of(network, height, data@) is Ok && viewing_key_refused(
                network,
                key@,
            ) is None && sapling_notes_of(network, height, data@, key@) == note_views(notes@),
            None => transaction_of(network, height, data@) is Err || viewing_key_refused(
                network,
                key@,
            ) is Some,
        },
{
    let params = match network {
        Network::MainNetwork => consensus::Network::MainNetwork,
        Network::TestNetwork => consensus::Network::TestNetwork,
    };
    let height = height.into();
    let tx = Transaction::read(data, BranchId::for_height(&params, height)).ok()?;
    let keys = HashMap::from([(0u8, UnifiedFullViewingKey::decode(&params, key).ok()?)]);
    let found = decrypt_transaction(&params, Some(height), None, &tx, &keys);
    let notes = found.sapling_outputs().iter();
    let notes = notes.map(|o| Note { value: o.note().value().inner(), memo: *o.memo().as_array() });
    Some(notes.collect())
}

/// `orchard_outputs` of what `zcash_client_backend::decrypt_transaction` makes
/// of a transaction with one viewing key, where `Transaction::read` reads the
/// transaction and `UnifiedFullViewingKey::decode` takes the key: the value and
/// the memo of each.
#[verifier::external_body]
fn orchard_notes(
    network: Network,
    height: u32,
    data: &[u8],
    key: &str,
) -> (notes: Option<Vec<Note>>)
    ensures
        match notes {
            Some(notes) => transaction_of(network, height, data@) is Ok && viewing_key_refused(
                network,
                key@,
            ) is None && orchard_notes_of(network, height, data@, key@) == note_views(notes@),
            None => transaction_of(network, height, data@) is Err || viewing_key_refused(
                network,
                key@,
            ) is Some,
        },
{
    let params = match network {
        Network::MainNetwork => consensus::Network::MainNetwork,
        Network::TestNetwork => consensus::Network::TestNetwork,
    };
    let height = height.into();
    let tx = Transaction::read(data, BranchId::for_height(&params, height)).ok()?;
    let keys = HashMap::from([(0u8, UnifiedFullViewingKey::decode(&params, key).ok()?)]);
    let found = decrypt_transaction(&params, Some(height), None, &tx, &keys);
    let notes = found.orchard_outputs().iter();
    let notes = notes.map(|o| Note { value: o.note().0.value().inner(), memo: *o.memo().as_array() });
    Some(notes.collect())
}

/// `zcash_note_encryption::try_note_decryption` in the `IronwoodDomain` of one
/// action, with the external incoming viewing key of the Orchard part of a
/// viewing key, on what `Transaction::read` and `UnifiedFullViewingKey::decode`
/// read: the value and the memo of the note, where all of these are there and
/// it decrypts.
#[verifier::external_body]
fn ironwood_note(
    network: Network,
    height: u32,
    data: &[u8],
    key: &str,
    action: usize,
) -> (note: Option<Note>)
    ensures
        match note {
            Some(note) => ironwood_note_of(network, height, data@, key@, action as nat) == Some(
                note@,
            ),
            None => ironwood_note_of(network, height, data@, key@, action as nat) is None,
        },
{
    let params = match network {
        Network::MainNetwork => consensus::Network::MainNetwork,
        Network::TestNetwork => consensus::Network::TestNetwork,
    };
    let branch = BranchId::for_height(&params, height.into());
    let tx = Transaction::read(data, branch).ok()?;
    let action = tx.ironwood_bundle()?.actions().get(action)?;
    let ufvk = UnifiedFullViewingKey::decode(&params, key).ok()?;
    let ivk = ufvk.orchard()?.to_ivk(Scope::External);
    let ivk = PreparedIncomingViewingKey::new(&ivk);
    let domain = IronwoodDomain::for_action(action);
    let (note, _, memo) = try_note_decryption(&domain, &ivk, action)?;
    Some(Note { value: note.value().inner(), memo })
}

/// The Sapling notes that the keys decrypt, key by key.
pub open spec fn sapling_in(
    network: Network,
    height: u32,
    data: Seq<u8>,
    keys: Seq<Seq<char>>,
) -> Seq<(u64, Seq<u8>)>
    decreases keys.len(),
{
    if keys.len() == 0 {
        seq![]
    } else {
        sapling_in(network, height, data, keys.drop_last()) + sapling_notes_of(
            network,
            height,
            data,
            keys.last(),
        )
    }
}

/// The Orchard notes that the keys decrypt, key by key.
pub open spec fn orchard_in(
    network: Network,
    height: u32,
    data: Seq<u8>,
    keys: Seq<Seq<char>>,
) -> Seq<(u64, Seq<u8>)>
    decreases keys.len(),
{
    if keys.len() == 0 {
        seq![]
    } else {
        orchard_in(network, height, data, keys.drop_last()) + orchard_notes_of(
            network,
            height,
            data,
            keys.last(),
        )
    }
}

/// The notes of the first Ironwood actions that came to a key.
pub open spec fn ironwood_for(
    network: Network,
    height: u32,
    data: Seq<u8>,
    key: Seq<char>,
    actions: nat,
) -> Seq<(u64, Seq<u8>)>
    decreases actions,
{
    if actions == 0 {
        seq![]
    } else {
        let front = ironwood_for(network, height, data, key, (actions - 1) as nat);
        match ironwood_note_of(network, height, data, key, (actions - 1) as nat) {
            Some(note) => front.push(note),
            None => front,
        }
    }
}

/// The Ironwood notes that came to the keys, key by key.
pub open spec fn ironwood_in(
    network: Network,
    height: u32,
    data: Seq<u8>,
    keys: Seq<Seq<char>>,
    actions: nat,
) -> Seq<(u64, Seq<u8>)>
    decreases keys.len(),
{
    if keys.len() == 0 {
        seq![]
    } else {
        ironwood_in(network, height, data, keys.drop_last(), actions) + ironwood_for(
            network,
            height,
            data,
            keys.last(),
            actions,
        )
    }
}

/// Every note of a transaction that is the wallet's, pool by pool.
pub open spec fn notes_in(
    network: Network,
    height: u32,
    data: Seq<u8>,
    keys: Seq<Seq<char>>,
    actions: nat,
) -> Seq<(u64, Seq<u8>)> {
    sapling_in(network, height, data, keys) + orchard_in(network, height, data, keys) + ironwood_in(
        network,
        height,
        data,
        keys,
        actions,
    )
}

/// What arrived: in which block, how much, and what it said.
#[derive(Debug)]
pub struct Received {
    pub height: u32,
    pub value: u64,
    pub memo: String,
}

#[verifier::ext_equal]
pub struct ReceivedView {
    pub height: u32,
    pub value: u64,
    pub memo: Seq<char>,
}

impl View for Received {
    type V = ReceivedView;

    open spec fn view(&self) -> ReceivedView {
        ReceivedView { height: self.height, value: self.value, memo: self.memo@ }
    }
}

/// What is written down of a note.
pub open spec fn received_as(height: u32, note: (u64, Seq<u8>)) -> ReceivedView {
    ReceivedView { height, value: note.0, memo: said(memo_kind(note.1)) }
}

/// What is written down of notes.
pub open spec fn received_from(height: u32, notes: Seq<(u64, Seq<u8>)>) -> Seq<ReceivedView> {
    notes.map_values(|note: (u64, Seq<u8>)| received_as(height, note))
}

pub open spec fn received_views(received: Seq<Received>) -> Seq<ReceivedView> {
    received.map_values(|r: Received| r@)
}

/// Writes down what notes of a block are worth and say.
pub fn write_down(received: &mut Vec<Received>, height: u32, notes: &Vec<Note>)
    ensures
        received_views(final(received)@) == received_views(old(received)@) + received_from(
            height,
            note_views(notes@),
        ),
{
    let mut i: usize = 0;
    while i < notes.len()
        invariant
            i <= notes.len(),
            received_views(received@) == received_views(old(received)@) + received_from(
                height,
                note_views(notes@.take(i as int)),
            ),
        decreases notes.len() - i,
    {
        let ghost before = received@;
        received.push(
            Received { height, value: notes[i].value, memo: describe(&notes[i].memo) },
        );
        proof {
            let front = notes@.take(i as int);
            assert(notes@.take(i + 1) =~= front.push(notes@[i as int]));
            assert(received_views(received@) =~= received_views(before).push(
                received_as(height, notes@[i as int]@),
            ));
            assert(received_from(height, note_views(notes@.take(i + 1))) =~= received_from(
                height,
                note_views(front),
            ).push(received_as(height, notes@[i as int]@)));
        }
        i += 1;
    }
    assert(notes@.take(i as int) =~= notes@);
    assert(received_views(received@) =~= received_views(old(received)@) + received_from(
        height,
        note_views(notes@),
    ));
}

/// Why a scan stops.
#[derive(Debug)]
pub enum ScanError {
    /// The transaction cannot be read.
    Reading { txid: String, why: String },
    /// One of the keys is no viewing key of the network.
    Key(KeyError),
}

/// What such a refusal says.
pub open spec fn scan_error_text(error: ScanError) -> Seq<char> {
    match error {
        ScanError::Reading { txid, why: _ } => "reading transaction "@ + txid@,
        ScanError::Key(error) => key_error_text(error),
    }
}

impl ScanError {
    /// What the refusal says.
    pub fn message(&self) -> (text: String)
        ensures
            text@ == scan_error_text(*self),
    {
        match self {
            ScanError::Reading { txid, why: _ } => {
                "reading transaction ".to_owned().concat(txid.as_str())
            },
            ScanError::Key(error) => error.message(),
        }
    }

    /// What lies behind the refusal, where its message does not say so.
    pub fn cause(&self) -> (cause: Option<&String>)
        ensures
            match *self {
                ScanError::Reading { txid: _, why } => cause == Some(&why),
                ScanError::Key(KeyError::ViewingKey(_)) => cause is None,
                ScanError::Key(KeyError::SpendingKey(why)) => cause == Some(&why),
                ScanError::Key(KeyError::Address(why)) => cause == Some(&why),
            },
    {
        match self {
            ScanError::Reading { txid: _, why } => Some(why),
            ScanError::Key(error) => error.cause(),
        }
    }
}

/// What a transaction brought the wallet, and what it said: the Sapling notes,
/// the Orchard notes and the Ironwood notes, each key by key.
pub fn received_in(
    network: Network,
    txid: &str,
    height: u32,
    data: &[u8],
    keys: &Vec<String>,
) -> (result: Result<Vec<Received>, ScanError>)
    ensures
        match transaction_of(network, height, data@) {
            Err(refused) => result matches Err(ScanError::Reading { txid: t, why }) && t@ == txid@
                && why@ == refused,
            Ok(actions) => match result {
                Ok(received) => {
                    &&& forall|i: int|
                        0 <= i < keys.len() ==> viewing_key_refused(
                            network,
                            (#[trigger] keys[i])@,
                        ) is None
                    &&& received_views(received@) == received_from(
                        height,
                        notes_in(network, height, data@, texts(keys@), actions),
                    )
                    &&& forall|k: int, i: int|
                        0 <= k < keys.len() && 0 <= i < sapling_notes_of(
                            network,
                            height,
                            data@,
                            keys[k]@,
                        ).len() ==> {
                            let note = #[trigger] sapling_notes_of(
                                network,
                                height,
                                data@,
                                keys[k]@,
                            )[i];
                            received_views(received@).contains(
                                ReceivedView {
                                    height,
                                    value: note.0,
                                    memo: said(memo_kind(note.1)),
                                },
                            )
                        }
                    &&& forall|k: int, i: int|
                        0 <= k < keys.len() && 0 <= i < orchard_notes_of(
                            network,
                            height,
                            data@,
                            keys[k]@,
                        ).len() ==> {
                            let note = #[trigger] orchard_notes_of(
                                network,
                                height,
                                data@,
                                keys[k]@,
                            )[i];
                            received_views(received@).contains(
                                ReceivedView {
                                    height,
                                    value: note.0,
                                    memo: said(memo_kind(note.1)),
                                },
                            )
                        }
                    &&& forall|k: int, a: int|
                        0 <= k < keys.len() && 0 <= a < actions && ironwood_note_of(
                            network,
                            height,
                            data@,
                            keys[k]@,
                            a as nat,
                        ) is Some ==> {
                            let note = (#[trigger] ironwood_note_of(
                                network,
                                height,
                                data@,
                                keys[k]@,
                                a as nat,
                            ))->0;
                            received_views(received@).contains(
                                ReceivedView {
                                    height,
                                    value: note.0,
                                    memo: said(memo_kind(note.1)),
                                },
                            )
                        }
                },
                Err(ScanError::Key(KeyError::ViewingKey(why))) => exists|i: int|
                    {
                        &&& 0 <= i < keys.len()
                        &&& viewing_key_refused(network, (#[trigger] keys[i])@) == Some(why@)
                        &&& forall|j: int|
                            0 <= j < i ==> viewing_key_refused(
                                network,
                                (#[trigger] keys[j])@,
                            ) is None
                    },
                Err(_) => false,
            },
        },
{
    let actions = match read_transaction(network, height, data) {
        Ok(actions) => actions,
        Err(why) => return Err(ScanError::Reading { txid: txid.to_owned(), why }),
    };
    let ghost all = texts(keys@);
    let mut sapling: Vec<Received> = Vec::new();
    let mut orchard: Vec<Received> = Vec::new();
    let mut ironwood: Vec<Received> = Vec::new();
    assert(received_views(sapling@) =~= received_from(height, seq![]));
    let mut i: usize = 0;
    while i < keys.len()
        invariant
            all == texts(keys@),
            transaction_of(network, height, data@) == Ok::<nat, Seq<char>>(actions as nat),
            i <= keys.len(),
            forall|j: int|
                0 <= j < i ==> viewing_key_refused(network, (#[trigger] keys[j])@) is None,
            received_views(sapling@) == received_from(
                height,
                sapling_in(network, height, data@, all.take(i as int)),
            ),
            received_views(orchard@) == received_from(
                height,
                orchard_in(network, height, data@, all.take(i as int)),
            ),
            received_views(ironwood@) == received_from(
                height,
                ironwood_in(network, height, data@, all.take(i as int), actions as nat),
            ),
        decreases keys.len() - i,
    {
        let key = keys[i].as_str();
        match check_viewing_key(network, key) {
            Err(error) => {
                assert(viewing_key_refused(network, keys[i as int]@) is Some);
                return Err(ScanError::Key(error));
            },
            Ok(()) => {},
        }
        match sapling_notes(network, height, data, key) {
            None => {
                assert(false);
            },
            Some(notes) => write_down(&mut sapling, height, &notes),
        }
        match orchard_notes(network, height, data, key) {
            None => {
                assert(false);
            },
            Some(notes) => write_down(&mut orchard, height, &notes),
        }
        let ghost before = ironwood@;
        let mut action: usize = 0;
        assert(received_views(before) + received_from(height, seq![]) =~= received_views(before));
        while action < actions
            invariant
                action <= actions,
                received_views(ironwood@) == received_views(before) + received_from(
                    height,
                    ironwood_for(network, height, data@, key@, action as nat),
                ),
            decreases actions - action,
        {
            let ghost front = ironwood_for(network, height, data@, key@, action as nat);
            let ghost so_far = received_views(ironwood@);
            match ironwood_note(network, height, data, key, action) {
                Some(note) => {
                    let ghost view = note@;
                    let mut one: Vec<Note> = Vec::new();
                    one.push(note);
                    write_down(&mut ironwood, height, &one);
                    assert(received_from(height, note_views(one@)) =~= seq![
                        received_as(height, view),
                    ]);
                    assert(received_from(height, front.push(view)) =~= received_from(
                        height,
                        front,
                    ).push(received_as(height, view)));
                    assert(received_views(ironwood@) =~= received_views(before) + received_from(
                        height,
                        front.push(view),
                    ));
                },
                None => {},
            }
            action += 1;
        }
        proof {
            let upto = all.take(i + 1);
            assert(upto.drop_last() =~= all.take(i as int));
            assert(upto.last() == key@);
            let s = sapling_notes_of(network, height, data@, key@);
            let o = orchard_notes_of(network, height, data@, key@);
            let before_s = sapling_in(network, height, data@, all.take(i as int));
            let before_o = orchard_in(network, height, data@, all.take(i as int));
            let before_i = ironwood_in(
                network,
                height,
                data@,
                all.take(i as int),
                actions as nat,
            );
            let here = ironwood_for(network, height, data@, key@, actions as nat);
            assert(received_from(height, before_s + s) =~= received_from(height, before_s)
                + received_from(height, s));
            assert(received_from(height, before_o + o) =~= received_from(height, before_o)
                + received_from(height, o));
            assert(received_from(height, before_i + here) =~= received_from(height, before_i)
                + received_from(height, here));
        }
        i += 1;
    }
    proof {
        assert(all.take(i as int) =~= all);
        let s = sapling_in(network, height, data@, all);
        let o = orchard_in(network, height, data@, all);
        let w = ironwood_in(network, height, data@, all, actions as nat);
        assert(received_from(height, s + o + w) =~= received_from(height, s) + received_from(
            height,
            o,
        ) + received_from(height, w));
        assert(received_views(sapling@ + orchard@ + ironwood@) =~= received_views(sapling@)
            + received_views(orchard@) + received_views(ironwood@));
    }
    let ghost together = sapling@ + orchard@ + ironwood@;
    sapling.append(&mut orchard);
    sapling.append(&mut ironwood);
    assert(sapling@ =~= together);
    proof {
        every_note_is_written_down(network, height, data@, all, actions as nat);
        assert forall|k: int, i: int|
            0 <= k < keys.len() && 0 <= i < sapling_notes_of(
                network,
                height,
                data@,
                keys[k]@,
            ).len() implies ({
            let note = #[trigger] sapling_notes_of(network, height, data@, keys[k]@)[i];
            received_views(sapling@).contains(
                ReceivedView { height, value: note.0, memo: said(memo_kind(note.1)) },
            )
        }) by {
            assert(all[k] == keys[k]@);
        }
        assert forall|k: int, i: int|
            0 <= k < keys.len() && 0 <= i < orchard_notes_of(
                network,
                height,
                data@,
                keys[k]@,
            ).len() implies ({
            let note = #[trigger] orchard_notes_of(network, height, data@, keys[k]@)[i];
            received_views(sapling@).contains(
                ReceivedView { height, value: note.0, memo: said(memo_kind(note.1)) },
            )
        }) by {
            assert(all[k] == keys[k]@);
        }
        assert forall|k: int, a: int|
            0 <= k < keys.len() && 0 <= a < actions && ironwood_note_of(
                network,
                height,
                data@,
                keys[k]@,
                a as nat,
            ) is Some implies ({
            let note = (#[trigger] ironwood_note_of(network, height, data@, keys[k]@, a as nat))->0;
            received_views(sapling@).contains(
                ReceivedView { height, value: note.0, memo: said(memo_kind(note.1)) },
            )
        }) by {
            assert(all[k] == keys[k]@);
        }
    }
    Ok(sapling)
}

/// The height whose commitment tree a wallet begins with. A birthday is the
/// tree as of the block before the wallet starts, because a tree is only
/// meaningful as a position within it.
pub fn tree_state_height(birthday: u32) -> (height: u64)
    ensures
        height == (if birthday == 0 {
            0
        } else {
            birthday - 1
        }),
{
    if birthday == 0 {
        0
    } else {
        (birthday - 1) as u64
    }
}

/// How a scan begins: at the tree state of which height, or why the viewing key
/// is not taken. It is looked at before anything is asked of a server or
/// written to a wallet.
pub fn begin(network: Network, ufvk: &str, birthday: u32) -> (height: Result<u64, KeyError>)
    ensures
        match height {
            Ok(height) => viewing_key_refused(network, ufvk@) is None && height == (if birthday
                == 0 {
                0
            } else {
                birthday - 1
            }),
            Err(KeyError::ViewingKey(why)) => viewing_key_refused(network, ufvk@) == Some(why@),
            Err(_) => false,
        },
{
    match check_viewing_key(network, ufvk) {
        Ok(()) => Ok(tree_state_height(birthday)),
        Err(error) => Err(error),
    }
}

/// Whether a scan brings the viewing key into a wallet that holds so many
/// accounts: only into one that holds none.
pub fn imports_key(accounts: usize) -> (imports: bool)
    ensures
        imports == (accounts == 0),
{
    accounts == 0
}

/// The height a server gives a transaction, and zero where it is none.
pub open spec fn mined_at(height: u64) -> u32 {
    if height <= u32::MAX {
        height as u32
    } else {
        0
    }
}

/// What the server answered when it was asked for a transaction.
pub enum Fetched {
    /// It would not hand the transaction over, and said so.
    Refused(String),
    /// The bytes it handed over, and the height it gave.
    Given { data: Vec<u8>, height: u64 },
}

/// What is done about an answer.
pub enum Next {
    /// Nothing: it is passed over, with what is said about it.
    Pass(Option<String>),
    /// The transaction is read, as one of that height.
    Read { data: Vec<u8>, height: u32 },
}

/// What is done about an answer. One transaction the server will not hand over
/// should not end the scan; the rest of the wallet is still worth reading. One
/// that is handed over and cannot be read ends it.
pub fn take_answer(network: Network, txid: &str, fetched: Fetched) -> (result: Result<
    Next,
    ScanError,
>)
    ensures
        match fetched {
            Fetched::Refused(message) => result matches Ok(Next::Pass(Some(line))) && line@
                == "  could not fetch "@ + txid@ + ": "@ + message@,
            Fetched::Given { data, height } => if data.len() == 0 {
                result matches Ok(Next::Pass(None))
            } else {
                match transaction_of(network, mined_at(height), data@) {
                    Ok(_) => result matches Ok(Next::Read { data: d, height: h }) && d == data && h
                        == mined_at(height),
                    Err(refused) => result matches Err(ScanError::Reading { txid: t, why }) && t@
                        == txid@ && why@ == refused,
                }
            },
        },
{
    match fetched {
        Fetched::Refused(message) => {
            let line = "  could not fetch ".to_owned().concat(txid).concat(": ").concat(
                message.as_str(),
            );
            Ok(Next::Pass(Some(line)))
        },
        Fetched::Given { data, height } => {
            if data.len() == 0 {
                return Ok(Next::Pass(None));
            }
            let height: u32 = if height <= u32::MAX as u64 {
                height as u32
            } else {
                0
            };
            match read_transaction(network, height, data.as_slice()) {
                Ok(_) => Ok(Next::Read { data, height }),
                Err(why) => Err(ScanError::Reading { txid: txid.to_owned(), why }),
            }
        },
    }
}

/// What a scan has come to: what arrived, and how many transactions were
/// fetched in full.
pub struct Scan {
    received: Vec<Received>,
    enhanced: usize,
}

pub struct ScanView {
    pub received: Seq<ReceivedView>,
    pub enhanced: nat,
}

impl View for Scan {
    type V = ScanView;

    closed spec fn view(&self) -> ScanView {
        ScanView { received: received_views(self.received@), enhanced: self.enhanced as nat }
    }
}

/// The line that tells of something that arrived.
pub open spec fn received_line(r: ReceivedView) -> Seq<char> {
    "  received "@ + decimal(r.value as int) + " zatoshi in block "@ + decimal(r.height as int)
        + "  memo "@ + r.memo
}

impl Received {
    /// The line that tells of it.
    pub fn line(&self) -> (line: String)
        ensures
            line@ == received_line(self@),
    {
        "  received ".to_owned().concat(decimal_u64(self.value).as_str()).concat(
            " zatoshi in block ",
        ).concat(decimal_u64(self.height as u64).as_str()).concat("  memo ").concat(
            self.memo.as_str(),
        )
    }
}

impl Scan {
    /// A scan that has come to nothing yet.
    pub fn new() -> (scan: Self)
        ensures
            scan@ == (ScanView { received: Seq::empty(), enhanced: 0 }),
    {
        let scan = Scan { received: Vec::new(), enhanced: 0 };
        assert(scan@.received =~= Seq::empty());
        scan
    }

    /// Adds what one transaction brought.
    pub fn arrived(&mut self, received: Vec<Received>)
        ensures
            final(self)@.received == old(self)@.received + received_views(received@),
            final(self)@.enhanced == old(self)@.enhanced,
    {
        let mut received = received;
        let ghost more = received@;
        self.received.append(&mut received);
        assert(received_views(self.received@) =~= received_views(old(self).received@)
            + received_views(more));
    }

    /// Counts a transaction that was fetched in full and stored.
    pub fn stored(&mut self)
        requires
            old(self)@.enhanced < usize::MAX,
        ensures
            final(self)@.received == old(self)@.received,
            final(self)@.enhanced == old(self)@.enhanced + 1,
    {
        self.enhanced = self.enhanced + 1;
    }

    /// How many transactions were fetched in full.
    pub fn enhanced(&self) -> (count: usize)
        ensures
            count == self@.enhanced,
    {
        self.enhanced
    }

    /// The line that tells how many transactions were fetched, if any were.
    pub fn fetched_line(&self) -> (line: Option<String>)
        ensures
            match line {
                Some(line) => self@.enhanced > 0 && line@ == "fetched "@ + decimal(
                    self@.enhanced as int,
                ) + " transaction(s) in full"@,
                None => self@.enhanced == 0,
            },
    {
        if self.enhanced > 0 {
            Some(
                "fetched ".to_owned().concat(decimal_u64(self.enhanced as u64).as_str()).concat(
                    " transaction(s) in full",
                ),
            )
        } else {
            None
        }
    }

    /// The lines that tell what arrived, in the order in which it was read.
    pub fn received_lines(&self) -> (lines: Vec<String>)
        ensures
            texts(lines@) == self@.received.map_values(|r: ReceivedView| received_line(r)),
    {
        let mut lines: Vec<String> = Vec::new();
        let mut i: usize = 0;
        while i < self.received.len()
            invariant
                i <= self.received.len(),
                lines.len() == i,
                forall|k: int|
                    0 <= k < i ==> (#[trigger] lines[k])@ == received_line(self.received@[k]@),
            decreases self.received.len() - i,
        {
            lines.push(self.received[i].line());
            i += 1;
        }
        assert(texts(lines@) =~= self@.received.map_values(|r: ReceivedView| received_line(r)));
        lines
    }
}

/// Where the Sapling notes of a key stand among those of all keys.
proof fn sapling_placed(
    network: Network,
    height: u32,
    data: Seq<u8>,
    keys: Seq<Seq<char>>,
    count: spec_fn(Seq<char>) -> int,
    k: int,
    i: int,
)
    requires
        forall|key: Seq<char>| #[trigger] count(key) == sapling_notes_of(network, height, data, key).len(),
    ensures
        sapling_in(network, height, data, keys).len() == total(keys, count),
        0 <= k < keys.len() && 0 <= i < sapling_notes_of(network, height, data, keys[k]).len() ==> {
            let at = total(keys.take(k), count) + i;
            &&& 0 <= at < total(keys, count)
            &&& sapling_in(network, height, data, keys)[at] == sapling_notes_of(network, height, data, keys[k])[i]
        },
    decreases keys.len(),
{
    if keys.len() > 0 {
        let front = keys.drop_last();
        let last = keys.len() - 1;
        sapling_placed(network, height, data, front, count, k, i);
        assert(count(keys[last]) == sapling_notes_of(network, height, data, keys[last]).len());
        if k == last {
            assert(keys.take(k) =~= front);
        } else if 0 <= k < last {
            assert(keys.take(k) =~= front.take(k));
        }
        if 0 <= k < keys.len() {
            total_prefix(keys, k, count);
        }
    }
}

/// Where the Orchard notes of a key stand among those of all keys.
proof fn orchard_placed(
    network: Network,
    height: u32,
    data: Seq<u8>,
    keys: Seq<Seq<char>>,
    count: spec_fn(Seq<char>) -> int,
    k: int,
    i: int,
)
    requires
        forall|key: Seq<char>| #[trigger] count(key) == orchard_notes_of(network, height, data, key).len(),
    ensures
        orchard_in(network, height, data, keys).len() == total(keys, count),
        0 <= k < keys.len() && 0 <= i < orchard_notes_of(network, height, data, keys[k]).len() ==> {
            let at = total(keys.take(k), count) + i;
            &&& 0 <= at < total(keys, count)
            &&& orchard_in(network, height, data, keys)[at] == orchard_notes_of(network, height, data, keys[k])[i]
        },
    decreases keys.len(),
{
    if keys.len() > 0 {
        let front = keys.drop_last();
        let last = keys.len() - 1;
        orchard_placed(network, height, data, front, count, k, i);
        assert(count(keys[last]) == orchard_notes_of(network, height, data, keys[last]).len());
        if k == last {
            assert(keys.take(k) =~= front);
        } else if 0 <= k < last {
            assert(keys.take(k) =~= front.take(k));
        }
        if 0 <= k < keys.len() {
            total_prefix(keys, k, count);
        }
    }
}

/// Where the note of each Ironwood action stands among those of one key.
proof fn ironwood_for_placed(
    network: Network,
    height: u32,
    data: Seq<u8>,
    key: Seq<char>,
    actions: nat,
    one: spec_fn(int) -> int,
)
    requires
        forall|a: int|
            #[trigger] one(a) == (if ironwood_note_of(
                network,
                height,
                data,
                key,
                a as nat,
            ) is Some {
                1int
            } else {
                0
            }),
    ensures
        ironwood_for(network, height, data, key, actions).len() == total(
            Seq::new(actions, |a: int| a),
            one,
        ),
        forall|a: int|
            0 <= a < actions && #[trigger] one(a) == 1 ==> 0 <= total(
                Seq::new(a as nat, |b: int| b),
                one,
            ) < ironwood_for(network, height, data, key, actions).len() && ironwood_for(
                network,
                height,
                data,
                key,
                actions,
            )[total(Seq::new(a as nat, |b: int| b), one)] == ironwood_note_of(
                network,
                height,
                data,
                key,
                a as nat,
            )->0,
    decreases actions,
{
    let all = Seq::new(actions, |a: int| a);
    if actions > 0 {
        let last = (actions - 1) as nat;
        let front = Seq::new(last, |a: int| a);
        ironwood_for_placed(network, height, data, key, last, one);
        assert(all.drop_last() =~= front);
        assert(one(last as int) == one(all.last()));
        assert forall|a: int| 0 <= a < actions && #[trigger] one(a) == 1 implies 0 <= total(
            Seq::new(a as nat, |b: int| b),
            one,
        ) < ironwood_for(network, height, data, key, actions).len() && ironwood_for(
            network,
            height,
            data,
            key,
            actions,
        )[total(Seq::new(a as nat, |b: int| b), one)] == ironwood_note_of(
            network,
            height,
            data,
            key,
            a as nat,
        )->0 by {
            if a == last {
                assert(Seq::new(a as nat, |b: int| b) =~= front);
            }
        }
    }
}

/// Where the Ironwood notes of a key stand among those of all keys.
proof fn ironwood_placed(
    network: Network,
    height: u32,
    data: Seq<u8>,
    keys: Seq<Seq<char>>,
    actions: nat,
    count: spec_fn(Seq<char>) -> int,
    k: int,
    i: int,
)
    requires
        forall|key: Seq<char>| #[trigger] count(key) == ironwood_for(network, height, data, key, actions).len(),
    ensures
        ironwood_in(network, height, data, keys, actions).len() == total(keys, count),
        0 <= k < keys.len() && 0 <= i < ironwood_for(network, height, data, keys[k], actions).len() ==> {
            let at = total(keys.take(k), count) + i;
            &&& 0 <= at < total(keys, count)
            &&& ironwood_in(network, height, data, keys, actions)[at] == ironwood_for(network, height, data, keys[k], actions)[i]
        },
    decreases keys.len(),
{
    if keys.len() > 0 {
        let front = keys.drop_last();
        let last = keys.len() - 1;
        ironwood_placed(network, height, data, front, actions, count, k, i);
        assert(count(keys[last]) == ironwood_for(network, height, data, keys[last], actions).len());
        if k == last {
            assert(keys.take(k) =~= front);
        } else if 0 <= k < last {
            assert(keys.take(k) =~= front.take(k));
        }
        if 0 <= k < keys.len() {
            total_prefix(keys, k, count);
        }
    }
}

/// Every note is written down and nothing else is: first what each key decrypts
/// of the Sapling outputs, then of the Orchard actions, then what came to it in
/// each Ironwood action, key by key and in the order of the transaction, each
/// with the height, its value and what its memo says.
pub proof fn every_note_is_written_down(
    network: Network,
    height: u32,
    data: Seq<u8>,
    keys: Seq<Seq<char>>,
    actions: nat,
)
    ensures
        ({
            let sapling = |key: Seq<char>|
                sapling_notes_of(network, height, data, key).len() as int;
            let orchard = |key: Seq<char>|
                orchard_notes_of(network, height, data, key).len() as int;
            let ironwood = |key: Seq<char>, upto: int|
                total(
                    Seq::new(upto as nat, |a: int| a),
                    |a: int|
                        if ironwood_note_of(network, height, data, key, a as nat) is Some {
                            1int
                        } else {
                            0
                        },
                );
            let ironwood_all = |key: Seq<char>| ironwood(key, actions as int);
            let written = received_from(height, notes_in(network, height, data, keys, actions));
            &&& written.len() == total(keys, sapling) + total(keys, orchard) + total(
                keys,
                ironwood_all,
            )
            &&& forall|k: int, i: int|
                0 <= k < keys.len() && 0 <= i < sapling_notes_of(
                    network,
                    height,
                    data,
                    keys[k],
                ).len() ==> {
                    let note = #[trigger] sapling_notes_of(network, height, data, keys[k])[i];
                    &&& 0 <= total(keys.take(k), sapling) + i < written.len()
                    &&& written[total(keys.take(k), sapling) + i] == (ReceivedView {
                        height,
                        value: note.0,
                        memo: said(memo_kind(note.1)),
                    })
                }
            &&& forall|k: int, i: int|
                0 <= k < keys.len() && 0 <= i < orchard_notes_of(
                    network,
                    height,
                    data,
                    keys[k],
                ).len() ==> {
                    let note = #[trigger] orchard_notes_of(network, height, data, keys[k])[i];
                    let at = total(keys, sapling) + total(keys.take(k), orchard) + i;
                    &&& 0 <= at < written.len()
                    &&& written[at] == (ReceivedView {
                        height,
                        value: note.0,
                        memo: said(memo_kind(note.1)),
                    })
                }
            &&& forall|k: int, a: int|
                0 <= k < keys.len() && 0 <= a < actions && ironwood_note_of(
                    network,
                    height,
                    data,
                    keys[k],
                    a as nat,
                ) is Some ==> {
                    let note = (#[trigger] ironwood_note_of(
                        network,
                        height,
                        data,
                        keys[k],
                        a as nat,
                    ))->0;
                    let at = total(keys, sapling) + total(keys, orchard) + total(
                        keys.take(k),
                        ironwood_all,
                    ) + ironwood(keys[k], a);
                    &&& 0 <= at < written.len()
                    &&& written[at] == (ReceivedView {
                        height,
                        value: note.0,
                        memo: said(memo_kind(note.1)),
                    })
                }
        }),
{
    let sapling = |key: Seq<char>| sapling_notes_of(network, height, data, key).len() as int;
    let orchard = |key: Seq<char>| orchard_notes_of(network, height, data, key).len() as int;
    let ironwood = |key: Seq<char>, upto: int|
        total(
            Seq::new(upto as nat, |a: int| a),
            |a: int|
                if ironwood_note_of(network, height, data, key, a as nat) is Some {
                    1int
                } else {
                    0
                },
        );
    let ironwood_all = |key: Seq<char>| ironwood(key, actions as int);
    let written = received_from(height, notes_in(network, height, data, keys, actions));
    let s = sapling_in(network, height, data, keys);
    let o = orchard_in(network, height, data, keys);
    sapling_placed(network, height, data, keys, sapling, 0, 0);
    orchard_placed(network, height, data, keys, orchard, 0, 0);
    assert forall|key: Seq<char>|
        #[trigger] ironwood_all(key) == ironwood_for(network, height, data, key, actions).len() by {
        let one = |a: int|
            if ironwood_note_of(network, height, data, key, a as nat) is Some {
                1int
            } else {
                0
            };
        ironwood_for_placed(network, height, data, key, actions, one);
    }
    ironwood_placed(network, height, data, keys, actions, ironwood_all, 0, 0);
    assert forall|k: int, i: int|
        0 <= k < keys.len() && 0 <= i < sapling_notes_of(network, height, data, keys[k]).len()
        implies ({
        let note = #[trigger] sapling_notes_of(network, height, data, keys[k])[i];
        &&& 0 <= total(keys.take(k), sapling) + i < written.len()
        &&& written[total(keys.take(k), sapling) + i] == (ReceivedView {
            height,
            value: note.0,
            memo: said(memo_kind(note.1)),
        })
    }) by {
        sapling_placed(network, height, data, keys, sapling, k, i);
        assert(written[total(keys.take(k), sapling) + i] == received_as(
            height,
            s[total(keys.take(k), sapling) + i],
        ));
    }
    assert forall|k: int, i: int|
        0 <= k < keys.len() && 0 <= i < orchard_notes_of(network, height, data, keys[k]).len()
        implies ({
        let note = #[trigger] orchard_notes_of(network, height, data, keys[k])[i];
        let at = total(keys, sapling) + total(keys.take(k), orchard) + i;
        &&& 0 <= at < written.len()
        &&& written[at] == (ReceivedView {
            height,
            value: note.0,
            memo: said(memo_kind(note.1)),
        })
    }) by {
        orchard_placed(network, height, data, keys, orchard, k, i);
        assert(written[total(keys, sapling) + total(keys.take(k), orchard) + i] == received_as(
            height,
            o[total(keys.take(k), orchard) + i],
        ));
    }
    assert forall|k: int, a: int|
        0 <= k < keys.len() && 0 <= a < actions && ironwood_note_of(
            network,
            height,
            data,
            keys[k],
            a as nat,
        ) is Some implies ({
        let note = (#[trigger] ironwood_note_of(network, height, data, keys[k], a as nat))->0;
        let at = total(keys, sapling) + total(keys, orchard) + total(keys.take(k), ironwood_all)
            + ironwood(keys[k], a);
        &&& 0 <= at < written.len()
        &&& written[at] == (ReceivedView {
            height,
            value: note.0,
            memo: said(memo_kind(note.1)),
        })
    }) by {
        let one = |b: int|
            if ironwood_note_of(network, height, data, keys[k], b as nat) is Some {
                1int
            } else {
                0
            };
        ironwood_for_placed(network, height, data, keys[k], actions, one);
        assert(one(a) == 1);
        let i = total(Seq::new(a as nat, |b: int| b), one);
        assert(ironwood(keys[k], a) == i);
        ironwood_placed(network, height, data, keys, actions, ironwood_all, k, i);
        assert(written[s.len() + o.len() + total(keys.take(k), ironwood_all) + i] == received_as(
            height,
            ironwood_in(network, height, data, keys, actions)[total(keys.take(k), ironwood_all)
                + i],
        ));
    }
}

/// What arrived is seen row by row, a height that a server gives is taken where
/// it is one and is zero where it is not, and what is told of each.
pub proof fn what_is_told_of_what_arrived(
    rows: Seq<Received>,
    notes: Seq<Note>,
    row: ReceivedView,
    height: u64,
    txid: String,
    why: String,
)
    ensures
        received_views(rows).len() == rows.len(),
        forall|i: int|
            0 <= i < rows.len() ==> #[trigger] received_views(rows)[i] == (ReceivedView {
                height: rows[i].height,
                value: rows[i].value,
                memo: rows[i].memo@,
            }),
        note_views(notes).len() == notes.len(),
        forall|i: int|
            0 <= i < notes.len() ==> #[trigger] note_views(notes)[i] == (
                notes[i].value,
                notes[i].memo@,
            ),
        height <= 0xFFFF_FFFF ==> mined_at(height) == height,
        height > 0xFFFF_FFFF ==> mined_at(height) == 0,
        received_line(row) == "  received "@ + decimal(row.value as int) + " zatoshi in block "@
            + decimal(row.height as int) + "  memo "@ + row.memo,
        scan_error_text(ScanError::Reading { txid, why }) == "reading transaction "@ + txid@,
        scan_error_text(ScanError::Key(KeyError::SpendingKey(why)))
            == "deriving the spending key"@,
        scan_error_text(ScanError::Key(KeyError::Address(why))) == "deriving the address"@,
        scan_error_text(ScanError::Key(KeyError::ViewingKey(why)))
            == "that is not a viewing key for this network: "@ + why@,
{
}

/// Notes are written down one by one, each as its value and what its memo says,
/// in the block they were mined in.
pub proof fn a_note_is_written_down_as_it_is(height: u32, notes: Seq<(u64, Seq<u8>)>)
    ensures
        received_from(height, notes).len() == notes.len(),
        forall|i: int|
            0 <= i < notes.len() ==> #[trigger] received_from(height, notes)[i] == (ReceivedView {
                height,
                value: notes[i].0,
                memo: said(memo_kind(notes[i].1)),
            }),
{
}

}
