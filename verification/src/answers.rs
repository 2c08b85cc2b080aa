//! What is answered, told by what is asked.

use vstd::prelude::*;
use vstd::utf8::encode_utf8;

use crate::blocks::{
    a_guess_is_taken_unless_it_is_unknown, at_height, block_url, miner, miner_of,
    the_first_name_that_stands_there_signs, ExplorerError, Raw,
};
use crate::cache::{
    a_block_is_kept_under_its_height, a_range_is_read_upwards,
    a_scan_ends_at_a_gap_or_at_its_limit, a_tip_is_the_highest_held, heights_in, is_run, kept_under,
    run_is_one, scan_start, the_last_delivered_is_held, what_is_forgotten_is_the_range, HeightRange,
    MemoryBlockCache,
};
use crate::book::Book;
use crate::cli::{
    a_command_line_asks_by_its_flags, asked, command_word, network_of, parse, testnet_is_asked_for,
    the_first_word_that_names_a_command, CliError, Command,
};
use crate::clock::{a_moment_is_its_seconds, moment};
use crate::keys::{
    account_from, address_of, check_viewing_key, generate, is_address, seed_of, viewing_key_of,
    viewing_key_refused, words, Account, KeyError, SEED_SIZE,
};
use crate::ledger::Ledger;
use crate::memo::{a_memo_reads_back, describe, memo_kind, memo_of, quoted, said, MEMO_SIZE};
use crate::network::{endpoint, name_of, unit_of, Network};
use crate::payment::{
    broadcast_answer, first_account, payment_from, plan_payment, Payment, SendError,
};
use crate::scan::{
    begin, every_note_is_written_down, imports_key, ironwood_note_of, orchard_notes_of,
    received_in, received_views, sapling_notes_of, take_answer, transaction_of, tree_state_height,
    Fetched, Next, Received, ReceivedView, ScanError,
};
use crate::serve::{
    a_position_is_taken_in_the_round_of_its_block, after_claim, bearer, bet, joined, standing,
    the_token_stands_behind_its_scheme, token_from, who, withdraw, JoinStep, Joined, Leaving, Refusal, Stake, Standing, TOKEN_SIZE,
};
use crate::rows::BetView;
use crate::sums::total;
use crate::terms::whatever_is_available_can_be_withdrawn;
use crate::text::{a_byte_is_two_digits, decimal, texts, trimmed};

verus! {

/// Who took a block is who the explorer guesses, where that is anybody: any name,
/// of any length, that is not "unknown" letter for letter in whatever case. Else it
/// is who the coinbase names, the same as if there were no guess.
pub proof fn the_miner_is_the_guess_where_there_is_one(row: &Raw, name: String)
    requires
        call_ensures(miner_of, (row,), name),
    ensures
        row.guessed_miner matches Some(guess) ==> {
            let g = guess@;
            let unknown = {
                &&& g.len() == 7
                &&& g[0] == 'u' || g[0] == 'U'
                &&& g[1] == 'n' || g[1] == 'N'
                &&& g[2] == 'k' || g[2] == 'K'
                &&& g[3] == 'n' || g[3] == 'N'
                &&& g[4] == 'o' || g[4] == 'O'
                &&& g[5] == 'w' || g[5] == 'W'
                &&& g[6] == 'n' || g[6] == 'N'
            };
            &&& g.len() > 0 && !unknown ==> name@ == g
            &&& g.len() == 0 || unknown ==> name@ == (match row.coinbase_data_hex {
                Some(hex) => miner(Some(hex@), None),
                None => "unsigned"@,
            })
        },
        row.guessed_miner is None ==> name@ == (match row.coinbase_data_hex {
            Some(hex) => miner(Some(hex@), None),
            None => "unsigned"@,
        }),
        row.coinbase_data_hex matches Some(hex) && hex@.len() == 0 && row.guessed_miner is None
            ==> name@ == "unsigned"@,
{
    if let Some(guess) = row.guessed_miner {
        let coinbase = match row.coinbase_data_hex {
            Some(hex) => Some(hex@),
            None => None,
        };
        a_guess_is_taken_unless_it_is_unknown(coinbase, guess@);
    }
    the_first_name_that_stands_there_signs(Seq::empty(), 0);
}

/// An answer about a block is taken where it is one of success and its first block
/// is the one asked about, or there is none; any other is refused.
pub proof fn an_answer_is_taken_about_the_block_asked_about(
    height: u32,
    status: i32,
    rows: Option<Vec<Raw>>,
    result: Result<Option<Raw>, ExplorerError>,
)
    requires
        call_ensures(at_height, (height, status, rows), result),
    ensures
        result is Ok <==> status == 200 && rows is Some && (rows->0@.len() > 0 ==> rows->0@[0].id
            == height),
        result matches Ok(Some(block)) ==> rows->0@.len() > 0 && block == rows->0@[0],
        result matches Ok(None) ==> rows->0@.len() == 0,
        status != 200 ==> result == Err::<Option<Raw>, ExplorerError>(
            ExplorerError::Status { status, height },
        ),
        status == 200 && rows is None ==> result == Err::<Option<Raw>, ExplorerError>(
            ExplorerError::NotABlockList,
        ),
        status == 200 && rows is Some && rows->0@.len() > 0 && rows->0@[0].id != height ==> result
            == Err::<Option<Raw>, ExplorerError>(
            ExplorerError::WrongBlock { asked: height, answered: rows->0@[0].id },
        ),
{
}

/// Where a block is asked about.
pub proof fn a_block_is_asked_about_by_its_height(source: &str, height: u32, url: String)
    requires
        call_ensures(block_url, (source, height), url),
    ensures
        url@ == source@ + "?q=id("@ + decimal(height as int)
            + ")&fields=id,coinbase_data_hex,guessed_miner"@,
{
}

/// What a transaction brought holds every note of every pool that any of the keys
/// decrypts, as its value and what its memo says, and as many rows as there are
/// such notes.
pub proof fn no_note_that_arrived_is_left_out(
    network: Network,
    txid: &str,
    height: u32,
    data: &[u8],
    keys: &Vec<String>,
    received: Vec<Received>,
    actions: nat,
)
    requires
        call_ensures(
            received_in,
            (network, txid, height, data, keys),
            Ok::<Vec<Received>, ScanError>(received),
        ),
        transaction_of(network, height, data@) == Ok::<nat, Seq<char>>(actions),
    ensures
        forall|k: int, i: int|
            0 <= k < keys@.len() && 0 <= i < sapling_notes_of(
                network,
                height,
                data@,
                keys@[k]@,
            ).len() ==> {
                let note = #[trigger] sapling_notes_of(network, height, data@, keys@[k]@)[i];
                received_views(received@).contains(
                    ReceivedView {
                        height,
                        value: note.0,
                        memo: said(memo_kind(note.1)),
                    },
                )
            },
        forall|k: int, i: int|
            0 <= k < keys@.len() && 0 <= i < orchard_notes_of(
                network,
                height,
                data@,
                keys@[k]@,
            ).len() ==> {
                let note = #[trigger] orchard_notes_of(network, height, data@, keys@[k]@)[i];
                received_views(received@).contains(
                    ReceivedView {
                        height,
                        value: note.0,
                        memo: said(memo_kind(note.1)),
                    },
                )
            },
        forall|k: int, a: int|
            0 <= k < keys@.len() && 0 <= a < actions && ironwood_note_of(
                network,
                height,
                data@,
                keys@[k]@,
                a as nat,
            ) is Some ==> {
                let note = (#[trigger] ironwood_note_of(
                    network,
                    height,
                    data@,
                    keys@[k]@,
                    a as nat,
                ))->0;
                received_views(received@).contains(
                    ReceivedView {
                        height,
                        value: note.0,
                        memo: said(memo_kind(note.1)),
                    },
                )
            },
        ({
            let sapling = |key: Seq<char>|
                sapling_notes_of(network, height, data@, key).len() as int;
            let orchard = |key: Seq<char>|
                orchard_notes_of(network, height, data@, key).len() as int;
            let ironwood = |key: Seq<char>, upto: int|
                total(
                    Seq::new(upto as nat, |a: int| a),
                    |a: int|
                        if ironwood_note_of(network, height, data@, key, a as nat) is Some {
                            1int
                        } else {
                            0
                        },
                );
            let ironwood_all = |key: Seq<char>| ironwood(key, actions as int);
            received@.len() == total(texts(keys@), sapling) + total(texts(keys@), orchard) + total(
                texts(keys@),
                ironwood_all,
            )
        }),
{
    every_note_is_written_down(network, height, data@, texts(keys@), actions);
}

/// A transaction that can be read, with keys that are all taken, is read; one that
/// cannot be read, or a key that is not taken, is told of.
pub proof fn what_can_be_read_is_read(
    network: Network,
    txid: &str,
    height: u32,
    data: &[u8],
    keys: &Vec<String>,
    result: Result<Vec<Received>, ScanError>,
)
    requires
        call_ensures(received_in, (network, txid, height, data, keys), result),
    ensures
        result is Ok <==> transaction_of(network, height, data@) is Ok && forall|k: int|
            0 <= k < keys@.len() ==> viewing_key_refused(network, (#[trigger] keys@[k])@) is None,
        transaction_of(network, height, data@) is Err ==> (result matches Err(
            ScanError::Reading { txid: t, why },
        ) && t@ == txid@ && transaction_of(network, height, data@) == Err::<nat, Seq<char>>(why@)),
{
}

/// A scan begins with the tree of the block before the birthday, or of the first
/// where there is none before, brings a key into a wallet only where it holds none,
/// and refuses what is no viewing key of the network.
pub proof fn a_scan_begins_before_the_birthday(
    network: Network,
    ufvk: &str,
    birthday: u32,
    height: u64,
    begun: Result<u64, KeyError>,
    accounts: usize,
    imports: bool,
)
    requires
        call_ensures(tree_state_height, (birthday,), height),
        call_ensures(begin, (network, ufvk, birthday), begun),
        call_ensures(imports_key, (accounts,), imports),
    ensures
        birthday > 0 ==> height + 1 == birthday,
        birthday == 0 ==> height == 0,
        begun is Ok <==> viewing_key_refused(network, ufvk@) is None,
        begun matches Ok(begun) ==> begun == height,
        imports <==> accounts == 0,
{
}

/// What a server hands over is read at the height it gives, an empty answer is
/// passed over in silence, and what it keeps back is passed over with a word.
pub proof fn what_is_handed_over_is_read(
    network: Network,
    txid: &str,
    fetched: Fetched,
    result: Result<Next, ScanError>,
)
    requires
        call_ensures(take_answer, (network, txid, fetched), result),
    ensures
        fetched matches Fetched::Refused(message) ==> (result matches Ok(Next::Pass(Some(line)))
            && line@ == "  could not fetch "@ + txid@ + ": "@ + message@),
        fetched matches Fetched::Given { data, height } ==> {
            let mined = if height <= 0xFFFF_FFFF {
                height as u32
            } else {
                0
            };
            &&& data@.len() == 0 ==> (result matches Ok(Next::Pass(None)))
            &&& data@.len() > 0 && transaction_of(network, mined, data@) is Ok ==> (result
                matches Ok(Next::Read { data: d, height: h }) && d@ == data@ && h == mined)
            &&& data@.len() > 0 && transaction_of(network, mined, data@) is Err ==> (result
                matches Err(ScanError::Reading { .. }))
        },
{
}

/// The token of a request is whatever stands behind "Bearer " in its header, and a
/// request is whose token is known, and is answered alike where it is not and where
/// there is none.
pub proof fn a_request_is_whose_token_it_bears(
    header: &str,
    token: String,
    missing: String,
    rest: Seq<char>,
    i: int,
    resolved: Result<Option<u32>, String>,
    whose: Result<u32, Refusal>,
)
    requires
        call_ensures(bearer, (Some(header),), token),
        call_ensures(bearer, (None::<&str>,), missing),
        call_ensures(who::<String>, (resolved,), whose),
    ensures
        header@ == seq!['B', 'e', 'a', 'r', 'e', 'r', ' '] + rest ==> token@ == rest,
        header@.len() < 7 ==> token@.len() == 0,
        0 <= i < 7 <= header@.len() && header@[i] != seq!['B', 'e', 'a', 'r', 'e', 'r', ' '][i]
            ==> token@.len() == 0,
        missing@.len() == 0,
        resolved matches Ok(Some(index)) ==> whose == Ok::<u32, Refusal>(index),
        !(resolved matches Ok(Some(_))) ==> (whose matches Err(refusal) && refusal.status == 401
            && refusal.message@ == "that token is not one of ours"@),
{
    the_token_stands_behind_its_scheme(rest, header@, i);
}

/// A token is the bytes of the generator, two digits each, wherever it gave any.
pub proof fn a_token_is_its_bytes(
    raw: [u8; TOKEN_SIZE],
    token: Option<String>,
    none: Option<String>,
    i: int,
)
    requires
        call_ensures(token_from, (Some(raw),), token),
        call_ensures(token_from, (None::<[u8; TOKEN_SIZE]>,), none),
        0 <= i < 32,
    ensures
        token is Some,
        token->0@.len() == 64,
        token->0@[2 * i] == "0123456789abcdef"@[raw@[i] as int / 16],
        token->0@[2 * i + 1] == "0123456789abcdef"@[raw@[i] as int % 16],
        none is None,
{
    a_byte_is_two_digits(raw@, i);
}

/// Joining steps past an index that is taken, one at a time, and ends where it is
/// claimed, or where there is nothing past it.
pub proof fn joining_steps_past_what_is_taken(
    actual: u32,
    taken: Result<(), String>,
    step: JoinStep,
)
    requires
        call_ensures(after_claim, (actual, taken), step),
    ensures
        taken is Ok <==> step is Claimed,
        step matches JoinStep::Claimed(index) ==> index == actual,
        taken is Err && actual < 0xFFFF_FFFF <==> step is From,
        step matches JoinStep::From(index) ==> index == actual + 1,
        step matches JoinStep::Refused(refusal) ==> actual == 0xFFFF_FFFF && refusal.status == 500
            && taken == Err::<(), String>(refusal.message),
{
}

/// What is told of a network is said of that network alone.
pub proof fn each_network_has_its_own_words(
    network: Network,
    url: &'static str,
    name: &'static str,
    unit: &'static str,
    index: u32,
    address: String,
    token: String,
    told: Joined,
)
    requires
        call_ensures(endpoint, (network,), url),
        call_ensures(name_of, (network,), name),
        call_ensures(unit_of, (network,), unit),
        call_ensures(joined, (network, index, address, token), told),
    ensures
        network == Network::MainNetwork ==> url@ == "https://zec.rocks:443"@ && name@ == "mainnet"@
            && unit@ == "ZEC"@,
        network == Network::TestNetwork ==> url@ == "https://testnet.zec.rocks:443"@ && name@
            == "testnet"@ && unit@ == "TAZ"@,
        told.network@ == name@,
        told.unit@ == unit@,
        told.index == index,
        told.address == address,
        told.token == token,
        told.note@ == "keep this token; it is the only way back to this balance"@,
{
}

/// A payment is planned where the file holds a phrase that gives a key, the
/// destination is an address of the network, the amount is no more than there is,
/// and the memo fits; and then for exactly what was asked.
pub proof fn a_payment_is_planned_for_what_was_asked(
    network: Network,
    file: &str,
    to: &str,
    zatoshi: u64,
    memo: &str,
    payment: Result<Payment, SendError>,
)
    requires
        call_ensures(plan_payment, (network, file, to, zatoshi, memo), payment),
    ensures
        payment is Ok <==> {
            &&& seed_of(trimmed(file@)) is Ok
            &&& viewing_key_of(network, seed_of(trimmed(file@))->Ok_0) is Ok
            &&& is_address(network, to@)
            &&& zatoshi <= 21_000_000 * 100_000_000
            &&& encode_utf8(memo@).len() <= 512
        },
        payment matches Ok(p) ==> {
            &&& seed_of(trimmed(file@)) == Ok::<Seq<u8>, Seq<char>>(p.seed@)
            &&& p.to@ == to@
            &&& p.zatoshi == zatoshi
            &&& forall|i: int|
                0 <= i < encode_utf8(memo@).len() ==> #[trigger] p.memo@[i] == encode_utf8(memo@)[i]
            &&& forall|i: int|
                encode_utf8(memo@).len() <= i < 512 ==> #[trigger] p.memo@[i] == 0
        },
{
}

/// What a payment comes to, from what the seed and the destination turned out to
/// be: the first thing that is wrong is told, and nothing else.
pub proof fn the_first_thing_wrong_with_a_payment_is_told(
    seed: [u8; SEED_SIZE],
    key: Result<String, String>,
    known: bool,
    to: &str,
    zatoshi: u64,
    memo: &str,
    payment: Result<Payment, SendError>,
)
    requires
        call_ensures(payment_from, (seed, key, known, to, zatoshi, memo), payment),
    ensures
        key is Err ==> (payment matches Err(SendError::SpendingKey(why)) && key == Err::<
            String,
            String,
        >(why)),
        key is Ok && !known ==> payment matches Err(SendError::NotAnAddress),
        key is Ok && known && zatoshi > 21_000_000 * 100_000_000 ==> payment
            matches Err(SendError::NotAValue),
        key is Ok && known && zatoshi <= 21_000_000 * 100_000_000 && encode_utf8(memo@).len() > 512
            ==> payment matches Err(SendError::MemoTooLong),
        key is Ok && known && zatoshi <= 21_000_000 * 100_000_000 && encode_utf8(memo@).len() <= 512
            ==> (payment matches Ok(p) && p.seed == seed && p.to@ == to@ && p.zatoshi == zatoshi),
{
}

/// The first account pays, and a code of zero, and no other, means that a
/// transaction was sent.
pub proof fn a_code_of_zero_means_sent(
    accounts: &Vec<u32>,
    account: Result<u32, SendError>,
    txid: &str,
    code: i32,
    message: &str,
    result: Result<String, SendError>,
)
    requires
        call_ensures(first_account::<u32>, (accounts,), account),
        call_ensures(broadcast_answer, (txid, code, message), result),
    ensures
        account is Ok <==> accounts@.len() > 0,
        account matches Ok(account) ==> account == accounts@[0],
        account matches Err(why) ==> why is NoAccount,
        result is Ok <==> code == 0,
        result matches Ok(line) ==> line@ == "sent "@ + txid@,
        result matches Err(why) ==> (why matches SendError::Refused { txid: t, code: c, message: m }
            && t@ == txid@ && c == code && m@ == message@),
{
}

/// A wallet is made of what its phrase gave: it is there where both a key and an
/// address came, and the key is missed first.
pub proof fn a_wallet_is_made_of_what_its_phrase_gave(
    network: Network,
    phrase: String,
    viewing_key: Result<String, String>,
    address: Result<String, String>,
    account: Result<Account, KeyError>,
    made: Account,
    text: &str,
    taken: Result<(), KeyError>,
)
    requires
        call_ensures(account_from, (phrase, viewing_key, address), account),
        call_ensures(generate, (network,), Ok::<Account, KeyError>(made)),
        call_ensures(check_viewing_key, (network, text), taken),
    ensures
        account is Ok <==> viewing_key is Ok && address is Ok,
        account matches Ok(a) ==> a.phrase == phrase && viewing_key == Ok::<String, String>(
            a.viewing_key,
        ) && address == Ok::<String, String>(a.address),
        viewing_key matches Err(why) ==> account == Err::<Account, KeyError>(
            KeyError::SpendingKey(why),
        ),
        viewing_key is Ok && address is Err ==> account == Err::<Account, KeyError>(
            KeyError::Address(address->Err_0),
        ),
        words(made.phrase@) == 24,
        seed_of(made.phrase@) is Ok,
        viewing_key_of(network, seed_of(made.phrase@)->Ok_0) == Ok::<Seq<char>, Seq<char>>(
            made.viewing_key@,
        ),
        address_of(network, seed_of(made.phrase@)->Ok_0) == Ok::<
            Seq<char>,
            Seq<char>,
        >(made.address@),
        taken is Ok <==> viewing_key_refused(network, text@) is None,
{
}

/// A text that is written into a memo is what is said of it, wherever it fits and
/// does not end in the character of value zero.
pub proof fn a_memo_says_what_was_written(
    text: &str,
    memo: Option<[u8; MEMO_SIZE]>,
    bytes: [u8; MEMO_SIZE],
    told: String,
)
    requires
        call_ensures(memo_of, (text,), memo),
        call_ensures(describe, (&bytes,), told),
        text@.len() > 0 ==> text@.last() != '\0',
    ensures
        memo is Some <==> encode_utf8(text@).len() <= 512,
        memo is Some && bytes@ == memo->0@ ==> told@ == quoted(text@),
        memo_kind(bytes@) is Empty ==> told@ == "(empty)"@,
        memo_kind(bytes@) is Future ==> told@ == "(a kind this build does not know)"@,
        memo_kind(bytes@) is Arbitrary ==> told@ == "(not text)"@,
        memo_kind(bytes@) is Unreadable ==> told@ == "(unreadable)"@,
{
    if encode_utf8(text@).len() <= 512 {
        a_memo_reads_back(text@);
    }
}

/// A moment is written down as its seconds.
pub proof fn a_moment_is_written_down_as_its_seconds(seconds: u64, at: i64, before: i64)
    requires
        call_ensures(moment, (Some(seconds),), at),
        call_ensures(moment, (None::<u64>,), before),
    ensures
        seconds < 0x8000_0000_0000_0000 ==> at == seconds,
        (at - seconds) % 0x1_0000_0000_0000_0000 == 0,
        before == 0,
{
    a_moment_is_its_seconds(seconds);
}

/// What a command line asks for is what is parsed: nothing without a command, a
/// new wallet where `new` comes first, and testnet where its flag stands.
pub proof fn a_command_line_is_parsed_as_it_asks(
    args: &Vec<String>,
    command: Result<Command, CliError>,
    network: Network,
    k: int,
)
    requires
        call_ensures(parse, (args,), command),
        call_ensures(network_of, (args,), network),
    ensures
        asked(texts(args@)) == (match command {
            Ok(command) => Ok(command@),
            Err(error) => Err(error),
        }),
        network == Network::TestNetwork <==> exists|i: int|
            0 <= i < args@.len() && (#[trigger] args@[i])@ == "--testnet"@,
        (forall|i: int|
            0 <= i < args@.len() ==> (#[trigger] args@[i])@ != "new"@ && args@[i]@ != "scan"@
                && args@[i]@ != "send"@) ==> (command matches Err(CliError::Usage)),
        0 <= k < args@.len() && args@[k]@ == "new"@ && (forall|i: int|
            0 <= i < k ==> (#[trigger] args@[i])@ != "scan"@ && args@[i]@ != "send"@) ==> (command
            matches Ok(Command::New)),
{
    let all = texts(args@);
    assert(forall|i: int| 0 <= i < all.len() ==> #[trigger] all[i] == args@[i]@);
    testnet_is_asked_for(all);
    a_command_line_asks_by_its_flags(all);
    if exists|i: int| 0 <= i < all.len() && #[trigger] all[i] == "--testnet"@ {
        let i = choose|i: int| 0 <= i < all.len() && #[trigger] all[i] == "--testnet"@;
        assert(args@[i]@ == "--testnet"@);
    }
    if exists|i: int| 0 <= i < args@.len() && (#[trigger] args@[i])@ == "--testnet"@ {
        let i = choose|i: int| 0 <= i < args@.len() && (#[trigger] args@[i])@ == "--testnet"@;
        assert(all[i] == "--testnet"@);
    }
    the_first_word_that_names_a_command(all, k);
    if 0 <= k < all.len() && all[k] == "new"@ && forall|i: int|
        0 <= i < k ==> (#[trigger] args@[i])@ != "scan"@ && args@[i]@ != "send"@ {
        assert forall|i: int| 0 <= i < k implies #[trigger] all[i] != "scan"@ && all[i]
            != "send"@ by {
            assert(args@[i]@ != "scan"@);
        }
        new_comes_first(all, k);
    }
}

/// Where `new` stands before any other command, the command is `new`.
proof fn new_comes_first(all: Seq<Seq<char>>, k: int)
    requires
        0 <= k < all.len(),
        all[k] == "new"@,
        forall|i: int| 0 <= i < k ==> #[trigger] all[i] != "scan"@ && all[i] != "send"@,
    ensures
        command_word(all) == Some("new"@),
    decreases k,
{
    if exists|i: int| 0 <= i < k && #[trigger] all[i] == "new"@ {
        let i = choose|i: int| 0 <= i < k && #[trigger] all[i] == "new"@;
        new_comes_first(all, i);
    } else {
        the_first_word_that_names_a_command(all, k);
    }
}

/// The tip is the highest block that is held, or that is held in the range.
pub proof fn the_tip_is_the_highest_held<B>(
    cache: &MemoryBlockCache<B>,
    range: HeightRange,
    tip: Option<u32>,
    within: Option<u32>,
    h: u32,
)
    requires
        call_ensures(MemoryBlockCache::<B>::get_tip_height, (cache, None::<HeightRange>), tip),
        call_ensures(MemoryBlockCache::<B>::get_tip_height, (cache, Some(range)), within),
        cache@.contains_key(h),
    ensures
        tip is Some,
        cache@.contains_key(tip->0),
        h <= tip->0,
        range.start <= h < range.end ==> within is Some && cache@.contains_key(within->0)
            && range.start <= within->0 < range.end && h <= within->0,
{
    a_tip_is_the_highest_held(cache@, None, tip, h);
    if range.start <= h < range.end {
        a_tip_is_the_highest_held(cache@, Some(range), within, h);
    }
}

/// A scan is given the run of blocks that begins at the lowest held one from where
/// it was asked to, and nothing where none is held from there.
pub proof fn a_scan_is_given_its_run<B>(
    cache: &MemoryBlockCache<B>,
    from_height: Option<u32>,
    limit: Option<usize>,
    blocks: Vec<&B>,
    first: int,
    end: int,
)
    requires
        call_ensures(MemoryBlockCache::<B>::with_blocks, (cache, from_height, limit), blocks),
    ensures
        ({
            let from = scan_start(from_height);
            &&& from <= first < end <= 0xFFFF_FFFF && (forall|h: u32|
                from <= h < first ==> !#[trigger] cache@.contains_key(h)) && (forall|h: u32|
                first <= h < end ==> #[trigger] cache@.contains_key(h)) && (limit is Some && first
                + 1 < end ==> end - 1 - from < limit->0) && (cache@.contains_key(end as u32)
                ==> limit is Some && end - from >= limit->0) ==> blocks@.len() == end - first && (
            forall|i: int|
                0 <= i < blocks@.len() ==> *(#[trigger] blocks@[i]) == cache@[(first + i) as u32])
            &&& (forall|h: u32| from <= h ==> !#[trigger] cache@.contains_key(h)) ==> blocks@.len()
                == 0
        }),
        from_height matches Some(height) ==> scan_start(from_height) == height,
        from_height is None ==> scan_start(from_height) == 0,
{
    let from = scan_start(from_height);
    a_scan_ends_at_a_gap_or_at_its_limit(cache@, from_height, limit, first, end);
    if is_run(cache@, from, limit, first, end) {
        assert(cache@.contains_key(first as u32));
        let (f, e): (int, int) = choose|f: int, e: int|
            {
                &&& #[trigger] is_run(cache@, from, limit, f, e)
                &&& blocks@.len() == e - f
                &&& forall|i: int|
                    0 <= i < blocks@.len() ==> *(#[trigger] blocks@[i]) == cache@[(f + i) as u32]
            };
        run_is_one(cache@, from, limit, first, end, f, e);
    }
}

/// What is delivered under a height last is what is held there.
pub proof fn a_cache_holds_what_was_delivered_last<B>(
    cache: &mut MemoryBlockCache<B>,
    blocks: Vec<(u64, B)>,
    height: u32,
    i: int,
)
    requires
        call_ensures(MemoryBlockCache::<B>::insert, (cache, blocks), ()),
        0 <= i < blocks@.len(),
        blocks@[i].0 == height,
        forall|j: int| i < j < blocks@.len() ==> kept_under((#[trigger] blocks@[j]).0) != height,
    ensures
        final(cache)@.contains_key(height),
        final(cache)@[height] == blocks@[i].1,
{
    a_block_is_kept_under_its_height(height, 0);
    the_last_delivered_is_held(old(cache)@, blocks@, height);
    assert(kept_under(blocks@[i].0) == height);
}

/// What is read of a range is what is held at its heights, each once, the lower
/// first.
pub proof fn a_range_is_read_as_it_is_held<B>(
    cache: &MemoryBlockCache<B>,
    range: &HeightRange,
    blocks: Vec<&B>,
)
    requires
        call_ensures(MemoryBlockCache::<B>::read, (cache, range), blocks),
    ensures
        exists|heights: Seq<u32>|
            {
                &&& heights.len() == blocks@.len()
                &&& forall|i: int, j: int|
                    0 <= i < j < heights.len() ==> #[trigger] heights[i] < #[trigger] heights[j]
                &&& forall|i: int|
                    0 <= i < heights.len() ==> cache@.contains_key(#[trigger] heights[i])
                        && range.start <= heights[i] < range.end && *blocks@[i]
                        == cache@[heights[i]]
                &&& forall|h: u32| #[trigger]
                    cache@.contains_key(h) && range.start <= h < range.end ==> heights.contains(h)
            },
{
    let heights = choose|heights: Seq<u32>|
        {
            &&& #[trigger] heights_in(cache@, *range, heights)
            &&& blocks@.len() == heights.len()
            &&& forall|i: int| 0 <= i < blocks@.len() ==> *(#[trigger] blocks@[i]) == cache@[heights[i]]
        };
    a_range_is_read_upwards(cache@, *range, heights);
    assert forall|i: int| 0 <= i < heights.len() implies cache@.contains_key(#[trigger] heights[i])
        && range.start <= heights[i] < range.end && *blocks@[i] == cache@[heights[i]] by {
        assert(*blocks@[i] == cache@[heights[i]]);
    }
}

/// A range is forgotten whole, and nothing else is.
pub proof fn a_range_is_forgotten_whole<B>(
    cache: &mut MemoryBlockCache<B>,
    range: HeightRange,
    h: u32,
)
    requires
        call_ensures(MemoryBlockCache::<B>::delete, (cache, range), ()),
    ensures
        final(cache)@.contains_key(h) <==> old(cache)@.contains_key(h) && !(range.start <= h
            < range.end),
        final(cache)@.contains_key(h) ==> final(cache)@[h] == old(cache)@[h],
{
    what_is_forgotten_is_the_range(old(cache)@, range, h);
}

/// Asking for a position that can be funded, in a round of its block that is open,
/// is taken, and writes exactly that bet.
pub proof fn a_position_that_can_be_funded_is_taken(
    ledger: &mut Ledger,
    k: int,
    index: u32,
    stake: &Stake,
    at: i64,
    result: Result<(), Refusal>,
)
    requires
        call_ensures(bet, (ledger, index, stake, at), result),
        old(ledger)@.wf(),
        old(ledger)@.sums_fit(index),
        stake.zatoshi <= i64::MAX,
        0 < stake.zatoshi <= old(ledger)@.balance(index),
        0 <= k < old(ledger)@.rounds.len(),
        old(ledger)@.rounds[k].settles_on == stake.settles_on,
        old(ledger)@.rounds[k].outcome is None,
        forall|i: int|
            0 <= i < old(ledger)@.bets.len() ==> (#[trigger] old(ledger)@.bets[i]).round_id
                != old(ledger)@.rounds[k].id || old(ledger)@.bets[i].address_index != index,
    ensures
        result is Ok,
        final(ledger)@ == (Book {
            bets: old(ledger)@.bets.push(
                BetView {
                    round_id: old(ledger)@.rounds[k].id,
                    address_index: index,
                    outcome: stake.outcome@,
                    zatoshi: stake.zatoshi as i64,
                    placed_at: at,
                },
            ),
            ..old(ledger)@
        }),
{
    a_position_is_taken_in_the_round_of_its_block(old(ledger)@, k, index, *stake, at);
}

/// Asking for what is available is granted, and writes exactly that withdrawal.
pub proof fn what_is_available_is_granted(
    ledger: &mut Ledger,
    index: u32,
    leaving: &Leaving,
    at: i64,
    result: Result<(), Refusal>,
)
    requires
        call_ensures(withdraw, (ledger, index, leaving, at), result),
        old(ledger)@.wf(),
        old(ledger)@.sums_fit(index),
        leaving.zatoshi <= i64::MAX,
        0 < leaving.zatoshi <= old(ledger)@.balance(index),
    ensures
        result is Ok,
        final(ledger)@.withdrawals.len() == old(ledger)@.withdrawals.len() + 1,
        final(ledger)@.withdrawals.last().address_index == index,
        final(ledger)@.withdrawals.last().zatoshi == leaving.zatoshi,
        final(ledger)@.withdrawals.last().destination == leaving.to@,
        final(ledger)@.withdrawals.last().txid is None,
        final(ledger)@ == (Book {
            withdrawals: old(ledger)@.withdrawals.push(final(ledger)@.withdrawals.last()),
            ..old(ledger)@
        }),
{
    whatever_is_available_can_be_withdrawn(
        old(ledger)@,
        index,
        leaving.zatoshi,
        leaving.to@,
        at,
    );
}

/// Where an address stands is told as its balance, under the words of the network.
pub proof fn a_standing_is_the_balance(
    ledger: &Ledger,
    network: Network,
    index: u32,
    address: String,
    told: Result<Standing, Refusal>,
)
    requires
        call_ensures(standing, (ledger, network, index, address), told),
    ensures
        told is Ok <==> ledger@.sums_fit(index),
        told matches Ok(s) ==> s.index == index && s.address == address && s.available
            == ledger@.balance(index),
        told matches Ok(s) ==> (if network == Network::MainNetwork {
            s.network@ == "mainnet"@ && s.unit@ == "ZEC"@
        } else {
            s.network@ == "testnet"@ && s.unit@ == "TAZ"@
        }),
        told matches Err(refusal) ==> refusal.status == 400 && refusal.message@
            == "integer overflow"@,
{
}

}
