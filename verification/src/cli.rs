//! What the command line asks for.

use vstd::prelude::*;

use crate::network::Network;
use crate::text::{chars_of, parse_number, same_chars, spelled, texts};

verus! {

/// What the program is asked to do.
#[derive(Debug)]
pub enum Command {
    /// Make a wallet.
    New,
    /// Read what arrived.
    Scan { ufvk: String, birthday: u32, data: String },
    /// Spend.
    Send { seed_file: String, to: String, zatoshi: u64, memo: String, data: String },
}

/// Why the command line is refused.
#[derive(Debug)]
pub enum CliError {
    Usage,
    UfvkRequired,
    BirthdayRequired,
    BirthdayNotAHeight,
    SeedFileRequired,
    ToRequired,
    ZatoshiRequired,
    ZatoshiNotWhole,
}

#[verifier::ext_equal]
pub enum CommandView {
    New,
    Scan { ufvk: Seq<char>, birthday: nat, data: Seq<char> },
    Send { seed_file: Seq<char>, to: Seq<char>, zatoshi: nat, memo: Seq<char>, data: Seq<char> },
}

impl View for Command {
    type V = CommandView;

    open spec fn view(&self) -> CommandView {
        match self {
            Command::New => CommandView::New,
            Command::Scan { ufvk, birthday, data } => CommandView::Scan {
                ufvk: ufvk@,
                birthday: *birthday as nat,
                data: data@,
            },
            Command::Send { seed_file, to, zatoshi, memo, data } => CommandView::Send {
                seed_file: seed_file@,
                to: to@,
                zatoshi: *zatoshi as nat,
                memo: memo@,
                data: data@,
            },
        }
    }
}

/// What such a refusal says.
pub open spec fn cli_error_text(error: CliError) -> Seq<char> {
    match error {
        CliError::Usage => "usage:\n  ring-wallet [--testnet] new\n  ring-wallet [--testnet] scan --ufvk <key> --birthday <height> [--data <dir>]\n  ring-wallet [--testnet] send --seed-file <path> --to <addr> --zatoshi <n> [--memo <text>] [--data <dir>]"@,
        CliError::UfvkRequired => "--ufvk is required"@,
        CliError::BirthdayRequired => "--birthday is required: the height the wallet was made"@,
        CliError::BirthdayNotAHeight => "--birthday must be a block height"@,
        CliError::SeedFileRequired => "--seed-file is required"@,
        CliError::ToRequired => "--to is required"@,
        CliError::ZatoshiRequired => "--zatoshi is required"@,
        CliError::ZatoshiNotWhole => "--zatoshi must be a whole number of zatoshi"@,
    }
}

impl CliError {
    /// What the refusal says.
    pub fn message(&self) -> (text: &'static str)
        ensures
            text@ == cli_error_text(*self),
    {
        match self {
            CliError::Usage => "usage:\n  ring-wallet [--testnet] new\n  ring-wallet [--testnet] scan --ufvk <key> --birthday <height> [--data <dir>]\n  ring-wallet [--testnet] send --seed-file <path> --to <addr> --zatoshi <n> [--memo <text>] [--data <dir>]",
            CliError::UfvkRequired => "--ufvk is required",
            CliError::BirthdayRequired => "--birthday is required: the height the wallet was made",
            CliError::BirthdayNotAHeight => "--birthday must be a block height",
            CliError::SeedFileRequired => "--seed-file is required",
            CliError::ToRequired => "--to is required",
            CliError::ZatoshiRequired => "--zatoshi is required",
            CliError::ZatoshiNotWhole => "--zatoshi must be a whole number of zatoshi",
        }
    }
}

/// What stands behind the first word that is `name`.
pub open spec fn flag_of(args: Seq<Seq<char>>, name: Seq<char>) -> Option<Seq<char>>
    decreases args.len(),
{
    if args.len() == 0 {
        None
    } else if args[0] == name {
        if args.len() > 1 {
            Some(args[1])
        } else {
            None
        }
    } else {
        flag_of(args.skip(1), name)
    }
}

/// What stands behind the first word that is `name`, or something else.
pub open spec fn flag_or(args: Seq<Seq<char>>, name: Seq<char>, other: Seq<char>) -> Seq<char> {
    match flag_of(args, name) {
        Some(text) => text,
        None => other,
    }
}

/// Testnet is not a default. A key made on the wrong network cannot receive
/// what was sent to it, and the addresses look similar enough to be pasted in
/// the wrong place.
pub open spec fn network_asked(args: Seq<Seq<char>>) -> Network {
    if args.contains("--testnet"@) {
        Network::TestNetwork
    } else {
        Network::MainNetwork
    }
}

pub open spec fn is_command(word: Seq<char>) -> bool {
    word == "new"@ || word == "scan"@ || word == "send"@
}

/// The command is wherever it is: the first word that names one.
pub open spec fn command_word(args: Seq<Seq<char>>) -> Option<Seq<char>>
    decreases args.len(),
{
    if args.len() == 0 {
        None
    } else if is_command(args[0]) {
        Some(args[0])
    } else {
        command_word(args.skip(1))
    }
}

pub open spec fn scan_asked(args: Seq<Seq<char>>) -> Result<CommandView, CliError> {
    match flag_of(args, "--ufvk"@) {
        None => Err(CliError::UfvkRequired),
        Some(ufvk) => match flag_of(args, "--birthday"@) {
            None => Err(CliError::BirthdayRequired),
            Some(birthday) => match spelled(birthday) {
                Some(birthday) if birthday <= u32::MAX => Ok(
                    CommandView::Scan {
                        ufvk,
                        birthday,
                        data: flag_or(args, "--data"@, "ring-data"@),
                    },
                ),
                _ => Err(CliError::BirthdayNotAHeight),
            },
        },
    }
}

pub open spec fn send_asked(args: Seq<Seq<char>>) -> Result<CommandView, CliError> {
    match flag_of(args, "--seed-file"@) {
        None => Err(CliError::SeedFileRequired),
        Some(seed_file) => match flag_of(args, "--to"@) {
            None => Err(CliError::ToRequired),
            Some(to) => match flag_of(args, "--zatoshi"@) {
                None => Err(CliError::ZatoshiRequired),
                Some(zatoshi) => match spelled(zatoshi) {
                    Some(zatoshi) if zatoshi <= u64::MAX => Ok(
                        CommandView::Send {
                            seed_file,
                            to,
                            zatoshi,
                            memo: flag_or(args, "--memo"@, Seq::empty()),
                            data: flag_or(args, "--data"@, "ring-data"@),
                        },
                    ),
                    _ => Err(CliError::ZatoshiNotWhole),
                },
            },
        },
    }
}

/// What a command line asks for.
pub open spec fn asked(args: Seq<Seq<char>>) -> Result<CommandView, CliError> {
    match command_word(args) {
        None => Err(CliError::Usage),
        Some(word) => if word == "new"@ {
            Ok(CommandView::New)
        } else if word == "scan"@ {
            scan_asked(args)
        } else {
            send_asked(args)
        },
    }
}

/// Whether a word is that.
fn is(word: &String, name: &str) -> (same: bool)
    ensures
        same == (word@ == name@),
{
    same_chars(&chars_of(word.as_str()), &chars_of(name))
}

/// What stands behind the first word that is `name`.
fn flag(args: &Vec<String>, name: &str) -> (text: Option<String>)
    ensures
        match text {
            Some(text) => flag_of(texts(args@), name@) == Some(text@),
            None => flag_of(texts(args@), name@) is None,
        },
{
    let ghost all = texts(args@);
    let mut i: usize = 0;
    assert(all.skip(0) =~= all);
    while i < args.len()
        invariant
            all == texts(args@),
            i <= args.len(),
            flag_of(all.skip(i as int), name@) == flag_of(all, name@),
        decreases args.len() - i,
    {
        let ghost rest = all.skip(i as int);
        assert(rest[0] == args@[i as int]@);
        if is(&args[i], name) {
            if i + 1 < args.len() {
                assert(rest[1] == args@[i + 1]@);
                return Some(args[i + 1].clone());
            }
            return None;
        }
        assert(rest.skip(1) =~= all.skip(i + 1));
        i += 1;
    }
    None
}

/// What stands behind the first word that is `name`, or something else.
fn flag_else(args: &Vec<String>, name: &str, other: &str) -> (text: String)
    ensures
        text@ == flag_or(texts(args@), name@, other@),
{
    match flag(args, name) {
        Some(text) => text,
        None => other.to_owned(),
    }
}

/// Which network a command line asks for.
pub fn network_of(args: &Vec<String>) -> (network: Network)
    ensures
        network == network_asked(texts(args@)),
{
    let ghost all = texts(args@);
    let mut i: usize = 0;
    while i < args.len()
        invariant
            all == texts(args@),
            i <= args.len(),
            forall|k: int| 0 <= k < i ==> #[trigger] all[k] != "--testnet"@,
        decreases args.len() - i,
    {
        assert(all[i as int] == args@[i as int]@);
        if is(&args[i], "--testnet") {
            return Network::TestNetwork;
        }
        i += 1;
    }
    Network::MainNetwork
}

fn parse_scan(args: &Vec<String>) -> (command: Result<Command, CliError>)
    ensures
        scan_asked(texts(args@)) == (match command {
            Ok(command) => Ok(command@),
            Err(error) => Err(error),
        }),
{
    let ufvk = match flag(args, "--ufvk") {
        Some(ufvk) => ufvk,
        None => return Err(CliError::UfvkRequired),
    };
    let birthday = match flag(args, "--birthday") {
        Some(birthday) => birthday,
        None => return Err(CliError::BirthdayRequired),
    };
    let birthday: u32 = match parse_number(birthday.as_str(), u32::MAX as u64) {
        Some(birthday) => birthday as u32,
        None => return Err(CliError::BirthdayNotAHeight),
    };
    Ok(Command::Scan { ufvk, birthday, data: flag_else(args, "--data", "ring-data") })
}

fn parse_send(args: &Vec<String>) -> (command: Result<Command, CliError>)
    ensures
        send_asked(texts(args@)) == (match command {
            Ok(command) => Ok(command@),
            Err(error) => Err(error),
        }),
{
    let seed_file = match flag(args, "--seed-file") {
        Some(seed_file) => seed_file,
        None => return Err(CliError::SeedFileRequired),
    };
    let to = match flag(args, "--to") {
        Some(to) => to,
        None => return Err(CliError::ToRequired),
    };
    let zatoshi = match flag(args, "--zatoshi") {
        Some(zatoshi) => zatoshi,
        None => return Err(CliError::ZatoshiRequired),
    };
    let zatoshi: u64 = match parse_number(zatoshi.as_str(), u64::MAX) {
        Some(zatoshi) => zatoshi,
        None => return Err(CliError::ZatoshiNotWhole),
    };
    let memo = flag_else(args, "--memo", "");
    proof {
        reveal_strlit("");
        assert(""@ =~= Seq::empty());
    }
    let data = flag_else(args, "--data", "ring-data");
    Ok(Command::Send { seed_file, to, zatoshi, memo, data })
}

/// What a command line asks for, or why it is refused.
pub fn parse(args: &Vec<String>) -> (command: Result<Command, CliError>)
    ensures
        asked(texts(args@)) == (match command {
            Ok(command) => Ok(command@),
            Err(error) => Err(error),
        }),
{
    proof {
        reveal_strlit("new");
        reveal_strlit("scan");
        reveal_strlit("send");
        assert("new"@.len() != "scan"@.len());
        assert("new"@.len() != "send"@.len());
        assert("scan"@[1] != "send"@[1]);
    }
    let ghost all = texts(args@);
    let mut i: usize = 0;
    assert(all.skip(0) =~= all);
    while i < args.len()
        invariant
            all == texts(args@),
            i <= args.len(),
            command_word(all.skip(i as int)) == command_word(all),
            "new"@ != "scan"@,
            "new"@ != "send"@,
            "scan"@ != "send"@,
        decreases args.len() - i,
    {
        let ghost rest = all.skip(i as int);
        assert(rest[0] == args@[i as int]@);
        if is(&args[i], "new") {
            return Ok(Command::New);
        }
        if is(&args[i], "scan") {
            return parse_scan(args);
        }
        if is(&args[i], "send") {
            return parse_send(args);
        }
        assert(rest.skip(1) =~= all.skip(i + 1));
        i += 1;
    }
    Err(CliError::Usage)
}

/// The first word that names a command is in the front, or else it is the
/// first in the back.
proof fn first_in_the_front(front: Seq<Seq<char>>, back: Seq<Seq<char>>)
    ensures
        command_word(front + back) == (if command_word(front) is Some {
            command_word(front)
        } else {
            command_word(back)
        }),
    decreases front.len(),
{
    if front.len() == 0 {
        assert(front + back =~= back);
    } else {
        assert((front + back)[0] == front[0]);
        assert((front + back).skip(1) =~= front.skip(1) + back);
        first_in_the_front(front.skip(1), back);
    }
}

/// `--testnet` may stand anywhere: it asks for testnet wherever it is, and it
/// shadows no command.
pub proof fn testnet_may_stand_anywhere(front: Seq<Seq<char>>, back: Seq<Seq<char>>)
    ensures
        network_asked(front + seq!["--testnet"@] + back) == Network::TestNetwork,
        command_word(front + seq!["--testnet"@] + back) == command_word(front + back),
{
    reveal_strlit("--testnet");
    reveal_strlit("new");
    reveal_strlit("scan");
    reveal_strlit("send");
    let middle = seq!["--testnet"@];
    let args = front + middle + back;
    assert(args[front.len() as int] == "--testnet"@);
    assert(args =~= front + (middle + back));
    first_in_the_front(front, middle + back);
    first_in_the_front(middle, back);
    first_in_the_front(front, back);
    assert(!is_command("--testnet"@));
    assert(middle.skip(1) =~= Seq::<Seq<char>>::empty());
    assert(command_word(middle.skip(1)) is None);
    assert(command_word(middle) is None);
}

/// A flag is the word behind the first that is its name, and is not there where no
/// word is, or where that is the last.
pub proof fn a_flag_is_the_word_behind_its_name(args: Seq<Seq<char>>, name: Seq<char>, k: int)
    ensures
        0 <= k < args.len() - 1 && args[k] == name && (forall|j: int|
            0 <= j < k ==> #[trigger] args[j] != name) ==> flag_of(args, name) == Some(args[k + 1]),
        k == args.len() - 1 && (forall|j: int| 0 <= j < k ==> #[trigger] args[j] != name)
            ==> flag_of(args, name) is None,
        (forall|j: int| 0 <= j < args.len() ==> #[trigger] args[j] != name) ==> flag_of(
            args,
            name,
        ) is None,
    decreases args.len(),
{
    if args.len() > 0 {
        let rest = args.skip(1);
        a_flag_is_the_word_behind_its_name(rest, name, k - 1);
        assert(forall|j: int| 0 <= j < rest.len() ==> #[trigger] rest[j] == args[j + 1]);
        if args[0] != name {
            assert(forall|j: int|
                0 <= j < k - 1 && j < rest.len() && #[trigger] rest[j] == name ==> args[j + 1]
                    == name);
        }
    }
}

/// The command is the first word that is `new`, `scan` or `send`.
pub proof fn the_first_word_that_names_a_command(args: Seq<Seq<char>>, k: int)
    ensures
        0 <= k < args.len() && (args[k] == "new"@ || args[k] == "scan"@ || args[k] == "send"@) && (
        forall|j: int|
            0 <= j < k ==> #[trigger] args[j] != "new"@ && args[j] != "scan"@ && args[j]
                != "send"@) ==> command_word(args) == Some(args[k]),
        (forall|j: int|
            0 <= j < args.len() ==> #[trigger] args[j] != "new"@ && args[j] != "scan"@ && args[j]
                != "send"@) ==> command_word(args) is None,
    decreases args.len(),
{
    if args.len() > 0 {
        let rest = args.skip(1);
        the_first_word_that_names_a_command(rest, k - 1);
        assert(forall|j: int| 0 <= j < rest.len() ==> #[trigger] rest[j] == args[j + 1]);
    }
}

/// What a command line asks for is told by its first command and its flags: a scan
/// needs a key and a birthday, a payment a seed file, a destination and an amount,
/// each is missed in that order, numbers must fit, and the rest has what stands
/// for it.
pub proof fn a_command_line_asks_by_its_flags(args: Seq<Seq<char>>)
    ensures
        ({
            let data = match flag_of(args, "--data"@) {
                Some(data) => data,
                None => "ring-data"@,
            };
            let memo = match flag_of(args, "--memo"@) {
                Some(memo) => memo,
                None => Seq::empty(),
            };
            let ufvk = flag_of(args, "--ufvk"@);
            let birthday = flag_of(args, "--birthday"@);
            let seed_file = flag_of(args, "--seed-file"@);
            let to = flag_of(args, "--to"@);
            let zatoshi = flag_of(args, "--zatoshi"@);
            let scans = command_word(args) == Some("scan"@);
            let sends = command_word(args) == Some("send"@);
            &&& command_word(args) is None ==> asked(args) == Err::<CommandView, CliError>(
                CliError::Usage,
            )
            &&& command_word(args) == Some("new"@) ==> asked(args) == Ok::<CommandView, CliError>(
                CommandView::New,
            )
            &&& scans && ufvk is None ==> asked(args) == Err::<CommandView, CliError>(
                CliError::UfvkRequired,
            )
            &&& scans && ufvk is Some && birthday is None ==> asked(args) == Err::<
                CommandView,
                CliError,
            >(CliError::BirthdayRequired)
            &&& scans && ufvk is Some && birthday is Some && (spelled(birthday->0) is None
                || spelled(birthday->0)->0 > 0xFFFF_FFFF) ==> asked(args) == Err::<
                CommandView,
                CliError,
            >(CliError::BirthdayNotAHeight)
            &&& scans && ufvk is Some && birthday is Some && spelled(birthday->0) is Some
                && spelled(birthday->0)->0 <= 0xFFFF_FFFF ==> asked(args) == Ok::<
                CommandView,
                CliError,
            >(CommandView::Scan { ufvk: ufvk->0, birthday: spelled(birthday->0)->0, data })
            &&& sends && seed_file is None ==> asked(args) == Err::<CommandView, CliError>(
                CliError::SeedFileRequired,
            )
            &&& sends && seed_file is Some && to is None ==> asked(args) == Err::<
                CommandView,
                CliError,
            >(CliError::ToRequired)
            &&& sends && seed_file is Some && to is Some && zatoshi is None ==> asked(args) == Err::<
                CommandView,
                CliError,
            >(CliError::ZatoshiRequired)
            &&& sends && seed_file is Some && to is Some && zatoshi is Some && (spelled(
                zatoshi->0,
            ) is None || spelled(zatoshi->0)->0 > 0xFFFF_FFFF_FFFF_FFFF) ==> asked(args) == Err::<
                CommandView,
                CliError,
            >(CliError::ZatoshiNotWhole)
            &&& sends && seed_file is Some && to is Some && zatoshi is Some && spelled(
                zatoshi->0,
            ) is Some && spelled(zatoshi->0)->0 <= 0xFFFF_FFFF_FFFF_FFFF ==> asked(args) == Ok::<
                CommandView,
                CliError,
            >(
                CommandView::Send {
                    seed_file: seed_file->0,
                    to: to->0,
                    zatoshi: spelled(zatoshi->0)->0,
                    memo,
                    data,
                },
            )
        }),
{
    reveal_strlit("new");
    reveal_strlit("scan");
    reveal_strlit("send");
    assert("new"@.len() != "scan"@.len());
    assert("new"@.len() != "send"@.len());
    assert("scan"@[1] != "send"@[1]);
}

/// Testnet is asked for by its flag and not otherwise.
pub proof fn testnet_is_asked_for(args: Seq<Seq<char>>)
    ensures
        network_asked(args) == Network::TestNetwork <==> exists|i: int|
            0 <= i < args.len() && #[trigger] args[i] == "--testnet"@,
        network_asked(args) != Network::TestNetwork ==> network_asked(args) == Network::MainNetwork,
{
}

/// A command is seen as it was asked for.
pub proof fn a_command_is_seen_as_it_was_asked_for(
    ufvk: String,
    birthday: u32,
    data: String,
    seed_file: String,
    to: String,
    zatoshi: u64,
    memo: String,
)
    ensures
        Command::New@ == CommandView::New,
        (Command::Scan { ufvk, birthday, data })@ == (CommandView::Scan {
            ufvk: ufvk@,
            birthday: birthday as nat,
            data: data@,
        }),
        (Command::Send { seed_file, to, zatoshi, memo, data })@ == (CommandView::Send {
            seed_file: seed_file@,
            to: to@,
            zatoshi: zatoshi as nat,
            memo: memo@,
            data: data@,
        }),
{
}

/// What is said of a command line that is refused.
pub proof fn what_is_said_of_a_command_line()
    ensures
        cli_error_text(CliError::Usage)
            == "usage:\n  ring-wallet [--testnet] new\n  ring-wallet [--testnet] scan --ufvk <key> --birthday <height> [--data <dir>]\n  ring-wallet [--testnet] send --seed-file <path> --to <addr> --zatoshi <n> [--memo <text>] [--data <dir>]"@,
        cli_error_text(CliError::UfvkRequired) == "--ufvk is required"@,
        cli_error_text(CliError::BirthdayRequired)
            == "--birthday is required: the height the wallet was made"@,
        cli_error_text(CliError::BirthdayNotAHeight) == "--birthday must be a block height"@,
        cli_error_text(CliError::SeedFileRequired) == "--seed-file is required"@,
        cli_error_text(CliError::ToRequired) == "--to is required"@,
        cli_error_text(CliError::ZatoshiRequired) == "--zatoshi is required"@,
        cli_error_text(CliError::ZatoshiNotWhole)
            == "--zatoshi must be a whole number of zatoshi"@,
{
}

}
