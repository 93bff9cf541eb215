use vstd::prelude::*;

verus! {

/// The five operations, each named by a one-letter token.
#[derive(Clone, Copy, Debug, PartialEq, Eq, Structural)]
pub enum Command {
    /// `c`: record paths in the store.
    Clip,
    /// `l`: show the store.
    List,
    /// `e`: delete the store.
    Erase,
    /// `v`: copy the stored paths into a directory.
    Paste,
    /// `m`: copy the stored paths into a directory, then remove them.
    Move,
}

/// Why a command line cannot run.
#[derive(Clone, Debug, PartialEq, Eq)]
pub enum CommandError {
    /// No command token was given.
    MissingCommand,
    /// The token names none of the commands.
    UnknownCommand(String),
    /// The command takes `expected` arguments and was given `given`.
    WrongArgumentCount { expected: usize, given: usize },
}

/// The command that a token names.
pub open spec fn command_spec(token: Seq<char>) -> Option<Command> {
    if token == seq!['c'] {
        Some(Command::Clip)
    } else if token == seq!['l'] {
        Some(Command::List)
    } else if token == seq!['e'] {
        Some(Command::Erase)
    } else if token == seq!['v'] {
        Some(Command::Paste)
    } else if token == seq!['m'] {
        Some(Command::Move)
    } else {
        None
    }
}

/// The command that `token` names, if any.
pub fn command_of(token: &str) -> (r: Option<Command>)
    ensures
        r == command_spec(token@),
{
    if token.unicode_len() != 1 {
        proof {
            if token@.len() != 1 {
                assert(token@ != seq!['c'] && token@ != seq!['l'] && token@ != seq!['e']);
                assert(token@ != seq!['v'] && token@ != seq!['m']);
            }
        }
        return None;
    }
    let c = token.get_char(0);
    assert(token@ == seq![c]);
    if c == 'c' {
        Some(Command::Clip)
    } else if c == 'l' {
        Some(Command::List)
    } else if c == 'e' {
        Some(Command::Erase)
    } else if c == 'v' {
        Some(Command::Paste)
    } else if c == 'm' {
        Some(Command::Move)
    } else {
        proof {
            assert(seq![c][0] == c);
            assert(seq!['c'][0] == 'c' && seq!['l'][0] == 'l' && seq!['e'][0] == 'e');
            assert(seq!['v'][0] == 'v' && seq!['m'][0] == 'm');
        }
        None
    }
}

/// Reads the command token, the first of `args` (the arguments that follow
/// the program's name). What follows the token is that command's own
/// argument list.
pub fn parse_command(args: &[String]) -> (r: Result<Command, CommandError>)
    ensures
        args@.len() == 0 ==> r == Err::<Command, CommandError>(CommandError::MissingCommand),
        args@.len() > 0 ==> match command_spec(args@[0]@) {
            Some(c) => r == Ok::<Command, CommandError>(c),
            None => (r matches Err(CommandError::UnknownCommand(t)) && t@ == args@[0]@),
        },
{
    if args.len() == 0 {
        return Err(CommandError::MissingCommand);
    }
    match command_of(args[0].as_str()) {
        Some(c) => Ok(c),
        None => Err(CommandError::UnknownCommand(args[0].clone())),
    }
}

/// Checks that exactly `n` arguments were given.
pub fn expect_n_arguments(arguments: &[String], n: usize) -> (r: Result<(), CommandError>)
    ensures
        arguments@.len() == n ==> r is Ok,
        arguments@.len() != n ==> r == Err::<(), CommandError>(
            CommandError::WrongArgumentCount { expected: n, given: arguments@.len() as usize },
        ),
{
    if arguments.len() != n {
        return Err(CommandError::WrongArgumentCount { expected: n, given: arguments.len() });
    }
    Ok(())
}

/// Checks that no argument was given.
pub fn expect_empty_arguments(arguments: &[String]) -> (r: Result<(), CommandError>)
    ensures
        arguments@.len() == 0 ==> r is Ok,
        arguments@.len() != 0 ==> r == Err::<(), CommandError>(
            CommandError::WrongArgumentCount { expected: 0, given: arguments@.len() as usize },
        ),
{
    expect_n_arguments(arguments, 0)
}

/// A paste or a move, as asked for: the directory to copy into, and whether
/// the originals go afterwards.
#[derive(Clone, Debug, PartialEq, Eq)]
pub struct TransferRequest {
    pub target: String,
    pub remove_afterwards: bool,
}

fn transfer_request(arguments: &[String], remove_afterwards: bool) -> (r: Result<
    TransferRequest,
    CommandError,
>)
    ensures
        arguments@.len() == 1 ==> (r matches Ok(t) && t.target@ == arguments@[0]@
            && t.remove_afterwards == remove_afterwards),
        arguments@.len() != 1 ==> r == Err::<TransferRequest, CommandError>(
            CommandError::WrongArgumentCount { expected: 1, given: arguments@.len() as usize },
        ),
{
    match expect_n_arguments(arguments, 1) {
        Ok(()) => Ok(TransferRequest { target: arguments[0].clone(), remove_afterwards }),
        Err(e) => Err(e),
    }
}

/// The arguments of `v`: one target directory. The originals stay.
pub fn paste_command(arguments: &[String]) -> (r: Result<TransferRequest, CommandError>)
    ensures
        arguments@.len() == 1 ==> (r matches Ok(t) && t.target@ == arguments@[0]@
            && !t.remove_afterwards),
        arguments@.len() != 1 ==> r == Err::<TransferRequest, CommandError>(
            CommandError::WrongArgumentCount { expected: 1, given: arguments@.len() as usize },
        ),
{
    transfer_request(arguments, false)
}

/// The arguments of `m`: one target directory. The originals go once copied.
pub fn move_command(arguments: &[String]) -> (r: Result<TransferRequest, CommandError>)
    ensures
        arguments@.len() == 1 ==> (r matches Ok(t) && t.target@ == arguments@[0]@
            && t.remove_afterwards),
        arguments@.len() != 1 ==> r == Err::<TransferRequest, CommandError>(
            CommandError::WrongArgumentCount { expected: 1, given: arguments@.len() as usize },
        ),
{
    transfer_request(arguments, true)
}

} // verus!
