use vstd::prelude::*;
use vstd::utf8::{decode_utf8, valid_utf8};
use crate::error::JujuError;
use crate::text::string_views;

verus! {

/// What one run of a tool left behind.
#[derive(Debug)]
pub struct CommandOutcome {
    /// The tool ended with exit status zero.
    pub succeeded: bool,
    /// What the tool wrote to its standard output.
    pub stdout: Vec<u8>,
    /// What the tool wrote to its standard error.
    pub stderr: Vec<u8>,
}

/// The program that is started for a tool: the tool itself, or the
/// privilege-escalation wrapper.
pub open spec fn program_of(command: Seq<char>, as_root: bool) -> Seq<char> {
    if as_root {
        "sudo"@
    } else {
        command
    }
}

/// The arguments that the program is started with: the tool's own, after the
/// tool's name where the wrapper is what is started.
pub open spec fn argv_of(command: Seq<char>, args: Seq<Seq<char>>, as_root: bool) -> Seq<
    Seq<char>,
> {
    if as_root {
        seq![command] + args
    } else {
        args
    }
}

/// The process runner can be called on every program and argument list.
pub open spec fn accepts_all<S: Fn(&str, &Vec<String>) -> Result<CommandOutcome, JujuError>>(
    spawn: S,
) -> bool {
    forall|program: &str, argv: &Vec<String>| call_requires(spawn, (program, argv))
}

/// `out` is what the process runner gave for one run of the tool `command`
/// with the arguments `args`, elevated or not.
pub open spec fn ran<S: Fn(&str, &Vec<String>) -> Result<CommandOutcome, JujuError>>(
    spawn: S,
    command: Seq<char>,
    args: Seq<Seq<char>>,
    as_root: bool,
    out: Result<CommandOutcome, JujuError>,
) -> bool {
    exists|program: &str, argv: Vec<String>|
        {
            &&& program@ == program_of(command, as_root)
            &&& string_views(argv@) == argv_of(command, args, as_root)
            &&& #[trigger] call_ensures(spawn, (program, &argv), out)
        }
}

/// Runs a tool once through the process runner and hands back what the
/// runner gave. With `as_root` the privilege-escalation wrapper is started,
/// with the tool's name as its first argument.
pub fn run_command<S: Fn(&str, &Vec<String>) -> Result<CommandOutcome, JujuError>>(
    spawn: &S,
    command: &str,
    arg_list: &Vec<String>,
    as_root: bool,
) -> (r: Result<CommandOutcome, JujuError>)
    requires
        accepts_all(*spawn),
    ensures
        ran(*spawn, command@, string_views(arg_list@), as_root, r),
{
    if as_root {
        let mut argv: Vec<String> = Vec::new();
        argv.push(command.to_owned());
        let mut i: usize = 0;
        while i < arg_list.len()
            invariant
                i <= arg_list.len(),
                string_views(argv@) == seq![command@] + string_views(arg_list@).take(i as int),
            decreases arg_list.len() - i,
        {
            let ghost before = string_views(argv@);
            argv.push(arg_list[i].clone());
            proof {
                assert(string_views(argv@) =~= before.push(arg_list@[i as int]@));
                assert(string_views(arg_list@).take(i + 1) =~= string_views(arg_list@).take(
                    i as int,
                ).push(arg_list@[i as int]@));
                assert(string_views(argv@) =~= seq![command@] + string_views(arg_list@).take(
                    i + 1,
                ));
            }
            i += 1;
        }
        proof {
            assert(string_views(arg_list@).take(i as int) =~= string_views(arg_list@));
        }
        let r = spawn("sudo", &argv);
        proof {
            assert(call_ensures(*spawn, ("sudo", &argv), r));
        }
        r
    } else {
        let argv = arg_list.clone();
        proof {
            assert(string_views(argv@) =~= string_views(arg_list@));
        }
        let r = spawn(command, &argv);
        proof {
            assert(call_ensures(*spawn, (command, &argv), r));
        }
        r
    }
}

/// Runs a tool that takes no arguments.
pub fn run_command_no_args<S: Fn(&str, &Vec<String>) -> Result<CommandOutcome, JujuError>>(
    spawn: &S,
    command: &str,
    as_root: bool,
) -> (r: Result<CommandOutcome, JujuError>)
    requires
        accepts_all(*spawn),
    ensures
        ran(*spawn, command@, Seq::empty(), as_root, r),
{
    let none: Vec<String> = Vec::new();
    proof {
        assert(string_views(none@) =~= Seq::<Seq<char>>::empty());
    }
    run_command(spawn, command, &none, as_root)
}

/// `String::from_utf8`: the text that the bytes encode, where they are
/// well-formed UTF-8, and nothing where they are not.
#[verifier::external_body]
fn string_from_utf8(bytes: Vec<u8>) -> (r: Option<String>)
    ensures
        r is Some <==> valid_utf8(bytes@),
        r is Some ==> r->0@ == decode_utf8(bytes@),
{
    String::from_utf8(bytes).ok()
}

/// `r` is the decoding of `bytes`: their text, or the failure to decode.
pub open spec fn decoded(bytes: Seq<u8>, r: Result<String, JujuError>) -> bool {
    match r {
        Ok(s) => valid_utf8(bytes) && s@ == decode_utf8(bytes),
        Err(e) => !valid_utf8(bytes) && e is FromUtf8Error && e.message() == "invalid utf-8"@,
    }
}

/// Decodes captured bytes as UTF-8 text, without loss or substitution.
pub fn decode_text(bytes: Vec<u8>) -> (r: Result<String, JujuError>)
    ensures
        decoded(bytes@, r),
{
    match string_from_utf8(bytes) {
        Some(s) => Ok(s),
        None => Err(JujuError::FromUtf8Error("invalid utf-8".to_owned())),
    }
}

/// `r` reports how the tool ended: zero for success, else a process failure
/// with the text of its standard error, or the failure to decode that text.
pub open spec fn exit_reported(output: CommandOutcome, r: Result<i32, JujuError>) -> bool {
    match r {
        Ok(n) => output.succeeded && n == 0,
        Err(e) => !output.succeeded && if valid_utf8(output.stderr@) {
            e is IoError && e.message() == decode_utf8(output.stderr@)
        } else {
            e is FromUtf8Error && e.message() == "invalid utf-8"@
        },
    }
}

/// Turns the outcome of a run into success or a typed failure.
pub fn process_output(output: CommandOutcome) -> (r: Result<i32, JujuError>)
    ensures
        exit_reported(output, r),
{
    if output.succeeded {
        Ok(0)
    } else {
        match decode_text(output.stderr) {
            Ok(message) => Err(JujuError::new(message)),
            Err(e) => Err(e),
        }
    }
}

} // verus!
