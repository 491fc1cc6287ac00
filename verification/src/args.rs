//! The command line: root paths, an optional output file, ignore patterns.

use crate::config::texts;
use vstd::prelude::*;

verus! {

/// `clap::Command`: the description of a command line. Nothing inside it is visible here.
#[verifier::external_type_specification]
#[verifier::external_body]
pub struct ExCommand(clap::Command);

/// `clap::Arg`: the description of one argument. Nothing inside it is visible here.
#[verifier::external_type_specification]
#[verifier::external_body]
pub struct ExArg(clap::Arg);

/// `clap::ArgMatches`: a parsed command line. Nothing inside it is visible here.
#[verifier::external_type_specification]
#[verifier::external_body]
pub struct ExArgMatches(clap::ArgMatches);

/// What describes one argument of a command line.
pub struct ArgLayout {
    /// The name that the argument's values are found under.
    pub id: Seq<char>,
    /// The letter of its short flag; none for a free argument.
    pub short: Option<char>,
    /// The word of its long flag; none for a free argument.
    pub long: Option<Seq<char>>,
    /// Whether the command line must give it.
    pub required: bool,
    /// The least and the most values that one occurrence takes, if set.
    pub values: Option<(usize, usize)>,
    /// Whether the values of every occurrence are kept, one after another.
    pub append: bool,
    /// How the help calls a value, if set.
    pub value_name: Option<Seq<char>>,
    /// The value that the flag without a value stands for, if set.
    pub default_missing: Option<Seq<char>>,
}

/// What describes a command line.
pub struct CommandLayout {
    /// The program's name.
    pub name: Seq<char>,
    /// The program's version, if set.
    pub version: Option<Seq<char>>,
    /// What the help says of the program, if set.
    pub about: Option<Seq<char>>,
    /// The arguments, in the order they were added.
    pub args: Seq<ArgLayout>,
}

/// What a `clap::Arg` was set up with.
pub uninterp spec fn arg_layout(arg: clap::Arg) -> ArgLayout;

/// What a `clap::Command` was set up with.
pub uninterp spec fn command_layout(command: clap::Command) -> CommandLayout;

/// What parsing the arguments against a command line of this layout gives:
/// the values found, by the name of their argument, or nothing where the
/// arguments are refused or ask for the help or the version.
pub uninterp spec fn parse_outcome(layout: CommandLayout, args: Seq<Seq<char>>) -> Option<
    Map<Seq<char>, Seq<Seq<char>>>,
>;

/// The values that a parsed command line holds, by the name of their
/// argument, each argument's values in the order they were given.
pub uninterp spec fn matched_values(matches: clap::ArgMatches) -> Map<Seq<char>, Seq<Seq<char>>>;

/// The values found under a name; none where the name holds nothing.
pub open spec fn values_of(found: Map<Seq<char>, Seq<Seq<char>>>, id: Seq<char>) -> Seq<
    Seq<char>,
> {
    if found.contains_key(id) {
        found[id]
    } else {
        Seq::empty()
    }
}

/// The text of each argument of a command line.
pub open spec fn arg_texts<'a>(args: Seq<&'a str>) -> Seq<Seq<char>> {
    Seq::new(args.len(), |i: int| args[i]@)
}

/// An argument with nothing set but its name.
pub open spec fn bare_arg(id: Seq<char>) -> ArgLayout {
    ArgLayout {
        id,
        short: None,
        long: None,
        required: false,
        values: None,
        append: false,
        value_name: None,
        default_missing: None,
    }
}

/// A free argument that must be given and takes one value or more.
pub open spec fn required_list(id: Seq<char>) -> ArgLayout {
    ArgLayout { required: true, values: Some((1usize, usize::MAX)), append: true, ..bare_arg(id) }
}

/// The layout of this program's command line: the paths as required free
/// arguments; `-o`/`--output` with at most one value, which stands for the
/// default output file when the value is left out; `-i`/`--ignore` with one
/// value or more.
pub open spec fn cli_layout() -> CommandLayout {
    CommandLayout {
        name: PROGRAM_NAME@,
        version: Some(PROGRAM_VERSION@),
        about: Some(PROGRAM_ABOUT@),
        args: seq![
            required_list("paths"@),
            ArgLayout {
                short: Some('o'),
                long: Some("output"@),
                values: Some((0usize, 1usize)),
                value_name: Some("FILE"@),
                default_missing: Some(DEFAULT_OUTPUT@),
                ..bare_arg("output"@)
            },
            ArgLayout {
                short: Some('i'),
                long: Some("ignore"@),
                values: Some((1usize, usize::MAX)),
                append: true,
                value_name: Some("PATTERN"@),
                ..bare_arg("ignore"@)
            },
        ],
    }
}

/// The program's name on the command line.
pub const PROGRAM_NAME: &'static str = "fcpy";

/// The program's version.
pub const PROGRAM_VERSION: &'static str = "0.1.0";

/// What the program says of itself in its help.
pub const PROGRAM_ABOUT: &'static str =
    "Fast command-line file concatenator with smart filtering, recursive scanning, and clipboard integration";

/// The output file that `-o` without a value stands for.
pub const DEFAULT_OUTPUT: &'static str = "paste.txt";

/// Calls `clap::Command::new`. The contract says that the command has the
/// name and nothing else.
#[verifier::external_body]
fn command_new(name: &'static str) -> (r: clap::Command)
    ensures
        command_layout(r) == (CommandLayout {
            name: name@,
            version: None,
            about: None,
            args: Seq::empty(),
        }),
{
    clap::Command::new(name)
}

/// Calls `clap::Command::version`. The contract says that it sets the
/// version and nothing else.
#[verifier::external_body]
fn command_version(command: clap::Command, version: &'static str) -> (r: clap::Command)
    ensures
        command_layout(r) == (CommandLayout {
            version: Some(version@),
            ..command_layout(command)
        }),
{
    command.version(version)
}

/// Calls `clap::Command::about`. The contract says that it sets the
/// description and nothing else.
#[verifier::external_body]
fn command_about(command: clap::Command, about: &'static str) -> (r: clap::Command)
    ensures
        command_layout(r) == (CommandLayout { about: Some(about@), ..command_layout(command) }),
{
    command.about(about)
}

/// Calls `clap::Command::arg`. The contract says that the argument comes
/// after those that the command has.
#[verifier::external_body]
fn command_arg(command: clap::Command, arg: clap::Arg) -> (r: clap::Command)
    ensures
        command_layout(r) == (CommandLayout {
            args: command_layout(command).args.push(arg_layout(arg)),
            ..command_layout(command)
        }),
{
    command.arg(arg)
}

/// Calls `clap::Arg::new`. The contract says that the argument has the name
/// and nothing else.
#[verifier::external_body]
fn arg_new(id: &'static str) -> (r: clap::Arg)
    ensures
        arg_layout(r) == bare_arg(id@),
{
    clap::Arg::new(id)
}

/// Calls `clap::Arg::short`, which refuses `-`. The contract says that it
/// sets the short flag and nothing else.
#[verifier::external_body]
fn arg_short(arg: clap::Arg, short: char) -> (r: clap::Arg)
    requires
        short != '-',
    ensures
        arg_layout(r) == (ArgLayout { short: Some(short), ..arg_layout(arg) }),
{
    arg.short(short)
}

/// Calls `clap::Arg::long`. The contract says that it sets the long flag and
/// nothing else.
#[verifier::external_body]
fn arg_long(arg: clap::Arg, long: &'static str) -> (r: clap::Arg)
    ensures
        arg_layout(r) == (ArgLayout { long: Some(long@), ..arg_layout(arg) }),
{
    arg.long(long)
}

/// Calls `clap::Arg::required`. The contract says that it sets whether the
/// argument must be given and nothing else.
#[verifier::external_body]
fn arg_required(arg: clap::Arg, yes: bool) -> (r: clap::Arg)
    ensures
        arg_layout(r) == (ArgLayout { required: yes, ..arg_layout(arg) }),
{
    arg.required(yes)
}

/// Calls `clap::Arg::num_args` with an inclusive range, which clap refuses
/// where the range is empty. The contract says that it sets the range and
/// nothing else.
#[verifier::external_body]
fn arg_num_args(arg: clap::Arg, least: usize, most: usize) -> (r: clap::Arg)
    requires
        least <= most,
    ensures
        arg_layout(r) == (ArgLayout { values: Some((least, most)), ..arg_layout(arg) }),
{
    arg.num_args(least..=most)
}

/// Calls `clap::Arg::action` with `ArgAction::Append`. The contract says
/// that it makes the argument keep every occurrence and nothing else.
#[verifier::external_body]
fn arg_append(arg: clap::Arg) -> (r: clap::Arg)
    ensures
        arg_layout(r) == (ArgLayout { append: true, ..arg_layout(arg) }),
{
    arg.action(clap::ArgAction::Append)
}

/// Calls `clap::Arg::value_name`. The contract says that it sets the name of
/// a value and nothing else.
#[verifier::external_body]
fn arg_value_name(arg: clap::Arg, name: &'static str) -> (r: clap::Arg)
    ensures
        arg_layout(r) == (ArgLayout { value_name: Some(name@), ..arg_layout(arg) }),
{
    arg.value_name(name)
}

/// Calls `clap::Arg::default_missing_value`. The contract says that it sets
/// the value that the flag alone stands for and nothing else.
#[verifier::external_body]
fn arg_default_missing(arg: clap::Arg, value: &'static str) -> (r: clap::Arg)
    ensures
        arg_layout(r) == (ArgLayout { default_missing: Some(value@), ..arg_layout(arg) }),
{
    arg.default_missing_value(value)
}

/// Calls `clap::Command::try_get_matches_from`, here only on a command of
/// this program's layout: clap refuses a command whose arguments share a
/// name or a flag. The contract says that the outcome depends on the layout
/// and the arguments alone. A failure is handed on as its rendered text and
/// whether it is an error or a request for the help or the version; of
/// these nothing is promised.
#[verifier::external_body]
fn command_matches(command: clap::Command, args: &[&str]) -> (r: Result<
    clap::ArgMatches,
    ArgsError,
>)
    requires
        command_layout(command) == cli_layout(),
    ensures
        r is Ok <==> parse_outcome(command_layout(command), arg_texts(args@)) is Some,
        r is Ok ==> matched_values(r->Ok_0) == parse_outcome(
            command_layout(command),
            arg_texts(args@),
        )->Some_0,
{
    match command.try_get_matches_from(args.iter().copied()) {
        Ok(matches) => Ok(matches),
        Err(e) => Err(ArgsError { message: e.to_string(), is_error: e.use_stderr() }),
    }
}

/// Calls `clap::ArgMatches::try_get_many` for text values. The contract says
/// that it hands out the values held for the argument, in order.
#[verifier::external_body]
fn matches_values(matches: &clap::ArgMatches, id: &str) -> (r: Vec<String>)
    ensures
        texts(r@) == values_of(matched_values(*matches), id@),
{
    matches.try_get_many::<String>(id).ok().flatten().map(|v| v.cloned().collect()).unwrap_or_default()
}

/// Why the command line gave no arguments to run with.
#[derive(Debug)]
pub struct ArgsError {
    /// What to show the user.
    pub message: String,
    /// Whether the command line was wrong; otherwise the user asked for the
    /// help or the version, and `message` holds it.
    pub is_error: bool,
}

/// The arguments of one run.
#[derive(Debug)]
pub struct CliArgs {
    /// Paths to files or directories.
    pub paths: Vec<String>,
    /// The file to save the output to; the clipboard where there is none.
    pub output: Option<String>,
    /// Glob patterns of files and directories to leave out.
    pub ignore: Vec<String>,
}

impl CliArgs {
    /// Whether these arguments are the values found on a command line: every
    /// path and every ignore pattern in order, and the output file if one
    /// was given.
    pub open spec fn holds(&self, found: Map<Seq<char>, Seq<Seq<char>>>) -> bool {
        let outputs = values_of(found, "output"@);
        &&& texts(self.paths@) == values_of(found, "paths"@)
        &&& texts(self.ignore@) == values_of(found, "ignore"@)
        &&& match self.output {
            Some(file) => outputs.len() > 0 && file@ == outputs[0],
            None => outputs.len() == 0,
        }
    }

    /// Describes the command line: the paths as required free arguments,
    /// `-o`/`--output` with at most one value, `-i`/`--ignore` with one or
    /// more values.
    fn command() -> (r: clap::Command)
        ensures
            command_layout(r) == cli_layout(),
    {
        let paths = arg_append(arg_num_args(arg_required(arg_new("paths"), true), 1, usize::MAX));
        let output = arg_num_args(
            arg_default_missing(
                arg_value_name(arg_long(arg_short(arg_new("output"), 'o'), "output"), "FILE"),
                DEFAULT_OUTPUT,
            ),
            0,
            1,
        );
        let ignore = arg_append(
            arg_num_args(
                arg_value_name(arg_long(arg_short(arg_new("ignore"), 'i'), "ignore"), "PATTERN"),
                1,
                usize::MAX,
            ),
        );
        let command = command_about(
            command_version(command_new(PROGRAM_NAME), PROGRAM_VERSION),
            PROGRAM_ABOUT,
        );
        let built = command_arg(command_arg(command_arg(command, paths), output), ignore);
        assert(command_layout(built).args =~= cli_layout().args);
        built
    }

    /// Reads the arguments out of a parsed command line.
    pub fn from_matches(matches: &clap::ArgMatches) -> (r: CliArgs)
        ensures
            r.holds(matched_values(*matches)),
    {
        let paths = matches_values(matches, "paths");
        let mut outputs = matches_values(matches, "output");
        let ignore = matches_values(matches, "ignore");
        let output = if outputs.len() > 0 {
            Some(outputs.swap_remove(0))
        } else {
            None
        };
        CliArgs { paths, output, ignore }
    }

    /// Parses a command line, the program's name first, against this
    /// program's layout. It succeeds exactly where the parser accepts the
    /// arguments, and the arguments that come back are the values it found.
    pub fn parse_from(args: &[&str]) -> (r: Result<CliArgs, ArgsError>)
        ensures
            r is Ok <==> parse_outcome(cli_layout(), arg_texts(args@)) is Some,
            r is Ok ==> r->Ok_0.holds(parse_outcome(cli_layout(), arg_texts(args@))->Some_0),
    {
        match command_matches(CliArgs::command(), args) {
            Ok(matches) => {
                let parsed = CliArgs::from_matches(&matches);
                Ok(parsed)
            },
            Err(e) => Err(e),
        }
    }
}

} // verus!
