//! The command line: `show`, `type <char>`, or the daemon with its flags.
//!
//! The arguments are handed over without the program name. Printing usage and errors,
//! loading `config.toml` and exiting happen outside the library.

use vstd::prelude::*;
use crate::text::{str_eq, parse_u64, unsigned_literal, first_char_of};

verus! {

/// A daemon flag that takes a value.
#[derive(Clone, Copy, PartialEq, Eq, Structural, Debug)]
pub enum ValueFlag {
    Config,
    Timeout,
    Size,
    Monitor,
    Corner,
}

/// Daemon flags as given on the command line (unset when absent).
#[derive(Clone, Debug)]
pub struct CliFlags {
    pub layers: Option<String>,
    pub timeout: Option<u64>,
    pub size: Option<String>,
    pub verbose: Option<bool>,
    pub monitor: Option<String>,
    pub corner: Option<String>,
}

/// Why the command line was refused.
#[derive(Clone, Debug)]
pub enum CliError {
    /// `type` with an empty argument.
    TypeNotOneChar,
    /// `type` with no argument.
    TypeMissingChar,
    /// A value flag at the end of the line.
    MissingValue(ValueFlag),
    /// `--timeout` with a value that is not a decimal `u64`.
    TimeoutNotNumber,
    /// An argument that is no flag.
    UnknownArgument(String),
}

/// What the command line asks for.
#[derive(Clone, Debug)]
pub enum Invocation {
    /// Re-show the overlay of the running daemon.
    Show,
    /// Type `ch` through the running daemon; `verbose` when `-v`/`--verbose` came
    /// before it, `extra` when the argument had more characters (warned about).
    Type { ch: char, verbose: bool, extra: bool },
    /// Run the daemon with these flags.
    Daemon(CliFlags),
    /// Print the usage and exit successfully.
    Help,
    /// Print the error (and usage) and exit with failure.
    Fail(CliError),
}

/// Daemon flags as a model.
pub struct FlagsModel {
    pub layers: Option<Seq<char>>,
    pub timeout: Option<u64>,
    pub size: Option<Seq<char>>,
    pub verbose: Option<bool>,
    pub monitor: Option<Seq<char>>,
    pub corner: Option<Seq<char>>,
}

/// Why the command line was refused, as a model.
pub enum CliErrorModel {
    TypeNotOneChar,
    TypeMissingChar,
    MissingValue(ValueFlag),
    TimeoutNotNumber,
    UnknownArgument(Seq<char>),
}

/// What the command line asks for, as a model.
pub enum InvocationModel {
    Show,
    Type { ch: char, verbose: bool, extra: bool },
    Daemon(FlagsModel),
    Help,
    Fail(CliErrorModel),
}

/// The optional string seen as an optional character sequence.
pub open spec fn opt_chars(o: Option<String>) -> Option<Seq<char>> {
    match o {
        Some(s) => Some(s@),
        None => None,
    }
}

impl View for CliFlags {
    type V = FlagsModel;

    open spec fn view(&self) -> FlagsModel {
        FlagsModel {
            layers: opt_chars(self.layers),
            timeout: self.timeout,
            size: opt_chars(self.size),
            verbose: self.verbose,
            monitor: opt_chars(self.monitor),
            corner: opt_chars(self.corner),
        }
    }
}

impl View for CliError {
    type V = CliErrorModel;

    open spec fn view(&self) -> CliErrorModel {
        match self {
            CliError::TypeNotOneChar => CliErrorModel::TypeNotOneChar,
            CliError::TypeMissingChar => CliErrorModel::TypeMissingChar,
            CliError::MissingValue(f) => CliErrorModel::MissingValue(*f),
            CliError::TimeoutNotNumber => CliErrorModel::TimeoutNotNumber,
            CliError::UnknownArgument(a) => CliErrorModel::UnknownArgument(a@),
        }
    }
}

impl View for Invocation {
    type V = InvocationModel;

    open spec fn view(&self) -> InvocationModel {
        match self {
            Invocation::Show => InvocationModel::Show,
            Invocation::Type { ch, verbose, extra } => InvocationModel::Type { ch: *ch, verbose: *verbose, extra: *extra },
            Invocation::Daemon(f) => InvocationModel::Daemon(f@),
            Invocation::Help => InvocationModel::Help,
            Invocation::Fail(e) => InvocationModel::Fail(e@),
        }
    }
}

/// Whether `a` is `-v` or `--verbose`.
pub open spec fn is_verbose_flag(a: Seq<char>) -> bool {
    a == "--verbose"@ || a == "-v"@
}

/// The value flag `a` spells, if any: `--config`/`-c`, `--timeout`/`-t`,
/// `--size`/`-s`, `--monitor`/`-m`, `--corner`.
pub open spec fn value_flag(a: Seq<char>) -> Option<ValueFlag> {
    if a == "--config"@ || a == "-c"@ {
        Some(ValueFlag::Config)
    } else if a == "--timeout"@ || a == "-t"@ {
        Some(ValueFlag::Timeout)
    } else if a == "--size"@ || a == "-s"@ {
        Some(ValueFlag::Size)
    } else if a == "--monitor"@ || a == "-m"@ {
        Some(ValueFlag::Monitor)
    } else if a == "--corner"@ {
        Some(ValueFlag::Corner)
    } else {
        None
    }
}

/// `acc` with the value flag `f` set from `v` (None: the value is refused).
pub open spec fn with_value(acc: FlagsModel, f: ValueFlag, v: Seq<char>) -> Option<FlagsModel> {
    match f {
        ValueFlag::Config => Some(FlagsModel { layers: Some(v), ..acc }),
        ValueFlag::Timeout => match unsigned_literal(v) {
            Some(n) => if 0 <= n <= u64::MAX { Some(FlagsModel { timeout: Some(n as u64), ..acc }) } else { None },
            None => None,
        },
        ValueFlag::Size => Some(FlagsModel { size: Some(v), ..acc }),
        ValueFlag::Monitor => Some(FlagsModel { monitor: Some(v), ..acc }),
        ValueFlag::Corner => Some(FlagsModel { corner: Some(v), ..acc }),
    }
}

/// The daemon flags read from `args[i..]` on top of `acc`, left to right: a value
/// flag takes the next argument whatever it is, `-h`/`--help` asks for the usage, and
/// the first problem refuses the line.
pub open spec fn daemon_flags(args: Seq<Seq<char>>, i: int, acc: FlagsModel) -> InvocationModel
    decreases args.len() - i,
{
    if i < 0 || i >= args.len() {
        InvocationModel::Daemon(acc)
    } else {
        let a = args[i];
        if is_verbose_flag(a) {
            daemon_flags(args, i + 1, FlagsModel { verbose: Some(true), ..acc })
        } else if value_flag(a) is Some {
            let f = value_flag(a)->0;
            if i + 1 >= args.len() {
                InvocationModel::Fail(CliErrorModel::MissingValue(f))
            } else {
                match with_value(acc, f, args[i + 1]) {
                    Some(next) => daemon_flags(args, i + 2, next),
                    None => InvocationModel::Fail(CliErrorModel::TimeoutNotNumber),
                }
            }
        } else if a == "--help"@ || a == "-h"@ {
            InvocationModel::Help
        } else {
            InvocationModel::Fail(CliErrorModel::UnknownArgument(a))
        }
    }
}

/// `type` with `args[i..]` after it: leading `-v`/`--verbose` flags, then the
/// character argument, of which the first character is taken (later arguments are
/// ignored).
pub open spec fn type_invocation(args: Seq<Seq<char>>, i: int, verbose: bool) -> InvocationModel
    decreases args.len() - i,
{
    if i < 0 || i >= args.len() {
        InvocationModel::Fail(CliErrorModel::TypeMissingChar)
    } else if is_verbose_flag(args[i]) {
        type_invocation(args, i + 1, true)
    } else if args[i].len() == 0 {
        InvocationModel::Fail(CliErrorModel::TypeNotOneChar)
    } else {
        InvocationModel::Type { ch: args[i][0], verbose, extra: args[i].len() > 1 }
    }
}

/// No daemon flag set.
pub open spec fn no_flags() -> FlagsModel {
    FlagsModel { layers: None, timeout: None, size: None, verbose: None, monitor: None, corner: None }
}

/// What a command line (without the program name) asks for: `show` and `type` as
/// first argument select the client commands, anything else runs the daemon.
pub open spec fn invocation_of(args: Seq<Seq<char>>) -> InvocationModel {
    if args.len() > 0 && args[0] == "show"@ {
        InvocationModel::Show
    } else if args.len() > 0 && args[0] == "type"@ {
        type_invocation(args, 1, false)
    } else {
        daemon_flags(args, 0, no_flags())
    }
}

proof fn lemma_reveal_flags()
    ensures
        "--verbose"@ =~= seq!['-', '-', 'v', 'e', 'r', 'b', 'o', 's', 'e'],
        "-v"@ =~= seq!['-', 'v'],
        "--config"@ =~= seq!['-', '-', 'c', 'o', 'n', 'f', 'i', 'g'],
        "-c"@ =~= seq!['-', 'c'],
        "--timeout"@ =~= seq!['-', '-', 't', 'i', 'm', 'e', 'o', 'u', 't'],
        "-t"@ =~= seq!['-', 't'],
        "--size"@ =~= seq!['-', '-', 's', 'i', 'z', 'e'],
        "-s"@ =~= seq!['-', 's'],
        "--monitor"@ =~= seq!['-', '-', 'm', 'o', 'n', 'i', 't', 'o', 'r'],
        "-m"@ =~= seq!['-', 'm'],
        "--corner"@ =~= seq!['-', '-', 'c', 'o', 'r', 'n', 'e', 'r'],
        "--help"@ =~= seq!['-', '-', 'h', 'e', 'l', 'p'],
        "-h"@ =~= seq!['-', 'h'],
        "show"@ =~= seq!['s', 'h', 'o', 'w'],
        "type"@ =~= seq!['t', 'y', 'p', 'e'],
{
    reveal_strlit("--verbose");
    reveal_strlit("-v");
    reveal_strlit("--config");
    reveal_strlit("-c");
    reveal_strlit("--timeout");
    reveal_strlit("-t");
    reveal_strlit("--size");
    reveal_strlit("-s");
    reveal_strlit("--monitor");
    reveal_strlit("-m");
    reveal_strlit("--corner");
    reveal_strlit("--help");
    reveal_strlit("-h");
    reveal_strlit("show");
    reveal_strlit("type");
}

/// The daemon flags that `flag v`, alone on the command line, gives.
proof fn lemma_single_flag(flag: Seq<char>, v: Seq<char>)
    requires
        value_flag(flag) is Some,
        flag != "show"@,
        flag != "type"@,
        !is_verbose_flag(flag),
    ensures
        invocation_of(seq![flag, v]) == (match with_value(no_flags(), value_flag(flag)->0, v) {
            Some(f) => InvocationModel::Daemon(f),
            None => InvocationModel::Fail(CliErrorModel::TimeoutNotNumber),
        }),
{
    let args = seq![flag, v];
    assert(args[0] == flag && args[1] == v);
    assert(invocation_of(args) == daemon_flags(args, 0, no_flags()));
    match with_value(no_flags(), value_flag(flag)->0, v) {
        Some(f) => {
            assert(daemon_flags(args, 2, f) == InvocationModel::Daemon(f));
        },
        None => {},
    }
}

/// Each daemon flag, long or short spelling, sets its own setting and no other: alone
/// with a value `v`, `--config`/`-c` give the layers path `v`, `--size`/`-s` the size
/// `v`, `--monitor`/`-m` the monitor `v`, `--corner` the corner `v`, and
/// `--timeout`/`-t` the timeout `v` reads as (refused when it is no decimal number);
/// `-v`/`--verbose` alone turns on verbose logging; `-h`/`--help` asks for the usage.
pub proof fn law_each_flag_sets_its_own_setting(v: Seq<char>)
    ensures
        invocation_of(seq!["--config"@, v]) == InvocationModel::Daemon(FlagsModel { layers: Some(v), ..no_flags() }),
        invocation_of(seq!["-c"@, v]) == InvocationModel::Daemon(FlagsModel { layers: Some(v), ..no_flags() }),
        invocation_of(seq!["--size"@, v]) == InvocationModel::Daemon(FlagsModel { size: Some(v), ..no_flags() }),
        invocation_of(seq!["-s"@, v]) == InvocationModel::Daemon(FlagsModel { size: Some(v), ..no_flags() }),
        invocation_of(seq!["--monitor"@, v]) == InvocationModel::Daemon(FlagsModel { monitor: Some(v), ..no_flags() }),
        invocation_of(seq!["-m"@, v]) == InvocationModel::Daemon(FlagsModel { monitor: Some(v), ..no_flags() }),
        invocation_of(seq!["--corner"@, v]) == InvocationModel::Daemon(FlagsModel { corner: Some(v), ..no_flags() }),
        invocation_of(seq!["--timeout"@, v]) == invocation_of(seq!["-t"@, v]),
        invocation_of(seq!["-t"@, v]) == (match unsigned_literal(v) {
            Some(n) => if 0 <= n <= u64::MAX {
                InvocationModel::Daemon(FlagsModel { timeout: Some(n as u64), ..no_flags() })
            } else {
                InvocationModel::Fail(CliErrorModel::TimeoutNotNumber)
            },
            None => InvocationModel::Fail(CliErrorModel::TimeoutNotNumber),
        }),
        invocation_of(seq!["-v"@]) == InvocationModel::Daemon(FlagsModel { verbose: Some(true), ..no_flags() }),
        invocation_of(seq!["--verbose"@]) == InvocationModel::Daemon(FlagsModel { verbose: Some(true), ..no_flags() }),
        invocation_of(seq!["-h"@]) == InvocationModel::Help,
        invocation_of(seq!["--help"@]) == InvocationModel::Help,
{
    lemma_reveal_flags();
    lemma_single_flag("--config"@, v);
    lemma_single_flag("-c"@, v);
    lemma_single_flag("--size"@, v);
    lemma_single_flag("-s"@, v);
    lemma_single_flag("--monitor"@, v);
    lemma_single_flag("-m"@, v);
    lemma_single_flag("--corner"@, v);
    lemma_single_flag("--timeout"@, v);
    lemma_single_flag("-t"@, v);
    let a = seq!["-v"@];
    assert(daemon_flags(a, 1, FlagsModel { verbose: Some(true), ..no_flags() })
        == InvocationModel::Daemon(FlagsModel { verbose: Some(true), ..no_flags() }));
    let b = seq!["--verbose"@];
    assert(daemon_flags(b, 1, FlagsModel { verbose: Some(true), ..no_flags() })
        == InvocationModel::Daemon(FlagsModel { verbose: Some(true), ..no_flags() }));
    assert(seq!["-h"@][0] == "-h"@);
    assert(seq!["--help"@][0] == "--help"@);
}

/// The arguments as character sequences.
pub open spec fn arg_views(args: Seq<String>) -> Seq<Seq<char>> {
    args.map_values(|a: String| a@)
}

fn is_verbose_arg(a: &str) -> (r: bool)
    ensures
        r == is_verbose_flag(a@),
{
    str_eq(a, "--verbose") || str_eq(a, "-v")
}

fn value_flag_of(a: &str) -> (r: Option<ValueFlag>)
    ensures
        r == value_flag(a@),
{
    if str_eq(a, "--config") || str_eq(a, "-c") {
        Some(ValueFlag::Config)
    } else if str_eq(a, "--timeout") || str_eq(a, "-t") {
        Some(ValueFlag::Timeout)
    } else if str_eq(a, "--size") || str_eq(a, "-s") {
        Some(ValueFlag::Size)
    } else if str_eq(a, "--monitor") || str_eq(a, "-m") {
        Some(ValueFlag::Monitor)
    } else if str_eq(a, "--corner") {
        Some(ValueFlag::Corner)
    } else {
        None
    }
}

fn parse_type(args: &Vec<String>) -> (r: Invocation)
    requires
        args@.len() > 0,
    ensures
        r@ == type_invocation(arg_views(args@), 1, false),
{
    let ghost av = arg_views(args@);
    let mut i: usize = 1;
    let mut verbose = false;
    while i < args.len() && is_verbose_arg(args[i].as_str())
        invariant
            av == arg_views(args@),
            1 <= i <= args@.len(),
            type_invocation(av, 1, false) == type_invocation(av, i as int, verbose),
        decreases args@.len() - i,
    {
        assert(av[i as int] == args@[i as int]@);
        verbose = true;
        i += 1;
    }
    if i >= args.len() {
        return Invocation::Fail(CliError::TypeMissingChar);
    }
    assert(av[i as int] == args@[i as int]@);
    let arg = args[i].as_str();
    match first_char_of(arg) {
        None => Invocation::Fail(CliError::TypeNotOneChar),
        Some(ch) => {
            let extra = arg.unicode_len() > 1;
            Invocation::Type { ch, verbose, extra }
        },
    }
}

/// Reads the command line (without the program name), see [`invocation_of`].
pub fn parse_args(args: &Vec<String>) -> (r: Invocation)
    ensures
        r@ == invocation_of(arg_views(args@)),
{
    let ghost av = arg_views(args@);
    if args.len() > 0 {
        assert(av[0] == args@[0]@);
        if str_eq(args[0].as_str(), "show") {
            return Invocation::Show;
        }
        if str_eq(args[0].as_str(), "type") {
            return parse_type(args);
        }
    }
    let mut flags = CliFlags { layers: None, timeout: None, size: None, verbose: None, monitor: None, corner: None };
    let mut i: usize = 0;
    assert(flags@ == no_flags());
    assert(invocation_of(av) == daemon_flags(av, 0, no_flags()));
    while i < args.len()
        invariant
            av == arg_views(args@),
            invocation_of(av) == daemon_flags(av, 0, no_flags()),
            i <= args@.len(),
            daemon_flags(av, 0, no_flags()) == daemon_flags(av, i as int, flags@),
        decreases args@.len() - i,
    {
        let a = args[i].as_str();
        assert(av[i as int] == a@);
        if is_verbose_arg(a) {
            flags.verbose = Some(true);
            i += 1;
            continue;
        }
        match value_flag_of(a) {
            Some(f) => {
                if i + 1 >= args.len() {
                    return Invocation::Fail(CliError::MissingValue(f));
                }
                let v = &args[i + 1];
                assert(av[i + 1] == v@);
                match f {
                    ValueFlag::Config => {
                        flags.layers = Some(v.clone());
                    },
                    ValueFlag::Timeout => {
                        match parse_u64(v.as_str()) {
                            Some(n) => {
                                flags.timeout = Some(n);
                            },
                            None => {
                                return Invocation::Fail(CliError::TimeoutNotNumber);
                            },
                        }
                    },
                    ValueFlag::Size => {
                        flags.size = Some(v.clone());
                    },
                    ValueFlag::Monitor => {
                        flags.monitor = Some(v.clone());
                    },
                    ValueFlag::Corner => {
                        flags.corner = Some(v.clone());
                    },
                }
                i += 2;
            },
            None => {
                if str_eq(a, "--help") || str_eq(a, "-h") {
                    return Invocation::Help;
                }
                return Invocation::Fail(CliError::UnknownArgument(args[i].clone()));
            },
        }
    }
    Invocation::Daemon(flags)
}

} // verus!
