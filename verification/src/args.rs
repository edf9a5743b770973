//! The command line: a target directory followed by options.

use vstd::prelude::*;
use crate::text::{str_eq, views};

verus! {

/// How much the run logs.
#[derive(Debug, Clone, Copy, PartialEq, Eq, Structural)]
pub enum Verbosity {
    /// The main steps of the run.
    Info,
    /// Also each file path and its hash.
    Debug,
}

/// The settings of a run.
pub struct Options {
    /// The directory that holds the target file system (the first argument).
    pub target: String,
    /// The log level that `--verbose` asked for, if it was given.
    pub verbosity: Option<Verbosity>,
    /// Where `--file` asked the results to be written; empty when not given.
    pub output_file: String,
    /// The architecture of the target (`--arch`, else `x86_64`).
    pub arch: String,
    /// Whether `--symlink` asked that symbolic links be followed.
    pub symlink: bool,
    /// A second file system to compare with (`--user`); empty when not given.
    pub second_target: String,
}

/// What the command line asks for.
pub enum ArgsOutcome {
    /// `--help` appears: print the usage text.
    Help,
    /// Run with these settings.
    Run(Options),
    /// `--file` is the last argument.
    MissingFileName,
    /// `--arch` is the last argument.
    MissingArch,
    /// `--user` is the last argument.
    MissingSecondDirectory,
}

/// The settings of a run, as mathematical values.
pub struct OptionsView {
    pub target: Seq<char>,
    pub verbosity: Option<Verbosity>,
    pub output_file: Seq<char>,
    pub arch: Seq<char>,
    pub symlink: bool,
    pub second_target: Seq<char>,
}

/// What the command line asks for, as mathematical values.
pub enum ArgsOutcomeView {
    Help,
    Run(OptionsView),
    MissingFileName,
    MissingArch,
    MissingSecondDirectory,
}

impl View for Options {
    type V = OptionsView;

    open spec fn view(&self) -> OptionsView {
        OptionsView {
            target: self.target@,
            verbosity: self.verbosity,
            output_file: self.output_file@,
            arch: self.arch@,
            symlink: self.symlink,
            second_target: self.second_target@,
        }
    }
}

impl View for ArgsOutcome {
    type V = ArgsOutcomeView;

    open spec fn view(&self) -> ArgsOutcomeView {
        match self {
            ArgsOutcome::Help => ArgsOutcomeView::Help,
            ArgsOutcome::Run(o) => ArgsOutcomeView::Run(o@),
            ArgsOutcome::MissingFileName => ArgsOutcomeView::MissingFileName,
            ArgsOutcome::MissingArch => ArgsOutcomeView::MissingArch,
            ArgsOutcome::MissingSecondDirectory => ArgsOutcomeView::MissingSecondDirectory,
        }
    }
}

/// The first position at which `flag` stands in `args`.
pub open spec fn position_of(args: Seq<Seq<char>>, flag: Seq<char>) -> Option<int>
    decreases args.len(),
{
    if args.len() == 0 {
        None
    } else if args[0] == flag {
        Some(0)
    } else {
        match position_of(args.drop_first(), flag) {
            Some(i) => Some(i + 1),
            None => None,
        }
    }
}

/// What follows an option that takes a value.
pub enum FlagValue {
    /// The option is not given.
    Absent,
    /// The option is the last argument.
    Missing,
    /// The argument after the first occurrence of the option.
    Given(Seq<char>),
}

/// The value of the option `flag` in `args`.
pub open spec fn flag_value(args: Seq<Seq<char>>, flag: Seq<char>) -> FlagValue {
    match position_of(args, flag) {
        None => FlagValue::Absent,
        Some(i) => if i + 1 < args.len() {
            FlagValue::Given(args[i + 1])
        } else {
            FlagValue::Missing
        },
    }
}

/// The value given, or `default` when the option is absent.
pub open spec fn value_or(v: FlagValue, default: Seq<char>) -> Seq<char> {
    match v {
        FlagValue::Given(s) => s,
        _ => default,
    }
}

/// The log level that `--verbose` asks for: `2` means debug, any other
/// value, or none, means info.
pub open spec fn verbosity_of(args: Seq<Seq<char>>) -> Option<Verbosity> {
    match flag_value(args, "--verbose"@) {
        FlagValue::Absent => None,
        FlagValue::Missing => Some(Verbosity::Info),
        FlagValue::Given(v) => Some(
            if v == "2"@ {
                Verbosity::Debug
            } else {
                Verbosity::Info
            },
        ),
    }
}

/// What the command line `args` (the program name first) asks for.  `--help`
/// anywhere wins; then an option among `--file`, `--arch`, `--user`, in this
/// order, that lacks its value is reported.
pub open spec fn parsed_args(args: Seq<Seq<char>>) -> ArgsOutcomeView {
    if position_of(args, "--help"@) is Some {
        ArgsOutcomeView::Help
    } else if flag_value(args, "--file"@) is Missing {
        ArgsOutcomeView::MissingFileName
    } else if flag_value(args, "--arch"@) is Missing {
        ArgsOutcomeView::MissingArch
    } else if flag_value(args, "--user"@) is Missing {
        ArgsOutcomeView::MissingSecondDirectory
    } else {
        ArgsOutcomeView::Run(
            OptionsView {
                target: args[1],
                verbosity: verbosity_of(args),
                output_file: value_or(flag_value(args, "--file"@), Seq::<char>::empty()),
                arch: value_or(flag_value(args, "--arch"@), "x86_64"@),
                symlink: position_of(args, "--symlink"@) is Some,
                second_target: value_or(flag_value(args, "--user"@), Seq::<char>::empty()),
            },
        )
    }
}

/// The first position at which `flag` stands in `args`.
pub fn position(args: &Vec<String>, flag: &str) -> (r: Option<usize>)
    ensures
        match r {
            Some(i) => i < args.len() && position_of(views(args@), flag@) == Some(i as int),
            None => position_of(views(args@), flag@) is None,
        },
{
    let ghost all = views(args@);
    assert(all.skip(0) =~= all);
    let mut i: usize = 0;
    while i < args.len()
        invariant
            all == views(args@),
            i <= args.len(),
            position_of(all, flag@) == match position_of(all.skip(i as int), flag@) {
                Some(k) => Some(k + i),
                None => None::<int>,
            },
        decreases args.len() - i,
    {
        assert(all.skip(i as int)[0] == args@[i as int]@);
        if str_eq(args[i].as_str(), flag) {
            return Some(i);
        }
        assert(all.skip(i as int).drop_first() =~= all.skip(i + 1));
        i = i + 1;
    }
    assert(all.skip(i as int) =~= Seq::<Seq<char>>::empty());
    None
}

/// The value of the option `flag`: `Err(())` when it is the last argument.
fn option_value(args: &Vec<String>, flag: &str) -> (r: Result<Option<String>, ()>)
    ensures
        match r {
            Ok(Some(v)) => flag_value(views(args@), flag@) == FlagValue::Given(v@),
            Ok(None) => flag_value(views(args@), flag@) is Absent,
            Err(()) => flag_value(views(args@), flag@) is Missing,
        },
{
    match position(args, flag) {
        Some(i) => {
            if i < args.len() - 1 {
                Ok(Some(args[i + 1].clone()))
            } else {
                Err(())
            }
        },
        None => Ok(None),
    }
}

/// Reads the command line `args`, the program name first and the target
/// directory second.
pub fn parse_args(args: &Vec<String>) -> (r: ArgsOutcome)
    requires
        args.len() >= 2,
    ensures
        r@ == parsed_args(views(args@)),
{
    proof {
        reveal_strlit("2");
        reveal_strlit("x86_64");
    }
    let ghost a = views(args@);
    if position(args, "--help").is_some() {
        return ArgsOutcome::Help;
    }
    let verbosity = match option_value(args, "--verbose") {
        Ok(Some(v)) => Some(
            if str_eq(v.as_str(), "2") {
                Verbosity::Debug
            } else {
                Verbosity::Info
            },
        ),
        Ok(None) => None,
        Err(()) => Some(Verbosity::Info),
    };
    let output_file = match option_value(args, "--file") {
        Ok(Some(v)) => v,
        Ok(None) => String::new(),
        Err(()) => {
            return ArgsOutcome::MissingFileName;
        },
    };
    let arch = match option_value(args, "--arch") {
        Ok(Some(v)) => v,
        Ok(None) => String::from_str("x86_64"),
        Err(()) => {
            return ArgsOutcome::MissingArch;
        },
    };
    let symlink = position(args, "--symlink").is_some();
    let second_target = match option_value(args, "--user") {
        Ok(Some(v)) => v,
        Ok(None) => String::new(),
        Err(()) => {
            return ArgsOutcome::MissingSecondDirectory;
        },
    };
    let target = args[1].clone();
    assert(a[1] == target@);
    ArgsOutcome::Run(Options { target, verbosity, output_file, arch, symlink, second_target })
}


/// The target of a run is always the argument right after the program name,
/// whatever options follow it, and an option's value is the argument right
/// after its first occurrence.
pub proof fn law_target_is_first_argument(args: Seq<Seq<char>>)
    requires
        args.len() >= 2,
    ensures
        parsed_args(args) matches ArgsOutcomeView::Run(o) ==> o.target == args[1],
        parsed_args(args) matches ArgsOutcomeView::Run(o) ==> forall|i: int|
            #![trigger args[i]]
            0 <= i < args.len() - 1 && args[i] == "--file"@ && (forall|j: int|
                0 <= j < i ==> args[j] != "--file"@) ==> o.output_file == args[i + 1],
{
    if let ArgsOutcomeView::Run(o) = parsed_args(args) {
        assert forall|i: int|
            #![trigger args[i]]
            0 <= i < args.len() - 1 && args[i] == "--file"@ && (forall|j: int|
                0 <= j < i ==> args[j] != "--file"@) implies o.output_file == args[i + 1] by {
            lemma_position_is_first(args, "--file"@, i);
        }
    }
}

proof fn lemma_position_is_first(args: Seq<Seq<char>>, flag: Seq<char>, i: int)
    requires
        0 <= i < args.len(),
        args[i] == flag,
        forall|j: int| 0 <= j < i ==> args[j] != flag,
    ensures
        position_of(args, flag) == Some(i),
    decreases i,
{
    if i > 0 {
        assert(args[0] != flag);
        let d = args.drop_first();
        assert forall|j: int| 0 <= j < i - 1 implies d[j] != flag by {
            assert(d[j] == args[j + 1]);
        }
        lemma_position_is_first(d, flag, i - 1);
    }
}
} // verus!
