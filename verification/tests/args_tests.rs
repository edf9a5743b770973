use sysdiff::args::{parse_args, position, ArgsOutcome, Options, Verbosity};

fn args(v: &[&str]) -> Vec<String> {
    v.iter().map(|s| s.to_string()).collect()
}

fn run(v: &[&str]) -> Options {
    match parse_args(&args(v)) {
        ArgsOutcome::Run(o) => o,
        _ => panic!("expected a run for {:?}", v),
    }
}

#[test]
fn defaults() {
    let o = run(&["sysdiff", "./target_fs"]);
    assert_eq!(o.target, "./target_fs");
    assert_eq!(o.verbosity, None);
    assert_eq!(o.output_file, "");
    assert_eq!(o.arch, "x86_64");
    assert!(!o.symlink);
    assert_eq!(o.second_target, "");
}

#[test]
fn usage_example() {
    let o = run(&["sysdiff", "./target_fs", "--file", "output.txt"]);
    assert_eq!(o.output_file, "output.txt");
}

#[test]
fn all_options() {
    let o = run(&[
        "sysdiff", "/t", "--verbose", "2", "--arch", "aarch64", "--symlink", "--user", "/u", "--file", "f",
    ]);
    assert_eq!(o.verbosity, Some(Verbosity::Debug));
    assert_eq!(o.arch, "aarch64");
    assert!(o.symlink);
    assert_eq!(o.second_target, "/u");
    assert_eq!(o.output_file, "f");
}

#[test]
fn verbose_levels() {
    assert_eq!(run(&["s", "/t", "--verbose", "1"]).verbosity, Some(Verbosity::Info));
    assert_eq!(run(&["s", "/t", "--verbose", "7"]).verbosity, Some(Verbosity::Info));
    assert_eq!(run(&["s", "/t", "--verbose"]).verbosity, Some(Verbosity::Info));
}

#[test]
fn help_wins() {
    assert!(matches!(parse_args(&args(&["s", "/t", "--file", "--help"])), ArgsOutcome::Help));
    assert!(matches!(parse_args(&args(&["s", "--help"])), ArgsOutcome::Help));
}

#[test]
fn missing_values() {
    assert!(matches!(parse_args(&args(&["s", "/t", "--file"])), ArgsOutcome::MissingFileName));
    assert!(matches!(parse_args(&args(&["s", "/t", "--arch"])), ArgsOutcome::MissingArch));
    assert!(matches!(parse_args(&args(&["s", "/t", "--user"])), ArgsOutcome::MissingSecondDirectory));
    // --file is checked before --arch.
    assert!(matches!(parse_args(&args(&["s", "/t", "--arch", "--file"])), ArgsOutcome::MissingFileName));
}

#[test]
fn first_occurrence_counts() {
    let o = run(&["s", "/t", "--arch", "a", "--arch", "b"]);
    assert_eq!(o.arch, "a");
    assert_eq!(position(&args(&["a", "b", "a"]), "a"), Some(0));
    assert_eq!(position(&args(&["a", "b"]), "c"), None);
}

#[test]
fn option_value_may_be_an_option() {
    let o = run(&["s", "/t", "--file", "--symlink"]);
    assert_eq!(o.output_file, "--symlink");
    assert!(o.symlink);
}
