use sysdiff::extract::{
    child_dest_path, child_source_path, entry_action, file_outcome, is_dot, plan_listing, should_mount,
    tally_listing, EntryAction, EntryOutcome,
};

fn strings(v: &[&str]) -> Vec<String> {
    v.iter().map(|s| s.to_string()).collect()
}

#[test]
fn plan_skips_dots_and_joins() {
    let plan = plan_listing("/", "./temp", &strings(&[".", "etc", "..", "bin"]));
    let pairs: Vec<(String, String)> = plan.into_iter().map(|e| (e.source, e.dest)).collect();
    assert_eq!(
        pairs,
        vec![
            ("/etc".to_string(), "./temp/etc".to_string()),
            ("/bin".to_string(), "./temp/bin".to_string()),
        ]
    );
}

#[test]
fn plan_below_root() {
    let plan = plan_listing("/etc", "./temp/etc", &strings(&["os-release"]));
    assert_eq!(plan.len(), 1);
    assert_eq!(plan[0].source, "/etc/os-release");
    assert_eq!(plan[0].dest, "./temp/etc/os-release");
    assert!(plan_listing("/x", "/y", &strings(&[".", ".."])).is_empty());
}

#[test]
fn joins() {
    assert_eq!(child_source_path("/", "a"), "/a");
    assert_eq!(child_source_path("/a", "b"), "/a/b");
    assert_eq!(child_dest_path("d", "b"), "d/b");
    assert!(is_dot("."));
    assert!(is_dot(".."));
    assert!(!is_dot("..."));
    assert!(!is_dot(".hidden"));
}

#[test]
fn mount_all_but_unknown() {
    assert!(should_mount("ext4"));
    assert!(should_mount("vfat"));
    assert!(!should_mount("unknown"));
}

#[test]
fn listing_totals() {
    let outcomes = vec![
        EntryOutcome::FileExtracted,
        EntryOutcome::FileFailed,
        EntryOutcome::Directory(5),
        EntryOutcome::TypeUnknown,
        EntryOutcome::FileExtracted,
    ];
    assert_eq!(tally_listing(Some(&outcomes)), Some(7));
    assert_eq!(tally_listing(Some(&vec![])), Some(0));
    assert_eq!(tally_listing(None), Some(0));
    let big = vec![EntryOutcome::Directory(usize::MAX), EntryOutcome::FileExtracted];
    assert_eq!(tally_listing(Some(&big)), None);
}

#[test]
fn actions() {
    assert_eq!(entry_action(Some(true)), EntryAction::Descend);
    assert_eq!(entry_action(Some(false)), EntryAction::Download);
    assert_eq!(entry_action(None), EntryAction::Warn);
    assert_eq!(file_outcome(true), EntryOutcome::FileExtracted);
    assert_eq!(file_outcome(false), EntryOutcome::FileFailed);
}
