//! The decisions taken while copying a file system out of a disk image:
//! which listing entries to visit, where each one goes, which file systems
//! to mount, and how the copied files are counted.

use vstd::prelude::*;
use crate::text::{concat, str_eq, views};

verus! {

/// `.` and `..`, which a directory listing holds and a walk skips.
pub open spec fn is_dot_entry(e: Seq<char>) -> bool {
    e == "."@ || e == ".."@
}

/// The path in the image of the entry `entry` of the directory `source_path`.
pub open spec fn child_source(source_path: Seq<char>, entry: Seq<char>) -> Seq<char> {
    if source_path == "/"@ {
        "/"@ + entry
    } else {
        source_path + "/"@ + entry
    }
}

/// The path on the host that the entry `entry` is copied to.
pub open spec fn child_dest(dest_dir: Seq<char>, entry: Seq<char>) -> Seq<char> {
    dest_dir + "/"@ + entry
}

/// The (image path, host path) pairs of the entries of a listing, in the
/// order of the listing, without `.` and `..`.
pub open spec fn planned_entries(
    source_path: Seq<char>,
    dest_dir: Seq<char>,
    entries: Seq<Seq<char>>,
) -> Seq<(Seq<char>, Seq<char>)>
    decreases entries.len(),
{
    if entries.len() == 0 {
        Seq::empty()
    } else {
        let rest = planned_entries(source_path, dest_dir, entries.drop_last());
        let e = entries.last();
        if is_dot_entry(e) {
            rest
        } else {
            rest.push((child_source(source_path, e), child_dest(dest_dir, e)))
        }
    }
}

/// Whether the listing entry `entry` is `.` or `..`.
pub fn is_dot(entry: &str) -> (r: bool)
    ensures
        r == is_dot_entry(entry@),
{
    str_eq(entry, ".") || str_eq(entry, "..")
}

/// The path in the image of the entry `entry` of the directory `source_path`.
pub fn child_source_path(source_path: &str, entry: &str) -> (r: String)
    ensures
        r@ == child_source(source_path@, entry@),
{
    if str_eq(source_path, "/") {
        concat("/", entry)
    } else {
        let dir = concat(source_path, "/");
        concat(dir.as_str(), entry)
    }
}

/// The path on the host that the entry `entry` is copied to.
pub fn child_dest_path(dest_dir: &str, entry: &str) -> (r: String)
    ensures
        r@ == child_dest(dest_dir@, entry@),
{
    let dir = concat(dest_dir, "/");
    concat(dir.as_str(), entry)
}

/// One listing entry to visit: its path in the image and on the host.
pub struct EntryPaths {
    pub source: String,
    pub dest: String,
}

/// The pairs of paths of a list of entries.
pub open spec fn entry_views(v: Seq<EntryPaths>) -> Seq<(Seq<char>, Seq<char>)> {
    v.map_values(|e: EntryPaths| (e.source@, e.dest@))
}

/// The entries of the listing `entries` of the directory `source_path` that
/// a walk visits, in order, with their paths in the image and under
/// `dest_dir` on the host.
pub fn plan_listing(source_path: &str, dest_dir: &str, entries: &Vec<String>) -> (r: Vec<EntryPaths>)
    ensures
        entry_views(r@) == planned_entries(source_path@, dest_dir@, views(entries@)),
{
    let ghost es = views(entries@);
    let mut out: Vec<EntryPaths> = Vec::new();
    let mut i: usize = 0;
    assert(es.take(0) =~= Seq::<Seq<char>>::empty());
    assert(entry_views(out@) =~= Seq::<(Seq<char>, Seq<char>)>::empty());
    while i < entries.len()
        invariant
            es == views(entries@),
            i <= entries.len(),
            entry_views(out@) == planned_entries(source_path@, dest_dir@, es.take(i as int)),
        decreases entries.len() - i,
    {
        assert(es.take(i + 1).drop_last() =~= es.take(i as int));
        assert(es.take(i + 1).last() == entries@[i as int]@);
        let entry = entries[i].as_str();
        if !is_dot(entry) {
            let source = child_source_path(source_path, entry);
            let dest = child_dest_path(dest_dir, entry);
            let ghost before = out@;
            out.push(EntryPaths { source, dest });
            assert(entry_views(out@) =~= entry_views(before).push(
                (child_source(source_path@, entry@), child_dest(dest_dir@, entry@)),
            ));
        }
        i = i + 1;
    }
    assert(es.take(entries.len() as int) =~= es);
    out
}

/// Whether a file system found in the image is mounted and copied: all but
/// those whose type libguestfs reports as `unknown`.
pub fn should_mount(fstype: &str) -> (r: bool)
    ensures
        r == (fstype@ != "unknown"@),
{
    !str_eq(fstype, "unknown")
}

/// What became of one entry of a listing.
#[derive(Debug, Clone, Copy, PartialEq, Eq, Structural)]
pub enum EntryOutcome {
    /// A directory, whose walk copied this many files.
    Directory(usize),
    /// A file that was copied.
    FileExtracted,
    /// A file whose copy failed.
    FileFailed,
    /// An entry whose type could not be read.
    TypeUnknown,
}

/// How many copied files an entry adds to the count of its directory.
pub open spec fn contribution(o: EntryOutcome) -> nat {
    match o {
        EntryOutcome::Directory(n) => n as nat,
        EntryOutcome::FileExtracted => 1,
        EntryOutcome::FileFailed => 0,
        EntryOutcome::TypeUnknown => 0,
    }
}

/// How many copied files the entry adds to the count of its directory.
pub fn entry_contribution(outcome: EntryOutcome) -> (r: usize)
    ensures
        r == contribution(outcome),
{
    match outcome {
        EntryOutcome::Directory(n) => n,
        EntryOutcome::FileExtracted => 1,
        EntryOutcome::FileFailed => 0,
        EntryOutcome::TypeUnknown => 0,
    }
}

/// The number of copied files that the outcomes of a listing add up to.
pub open spec fn total_extracted(os: Seq<EntryOutcome>) -> nat
    decreases os.len(),
{
    if os.len() == 0 {
        0
    } else {
        total_extracted(os.drop_last()) + contribution(os.last())
    }
}

/// What a directory reports it copied: nothing when it could not be listed,
/// else the sum over the outcomes of its entries.
pub open spec fn listing_total(listing: Option<Seq<EntryOutcome>>) -> nat {
    match listing {
        None => 0,
        Some(os) => total_extracted(os),
    }
}

proof fn lemma_total_grows(os: Seq<EntryOutcome>, i: int, j: int)
    requires
        0 <= i <= j <= os.len(),
    ensures
        total_extracted(os.take(i)) <= total_extracted(os.take(j)),
    decreases j - i,
{
    if i < j {
        lemma_total_grows(os, i, j - 1);
        assert(os.take(j).drop_last() =~= os.take(j - 1));
    }
}

/// The count that a directory reports: `listing` is `None` when the
/// directory could not be listed, else the outcomes of its entries in
/// order.  `None` comes back only when the count does not fit in a `usize`
/// (where adding it up in `usize` overflows).
pub fn tally_listing(listing: Option<&Vec<EntryOutcome>>) -> (r: Option<usize>)
    ensures
        match listing {
            None => r == Some(0usize),
            Some(v) => if total_extracted(v@) <= usize::MAX {
                r == Some(total_extracted(v@) as usize)
            } else {
                r is None
            },
        },
{
    match listing {
        None => Some(0),
        Some(v) => {
            let mut count: usize = 0;
            let mut i: usize = 0;
            assert(v@.take(0) =~= Seq::<EntryOutcome>::empty());
            while i < v.len()
                invariant
                    listing == Some(v),
                    i <= v.len(),
                    count == total_extracted(v@.take(i as int)),
                decreases v.len() - i,
            {
                assert(v@.take(i + 1).drop_last() =~= v@.take(i as int));
                assert(v@.take(i + 1).last() == v@[i as int]);
                match count.checked_add(entry_contribution(v[i])) {
                    Some(c) => {
                        count = c;
                    },
                    None => {
                        proof {
                            lemma_total_grows(v@, i + 1, v@.len() as int);
                            assert(v@.take(v@.len() as int) =~= v@);
                        }
                        return None;
                    },
                }
                i = i + 1;
            }
            assert(v@.take(v@.len() as int) =~= v@);
            Some(count)
        },
    }
}

/// What the walk does with an entry of a listing.
#[derive(Debug, Clone, Copy, PartialEq, Eq, Structural)]
pub enum EntryAction {
    /// Create the directory on the host and walk it.
    Descend,
    /// Copy the file out of the image.
    Download,
    /// Warn that the type of the entry could not be read, and go on.
    Warn,
}

/// The action for an entry whose directory test gave `is_dir`: `Some(true)`
/// for a directory, `Some(false)` for anything else, `None` when the test
/// failed.
pub open spec fn action_for(is_dir: Option<bool>) -> EntryAction {
    match is_dir {
        Some(true) => EntryAction::Descend,
        Some(false) => EntryAction::Download,
        None => EntryAction::Warn,
    }
}

/// The action for an entry whose directory test gave `is_dir`.
pub fn entry_action(is_dir: Option<bool>) -> (r: EntryAction)
    ensures
        r == action_for(is_dir),
{
    match is_dir {
        Some(true) => EntryAction::Descend,
        Some(false) => EntryAction::Download,
        None => EntryAction::Warn,
    }
}

/// The outcome of copying a file: counted when the copy succeeded.
pub fn file_outcome(copied: bool) -> (r: EntryOutcome)
    ensures
        r == (if copied {
            EntryOutcome::FileExtracted
        } else {
            EntryOutcome::FileFailed
        }),
{
    if copied {
        EntryOutcome::FileExtracted
    } else {
        EntryOutcome::FileFailed
    }
}

/// Only successful copies count: the count a listing reports is the number
/// of files copied from it plus the counts of its subdirectories, so a
/// failed copy or an entry of unknown type adds nothing, and appending
/// outcomes adds their own totals.
pub proof fn law_listing_total_adds_up(a: Seq<EntryOutcome>, b: Seq<EntryOutcome>)
    ensures
        total_extracted(a + b) == total_extracted(a) + total_extracted(b),
        total_extracted(a.push(EntryOutcome::FileFailed)) == total_extracted(a),
        total_extracted(a.push(EntryOutcome::TypeUnknown)) == total_extracted(a),
        total_extracted(a.push(EntryOutcome::FileExtracted)) == total_extracted(a) + 1,
    decreases b.len(),
{
    assert(a.push(EntryOutcome::FileFailed).drop_last() =~= a);
    assert(a.push(EntryOutcome::TypeUnknown).drop_last() =~= a);
    assert(a.push(EntryOutcome::FileExtracted).drop_last() =~= a);
    if b.len() == 0 {
        assert(a + b =~= a);
    } else {
        law_listing_total_adds_up(a, b.drop_last());
        assert((a + b).drop_last() =~= a + b.drop_last());
        assert((a + b).last() == b.last());
    }
}

/// A walk writes only below its destination directory: every entry it
/// visits is a real entry of the listing (neither `.` nor `..`), copied to
/// `dest_dir/entry` and read from the matching path in the image.
pub proof fn law_plan_stays_below(
    source_path: Seq<char>,
    dest_dir: Seq<char>,
    entries: Seq<Seq<char>>,
)
    ensures
        planned_entries(source_path, dest_dir, entries).len() <= entries.len(),
        forall|i: int|
            #![trigger planned_entries(source_path, dest_dir, entries)[i]]
            0 <= i < planned_entries(source_path, dest_dir, entries).len() ==> exists|j: int|
                0 <= j < entries.len() && !is_dot_entry(#[trigger] entries[j])
                    && planned_entries(source_path, dest_dir, entries)[i] == (
                    child_source(source_path, entries[j]),
                    child_dest(dest_dir, entries[j]),
                ),
    decreases entries.len(),
{
    if entries.len() > 0 {
        let d = entries.drop_last();
        law_plan_stays_below(source_path, dest_dir, d);
        let rest = planned_entries(source_path, dest_dir, d);
        let p = planned_entries(source_path, dest_dir, entries);
        assert forall|i: int| #![trigger p[i]] 0 <= i < p.len() implies exists|j: int|
            0 <= j < entries.len() && !is_dot_entry(#[trigger] entries[j]) && p[i] == (
                child_source(source_path, entries[j]),
                child_dest(dest_dir, entries[j]),
            ) by {
            if i < rest.len() {
                let j = choose|j: int|
                    0 <= j < d.len() && !is_dot_entry(#[trigger] d[j]) && rest[i] == (
                        child_source(source_path, d[j]),
                        child_dest(dest_dir, d[j]),
                    );
                assert(entries[j] == d[j]);
                assert(p[i] == rest[i]);
            } else {
                let j = entries.len() - 1;
                assert(entries[j] == entries.last());
            }
        }
    }
}


/// A subdirectory adds exactly the number of files copied from it: a
/// listing of one subdirectory totals that subdirectory's count (nothing
/// for an empty one), and one more subdirectory raises a total by its count.
pub proof fn law_subdirectory_adds_its_count(a: Seq<EntryOutcome>, n: usize)
    ensures
        total_extracted(seq![EntryOutcome::Directory(n)]) == n,
        total_extracted(a.push(EntryOutcome::Directory(n))) == total_extracted(a) + n,
        total_extracted(seq![EntryOutcome::FileExtracted]) == 1,
        total_extracted(seq![EntryOutcome::FileFailed]) == 0,
        total_extracted(seq![EntryOutcome::TypeUnknown]) == 0,
{
    assert(a.push(EntryOutcome::Directory(n)).drop_last() =~= a);
    assert(total_extracted(Seq::<EntryOutcome>::empty()) == 0);
    assert(seq![EntryOutcome::Directory(n)].last() == EntryOutcome::Directory(n));
    assert(seq![EntryOutcome::FileExtracted].last() == EntryOutcome::FileExtracted);
    assert(seq![EntryOutcome::Directory(n)].drop_last() =~= Seq::<EntryOutcome>::empty());
    assert(seq![EntryOutcome::FileExtracted].drop_last() =~= Seq::<EntryOutcome>::empty());
    assert(seq![EntryOutcome::FileFailed].drop_last() =~= Seq::<EntryOutcome>::empty());
    assert(seq![EntryOutcome::TypeUnknown].drop_last() =~= Seq::<EntryOutcome>::empty());
}

/// A walk visits every entry of a listing but `.` and `..`, hidden ones
/// included, in the order of the listing: one pair per such entry, read from
/// `source_path/entry` (`/entry` under the root) and copied to
/// `dest_dir/entry`.
pub proof fn law_plan_visits_every_entry(
    source_path: Seq<char>,
    dest_dir: Seq<char>,
    entries: Seq<Seq<char>>,
)
    ensures
        planned_entries(source_path, dest_dir, entries) == entries.filter(
            |e: Seq<char>| e != "."@ && e != ".."@,
        ).map_values(
            |e: Seq<char>|
                (
                    if source_path == "/"@ {
                        "/"@ + e
                    } else {
                        source_path + "/"@ + e
                    },
                    dest_dir + "/"@ + e,
                ),
        ),
        planned_entries(source_path, dest_dir, entries).len() == entries.filter(
            |e: Seq<char>| e != "."@ && e != ".."@,
        ).len(),
    decreases entries.len(),
{
    let keep = |e: Seq<char>| e != "."@ && e != ".."@;
    let pair = |e: Seq<char>|
        (
            if source_path == "/"@ {
                "/"@ + e
            } else {
                source_path + "/"@ + e
            },
            dest_dir + "/"@ + e,
        );
    if entries.len() == 0 {
        assert(entries.filter(keep) =~= Seq::<Seq<char>>::empty()) by {
            reveal(Seq::filter);
        }
        assert(entries.filter(keep).map_values(pair) =~= Seq::<(Seq<char>, Seq<char>)>::empty());
    } else {
        let d = entries.drop_last();
        let e = entries.last();
        law_plan_visits_every_entry(source_path, dest_dir, d);
        assert(d.push(e) =~= entries);
        d.lemma_filter_push(e, keep);
        if keep(e) {
            assert(d.filter(keep).push(e).map_values(pair) =~= d.filter(keep).map_values(pair).push(
                pair(e),
            ));
        }
    }
}
} // verus!
