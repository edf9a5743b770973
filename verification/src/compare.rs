//! Content hashes of files and the comparison of two file systems by them.

use vstd::prelude::*;
use std::collections::HashMap;
use vstd::std_specs::hash::spec_hash_map_iter;
use vstd::std_specs::iter::IteratorSpec;
use crate::text::{lemma_pieces_after_newline, lemma_pieces_single, lines_of, newline_pieces, strip_cr, views};

verus! {

broadcast use vstd::std_specs::hash::group_hash_axioms;

/// The MD5 digest of `data`, its sixteen bytes read as a big-endian number.
pub uninterp spec fn md5_digest(data: Seq<u8>) -> u128;

/// Calls `md5::compute` and reads the sixteen bytes of the `md5::Digest` as
/// a big-endian `u128`.  Claimed: the result is the digest of the bytes
/// given, and nothing else, so equal contents give equal numbers.
#[verifier::external_body]
fn md5_of(data: &[u8]) -> (d: u128)
    ensures
        d == md5_digest(data@),
{
    u128::from_be_bytes(md5::compute(data).0)
}

/// Records a file at `path` whose bytes are `contents` in `hashes`, which
/// maps content digests to the path of a file with that content; a later
/// file with the same content takes the place of an earlier one.
pub fn record_file_hash(hashes: &mut HashMap<u128, String>, contents: &[u8], path: String)
    ensures
        final(hashes)@ == old(hashes)@.insert(md5_digest(contents@), path),
{
    let d = md5_of(contents);
    hashes.insert(d, path);
}

/// The digests that `usr` knows and `reference` does not.
pub open spec fn unique_digests(reference: Map<u128, String>, usr: Map<u128, String>) -> Set<u128> {
    usr.dom().difference(reference.dom())
}

/// `paths` lists, once each and in some order, the paths that `usr` gives
/// the digests that `reference` lacks.
pub open spec fn lists_unique_paths(
    reference: Map<u128, String>,
    usr: Map<u128, String>,
    paths: Seq<String>,
) -> bool {
    exists|keys: Seq<u128>|
        {
            &&& keys.no_duplicates()
            &&& keys.to_set() == unique_digests(reference, usr)
            &&& keys.len() == paths.len()
            &&& forall|i: int| 0 <= i < keys.len() ==> paths[i] == usr[#[trigger] keys[i]]
        }
}

/// The paths of the files of `usr_target_file_hashes` whose content digest
/// does not occur in `dl_target_file_hashes`, in the order in which the map
/// is walked.
pub fn find_unique_keys(
    dl_target_file_hashes: &HashMap<u128, String>,
    usr_target_file_hashes: &HashMap<u128, String>,
) -> (r: Vec<String>)
    ensures
        lists_unique_paths(dl_target_file_hashes@, usr_target_file_hashes@, r@),
{
    let ghost dl = dl_target_file_hashes@;
    let ghost usr = usr_target_file_hashes@;
    let mut out: Vec<String> = Vec::new();
    let ghost mut keys: Seq<u128> = Seq::empty();
    let ghost mut pos: Seq<int> = Seq::empty();
    let ghost seq = spec_hash_map_iter(usr_target_file_hashes).remaining();
    for kv in it: usr_target_file_hashes.iter()
        invariant
            dl == dl_target_file_hashes@,
            usr == usr_target_file_hashes@,
            it.seq() == seq,
            it.seq().no_duplicates(),
            keys.len() == out.len(),
            pos.len() == keys.len(),
            forall|j: int| 0 <= j < keys.len() ==> out@[j] == usr[#[trigger] keys[j]],
            forall|j: int|
                0 <= j < keys.len() ==> 0 <= #[trigger] pos[j] < it.index() && keys[j]
                    == *it.seq()[pos[j]].0,
            forall|j1: int, j2: int|
                0 <= j1 < j2 < keys.len() ==> #[trigger] pos[j1] < #[trigger] pos[j2],
            forall|j: int| 0 <= j < keys.len() ==> !dl.contains_key(#[trigger] keys[j]),
            forall|t: int|
                0 <= t < it.index() && !dl.contains_key(*it.seq()[t].0) ==> keys.contains(
                    *(#[trigger] it.seq()[t]).0,
                ),
    {
        let (k, v) = kv;
        let ghost old_keys = keys;
        assert(kv == it.seq()[it.index()]);
        if !dl_target_file_hashes.contains_key(k) {
            out.push(v.clone());
            proof {
                keys = keys.push(*k);
                pos = pos.push(it.index() as int);
                assert(keys[keys.len() - 1] == *k);
            }
        }
        proof {
            assert forall|t: int|
                0 <= t <= it.index() && !dl.contains_key(*it.seq()[t].0) implies keys.contains(
                *it.seq()[t].0,
            ) by {
                if t < it.index() {
                    let x = *it.seq()[t].0;
                    assert(old_keys.contains(x));
                    let j = choose|j: int| 0 <= j < old_keys.len() && old_keys[j] == x;
                    assert(keys[j] == x);
                }
            }
        }
    }
    proof {
        assert forall|j1: int, j2: int|
            0 <= j1 < keys.len() && 0 <= j2 < keys.len() && j1 != j2 implies keys[j1]
            != keys[j2] by {
            if keys[j1] == keys[j2] {
                let (a, b) = if j1 < j2 { (j1, j2) } else { (j2, j1) };
                assert(pos[a] < pos[b]);
                assert(usr.contains_key(*seq[pos[a]].0));
                assert(usr.contains_key(*seq[pos[b]].0));
                assert(seq[pos[a]] == seq[pos[b]]);
            }
        }
        assert(keys.no_duplicates());
        assert forall|k: u128| keys.to_set().contains(k) <==> unique_digests(dl, usr).contains(k) by {
            if keys.to_set().contains(k) {
                let j = choose|j: int| 0 <= j < keys.len() && keys[j] == k;
                assert(keys[j] == k);
                assert(usr.contains_key(*seq[pos[j]].0));
            }
            if unique_digests(dl, usr).contains(k) {
                assert(usr.contains_key(k));
                assert(seq.contains((&k, &usr[k])));
                let t = choose|t: int| 0 <= t < seq.len() && seq[t] == (&k, &usr[k]);
                assert(keys.contains(*seq[t].0));
            }
        }
        assert(keys.to_set() =~= unique_digests(dl, usr));
    }
    out
}

/// The lines `ps` joined with newline characters between them.
pub open spec fn join_lines(ps: Seq<Seq<char>>) -> Seq<char>
    decreases ps.len(),
{
    if ps.len() == 0 {
        Seq::empty()
    } else if ps.len() == 1 {
        ps[0]
    } else {
        join_lines(ps.drop_last()) + seq!['\n'] + ps.last()
    }
}

/// The text of a results file: the paths joined by newlines, with one more
/// newline at the end.
pub fn render_results(paths: &Vec<String>) -> (r: String)
    ensures
        r@ == join_lines(views(paths@)) + seq!['\n'],
{
    let ghost ps = views(paths@);
    let mut out = String::new();
    let mut i: usize = 0;
    while i < paths.len()
        invariant
            ps == views(paths@),
            i <= paths.len(),
            out@ == join_lines(ps.take(i as int)),
        decreases paths.len() - i,
    {
        proof {
            reveal_strlit("\n");
        }
        assert(ps.take(i + 1).drop_last() =~= ps.take(i as int));
        if i > 0 {
            out.append("\n");
        }
        out.append(paths[i].as_str());
        assert(ps.take(i + 1).last() == paths@[i as int]@);
        if i == 0 {
            assert(out@ =~= join_lines(ps.take(1)));
        }
        i = i + 1;
    }
    assert(ps.take(paths.len() as int) =~= ps);
    proof {
        reveal_strlit("\n");
    }
    out.append("\n");
    out
}


/// A path that can be written as one line of a results file and read back:
/// it holds no newline and does not end with a carriage return.
pub open spec fn is_line_safe(p: Seq<char>) -> bool {
    &&& !p.contains('\n')
    &&& (p.len() == 0 || p.last() != '\r')
}

proof fn lemma_pieces_of_join(ps: Seq<Seq<char>>)
    requires
        ps.len() >= 1,
        forall|i: int| 0 <= i < ps.len() ==> is_line_safe(#[trigger] ps[i]),
    ensures
        newline_pieces(join_lines(ps)) == ps,
    decreases ps.len(),
{
    if ps.len() == 1 {
        assert(is_line_safe(ps[0]));
        lemma_pieces_single(ps[0]);
        assert(seq![ps[0]] =~= ps);
    } else {
        let d = ps.drop_last();
        assert forall|i: int| 0 <= i < d.len() implies is_line_safe(#[trigger] d[i]) by {
            assert(d[i] == ps[i]);
        }
        lemma_pieces_of_join(d);
        assert(is_line_safe(ps[ps.len() - 1]));
        lemma_pieces_after_newline(join_lines(d), ps.last());
        assert(d.push(ps.last()) =~= ps);
    }
}

/// Reading back a results file: the lines of the text that `render_results`
/// writes for a non-empty list of paths, each free of newlines and not
/// ending with a carriage return, are those paths, in order.
pub proof fn law_results_read_back(paths: Seq<Seq<char>>)
    requires
        paths.len() >= 1,
        forall|i: int| 0 <= i < paths.len() ==> is_line_safe(#[trigger] paths[i]),
    ensures
        lines_of(join_lines(paths) + seq!['\n']) == paths,
{
    lemma_pieces_of_join(paths);
    lemma_pieces_after_newline(join_lines(paths), Seq::<char>::empty());
    assert(join_lines(paths) + seq!['\n'] + Seq::<char>::empty() =~= join_lines(paths) + seq![
        '\n',
    ]);
    let p = paths.push(Seq::<char>::empty());
    assert(p.drop_last() =~= paths);
    assert(paths.map_values(|l: Seq<char>| strip_cr(l)) =~= paths) by {
        assert forall|i: int| 0 <= i < paths.len() implies strip_cr(paths[i]) == paths[i] by {
            assert(is_line_safe(paths[i]));
        }
    }
}

/// Comparing a file system with itself reports nothing.
pub proof fn law_self_comparison_is_empty(hashes: Map<u128, String>, paths: Seq<String>)
    requires
        lists_unique_paths(hashes, hashes, paths),
    ensures
        paths.len() == 0,
{
    let keys = choose|keys: Seq<u128>|
        {
            &&& keys.no_duplicates()
            &&& keys.to_set() == unique_digests(hashes, hashes)
            &&& keys.len() == paths.len()
            &&& forall|i: int| 0 <= i < keys.len() ==> paths[i] == hashes[#[trigger] keys[i]]
        };
    if keys.len() > 0 {
        assert(keys.to_set().contains(keys[0]));
    }
}

/// The digests among `keys` that `usr` gives the path `x`.
pub open spec fn digests_with_path(keys: Set<u128>, usr: Map<u128, String>, x: String) -> Set<
    u128,
> {
    keys.filter(|k: u128| usr[k] == x)
}

proof fn lemma_path_count(keys: Seq<u128>, usr: Map<u128, String>, paths: Seq<String>, x: String)
    requires
        keys.no_duplicates(),
        keys.len() == paths.len(),
        forall|i: int| 0 <= i < keys.len() ==> paths[i] == usr[#[trigger] keys[i]],
    ensures
        paths.to_multiset().count(x) == digests_with_path(keys.to_set(), usr, x).len(),
        digests_with_path(keys.to_set(), usr, x).finite(),
    decreases keys.len(),
{
    broadcast use vstd::seq_lib::group_seq_properties;
    broadcast use vstd::set::group_set_axioms;
    broadcast use vstd::multiset::group_multiset_axioms;

    if keys.len() == 0 {
        assert(paths =~= Seq::<String>::empty());
        assert(keys.to_set() =~= Set::<u128>::empty());
        assert(digests_with_path(keys.to_set(), usr, x) =~= Set::<u128>::empty());
    } else {
        let kd = keys.drop_last();
        let pd = paths.drop_last();
        let k = keys.last();
        assert(kd.no_duplicates()) by {
            assert forall|i: int, j: int|
                0 <= i < kd.len() && 0 <= j < kd.len() && i != j implies kd[i] != kd[j] by {
                assert(kd[i] == keys[i] && kd[j] == keys[j]);
            }
        }
        assert forall|i: int| 0 <= i < kd.len() implies pd[i] == usr[#[trigger] kd[i]] by {
            assert(kd[i] == keys[i] && pd[i] == paths[i]);
        }
        lemma_path_count(kd, usr, pd, x);
        assert(keys =~= kd.push(k));
        kd.lemma_push_to_set_commute(k);
        assert(paths =~= pd.push(paths.last()));
        assert(paths.last() == usr[k]);
        assert(!kd.to_set().contains(k)) by {
            if kd.to_set().contains(k) {
                let i = choose|i: int| 0 <= i < kd.len() && kd[i] == k;
                assert(keys[i] == keys[keys.len() - 1]);
            }
        }
        let before = digests_with_path(kd.to_set(), usr, x);
        if usr[k] == x {
            assert(digests_with_path(keys.to_set(), usr, x) =~= before.insert(k));
        } else {
            assert(digests_with_path(keys.to_set(), usr, x) =~= before);
        }
    }
}

/// Only the digests of the reference matter, not the paths it gives them:
/// two references that know the same digests lead to the same paths, each
/// as often, in whatever order.
pub proof fn law_reference_paths_do_not_matter(
    reference1: Map<u128, String>,
    reference2: Map<u128, String>,
    usr: Map<u128, String>,
    paths1: Seq<String>,
    paths2: Seq<String>,
)
    requires
        reference1.dom() == reference2.dom(),
        lists_unique_paths(reference1, usr, paths1),
        lists_unique_paths(reference2, usr, paths2),
    ensures
        paths1.to_multiset() == paths2.to_multiset(),
{
    let keys1 = choose|keys: Seq<u128>|
        {
            &&& keys.no_duplicates()
            &&& keys.to_set() == unique_digests(reference1, usr)
            &&& keys.len() == paths1.len()
            &&& forall|i: int| 0 <= i < keys.len() ==> paths1[i] == usr[#[trigger] keys[i]]
        };
    let keys2 = choose|keys: Seq<u128>|
        {
            &&& keys.no_duplicates()
            &&& keys.to_set() == unique_digests(reference2, usr)
            &&& keys.len() == paths2.len()
            &&& forall|i: int| 0 <= i < keys.len() ==> paths2[i] == usr[#[trigger] keys[i]]
        };
    assert(unique_digests(reference1, usr) == unique_digests(reference2, usr));
    assert forall|x: String| paths1.to_multiset().count(x) == paths2.to_multiset().count(x) by {
        lemma_path_count(keys1, usr, paths1, x);
        lemma_path_count(keys2, usr, paths2, x);
    }
    assert(paths1.to_multiset() =~= paths2.to_multiset());
}

/// A reference that knows more digests reports less: each path it reports
/// is reported at least as often with the smaller reference, and it reports
/// no more paths in all.
pub proof fn law_larger_reference_reports_less(
    smaller: Map<u128, String>,
    larger: Map<u128, String>,
    usr: Map<u128, String>,
    paths_smaller: Seq<String>,
    paths_larger: Seq<String>,
)
    requires
        smaller.dom().subset_of(larger.dom()),
        lists_unique_paths(smaller, usr, paths_smaller),
        lists_unique_paths(larger, usr, paths_larger),
    ensures
        paths_larger.to_multiset().subset_of(paths_smaller.to_multiset()),
        paths_larger.len() <= paths_smaller.len(),
{
    broadcast use vstd::seq_lib::seq_to_set_is_finite;

    let keys1 = choose|keys: Seq<u128>|
        {
            &&& keys.no_duplicates()
            &&& keys.to_set() == unique_digests(smaller, usr)
            &&& keys.len() == paths_smaller.len()
            &&& forall|i: int| 0 <= i < keys.len() ==> paths_smaller[i] == usr[#[trigger] keys[i]]
        };
    let keys2 = choose|keys: Seq<u128>|
        {
            &&& keys.no_duplicates()
            &&& keys.to_set() == unique_digests(larger, usr)
            &&& keys.len() == paths_larger.len()
            &&& forall|i: int| 0 <= i < keys.len() ==> paths_larger[i] == usr[#[trigger] keys[i]]
        };
    assert(keys2.to_set().subset_of(keys1.to_set()));
    assert forall|x: String|
        paths_larger.to_multiset().count(x) <= paths_smaller.to_multiset().count(x) by {
        lemma_path_count(keys1, usr, paths_smaller, x);
        lemma_path_count(keys2, usr, paths_larger, x);
        vstd::set_lib::lemma_len_subset(
            digests_with_path(keys2.to_set(), usr, x),
            digests_with_path(keys1.to_set(), usr, x),
        );
    }
    keys1.unique_seq_to_set();
    keys2.unique_seq_to_set();
    vstd::set_lib::lemma_len_subset(keys2.to_set(), keys1.to_set());
}

/// A file whose content the reference already holds is never reported:
/// recording it for the compared file system leaves the unreported
/// digests as they were.
pub proof fn law_shared_content_not_reported(
    reference: Map<u128, String>,
    usr: Map<u128, String>,
    contents: Seq<u8>,
    path: String,
)
    requires
        reference.contains_key(md5_digest(contents)),
    ensures
        unique_digests(reference, usr.insert(md5_digest(contents), path)) == unique_digests(
            reference,
            usr,
        ),
{
    assert(unique_digests(reference, usr.insert(md5_digest(contents), path)) =~= unique_digests(
        reference,
        usr,
    ));
}

/// A file whose content the reference lacks is reported: after recording
/// it, its digest is among the unreported ones and leads to its path.
pub proof fn law_new_content_reported(
    reference: Map<u128, String>,
    usr: Map<u128, String>,
    contents: Seq<u8>,
    path: String,
)
    requires
        !reference.contains_key(md5_digest(contents)),
    ensures
        unique_digests(reference, usr.insert(md5_digest(contents), path)).contains(
            md5_digest(contents),
        ),
        usr.insert(md5_digest(contents), path)[md5_digest(contents)] == path,
{
}

} // verus!
