//! Reading `KEY=value` settings out of an os-release file.

use vstd::prelude::*;
use crate::value_pattern::{capture_value, compile_value_pattern};
use crate::text::{
    concat, ends_a_line, law_lines_of_concat, law_trim_removes_only_end_quotes,
    law_trimmed_is_unquoted, lemma_pieces_after_newline, lemma_pieces_single, lines_of, split_lines, starts_with_seq, trim_quotes,
    trim_quotes_str, views,
};

verus! {

/// A character that may stand in an os-release key: an upper-case ASCII
/// letter or an underscore.
pub open spec fn is_key_char(c: char) -> bool {
    ('A' <= c && c <= 'Z') || c == '_'
}

/// A key such as `ID` or `VERSION_CODENAME`.  Keys are short: the bound
/// keeps the compiled pattern `^KEY=(.*)$` far below the default size limit
/// (10 MiB) of the `regex` engine that compiles it, so compiling never fails.
pub open spec fn is_os_release_key(k: Seq<char>) -> bool {
    &&& 0 < k.len() <= 64
    &&& forall|i: int| 0 <= i < k.len() ==> #[trigger] is_key_char(k[i])
}

/// The regular expression `^KEY=(.*)$` for the key `k`.
pub open spec fn value_pattern(k: Seq<char>) -> Seq<char> {
    seq!['^'] + k + seq!['=', '(', '.', '*', ')', '$']
}

/// The key that a pattern built by `value_pattern` stands for.
pub open spec fn pattern_key(p: Seq<char>) -> Seq<char> {
    p.subrange(1, p.len() - 6)
}

/// The patterns that the compiler of value patterns accepts: `^KEY=(.*)$` for a key
/// made of upper-case ASCII letters and underscores.
pub open spec fn is_value_pattern(p: Seq<char>) -> bool {
    exists|k: Seq<char>| is_os_release_key(k) && p == value_pattern(k)
}

/// What `^KEY=(.*)$` captures in `line`: the text after `KEY=` when the line
/// begins with it and no newline follows.
pub open spec fn key_value(k: Seq<char>, line: Seq<char>) -> Option<Seq<char>> {
    let prefix = k.push('=');
    if starts_with_seq(line, prefix) && !line.skip(prefix.len() as int).contains('\n') {
        Some(line.skip(prefix.len() as int))
    } else {
        None
    }
}

/// The value of the first line among `lines` that sets the key `k`.
pub open spec fn first_key_value(k: Seq<char>, lines: Seq<Seq<char>>) -> Option<Seq<char>>
    decreases lines.len(),
{
    if lines.len() == 0 {
        None
    } else {
        match key_value(k, lines[0]) {
            Some(v) => Some(v),
            None => first_key_value(k, lines.drop_first()),
        }
    }
}

/// What an os-release file `contents` sets the key `k` to: the value on the
/// first line that sets it, without the double quotes at either end.
pub open spec fn os_release_setting(contents: Seq<char>, k: Seq<char>) -> Option<Seq<char>> {
    match first_key_value(k, lines_of(contents)) {
        Some(v) => Some(trim_quotes(v)),
        None => None,
    }
}

/// The value that the os-release text `contents` gives the key `key`: the
/// text after `KEY=` on the first line that begins with it, without the
/// double quotes at either end; `None` when no line sets the key.
pub fn os_release_value(contents: &str, key: &str) -> (r: Option<String>)
    requires
        is_os_release_key(key@),
    ensures
        match r {
            Some(v) => os_release_setting(contents@, key@) == Some(v@),
            None => os_release_setting(contents@, key@) is None,
        },
{
    let head = concat("^", key);
    let text = concat(head.as_str(), "=(.*)$");
    proof {
        reveal_strlit("^");
        reveal_strlit("=(.*)$");
        assert(text@ =~= value_pattern(key@));
        assert(pattern_key(text@) =~= key@);
    }
    let pattern = compile_value_pattern(text);
    let lines = split_lines(contents);
    let ghost all = views(lines@);
    assert(all.skip(0) =~= all);
    let mut i: usize = 0;
    while i < lines.len()
        invariant
            all == views(lines@),
            all == lines_of(contents@),
            i <= lines.len(),
            pattern.source_text() == value_pattern(key@),
            pattern_key(pattern.source_text()) == key@,
            is_os_release_key(key@),
            first_key_value(key@, all) == first_key_value(key@, all.skip(i as int)),
        decreases lines.len() - i,
    {
        assert(all.skip(i as int)[0] == lines@[i as int]@);
        match capture_value(&pattern, lines[i].as_str()) {
            Some(v) => {
                return Some(trim_quotes_str(v.as_str()));
            },
            None => {},
        }
        assert(all.skip(i as int).drop_first() =~= all.skip(i + 1));
        i = i + 1;
    }
    None
}

/// The release codename (`VERSION_CODENAME`) that the os-release text
/// `contents` names, if it names one.
pub fn get_codename(contents: &str) -> (r: Option<String>)
    ensures
        match r {
            Some(v) => os_release_setting(contents@, "VERSION_CODENAME"@) == Some(v@),
            None => os_release_setting(contents@, "VERSION_CODENAME"@) is None,
        },
{
    proof {
        reveal_strlit("VERSION_CODENAME");
    }
    os_release_value(contents, "VERSION_CODENAME")
}


/// A setting read from an os-release file never begins or ends with a
/// double quote.
pub proof fn law_setting_is_unquoted(contents: Seq<char>, k: Seq<char>)
    ensures
        os_release_setting(contents, k) matches Some(v) ==> (v.len() == 0 || (v[0] != '"'
            && v.last() != '"')),
{
    if let Some(v) = first_key_value(k, lines_of(contents)) {
        law_trimmed_is_unquoted(v);
    }
}


/// Where the os-release file of the file system rooted at `target` lies.
pub fn os_release_path(target: &str) -> (r: String)
    ensures
        r@ == target@ + "/etc/os-release"@,
{
    concat(target, "/etc/os-release")
}


proof fn lemma_first_of_concat(k: Seq<char>, a: Seq<Seq<char>>, b: Seq<Seq<char>>)
    ensures
        first_key_value(k, a + b) == match first_key_value(k, a) {
            Some(v) => Some(v),
            None => first_key_value(k, b),
        },
    decreases a.len(),
{
    if a.len() == 0 {
        assert(a + b =~= b);
    } else {
        assert((a + b)[0] == a[0]);
        assert((a + b).drop_first() =~= a.drop_first() + b);
        lemma_first_of_concat(k, a.drop_first(), b);
    }
}

proof fn lemma_first_of_unset(k: Seq<char>, a: Seq<Seq<char>>)
    requires
        forall|i: int| 0 <= i < a.len() ==> !starts_with_seq(#[trigger] a[i], k.push('=')),
    ensures
        first_key_value(k, a) is None,
    decreases a.len(),
{
    if a.len() > 0 {
        assert(!starts_with_seq(a[0], k.push('=')));
        assert forall|i: int| 0 <= i < a.drop_first().len() implies !starts_with_seq(
            #[trigger] a.drop_first()[i],
            k.push('='),
        ) by {
            assert(a.drop_first()[i] == a[i + 1]);
        }
        lemma_first_of_unset(k, a.drop_first());
    }
}

/// Lines that do not set a key never matter to it: text made of whole lines
/// none of which begins with `KEY=`, put in front of `c`, leaves the value
/// of the key as `c` gives it.
pub proof fn law_unrelated_lines_before(p: Seq<char>, c: Seq<char>, k: Seq<char>)
    requires
        ends_a_line(p),
        forall|i: int|
            0 <= i < lines_of(p).len() ==> !starts_with_seq(#[trigger] lines_of(p)[i], k.push('=')),
    ensures
        os_release_setting(p + c, k) == os_release_setting(c, k),
{
    law_lines_of_concat(p, c);
    lemma_first_of_unset(k, lines_of(p));
    lemma_first_of_concat(k, lines_of(p), lines_of(c));
}

/// Lines after the first one that sets a key are never read: once a text of
/// whole lines sets the key, whatever follows it leaves the value alone.
pub proof fn law_later_lines_ignored(c: Seq<char>, s: Seq<char>, k: Seq<char>)
    requires
        c.len() > 0,
        c.last() == '\n',
        os_release_setting(c, k) is Some,
    ensures
        os_release_setting(c + s, k) == os_release_setting(c, k),
{
    law_lines_of_concat(c, s);
    lemma_first_of_concat(k, lines_of(c), lines_of(s));
}


/// A value is read whole: when the first line of a text is `KEY=v`, with
/// `v` holding no newline and neither beginning nor ending with a double
/// quote (nor ending with a carriage return), the text sets the key to
/// exactly `v`, whatever follows (`VERSION_ID=22.04` gives `22.04`).
pub proof fn law_value_read_whole(k: Seq<char>, v: Seq<char>, rest: Seq<char>)
    requires
        !k.contains('\n'),
        !v.contains('\n'),
        v.len() == 0 || (v[0] != '"' && v.last() != '"' && v.last() != '\r'),
    ensures
        os_release_setting(k.push('=') + v + seq!['\n'] + rest, k) == Some(v),
{
    let x = k.push('=') + v;
    assert(!x.contains('\n')) by {
        if x.contains('\n') {
            let i = choose|i: int| 0 <= i < x.len() && x[i] == '\n';
            if i < k.len() {
                assert(k[i] == '\n');
            } else if i > k.len() {
                assert(v[i - k.len() - 1] == '\n');
            }
        }
    }
    lemma_pieces_single(x);
    lemma_pieces_after_newline(x, Seq::<char>::empty());
    let line = x + seq!['\n'];
    assert(x + seq!['\n'] + Seq::<char>::empty() =~= line);
    assert(x.last() != '\r') by {
        if v.len() == 0 {
            assert(x.last() == '=');
        } else {
            assert(x.last() == v.last());
        }
    }
    assert(lines_of(line) =~= seq![x]);
    law_lines_of_concat(line, rest);
    assert(k.push('=') + v + seq!['\n'] + rest =~= line + rest);
    let all = lines_of(line + rest);
    assert(all[0] == x);
    let prefix = k.push('=');
    assert(x.subrange(0, prefix.len() as int) =~= prefix);
    assert(x.skip(prefix.len() as int) =~= v);
    assert(key_value(k, x) == Some(v));
    law_trim_removes_only_end_quotes(v);
}

} // verus!
