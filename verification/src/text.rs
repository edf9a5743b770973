//! Character-level helpers over string views.

use vstd::prelude::*;
use vstd::std_specs::iter::IteratorSpec;

verus! {

broadcast use vstd::string::group_string_axioms;

/// The characters of `s`, in order.
pub fn chars_of(s: &str) -> (v: Vec<char>)
    ensures
        v@ == s@,
{
    let mut v: Vec<char> = Vec::new();
    for c in it: s.chars()
        invariant
            it.seq() == s@,
            v@ == it.seq().take(it.index()),
    {
        v.push(c);
        assert(v@ == it.seq().take(it.index() + 1));
    }
    assert(v@ == s@);
    v
}


/// `needle` occurs in `hay` starting at position `i`.
pub open spec fn occurs_at(hay: Seq<char>, needle: Seq<char>, i: int) -> bool {
    &&& 0 <= i
    &&& i + needle.len() <= hay.len()
    &&& hay.subrange(i, i + needle.len()) == needle
}

/// `needle` occurs somewhere in `hay` (the empty needle occurs everywhere).
pub open spec fn contains_seq(hay: Seq<char>, needle: Seq<char>) -> bool {
    exists|i: int| occurs_at(hay, needle, i)
}

/// `hay` begins with `prefix`.
pub open spec fn starts_with_seq(hay: Seq<char>, prefix: Seq<char>) -> bool {
    occurs_at(hay, prefix, 0)
}

fn occurs_at_exec(hay: &Vec<char>, needle: &Vec<char>, i: usize) -> (r: bool)
    requires
        i + needle.len() <= hay.len(),
    ensures
        r == occurs_at(hay@, needle@, i as int),
{
    let n = needle.len();
    let mut j: usize = 0;
    while j < n
        invariant
            i + n <= hay.len(),
            n == needle.len(),
            j <= n,
            forall|k: int| 0 <= k < j ==> hay@[i + k] == needle@[k],
        decreases n - j,
    {
        if hay[i + j] != needle[j] {
            assert(hay@.subrange(i as int, i + n)[j as int] != needle@[j as int]);
            return false;
        }
        j = j + 1;
    }
    assert(hay@.subrange(i as int, i + n) =~= needle@);
    true
}

/// Whether `needle` occurs in `hay`, as `str::contains` with a string pattern.
pub fn str_contains(hay: &str, needle: &str) -> (r: bool)
    ensures
        r == contains_seq(hay@, needle@),
{
    let h = chars_of(hay);
    let n = chars_of(needle);
    if n.len() > h.len() {
        assert forall|i: int| !occurs_at(hay@, needle@, i) by {}
        return false;
    }
    let last = h.len() - n.len();
    let mut i: usize = 0;
    loop
        invariant
            h@ == hay@,
            n@ == needle@,
            last + n.len() == h.len(),
            i <= last,
            forall|k: int| 0 <= k < i ==> !occurs_at(hay@, needle@, k),
        ensures
            forall|k: int| 0 <= k <= last ==> !occurs_at(hay@, needle@, k),
        decreases last - i,
    {
        if occurs_at_exec(&h, &n, i) {
            return true;
        }
        if i == last {
            break;
        }
        i = i + 1;
    }
    false
}

/// The concatenation of `a` and `b` as a new string.
pub fn concat(a: &str, b: &str) -> (r: String)
    ensures
        r@ == a@ + b@,
{
    let mut s = String::from_str(a);
    s.append(b);
    s
}


/// `s` without its leading double quotes.
pub open spec fn trim_leading_quotes(s: Seq<char>) -> Seq<char>
    decreases s.len(),
{
    if s.len() > 0 && s[0] == '"' {
        trim_leading_quotes(s.drop_first())
    } else {
        s
    }
}

/// `s` without its trailing double quotes.
pub open spec fn trim_trailing_quotes(s: Seq<char>) -> Seq<char>
    decreases s.len(),
{
    if s.len() > 0 && s.last() == '"' {
        trim_trailing_quotes(s.drop_last())
    } else {
        s
    }
}

/// `s` without the double quotes at either end, as `str::trim_matches('"')`.
pub open spec fn trim_quotes(s: Seq<char>) -> Seq<char> {
    trim_trailing_quotes(trim_leading_quotes(s))
}

/// A copy of `s` without the double quotes at either end.
pub fn trim_quotes_str(s: &str) -> (r: String)
    ensures
        r@ == trim_quotes(s@),
{
    let c = chars_of(s);
    let n = c.len();
    let mut i: usize = 0;
    assert(s@.skip(0) =~= s@);
    while i < n && c[i] == '"'
        invariant
            c@ == s@,
            n == c.len(),
            i <= n,
            trim_leading_quotes(s@) == trim_leading_quotes(s@.skip(i as int)),
        decreases n - i,
    {
        assert(s@.skip(i as int).drop_first() =~= s@.skip(i + 1));
        i = i + 1;
    }
    assert(s@.subrange(i as int, n as int) =~= s@.skip(i as int));
    let mut j: usize = n;
    while j > i && c[j - 1] == '"'
        invariant
            c@ == s@,
            n == c.len(),
            i <= j <= n,
            trim_leading_quotes(s@) == s@.skip(i as int),
            trim_quotes(s@) == trim_trailing_quotes(s@.subrange(i as int, j as int)),
        decreases j - i,
    {
        assert(s@.subrange(i as int, j as int).drop_last() =~= s@.subrange(i as int, j - 1));
        j = j - 1;
    }
    let t = s.substring_char(i, j);
    t.to_owned()
}


/// The pieces of `s` between its newline characters, in order; there is
/// always at least one, and the last one is what follows the last newline.
pub open spec fn newline_pieces(s: Seq<char>) -> Seq<Seq<char>>
    decreases s.len(),
{
    if s.len() == 0 {
        seq![Seq::<char>::empty()]
    } else {
        let p = newline_pieces(s.drop_last());
        if s.last() == '\n' {
            p.push(Seq::<char>::empty())
        } else {
            p.update(p.len() - 1, p.last().push(s.last()))
        }
    }
}

/// `l` without one carriage return at its end.
pub open spec fn strip_cr(l: Seq<char>) -> Seq<char> {
    if l.len() > 0 && l.last() == '\r' {
        l.drop_last()
    } else {
        l
    }
}

/// The lines of `s`, as `str::lines` gives them: a line ends at `\n` or
/// `\r\n`, the terminator is not part of the line, and a last line without
/// terminator is kept only when it is not empty.
pub open spec fn lines_of(s: Seq<char>) -> Seq<Seq<char>> {
    let p = newline_pieces(s);
    let ended = p.drop_last().map_values(|l: Seq<char>| strip_cr(l));
    if p.last().len() == 0 {
        ended
    } else {
        ended.push(p.last())
    }
}

/// The views of a vector of strings.
pub open spec fn views(v: Seq<String>) -> Seq<Seq<char>> {
    v.map_values(|x: String| x@)
}

/// The lines of `s`, in order, as `str::lines` yields them.
pub fn split_lines(s: &str) -> (r: Vec<String>)
    ensures
        views(r@) == lines_of(s@),
{
    let c = chars_of(s);
    let n = c.len();
    let mut out: Vec<String> = Vec::new();
    let mut start: usize = 0;
    let mut i: usize = 0;
    assert(s@.take(0) =~= Seq::<char>::empty());
    assert(s@.subrange(0, 0) =~= Seq::<char>::empty());
    assert(views(out@) =~= newline_pieces(s@.take(0)).drop_last().map_values(|l: Seq<char>| strip_cr(l)));
    while i < n
        invariant
            c@ == s@,
            n == c.len(),
            start <= i <= n,
            newline_pieces(s@.take(i as int)).len() >= 1,
            newline_pieces(s@.take(i as int)).last() == s@.subrange(start as int, i as int),
            views(out@) == newline_pieces(s@.take(i as int)).drop_last().map_values(
                |l: Seq<char>| strip_cr(l),
            ),
        decreases n - i,
    {
        let ghost p = newline_pieces(s@.take(i as int));
        assert(s@.take(i + 1).drop_last() =~= s@.take(i as int));
        assert(s@.take(i + 1).last() == c@[i as int]);
        if c[i] == '\n' {
            let end = if i > start && c[i - 1] == '\r' { i - 1 } else { i };
            let line = s.substring_char(start, end).to_owned();
            proof {
                let seg = s@.subrange(start as int, i as int);
                if i > start && c@[i - 1] == '\r' {
                    assert(seg.drop_last() =~= s@.subrange(start as int, end as int));
                } else {
                    assert(seg =~= s@.subrange(start as int, end as int));
                }
                assert(line@ == strip_cr(p.last()));
            }
            let ghost before = out@;
            out.push(line);
            proof {
                let f = |l: Seq<char>| strip_cr(l);
                assert(newline_pieces(s@.take(i + 1)) == p.push(Seq::<char>::empty()));
                assert(p.push(Seq::<char>::empty()).drop_last() =~= p);
                assert(p.map_values(f) =~= p.drop_last().map_values(f).push(f(p.last())));
                assert(views(out@) =~= views(before).push(line@));
                assert(s@.subrange(i + 1, i + 1) =~= Seq::<char>::empty());
            }
            start = i + 1;
        } else {
            proof {
                let q = newline_pieces(s@.take(i + 1));
                assert(q == p.update(p.len() - 1, p.last().push(c@[i as int])));
                assert(q.drop_last() =~= p.drop_last());
                assert(s@.subrange(start as int, i + 1) =~= p.last().push(c@[i as int]));
            }
        }
        i = i + 1;
    }
    assert(s@.take(n as int) =~= s@);
    if start < n {
        let line = s.substring_char(start, n).to_owned();
        let ghost before = out@;
        out.push(line);
        assert(views(out@) =~= views(before).push(line@));
    }
    out
}


/// Whether `a` and `b` hold the same characters.
pub fn str_eq(a: &str, b: &str) -> (r: bool)
    ensures
        r == (a@ == b@),
{
    let x = chars_of(a);
    let y = chars_of(b);
    if x.len() != y.len() {
        return false;
    }
    let r = occurs_at_exec(&x, &y, 0);
    assert(a@.subrange(0, a@.len() as int) =~= a@);
    r
}


/// Text without a newline is a single piece.
pub proof fn lemma_pieces_single(b: Seq<char>)
    requires
        !b.contains('\n'),
    ensures
        newline_pieces(b) == seq![b],
    decreases b.len(),
{
    if b.len() > 0 {
        let d = b.drop_last();
        assert(!d.contains('\n')) by {
            if d.contains('\n') {
                let i = choose|i: int| 0 <= i < d.len() && d[i] == '\n';
                assert(b[i] == '\n');
            }
        }
        lemma_pieces_single(d);
        assert(b[b.len() - 1] != '\n');
        assert(d.push(b.last()) =~= b);
        assert(seq![d].update(0, d.push(b.last())) =~= seq![b]);
    } else {
        assert(b =~= Seq::<char>::empty());
    }
}

/// A newline followed by text without newlines adds that text as one more
/// piece.
pub proof fn lemma_pieces_after_newline(a: Seq<char>, b: Seq<char>)
    requires
        !b.contains('\n'),
    ensures
        newline_pieces(a + seq!['\n'] + b) == newline_pieces(a).push(b),
    decreases b.len(),
{
    let s = a + seq!['\n'] + b;
    if b.len() == 0 {
        assert(s.drop_last() =~= a);
        assert(b =~= Seq::<char>::empty());
    } else {
        let d = b.drop_last();
        assert(!d.contains('\n')) by {
            if d.contains('\n') {
                let i = choose|i: int| 0 <= i < d.len() && d[i] == '\n';
                assert(b[i] == '\n');
            }
        }
        lemma_pieces_after_newline(a, d);
        assert(s.drop_last() =~= a + seq!['\n'] + d);
        assert(s.last() == b[b.len() - 1]);
        assert(b[b.len() - 1] != '\n');
        assert(d.push(b.last()) =~= b);
        assert(newline_pieces(a).push(d).update(newline_pieces(a).len() as int, d.push(b.last()))
            =~= newline_pieces(a).push(b));
    }
}


proof fn lemma_leading_trimmed(s: Seq<char>)
    ensures
        trim_leading_quotes(s).len() == 0 || trim_leading_quotes(s)[0] != '"',
        trim_leading_quotes(s).len() <= s.len(),
    decreases s.len(),
{
    if s.len() > 0 && s[0] == '"' {
        lemma_leading_trimmed(s.drop_first());
    }
}

proof fn lemma_trailing_trimmed(s: Seq<char>)
    ensures
        trim_trailing_quotes(s).len() == 0 || trim_trailing_quotes(s).last() != '"',
        trim_trailing_quotes(s).len() <= s.len(),
        trim_trailing_quotes(s) == s.take(trim_trailing_quotes(s).len() as int),
    decreases s.len(),
{
    if s.len() > 0 && s.last() == '"' {
        lemma_trailing_trimmed(s.drop_last());
        let t = trim_trailing_quotes(s.drop_last());
        assert(s.drop_last().take(t.len() as int) =~= s.take(t.len() as int));
    } else {
        assert(s.take(s.len() as int) =~= s);
    }
}

/// Trimming leaves no double quote at either end.
pub proof fn law_trimmed_is_unquoted(s: Seq<char>)
    ensures
        trim_quotes(s).len() == 0 || (trim_quotes(s)[0] != '"' && trim_quotes(s).last() != '"'),
{
    let l = trim_leading_quotes(s);
    lemma_leading_trimmed(s);
    lemma_trailing_trimmed(l);
    let t = trim_trailing_quotes(l);
    if t.len() > 0 {
        assert(t[0] == l.take(t.len() as int)[0]);
    }
}


/// There is always at least one piece.
pub proof fn lemma_pieces_nonempty(s: Seq<char>)
    ensures
        newline_pieces(s).len() >= 1,
    decreases s.len(),
{
    if s.len() > 0 {
        lemma_pieces_nonempty(s.drop_last());
    }
}

/// Text that is empty or ends with a newline ends with an empty piece.
pub open spec fn ends_a_line(p: Seq<char>) -> bool {
    p.len() == 0 || p.last() == '\n'
}

proof fn lemma_pieces_concat(p: Seq<char>, c: Seq<char>)
    requires
        ends_a_line(p),
    ensures
        newline_pieces(p + c) == newline_pieces(p).drop_last() + newline_pieces(c),
    decreases c.len(),
{
    lemma_pieces_nonempty(p);
    let d = newline_pieces(p).drop_last();
    if p.len() > 0 {
        assert(p.drop_last().push(p.last()) =~= p);
    }
    assert(newline_pieces(p).last().len() == 0);
    if c.len() == 0 {
        assert(p + c =~= p);
        assert(d + newline_pieces(c) =~= newline_pieces(p));
    } else {
        let cd = c.drop_last();
        lemma_pieces_concat(p, cd);
        lemma_pieces_nonempty(cd);
        assert((p + c).drop_last() =~= p + cd);
        assert((p + c).last() == c.last());
        let q = newline_pieces(cd);
        if c.last() == '\n' {
            assert((d + q).push(Seq::<char>::empty()) =~= d + q.push(Seq::<char>::empty()));
        } else {
            assert((d + q).update((d + q).len() - 1, (d + q).last().push(c.last())) =~= d
                + q.update(q.len() - 1, q.last().push(c.last())));
        }
    }
}

/// The lines of a text that is empty or ends with a newline, followed by
/// more text, are its own lines followed by the lines of the rest.
pub proof fn law_lines_of_concat(p: Seq<char>, c: Seq<char>)
    requires
        ends_a_line(p),
    ensures
        lines_of(p + c) == lines_of(p) + lines_of(c),
{
    lemma_pieces_concat(p, c);
    lemma_pieces_nonempty(p);
    lemma_pieces_nonempty(c);
    if p.len() > 0 {
        assert(p.drop_last().push(p.last()) =~= p);
    }
    let f = |l: Seq<char>| strip_cr(l);
    let d = newline_pieces(p).drop_last();
    let q = newline_pieces(c);
    assert((d + q).drop_last() =~= d + q.drop_last());
    assert((d + q.drop_last()).map_values(f) =~= d.map_values(f) + q.drop_last().map_values(f));
    assert((d + q).last() == q.last());
    if q.last().len() == 0 {
    } else {
        assert((d.map_values(f) + q.drop_last().map_values(f)).push(q.last()) =~= d.map_values(f)
            + q.drop_last().map_values(f).push(q.last()));
    }
}


proof fn lemma_leading_shape(s: Seq<char>) -> (i: int)
    ensures
        0 <= i <= s.len(),
        trim_leading_quotes(s) == s.skip(i),
        forall|t: int| 0 <= t < i ==> s[t] == '"',
        i < s.len() ==> s[i] != '"',
    decreases s.len(),
{
    if s.len() > 0 && s[0] == '"' {
        let d = s.drop_first();
        let i = lemma_leading_shape(d);
        assert(d.skip(i) =~= s.skip(i + 1));
        assert forall|t: int| 0 <= t < i + 1 implies s[t] == '"' by {
            if t > 0 {
                assert(s[t] == d[t - 1]);
            }
        }
        if i + 1 < s.len() {
            assert(s[i + 1] == d[i]);
        }
        i + 1
    } else {
        assert(s.skip(0) =~= s);
        0
    }
}

proof fn lemma_trailing_shape(s: Seq<char>) -> (j: int)
    ensures
        0 <= j <= s.len(),
        trim_trailing_quotes(s) == s.take(j),
        forall|t: int| j <= t < s.len() ==> s[t] == '"',
        j > 0 ==> s[j - 1] != '"',
    decreases s.len(),
{
    if s.len() > 0 && s.last() == '"' {
        let d = s.drop_last();
        let j = lemma_trailing_shape(d);
        assert(d.take(j) =~= s.take(j));
        assert forall|t: int| j <= t < s.len() implies s[t] == '"' by {
            if t < d.len() {
                assert(s[t] == d[t]);
            }
        }
        if j > 0 {
            assert(s[j - 1] == d[j - 1]);
        }
        j
    } else {
        assert(s.take(s.len() as int) =~= s);
        s.len() as int
    }
}

/// Trimming removes double quotes at the ends and nothing else: the result
/// is the part of `s` between a run of leading quotes and a run of trailing
/// quotes, and it neither begins nor ends with a quote (so a text such as
/// `22.04` or `a"b` is kept whole).
pub proof fn law_trim_removes_only_end_quotes(s: Seq<char>)
    ensures
        exists|i: int, j: int|
            0 <= i <= j <= s.len() && trim_quotes(s) == s.subrange(i, j) && (forall|t: int|
                0 <= t < i ==> s[t] == '"') && (forall|t: int| j <= t < s.len() ==> s[t] == '"')
                && (i < j ==> s[i] != '"' && s[j - 1] != '"'),
        (s.len() == 0 || (s[0] != '"' && s.last() != '"')) ==> trim_quotes(s) == s,
{
    let i = lemma_leading_shape(s);
    let l = s.skip(i);
    let j = lemma_trailing_shape(l);
    assert(l.take(j) =~= s.subrange(i, i + j));
    assert forall|t: int| i + j <= t < s.len() implies s[t] == '"' by {
        assert(s[t] == l[t - i]);
    }
    if 0 < j {
        assert(s[i + j - 1] == l[j - 1]);
        assert(s[i] == l[0]);
    }
    assert(trim_quotes(s) == s.subrange(i, i + j));
    assert(forall|t: int| 0 <= t < i ==> s[t] == '"');
    if s.len() == 0 || (s[0] != '"' && s.last() != '"') {
        if s.len() > 0 {
            assert(i == 0);
            assert(i + j == s.len()) by {
                if i + j < s.len() {
                    assert(s[s.len() - 1] == '"');
                }
            }
        }
        assert(s.subrange(i, i + j) =~= s);
    }
}

} // verus!
