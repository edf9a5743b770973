//! A compiled `^KEY=(.*)$` pattern, kept with its text, and its two calls
//! into `fancy_regex`.

use vstd::prelude::*;
use fancy_regex::Regex;
use crate::os_release::{is_value_pattern, key_value, pattern_key};

verus! {

#[verifier::external_type_specification]
#[verifier::external_body]
pub struct ExRegex(fancy_regex::Regex);

/// A pattern `^KEY=(.*)$`, compiled, together with its text.  Its fields are
/// private to this module and only `compile_value_pattern` builds one, so
/// `re` is always the compilation of `source`.
pub struct ValuePattern {
    re: Regex,
    source: String,
}

impl ValuePattern {
    /// The text that the pattern was compiled from.
    pub closed spec fn source_text(&self) -> Seq<char> {
        self.source@
    }
}

/// Compiles `pattern` with `fancy_regex::Regex::new`.  Claimed of the crate:
/// such a pattern parses (only literals, `^`, `$`, `.`, `*` and one group) and
/// compiles without error, its key of at most 64 characters staying far below
/// the 10 MiB default size limit of the compiled program; it has no backreference or look-around, so it is
/// handed to the `regex` engine.  The claim is only that the text is kept
/// beside the compiled pattern.
#[verifier::external_body]
pub(crate) fn compile_value_pattern(pattern: String) -> (r: ValuePattern)
    requires
        is_value_pattern(pattern@),
    ensures
        r.source_text() == pattern@,
{
    ValuePattern { re: Regex::new(&pattern).unwrap(), source: pattern }
}

/// Calls `fancy_regex::Regex::captures` on `line` and returns capture group 1
/// (`Captures::get`, `Match::as_str`).  Claimed of the crate: for a pattern
/// `^KEY=(.*)$` delegated to the `regex` engine, `captures` reports no error;
/// `^` and `$` match only at the ends of the text (no multi-line flag) and
/// `.` matches every character but `\n`, so the group captures exactly the
/// text after `KEY=` when the line begins with it and holds no newline after
/// it, and there is no match otherwise.
#[verifier::external_body]
pub(crate) fn capture_value(p: &ValuePattern, line: &str) -> (res: Option<String>)
    requires
        is_value_pattern(p.source_text()),
    ensures
        match res {
            Some(v) => key_value(pattern_key(p.source_text()), line@) == Some(v@),
            None => key_value(pattern_key(p.source_text()), line@) is None,
        },
{
    match p.re.captures(line) {
        Ok(Some(caps)) => match caps.get(1) {
            Some(m) => Some(m.as_str().to_string()),
            None => None,
        },
        _ => None,
    }
}

} // verus!
