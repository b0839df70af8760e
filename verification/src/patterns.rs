//! The two text patterns of the preprocessor: the `<file>` form of a system
//! include, and `${NAME}` references, which the `regex` crate finds.
use vstd::prelude::*;

use crate::text::{chars_of, string_of, sub_chars};

verus! {

/// What `^<(?<file>.*)>$` captures as `file`: the text between a leading `<`
/// and a trailing `>`, provided it holds no line feed (`.` does not match one).
pub open spec fn system_include_target(arg: Seq<char>) -> Option<Seq<char>> {
    if arg.len() >= 2 && arg[0] == '<' && arg.last() == '>' && (forall|i: int|
        1 <= i < arg.len() - 1 ==> arg[i] != '\n') {
        Some(arg.subrange(1, arg.len() - 1))
    } else {
        None
    }
}

/// The names that `\$\{(?<key>[a-zA-Z_][\w\d]*)\}` captures as `key` in
/// `line`, one per match, in the order that `Regex::captures_iter` finds them.
pub uninterp spec fn replacement_keys(line: Seq<char>) -> Seq<Seq<char>>;

/// Matches `arg` against `^<(?<file>.*)>$` and returns the `file` group
/// (see [`system_include_target`]).
pub fn match_system_include(arg: &str) -> (r: Option<String>)
    ensures
        match r {
            Some(f) => system_include_target(arg@) == Some(f@),
            None => system_include_target(arg@) is None,
        },
{
    let c = chars_of(arg);
    let n = c.len();
    if n < 2 || c[0] != '<' || c[n - 1] != '>' {
        return None;
    }
    let mut i: usize = 1;
    while i < n - 1
        invariant
            1 <= i <= n - 1,
            n == c@.len(),
            c@ == arg@,
            forall|j: int| 1 <= j < i ==> c@[j] != '\n',
        decreases n - 1 - i,
    {
        if c[i] == '\n' {
            return None;
        }
        i = i + 1;
    }
    let inner = sub_chars(c.as_slice(), 1, n - 1);
    Some(string_of(inner.as_slice()))
}

/// Runs `regex::Regex::captures_iter` with `\$\{(?<key>[a-zA-Z_][\w\d]*)\}`
/// over `line` and returns the `key` group of each match. The result is
/// named, not described: `\w` is Unicode's word class.
#[verifier::external_body]
pub(crate) fn match_replacement_keys(line: &str) -> (r: Vec<String>)
    ensures
        r@.map_values(|s: String| s@) == replacement_keys(line@),
{
    regex::Regex::new(r"\$\{(?<key>[a-zA-Z_][\w\d]*)\}").unwrap().captures_iter(line).map(
        |m| m.name("key").unwrap().as_str().to_string(),
    ).collect()
}

} // verus!
