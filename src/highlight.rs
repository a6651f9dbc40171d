//! Marking every case-insensitive occurrence of a literal term in a text.
//!
//! The term is escaped and compiled into a case-insensitive regular
//! expression; the text is then cut into the pieces between matches and the
//! matches themselves, and each match is wrapped in a pair of markers.

use vstd::prelude::*;
use vstd::string::*;

use crate::matcher::{regex_compiles, regex_found, regex_gaps, Matcher};

verus! {

/// The characters that have a meaning of their own in a regular expression.
pub open spec fn is_meta(c: char) -> bool {
    c == '\\' || c == '.' || c == '+' || c == '*' || c == '?' || c == '(' || c == ')' || c == '|'
        || c == '[' || c == ']' || c == '{' || c == '}' || c == '^' || c == '$' || c == '#' || c
        == '&' || c == '-' || c == '~'
}

/// `s` with a backslash put before each meta character.
pub open spec fn escaped(s: Seq<char>) -> Seq<char>
    decreases s.len(),
{
    if s.len() == 0 {
        seq![]
    } else {
        escaped(s.drop_last()) + if is_meta(s.last()) {
            seq!['\\', s.last()]
        } else {
            seq![s.last()]
        }
    }
}

/// The pattern that matches `term` literally, ignoring case.
pub open spec fn case_insensitive_pattern(term: Seq<char>) -> Seq<char> {
    seq!['(', '?', 'i', ')'] + escaped(term)
}

/// The pieces `gaps[0], found[0], gaps[1], ..., found[n-1], gaps[n]` joined,
/// with each `found[k]` put between `start` and `end`.
pub open spec fn marked(
    gaps: Seq<Seq<char>>,
    found: Seq<Seq<char>>,
    start: Seq<char>,
    end: Seq<char>,
) -> Seq<char>
    decreases found.len(),
{
    if found.len() == 0 {
        if gaps.len() > 0 {
            gaps[0]
        } else {
            seq![]
        }
    } else {
        marked(gaps.drop_last(), found.drop_last(), start, end) + start + found.last() + end
            + gaps.last()
    }
}

/// `content` with every case-insensitive occurrence of the literal `term`
/// put between `start` and `end`; `content` itself where the pattern for
/// `term` cannot be compiled.
pub open spec fn highlighted_with(
    term: Seq<char>,
    content: Seq<char>,
    start: Seq<char>,
    end: Seq<char>,
) -> Seq<char> {
    let p = case_insensitive_pattern(term);
    if regex_compiles(p) {
        marked(regex_gaps(p, content), regex_found(p, content), start, end)
    } else {
        content
    }
}

/// The pieces between matches and the matches themselves, taken in turn,
/// give back `content`: what the markers wrap is the text as it stands.
pub open spec fn rebuilds(term: Seq<char>, content: Seq<char>) -> bool {
    let p = case_insensitive_pattern(term);
    regex_compiles(p) ==> marked(regex_gaps(p, content), regex_found(p, content), seq![], seq![])
        == content
}

/// The escape sequence that turns the foreground purple.
pub open spec fn purple_start() -> Seq<char> {
    seq!['\u{1b}', '[', '3', '5', 'm']
}

/// The escape sequence that resets all attributes.
pub open spec fn attributes_reset() -> Seq<char> {
    seq!['\u{1b}', '[', '0', 'm']
}

/// `content` with every case-insensitive occurrence of `term` shown in purple.
pub open spec fn highlighted(term: Seq<char>, content: Seq<char>) -> Seq<char> {
    highlighted_with(term, content, purple_start(), attributes_reset())
}

/// Relies on `regex::escape`: a backslash goes before each character for
/// which `regex_syntax::is_meta_character` holds, and nothing else changes.
#[verifier::external_body]
fn escape(s: &str) -> (r: String)
    ensures
        r@ == escaped(s@),
{
    regex::escape(s)
}

/// Relies on `colored::Color::to_fg_str`: the parameter of the magenta
/// (purple) foreground is `35`.
#[verifier::external_body]
fn magenta_code() -> (r: String)
    ensures
        r@ == seq!['3', '5'],
{
    colored::Color::Magenta.to_fg_str().into_owned()
}

/// Joins `gaps[0], found[0], gaps[1], ..., gaps[n]`, putting each match
/// between `start` and `end`.
pub fn mark_matches(gaps: &Vec<String>, found: &Vec<String>, start: &str, end: &str) -> (r: String)
    requires
        gaps.len() == found.len() + 1,
    ensures
        r@ == marked(
            gaps@.map_values(|s: String| s@),
            found@.map_values(|s: String| s@),
            start@,
            end@,
        ),
{
    let ghost g = gaps@.map_values(|s: String| s@);
    let ghost f = found@.map_values(|s: String| s@);
    let mut r = gaps[0].clone();
    assert(g.subrange(0, 1).len() == 1);
    let mut k: usize = 0;
    while k < found.len()
        invariant
            gaps.len() == found.len() + 1,
            g == gaps@.map_values(|s: String| s@),
            f == found@.map_values(|s: String| s@),
            k <= found.len(),
            r@ == marked(g.subrange(0, k + 1), f.subrange(0, k as int), start@, end@),
        decreases found.len() - k,
    {
        r.append(start);
        r.append(found[k].as_str());
        r.append(end);
        r.append(gaps[k + 1].as_str());
        assert(g.subrange(0, k + 2).drop_last() =~= g.subrange(0, k + 1));
        assert(f.subrange(0, k + 1).drop_last() =~= f.subrange(0, k as int));
        k = k + 1;
    }
    assert(g.subrange(0, k + 1) =~= g);
    assert(f.subrange(0, k as int) =~= f);
    r
}

/// `content` with every case-insensitive occurrence of the literal `term`
/// put between `start` and `end`, the matched text keeping its own case:
/// with empty markers the text comes back as it was.
pub fn highlight_marked(term: &str, content: &str, start: &str, end: &str) -> (r: String)
    ensures
        r@ == highlighted_with(term@, content@, start@, end@),
        start@.len() == 0 && end@.len() == 0 ==> r@ == content@,
        rebuilds(term@, content@),
{
    let mut pattern = "(?i)".to_owned();
    let escaped_term = escape(term);
    pattern.append(escaped_term.as_str());
    proof {
        reveal_strlit("(?i)");
    }
    assert(pattern@ =~= case_insensitive_pattern(term@));
    match Matcher::compile(pattern) {
        Ok(m) => {
            let gaps = m.gaps(content);
            let found = m.found(content);
            let r = mark_matches(&gaps, &found, start, end);
            assert(start@.len() == 0 && end@.len() == 0 ==> start@ == Seq::<char>::empty() && end@
                == Seq::<char>::empty());
            r
        },
        Err(_) => content.to_owned(),
    }
}

/// `content` with every case-insensitive occurrence of the literal `term`
/// shown in purple on a terminal.
pub fn highlight(term: &str, content: &str) -> (r: String)
    ensures
        r@ == highlighted(term@, content@),
        rebuilds(term@, content@),
{
    let mut start = "\u{1b}[".to_owned();
    let code = magenta_code();
    start.append(code.as_str());
    start.append("m");
    let end = "\u{1b}[0m".to_owned();
    proof {
        reveal_strlit("\u{1b}[");
        reveal_strlit("m");
        reveal_strlit("\u{1b}[0m");
    }
    assert(start@ =~= purple_start());
    assert(end@ =~= attributes_reset());
    highlight_marked(term, content, start.as_str(), end.as_str())
}

} // verus!
