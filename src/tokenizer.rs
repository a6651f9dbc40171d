//! Splitting text into maximal runs of alphanumeric characters.

use vstd::prelude::*;

verus! {

/// Whether `char::is_alphanumeric` holds of a character (Unicode `Alphabetic`
/// or `Numeric`).
pub uninterp spec fn alphanumeric(c: char) -> bool;

/// Relies on `char::is_alphanumeric`: its answer depends on the character alone.
#[verifier::external_body]
fn is_alphanumeric(c: char) -> (r: bool)
    ensures
        r == alphanumeric(c),
{
    c.is_alphanumeric()
}

/// The tokens of `s`: its maximal runs of alphanumeric characters, left to
/// right. The last character of `s` either extends the run that ends just
/// before it, starts a new run, or separates.
pub open spec fn tokens(s: Seq<char>) -> Seq<Seq<char>>
    decreases s.len(),
{
    if s.len() == 0 {
        seq![]
    } else {
        let prev = tokens(s.drop_last());
        let c = s.last();
        if !alphanumeric(c) {
            prev
        } else if s.len() > 1 && alphanumeric(s[s.len() - 2]) {
            prev.update(prev.len() - 1, prev.last().push(c))
        } else {
            prev.push(seq![c])
        }
    }
}

/// Splits `text` into its maximal runs of alphanumeric characters; every
/// other character separates, and empty pieces are dropped.
pub fn tokenize(text: &str) -> (r: Vec<&str>)
    ensures
        r@.map_values(|t: &str| t@) == tokens(text@),
{
    let n = text.unicode_len();
    let mut out: Vec<&str> = Vec::new();
    let mut start: usize = 0;
    let mut i: usize = 0;
    let mut in_run = false;
    for c in it: text.chars()
        invariant
            n == text@.len(),
            it.seq() == text@,
            i == it.index(),
            i <= n,
            in_run <==> (i > 0 && alphanumeric(text@[i - 1])),
            in_run ==> start < i,
            out@.map_values(|t: &str| t@) + (if in_run {
                seq![text@.subrange(start as int, i as int)]
            } else {
                seq![]
            }) == tokens(text@.subrange(0, i as int)),
    {
        let ghost prefix = text@.subrange(0, i as int);
        let ghost next = text@.subrange(0, i + 1);
        assert(next.drop_last() == prefix);
        assert(next.last() == c);
        if is_alphanumeric(c) {
            if !in_run {
                start = i;
                in_run = true;
                assert(text@.subrange(start as int, i + 1) =~= seq![c]);
                assert(out@.map_values(|t: &str| t@) + seq![text@.subrange(start as int, i + 1)]
                    =~= tokens(prefix).push(seq![c]));
            } else {
                assert(text@.subrange(start as int, i + 1) == text@.subrange(
                    start as int,
                    i as int,
                ).push(c));
            }
        } else if in_run {
            let ghost before = out@.map_values(|t: &str| t@);
            out.push(text.substring_char(start, i));
            in_run = false;
            assert(out@.map_values(|t: &str| t@) =~= before + seq![
                text@.subrange(start as int, i as int),
            ]);
        }
        i = i + 1;
    }
    if in_run {
        let ghost before = out@.map_values(|t: &str| t@);
        out.push(text.substring_char(start, i));
        assert(out@.map_values(|t: &str| t@) =~= before + seq![
            text@.subrange(start as int, i as int),
        ]);
    }
    assert(text@.subrange(0, i as int) == text@);
    out
}

/// Every token is non-empty and made of alphanumeric characters alone, and
/// the tokens joined end to end give back exactly the alphanumeric characters
/// of `s`, in order: what the separators removed is all that is missing.
pub proof fn lemma_tokens_are_alphanumeric_runs(s: Seq<char>)
    ensures
        forall|k: int|
            0 <= k < tokens(s).len() ==> #[trigger] tokens(s)[k].len() > 0 && forall|j: int|
                0 <= j < tokens(s)[k].len() ==> alphanumeric(#[trigger] tokens(s)[k][j]),
        tokens(s).flatten() == s.filter(|c: char| alphanumeric(c)),
        s.len() > 0 && alphanumeric(s.last()) ==> tokens(s).len() > 0,
    decreases s.len(),
{
    reveal(Seq::filter);
    tokens(s).lemma_flatten_and_flatten_alt_are_equivalent();
    if s.len() > 0 {
        let rest = s.drop_last();
        lemma_tokens_are_alphanumeric_runs(rest);
        tokens(rest).lemma_flatten_and_flatten_alt_are_equivalent();
        let prev = tokens(rest);
        let c = s.last();
        if alphanumeric(c) {
            if s.len() > 1 && alphanumeric(s[s.len() - 2]) {
                assert(rest.last() == s[s.len() - 2]);
                let cur = tokens(s);
                assert(cur.drop_last() =~= prev.drop_last());
                assert(prev.flatten_alt() == prev.drop_last().flatten_alt() + prev.last());
                assert(cur.flatten_alt() =~= prev.flatten_alt().push(c));
                assert forall|k: int| 0 <= k < cur.len() implies #[trigger] cur[k].len() > 0
                    && forall|j: int| 0 <= j < cur[k].len() ==> alphanumeric(#[trigger] cur[k][j]) by {
                    if k == cur.len() - 1 {
                        assert forall|j: int| 0 <= j < cur[k].len() implies alphanumeric(
                            #[trigger] cur[k][j],
                        ) by {
                            if j < prev.last().len() {
                                assert(cur[k][j] == prev[prev.len() - 1][j]);
                            }
                        }
                    }
                }
            } else {
                let cur = tokens(s);
                assert(cur.drop_last() =~= prev);
                assert(cur.flatten_alt() =~= prev.flatten_alt() + seq![c]);
            }
        }
    }
}

/// `seps[0], items[0], seps[1], ..., items[n-1], seps[n]` joined.
pub open spec fn interleaved(seps: Seq<Seq<char>>, items: Seq<Seq<char>>) -> Seq<char>
    decreases items.len(),
{
    if items.len() == 0 {
        if seps.len() > 0 {
            seps[0]
        } else {
            seq![]
        }
    } else {
        interleaved(seps.drop_last(), items.drop_last()) + items.last() + seps.last()
    }
}

/// `seps` are separators for the tokens of `s`: one more of them than there
/// are tokens, none holding an alphanumeric character, those between two
/// tokens non-empty, and tokens and separators taken in turn give back `s`.
pub open spec fn separates(s: Seq<char>, seps: Seq<Seq<char>>) -> bool {
    &&& seps.len() == tokens(s).len() + 1
    &&& forall|k: int, j: int|
        0 <= k < seps.len() && 0 <= j < seps[k].len() ==> !alphanumeric(#[trigger] seps[k][j])
    &&& forall|k: int| 0 < k < tokens(s).len() ==> #[trigger] seps[k].len() > 0
    &&& interleaved(seps, tokens(s)) == s
}

/// The separators of `s`, with the last one empty exactly when `s` ends in
/// an alphanumeric character.
proof fn lemma_separators(s: Seq<char>) -> (seps: Seq<Seq<char>>)
    ensures
        separates(s, seps),
        s.len() > 0 ==> (alphanumeric(s.last()) <==> seps.last().len() == 0),
    decreases s.len(),
{
    if s.len() == 0 {
        let seps = seq![Seq::<char>::empty()];
        assert(interleaved(seps, tokens(s)) == seps[0]);
        assert(s =~= seps[0]);
        assert(forall|k: int| 0 <= k < seps.len() ==> #[trigger] seps[k].len() == 0);
        assert(separates(s, seps));
        seps
    } else {
        let rest = s.drop_last();
        let prev = tokens(rest);
        let c = s.last();
        let old_seps = lemma_separators(rest);
        lemma_tokens_are_alphanumeric_runs(rest);
        let n = prev.len() as int;
        if !alphanumeric(c) {
            let seps = old_seps.update(n, old_seps[n].push(c));
            assert(seps.drop_last() =~= old_seps.drop_last());
            assert(s =~= rest.push(c));
            assert(seps.last() == old_seps.last().push(c));
            if n > 0 {
                assert(rest == interleaved(old_seps.drop_last(), prev.drop_last()) + prev.last()
                    + old_seps.last());
                assert(interleaved(seps, prev) == interleaved(old_seps.drop_last(), prev.drop_last())
                    + prev.last() + seps.last());
            }
            assert(interleaved(seps, prev) =~= s);
            assert forall|k: int, j: int|
                0 <= k < seps.len() && 0 <= j < seps[k].len() implies !alphanumeric(
                #[trigger] seps[k][j],
            ) by {
                if k == n && j < old_seps[n].len() {
                    assert(seps[k][j] == old_seps[n][j]);
                }
            }
            seps
        } else if s.len() > 1 && alphanumeric(s[s.len() - 2]) {
            assert(rest.last() == s[s.len() - 2]);
            let cur = tokens(s);
            assert(cur.drop_last() =~= prev.drop_last());
            assert(n > 0);
            assert(s =~= rest.push(c));
            assert(old_seps.last() =~= Seq::<char>::empty());
            assert(rest == interleaved(old_seps.drop_last(), prev.drop_last()) + prev.last()
                + old_seps.last());
            assert(cur.last() == prev.last().push(c));
            assert(interleaved(old_seps, cur) == interleaved(old_seps.drop_last(), cur.drop_last())
                + cur.last() + old_seps.last());
            assert(interleaved(old_seps, cur) =~= s);
            assert(separates(s, old_seps));
            old_seps
        } else {
            let cur = tokens(s);
            let seps = old_seps.push(Seq::<char>::empty());
            assert(cur.drop_last() =~= prev);
            assert(seps.drop_last() =~= old_seps);
            assert(interleaved(seps, cur) =~= s);
            assert forall|k: int| 0 < k < cur.len() implies #[trigger] seps[k].len() > 0 by {
                if k == n {
                    assert(rest.last() == s[s.len() - 2]);
                }
            }
            assert forall|k: int, j: int|
                0 <= k < seps.len() && 0 <= j < seps[k].len() implies !alphanumeric(
                #[trigger] seps[k][j],
            ) by {
                assert(k < n + 1);
                assert(seps[k] == old_seps[k]);
            }
            assert(separates(s, seps));
            seps
        }
    }
}

/// The tokens of `s` are exactly its maximal alphanumeric runs: between
/// them, and before and after them, stand only non-alphanumeric characters,
/// at least one between any two tokens.
pub proof fn lemma_tokens_are_maximal_runs(s: Seq<char>)
    ensures
        exists|seps: Seq<Seq<char>>| separates(s, seps),
{
    let seps = lemma_separators(s);
    assert(separates(s, seps));
}

} // verus!
