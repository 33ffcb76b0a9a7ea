//! Splitting a raw input line into whitespace-separated word tokens.

use vstd::prelude::*;

verus! {

/// Character-for-character equality of two string slices.
pub fn str_eq(a: &str, b: &str) -> (r: bool)
    ensures
        r == (a@ == b@),
{
    let na = a.unicode_len();
    let nb = b.unicode_len();
    if na != nb {
        return false;
    }
    let mut i: usize = 0;
    while i < na
        invariant
            0 <= i <= na,
            na == a@.len(),
            na == b@.len(),
            forall|k: int| 0 <= k < i ==> a@[k] == b@[k],
        decreases na - i,
    {
        if a.get_char(i) != b.get_char(i) {
            return false;
        }
        i = i + 1;
    }
    proof {
        assert(a@ =~= b@);
    }
    true
}

/// An ASCII whitespace character, the token separators of an input line.
pub open spec fn is_ws(c: char) -> bool {
    c == ' ' || c == '\t' || c == '\n' || c == '\r' || c == '\u{c}'
}

fn is_ws_char(c: char) -> (r: bool)
    ensures
        r == is_ws(c),
{
    c == ' ' || c == '\t' || c == '\n' || c == '\r' || c == '\u{c}'
}

/// The length of the unbroken run of non-whitespace characters starting at `i`.
pub open spec fn run_len(s: Seq<char>, i: int) -> nat
    decreases s.len() - i,
{
    if i < 0 || i >= s.len() || is_ws(s[i]) {
        0
    } else {
        1 + run_len(s, i + 1)
    }
}

/// The word tokens of `s` from position `i` on: maximal runs of
/// non-whitespace characters, in order.
pub open spec fn tokens_from(s: Seq<char>, i: int) -> Seq<Seq<char>>
    decreases s.len() - i,
    via tokens_from_dec
{
    if i < 0 || i >= s.len() {
        Seq::empty()
    } else if is_ws(s[i]) {
        tokens_from(s, i + 1)
    } else {
        let rl = 1 + run_len(s, i + 1);
        seq![s.subrange(i, i + rl)] + tokens_from(s, i + rl)
    }
}

#[via_fn]
proof fn tokens_from_dec(s: Seq<char>, i: int) {
    if 0 <= i && i < s.len() && !is_ws(s[i]) {
        lemma_run_len_bound(s, i + 1);
    }
}

/// The word tokens of a whole line.
pub open spec fn tokenize_spec(s: Seq<char>) -> Seq<Seq<char>> {
    tokens_from(s, 0)
}

proof fn lemma_run_len_bound(s: Seq<char>, i: int)
    requires
        0 <= i <= s.len(),
    ensures
        i + run_len(s, i) <= s.len(),
    decreases s.len() - i,
{
    if i < s.len() && !is_ws(s[i]) {
        lemma_run_len_bound(s, i + 1);
    }
}

proof fn lemma_run_len_exact(s: Seq<char>, i: int, j: int)
    requires
        0 <= i <= j <= s.len(),
        forall|k: int| i <= k < j ==> !is_ws(#[trigger] s[k]),
        j == s.len() || is_ws(s[j]),
    ensures
        run_len(s, i) == j - i,
    decreases j - i,
{
    if i < j {
        lemma_run_len_exact(s, i + 1, j);
    }
}

/// Splits a line into its whitespace-separated words, exactly as
/// `tokenize_spec` describes.
pub fn tokenize(line: &str) -> (r: Vec<String>)
    ensures
        r.deep_view() == tokenize_spec(line@),
{
    let n = line.unicode_len();
    let mut toks: Vec<String> = Vec::new();
    let mut i: usize = 0;
    while i < n
        invariant
            0 <= i <= n,
            n == line@.len(),
            toks.deep_view() + tokens_from(line@, i as int) == tokenize_spec(line@),
        decreases n - i,
    {
        let c = line.get_char(i);
        if is_ws_char(c) {
            i = i + 1;
        } else {
            let start = i;
            let mut j = i + 1;
            while j < n && !is_ws_char(line.get_char(j))
                invariant
                    n == line@.len(),
                    start < j <= n,
                    forall|k: int| start <= k < j ==> !is_ws(#[trigger] line@[k]),
                decreases n - j,
            {
                j = j + 1;
            }
            proof {
                lemma_run_len_exact(line@, start as int, j as int);
            }
            let word = line.substring_char(start, j).to_owned();
            proof {
                let old_toks = toks.deep_view();
                assert(tokens_from(line@, start as int) == seq![line@.subrange(
                    start as int,
                    j as int,
                )] + tokens_from(line@, j as int));
                assert((old_toks.push(word@)) + tokens_from(line@, j as int) =~= old_toks + (seq![
                    word@,
                ] + tokens_from(line@, j as int)));
            }
            let ghost pre = toks.deep_view();
            toks.push(word);
            proof {
                assert(toks.deep_view() =~= pre.push(word@));
            }
            i = j;
        }
    }
    proof {
        assert(tokens_from(line@, i as int) =~= Seq::<Seq<char>>::empty());
        assert(toks.deep_view() =~= toks.deep_view() + Seq::<Seq<char>>::empty());
    }
    toks
}

} // verus!
