//! Cutting a line into its whitespace-delimited tokens.

use vstd::prelude::*;

verus! {

/// The characters that separate tokens: those with Unicode's White_Space
/// property.
pub open spec fn is_space(c: char) -> bool {
    let u = c as u32;
    ||| 0x09 <= u <= 0x0d
    ||| u == 0x20
    ||| u == 0x85
    ||| u == 0xa0
    ||| u == 0x1680
    ||| 0x2000 <= u <= 0x200a
    ||| u == 0x2028
    ||| u == 0x2029
    ||| u == 0x202f
    ||| u == 0x205f
    ||| u == 0x3000
}

/// Whether a character separates tokens.
pub fn is_whitespace(c: char) -> (r: bool)
    ensures
        r == is_space(c),
{
    let u: u32 = c as u32;
    (0x09 <= u && u <= 0x0d) || u == 0x20 || u == 0x85 || u == 0xa0 || u == 0x1680 || (0x2000 <= u
        && u <= 0x200a) || u == 0x2028 || u == 0x2029 || u == 0x202f || u == 0x205f || u == 0x3000
}

/// The tokens of a line: its maximal runs of characters that are not
/// whitespace, in order. Read from the left, a whitespace character adds
/// nothing, a character after another of a token extends the last token, and
/// any other character opens a new one.
pub open spec fn tokens(s: Seq<char>) -> Seq<Seq<char>>
    decreases s.len(),
{
    if s.len() == 0 {
        Seq::empty()
    } else {
        let before = tokens(s.drop_last());
        let c = s.last();
        if is_space(c) {
            before
        } else if s.len() >= 2 && !is_space(s[s.len() - 2]) {
            before.drop_last().push(before.last().push(c))
        } else {
            before.push(seq![c])
        }
    }
}

/// A token: at least one character, none of them whitespace.
pub open spec fn is_word(t: Seq<char>) -> bool {
    t.len() > 0 && forall|i: int| 0 <= i < t.len() ==> !is_space(#[trigger] t[i])
}

/// Every token of a line is a word, and a line that ends in a character
/// other than whitespace has a token.
pub proof fn lemma_tokens_are_words(s: Seq<char>)
    ensures
        forall|k: int| 0 <= k < tokens(s).len() ==> is_word(#[trigger] tokens(s)[k]),
        s.len() > 0 && !is_space(s.last()) ==> tokens(s).len() > 0,
    decreases s.len(),
{
    if s.len() > 0 {
        lemma_tokens_are_words(s.drop_last());
        let before = tokens(s.drop_last());
        let c = s.last();
        if is_space(c) {
        } else if s.len() >= 2 && !is_space(s[s.len() - 2]) {
            assert(s.drop_last().last() == s[s.len() - 2]);
            let t = before.last().push(c);
            assert(is_word(before[before.len() - 1]));
            assert(is_word(t));
            assert forall|k: int| 0 <= k < tokens(s).len() implies is_word(#[trigger] tokens(s)[k]) by {
                if k < before.len() - 1 {
                    assert(tokens(s)[k] == before[k]);
                }
            }
        } else {
            assert(is_word(seq![c]));
            assert forall|k: int| 0 <= k < tokens(s).len() implies is_word(#[trigger] tokens(s)[k]) by {
                if k < before.len() {
                    assert(tokens(s)[k] == before[k]);
                }
            }
        }
    }
}

/// The tokens of a line, put end to end, are the characters of the line
/// that are not whitespace, in order: tokenizing drops whitespace and nothing
/// else.
pub proof fn lemma_tokens_keep_the_rest(s: Seq<char>)
    ensures
        tokens(s).flatten_alt() == s.filter(|c: char| !is_space(c)),
    decreases s.len(),
{
    reveal(Seq::filter);
    let keep = |c: char| !is_space(c);
    if s.len() == 0 {
        assert(tokens(s).flatten_alt() =~= s.filter(keep));
    } else {
        lemma_tokens_keep_the_rest(s.drop_last());
        lemma_tokens_are_words(s.drop_last());
        let before = tokens(s.drop_last());
        let c = s.last();
        if is_space(c) {
        } else if s.len() >= 2 && !is_space(s[s.len() - 2]) {
            assert(s.drop_last().last() == s[s.len() - 2]);
            let t = before.last().push(c);
            let now = before.drop_last().push(t);
            assert(now.drop_last() =~= before.drop_last());
            assert(now.last() == t);
            assert(now.flatten_alt() =~= before.flatten_alt().push(c));
        } else {
            let now = before.push(seq![c]);
            assert(now.drop_last() =~= before);
            assert(now.flatten_alt() =~= before.flatten_alt().push(c));
        }
    }
}

/// The pieces of `s` that a list of index pairs cuts out.
pub open spec fn pieces(s: Seq<char>, spans: Seq<(usize, usize)>) -> Seq<Seq<char>> {
    Seq::new(spans.len(), |k: int| s.subrange(spans[k].0 as int, spans[k].1 as int))
}

/// Every pair lies in a sequence of length `n`, first index before second.
pub open spec fn spans_within(spans: Seq<(usize, usize)>, n: int) -> bool {
    forall|k: int| 0 <= k < spans.len() ==> (#[trigger] spans[k]).0 < spans[k].1 <= n
}

/// Where each token of a line starts and ends.
pub fn token_spans(cs: &Vec<char>) -> (spans: Vec<(usize, usize)>)
    ensures
        spans_within(spans@, cs@.len() as int),
        pieces(cs@, spans@) == tokens(cs@),
{
    let mut spans: Vec<(usize, usize)> = Vec::new();
    let mut in_token: bool = false;
    let mut i: usize = 0;
    assert(cs@.take(0) =~= Seq::empty());
    assert(pieces(cs@, spans@) =~= tokens(cs@.take(0)));
    while i < cs.len()
        invariant
            i <= cs.len(),
            spans_within(spans@, i as int),
            pieces(cs@, spans@) == tokens(cs@.take(i as int)),
            in_token == (i > 0 && !is_space(cs@[i - 1])),
            in_token ==> spans@.len() > 0 && spans@.last().1 == i,
        decreases cs.len() - i,
    {
        let c: char = cs[i];
        let ghost prefix = cs@.take(i as int);
        let ghost next = cs@.take(i + 1);
        let ghost old_pieces = pieces(cs@, spans@);
        assert(next.drop_last() =~= prefix);
        assert(next.last() == c);
        assert(i > 0 ==> next[next.len() - 2] == cs@[i - 1]);
        if is_whitespace(c) {
            in_token = false;
        } else if in_token {
            let last: usize = spans.len() - 1;
            let a: usize = spans[last].0;
            spans.set(last, (a, i + 1));
            assert(cs@.subrange(a as int, i + 1) =~= cs@.subrange(a as int, i as int).push(c));
            assert(pieces(cs@, spans@) =~= old_pieces.drop_last().push(old_pieces.last().push(c)));
        } else {
            spans.push((i, i + 1));
            in_token = true;
            assert(cs@.subrange(i as int, i + 1) =~= seq![c]);
            assert(pieces(cs@, spans@) =~= old_pieces.push(seq![c]));
        }
        i += 1;
    }
    assert(cs@.take(i as int) =~= cs@);
    spans
}

} // verus!
