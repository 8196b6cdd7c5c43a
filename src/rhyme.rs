//! Rhyme candidates and the filters that narrow them.
use vstd::prelude::*;

verus! {

/// One rhyme candidate reported by a rhyme-lookup service.
#[derive(Debug, Clone, PartialEq, Eq)]
pub struct Rhyme {
    pub word: String,
    pub score: i32,
}

/// The code points of the Unicode `White_Space` property.
pub open spec fn is_space_code(v: u32) -> bool {
    (0x9 <= v <= 0xd) || v == 0x20 || v == 0x85 || v == 0xa0 || v == 0x1680 || (0x2000 <= v
        <= 0x200a) || v == 0x2028 || v == 0x2029 || v == 0x202f || v == 0x205f || v == 0x3000
}

pub open spec fn is_space_char(c: char) -> bool {
    is_space_code(c as u32)
}

/// A word is a single token when none of its characters is whitespace.
pub open spec fn is_single_word(w: Seq<char>) -> bool {
    forall|i: int| 0 <= i < w.len() ==> !is_space_char(#[trigger] w[i])
}

pub open spec fn single_word_rhyme(r: Rhyme) -> bool {
    is_single_word(r.word@)
}

/// Whether `c` is whitespace, by the same rule as `char::is_whitespace`.
pub fn is_space(c: char) -> (r: bool)
    ensures
        r == is_space_char(c),
{
    let v = c as u32;
    (0x9 <= v && v <= 0xd) || v == 0x20 || v == 0x85 || v == 0xa0 || v == 0x1680 || (0x2000 <= v
        && v <= 0x200a) || v == 0x2028 || v == 0x2029 || v == 0x202f || v == 0x205f || v == 0x3000
}

/// Whether `w` holds no whitespace character at all.
pub fn is_single(w: &str) -> (r: bool)
    ensures
        r == is_single_word(w@),
{
    let n = w.unicode_len();
    let mut i: usize = 0;
    while i < n
        invariant
            n == w@.len(),
            i <= n,
            forall|k: int| 0 <= k < i ==> !is_space_char(#[trigger] w@[k]),
        decreases n - i,
    {
        if is_space(w.get_char(i)) {
            return false;
        }
        i = i + 1;
    }
    true
}

fn copy_rhyme(r: &Rhyme) -> (c: Rhyme)
    ensures
        c == *r,
{
    Rhyme { word: r.word.clone(), score: r.score }
}

/// Keeps the candidates whose word is a single token, in their order.
pub fn keep_single_words(rhymes: Vec<Rhyme>) -> (r: Vec<Rhyme>)
    ensures
        r@ == rhymes@.filter(|x: Rhyme| single_word_rhyme(x)),
        forall|i: int| 0 <= i < r@.len() ==> is_single_word(#[trigger] r@[i].word@),
        forall|i: int|
            0 <= i < rhymes@.len() && is_single_word(rhymes@[i].word@) ==> r@.contains(
                #[trigger] rhymes@[i],
            ),
{
    let mut out: Vec<Rhyme> = Vec::new();
    let mut i: usize = 0;
    while i < rhymes.len()
        invariant
            i <= rhymes@.len(),
            out@ == rhymes@.subrange(0, i as int).filter(|x: Rhyme| single_word_rhyme(x)),
        decreases rhymes@.len() - i,
    {
        let ghost s = rhymes@.subrange(0, i + 1);
        proof {
            assert(s.drop_last() == rhymes@.subrange(0, i as int));
            assert(s.last() == rhymes@[i as int]);
        }
        let keep = is_single(rhymes[i].word.as_str());
        if keep {
            out.push(copy_rhyme(&rhymes[i]));
        }
        assert(out@ == s.filter(|x: Rhyme| single_word_rhyme(x))) by {
            reveal(Seq::filter);
            assert(keep == single_word_rhyme(s.last()));
        }
        i = i + 1;
    }
    proof {
        assert(rhymes@.subrange(0, rhymes@.len() as int) == rhymes@);
        broadcast use vstd::seq_lib::group_filter_ensures;
    }
    out
}

/// The largest score among the candidates (zero for none).
pub open spec fn max_score(s: Seq<Rhyme>) -> int
    decreases s.len(),
{
    if s.len() == 0 {
        0
    } else if s.len() == 1 {
        s[0].score as int
    } else {
        let m = max_score(s.drop_last());
        if s.last().score > m {
            s.last().score as int
        } else {
            m
        }
    }
}

pub open spec fn best_scores(s: Seq<Rhyme>) -> Seq<Rhyme> {
    s.filter(|x: Rhyme| x.score == max_score(s))
}

/// The largest score bounds every score and is reached by some candidate.
pub proof fn lemma_max_score(s: Seq<Rhyme>)
    requires
        s.len() > 0,
    ensures
        forall|i: int| 0 <= i < s.len() ==> s[i].score <= max_score(s),
        exists|i: int| 0 <= i < s.len() && s[i].score == max_score(s),
    decreases s.len(),
{
    if s.len() > 1 {
        lemma_max_score(s.drop_last());
        let k = choose|k: int| 0 <= k < s.len() - 1 && s.drop_last()[k].score == max_score(s.drop_last());
        if s.last().score > max_score(s.drop_last()) {
            assert(s[s.len() - 1].score == max_score(s));
        } else {
            assert(s[k].score == max_score(s));
        }
        assert forall|i: int| 0 <= i < s.len() implies s[i].score <= max_score(s) by {
            if i < s.len() - 1 {
                assert(s[i] == s.drop_last()[i]);
            }
        }
    } else {
        assert(s[0].score == max_score(s));
    }
}

/// Of a non-empty list, the best-score filter keeps at least one candidate,
/// only candidates with the largest score, and every candidate that has it.
pub proof fn lemma_best_scores(s: Seq<Rhyme>)
    requires
        s.len() > 0,
    ensures
        best_scores(s).len() > 0,
        forall|i: int| 0 <= i < s.len() ==> s[i].score <= max_score(s),
        forall|i: int| 0 <= i < best_scores(s).len() ==> #[trigger] best_scores(s)[i].score == max_score(s),
        forall|i: int| 0 <= i < s.len() && s[i].score == max_score(s) ==> best_scores(s).contains(#[trigger] s[i]),
{
    broadcast use vstd::seq_lib::group_filter_ensures;
    lemma_max_score(s);
    let k = choose|k: int| 0 <= k < s.len() && s[k].score == max_score(s);
    assert(best_scores(s).contains(s[k]));
}

/// Keeps the candidates whose score equals the largest score of the list,
/// ties included, in their order.
pub fn keep_best_scores(rhymes: &Vec<Rhyme>) -> (r: Vec<Rhyme>)
    requires
        rhymes@.len() > 0,
    ensures
        r@ == best_scores(rhymes@),
        r@.len() > 0,
        forall|i: int| 0 <= i < r@.len() ==> #[trigger] r@[i].score == max_score(rhymes@),
        forall|i: int|
            0 <= i < rhymes@.len() && rhymes@[i].score == max_score(rhymes@) ==> r@.contains(
                #[trigger] rhymes@[i],
            ),
{
    let mut best: i32 = rhymes[0].score;
    let mut i: usize = 1;
    while i < rhymes.len()
        invariant
            1 <= i <= rhymes@.len(),
            best == max_score(rhymes@.subrange(0, i as int)),
        decreases rhymes@.len() - i,
    {
        proof {
            assert(rhymes@.subrange(0, i + 1).drop_last() == rhymes@.subrange(0, i as int));
        }
        if rhymes[i].score > best {
            best = rhymes[i].score;
        }
        i = i + 1;
    }
    proof {
        assert(rhymes@.subrange(0, rhymes@.len() as int) == rhymes@);
    }
    let mut out: Vec<Rhyme> = Vec::new();
    let mut j: usize = 0;
    while j < rhymes.len()
        invariant
            j <= rhymes@.len(),
            best == max_score(rhymes@),
            out@ == rhymes@.subrange(0, j as int).filter(|x: Rhyme| x.score == max_score(rhymes@)),
        decreases rhymes@.len() - j,
    {
        let ghost s = rhymes@.subrange(0, j + 1);
        proof {
            assert(s.drop_last() == rhymes@.subrange(0, j as int));
            assert(s.last() == rhymes@[j as int]);
        }
        let keep = rhymes[j].score == best;
        if keep {
            out.push(copy_rhyme(&rhymes[j]));
        }
        assert(out@ == s.filter(|x: Rhyme| x.score == max_score(rhymes@))) by {
            reveal(Seq::filter);
        }
        j = j + 1;
    }
    proof {
        assert(rhymes@.subrange(0, rhymes@.len() as int) == rhymes@);
        lemma_best_scores(rhymes@);
    }
    out
}

} // verus!
