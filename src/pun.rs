//! Whole-token substitution of rhyme words into phrases.
use vstd::prelude::*;

use crate::rhyme::{is_single_word, is_space_char, Rhyme};

verus! {

/// One line of a phrase corpus, with the file it came from.
#[derive(Debug, Clone, PartialEq, Eq)]
pub struct Phrase {
    pub content: String,
    pub source: String,
}

/// A phrase with a rhyme word replaced by the target word.
#[derive(Debug, Clone, PartialEq, Eq)]
pub struct Pun {
    pub original: String,
    pub pun: String,
    pub phrase_source: String,
}

pub struct PunView {
    pub original: Seq<char>,
    pub pun: Seq<char>,
    pub phrase_source: Seq<char>,
}

impl View for Pun {
    type V = PunView;

    open spec fn view(&self) -> PunView {
        PunView { original: self.original@, pun: self.pun@, phrase_source: self.phrase_source@ }
    }
}

pub open spec fn pun_views(s: Seq<Pun>) -> Seq<PunView> {
    s.map_values(|p: Pun| p@)
}

/// What `str::to_lowercase` makes of a text.
pub uninterp spec fn lower_of(s: Seq<char>) -> Seq<char>;

/// The whitespace-separated tokens of a text: its maximal runs of
/// characters that are not whitespace, in order.
pub open spec fn words_of(s: Seq<char>) -> Seq<Seq<char>>
    decreases s.len(),
{
    if s.len() == 0 {
        Seq::empty()
    } else {
        let ws = words_of(s.drop_last());
        let c = s.last();
        if is_space_char(c) {
            ws
        } else if s.len() == 1 || is_space_char(s[s.len() - 2]) {
            ws.push(seq![c])
        } else {
            ws.update(ws.len() - 1, ws.last().push(c))
        }
    }
}

/// Relies on `str::to_lowercase`: the result depends on the text alone.
#[verifier::external_body]
fn lowercase(s: &str) -> (r: String)
    ensures
        r@ == lower_of(s@),
{
    s.to_lowercase()
}

/// Relies on `str::split_whitespace`: it splits at the characters of the
/// Unicode `White_Space` property and leaves out empty pieces, which gives the
/// maximal runs of other characters, in order.
#[verifier::external_body]
fn split_words(s: &str) -> (r: Vec<String>)
    ensures
        r@.map_values(|w: String| w@) == words_of(s@),
{
    s.split_whitespace().map(|w| w.to_string()).collect()
}

/// Each token equal to `w` becomes `t`; every other token stays.
pub open spec fn replace_all(ws: Seq<Seq<char>>, w: Seq<char>, t: Seq<char>) -> Seq<Seq<char>> {
    ws.map_values(|x: Seq<char>| if x == w { t } else { x })
}

/// The tokens joined by single spaces.
pub open spec fn join_words(ws: Seq<Seq<char>>) -> Seq<char>
    decreases ws.len(),
{
    if ws.len() == 0 {
        Seq::empty()
    } else if ws.len() == 1 {
        ws[0]
    } else {
        join_words(ws.drop_last()) + seq![' '] + ws.last()
    }
}

/// The text rewritten with every token `w` replaced by `t`.
pub open spec fn rewrite(s: Seq<char>, w: Seq<char>, t: Seq<char>) -> Seq<char> {
    join_words(replace_all(words_of(s), w, t))
}

/// Replaces every whitespace-separated token of `phrase` that equals `word`
/// by `replacement`, and joins the tokens with single spaces.
pub fn replace_word_in_phrase(phrase: &str, word: &str, replacement: &str) -> (r: String)
    ensures
        r@ == rewrite(phrase@, word@, replacement@),
{
    let ws = split_words(phrase);
    let ghost rs = replace_all(words_of(phrase@), word@, replacement@);
    let target = word.to_owned();
    let mut out = String::new();
    let mut i: usize = 0;
    while i < ws.len()
        invariant
            i <= ws@.len(),
            ws@.map_values(|w: String| w@) == words_of(phrase@),
            rs == replace_all(words_of(phrase@), word@, replacement@),
            target@ == word@,
            out@ == join_words(rs.subrange(0, i as int)),
        decreases ws@.len() - i,
    {
        proof {
            reveal_strlit(" ");
            assert(rs.subrange(0, i + 1).drop_last() == rs.subrange(0, i as int));
            assert(words_of(phrase@)[i as int] == ws@[i as int]@);
        }
        if i > 0 {
            out.append(" ");
        }
        if ws[i] == target {
            out.append(replacement);
        } else {
            out.append(ws[i].as_str());
        }
        proof {
            let sub = rs.subrange(0, i + 1);
            assert(sub.last() == rs[i as int]);
            if i == 0 {
                assert(sub.len() == 1);
                assert(out@ =~= join_words(sub));
            } else {
                assert(out@ =~= join_words(sub));
            }
        }
        i = i + 1;
    }
    proof {
        assert(rs.subrange(0, ws@.len() as int) == rs);
    }
    out
}

/// The pun that a rhyme word, lower-cased as `rhyme`, makes of a phrase whose
/// lower-cased text is `low`: there is one only where some token of `low` is
/// the rhyme word, the target differs from it, and the rewritten text differs
/// from `low`.
pub open spec fn pun_of(
    original: Seq<char>,
    source: Seq<char>,
    low: Seq<char>,
    rhyme: Seq<char>,
    target: Seq<char>,
) -> Option<PunView> {
    if words_of(low).contains(rhyme) && rhyme != target && rewrite(low, rhyme, target) != low {
        Some(PunView { original, pun: rewrite(low, rhyme, target), phrase_source: source })
    } else {
        None
    }
}

/// The puns of one phrase, one for each rhyme that gives one, in rhyme order;
/// rhyme words are matched in lower case.
pub open spec fn puns_of_phrase(
    original: Seq<char>,
    source: Seq<char>,
    low: Seq<char>,
    rhymes: Seq<Rhyme>,
    target: Seq<char>,
) -> Seq<PunView> {
    rhymes.filter_map(|r: Rhyme| pun_of(original, source, low, lower_of(r.word@), target))
}

/// The puns of all phrases, phrase by phrase, each phrase matched in lower case.
pub open spec fn all_puns(phrases: Seq<Phrase>, rhymes: Seq<Rhyme>, target: Seq<char>) -> Seq<
    PunView,
>
    decreases phrases.len(),
{
    if phrases.len() == 0 {
        Seq::empty()
    } else {
        let p = phrases.last();
        all_puns(phrases.drop_last(), rhymes, target) + puns_of_phrase(
            p.content@,
            p.source@,
            lower_of(p.content@),
            rhymes,
            target,
        )
    }
}

pub open spec fn opt_view(o: Option<Pun>) -> Option<PunView> {
    match o {
        Some(p) => Some(p@),
        None => None,
    }
}

fn has_word(ws: &Vec<String>, w: &String) -> (r: bool)
    ensures
        r == ws@.map_values(|x: String| x@).contains(w@),
{
    let ghost vs = ws@.map_values(|x: String| x@);
    let mut i: usize = 0;
    while i < ws.len()
        invariant
            i <= ws@.len(),
            vs == ws@.map_values(|x: String| x@),
            forall|k: int| 0 <= k < i ==> vs[k] != w@,
        decreases ws@.len() - i,
    {
        if ws[i] == *w {
            assert(vs[i as int] == w@);
            return true;
        }
        i = i + 1;
    }
    false
}

/// Substitution works on whole tokens: every token equal to the rhyme word
/// becomes the target and every other token stays as it was. A pun arises
/// only where the rhyme word is one of the tokens, and then its text is the
/// rewrite; a rhyme word that is no token gives no pun.
pub proof fn lemma_whole_token_substitution(
    original: Seq<char>,
    source: Seq<char>,
    low: Seq<char>,
    rhyme: Seq<char>,
    target: Seq<char>,
)
    ensures
        replace_all(words_of(low), rhyme, target).len() == words_of(low).len(),
        forall|i: int|
            0 <= i < words_of(low).len() ==> #[trigger] replace_all(words_of(low), rhyme, target)[i]
                == if words_of(low)[i] == rhyme {
                target
            } else {
                words_of(low)[i]
            },
        pun_of(original, source, low, rhyme, target) matches Some(u) ==> words_of(low).contains(
            rhyme,
        ) && u.original == original && u.phrase_source == source && u.pun == join_words(
            replace_all(words_of(low), rhyme, target),
        ) && u.pun != low,
        !words_of(low).contains(rhyme) ==> pun_of(original, source, low, rhyme, target) is None,
{
}

/// A rhyme word that occurs in the text only inside larger tokens, or not at
/// all, changes no token and gives no pun.
pub proof fn lemma_no_token_no_substitution(
    original: Seq<char>,
    source: Seq<char>,
    low: Seq<char>,
    rhyme: Seq<char>,
    target: Seq<char>,
)
    requires
        !words_of(low).contains(rhyme),
    ensures
        replace_all(words_of(low), rhyme, target) == words_of(low),
        pun_of(original, source, low, rhyme, target) is None,
{
    let ws = words_of(low);
    assert forall|i: int| 0 <= i < ws.len() implies ws[i] != rhyme by {
        if ws[i] == rhyme {
            assert(ws.contains(rhyme));
        }
    }
    assert(replace_all(ws, rhyme, target) =~= ws);
}

proof fn lemma_words_of_space(x: Seq<char>)
    ensures
        words_of(x.push(' ')) == words_of(x),
{
    assert(x.push(' ').drop_last() =~= x);
}

/// Appending a token after a text that is empty or ends in whitespace adds
/// that token.
proof fn lemma_words_of_append(x: Seq<char>, b: Seq<char>)
    requires
        b.len() > 0,
        is_single_word(b),
        x.len() == 0 || is_space_char(x.last()),
    ensures
        words_of(x + b) == words_of(x).push(b),
    decreases b.len(),
{
    let y = x + b;
    assert(y.drop_last() =~= x + b.drop_last());
    assert(y.last() == b[b.len() - 1]);
    if b.len() == 1 {
        assert(x + b.drop_last() =~= x);
        assert(seq![b[0]] =~= b);
        if x.len() > 0 {
            assert(y[y.len() - 2] == x.last());
        }
    } else {
        lemma_words_of_append(x, b.drop_last());
        assert(y[y.len() - 2] == b[b.len() - 2]);
        assert(b.drop_last().push(b.last()) =~= b);
        assert(words_of(x).push(b.drop_last()).update(
            words_of(x).len() as int,
            b.drop_last().push(b.last()),
        ) =~= words_of(x).push(b));
    }
}

/// Every token is non-empty and holds no whitespace.
pub proof fn lemma_words_of_tokens(s: Seq<char>)
    ensures
        forall|i: int|
            0 <= i < words_of(s).len() ==> #[trigger] words_of(s)[i].len() > 0 && is_single_word(
                words_of(s)[i],
            ),
        s.len() > 0 && !is_space_char(s.last()) ==> words_of(s).len() > 0,
    decreases s.len(),
{
    if s.len() > 0 {
        let d = s.drop_last();
        lemma_words_of_tokens(d);
        if s.len() > 1 {
            assert(d.last() == s[s.len() - 2]);
        }
        let ws = words_of(d);
        let c = s.last();
        if !is_space_char(c) && !(s.len() == 1 || is_space_char(s[s.len() - 2])) {
            let t = ws.last().push(c);
            assert(is_single_word(ws.last()));
            assert(is_single_word(t)) by {
                assert forall|k: int| 0 <= k < t.len() implies !is_space_char(#[trigger] t[k]) by {
                    if k < t.len() - 1 {
                        assert(t[k] == ws.last()[k]);
                    }
                }
            }
        } else if !is_space_char(c) {
            assert(is_single_word(seq![c]));
        }
    }
}

/// Splitting the single-space join of non-empty tokens without whitespace
/// gives the tokens back.
pub proof fn lemma_words_of_join(ws: Seq<Seq<char>>)
    requires
        forall|i: int| 0 <= i < ws.len() ==> #[trigger] ws[i].len() > 0 && is_single_word(ws[i]),
    ensures
        words_of(join_words(ws)) == ws,
    decreases ws.len(),
{
    if ws.len() == 1 {
        lemma_words_of_append(Seq::empty(), ws[0]);
        assert(Seq::<char>::empty() + ws[0] =~= ws[0]);
        assert(Seq::<Seq<char>>::empty().push(ws[0]) =~= ws);
    } else if ws.len() > 1 {
        let d = ws.drop_last();
        lemma_words_of_join(d);
        let x = join_words(d).push(' ');
        lemma_words_of_space(join_words(d));
        assert(join_words(d) + seq![' '] =~= x);
        lemma_words_of_append(x, ws.last());
        assert(d.push(ws.last()) =~= ws);
    }
}

/// With a non-empty target free of whitespace, the rewritten text splits into
/// exactly the tokens of the original with each rhyme token replaced; so where
/// the rhyme word is a token and differs from the target, the text changes.
pub proof fn lemma_rewrite_tokens(s: Seq<char>, rhyme: Seq<char>, target: Seq<char>)
    requires
        target.len() > 0,
        is_single_word(target),
    ensures
        words_of(rewrite(s, rhyme, target)) == replace_all(words_of(s), rhyme, target),
        words_of(s).contains(rhyme) && rhyme != target ==> rewrite(s, rhyme, target) != s,
{
    lemma_words_of_tokens(s);
    let ws = words_of(s);
    let rs = replace_all(ws, rhyme, target);
    assert forall|i: int| 0 <= i < rs.len() implies #[trigger] rs[i].len() > 0 && is_single_word(
        rs[i],
    ) by {
        assert(ws[i].len() > 0 && is_single_word(ws[i]));
    }
    lemma_words_of_join(rs);
    if ws.contains(rhyme) && rhyme != target {
        let k = choose|k: int| 0 <= k < ws.len() && ws[k] == rhyme;
        assert(rs[k] != ws[k]);
        assert(rs != ws);
    }
}

/// With a non-empty target free of whitespace, a rhyme word makes a pun of a
/// phrase exactly when it is one of the phrase's lower-cased tokens and
/// differs from the target; the pun's tokens are then the phrase's tokens
/// with every rhyme token replaced by the target and no other change.
pub proof fn lemma_pun_exactly_on_token(
    original: Seq<char>,
    source: Seq<char>,
    low: Seq<char>,
    rhyme: Seq<char>,
    target: Seq<char>,
)
    requires
        target.len() > 0,
        is_single_word(target),
    ensures
        pun_of(original, source, low, rhyme, target) is Some <==> (words_of(low).contains(rhyme)
            && rhyme != target),
        pun_of(original, source, low, rhyme, target) matches Some(u) ==> words_of(u.pun)
            == replace_all(words_of(low), rhyme, target),
{
    lemma_rewrite_tokens(low, rhyme, target);
}

/// The pun that a rhyme word makes of `phrase`, given the phrase's
/// lower-cased text and the rhyme word's lower-cased text.
pub fn pun_for(phrase: &Phrase, lowered: &str, rhyme_word: &str, word: &str) -> (r: Option<Pun>)
    ensures
        opt_view(r) == pun_of(phrase.content@, phrase.source@, lowered@, rhyme_word@, word@),
        r is Some <==> (words_of(lowered@).contains(rhyme_word@) && rhyme_word@ != word@ && rewrite(
            lowered@,
            rhyme_word@,
            word@,
        ) != lowered@),
        r matches Some(p) ==> p.pun@ == join_words(
            replace_all(words_of(lowered@), rhyme_word@, word@),
        ) && p.original == phrase.content && p.phrase_source == phrase.source,
{
    let ws = split_words(lowered);
    let rhyme = rhyme_word.to_owned();
    let target = word.to_owned();
    if has_word(&ws, &rhyme) && rhyme != target {
        let text = replace_word_in_phrase(lowered, rhyme_word, word);
        if text != lowered.to_owned() {
            return Some(
                Pun {
                    original: phrase.content.clone(),
                    pun: text,
                    phrase_source: phrase.source.clone(),
                },
            );
        }
    }
    None
}

/// The puns that the rhymes make of `phrase`, given its lower-cased text;
/// each rhyme word is matched in lower case.
pub fn phrase_puns(phrase: &Phrase, lowered: &str, rhymes: &Vec<Rhyme>, word: &str) -> (r: Vec<Pun>)
    ensures
        pun_views(r@) == puns_of_phrase(phrase.content@, phrase.source@, lowered@, rhymes@, word@),
{
    let ghost f = |r: Rhyme|
        pun_of(phrase.content@, phrase.source@, lowered@, lower_of(r.word@), word@);
    let mut out: Vec<Pun> = Vec::new();
    let mut i: usize = 0;
    while i < rhymes.len()
        invariant
            i <= rhymes@.len(),
            f == (|r: Rhyme|
                pun_of(phrase.content@, phrase.source@, lowered@, lower_of(r.word@), word@)),
            pun_views(out@) == rhymes@.subrange(0, i as int).filter_map(f),
        decreases rhymes@.len() - i,
    {
        let ghost s = rhymes@.subrange(0, i + 1);
        proof {
            assert(s.drop_last() == rhymes@.subrange(0, i as int));
            assert(s.last() == rhymes@[i as int]);
        }
        let rhyme_lowered = lowercase(rhymes[i].word.as_str());
        let found = pun_for(phrase, lowered, rhyme_lowered.as_str(), word);
        match found {
            Some(p) => {
                out.push(p);
            },
            None => {},
        }
        assert(pun_views(out@) =~= s.filter_map(f));
        i = i + 1;
    }
    proof {
        assert(rhymes@.subrange(0, rhymes@.len() as int) == rhymes@);
    }
    out
}

/// Every pun that the rhymes make of the phrases with `word` as target,
/// phrase by phrase and, within a phrase, in rhyme order.
pub fn puns(phrases: &Vec<Phrase>, rhymes: &Vec<Rhyme>, word: &str) -> (r: Vec<Pun>)
    ensures
        pun_views(r@) == all_puns(phrases@, rhymes@, word@),
{
    let mut out: Vec<Pun> = Vec::new();
    let mut i: usize = 0;
    while i < phrases.len()
        invariant
            i <= phrases@.len(),
            pun_views(out@) == all_puns(phrases@.subrange(0, i as int), rhymes@, word@),
        decreases phrases@.len() - i,
    {
        let ghost s = phrases@.subrange(0, i + 1);
        let ghost before = out@;
        proof {
            assert(s.drop_last() == phrases@.subrange(0, i as int));
            assert(s.last() == phrases@[i as int]);
        }
        let lowered = lowercase(phrases[i].content.as_str());
        let mut more = phrase_puns(&phrases[i], lowered.as_str(), rhymes, word);
        let ghost added = more@;
        out.append(&mut more);
        assert(pun_views(out@) =~= pun_views(before) + pun_views(added));
        i = i + 1;
    }
    proof {
        assert(phrases@.subrange(0, phrases@.len() as int) == phrases@);
    }
    out
}

} // verus!
