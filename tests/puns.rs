use punner::pun::{phrase_puns, pun_for, puns, replace_word_in_phrase, Phrase, Pun};
use punner::rhyme::Rhyme;
use punner::sample::{choose_puns, pick_puns};

fn phrase(content: &str, source: &str) -> Phrase {
    Phrase { content: content.to_string(), source: source.to_string() }
}

fn rhyme(word: &str, score: i32) -> Rhyme {
    Rhyme { word: word.to_string(), score }
}

fn pun(original: &str, text: &str, source: &str) -> Pun {
    Pun { original: original.to_string(), pun: text.to_string(), phrase_source: source.to_string() }
}

#[test]
fn replaces_whole_tokens_only() {
    assert_eq!(replace_word_in_phrase("let it be", "be", "flee"), "let it flee");
    assert_eq!(replace_word_in_phrase("be be maybe be", "be", "see"), "see see maybe see");
    assert_eq!(replace_word_in_phrase("categories are fun", "cat", "hat"), "categories are fun");
}

#[test]
fn replacement_joins_with_single_spaces() {
    assert_eq!(replace_word_in_phrase("  a \t b\n", "b", "c"), "a c");
    assert_eq!(replace_word_in_phrase("", "b", "c"), "");
}

#[test]
fn substring_does_not_make_a_pun() {
    let p = phrase("Categories Are Fun", "a.txt");
    assert_eq!(pun_for(&p, "categories are fun", "cat", "hat"), None);
    let all = puns(&vec![p], &vec![rhyme("cat", 10)], "hat");
    assert!(all.is_empty());
}

#[test]
fn let_it_be_becomes_let_it_flee() {
    let phrases = vec![phrase("Let It Be", "phrases/beatles.txt")];
    let rhymes = vec![rhyme("be", 100)];
    let result = puns(&phrases, &rhymes, "flee");
    assert_eq!(result, vec![pun("Let It Be", "let it flee", "phrases/beatles.txt")]);
}

#[test]
fn yellow_submarine_gives_no_pun() {
    let phrases = vec![phrase("Yellow Submarine", "phrases/beatles.txt")];
    let rhymes = vec![rhyme("marine", 50)];
    assert!(puns(&phrases, &rhymes, "sardine").is_empty());
}

#[test]
fn target_equal_to_rhyme_gives_no_pun() {
    let p = phrase("Let It Be", "s.txt");
    assert_eq!(pun_for(&p, "let it be", "be", "be"), None);
}

#[test]
fn target_keeps_its_case() {
    let p = phrase("Let It Be", "s.txt");
    assert_eq!(
        pun_for(&p, "let it be", "be", "Flee"),
        Some(pun("Let It Be", "let it Flee", "s.txt"))
    );
}

#[test]
fn puns_of_one_phrase_in_rhyme_order() {
    let p = phrase("Twist And Shout", "x.txt");
    let rhymes = vec![rhyme("shout", 9), rhyme("out", 8), rhyme("twist", 7)];
    let result = phrase_puns(&p, "twist and shout", &rhymes, "doubt");
    assert_eq!(
        result,
        vec![
            pun("Twist And Shout", "twist and doubt", "x.txt"),
            pun("Twist And Shout", "doubt and shout", "x.txt"),
        ]
    );
}

#[test]
fn puns_over_several_phrases() {
    let phrases = vec![
        phrase("Let It Be", "a.txt"),
        phrase("Hey Jude", "b.txt"),
        phrase("Be Here Now", "c.txt"),
    ];
    let rhymes = vec![rhyme("be", 100), rhyme("here", 90)];
    let result = puns(&phrases, &rhymes, "flee");
    assert_eq!(
        result,
        vec![
            pun("Let It Be", "let it flee", "a.txt"),
            pun("Be Here Now", "flee here now", "c.txt"),
            pun("Be Here Now", "be flee now", "c.txt"),
        ]
    );
}

#[test]
fn choosing_more_than_there_are_gives_all() {
    let all = vec![pun("a", "x", "s"), pun("b", "y", "s"), pun("c", "z", "s")];
    let chosen = choose_puns(&all, 5);
    assert_eq!(chosen.len(), 3);
    for p in &all {
        assert!(chosen.contains(p));
    }
}

#[test]
fn choosing_fewer_gives_distinct_puns() {
    let all = vec![pun("a", "x", "s"), pun("b", "y", "s"), pun("c", "z", "s"), pun("d", "w", "s")];
    let chosen = choose_puns(&all, 2);
    assert_eq!(chosen.len(), 2);
    assert_ne!(chosen[0], chosen[1]);
    assert!(all.contains(&chosen[0]) && all.contains(&chosen[1]));
    assert!(choose_puns(&all, 0).is_empty());
    assert!(choose_puns(&Vec::new(), 4).is_empty());
}

#[test]
fn picking_by_position() {
    let all = vec![pun("a", "x", "s"), pun("b", "y", "s"), pun("c", "z", "s")];
    assert_eq!(pick_puns(&all, &vec![2, 0]), vec![pun("c", "z", "s"), pun("a", "x", "s")]);
}

#[test]
fn rhyme_words_match_in_lower_case() {
    let phrases = vec![phrase("Let It Be", "phrases/b.txt")];
    let rhymes = vec![rhyme("Be", 100)];
    let result = puns(&phrases, &rhymes, "flee");
    assert_eq!(result, vec![pun("Let It Be", "let it flee", "phrases/b.txt")]);
}

#[test]
fn rewrite_equal_to_lowered_phrase_gives_no_pun() {
    let p = phrase("A  B", "s.txt");
    assert_eq!(replace_word_in_phrase("a  b", "a", "a "), "a  b");
    assert_eq!(pun_for(&p, "a  b", "a", "a "), None);
}

#[test]
fn irregular_spacing_without_rhyme_gives_no_pun() {
    let phrases = vec![phrase("Let  It   Be ", "s.txt")];
    assert!(puns(&phrases, &vec![rhyme("zoo", 1)], "flee").is_empty());
}
