use punner::rhyme::{is_single, is_space, keep_best_scores, keep_single_words, Rhyme};

fn rhyme(word: &str, score: i32) -> Rhyme {
    Rhyme { word: word.to_string(), score }
}

#[test]
fn test_keep_single_words() {
    let phrase_rhyme: Rhyme = Rhyme {
        word: "boo hoo".to_string(),
        score: 300,
    };
    let word_rhyme = Rhyme {
        word: "zoo".to_string(),
        score: 222,
    };
    let input: Vec<Rhyme> = vec![phrase_rhyme.clone(), word_rhyme.clone()];
    let result: Vec<Rhyme> = keep_single_words(input);
    assert_eq!(result.len(), 1);
    assert_eq!(result[0], word_rhyme);
}

#[test]
fn single_words_keep_order_and_drop_any_whitespace() {
    let input = vec![
        rhyme("zoo", 1),
        rhyme("tab\tword", 2),
        rhyme("blue", 3),
        rhyme(" lead", 4),
        rhyme("no\u{a0}break", 5),
        rhyme("true", 6),
    ];
    let result = keep_single_words(input);
    assert_eq!(result, vec![rhyme("zoo", 1), rhyme("blue", 3), rhyme("true", 6)]);
}

#[test]
fn single_words_of_empty_list() {
    assert!(keep_single_words(Vec::new()).is_empty());
}

#[test]
fn whitespace_rule() {
    assert!(is_space(' '));
    assert!(is_space('\t'));
    assert!(is_space('\n'));
    assert!(is_space('\u{3000}'));
    assert!(!is_space('a'));
    assert!(!is_space('\u{200b}'));
    assert!(is_single("zoo"));
    assert!(!is_single("boo hoo"));
}

#[test]
fn best_scores_keep_all_ties() {
    let input = vec![rhyme("be", 100), rhyme("see", 80), rhyme("free", 100), rhyme("tea", -5)];
    let result = keep_best_scores(&input);
    assert_eq!(result, vec![rhyme("be", 100), rhyme("free", 100)]);
}

#[test]
fn best_scores_of_one_candidate() {
    let input = vec![rhyme("zoo", -3)];
    assert_eq!(keep_best_scores(&input), vec![rhyme("zoo", -3)]);
}
