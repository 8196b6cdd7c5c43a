//! Pun generation: filter rhyme candidates, substitute them token by token
//! into a corpus of phrases, and sample the results.
pub mod pun;
pub mod rhyme;
pub mod sample;
