//! A flashcard trainer for Chinese characters: it picks the CJK ideographs
//! out of a text, quizzes them in random order and reports which ones the
//! learner knows.
pub mod chars;
pub mod classify;
pub mod deck;
pub mod session;
