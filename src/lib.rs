//! Randomised vocabulary exams drawn from a weighted pool of flashcards.
pub mod book;
pub mod card;
pub mod exam_maker;
