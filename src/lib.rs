//! Two small pieces of integer logic: classifying a line of text as an even
//! or odd number, and computing the squares of the even elements of a
//! sequence in three different styles.
pub mod number_text;
pub mod paradigms;
pub mod parity;
