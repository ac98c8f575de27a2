//! Turns the text of `git log --pretty=format:'"%H","%ae","%ai"' --numstat --no-merges`
//! into a stream of categorised change records, one line at a time.

pub mod text;
pub mod line;
pub mod change;
pub mod machine;
