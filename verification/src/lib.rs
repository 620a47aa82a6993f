//! Verified core of the code archiver: which changed files of a turn are
//! archived, under which names, and when an archived copy makes a new one
//! unnecessary.

pub mod text;
pub mod stamp;
pub mod clock;
pub mod record;
pub mod paths;
pub mod settings;
pub mod plan;
pub mod machine;
