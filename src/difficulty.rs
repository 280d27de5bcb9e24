use vstd::prelude::*;

verus! {

/// How hard a generated question is.
#[derive(Debug, Clone, Copy, PartialEq, Eq, Structural)]
pub enum Difficulty {
    Easy,
    Medium,
    Hard,
}

/// The lower-case name of a difficulty level.
pub open spec fn difficulty_name(d: Difficulty) -> Seq<char> {
    match d {
        Difficulty::Easy => "easy"@,
        Difficulty::Medium => "medium"@,
        Difficulty::Hard => "hard"@,
    }
}

impl Difficulty {
    /// The lower-case name of this level, as used in requests to the generator.
    pub fn as_str(&self) -> (r: &'static str)
        ensures
            r@ == difficulty_name(*self),
    {
        match self {
            Difficulty::Easy => "easy",
            Difficulty::Medium => "medium",
            Difficulty::Hard => "hard",
        }
    }

    /// The lower-case name of this level as an owned string.
    pub fn to_string(&self) -> (r: String)
        ensures
            r@ == difficulty_name(*self),
    {
        self.as_str().to_owned()
    }
}

} // verus!
