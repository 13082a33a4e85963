//! A whole-transcript model: who speaks, and the paragraphs of lines that
//! each statement holds. The line pipeline does not build it yet.
use vstd::prelude::*;
use crate::line::Line;

verus! {

#[derive(Debug, Clone, Copy, PartialEq, Eq)]
pub enum Gender {
    Female,
    Male,
}

#[derive(Debug, Clone)]
pub struct Speaker {
    pub name: String,
    pub gender: Gender,
}

/// The consecutive lines of one paragraph.
#[derive(Debug, Clone)]
pub struct Paragraph {
    pub lines: Vec<Line>,
}

/// What one speaker says before another speaks.
#[derive(Debug, Clone)]
pub struct Statement {
    pub speaker: Speaker,
    pub paragraphs: Vec<Paragraph>,
    pub is_question: bool,
}

#[derive(Debug, Clone)]
pub struct Transcript {
    pub sections: Vec<Statement>,
}

} // verus!
