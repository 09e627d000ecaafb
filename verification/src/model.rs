//! In-memory model of a structured word-processor document: ordered
//! paragraphs, each an ordered sequence of text runs carrying emphasis flags.

use vstd::prelude::*;

verus! {

/// Paragraph alignment within this library's scope.
#[derive(Clone, Copy, PartialEq, Eq, Structural, Debug)]
pub enum Alignment {
    Justify,
    Center,
}

/// State of a run's underline attribute as read from a structured document.
/// The attribute may be absent, present without an explicit style value, or
/// present with one; only the explicit no-underline style value switches the
/// underline off.
#[derive(Clone, Copy, PartialEq, Eq, Structural, Debug)]
pub enum UnderlineState {
    Absent,
    Present,
    StyleNone,
    StyleOther,
}

/// An on/off attribute as read from a structured document: absent, present
/// without an explicit value (which means on), or present with a value.
pub open spec fn spec_flag_is_on(flag: Option<Option<bool>>) -> bool {
    match flag {
        Option::None => false,
        Option::Some(Option::None) => true,
        Option::Some(Option::Some(b)) => b,
    }
}

/// Whether a run's bold attribute is on: present and not explicitly disabled.
pub fn bold_is_on(flag: &Option<Option<bool>>) -> (r: bool)
    ensures
        r == spec_flag_is_on(*flag),
{
    match flag {
        Option::None => false,
        Option::Some(Option::None) => true,
        Option::Some(Option::Some(b)) => *b,
    }
}

/// Whether a run's italics attribute is on: present and not explicitly
/// disabled.
pub fn italics_is_on(flag: &Option<Option<bool>>) -> (r: bool)
    ensures
        r == spec_flag_is_on(*flag),
{
    match flag {
        Option::None => false,
        Option::Some(Option::None) => true,
        Option::Some(Option::Some(b)) => *b,
    }
}

pub open spec fn spec_underline_is_on(flag: UnderlineState) -> bool {
    match flag {
        UnderlineState::Absent => false,
        UnderlineState::Present => true,
        UnderlineState::StyleNone => false,
        UnderlineState::StyleOther => true,
    }
}

/// Whether a run's underline attribute is on: present with any style but the
/// explicit no-underline one.
pub fn underline_is_on(flag: &UnderlineState) -> (r: bool)
    ensures
        r == spec_underline_is_on(*flag),
{
    match flag {
        UnderlineState::Absent => false,
        UnderlineState::Present => true,
        UnderlineState::StyleNone => false,
        UnderlineState::StyleOther => true,
    }
}

/// A contiguous span of paragraph text sharing one formatting state.
pub struct Run {
    pub text: Vec<char>,
    pub bold: bool,
    pub italic: bool,
    pub underline: bool,
}

/// Mathematical image of a [`Run`].
pub struct SpecRun {
    pub text: Seq<char>,
    pub bold: bool,
    pub italic: bool,
    pub underline: bool,
}

impl View for Run {
    type V = SpecRun;

    open spec fn view(&self) -> SpecRun {
        SpecRun { text: self.text@, bold: self.bold, italic: self.italic, underline: self.underline }
    }
}

/// A paragraph as read from a structured document: its runs, and its
/// aggregate plain text, which may also cover content that does not belong
/// to any run (fields, links).
pub struct Paragraph {
    pub runs: Vec<Run>,
    pub plain: Vec<char>,
}

/// Mathematical image of a [`Paragraph`].
pub struct SpecParagraph {
    pub runs: Seq<SpecRun>,
    pub plain: Seq<char>,
}

pub open spec fn spec_runs_view(runs: Seq<Run>) -> Seq<SpecRun> {
    runs.map_values(|r: Run| r@)
}

impl View for Paragraph {
    type V = SpecParagraph;

    open spec fn view(&self) -> SpecParagraph {
        SpecParagraph { runs: spec_runs_view(self.runs@), plain: self.plain@ }
    }
}

} // verus!
