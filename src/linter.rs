//! A finding of a linter, reduced to what change-scoped filtering reads.
use vstd::prelude::*;

verus! {

/// Where a finding stands: its file and its inclusive span of lines.
#[derive(Debug, PartialEq, Eq, Hash, Clone)]
pub struct Location {
    pub path: String,
    pub lines: [u32; 2],
}

/// A linter finding: a location and a message.
#[derive(Debug, PartialEq, Eq, Hash, Clone)]
pub struct Lint {
    pub location: Location,
    pub message: String,
}

/// What a `Lint` stands for; two lints are the same finding when these are equal.
pub ghost struct Finding {
    pub path: Seq<char>,
    pub line_start: u32,
    pub line_end: u32,
    pub message: Seq<char>,
}

impl View for Lint {
    type V = Finding;

    open spec fn view(&self) -> Finding {
        Finding {
            path: self.location.path@,
            line_start: self.location.lines@[0],
            line_end: self.location.lines@[1],
            message: self.message@,
        }
    }
}

pub open spec fn finding_views(v: Seq<Lint>) -> Seq<Finding> {
    v.map_values(|l: Lint| l@)
}

impl Lint {
    /// A finding at `path`, lines `line_start` to `line_end`.
    pub fn new(path: String, line_start: u32, line_end: u32, message: String) -> (r: Lint)
        ensures
            r@ == (Finding { path: path@, line_start, line_end, message: message@ }),
    {
        Lint { location: Location { path, lines: [line_start, line_end] }, message }
    }

    /// A copy of this finding.
    pub fn duplicate(&self) -> (r: Lint)
        ensures
            r@ == self@,
    {
        Lint {
            location: Location {
                path: self.location.path.clone(),
                lines: [self.location.lines[0], self.location.lines[1]],
            },
            message: self.message.clone(),
        }
    }

    /// Whether two lints are the same finding.
    pub fn same_as(&self, other: &Lint) -> (r: bool)
        ensures
            r == (self@ == other@),
    {
        self.location.path == other.location.path && self.location.lines[0]
            == other.location.lines[0] && self.location.lines[1] == other.location.lines[1]
            && self.message == other.message
    }
}

} // verus!
