//! Turns unified-diff text into the spans of new-file lines that each hunk covers.
use crate::text::{
    chars_of, find_char, find_pair, index_of, index_of_pair, line_at, line_bounds, parse_u32, read_u32,
    run_len, string_of, trim, trim_bounds,
};
use vstd::prelude::*;

verus! {

/// One hunk of a diff: the file it changes and the span of new-file lines it covers.
#[derive(Debug, PartialEq, Clone)]
pub struct Section {
    pub file_name: String,
    pub line_start: u32,
    pub line_end: u32,
}

/// What a `Section` stands for.
pub ghost struct ChangeRange {
    pub file_name: Seq<char>,
    pub line_start: u32,
    pub line_end: u32,
}

impl View for Section {
    type V = ChangeRange;

    open spec fn view(&self) -> ChangeRange {
        ChangeRange {
            file_name: self.file_name@,
            line_start: self.line_start,
            line_end: self.line_end,
        }
    }
}

/// Gathers the three parts of a `Section`, each of which may still be missing.
#[derive(Debug)]
pub struct SectionBuilder {
    file_name: Option<String>,
    line_start: Option<u32>,
    line_end: Option<u32>,
}

/// What a `SectionBuilder` holds so far.
pub ghost struct PartialSection {
    pub file_name: Option<Seq<char>>,
    pub line_start: Option<u32>,
    pub line_end: Option<u32>,
}

impl View for SectionBuilder {
    type V = PartialSection;

    closed spec fn view(&self) -> PartialSection {
        PartialSection {
            file_name: match self.file_name {
                Some(f) => Some(f@),
                None => None,
            },
            line_start: self.line_start,
            line_end: self.line_end,
        }
    }
}

impl SectionBuilder {
    pub fn new() -> (r: Self)
        ensures
            r@ == (PartialSection { file_name: None, line_start: None, line_end: None }),
    {
        Self { file_name: None, line_start: None, line_end: None }
    }

    pub fn file_name(&mut self, file_name: String)
        ensures
            final(self)@ == (PartialSection { file_name: Some(file_name@), ..old(self)@ }),
    {
        self.file_name = Some(file_name);
    }

    pub fn line_start(&mut self, line_start: u32)
        ensures
            final(self)@ == (PartialSection { line_start: Some(line_start), ..old(self)@ }),
    {
        self.line_start = Some(line_start);
    }

    pub fn line_end(&mut self, line_end: u32)
        ensures
            final(self)@ == (PartialSection { line_end: Some(line_end), ..old(self)@ }),
    {
        self.line_end = Some(line_end);
    }

    /// The section, once all three parts are known.
    pub fn build(self) -> (r: Option<Section>)
        ensures
            r is Some <==> (self@.file_name is Some && self@.line_start is Some
                && self@.line_end is Some),
            r is Some ==> r->0@ == (ChangeRange {
                file_name: self@.file_name->0,
                line_start: self@.line_start->0,
                line_end: self@.line_end->0,
            }),
    {
        match (self.file_name, self.line_start, self.line_end) {
            (Some(file_name), Some(line_start), Some(line_end)) => Some(
                Section { file_name, line_start, line_end },
            ),
            _ => None,
        }
    }
}

/// A `+++` line, which names the new file of the hunks after it.
pub open spec fn is_new_file_line(l: Seq<char>) -> bool {
    l.len() >= 3 && l[0] == '+' && l[1] == '+' && l[2] == '+'
}

/// A `@@` line, the header of a hunk.
pub open spec fn is_hunk_line(l: Seq<char>) -> bool {
    l.len() >= 2 && l[0] == '@' && l[1] == '@'
}

/// The file that a `+++` line names: what follows its first `/`.
pub open spec fn new_file_name(l: Seq<char>) -> Option<Seq<char>> {
    let j = find_char(l, '/', 0);
    if j < l.len() {
        Some(l.subrange(j + 1, l.len() as int))
    } else {
        None
    }
}

/// The new-file span `(start, start + count)` of a hunk header `@@ -a,b +start,count @@`.
///
/// The text between the two `@@` markers is split at its first space; the trimmed second half,
/// less its sign, is split at its first comma into start and count. Without a comma the whole
/// half is the start and the count is 1, as it is when the count does not read as a number.
/// A header of another shape, or whose start does not read as a number, gives `None`.
pub open spec fn hunk_span(l: Seq<char>) -> Option<(u32, u32)> {
    if l.len() < 3 {
        None
    } else {
        let after = l.subrange(3, l.len() as int);
        let k = find_pair(after, '@', 0);
        if k >= after.len() || k == 0 {
            None
        } else {
            let inner = after.subrange(0, k - 1);
            let sp = find_char(inner, ' ', 0);
            if sp >= inner.len() {
                None
            } else {
                let added = trim(inner.subrange(sp, inner.len() as int));
                if added.len() == 0 {
                    None
                } else {
                    let rest = added.drop_first();
                    let comma = find_char(rest, ',', 0);
                    let start_text = if comma < rest.len() {
                        rest.subrange(0, comma)
                    } else {
                        added
                    };
                    let count_text = if comma < rest.len() {
                        rest.subrange(comma + 1, rest.len() as int)
                    } else {
                        Seq::empty()
                    };
                    match parse_u32(start_text) {
                        None => None,
                        Some(start) => {
                            let count: int = match parse_u32(count_text) {
                                Some(c) => c as int,
                                None => 1,
                            };
                            if start + count <= u32::MAX {
                                Some((start, (start + count) as u32))
                            } else {
                                None
                            }
                        },
                    }
                }
            }
        }
    }
}

/// The ranges of the hunks of `s` from position `from` on, where `file` is the new file named
/// so far. A hunk before any `+++` line names no file and is dropped.
pub open spec fn sections_from(s: Seq<char>, from: int, file: Option<Seq<char>>) -> Seq<
    ChangeRange,
>
    decreases s.len() - from,
{
    if from < 0 || from >= s.len() {
        Seq::empty()
    } else {
        let l = line_at(s, from);
        let f = if is_new_file_line(l) && new_file_name(l) is Some {
            new_file_name(l)
        } else {
            file
        };
        let span = hunk_span(l);
        let here = if is_hunk_line(l) && f is Some && span is Some {
            let (start, end) = span->0;
            seq![ChangeRange { file_name: f->0, line_start: start, line_end: end }]
        } else {
            Seq::empty()
        };
        let next = from + run_len(s, '\n', from) + 1;
        if next <= s.len() {
            here + sections_from(s, next, f)
        } else {
            here
        }
    }
}

/// The change ranges of the diff `s`, one per attributable hunk, in order.
pub open spec fn diff_sections(s: Seq<char>) -> Seq<ChangeRange> {
    sections_from(s, 0, None)
}

pub open spec fn section_views(v: Seq<Section>) -> Seq<ChangeRange> {
    v.map_values(|x: Section| x@)
}

fn hunk_span_of(l: &[char]) -> (r: Option<(u32, u32)>)
    ensures
        r == hunk_span(l@),
{
    if l.len() < 3 {
        return None;
    }
    let after = &l[3..l.len()];
    let k = index_of_pair(after, '@', 0);
    if k >= after.len() || k == 0 {
        return None;
    }
    let inner = &after[0..k - 1];
    let sp = index_of(inner, ' ', 0);
    if sp >= inner.len() {
        return None;
    }
    let (a, b) = trim_bounds(inner, sp, inner.len());
    if a == b {
        return None;
    }
    let added = &inner[a..b];
    let rest = &added[1..added.len()];
    assert(rest@ =~= added@.drop_first());
    let comma = index_of(rest, ',', 0);
    let start;
    let count;
    if comma < rest.len() {
        start = read_u32(rest, 0, comma);
        count = read_u32(rest, comma + 1, rest.len());
    } else {
        assert(added@.subrange(0, added@.len() as int) =~= added@);
        start = read_u32(added, 0, added.len());
        count = None;
        assert(parse_u32(Seq::<char>::empty()) is None);
    }
    match start {
        None => None,
        Some(st) => {
            let c: u32 = match count {
                Some(c) => c,
                None => 1,
            };
            if c as u64 + st as u64 <= 0xffff_ffff {
                Some((st, st + c))
            } else {
                None
            }
        },
    }
}

/// Reads unified diffs.
pub struct Parser {
    verbose: bool,
}

impl Parser {
    /// Whether the parser reports what it reads.
    pub closed spec fn is_verbose(&self) -> bool {
        self.verbose
    }

    pub fn new() -> (r: Self)
        ensures
            !r.is_verbose(),
    {
        Self { verbose: false }
    }

    pub fn verbose(&self) -> (r: bool)
        ensures
            r == self.is_verbose(),
    {
        self.verbose
    }

    pub fn set_verbose(&mut self, verbose: bool) -> (r: &mut Self)
        ensures
            r.is_verbose() == verbose,
            *final(self) == *final(r),
    {
        self.verbose = verbose;
        self
    }

    /// The change ranges of `git_diff`, one per hunk whose file is known, in the order of the
    /// diff.
    pub fn sections(&self, git_diff: &str) -> (r: Vec<Section>)
        ensures
            section_views(r@) == diff_sections(git_diff@),
    {
        let s = chars_of(git_diff);
        let mut out: Vec<Section> = Vec::new();
        let mut file: Option<(usize, usize)> = None;
        let mut pos: usize = 0;
        while pos < s.len()
            invariant
                pos <= s@.len(),
                s@ == git_diff@,
                file matches Some(f) ==> f.0 <= f.1 <= s@.len(),
                section_views(out@) + sections_from(s@, pos as int, file_text(s@, file))
                    == diff_sections(s@),
            decreases s@.len() - pos,
        {
            let ghost fm = file_text(s@, file);
            let (hi, next) = line_bounds(s.as_slice(), pos);
            let line = &s.as_slice()[pos..hi];
            assert(line@ == line_at(s@, pos as int));
            if line.len() >= 3 && line[0] == '+' && line[1] == '+' && line[2] == '+' {
                let j = index_of(line, '/', 0);
                if j < line.len() {
                    file = Some((pos + j + 1, hi));
                    assert(s@.subrange(pos + j + 1, hi as int) =~= line@.subrange(
                        j + 1,
                        line@.len() as int,
                    ));
                }
            }
            let ghost before = section_views(out@);
            let ghost here: Seq<ChangeRange> = Seq::empty();
            if line.len() >= 2 && line[0] == '@' && line[1] == '@' {
                if let Some((a, b)) = file {
                    if let Some((st, en)) = hunk_span_of(line) {
                        let name = string_of(&s.as_slice()[a..b]);
                        let sec = Section { file_name: name, line_start: st, line_end: en };
                        out.push(sec);
                        proof {
                            here = seq![sec@];
                        }
                    }
                }
            }
            assert(section_views(out@) =~= before + here);
            assert(here =~= here + sections_from(s@, s@.len() as int, file_text(s@, file)));
            assert(file_text(s@, file) == (if is_new_file_line(line@) && new_file_name(line@) is Some {
                new_file_name(line@)
            } else {
                fm
            }));
            assert(sections_from(s@, pos as int, fm) == here + sections_from(
                s@,
                next as int,
                file_text(s@, file),
            ));
            assert(before + (here + sections_from(s@, next as int, file_text(s@, file))) =~= (
            before + here) + sections_from(s@, next as int, file_text(s@, file)));
            pos = next;
        }
        assert(section_views(out@) =~= section_views(out@) + sections_from(
            s@,
            pos as int,
            file_text(s@, file),
        ));
        out
    }
}

/// Parsing one diff text twice gives the same ranges, in the same order.
pub proof fn lemma_sections_repeatable(text: Seq<char>, first: Seq<Section>, second: Seq<Section>)
    requires
        section_views(first) == diff_sections(text),
        section_views(second) == diff_sections(text),
    ensures
        first.len() == second.len(),
        forall|i: int| 0 <= i < first.len() ==> first[i]@ == second[i]@,
{
    assert(section_views(first).len() == first.len());
    assert(section_views(second).len() == second.len());
    assert forall|i: int| 0 <= i < first.len() implies first[i]@ == second[i]@ by {
        assert(section_views(first)[i] == first[i]@);
        assert(section_views(second)[i] == second[i]@);
    }
}

/// The file name that a pair of bounds into `s` marks.
pub open spec fn file_text(s: Seq<char>, f: Option<(usize, usize)>) -> Option<Seq<char>> {
    match f {
        Some(b) => Some(s.subrange(b.0 as int, b.1 as int)),
        None => None,
    }
}

} // verus!
