//! Clippy's JSON messages: the records, how they are framed in its output, and which of them
//! can be scoped to changed lines.
use crate::linter;
use crate::text::{chars_of, line_bounds, lines_from, string_of};
use vstd::prelude::*;

verus! {

/// The code of a lint and its explanation.
#[derive(PartialEq, Debug)]
pub struct LintCode {
    pub code: String,
    pub explanation: String,
}

/// The file and first line of a lint.
#[derive(PartialEq, Debug)]
pub struct LintSpan {
    pub file_name: String,
    /// The line where the lint should be reported.
    pub line_start: usize,
}

/// One record of Clippy's output.
#[derive(PartialEq, Debug, Clone)]
pub struct Lint {
    pub package_id: String,
    pub src_path: Option<String>,
    pub message: Option<Message>,
}

/// The rendered text of a lint and the spans of code that it points at.
#[derive(PartialEq, Debug, Clone)]
pub struct Message {
    pub rendered: String,
    pub spans: Vec<Span>,
}

/// A span of lines of one file.
#[derive(PartialEq, Debug, Clone)]
pub struct Span {
    pub file_name: String,
    pub line_start: i32,
    pub line_end: i32,
}

/// Runs Clippy.
pub struct Linter {
    verbose: bool,
}

impl Linter {
    /// Whether the linter reports what it runs.
    pub closed spec fn is_verbose(&self) -> bool {
        self.verbose
    }

    pub fn new() -> (r: Self)
        ensures
            !r.is_verbose(),
    {
        Self { verbose: false }
    }

    pub fn verbose(&self) -> (r: bool)
        ensures
            r == self.is_verbose(),
    {
        self.verbose
    }

    pub fn set_verbose(&mut self, verbose: bool) -> (r: &mut Self)
        ensures
            r.is_verbose() == verbose,
            *final(self) == *final(r),
    {
        self.verbose = verbose;
        self
    }
}

/// A line that may hold a JSON record: it begins with `{`.
pub open spec fn is_record_line(l: Seq<char>) -> bool {
    l.len() > 0 && l[0] == '{'
}

/// The lines of Clippy's output that may hold a record, in order.
pub open spec fn record_lines(output: Seq<char>) -> Seq<Seq<char>> {
    lines_from(output, 0).filter(|l: Seq<char>| is_record_line(l))
}

pub open spec fn texts(v: Seq<String>) -> Seq<Seq<char>> {
    v.map_values(|s: String| s@)
}

/// The lines of `clippy_output` that begin with `{`, each of which should hold one record.
pub fn candidate_lines(clippy_output: &str) -> (r: Vec<String>)
    ensures
        texts(r@) == record_lines(clippy_output@),
{
    let s = chars_of(clippy_output);
    let ghost pred = |l: Seq<char>| is_record_line(l);
    let mut out: Vec<String> = Vec::new();
    let mut pos: usize = 0;
    while pos < s.len()
        invariant
            pos <= s@.len(),
            s@ == clippy_output@,
            pred == (|l: Seq<char>| is_record_line(l)),
            texts(out@) + lines_from(s@, pos as int).filter(pred) == lines_from(s@, 0).filter(
                pred,
            ),
        decreases s@.len() - pos,
    {
        let (hi, next) = line_bounds(s.as_slice(), pos);
        let line = &s.as_slice()[pos..hi];
        let ghost rest = lines_from(s@, next as int);
        assert(lines_from(s@, pos as int) =~= seq![line@] + rest) by {
            if next == s@.len() {
                assert(rest =~= Seq::<Seq<char>>::empty());
            }
        }
        proof {
            Seq::filter_distributes_over_add(seq![line@], rest, pred);
            reveal_with_fuel(Seq::filter, 2);
        }
        let ghost prev = texts(out@);
        if line.len() > 0 && line[0] == '{' {
            out.push(string_of(line));
            assert(texts(out@) =~= prev.push(line@));
            assert(seq![line@].filter(pred) =~= seq![line@]);
        } else {
            assert(seq![line@].filter(pred) =~= Seq::<Seq<char>>::empty());
        }
        assert(texts(out@) + rest.filter(pred) =~= prev + (seq![line@].filter(pred)
            + rest.filter(pred)));
        pos = next;
    }
    assert(lines_from(s@, pos as int).filter(pred) =~= Seq::<Seq<char>>::empty()) by {
        reveal_with_fuel(Seq::filter, 1);
    }
    assert(texts(out@) =~= texts(out@) + Seq::<Seq<char>>::empty());
    out
}

/// The record points at code: it has a message with at least one span.
pub open spec fn has_spans(lint: Lint) -> bool {
    lint.message is Some && lint.message->0.spans@.len() > 0
}

/// Whether `lint` points at some code, so that it can be scoped to changed lines.
pub fn is_reportable(lint: &Lint) -> (r: bool)
    ensures
        r == has_spans(*lint),
{
    match &lint.message {
        Some(m) => m.spans.len() > 0,
        None => false,
    }
}

/// The records of `lints` that point at some code, in order.
pub fn reportable_lints(lints: Vec<Lint>) -> (r: Vec<Lint>)
    ensures
        r@ == lints@.filter(|l: Lint| has_spans(l)),
{
    let ghost pred = |l: Lint| has_spans(l);
    let ghost all = lints@;
    let mut out: Vec<Lint> = Vec::new();
    for l in it: lints.into_iter()
        invariant
            pred == (|l: Lint| has_spans(l)),
            it.seq() == all,
            out@ == all.subrange(0, it.index() as int).filter(pred),
    {
        let ghost i = it.index();
        proof {
            all.subrange(0, i as int).lemma_filter_push(l, pred);
            assert(all.subrange(0, i + 1) =~= all.subrange(0, i as int).push(l));
        }
        if is_reportable(&l) {
            out.push(l);
        }
    }
    assert(all.subrange(0, all.len() as int) =~= all);
    out
}

/// A span that stands for lines: neither end is negative.
pub open spec fn is_line_span(s: Span) -> bool {
    s.line_start >= 0 && s.line_end >= 0
}

/// The finding that `span` of a lint with the text `message` makes.
pub open spec fn span_finding(message: Seq<char>, s: Span) -> linter::Finding {
    linter::Finding {
        path: s.file_name@,
        line_start: s.line_start as u32,
        line_end: s.line_end as u32,
        message,
    }
}

/// The findings of `lint`: one for each span of lines, with the lint's rendered text.
pub open spec fn lint_findings(lint: Lint) -> Seq<linter::Finding> {
    match lint.message {
        Some(m) => m.spans@.filter(|s: Span| is_line_span(s)).map_values(
            |s: Span| span_finding(m.rendered@, s),
        ),
        None => Seq::empty(),
    }
}

impl Lint {
    /// One finding for each span of this record that stands for lines, each carrying the
    /// record's rendered message.
    pub fn findings(&self) -> (r: Vec<linter::Lint>)
        ensures
            linter::finding_views(r@) == lint_findings(*self),
    {
        let mut out: Vec<linter::Lint> = Vec::new();
        match &self.message {
            None => out,
            Some(m) => {
                let ghost pred = |s: Span| is_line_span(s);
                let ghost f = |s: Span| span_finding(m.rendered@, s);
                let mut i: usize = 0;
                while i < m.spans.len()
                    invariant
                        i <= m.spans@.len(),
                        pred == (|s: Span| is_line_span(s)),
                        f == (|s: Span| span_finding(m.rendered@, s)),
                        linter::finding_views(out@) == m.spans@.subrange(0, i as int).filter(
                            pred,
                        ).map_values(f),
                    decreases m.spans@.len() - i,
                {
                    let sp = &m.spans[i];
                    let ghost pre = m.spans@.subrange(0, i as int);
                    proof {
                        pre.lemma_filter_push(*sp, pred);
                        assert(m.spans@.subrange(0, i + 1) =~= pre.push(*sp));
                    }
                    let ghost prev = linter::finding_views(out@);
                    if sp.line_start >= 0 && sp.line_end >= 0 {
                        let fnd = linter::Lint::new(
                            sp.file_name.clone(),
                            sp.line_start as u32,
                            sp.line_end as u32,
                            m.rendered.clone(),
                        );
                        out.push(fnd);
                        assert(linter::finding_views(out@) =~= prev.push(f(*sp)));
                        assert(pre.push(*sp).filter(pred).map_values(f) =~= pre.filter(
                            pred,
                        ).map_values(f).push(f(*sp)));
                    }
                    i = i + 1;
                }
                assert(m.spans@.subrange(0, i as int) =~= m.spans@);
                out
            },
        }
    }
}

} // verus!
