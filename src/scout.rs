//! Keeps the findings that fall on changed lines, and picks the members that a diff touches.
use crate::git::{section_views, ChangeRange, Section};
use crate::linter::{finding_views, Finding, Lint};
use crate::text::chars_of;
use vstd::prelude::*;

verus! {

/// The three collaborators of one run, held together: the source of the diff, the project's
/// configuration, and the linter.
pub struct Scout<V, C, L> {
    vcs: V,
    config: C,
    linter: L,
}

impl<V, C, L> Scout<V, C, L> {
    pub fn new(vcs: V, config: C, linter: L) -> (r: Self)
        ensures
            r.vcs() == vcs,
            r.config() == config,
            r.linter() == linter,
    {
        Self { vcs, config, linter }
    }

    pub closed spec fn vcs(&self) -> V {
        self.vcs
    }

    pub closed spec fn config(&self) -> C {
        self.config
    }

    pub closed spec fn linter(&self) -> L {
        self.linter
    }

    /// The source of the diff.
    pub fn get_vcs(&self) -> (r: &V)
        ensures
            *r == self.vcs(),
    {
        &self.vcs
    }

    /// The source of the project's members.
    pub fn get_config(&self) -> (r: &C)
        ensures
            *r == self.config(),
    {
        &self.config
    }

    /// The linter to run.
    pub fn get_linter(&self) -> (r: &L)
        ensures
            *r == self.linter(),
    {
        &self.linter
    }
}

/// `p` with every backslash turned into a forward slash.
pub open spec fn slashed(p: Seq<char>) -> Seq<char> {
    p.map_values(|c: char| if c == '\\' { '/' } else { c })
}

/// Two paths name the same file when they agree once backslashes are read as slashes.
pub open spec fn paths_match(a: Seq<char>, b: Seq<char>) -> bool {
    slashed(a) == slashed(b)
}

/// The inclusive spans of a finding and of a change share a line: the change starts inside the
/// finding, or the finding starts inside the change.
pub open spec fn spans_overlap(f: Finding, c: ChangeRange) -> bool {
    (f.line_start <= c.line_start && c.line_start <= f.line_end) || (c.line_start <= f.line_start
        && f.line_start <= c.line_end)
}

/// The finding lies in the changed range `c`.
pub open spec fn finding_in_change(f: Finding, c: ChangeRange) -> bool {
    paths_match(f.path, c.file_name) && spans_overlap(f, c)
}

/// The finding lies in some range of the diff.
pub open spec fn finding_in_diff(f: Finding, diff: Seq<ChangeRange>) -> bool {
    exists|i: int| 0 <= i < diff.len() && finding_in_change(f, #[trigger] diff[i])
}

/// `r` holds each finding of `lints` that lies in `diff`, once, and nothing else.
pub open spec fn is_diff_filter(r: Seq<Finding>, lints: Seq<Finding>, diff: Seq<ChangeRange>) -> bool {
    &&& forall|i: int|
        0 <= i < r.len() ==> finding_in_diff(#[trigger] r[i], diff) && lints.contains(r[i])
    &&& forall|j: int|
        0 <= j < lints.len() && finding_in_diff(#[trigger] lints[j], diff) ==> r.contains(
            lints[j],
        )
    &&& forall|i: int, k: int| 0 <= i < k < r.len() ==> r[i] != r[k]
}

/// Whether `lint` and `git_section` name the same file, backslashes read as slashes.
pub fn files_match(lint: &Lint, git_section: &Section) -> (r: bool)
    ensures
        r == paths_match(lint@.path, git_section@.file_name),
{
    let a = chars_of(lint.location.path.as_str());
    let b = chars_of(git_section.file_name.as_str());
    if a.len() != b.len() {
        assert(slashed(a@).len() != slashed(b@).len());
        return false;
    }
    let mut i: usize = 0;
    while i < a.len()
        invariant
            a@ == lint@.path,
            b@ == git_section@.file_name,
            a@.len() == b@.len(),
            i <= a@.len(),
            forall|j: int| 0 <= j < i ==> slashed(a@)[j] == slashed(b@)[j],
        decreases a@.len() - i,
    {
        let x = if a[i] == '\\' {
            '/'
        } else {
            a[i]
        };
        let y = if b[i] == '\\' {
            '/'
        } else {
            b[i]
        };
        if x != y {
            assert(slashed(a@)[i as int] != slashed(b@)[i as int]);
            return false;
        }
        i = i + 1;
    }
    assert(slashed(a@) =~= slashed(b@));
    true
}

/// Whether the lines of `lint` and of `git_section` overlap.
pub fn lines_in_range(lint: &Lint, git_section: &Section) -> (r: bool)
    ensures
        r == spans_overlap(lint@, git_section@),
{
    let start = lint.location.lines[0];
    let end = lint.location.lines[1];
    (start <= git_section.line_start && git_section.line_start <= end) || (git_section.line_start
        <= start && start <= git_section.line_end)
}

/// Whether `lint` lies in some section of `diffs`.
fn in_some_section(lint: &Lint, diffs: &[Section]) -> (r: bool)
    ensures
        r == finding_in_diff(lint@, section_views(diffs@)),
{
    let ghost d = section_views(diffs@);
    let mut i: usize = 0;
    while i < diffs.len()
        invariant
            i <= diffs@.len(),
            d == section_views(diffs@),
            forall|j: int| 0 <= j < i ==> !finding_in_change(lint@, #[trigger] d[j]),
        decreases diffs@.len() - i,
    {
        if files_match(lint, &diffs[i]) && lines_in_range(lint, &diffs[i]) {
            assert(finding_in_change(lint@, d[i as int]));
            return true;
        }
        i = i + 1;
    }
    false
}

/// Whether the finding `lint` is already among `found`.
fn already_found(found: &Vec<Lint>, lint: &Lint) -> (r: bool)
    ensures
        r == finding_views(found@).contains(lint@),
{
    let ghost v = finding_views(found@);
    let mut i: usize = 0;
    while i < found.len()
        invariant
            i <= found@.len(),
            v == finding_views(found@),
            forall|j: int| 0 <= j < i ==> v[j] != lint@,
        decreases found@.len() - i,
    {
        if found[i].same_as(lint) {
            assert(v[i as int] == lint@);
            return true;
        }
        i = i + 1;
    }
    false
}

/// The findings of `lints` that lie on changed lines of `diffs`, each once.
pub fn lints_from_diff(lints: &[Lint], diffs: &[Section]) -> (r: Vec<Lint>)
    ensures
        is_diff_filter(finding_views(r@), finding_views(lints@), section_views(diffs@)),
{
    let ghost lv = finding_views(lints@);
    let ghost d = section_views(diffs@);
    let mut found: Vec<Lint> = Vec::new();
    let mut j: usize = 0;
    while j < lints.len()
        invariant
            j <= lints@.len(),
            lv == finding_views(lints@),
            d == section_views(diffs@),
            forall|i: int|
                0 <= i < finding_views(found@).len() ==> finding_in_diff(
                    #[trigger] finding_views(found@)[i],
                    d,
                ) && lv.contains(finding_views(found@)[i]),
            forall|k: int|
                0 <= k < j && finding_in_diff(#[trigger] lv[k], d) ==> finding_views(
                    found@,
                ).contains(lv[k]),
            forall|i: int, k: int|
                0 <= i < k < finding_views(found@).len() ==> finding_views(found@)[i]
                    != finding_views(found@)[k],
        decreases lints@.len() - j,
    {
        let lint = &lints[j];
        assert(lv[j as int] == lint@);
        if in_some_section(lint, diffs) && !already_found(&found, lint) {
            let ghost old_v = finding_views(found@);
            found.push(lint.duplicate());
            assert(finding_views(found@) =~= old_v.push(lint@));
            assert(lv.contains(lint@));
            assert forall|k: int|
                0 <= k < j + 1 && finding_in_diff(#[trigger] lv[k], d) implies finding_views(
                found@,
            ).contains(lv[k]) by {
                if k < j {
                    let w = choose|w: int| 0 <= w < old_v.len() && old_v[w] == lv[k];
                    assert(finding_views(found@)[w] == lv[k]);
                } else {
                    assert(finding_views(found@)[old_v.len() as int] == lv[k]);
                }
            }
        }
        j = j + 1;
    }
    found
}

/// Some change of the diff is to a file whose path begins with `member`, read as plain text.
pub open spec fn member_changed(member: Seq<char>, diff: Seq<ChangeRange>) -> bool {
    exists|i: int| 0 <= i < diff.len() && (#[trigger] diff[i]).file_name.len() >= member.len()
        && diff[i].file_name.subrange(0, member.len() as int) == member
}

/// Whether the diff changes a file under `member`: some section's file name begins with it.
pub fn diff_in_member(member: &String, sections: &[Section]) -> (r: bool)
    ensures
        r == member_changed(member@, section_views(sections@)),
{
    let ghost d = section_views(sections@);
    let m = chars_of(member.as_str());
    let mut i: usize = 0;
    while i < sections.len()
        invariant
            i <= sections@.len(),
            d == section_views(sections@),
            m@ == member@,
            forall|j: int|
                0 <= j < i ==> !((#[trigger] d[j]).file_name.len() >= m@.len()
                    && d[j].file_name.subrange(0, m@.len() as int) == m@),
        decreases sections@.len() - i,
    {
        let f = chars_of(sections[i].file_name.as_str());
        assert(f@ == d[i as int].file_name);
        if f.len() >= m.len() {
            let mut k: usize = 0;
            while k < m.len() && f[k] == m[k]
                invariant
                    k <= m@.len() <= f@.len(),
                    forall|q: int| 0 <= q < k ==> f@[q] == m@[q],
                decreases m@.len() - k,
            {
                k = k + 1;
            }
            if k == m.len() {
                assert(f@.subrange(0, m@.len() as int) =~= m@);
                return true;
            }
            assert(f@.subrange(0, m@.len() as int)[k as int] != m@[k as int]);
        }
        i = i + 1;
    }
    false
}

pub open spec fn names(v: Seq<String>) -> Seq<Seq<char>> {
    v.map_values(|s: String| s@)
}

/// The members under which `diff` changes something, in their order, duplicates kept.
pub open spec fn changed_members(members: Seq<Seq<char>>, diff: Seq<ChangeRange>) -> Seq<
    Seq<char>,
> {
    members.filter(|m: Seq<char>| member_changed(m, diff))
}

/// The members that `sections` touch: those worth running the linter on.
pub fn relevant_members(members: &[String], sections: &[Section]) -> (r: Vec<String>)
    ensures
        names(r@) == changed_members(names(members@), section_views(sections@)),
{
    let ghost d = section_views(sections@);
    let ghost pred = |m: Seq<char>| member_changed(m, d);
    let mut out: Vec<String> = Vec::new();
    let mut i: usize = 0;
    while i < members.len()
        invariant
            i <= members@.len(),
            d == section_views(sections@),
            pred == (|m: Seq<char>| member_changed(m, d)),
            names(out@) == names(members@).subrange(0, i as int).filter(pred),
        decreases members@.len() - i,
    {
        let ghost prev = names(out@);
        let ghost pre = names(members@).subrange(0, i as int);
        assert(names(members@).subrange(0, i + 1) =~= pre.push(members@[i as int]@));
        proof {
            pre.lemma_filter_push(members@[i as int]@, pred);
        }
        if diff_in_member(&members[i], sections) {
            out.push(members[i].clone());
            assert(names(out@) =~= prev.push(members@[i as int]@));
        }
        i = i + 1;
    }
    assert(names(members@).subrange(0, i as int) =~= names(members@));
    out
}

/// Line `k` lies in the inclusive span from `lo` to `hi`.
pub open spec fn line_within(k: int, lo: u32, hi: u32) -> bool {
    lo <= k <= hi
}

/// For spans whose start is not past their end, overlap means that some line lies in both, so a
/// shared end line counts.
pub proof fn lemma_overlap_is_shared_line(f: Finding, c: ChangeRange)
    requires
        f.line_start <= f.line_end,
        c.line_start <= c.line_end,
    ensures
        spans_overlap(f, c) <==> exists|k: int|
            #[trigger] line_within(k, f.line_start, f.line_end) && line_within(
                k,
                c.line_start,
                c.line_end,
            ),
{
    if spans_overlap(f, c) {
        if f.line_start <= c.line_start && c.line_start <= f.line_end {
            assert(line_within(c.line_start as int, f.line_start, f.line_end) && line_within(
                c.line_start as int,
                c.line_start,
                c.line_end,
            ));
        } else {
            assert(line_within(f.line_start as int, f.line_start, f.line_end) && line_within(
                f.line_start as int,
                c.line_start,
                c.line_end,
            ));
        }
    }
    if exists|k: int|
        #[trigger] line_within(k, f.line_start, f.line_end) && line_within(
            k,
            c.line_start,
            c.line_end,
        ) {
        let k = choose|k: int|
            #[trigger] line_within(k, f.line_start, f.line_end) && line_within(
                k,
                c.line_start,
                c.line_end,
            );
        assert(spans_overlap(f, c));
    }
}

/// With no members or no changes, no member is linted; and filtering findings against no
/// changes, or filtering no findings, keeps nothing.
pub proof fn lemma_no_op_run(
    members: Seq<Seq<char>>,
    diff: Seq<ChangeRange>,
    lints: Seq<Finding>,
    r: Seq<Finding>,
)
    requires
        members.len() == 0 || diff.len() == 0,
        is_diff_filter(r, lints, diff),
    ensures
        changed_members(members, diff).len() == 0,
        diff.len() == 0 || lints.len() == 0 ==> r.len() == 0,
{
    reveal_with_fuel(Seq::filter, 1);
    let pred = |m: Seq<char>| member_changed(m, diff);
    if diff.len() == 0 {
        assert forall|i: int| 0 <= i < members.len() implies !pred(members[i]) by {}
        assert(changed_members(members, diff) == members.filter(pred));
        if changed_members(members, diff).len() > 0 {
            members.lemma_filter_pred(pred, 0);
            assert(pred(members.filter(pred)[0]));
        }
        if r.len() > 0 {
            assert(finding_in_diff(r[0], diff));
        }
    } else {
        members.lemma_filter_len(pred);
    }
    if lints.len() == 0 && r.len() > 0 {
        assert(lints.contains(r[0]));
    }
}

/// A finding that lies in two ranges of the diff is kept exactly once.
pub proof fn lemma_kept_once(
    r: Seq<Finding>,
    lints: Seq<Finding>,
    diff: Seq<ChangeRange>,
    f: Finding,
    first: int,
    second: int,
)
    requires
        is_diff_filter(r, lints, diff),
        lints.contains(f),
        0 <= first < second < diff.len(),
        finding_in_change(f, diff[first]),
        finding_in_change(f, diff[second]),
    ensures
        exists|i: int| 0 <= i < r.len() && r[i] == f,
        forall|i: int, k: int| 0 <= i < r.len() && 0 <= k < r.len() && r[i] == f && r[k] == f ==> i == k,
{
    let j = choose|j: int| 0 <= j < lints.len() && lints[j] == f;
    assert(finding_in_diff(lints[j], diff));
    assert(r.contains(lints[j]));
    assert forall|i: int, k: int|
        0 <= i < r.len() && 0 <= k < r.len() && r[i] == f && r[k] == f implies i == k by {
        if i < k {
            assert(r[i] != r[k]);
        } else if k < i {
            assert(r[k] != r[i]);
        }
    }
}

} // verus!
