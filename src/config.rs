//! The members of a Cargo project, as its manifest lists them.
use crate::scout::names;
use crate::text::{chars_of, string_of};
use vstd::prelude::*;

verus! {

/// A parsed `Cargo.toml`, carried through without looking inside.
#[verifier::external_type_specification]
#[verifier::external_body]
#[verifier::reject_recursive_types(Metadata)]
pub struct ExManifest<Metadata>(cargo_toml::Manifest<Metadata>);

/// The TOML value type that a manifest's metadata defaults to.
#[verifier::external_type_specification]
#[verifier::external_body]
pub struct ExTomlValue(cargo_toml::Value);

/// The `members` list of the `[workspace]` table of a manifest, when it has one.
pub uninterp spec fn manifest_workspace(m: cargo_toml::Manifest) -> Option<Seq<Seq<char>>>;

/// Relies on `cargo_toml::Manifest`'s public `workspace` field and the public `members` field of
/// `cargo_toml::Workspace`: the `members` list of the `[workspace]` table, when there is one.
#[verifier::external_body]
fn workspace_members(m: cargo_toml::Manifest) -> (r: Option<Vec<String>>)
    ensures
        workspace_names(r) == manifest_workspace(m),
{
    m.workspace.map(|w| w.members)
}

/// The directory named `.`, the project root.
pub open spec fn root_member() -> Seq<char> {
    seq!['.']
}

/// `p` without the slashes at its end.
pub open spec fn strip_slashes(p: Seq<char>) -> Seq<char>
    decreases p.len(),
{
    if p.len() > 0 && p.last() == '/' {
        strip_slashes(p.drop_last())
    } else {
        p
    }
}

/// Where the segment that ends at `k` begins: just after the last `/` before `k`, or 0.
pub open spec fn segment_start(p: Seq<char>, k: int) -> int
    decreases k,
{
    if k <= 0 {
        0
    } else if p[k - 1] == '/' {
        k
    } else {
        segment_start(p, k - 1)
    }
}

/// The last segment of the path `p` between slashes, passing over `.` segments, as
/// `Path::file_name` gives it on Unix: `None` when there is none, or when it is `..`.
pub open spec fn last_segment(p: Seq<char>) -> Option<Seq<char>>
    decreases p.len(),
{
    let t = strip_slashes(p);
    let j = segment_start(t, t.len() as int);
    let seg = t.subrange(j, t.len() as int);
    if seg.len() == 0 || seg == seq!['.', '.'] {
        None
    } else if seg == seq!['.'] {
        if t.len() <= p.len() && 0 <= j < t.len() {
            last_segment(t.subrange(0, j))
        } else {
            None
        }
    } else {
        Some(seg)
    }
}

/// The members of `members` that `only` selects: all of them when `only` is empty, else those
/// whose last path segment is one of `only`.
pub open spec fn selected_members(members: Seq<Seq<char>>, only: Seq<Seq<char>>) -> Seq<
    Seq<char>,
> {
    if only.len() == 0 {
        members
    } else {
        members.filter(
            |m: Seq<char>| last_segment(m) is Some && only.contains(last_segment(m)->0),
        )
    }
}

/// The members of a project whose manifest has `workspace` as its `[workspace]` members: the
/// root alone when there is no workspace.
pub open spec fn project_members(
    workspace: Option<Seq<Seq<char>>>,
    only: Seq<Seq<char>>,
) -> Seq<Seq<char>> {
    match workspace {
        Some(w) => selected_members(w, only),
        None => seq![root_member()],
    }
}

/// A filter was given, and it selects none of the members.
pub open spec fn selects_nothing(workspace: Option<Seq<Seq<char>>>, only: Seq<Seq<char>>) -> bool {
    only.len() > 0 && project_members(workspace, only).len() == 0
}

proof fn lemma_strip_slashes(p: Seq<char>)
    ensures
        strip_slashes(p).len() <= p.len(),
        strip_slashes(p) == p.subrange(0, strip_slashes(p).len() as int),
        strip_slashes(p).len() == 0 || strip_slashes(p).last() != '/',
    decreases p.len(),
{
    if p.len() > 0 && p.last() == '/' {
        lemma_strip_slashes(p.drop_last());
        assert(p.drop_last().subrange(0, strip_slashes(p).len() as int) =~= p.subrange(
            0,
            strip_slashes(p).len() as int,
        ));
    } else {
        assert(p.subrange(0, p.len() as int) =~= p);
    }
}

proof fn lemma_segment_start(p: Seq<char>, k: int)
    requires
        0 <= k <= p.len(),
    ensures
        0 <= segment_start(p, k) <= k,
        segment_start(p, k) > 0 ==> p[segment_start(p, k) - 1] == '/',
        forall|i: int| segment_start(p, k) <= i < k ==> p[i] != '/',
    decreases k,
{
    if k > 0 && p[k - 1] != '/' {
        lemma_segment_start(p, k - 1);
    }
}

/// The last path segment of `p@[..n]`, as `last_segment` describes it.
fn last_segment_of(p: &[char], n: usize) -> (r: Option<String>)
    requires
        n <= p@.len(),
    ensures
        r matches Some(s) ==> last_segment(p@.subrange(0, n as int)) == Some(s@),
        r is None ==> last_segment(p@.subrange(0, n as int)) is None,
    decreases n,
{
    let ghost q = p@.subrange(0, n as int);
    let mut e = n;
    while e > 0 && p[e - 1] == '/'
        invariant
            e <= n <= p@.len(),
            strip_slashes(q) == strip_slashes(p@.subrange(0, e as int)),
        decreases e,
    {
        assert(p@.subrange(0, e as int).drop_last() =~= p@.subrange(0, e - 1));
        e = e - 1;
    }
    assert(strip_slashes(p@.subrange(0, e as int)) == p@.subrange(0, e as int));
    let ghost t = p@.subrange(0, e as int);
    let mut j = e;
    while j > 0 && p[j - 1] != '/'
        invariant
            j <= e <= n <= p@.len(),
            t == p@.subrange(0, e as int),
            segment_start(t, e as int) == segment_start(t, j as int),
        decreases j,
    {
        j = j - 1;
    }
    assert(t.subrange(j as int, e as int) =~= p@.subrange(j as int, e as int));
    let len = e - j;
    if len == 0 {
        return None;
    }
    if len == 2 && p[j] == '.' && p[j + 1] == '.' {
        assert(p@.subrange(j as int, e as int) =~= seq!['.', '.']);
        return None;
    }
    if len == 1 && p[j] == '.' {
        assert(p@.subrange(j as int, e as int) =~= seq!['.']);
        assert(t.subrange(0, j as int) =~= p@.subrange(0, j as int));
        if j == 0 {
            return None;
        }
        return last_segment_of(p, j);
    }
    assert(p@.subrange(j as int, e as int) != seq!['.', '.']) by {
        if len == 2 {
            assert(p@.subrange(j as int, e as int)[0] == p@[j as int]);
        }
    }
    assert(p@.subrange(j as int, e as int) != seq!['.']) by {
        if len == 1 {
            assert(p@.subrange(j as int, e as int)[0] == p@[j as int]);
        }
    }
    Some(string_of(&p[j..e]))
}

/// Whether `name` is one of `only`.
fn listed(only: &[String], name: &String) -> (r: bool)
    ensures
        r == names(only@).contains(name@),
{
    let mut i: usize = 0;
    while i < only.len()
        invariant
            i <= only@.len(),
            forall|k: int| 0 <= k < i ==> names(only@)[k] != name@,
        decreases only@.len() - i,
    {
        if only[i] == *name {
            assert(names(only@)[i as int] == name@);
            return true;
        }
        i = i + 1;
    }
    false
}

/// A copy of each string of `v`.
fn copy_all(v: &[String]) -> (r: Vec<String>)
    ensures
        names(r@) == names(v@),
{
    let mut out: Vec<String> = Vec::new();
    let mut i: usize = 0;
    while i < v.len()
        invariant
            i <= v@.len(),
            names(out@) == names(v@).subrange(0, i as int),
        decreases v@.len() - i,
    {
        let ghost prev = out@;
        let c = v[i].clone();
        assert(c@ == v@[i as int]@);
        out.push(c);
        assert(out@ == prev.push(c));
        assert(names(out@) =~= names(prev).push(c@));
        assert(names(v@).subrange(0, i + 1) =~= names(v@).subrange(0, i as int).push(v@[i as int]@));
        assert(names(out@) =~= names(v@).subrange(0, i + 1));
        i = i + 1;
    }
    assert(names(v@).subrange(0, i as int) =~= names(v@));
    out
}

pub open spec fn workspace_names(w: Option<Vec<String>>) -> Option<Seq<Seq<char>>> {
    match w {
        Some(v) => Some(names(v@)),
        None => None,
    }
}

/// The configuration of a Cargo project: its root directory and the members to lint.
pub struct CargoConfig {
    root: String,
    members: Vec<String>,
}

/// What a `CargoConfig` holds.
pub ghost struct ProjectModel {
    pub root: Seq<char>,
    pub members: Seq<Seq<char>>,
}

impl View for CargoConfig {
    type V = ProjectModel;

    closed spec fn view(&self) -> ProjectModel {
        ProjectModel { root: self.root@, members: names(self.members@) }
    }
}

impl CargoConfig {
    /// The project rooted at `root` whose manifest lists `workspace` as its workspace members,
    /// if it has a workspace, keeping those members that `only_members` selects. A filter that
    /// selects no member is a configuration error, and gives `None`.
    pub fn from_workspace(
        root: String,
        workspace: Option<Vec<String>>,
        only_members: &[String],
    ) -> (r: Option<Self>)
        ensures
            r is None <==> selects_nothing(workspace_names(workspace), names(only_members@)),
            r matches Some(c) ==> c@.root == root@ && c@.members == project_members(
                workspace_names(workspace),
                names(only_members@),
            ),
    {
        match workspace {
            None => {
                let dot = String::from_str(".");
                proof {
                    reveal_strlit(".");
                }
                let mut members: Vec<String> = Vec::new();
                members.push(dot);
                assert(dot@ =~= root_member());
                assert(names(members@) =~= seq![root_member()]);
                Some(CargoConfig { root, members })
            },
            Some(w) => {
                if only_members.len() == 0 {
                    return Some(CargoConfig { root, members: w });
                }
                let ghost only = names(only_members@);
                let ghost pred = |m: Seq<char>|
                    last_segment(m) is Some && only.contains(last_segment(m)->0);
                let mut out: Vec<String> = Vec::new();
                let mut i: usize = 0;
                while i < w.len()
                    invariant
                        i <= w@.len(),
                        only == names(only_members@),
                        pred == (|m: Seq<char>|
                            last_segment(m) is Some && only.contains(last_segment(m)->0)),
                        names(out@) == names(w@).subrange(0, i as int).filter(pred),
                    decreases w@.len() - i,
                {
                    let ghost prev = names(out@);
                    let ghost pre = names(w@).subrange(0, i as int);
                    assert(names(w@).subrange(0, i + 1) =~= pre.push(w@[i as int]@));
                    proof {
                        pre.lemma_filter_push(w@[i as int]@, pred);
                    }
                    let cs = chars_of(w[i].as_str());
                    assert(cs@.subrange(0, cs@.len() as int) =~= cs@);
                    let keep = match last_segment_of(cs.as_slice(), cs.len()) {
                        Some(seg) => listed(only_members, &seg),
                        None => false,
                    };
                    if keep {
                        out.push(w[i].clone());
                        assert(names(out@) =~= prev.push(w@[i as int]@));
                    }
                    i = i + 1;
                }
                assert(names(w@).subrange(0, i as int) =~= names(w@));
                if out.len() == 0 {
                    return None;
                }
                Some(CargoConfig { root, members: out })
            },
        }
    }

    /// The project rooted at `root` that the manifest `m` describes, keeping those workspace
    /// members that `only_members` selects; `None` when a filter selects no member.
    pub fn from_manifest(root: String, m: cargo_toml::Manifest, only_members: &[String]) -> (r:
        Option<Self>)
        ensures
            r is None <==> selects_nothing(manifest_workspace(m), names(only_members@)),
            r matches Some(c) ==> c@.root == root@ && c@.members == project_members(
                manifest_workspace(m),
                names(only_members@),
            ),
    {
        let w = workspace_members(m);
        Self::from_workspace(root, w, only_members)
    }

    /// The members to lint, relative to the root.
    pub fn members(&self) -> (r: Vec<String>)
        ensures
            names(r@) == self@.members,
    {
        copy_all(self.members.as_slice())
    }

    /// The root directory of the project.
    pub fn root(&self) -> (r: &String)
        ensures
            r@ == self@.root,
    {
        &self.root
    }
}

} // verus!
