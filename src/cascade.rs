use vstd::prelude::*;

use crate::path::{
    ancestor_at, ancestor_seq, ancestor_walk_is_finite_and_descending, ancestors, truncate,
    DirPath, PathView,
};

verus! {

/// Where, under a directory, the configuration pointer lives:
/// `.git/.gitconf/profile`.
pub open spec fn config_subpath() -> Seq<Seq<char>> {
    seq![
        seq!['.', 'g', 'i', 't'],
        seq!['.', 'g', 'i', 't', 'c', 'o', 'n', 'f'],
        seq!['p', 'r', 'o', 'f', 'i', 'l', 'e'],
    ]
}

/// The first-use marker directory under a repository: `.git/.gitconf`.
pub open spec fn marker_subpath() -> Seq<Seq<char>> {
    config_subpath().take(2)
}

/// The configuration file that governs lookups from `dir`.
pub open spec fn config_file_in(dir: PathView) -> PathView {
    PathView { absolute: dir.absolute, parts: dir.parts + config_subpath() }
}

/// The files that a cascade from `start` looks at, nearest first.
pub open spec fn candidate_seq(start: PathView) -> Seq<PathView> {
    ancestor_seq(start).map_values(|a: PathView| config_file_in(a))
}

/// The index of the first `true`, if any.
pub open spec fn first_true(s: Seq<bool>) -> Option<int>
    decreases s.len(),
{
    if s.len() == 0 {
        None
    } else if s[0] {
        Some(0)
    } else {
        match first_true(s.drop_first()) {
            Some(i) => Some(i + 1),
            None => None,
        }
    }
}

/// `first_true` picks the least index that holds `true`, and finds nothing
/// only where every entry is `false`.
pub proof fn first_true_is_least(s: Seq<bool>)
    ensures
        first_true(s) is None <==> forall|k: int| 0 <= k < s.len() ==> !#[trigger] s[k],
        first_true(s) is Some ==> {
            let i = first_true(s)->0;
            &&& 0 <= i < s.len()
            &&& s[i]
            &&& forall|k: int| 0 <= k < i ==> !#[trigger] s[k]
        },
    decreases s.len(),
{
    if s.len() > 0 && !s[0] {
        let t = s.drop_first();
        first_true_is_least(t);
        assert forall|k: int| 0 < k < s.len() implies s[k] == #[trigger] t[k - 1] by {}
        if first_true(t) is None {
            assert forall|k: int| 0 <= k < s.len() implies !#[trigger] s[k] by {
                if k > 0 {
                    assert(!t[k - 1]);
                }
            }
        } else {
            let f = first_true(t)->0;
            assert(s[f + 1]);
            assert forall|k: int| 0 <= k < f + 1 implies !#[trigger] s[k] by {
                if k > 0 {
                    assert(!t[k - 1]);
                }
            }
        }
    }
}

/// A file system as the cascade sees it: the readable files and their text.
pub open spec fn presence(files: Map<PathView, Seq<char>>, cands: Seq<PathView>) -> Seq<bool> {
    cands.map_values(|c: PathView| files.contains_key(c))
}

/// The governing file found from `start` and its text, or `None` where no
/// ancestor holds one.
pub open spec fn load_from(files: Map<PathView, Seq<char>>, start: PathView) -> Option<(PathView, Seq<char>)> {
    let c = candidate_seq(start);
    match first_true(presence(files, c)) {
        Some(i) => Some((c[i], files[c[i]])),
        None => None,
    }
}

/// The files after pointing `target` at `profile`.
pub open spec fn with_profile_set(files: Map<PathView, Seq<char>>, target: PathView, profile: Seq<char>) -> Map<PathView, Seq<char>> {
    files.insert(config_file_in(target), profile)
}

/// Nearest wins: where the nearest ancestor with a configuration file is the
/// `i`-th, and a farther `k`-th one holds one too, the cascade returns the
/// `i`-th file and never the `k`-th.
pub proof fn nearest_config_wins(files: Map<PathView, Seq<char>>, start: PathView, i: int, k: int)
    requires
        0 <= i < k < candidate_seq(start).len(),
        files.contains_key(candidate_seq(start)[i]),
        files.contains_key(candidate_seq(start)[k]),
        forall|j: int| 0 <= j < i ==> !files.contains_key(#[trigger] candidate_seq(start)[j]),
    ensures
        load_from(files, start) == Some((candidate_seq(start)[i], files[candidate_seq(start)[i]])),
        candidate_seq(start)[i] != candidate_seq(start)[k],
{
    let c = candidate_seq(start);
    let p = presence(files, c);
    first_true_is_least(p);
    assert(p[i]);
    assert forall|j: int| 0 <= j < i implies !#[trigger] p[j] by {
        assert(!files.contains_key(c[j]));
    }
    if first_true(p) is Some {
        let f = first_true(p)->0;
        assert(!(f < i));
        assert(!(i < f));
    }
    ancestor_walk_is_finite_and_descending(start);
    let a = ancestor_seq(start);
    assert(a[i] != a[k]);
    if c[i] == c[k] {
        assert(a[i].parts == c[i].parts.subrange(0, c[i].parts.len() - 3));
        assert(a[k].parts == c[k].parts.subrange(0, c[k].parts.len() - 3));
        assert(a[i].parts =~= a[k].parts);
    }
}

/// Round trip: after pointing a directory other than the root at a profile,
/// the cascade from that directory, or from any directory below it with no
/// nearer configuration file in between, reports the file just written and
/// the profile it holds.
pub proof fn set_then_load_round_trip(
    files: Map<PathView, Seq<char>>,
    target: PathView,
    profile: Seq<char>,
    below: Seq<Seq<char>>,
)
    requires
        target.parts.len() > 0,
        forall|j: int|
            0 <= j < below.len() ==> !files.contains_key(
                #[trigger] config_file_in(
                    truncate(
                        PathView { absolute: target.absolute, parts: target.parts + below },
                        target.parts.len() + below.len() - j,
                    ),
                ),
            ),
    ensures
        load_from(
            with_profile_set(files, target, profile),
            PathView { absolute: target.absolute, parts: target.parts + below },
        ) == Some((config_file_in(target), profile)),
{
    let d = PathView { absolute: target.absolute, parts: target.parts + below };
    let f2 = with_profile_set(files, target, profile);
    let c = candidate_seq(d);
    let p = presence(f2, c);
    let n = below.len() as int;
    ancestor_at(d, n);
    assert(d.parts.subrange(0, d.parts.len() - n) =~= target.parts);
    assert(truncate(d, d.parts.len() - n) == target);
    assert(c[n] == config_file_in(target));
    assert forall|j: int| 0 <= j < n implies !#[trigger] p[j] by {
        ancestor_at(d, j);
        let t = truncate(d, d.parts.len() - j);
        assert(c[j] == config_file_in(t));
        assert(config_file_in(t).parts.len() != config_file_in(target).parts.len());
        assert(!files.contains_key(config_file_in(t)));
    }
    first_true_is_least(p);
    assert(p[n]);
    if first_true(p) is Some {
        let f = first_true(p)->0;
        assert(!(f < n));
        assert(!(n < f));
    }
}

/// Idempotence: pointing a directory at a profile twice leaves the same files,
/// and so the same resolved configuration, as doing it once; below the root
/// both applications are confirmed.
pub proof fn set_profile_twice(files: Map<PathView, Seq<char>>, target: PathView, profile: Seq<char>)
    ensures
        with_profile_set(with_profile_set(files, target, profile), target, profile) == with_profile_set(
            files,
            target,
            profile,
        ),
        load_from(with_profile_set(with_profile_set(files, target, profile), target, profile), target)
            == load_from(with_profile_set(files, target, profile), target),
        target.parts.len() > 0 ==> load_from(with_profile_set(files, target, profile), target)
            == Some((config_file_in(target), profile)),
{
    let once = with_profile_set(files, target, profile);
    assert(with_profile_set(once, target, profile) =~= once);
    if target.parts.len() > 0 {
        assert(target.parts + Seq::<Seq<char>>::empty() =~= target.parts);
        set_then_load_round_trip(files, target, profile, Seq::<Seq<char>>::empty());
    }
}

/// What reading one candidate file gave.
#[derive(Debug)]
pub enum Probe {
    /// No file there: the cascade goes on.
    Missing,
    /// A readable file, with its text.
    Found(String),
    /// A file that is there but cannot be read.
    Unreadable,
}

pub open spec fn probe_present(p: Probe) -> bool {
    !(p is Missing)
}

/// Where each probe reports a file exactly where the file model holds one,
/// the probes and the model pick the same candidate: `resolve_cascade` on
/// such probes reports the source of `load_from`.
pub proof fn probes_follow_files(files: Map<PathView, Seq<char>>, cands: Seq<PathView>, probes: Seq<Probe>)
    requires
        probes.len() == cands.len(),
        forall|i: int| 0 <= i < probes.len() ==> probe_present(#[trigger] probes[i]) == files.contains_key(cands[i]),
    ensures
        probes.map_values(|p: Probe| probe_present(p)) == presence(files, cands),
{
    assert(probes.map_values(|p: Probe| probe_present(p)) =~= presence(files, cands));
}

/// The options in effect for one invocation.
#[derive(Debug)]
pub struct Configuration {
    pub interactive: bool,
    pub select_profile_on_first_use: bool,
    pub show_current_profile: bool,
    /// The location of the active profile, as the governing file names it.
    pub profile: Option<String>,
}

impl Configuration {
    pub open spec fn has_standard_options(&self) -> bool {
        self.interactive && self.select_profile_on_first_use && self.show_current_profile
    }

    /// The configuration in effect where no ancestor holds a configuration file.
    pub fn standard() -> (r: Configuration)
        ensures
            r.has_standard_options(),
            r.profile is None,
    {
        Configuration {
            interactive: true,
            select_profile_on_first_use: true,
            show_current_profile: true,
            profile: None,
        }
    }

    /// The configuration that a governing file with `text` gives.
    pub fn from_text(text: String) -> (r: Configuration)
        ensures
            r.has_standard_options(),
            r.profile == Some(text),
    {
        Configuration {
            interactive: true,
            select_profile_on_first_use: true,
            show_current_profile: true,
            profile: Some(text),
        }
    }
}

/// A resolved configuration, with the file it came from.
#[derive(Debug)]
pub struct Loaded {
    pub config: Configuration,
    pub source: Option<DirPath>,
}

#[derive(Debug)]
pub enum CascadeError {
    /// The nearest configuration file is there but cannot be read.
    Unreadable(DirPath),
}

/// The components of the configuration pointer's place under a directory.
pub fn config_subpath_parts() -> (r: Vec<String>)
    ensures
        r@.map_values(|s: String| s@) == config_subpath(),
{
    let mut r: Vec<String> = Vec::new();
    r.push(".git".to_owned());
    r.push(".gitconf".to_owned());
    r.push("profile".to_owned());
    proof {
        reveal_strlit(".git");
        reveal_strlit(".gitconf");
        reveal_strlit("profile");
    }
    assert(r@[0]@ =~= config_subpath()[0]);
    assert(r@[1]@ =~= config_subpath()[1]);
    assert(r@[2]@ =~= config_subpath()[2]);
    assert(r@.map_values(|s: String| s@) =~= config_subpath());
    r
}

/// The configuration file that governs lookups from `dir`.
pub fn config_file_for(dir: &DirPath) -> (r: DirPath)
    ensures
        r@ == config_file_in(dir@),
{
    dir.join(&config_subpath_parts())
}

/// The first-use marker directory of the repository at `dir`.
pub fn marker_dir_for(dir: &DirPath) -> (r: DirPath)
    ensures
        r@ == (PathView { absolute: dir@.absolute, parts: dir@.parts + marker_subpath() }),
{
    let mut parts = config_subpath_parts();
    let ghost full = parts@;
    assert(full.len() == full.map_values(|s: String| s@).len());
    parts.pop();
    assert(parts@ == full.drop_last());
    assert forall|k: int| 0 <= k < 2 implies parts@.map_values(|s: String| s@)[k]
        == #[trigger] marker_subpath()[k] by {
        assert(full.map_values(|s: String| s@)[k] == config_subpath()[k]);
    }
    assert(parts@.map_values(|s: String| s@) =~= marker_subpath());
    dir.join(&parts)
}

/// The files that a cascade from `start` reads, nearest first.
pub fn config_candidates(start: &DirPath) -> (r: Vec<DirPath>)
    ensures
        r@.map_values(|p: DirPath| p@) == candidate_seq(start@),
{
    let anc = ancestors(start);
    let mut r: Vec<DirPath> = Vec::new();
    let mut i: usize = 0;
    while i < anc.len()
        invariant
            i <= anc.len(),
            anc@.map_values(|p: DirPath| p@) == ancestor_seq(start@),
            r@.len() == i,
            forall|k: int| 0 <= k < i ==> (#[trigger] r@[k])@ == config_file_in(anc@[k]@),
        decreases anc.len() - i,
    {
        r.push(config_file_for(&anc[i]));
        i = i + 1;
    }
    assert(r@.map_values(|p: DirPath| p@) =~= candidate_seq(start@)) by {
        assert forall|k: int| 0 <= k < r@.len() implies r@.map_values(|p: DirPath| p@)[k]
            == #[trigger] candidate_seq(start@)[k] by {
            assert(anc@.map_values(|p: DirPath| p@)[k] == anc@[k]@);
        }
    }
    r
}

/// Resolves the cascade from what reading each candidate gave: the nearest
/// file that is there wins; where it cannot be read that is an error, and
/// where none is there the standard configuration applies.
pub fn resolve_cascade(candidates: &Vec<DirPath>, probes: &Vec<Probe>) -> (r: Result<Loaded, CascadeError>)
    requires
        candidates.len() == probes.len(),
    ensures
        first_true(probes@.map_values(|p: Probe| probe_present(p))) is None ==> r is Ok
            && r->Ok_0.source is None && r->Ok_0.config.has_standard_options()
            && r->Ok_0.config.profile is None,
        forall|i: int|
            first_true(probes@.map_values(|p: Probe| probe_present(p))) == Some(i) ==> match probes@[i] {
                Probe::Found(t) => r is Ok && r->Ok_0.source is Some && r->Ok_0.source->0@
                    == candidates@[i]@ && r->Ok_0.config.has_standard_options()
                    && r->Ok_0.config.profile == Some(t),
                Probe::Unreadable => r is Err && r->Err_0->Unreadable_0@ == candidates@[i]@,
                Probe::Missing => false,
            },
{
    let ghost s = probes@.map_values(|p: Probe| probe_present(p));
    proof {
        first_true_is_least(s);
    }
    let mut i: usize = 0;
    while i < probes.len()
        invariant
            i <= probes.len(),
            candidates.len() == probes.len(),
            s == probes@.map_values(|p: Probe| probe_present(p)),
            forall|k: int| 0 <= k < i ==> !#[trigger] s[k],
        decreases probes.len() - i,
    {
        match &probes[i] {
            Probe::Missing => {},
            Probe::Found(t) => {
                proof {
                    first_true_is_least(s);
                    assert(s[i as int]);
                    if first_true(s) is Some {
                        let f = first_true(s)->0;
                        assert(!(f < i));
                        assert(!(i < f));
                    }
                }
                let config = Configuration::from_text(t.clone());
                return Ok(Loaded { config, source: Some(candidates[i].duplicate()) });
            },
            Probe::Unreadable => {
                proof {
                    first_true_is_least(s);
                    assert(s[i as int]);
                    if first_true(s) is Some {
                        let f = first_true(s)->0;
                        assert(!(f < i));
                        assert(!(i < f));
                    }
                }
                return Err(CascadeError::Unreadable(candidates[i].duplicate()));
            },
        }
        i = i + 1;
    }
    Ok(Loaded { config: Configuration::standard(), source: None })
}

/// Whether pointing `target` at a profile took effect: the cascade from
/// `target` now reports the file that was written.
pub fn profile_applied(target: &DirPath, source: &Option<DirPath>) -> (r: bool)
    ensures
        r == (source is Some && source->0@ == config_file_in(target@)),
{
    match source {
        Some(s) => {
            let expected = config_file_for(target);
            s.same_as(&expected)
        },
        None => false,
    }
}

} // verus!
