//! The dependency store: a per-feature mapping from normalized package name
//! to dependency specification, scoped either to all declared platforms or to
//! one explicit platform, with add/remove governed by an overwrite policy.

use vstd::prelude::*;
use crate::error::ManifestError;

verus! {

/// A structured constraint on an acceptable version or source of a package.
#[derive(Debug, Clone)]
pub enum DependencySpec {
    /// A conda-style version constraint (`>=1.21`, `*`, ...) with optional
    /// build-string constraint and channel override.
    Conda { constraint: String, build: Option<String>, channel: Option<String> },
    /// A PyPI-style version constraint of a registry requirement.
    Pypi { constraint: String },
    /// A local path reference, possibly editable.
    Path { path: String, editable: bool },
    /// A direct URL reference.
    Url { url: String },
    /// A git repository reference with an optional revision.
    Git { git: String, rev: Option<String> },
}

/// The mathematical value of a `DependencySpec`.
pub enum SpecModel {
    Conda { constraint: Seq<char>, build: Option<Seq<char>>, channel: Option<Seq<char>> },
    Pypi { constraint: Seq<char> },
    Path { path: Seq<char>, editable: bool },
    Url { url: Seq<char> },
    Git { git: Seq<char>, rev: Option<Seq<char>> },
}

pub open spec fn opt_view(o: Option<String>) -> Option<Seq<char>> {
    match o {
        Some(s) => Some(s@),
        None => None,
    }
}

/// The views of a list of strings.
pub open spec fn strs_view(s: Seq<String>) -> Seq<Seq<char>> {
    s.map_values(|p: String| p@)
}

impl View for DependencySpec {
    type V = SpecModel;

    open spec fn view(&self) -> SpecModel {
        match self {
            DependencySpec::Conda { constraint, build, channel } => SpecModel::Conda {
                constraint: constraint@,
                build: opt_view(*build),
                channel: opt_view(*channel),
            },
            DependencySpec::Pypi { constraint } => SpecModel::Pypi { constraint: constraint@ },
            DependencySpec::Path { path, editable } => SpecModel::Path {
                path: path@,
                editable: *editable,
            },
            DependencySpec::Url { url } => SpecModel::Url { url: url@ },
            DependencySpec::Git { git, rev } => SpecModel::Git {
                git: git@,
                rev: opt_view(*rev),
            },
        }
    }
}

fn opt_str_eq(a: &Option<String>, b: &Option<String>) -> (r: bool)
    ensures
        r == (opt_view(*a) == opt_view(*b)),
{
    match (a, b) {
        (None, None) => true,
        (Some(x), Some(y)) => *x == *y,
        _ => false,
    }
}

impl DependencySpec {
    /// Whether two specifications are the same constraint.
    pub fn same_as(&self, other: &DependencySpec) -> (r: bool)
        ensures
            r == (self@ == other@),
    {
        match (self, other) {
            (
                DependencySpec::Conda { constraint: a, build: ba, channel: ca },
                DependencySpec::Conda { constraint: b, build: bb, channel: cb },
            ) => *a == *b && opt_str_eq(ba, bb) && opt_str_eq(ca, cb),
            (DependencySpec::Pypi { constraint: a }, DependencySpec::Pypi { constraint: b }) => *a
                == *b,
            (
                DependencySpec::Path { path: a, editable: ea },
                DependencySpec::Path { path: b, editable: eb },
            ) => *a == *b && *ea == *eb,
            (DependencySpec::Url { url: a }, DependencySpec::Url { url: b }) => *a == *b,
            (
                DependencySpec::Git { git: a, rev: ra },
                DependencySpec::Git { git: b, rev: rb },
            ) => *a == *b && opt_str_eq(ra, rb),
            _ => false,
        }
    }
}

/// What an add does when the targeted scope already has an entry for the
/// package.
#[derive(Debug, Clone, Copy, PartialEq, Eq, Structural)]
pub enum DependencyOverwriteBehavior {
    /// Replace silently.
    Overwrite,
    /// Tolerate an identical re-insertion as a no-op, error on a genuine
    /// conflict.
    IgnoreDuplicate,
    /// Fail on any existing entry.
    Error,
}

/// One stored specification: a package name bound to a specification within
/// one platform scope (`None` is the all-platforms scope).
#[derive(Debug, Clone)]
pub struct StoreEntry {
    pub name: String,
    pub platform: Option<String>,
    pub spec: DependencySpec,
}

/// A store key: package name and platform scope.
pub open spec fn entry_key(e: StoreEntry) -> (Seq<char>, Option<Seq<char>>) {
    (e.name@, opt_view(e.platform))
}

/// The mapping that a sequence of entries holds; later entries shadow
/// earlier ones with the same key (the store's invariant rules that out).
pub open spec fn entries_map(s: Seq<StoreEntry>) -> Map<
    (Seq<char>, Option<Seq<char>>),
    SpecModel,
>
    decreases s.len(),
{
    if s.len() == 0 {
        Map::empty()
    } else {
        entries_map(s.drop_last()).insert(entry_key(s.last()), s.last().spec@)
    }
}

/// The scopes an add or remove call targets: the all-platforms scope when no
/// platform is listed, else exactly the listed platforms.
pub open spec fn target_scopes(platforms: Seq<Seq<char>>) -> Seq<Option<Seq<char>>> {
    if platforms.len() == 0 {
        seq![None]
    } else {
        platforms.map_values(|p: Seq<char>| Some(p))
    }
}

/// Whether a store key is targeted by a call on `name` scoped to `platforms`.
pub open spec fn targeted_key(
    name: Seq<char>,
    platforms: Seq<Seq<char>>,
    k: (Seq<char>, Option<Seq<char>>),
) -> bool {
    k.0 == name && target_scopes(platforms).contains(k.1)
}

/// Whether every listed platform belongs to the allowed set.
pub open spec fn platforms_allowed(platforms: Seq<Seq<char>>, allowed: Seq<Seq<char>>) -> bool {
    forall|i: int| 0 <= i < platforms.len() ==> allowed.contains(#[trigger] platforms[i])
}

/// Whether an add of `spec` under `behavior` conflicts with the store.
pub open spec fn add_conflicts(
    m: Map<(Seq<char>, Option<Seq<char>>), SpecModel>,
    name: Seq<char>,
    platforms: Seq<Seq<char>>,
    spec: SpecModel,
    behavior: DependencyOverwriteBehavior,
) -> bool {
    match behavior {
        DependencyOverwriteBehavior::Overwrite => false,
        DependencyOverwriteBehavior::Error => exists|k: (Seq<char>, Option<Seq<char>>)|
            #[trigger] m.contains_key(k) && targeted_key(name, platforms, k),
        DependencyOverwriteBehavior::IgnoreDuplicate => exists|
            k: (Seq<char>, Option<Seq<char>>),
        | #[trigger] m.contains_key(k) && targeted_key(name, platforms, k) && m[k] != spec,
    }
}

/// The store after a successful add: every targeted key bound to `spec`.
pub open spec fn after_add(
    m: Map<(Seq<char>, Option<Seq<char>>), SpecModel>,
    name: Seq<char>,
    platforms: Seq<Seq<char>>,
    spec: SpecModel,
) -> Map<(Seq<char>, Option<Seq<char>>), SpecModel> {
    m.union_prefer_right(
        Map::new(
            |k: (Seq<char>, Option<Seq<char>>)| targeted_key(name, platforms, k),
            |k: (Seq<char>, Option<Seq<char>>)| spec,
        ),
    )
}

/// The specification in force for `name` on `platform`: the entry of that
/// exact scope when there is one, else the all-platforms entry.
pub open spec fn effective_lookup(
    m: Map<(Seq<char>, Option<Seq<char>>), SpecModel>,
    name: Seq<char>,
    platform: Option<Seq<char>>,
) -> Option<SpecModel> {
    if m.contains_key((name, platform)) {
        Some(m[(name, platform)])
    } else if platform is Some && m.contains_key((name, None)) {
        Some(m[(name, None)])
    } else {
        None
    }
}

/// The per-feature dependency store, mutated only through `add` and `remove`.
#[derive(Debug, Clone)]
pub struct DependencyStore {
    entries: Vec<StoreEntry>,
}

impl View for DependencyStore {
    type V = Map<(Seq<char>, Option<Seq<char>>), SpecModel>;

    closed spec fn view(&self) -> Map<(Seq<char>, Option<Seq<char>>), SpecModel> {
        entries_map(self.entries@)
    }
}

proof fn lemma_entries_map_contains(s: Seq<StoreEntry>, k: (Seq<char>, Option<Seq<char>>))
    ensures
        entries_map(s).contains_key(k) <==> exists|i: int|
            0 <= i < s.len() && entry_key(#[trigger] s[i]) == k,
    decreases s.len(),
{
    if s.len() > 0 {
        lemma_entries_map_contains(s.drop_last(), k);
        if entries_map(s).contains_key(k) {
            if entry_key(s.last()) == k {
                assert(entry_key(s[s.len() - 1]) == k);
            } else {
                let i = choose|i: int| 0 <= i < s.drop_last().len() && entry_key(
                    #[trigger] s.drop_last()[i],
                ) == k;
                assert(entry_key(s[i]) == k);
            }
        }
        if exists|i: int| 0 <= i < s.len() && entry_key(#[trigger] s[i]) == k {
            let i = choose|i: int| 0 <= i < s.len() && entry_key(#[trigger] s[i]) == k;
            if i == s.len() - 1 {
            } else {
                assert(entry_key(s.drop_last()[i]) == k);
            }
        }
    }
}

proof fn lemma_entries_map_index(s: Seq<StoreEntry>, i: int)
    requires
        unique_keys(s),
        0 <= i < s.len(),
    ensures
        entries_map(s).contains_key(entry_key(s[i])),
        entries_map(s)[entry_key(s[i])] == s[i].spec@,
    decreases s.len(),
{
    lemma_entries_map_contains(s, entry_key(s[i]));
    if i == s.len() - 1 {
    } else {
        assert(forall|a: int| 0 <= a < s.len() - 1 ==> #[trigger] s.drop_last()[a] == s[a]);
        assert(unique_keys(s.drop_last()));
        assert(s.drop_last()[i] == s[i]);
        lemma_entries_map_index(s.drop_last(), i);
        assert(entry_key(s[s.len() - 1]) != entry_key(s[i]));
    }
}

/// No two entries share a key.
pub open spec fn unique_keys(s: Seq<StoreEntry>) -> bool {
    forall|a: int, b: int|
        0 <= a < b < s.len() ==> entry_key(#[trigger] s[a]) != entry_key(#[trigger] s[b])
}

impl DependencyStore {
    /// The store's internal invariant.
    pub closed spec fn wf(&self) -> bool {
        unique_keys(self.entries@)
    }

    /// An empty store.
    pub fn new() -> (r: DependencyStore)
        ensures
            r.wf(),
            r@ == Map::<(Seq<char>, Option<Seq<char>>), SpecModel>::empty(),
    {
        DependencyStore { entries: Vec::new() }
    }

    fn find_entry(&self, name: &String, platform: &Option<String>) -> (r: Option<usize>)
        requires
            self.wf(),
        ensures
            r matches Some(i) ==> i < self.entries@.len() && entry_key(self.entries@[i as int])
                == (name@, opt_view(*platform)),
            r is None ==> !self@.contains_key((name@, opt_view(*platform))),
            r is Some <==> self@.contains_key((name@, opt_view(*platform))),
    {
        proof {
            lemma_entries_map_contains(self.entries@, (name@, opt_view(*platform)));
        }
        let mut i: usize = 0;
        while i < self.entries.len()
            invariant
                i <= self.entries@.len(),
                forall|j: int|
                    0 <= j < i ==> entry_key(#[trigger] self.entries@[j]) != (
                    name@,
                    opt_view(*platform),
                ),
            decreases self.entries@.len() - i,
        {
            let e = &self.entries[i];
            if e.name == *name && opt_str_eq(&e.platform, platform) {
                proof {
                    lemma_entries_map_contains(self.entries@, (name@, opt_view(*platform)));
                }
                return Some(i);
            }
            i += 1;
        }
        None
    }

    /// The specification in force for `name` on `platform`: an entry scoped
    /// to that exact platform wins over the all-platforms entry.
    pub fn get(&self, name: &String, platform: &Option<String>) -> (r: Option<&DependencySpec>)
        requires
            self.wf(),
        ensures
            match r {
                Some(s) => effective_lookup(self@, name@, opt_view(*platform)) == Some(s@),
                None => effective_lookup(self@, name@, opt_view(*platform)) is None,
            },
    {
        match self.find_entry(name, platform) {
            Some(i) => {
                proof {
                    lemma_entries_map_index(self.entries@, i as int);
                }
                Some(&self.entries[i].spec)
            },
            None => {
                if platform.is_some() {
                    match self.find_entry(name, &None) {
                        Some(i) => {
                            proof {
                                lemma_entries_map_index(self.entries@, i as int);
                            }
                            Some(&self.entries[i].spec)
                        },
                        None => None,
                    }
                } else {
                    None
                }
            },
        }
    }

}


/// The views of a list of optional platform names.
pub open spec fn opts_view(s: Seq<Option<String>>) -> Seq<Option<Seq<char>>> {
    s.map_values(|o: Option<String>| opt_view(o))
}

/// `m` with every key of `name` in one of `scopes` bound to `spec`.
pub open spec fn scoped_add(
    m: Map<(Seq<char>, Option<Seq<char>>), SpecModel>,
    name: Seq<char>,
    scopes: Seq<Option<Seq<char>>>,
    spec: SpecModel,
) -> Map<(Seq<char>, Option<Seq<char>>), SpecModel> {
    m.union_prefer_right(
        Map::new(
            |k: (Seq<char>, Option<Seq<char>>)| k.0 == name && scopes.contains(k.1),
            |k: (Seq<char>, Option<Seq<char>>)| spec,
        ),
    )
}

/// `m` without any key of `name` in one of `scopes`.
pub open spec fn scoped_remove(
    m: Map<(Seq<char>, Option<Seq<char>>), SpecModel>,
    name: Seq<char>,
    scopes: Seq<Option<Seq<char>>>,
) -> Map<(Seq<char>, Option<Seq<char>>), SpecModel> {
    m.remove_keys(Set::new(|k: (Seq<char>, Option<Seq<char>>)| k.0 == name && scopes.contains(k.1)))
}

proof fn lemma_entries_map_update(s: Seq<StoreEntry>, i: int, e: StoreEntry)
    requires
        unique_keys(s),
        0 <= i < s.len(),
        entry_key(e) == entry_key(s[i]),
    ensures
        entries_map(s.update(i, e)) == entries_map(s).insert(entry_key(s[i]), e.spec@),
        unique_keys(s.update(i, e)),
    decreases s.len(),
{
    assert(forall|a: int| 0 <= a < s.len() - 1 ==> #[trigger] s.drop_last()[a] == s[a]);
    assert(unique_keys(s.drop_last()));
    if i == s.len() - 1 {
        assert(s.update(i, e).drop_last() =~= s.drop_last());
        assert(s.update(i, e).last() == e);
        assert(entries_map(s.update(i, e)) =~= entries_map(s).insert(entry_key(s[i]), e.spec@));
    } else {
        lemma_entries_map_update(s.drop_last(), i, e);
        assert(s.update(i, e).drop_last() =~= s.drop_last().update(i, e));
        assert(s.update(i, e).last() == s.last());
        assert(s.drop_last()[i] == s[i]);
        assert(entry_key(s.last()) != entry_key(s[i]));
        assert(entries_map(s.update(i, e)) =~= entries_map(s).insert(entry_key(s[i]), e.spec@));
    }
    assert(forall|a: int| 0 <= a < s.len() && a != i ==> entry_key(#[trigger] s.update(i, e)[a]) == entry_key(s[a]));
    assert(entry_key(s.update(i, e)[i]) == entry_key(s[i]));
    assert(unique_keys(s.update(i, e)));
}

proof fn lemma_entries_map_remove(s: Seq<StoreEntry>, i: int)
    requires
        unique_keys(s),
        0 <= i < s.len(),
    ensures
        entries_map(s.remove(i)) == entries_map(s).remove(entry_key(s[i])),
        unique_keys(s.remove(i)),
    decreases s.len(),
{
    lemma_entries_map_contains(s.drop_last(), entry_key(s[i]));
    assert(forall|a: int| 0 <= a < s.len() - 1 ==> #[trigger] s.drop_last()[a] == s[a]);
    assert(unique_keys(s.drop_last()));
    if i == s.len() - 1 {
        assert(s.remove(i) =~= s.drop_last());
        assert(!entries_map(s.drop_last()).contains_key(entry_key(s[i])));
        assert(entries_map(s.remove(i)) =~= entries_map(s).remove(entry_key(s[i])));
    } else {
        lemma_entries_map_remove(s.drop_last(), i);
        assert(s.remove(i).drop_last() =~= s.drop_last().remove(i));
        assert(s.remove(i).last() == s.last());
        assert(s.drop_last()[i] == s[i]);
        assert(entry_key(s.last()) != entry_key(s[i]));
        assert(entries_map(s.remove(i)) =~= entries_map(s).remove(entry_key(s[i])));
    }
    assert(forall|a: int, b: int|
        0 <= a < b < s.remove(i).len() ==> entry_key(#[trigger] s.remove(i)[a]) != entry_key(
            #[trigger] s.remove(i)[b],
        )) by {
        assert(forall|a: int|
            0 <= a < s.remove(i).len() ==> #[trigger] s.remove(i)[a] == (if a < i {
                s[a]
            } else {
                s[a + 1]
            }));
    }
}

proof fn lemma_take_contains<A>(s: Seq<A>, j: int, x: A)
    requires
        0 <= j < s.len(),
    ensures
        s.take(j + 1).contains(x) <==> (s.take(j).contains(x) || x == s[j]),
{
    if s.take(j + 1).contains(x) {
        let i = choose|i: int| 0 <= i < s.take(j + 1).len() && #[trigger] s.take(j + 1)[i] == x;
        if i < j {
            assert(s.take(j)[i] == x);
        } else {
            assert(s[j] == x);
        }
    }
    if s.take(j).contains(x) {
        let i = choose|i: int| 0 <= i < s.take(j).len() && #[trigger] s.take(j)[i] == x;
        assert(s.take(j + 1)[i] == x);
    }
    if x == s[j] {
        assert(s.take(j + 1)[j] == x);
    }
}

pub fn opt_dup(o: &Option<String>) -> (r: Option<String>)
    ensures
        opt_view(r) == opt_view(*o),
{
    match o {
        Some(s) => Some(s.clone()),
        None => None,
    }
}

impl DependencySpec {
    /// A copy holding the same constraint.
    pub fn duplicate(&self) -> (r: DependencySpec)
        ensures
            r@ == self@,
    {
        match self {
            DependencySpec::Conda { constraint, build, channel } => DependencySpec::Conda {
                constraint: constraint.clone(),
                build: opt_dup(build),
                channel: opt_dup(channel),
            },
            DependencySpec::Pypi { constraint } => DependencySpec::Pypi {
                constraint: constraint.clone(),
            },
            DependencySpec::Path { path, editable } => DependencySpec::Path {
                path: path.clone(),
                editable: *editable,
            },
            DependencySpec::Url { url } => DependencySpec::Url { url: url.clone() },
            DependencySpec::Git { git, rev } => DependencySpec::Git {
                git: git.clone(),
                rev: opt_dup(rev),
            },
        }
    }
}

pub fn contains_string(v: &Vec<String>, s: &String) -> (r: bool)
    ensures
        r == strs_view(v@).contains(s@),
{
    let mut i: usize = 0;
    while i < v.len()
        invariant
            i <= v@.len(),
            forall|j: int| 0 <= j < i ==> #[trigger] v@[j]@ != s@,
        decreases v@.len() - i,
    {
        if v[i] == *s {
            assert(strs_view(v@)[i as int] == s@);
            return true;
        }
        i += 1;
    }
    assert(forall|j: int| 0 <= j < v@.len() ==> #[trigger] strs_view(v@)[j] == v@[j]@);
    false
}

fn make_scopes(platforms: &Vec<String>) -> (r: Vec<Option<String>>)
    ensures
        opts_view(r@) == target_scopes(strs_view(platforms@)),
{
    let mut r: Vec<Option<String>> = Vec::new();
    if platforms.len() == 0 {
        r.push(None);
        assert(opts_view(r@) =~= target_scopes(strs_view(platforms@)));
        r
    } else {
        let mut i: usize = 0;
        while i < platforms.len()
            invariant
                i <= platforms@.len(),
                r@.len() == i,
                forall|j: int| 0 <= j < i ==> opt_view(#[trigger] r@[j]) == Some(platforms@[j]@),
            decreases platforms@.len() - i,
        {
            r.push(Some(platforms[i].clone()));
            i += 1;
        }
        proof {
            assert(forall|j: int|
                0 <= j < r@.len() ==> #[trigger] opts_view(r@)[j] == opt_view(r@[j]));
            assert(forall|j: int|
                0 <= j < platforms@.len() ==> #[trigger] target_scopes(strs_view(platforms@))[j]
                    == Some(platforms@[j]@));
            assert(opts_view(r@) =~= target_scopes(strs_view(platforms@)));
        }
        r
    }
}

impl DependencyStore {
    /// Adds `name` with `spec` to each targeted scope: the all-platforms
    /// scope when `platforms` is empty, else each listed platform, which must
    /// belong to `allowed_platforms`. An existing entry is handled by
    /// `behavior`. The call is atomic: on an error nothing is changed.
    pub fn add(
        &mut self,
        name: &String,
        spec: &DependencySpec,
        platforms: &Vec<String>,
        behavior: DependencyOverwriteBehavior,
        allowed_platforms: &Vec<String>,
    ) -> (r: Result<(), ManifestError>)
        requires
            old(self).wf(),
        ensures
            final(self).wf(),
            match r {
                Ok(()) => {
                    &&& platforms_allowed(strs_view(platforms@), strs_view(allowed_platforms@))
                    &&& !add_conflicts(
                        old(self)@,
                        name@,
                        strs_view(platforms@),
                        spec@,
                        behavior,
                    )
                    &&& final(self)@ == after_add(old(self)@, name@, strs_view(platforms@), spec@)
                },
                Err(ManifestError::UnsupportedPlatform { platform }) => {
                    &&& final(self)@ == old(self)@
                    &&& strs_view(platforms@).contains(platform@)
                    &&& !strs_view(allowed_platforms@).contains(platform@)
                },
                Err(ManifestError::DuplicateDependency { name: n }) => {
                    &&& final(self)@ == old(self)@
                    &&& n@ == name@
                    &&& platforms_allowed(strs_view(platforms@), strs_view(allowed_platforms@))
                    &&& add_conflicts(old(self)@, name@, strs_view(platforms@), spec@, behavior)
                },
                _ => false,
            },
    {
        let ghost platv = strs_view(platforms@);
        let mut i: usize = 0;
        while i < platforms.len()
            invariant
                self == old(self),
                self.wf(),
                platv == strs_view(platforms@),
                i <= platforms@.len(),
                forall|j: int|
                    0 <= j < i ==> strs_view(allowed_platforms@).contains(#[trigger] platv[j]),
            decreases platforms@.len() - i,
        {
            if !contains_string(allowed_platforms, &platforms[i]) {
                assert(platv[i as int] == platforms@[i as int]@);
                return Err(
                    ManifestError::UnsupportedPlatform { platform: platforms[i].clone() },
                );
            }
            assert(platv[i as int] == platforms@[i as int]@);
            i += 1;
        }
        assert(platforms_allowed(platv, strs_view(allowed_platforms@)));
        let scopes = make_scopes(platforms);
        let ghost scopev = opts_view(scopes@);
        let check_conflicts = match behavior {
            DependencyOverwriteBehavior::Overwrite => false,
            DependencyOverwriteBehavior::IgnoreDuplicate => true,
            DependencyOverwriteBehavior::Error => true,
        };
        if check_conflicts {
            let mut j: usize = 0;
            while j < scopes.len()
                invariant
                    !(behavior is Overwrite),
                    self.wf(),
                    self == old(self),
                    scopev == opts_view(scopes@),
                    scopev == target_scopes(strs_view(platforms@)),
                    platforms_allowed(strs_view(platforms@), strs_view(allowed_platforms@)),
                    j <= scopes@.len(),
                    forall|jj: int|
                        0 <= jj < j ==> !(self@.contains_key((name@, #[trigger] scopev[jj]))
                            && (behavior is Error || self@[(name@, scopev[jj])] != spec@)),
                decreases scopes@.len() - j,
            {
                assert(opt_view(scopes@[j as int]) == scopev[j as int]);
                match self.find_entry(name, &scopes[j]) {
                    Some(idx) => {
                        let conflict = match behavior {
                            DependencyOverwriteBehavior::Error => true,
                            _ => !self.entries[idx].spec.same_as(spec),
                        };
                        if conflict {
                            proof {
                                lemma_entries_map_index(self.entries@, idx as int);
                                let k = (name@, scopev[j as int]);
                                assert(scopev.contains(scopev[j as int]));
                                assert(self@.contains_key(k));
                                assert(targeted_key(name@, strs_view(platforms@), k));
                                assert(self@[k] == self.entries@[idx as int].spec@);
                                if behavior is Error {
                                    assert(exists|k2: (Seq<char>, Option<Seq<char>>)|
                                        #[trigger] self@.contains_key(k2) && targeted_key(
                                            name@,
                                            strs_view(platforms@),
                                            k2,
                                        ));
                                } else {
                                    assert(self@[k] != spec@);
                                    assert(exists|k2: (Seq<char>, Option<Seq<char>>)|
                                        #[trigger] self@.contains_key(k2) && targeted_key(
                                            name@,
                                            strs_view(platforms@),
                                            k2,
                                        ) && self@[k2] != spec@);
                                }
                                assert(add_conflicts(
                                    self@,
                                    name@,
                                    strs_view(platforms@),
                                    spec@,
                                    behavior,
                                ));
                            }
                            return Err(ManifestError::DuplicateDependency { name: name.clone() });
                        }
                        proof {
                            lemma_entries_map_index(self.entries@, idx as int);
                        }
                    },
                    None => {},
                }
                j += 1;
            }
            proof {
                assert forall|k: (Seq<char>, Option<Seq<char>>)|
                    self@.contains_key(k) && targeted_key(name@, strs_view(platforms@), k)
                        implies !(behavior is Error) && self@[k] == spec@ by {
                    let jj = choose|jj: int|
                        0 <= jj < scopev.len() && scopev[jj] == k.1;
                    assert(k == (name@, scopev[jj]));
                }
                assert(!add_conflicts(self@, name@, strs_view(platforms@), spec@, behavior));
            }
        }
        let ghost pre = self@;
        let mut j: usize = 0;
        while j < scopes.len()
            invariant
                self.wf(),
                pre == old(self)@,
                old(self).wf(),
                scopev == opts_view(scopes@),
                j <= scopes@.len(),
                self@ == scoped_add(pre, name@, scopev.take(j as int), spec@),
            decreases scopes@.len() - j,
        {
            assert(opt_view(scopes@[j as int]) == scopev[j as int]);
            let entry = StoreEntry {
                name: name.clone(),
                platform: opt_dup(&scopes[j]),
                spec: spec.duplicate(),
            };
            assert(entry_key(entry) == (name@, scopev[j as int]));
            match self.find_entry(name, &scopes[j]) {
                Some(idx) => {
                    proof {
                        lemma_entries_map_update(self.entries@, idx as int, entry);
                    }
                    self.entries[idx] = entry;
                },
                None => {
                    proof {
                        let s0 = self.entries@;
                        assert(s0.push(entry).drop_last() =~= s0);
                        assert(forall|a: int|
                            0 <= a < s0.len() ==> #[trigger] s0.push(entry)[a] == s0[a]);
                        lemma_entries_map_contains(s0, entry_key(entry));
                        assert(unique_keys(s0.push(entry)));
                    }
                    self.entries.push(entry);
                },
            }
            proof {
                let prev = scoped_add(pre, name@, scopev.take(j as int), spec@);
                let next = scoped_add(pre, name@, scopev.take(j as int + 1), spec@);
                assert forall|x: Option<Seq<char>>|
                    #[trigger] scopev.take(j as int + 1).contains(x) <==> (scopev.take(
                    j as int,
                ).contains(x) || x == scopev[j as int]) by {
                    lemma_take_contains(scopev, j as int, x);
                }
                assert(prev.insert((name@, scopev[j as int]), spec@) =~= next);
            }
            j += 1;
        }
        proof {
            assert(scopev.take(scopev.len() as int) =~= scopev);
            assert(scoped_add(pre, name@, scopev, spec@) =~= after_add(
                pre,
                name@,
                strs_view(platforms@),
                spec@,
            ));
        }
        Ok(())
    }

    /// Removes `name` from each targeted scope; scopes where it is absent are
    /// skipped. Fails with `DependencyNotFound` only when `name` was absent
    /// from every targeted scope.
    pub fn remove(&mut self, name: &String, platforms: &Vec<String>) -> (r: Result<
        (),
        ManifestError,
    >)
        requires
            old(self).wf(),
        ensures
            final(self).wf(),
            final(self)@ == scoped_remove(
                old(self)@,
                name@,
                target_scopes(strs_view(platforms@)),
            ),
            match r {
                Ok(()) => exists|k: (Seq<char>, Option<Seq<char>>)|
                    #[trigger] old(self)@.contains_key(k) && targeted_key(
                        name@,
                        strs_view(platforms@),
                        k,
                    ),
                Err(ManifestError::DependencyNotFound { name: n }) => {
                    &&& n@ == name@
                    &&& forall|k: (Seq<char>, Option<Seq<char>>)|
                        !(#[trigger] old(self)@.contains_key(k) && targeted_key(
                            name@,
                            strs_view(platforms@),
                            k,
                        ))
                },
                _ => false,
            },
    {
        let scopes = make_scopes(platforms);
        let ghost scopev = opts_view(scopes@);
        let ghost pre = self@;
        let mut removed = false;
        let mut j: usize = 0;
        while j < scopes.len()
            invariant
                self.wf(),
                pre == old(self)@,
                old(self).wf(),
                scopev == opts_view(scopes@),
                scopev == target_scopes(strs_view(platforms@)),
                j <= scopes@.len(),
                self@ == scoped_remove(pre, name@, scopev.take(j as int)),
                removed ==> exists|k: (Seq<char>, Option<Seq<char>>)|
                    #[trigger] pre.contains_key(k) && targeted_key(
                        name@,
                        strs_view(platforms@),
                        k,
                    ),
                !removed ==> forall|jj: int|
                    0 <= jj < j ==> !pre.contains_key((name@, #[trigger] scopev[jj])),
            decreases scopes@.len() - j,
        {
            assert(opt_view(scopes@[j as int]) == scopev[j as int]);
            let ghost prev = scoped_remove(pre, name@, scopev.take(j as int));
            let ghost next = scoped_remove(pre, name@, scopev.take(j as int + 1));
            proof {
                assert forall|x: Option<Seq<char>>|
                    #[trigger] scopev.take(j as int + 1).contains(x) <==> (scopev.take(
                    j as int,
                ).contains(x) || x == scopev[j as int]) by {
                    lemma_take_contains(scopev, j as int, x);
                }
            }
            match self.find_entry(name, &scopes[j]) {
                Some(idx) => {
                    proof {
                        lemma_entries_map_index(self.entries@, idx as int);
                        lemma_entries_map_remove(self.entries@, idx as int);
                        lemma_entries_map_contains(old(self).entries@, (name@, scopev[j as int]));
                        assert(pre.contains_key((name@, scopev[j as int]))) by {
                            assert(self@.contains_key((name@, scopev[j as int])));
                            assert(self@ == scoped_remove(pre, name@, scopev.take(j as int)));
                        }
                        assert(targeted_key(
                            name@,
                            strs_view(platforms@),
                            (name@, scopev[j as int]),
                        ));
                    }
                    self.entries.remove(idx);
                    removed = true;
                    assert(self@ =~= next);
                },
                None => {
                    proof {
                        if pre.contains_key((name@, scopev[j as int])) {
                            assert(targeted_key(
                                name@,
                                strs_view(platforms@),
                                (name@, scopev[j as int]),
                            ));
                        }
                        assert(self@ =~= next);
                    }
                },
            }
            j += 1;
        }
        proof {
            assert(scopev.take(scopev.len() as int) =~= scopev);
        }
        if removed {
            Ok(())
        } else {
            proof {
                assert forall|k: (Seq<char>, Option<Seq<char>>)|
                    !(#[trigger] pre.contains_key(k) && targeted_key(
                        name@,
                        strs_view(platforms@),
                        k,
                    )) by {
                    if pre.contains_key(k) && targeted_key(name@, strs_view(platforms@), k) {
                        let jj = choose|jj: int| 0 <= jj < scopev.len() && scopev[jj] == k.1;
                        assert(k == (name@, scopev[jj]));
                    }
                }
            }
            Err(ManifestError::DependencyNotFound { name: name.clone() })
        }
    }
}




impl DependencyStore {
    /// The stored entries, in insertion order.
    pub closed spec fn entry_seq(&self) -> Seq<StoreEntry> {
        self.entries@
    }

    /// How many entries the store holds.
    pub fn entry_count(&self) -> (r: usize)
        ensures
            r == self.entry_seq().len(),
    {
        self.entries.len()
    }

    /// The entry at position `i`.
    pub fn entry_at(&self, i: usize) -> (r: &StoreEntry)
        requires
            i < self.entry_seq().len(),
        ensures
            *r == self.entry_seq()[i as int],
    {
        &self.entries[i]
    }
}


/// Platform scoping: an add targeted at platform `p` leaves every query
/// scoped to a different platform `q` unchanged, whatever the package.
pub proof fn lemma_platform_scoping(
    m: Map<(Seq<char>, Option<Seq<char>>), SpecModel>,
    name: Seq<char>,
    p: Seq<char>,
    spec: SpecModel,
    qname: Seq<char>,
    q: Seq<char>,
)
    requires
        p != q,
    ensures
        effective_lookup(after_add(m, name, seq![p], spec), qname, Some(q)) == effective_lookup(
            m,
            qname,
            Some(q),
        ),
{
    let m2 = after_add(m, name, seq![p], spec);
    assert(target_scopes(seq![p])[0] == Some(p));
    assert forall|x: Option<Seq<char>>|
        #[trigger] target_scopes(seq![p]).contains(x) implies x == Some(p) by {
        let i = choose|i: int|
            0 <= i < target_scopes(seq![p]).len() && target_scopes(seq![p])[i] == x;
    }
    assert(!targeted_key(name, seq![p], (qname, Some(q))));
    assert(!targeted_key(name, seq![p], (qname, None)));
    assert(m2.contains_key((qname, Some(q))) == m.contains_key((qname, Some(q))));
    assert(m2.contains_key((qname, None)) == m.contains_key((qname, None)));
    if m.contains_key((qname, Some(q))) {
        assert(m2[(qname, Some(q))] == m[(qname, Some(q))]);
    }
    if m.contains_key((qname, None)) {
        assert(m2[(qname, None)] == m[(qname, None)]);
    }
}


} // verus!
