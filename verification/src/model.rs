//! The typed manifest graph — workspace, features, environments — and the
//! composition rules that turn an environment's feature list into an
//! effective dependency view, platform set and channel list.

use vstd::prelude::*;
use crate::deps::{
    DependencyStore, DependencySpec, SpecModel, DependencyOverwriteBehavior, effective_lookup,
    opt_view, strs_view, contains_string,
};
use crate::error::ManifestError;
use crate::deps::{after_add, add_conflicts, platforms_allowed, scoped_remove, target_scopes, targeted_key};
use crate::names::{normalize_package_name, valid_name_bytes, normalized_bytes};
use crate::text::{byte_view, char_view};

verus! {

/// Which of a feature's two stores a call speaks of.
#[derive(Debug, Clone, Copy, PartialEq, Eq, Structural)]
pub enum SpecKind {
    Conda,
    Pypi,
}

/// A named, reusable bundle of dependencies and platform/channel overrides.
#[derive(Debug, Clone)]
pub struct Feature {
    pub name: String,
    /// `None` means the workspace's platforms.
    pub platforms: Option<Vec<String>>,
    /// `None` means the workspace's channels.
    pub channels: Option<Vec<String>>,
    /// Conda-style dependencies.
    pub dependencies: DependencyStore,
    /// PyPI-style dependencies.
    pub pypi_dependencies: DependencyStore,
    /// Named tasks; opaque to this model, but they round-trip.
    pub tasks: Vec<(String, String)>,
    /// Foreign feature keys preserved verbatim, as (key, raw value) pairs.
    pub extra: Vec<(String, String)>,
}

/// A named composition of features, materialized as one resolvable target.
#[derive(Debug, Clone)]
pub struct EnvironmentDef {
    pub name: String,
    /// Feature names in declared order; later features take precedence.
    pub features: Vec<String>,
    pub solve_group: Option<String>,
    /// When set, the default feature is not composed implicitly.
    pub no_default_feature: bool,
}

/// The root configuration scope.
#[derive(Debug, Clone)]
pub struct Workspace {
    pub name: String,
    pub channels: Vec<String>,
    pub platforms: Vec<String>,
    /// The optional minimum-tool-version requirement string.
    pub pixi_version: Option<String>,
    /// Foreign workspace keys preserved verbatim, as (key, raw value) pairs.
    pub extra: Vec<(String, String)>,
}

/// A document section this model does not own, preserved opaquely: its
/// header line and its lines, all verbatim.
#[derive(Debug, Clone)]
pub struct ForeignSection {
    pub header: String,
    pub lines: Vec<String>,
}

/// A parsed manifest: one workspace, its features (the default feature
/// first), its environments, and any foreign sections it carried.
#[derive(Debug, Clone)]
pub struct Manifest {
    pub workspace: Workspace,
    pub features: Vec<Feature>,
    pub environments: Vec<EnvironmentDef>,
    pub foreign: Vec<ForeignSection>,
}

/// Whether a specification value belongs in the store `kind` selects:
/// conda values in the conda store; registry, path, URL and git values in
/// the PyPI store.
pub open spec fn kind_matches(s: crate::deps::SpecModel, kind: SpecKind) -> bool {
    match kind {
        SpecKind::Conda => s is Conda,
        SpecKind::Pypi => !(s is Conda),
    }
}

/// The store of `f` that `kind` selects.
pub open spec fn store_of(f: Feature, kind: SpecKind) -> Map<
    (Seq<char>, Option<Seq<char>>),
    SpecModel,
> {
    match kind {
        SpecKind::Conda => f.dependencies@,
        SpecKind::Pypi => f.pypi_dependencies@,
    }
}

/// Whether some feature of `m` is named `name`.
pub open spec fn feature_exists(m: Manifest, name: Seq<char>) -> bool {
    exists|i: int| 0 <= i < m.features@.len() && (#[trigger] m.features@[i]).name@ == name
}

/// The feature of `m` named `name` (unique under `wf`).
pub open spec fn feature_of(m: Manifest, name: Seq<char>) -> Feature {
    m.features@[choose|i: int|
        0 <= i < m.features@.len() && (#[trigger] m.features@[i]).name@ == name]
}

/// Whether every name in `names` is a feature of `m`.
pub open spec fn all_features_exist(m: Manifest, names: Seq<Seq<char>>) -> bool {
    forall|i: int| 0 <= i < names.len() ==> feature_exists(m, #[trigger] names[i])
}

/// The ordered feature names an environment composes: the default feature
/// first, unless excluded or already listed.
pub open spec fn env_feature_names(env: EnvironmentDef) -> Seq<Seq<char>> {
    if env.no_default_feature || strs_view(env.features@).contains("default"@) {
        strs_view(env.features@)
    } else {
        seq!["default"@] + strs_view(env.features@)
    }
}

/// The specification in force for `pkg` on `platform` after composing the
/// named features in order: the last feature with an entry wins.
pub open spec fn composed_lookup(
    m: Manifest,
    names: Seq<Seq<char>>,
    kind: SpecKind,
    pkg: Seq<char>,
    platform: Option<Seq<char>>,
) -> Option<SpecModel>
    decreases names.len(),
{
    if names.len() == 0 {
        None
    } else {
        let rest = composed_lookup(m, names.drop_last(), kind, pkg, platform);
        if feature_exists(m, names.last()) {
            match effective_lookup(store_of(feature_of(m, names.last()), kind), pkg, platform) {
                Some(s) => Some(s),
                None => rest,
            }
        } else {
            rest
        }
    }
}

/// Feature names are pairwise distinct.
pub open spec fn unique_feature_names(fs: Seq<Feature>) -> bool {
    forall|a: int, b: int|
        0 <= a < b < fs.len() ==> (#[trigger] fs[a]).name@ != (#[trigger] fs[b]).name@
}

/// Environment names are pairwise distinct.
pub open spec fn unique_environment_names(es: Seq<EnvironmentDef>) -> bool {
    forall|a: int, b: int|
        0 <= a < b < es.len() ==> (#[trigger] es[a]).name@ != (#[trigger] es[b]).name@
}

/// Whether some environment of `m` is named `name`.
pub open spec fn environment_exists(m: Manifest, name: Seq<char>) -> bool {
    exists|i: int| 0 <= i < m.environments@.len() && (#[trigger] m.environments@[i]).name@ == name
}

/// The environment of `m` named `name` (unique under `wf`).
pub open spec fn environment_of(m: Manifest, name: Seq<char>) -> EnvironmentDef {
    m.environments@[choose|i: int|
        0 <= i < m.environments@.len() && (#[trigger] m.environments@[i]).name@ == name]
}

impl Manifest {
    /// The graph's invariant: the default feature exists and comes first,
    /// names are unique, every store is internally consistent, and every
    /// composed feature name resolves.
    pub open spec fn wf(&self) -> bool {
        &&& self.features@.len() >= 1
        &&& self.features@[0].name@ == "default"@
        &&& unique_feature_names(self.features@)
        &&& unique_environment_names(self.environments@)
        &&& self.environments@.len() >= 1
        &&& environment_exists(*self, "default"@)
        &&& forall|i: int|
            0 <= i < self.features@.len() ==> (#[trigger] self.features@[i]).dependencies.wf()
                && self.features@[i].pypi_dependencies.wf()
        &&& forall|i: int|
            0 <= i < self.environments@.len() ==> all_features_exist(
                *self,
                env_feature_names(#[trigger] self.environments@[i]),
            )
    }

    /// The feature named `name`, when there is one.
    pub fn find_feature(&self, name: &String) -> (r: Option<&Feature>)
        requires
            unique_feature_names(self.features@),
        ensures
            r is Some <==> feature_exists(*self, name@),
            r matches Some(f) ==> *f == feature_of(*self, name@),
    {
        let mut i: usize = 0;
        while i < self.features.len()
            invariant
                unique_feature_names(self.features@),
                i <= self.features@.len(),
                forall|j: int| 0 <= j < i ==> (#[trigger] self.features@[j]).name@ != name@,
            decreases self.features@.len() - i,
        {
            if self.features[i].name == *name {
                proof {
                    let w = choose|w: int|
                        0 <= w < self.features@.len() && (#[trigger] self.features@[w]).name@
                            == name@;
                    assert(w == i);
                }
                return Some(&self.features[i]);
            }
            i += 1;
        }
        None
    }

    /// The environment named `name`, when there is one.
    pub fn find_environment(&self, name: &String) -> (r: Option<&EnvironmentDef>)
        requires
            unique_environment_names(self.environments@),
        ensures
            r is Some <==> environment_exists(*self, name@),
            r matches Some(e) ==> *e == environment_of(*self, name@),
    {
        let mut i: usize = 0;
        while i < self.environments.len()
            invariant
                unique_environment_names(self.environments@),
                i <= self.environments@.len(),
                forall|j: int| 0 <= j < i ==> (#[trigger] self.environments@[j]).name@ != name@,
            decreases self.environments@.len() - i,
        {
            if self.environments[i].name == *name {
                proof {
                    let w = choose|w: int|
                        0 <= w < self.environments@.len() && (
                        #[trigger] self.environments@[w]).name@ == name@;
                    assert(w == i);
                }
                return Some(&self.environments[i]);
            }
            i += 1;
        }
        None
    }
}


/// Clones a list of strings.
pub fn clone_strings(v: &Vec<String>) -> (r: Vec<String>)
    ensures
        r@ =~= v@,
{
    let mut r: Vec<String> = Vec::new();
    let mut i: usize = 0;
    while i < v.len()
        invariant
            i <= v@.len(),
            r@ =~= v@.take(i as int),
        decreases v@.len() - i,
    {
        r.push(v[i].clone());
        assert(r@ =~= v@.take(i as int + 1));
        i += 1;
    }
    assert(v@.take(v@.len() as int) =~= v@);
    r
}

/// The ordered feature names of `env`, as strings.
pub fn effective_feature_list(env: &EnvironmentDef) -> (r: Vec<String>)
    ensures
        strs_view(r@) == env_feature_names(*env),
{
    let default_name = String::from_str("default");
    let has_default = contains_string(&env.features, &default_name);
    let mut r: Vec<String> = Vec::new();
    if !env.no_default_feature && !has_default {
        r.push(default_name);
    }
    let mut i: usize = 0;
    let ghost base = r@.len() as int;
    while i < env.features.len()
        invariant
            base == if env.no_default_feature || strs_view(env.features@).contains("default"@) {
                0int
            } else {
                1int
            },
            base == 1 ==> r@.len() == i + 1 && r@[0]@ == "default"@,
            base == 0 ==> r@.len() == i as int,
            i <= env.features@.len(),
            forall|j: int| 0 <= j < i ==> #[trigger] r@[base + j]@ == env.features@[j]@,
        decreases env.features@.len() - i,
    {
        r.push(env.features[i].clone());
        i += 1;
    }
    proof {
        let lhs = strs_view(r@);
        let rhs = env_feature_names(*env);
        assert(forall|j: int| 0 <= j < r@.len() ==> #[trigger] lhs[j] == r@[j]@);
        assert(forall|j: int|
            0 <= j < env.features@.len() ==> #[trigger] strs_view(env.features@)[j]
                == env.features@[j]@);
        assert(lhs.len() == rhs.len());
        assert forall|k: int| 0 <= k < lhs.len() implies lhs[k] == rhs[k] by {
            if base == 1 {
                if k > 0 {
                    assert(r@[base + (k - 1)]@ == env.features@[k - 1]@);
                }
            } else {
                assert(r@[base + k]@ == env.features@[k]@);
            }
        }
        assert(lhs =~= rhs);
    }
    r
}

impl Manifest {
    /// The specification in force for `pkg` on `platform` in the named
    /// environment, composing its features in declared order with the last
    /// feature taking precedence. An environment or feature name that does
    /// not resolve fails with `UnknownFeature`.
    pub fn env_dependency(
        &self,
        env_name: &String,
        kind: SpecKind,
        pkg: &String,
        platform: &Option<String>,
    ) -> (r: Result<Option<&DependencySpec>, ManifestError>)
        requires
            unique_feature_names(self.features@),
            unique_environment_names(self.environments@),
            forall|i: int|
                0 <= i < self.features@.len() ==> (
                #[trigger] self.features@[i]).dependencies.wf()
                    && self.features@[i].pypi_dependencies.wf(),
        ensures
            match r {
                Ok(res) => {
                    &&& environment_exists(*self, env_name@)
                    &&& all_features_exist(
                        *self,
                        env_feature_names(environment_of(*self, env_name@)),
                    )
                    &&& match res {
                        Some(s) => composed_lookup(
                            *self,
                            env_feature_names(environment_of(*self, env_name@)),
                            kind,
                            pkg@,
                            opt_view(*platform),
                        ) == Some(s@),
                        None => composed_lookup(
                            *self,
                            env_feature_names(environment_of(*self, env_name@)),
                            kind,
                            pkg@,
                            opt_view(*platform),
                        ) is None,
                    }
                },
                Err(ManifestError::UnknownFeature { feature }) => {
                    ||| !environment_exists(*self, env_name@) && feature@ == env_name@
                    ||| (environment_exists(*self, env_name@) && env_feature_names(
                        environment_of(*self, env_name@),
                    ).contains(feature@) && !feature_exists(*self, feature@))
                },
                _ => false,
            },
    {
        let env = match self.find_environment(env_name) {
            None => {
                return Err(ManifestError::UnknownFeature { feature: env_name.clone() });
            },
            Some(e) => e,
        };
        let ghost envv = environment_of(*self, env_name@);
        let names = effective_feature_list(env);
        let ghost namesv = strs_view(names@);
        let mut i: usize = 0;
        while i < names.len()
            invariant
                unique_feature_names(self.features@),
                namesv == strs_view(names@),
                namesv == env_feature_names(envv),
                environment_exists(*self, env_name@),
                envv == environment_of(*self, env_name@),
                i <= names@.len(),
                forall|j: int| 0 <= j < i ==> feature_exists(*self, #[trigger] namesv[j]),
            decreases names@.len() - i,
        {
            if self.find_feature(&names[i]).is_none() {
                proof {
                    assert(namesv[i as int] == names@[i as int]@);
                    assert(namesv.contains(namesv[i as int]));
                }
                return Err(ManifestError::UnknownFeature { feature: names[i].clone() });
            }
            assert(namesv[i as int] == names@[i as int]@);
            i += 1;
        }
        assert(all_features_exist(*self, namesv));
        let ghost platv = opt_view(*platform);
        let mut i: usize = names.len();
        proof {
            assert(namesv.take(namesv.len() as int) =~= namesv);
        }
        while i > 0
            invariant
                unique_feature_names(self.features@),
                forall|k: int|
                    0 <= k < self.features@.len() ==> (
                    #[trigger] self.features@[k]).dependencies.wf()
                        && self.features@[k].pypi_dependencies.wf(),
                namesv == strs_view(names@),
                namesv == env_feature_names(envv),
                environment_exists(*self, env_name@),
                envv == environment_of(*self, env_name@),
                all_features_exist(*self, namesv),
                platv == opt_view(*platform),
                i <= names@.len(),
                composed_lookup(*self, namesv, kind, pkg@, platv) == composed_lookup(
                    *self,
                    namesv.take(i as int),
                    kind,
                    pkg@,
                    platv,
                ),
            decreases i,
        {
            i -= 1;
            assert(namesv[i as int] == names@[i as int]@);
            assert(namesv.contains(namesv[i as int]));
            let f = match self.find_feature(&names[i]) {
                Some(f) => f,
                None => {
                    proof {
                        assert(feature_exists(*self, namesv[i as int]));
                        assert(false);
                    }
                    return Err(ManifestError::UnknownFeature { feature: names[i].clone() });
                },
            };
            proof {
                let w = choose|w: int|
                    0 <= w < self.features@.len() && (#[trigger] self.features@[w]).name@
                        == names@[i as int]@;
                assert(f.dependencies.wf() && f.pypi_dependencies.wf());
            }
            let store = match kind {
                SpecKind::Conda => &f.dependencies,
                SpecKind::Pypi => &f.pypi_dependencies,
            };
            let ghost prefix = namesv.take(i as int + 1);
            proof {
                assert(prefix.drop_last() =~= namesv.take(i as int));
                assert(prefix.last() == namesv[i as int]);
                assert(store@ == store_of(feature_of(*self, namesv[i as int]), kind));
            }
            match store.get(pkg, platform) {
                Some(s) => {
                    proof {
                        assert(composed_lookup(*self, prefix, kind, pkg@, platv) == Some(s@));
                    }
                    return Ok(Some(s));
                },
                None => {
                    proof {
                        assert(composed_lookup(*self, prefix, kind, pkg@, platv)
                            == composed_lookup(*self, namesv.take(i as int), kind, pkg@, platv));
                    }
                },
            }
        }
        proof {
            assert(namesv.take(0) =~= Seq::<Seq<char>>::empty());
        }
        Ok(None)
    }
}


/// The names of the environments that carry solve-group `g`, in manifest
/// declaration order.
pub open spec fn solve_group_members(es: Seq<EnvironmentDef>, g: Seq<char>) -> Seq<Seq<char>>
    decreases es.len(),
{
    if es.len() == 0 {
        Seq::empty()
    } else {
        solve_group_members(es.drop_last(), g) + (if opt_view(es.last().solve_group) == Some(g) {
            seq![es.last().name@]
        } else {
            Seq::<Seq<char>>::empty()
        })
    }
}

/// The platforms a feature contributes to an intersection: its override,
/// or the workspace's platforms when it has none.
pub open spec fn feature_platform_list(m: Manifest, name: Seq<char>) -> Seq<Seq<char>> {
    match feature_of(m, name).platforms {
        Some(v) => strs_view(v@),
        None => strs_view(m.workspace.platforms@),
    }
}

/// The environment's platform set: the workspace platforms, kept in order,
/// restricted to those that every composed feature supports.
pub open spec fn env_platforms(m: Manifest, names: Seq<Seq<char>>) -> Seq<Seq<char>> {
    strs_view(m.workspace.platforms@).filter(
        |p: Seq<char>|
            forall|i: int|
                0 <= i < names.len() ==> feature_platform_list(m, #[trigger] names[i]).contains(
                    p,
                ),
    )
}

impl Manifest {
    /// The environments sharing `group`, in declaration order, for the
    /// resolver that must solve them together.
    pub fn environments_in_solve_group(&self, group: &String) -> (r: Vec<String>)
        ensures
            strs_view(r@) == solve_group_members(self.environments@, group@),
    {
        let mut r: Vec<String> = Vec::new();
        let mut i: usize = 0;
        while i < self.environments.len()
            invariant
                i <= self.environments@.len(),
                strs_view(r@) == solve_group_members(self.environments@.take(i as int), group@),
            decreases self.environments@.len() - i,
        {
            proof {
                assert(self.environments@.take(i as int + 1).drop_last() =~= self.environments@.take(
                    i as int,
                ));
                assert(self.environments@.take(i as int + 1).last()
                    == self.environments@[i as int]);
            }
            let e = &self.environments[i];
            let hit = match (&e.solve_group, group) {
                (Some(g), _) => *g == *group,
                (None, _) => false,
            };
            if hit {
                r.push(e.name.clone());
            }
            proof {
                assert(forall|j: int| 0 <= j < r@.len() ==> #[trigger] strs_view(r@)[j] == r@[j]@);
                assert(strs_view(r@) =~= solve_group_members(
                    self.environments@.take(i as int + 1),
                    group@,
                ));
            }
            i += 1;
        }
        proof {
            assert(self.environments@.take(self.environments@.len() as int)
                =~= self.environments@);
        }
        r
    }

    /// The named environment's usable platform set: the intersection of the
    /// workspace's platforms with every composed feature's platform
    /// override. Fails with `EmptyPlatformIntersection` when nothing is
    /// left, and with `UnknownFeature` when a name does not resolve.
    pub fn environment_platforms(&self, env_name: &String) -> (r: Result<
        Vec<String>,
        ManifestError,
    >)
        requires
            unique_feature_names(self.features@),
            unique_environment_names(self.environments@),
        ensures
            match r {
                Ok(v) => {
                    &&& environment_exists(*self, env_name@)
                    &&& strs_view(v@) == env_platforms(
                        *self,
                        env_feature_names(environment_of(*self, env_name@)),
                    )
                    &&& v@.len() > 0
                },
                Err(ManifestError::EmptyPlatformIntersection { environment }) => {
                    &&& environment@ == env_name@
                    &&& environment_exists(*self, env_name@)
                    &&& env_platforms(
                        *self,
                        env_feature_names(environment_of(*self, env_name@)),
                    ).len() == 0
                },
                Err(ManifestError::UnknownFeature { feature }) => {
                    ||| !environment_exists(*self, env_name@) && feature@ == env_name@
                    ||| (environment_exists(*self, env_name@) && env_feature_names(
                        environment_of(*self, env_name@),
                    ).contains(feature@) && !feature_exists(*self, feature@))
                },
                _ => false,
            },
    {
        let env = match self.find_environment(env_name) {
            None => {
                return Err(ManifestError::UnknownFeature { feature: env_name.clone() });
            },
            Some(e) => e,
        };
        let ghost envv = environment_of(*self, env_name@);
        let names = effective_feature_list(env);
        let ghost namesv = strs_view(names@);
        let mut i: usize = 0;
        while i < names.len()
            invariant
                unique_feature_names(self.features@),
                namesv == strs_view(names@),
                namesv == env_feature_names(envv),
                environment_exists(*self, env_name@),
                envv == environment_of(*self, env_name@),
                i <= names@.len(),
                forall|j: int| 0 <= j < i ==> feature_exists(*self, #[trigger] namesv[j]),
            decreases names@.len() - i,
        {
            if self.find_feature(&names[i]).is_none() {
                proof {
                    assert(namesv[i as int] == names@[i as int]@);
                    assert(namesv.contains(namesv[i as int]));
                }
                return Err(ManifestError::UnknownFeature { feature: names[i].clone() });
            }
            assert(namesv[i as int] == names@[i as int]@);
            i += 1;
        }
        assert(all_features_exist(*self, namesv));
        let ghost wsv = strs_view(self.workspace.platforms@);
        let ghost pred = |p: Seq<char>|
            forall|j: int|
                0 <= j < namesv.len() ==> feature_platform_list(*self, #[trigger] namesv[j]).contains(
                    p,
                );
        let mut out: Vec<String> = Vec::new();
        let mut i: usize = 0;
        while i < self.workspace.platforms.len()
            invariant
                unique_feature_names(self.features@),
                namesv == strs_view(names@),
                namesv == env_feature_names(envv),
                environment_exists(*self, env_name@),
                envv == environment_of(*self, env_name@),
                all_features_exist(*self, namesv),
                wsv == strs_view(self.workspace.platforms@),
                pred == (|p: Seq<char>|
                    forall|j: int|
                        0 <= j < namesv.len() ==> feature_platform_list(
                            *self,
                            #[trigger] namesv[j],
                        ).contains(p)),
                i <= wsv.len(),
                strs_view(out@) == wsv.take(i as int).filter(pred),
            decreases wsv.len() - i,
        {
            let p = &self.workspace.platforms[i];
            proof {
                assert(wsv[i as int] == self.workspace.platforms@[i as int]@);
            }
            let mut all_contain = true;
            let mut k: usize = 0;
            while k < names.len()
                invariant
                    unique_feature_names(self.features@),
                    namesv == strs_view(names@),
                    all_features_exist(*self, namesv),
                    wsv == strs_view(self.workspace.platforms@),
                    i < wsv.len(),
                    wsv[i as int] == p@,
                    k <= names@.len(),
                    all_contain ==> forall|j: int|
                        0 <= j < k ==> feature_platform_list(*self, #[trigger] namesv[j]).contains(
                            p@,
                        ),
                    !all_contain ==> exists|j: int|
                        0 <= j < namesv.len() && !feature_platform_list(
                            *self,
                            #[trigger] namesv[j],
                        ).contains(p@),
                decreases names@.len() - k,
            {
                assert(namesv[k as int] == names@[k as int]@);
                assert(namesv.contains(namesv[k as int]));
                let f = match self.find_feature(&names[k]) {
                    Some(f) => f,
                    None => {
                        proof {
                            assert(feature_exists(*self, namesv[k as int]));
                            assert(false);
                        }
                        return Err(ManifestError::UnknownFeature { feature: names[k].clone() });
                    },
                };
                let holds = match &f.platforms {
                    Some(v) => crate::deps::contains_string(v, p),
                    None => crate::deps::contains_string(&self.workspace.platforms, p),
                };
                proof {
                    assert(holds == feature_platform_list(*self, namesv[k as int]).contains(p@));
                }
                if !holds {
                    all_contain = false;
                }
                k += 1;
            }
            proof {
                reveal(Seq::filter);
                assert(wsv.take(i as int + 1).drop_last() =~= wsv.take(i as int));
                assert(wsv.take(i as int + 1).last() == wsv[i as int]);
                if all_contain {
                    assert(pred(p@));
                } else {
                    assert(!pred(p@));
                }
            }
            if all_contain {
                out.push(p.clone());
            }
            proof {
                assert(forall|j: int|
                    0 <= j < out@.len() ==> #[trigger] strs_view(out@)[j] == out@[j]@);
                assert(strs_view(out@) =~= wsv.take(i as int + 1).filter(pred));
            }
            i += 1;
        }
        proof {
            assert(wsv.take(wsv.len() as int) =~= wsv);
        }
        if out.len() == 0 {
            proof {
                assert(env_platforms(*self, namesv).len() == 0);
            }
            return Err(
                ManifestError::EmptyPlatformIntersection { environment: env_name.clone() },
            );
        }
        proof {
            assert(strs_view(out@) == env_platforms(*self, namesv));
        }
        Ok(out)
    }
}


/// The channels a feature contributes: its override, or the workspace's
/// channels when it has none.
pub open spec fn feature_channel_list(m: Manifest, name: Seq<char>) -> Seq<Seq<char>> {
    match feature_of(m, name).channels {
        Some(v) => strs_view(v@),
        None => strs_view(m.workspace.channels@),
    }
}

/// `acc` extended with every channel of `xs` it does not hold yet, keeping
/// first-seen order.
pub open spec fn merge_channels(acc: Seq<Seq<char>>, xs: Seq<Seq<char>>) -> Seq<Seq<char>>
    decreases xs.len(),
{
    if xs.len() == 0 {
        acc
    } else {
        merge_channels(
            if acc.contains(xs[0]) {
                acc
            } else {
                acc.push(xs[0])
            },
            xs.skip(1),
        )
    }
}

pub open spec fn env_channels_from(
    m: Manifest,
    names: Seq<Seq<char>>,
    acc: Seq<Seq<char>>,
) -> Seq<Seq<char>>
    decreases names.len(),
{
    if names.len() == 0 {
        acc
    } else {
        env_channels_from(m, names.skip(1), merge_channels(acc, feature_channel_list(m, names[0])))
    }
}

/// The environment's channel list: the union, in first-seen order, of the
/// composed features' channels.
pub open spec fn env_channels(m: Manifest, names: Seq<Seq<char>>) -> Seq<Seq<char>> {
    env_channels_from(m, names, Seq::empty())
}

impl Manifest {
    /// The named environment's channels, composed in feature order with
    /// first-seen order kept. Fails with `UnknownFeature` when a name does
    /// not resolve.
    pub fn environment_channels(&self, env_name: &String) -> (r: Result<
        Vec<String>,
        ManifestError,
    >)
        requires
            unique_feature_names(self.features@),
            unique_environment_names(self.environments@),
        ensures
            match r {
                Ok(v) => {
                    &&& environment_exists(*self, env_name@)
                    &&& strs_view(v@) == env_channels(
                        *self,
                        env_feature_names(environment_of(*self, env_name@)),
                    )
                },
                Err(ManifestError::UnknownFeature { feature }) => {
                    ||| !environment_exists(*self, env_name@) && feature@ == env_name@
                    ||| (environment_exists(*self, env_name@) && env_feature_names(
                        environment_of(*self, env_name@),
                    ).contains(feature@) && !feature_exists(*self, feature@))
                },
                _ => false,
            },
    {
        let env = match self.find_environment(env_name) {
            None => {
                return Err(ManifestError::UnknownFeature { feature: env_name.clone() });
            },
            Some(e) => e,
        };
        let ghost envv = environment_of(*self, env_name@);
        let names = effective_feature_list(env);
        let ghost namesv = strs_view(names@);
        let mut out: Vec<String> = Vec::new();
        let mut i: usize = 0;
        proof {
            assert(namesv.skip(0) =~= namesv);
            assert(strs_view(out@) =~= Seq::<Seq<char>>::empty());
        }
        while i < names.len()
            invariant
                unique_feature_names(self.features@),
                namesv == strs_view(names@),
                namesv == env_feature_names(envv),
                environment_exists(*self, env_name@),
                envv == environment_of(*self, env_name@),
                i <= names@.len(),
                env_channels_from(*self, namesv.skip(i as int), strs_view(out@)) == env_channels(
                    *self,
                    namesv,
                ),
            decreases names@.len() - i,
        {
            assert(namesv[i as int] == names@[i as int]@);
            let f = match self.find_feature(&names[i]) {
                Some(f) => f,
                None => {
                    proof {
                        assert(namesv.contains(namesv[i as int]));
                    }
                    return Err(ManifestError::UnknownFeature { feature: names[i].clone() });
                },
            };
            let ghost acc0 = strs_view(out@);
            let ghost suffix = namesv.skip(i as int);
            proof {
                assert(suffix[0] == namesv[i as int]);
                assert(suffix.skip(1) =~= namesv.skip(i as int + 1));
            }
            let list: &Vec<String> = match &f.channels {
                Some(v) => v,
                None => &self.workspace.channels,
            };
            let ghost xsv = strs_view(list@);
            proof {
                assert(xsv == feature_channel_list(*self, namesv[i as int]));
                assert(xsv.skip(0) =~= xsv);
            }
            let mut k: usize = 0;
            while k < list.len()
                invariant
                    xsv == strs_view(list@),
                    k <= list@.len(),
                    merge_channels(strs_view(out@), xsv.skip(k as int)) == merge_channels(
                        acc0,
                        xsv,
                    ),
                decreases list@.len() - k,
            {
                proof {
                    assert(xsv.skip(k as int)[0] == xsv[k as int]);
                    assert(xsv.skip(k as int).skip(1) =~= xsv.skip(k as int + 1));
                    assert(xsv[k as int] == list@[k as int]@);
                }
                let ghost out0 = strs_view(out@);
                if !crate::deps::contains_string(&out, &list[k]) {
                    out.push(list[k].clone());
                    proof {
                        assert(forall|j: int|
                            0 <= j < out@.len() ==> #[trigger] strs_view(out@)[j] == out@[j]@);
                        assert(strs_view(out@) =~= out0.push(xsv[k as int]));
                    }
                }
                proof {
                    assert(merge_channels(out0, xsv.skip(k as int)) == merge_channels(
                        strs_view(out@),
                        xsv.skip(k as int + 1),
                    ));
                }
                k += 1;
            }
            proof {
                assert(xsv.skip(xsv.len() as int) =~= Seq::<Seq<char>>::empty());
            }
            i += 1;
        }
        proof {
            assert(namesv.skip(namesv.len() as int) =~= Seq::<Seq<char>>::empty());
        }
        Ok(out)
    }
}


impl Manifest {
    fn feature_index(&self, name: &String) -> (r: Option<usize>)
        requires
            unique_feature_names(self.features@),
        ensures
            r is Some <==> feature_exists(*self, name@),
            r matches Some(i) ==> i < self.features@.len() && self.features@[i as int].name@
                == name@ && self.features@[i as int] == feature_of(*self, name@),
    {
        let mut i: usize = 0;
        while i < self.features.len()
            invariant
                unique_feature_names(self.features@),
                i <= self.features@.len(),
                forall|j: int| 0 <= j < i ==> (#[trigger] self.features@[j]).name@ != name@,
            decreases self.features@.len() - i,
        {
            if self.features[i].name == *name {
                proof {
                    let w = choose|w: int|
                        0 <= w < self.features@.len() && (#[trigger] self.features@[w]).name@
                            == name@;
                    assert(w == i);
                }
                return Some(i);
            }
            i += 1;
        }
        None
    }

    /// Adds a dependency to the named feature's store for `kind`, keyed by
    /// the canonical form of `raw_name` and governed by `behavior`; listed
    /// platforms must belong to the feature's platform set. Everything else
    /// in the graph is untouched, and on an error nothing changes.
    pub fn add_dependency(
        &mut self,
        raw_name: &str,
        spec: &DependencySpec,
        kind: SpecKind,
        platforms: &Vec<String>,
        feature_name: &String,
        behavior: crate::deps::DependencyOverwriteBehavior,
    ) -> (r: Result<(), ManifestError>)
        requires
            old(self).wf(),
        ensures
            final(self).wf(),
            final(self).workspace == old(self).workspace,
            final(self).environments == old(self).environments,
            final(self).foreign == old(self).foreign,
            final(self).features@.len() == old(self).features@.len(),
            forall|i: int|
                0 <= i < old(self).features@.len() ==> {
                    let before = old(self).features@[i];
                    let after = #[trigger] final(self).features@[i];
                    after.name == before.name && after.platforms == before.platforms
                        && after.channels == before.channels && after.tasks == before.tasks
                        && after.extra == before.extra && (before.name@ != feature_name@
                        ==> after == before)
                },
            ({
                let key = char_view(normalized_bytes(byte_view(raw_name@)));
                let pre = store_of(feature_of(*old(self), feature_name@), kind);
                let post = store_of(feature_of(*final(self), feature_name@), kind);
                match r {
                    Ok(()) => {
                        &&& kind_matches(spec@, kind)
                        &&& raw_name.is_ascii() && valid_name_bytes(byte_view(raw_name@))
                        &&& feature_exists(*old(self), feature_name@)
                        &&& platforms_allowed(
                            strs_view(platforms@),
                            feature_platform_list(*old(self), feature_name@),
                        )
                        &&& !add_conflicts(pre, key, strs_view(platforms@), spec@, behavior)
                        &&& post == after_add(pre, key, strs_view(platforms@), spec@)
                        &&& store_of(
                            feature_of(*final(self), feature_name@),
                            match kind {
                                SpecKind::Conda => SpecKind::Pypi,
                                SpecKind::Pypi => SpecKind::Conda,
                            },
                        ) == store_of(
                            feature_of(*old(self), feature_name@),
                            match kind {
                                SpecKind::Conda => SpecKind::Pypi,
                                SpecKind::Pypi => SpecKind::Conda,
                            },
                        )
                    },
                    Err(ManifestError::InvalidSpecification { raw }) => {
                        &&& raw@ == raw_name@
                        &&& !(kind_matches(spec@, kind) && raw_name.is_ascii()
                            && valid_name_bytes(byte_view(raw_name@)))
                        &&& *final(self) == *old(self)
                    },
                    Err(ManifestError::UnknownFeature { feature }) => {
                        &&& feature@ == feature_name@
                        &&& !feature_exists(*old(self), feature_name@)
                        &&& *final(self) == *old(self)
                    },
                    Err(ManifestError::UnsupportedPlatform { platform }) => {
                        &&& feature_exists(*old(self), feature_name@)
                        &&& strs_view(platforms@).contains(platform@)
                        &&& !feature_platform_list(*old(self), feature_name@).contains(platform@)
                        &&& post == pre
                    },
                    Err(ManifestError::DuplicateDependency { name }) => {
                        &&& name@ == key
                        &&& feature_exists(*old(self), feature_name@)
                        &&& add_conflicts(pre, key, strs_view(platforms@), spec@, behavior)
                        &&& post == pre
                    },
                    _ => false,
                }
            }),
    {
        let fits = match (kind, spec) {
            (SpecKind::Conda, DependencySpec::Conda { .. }) => true,
            (SpecKind::Pypi, DependencySpec::Conda { .. }) => false,
            (SpecKind::Conda, _) => false,
            (SpecKind::Pypi, _) => true,
        };
        if !fits {
            return Err(
                ManifestError::InvalidSpecification {
                    raw: <String as vstd::string::StringExecFns>::from_str(raw_name),
                },
            );
        }
        let key = match normalize_package_name(raw_name) {
            Some(k) => k,
            None => {
                return Err(
                    ManifestError::InvalidSpecification {
                        raw: <String as vstd::string::StringExecFns>::from_str(raw_name),
                    },
                );
            },
        };
        let idx = match self.feature_index(feature_name) {
            Some(i) => i,
            None => {
                return Err(ManifestError::UnknownFeature { feature: feature_name.clone() });
            },
        };
        let ghost fs1 = self.features@;
        let mut f = self.features.remove(idx);
        let allowed = match &f.platforms {
            Some(v) => clone_strings(v),
            None => clone_strings(&self.workspace.platforms),
        };
        proof {
            assert(strs_view(allowed@) =~= feature_platform_list(*old(self), feature_name@));
        }
        let res = match kind {
            SpecKind::Conda => f.dependencies.add(&key, spec, platforms, behavior, &allowed),
            SpecKind::Pypi => f.pypi_dependencies.add(&key, spec, platforms, behavior, &allowed),
        };
        self.features.insert(idx, f);
        proof {
            assert(self.features@ =~= fs1.update(idx as int, f));
            assert(forall|i: int|
                0 <= i < self.features@.len() ==> (#[trigger] self.features@[i]).name@
                    == fs1[i].name@);
            assert(unique_feature_names(self.features@));
            assert(forall|i: int|
                0 <= i < self.features@.len() ==> (#[trigger] self.features@[i]).dependencies.wf()
                    && self.features@[i].pypi_dependencies.wf());
            let w = choose|w: int|
                0 <= w < self.features@.len() && (#[trigger] self.features@[w]).name@
                    == feature_name@;
            assert(w == idx);
            assert(feature_of(*self, feature_name@) == self.features@[idx as int]);
            assert(self.features@[idx as int] == f);
            assert forall|i: int|
                0 <= i < self.environments@.len() implies all_features_exist(
                *self,
                env_feature_names(#[trigger] self.environments@[i]),
            ) by {
                assert(all_features_exist(*old(self), env_feature_names(self.environments@[i])));
                assert forall|j: int|
                    0 <= j < env_feature_names(self.environments@[i]).len() implies feature_exists(
                    *self,
                    #[trigger] env_feature_names(self.environments@[i])[j],
                ) by {
                    let n = env_feature_names(self.environments@[i])[j];
                    assert(feature_exists(*old(self), n));
                    let w2 = choose|w2: int|
                        0 <= w2 < old(self).features@.len() && (
                        #[trigger] old(self).features@[w2]).name@ == n;
                    assert(self.features@[w2].name@ == n);
                }
            }
        }
        match res {
            Ok(()) => Ok(()),
            Err(e) => {
                proof {
                    if idx != 0 {
                    }
                }
                Err(e)
            },
        }
    }

    /// Removes the canonical form of `raw_name` from the named feature's
    /// store for `kind`, per targeted scope; fails with `DependencyNotFound`
    /// when it was present in none of them.
    pub fn remove_dependency(
        &mut self,
        raw_name: &str,
        kind: SpecKind,
        platforms: &Vec<String>,
        feature_name: &String,
    ) -> (r: Result<(), ManifestError>)
        requires
            old(self).wf(),
        ensures
            final(self).wf(),
            final(self).workspace == old(self).workspace,
            final(self).environments == old(self).environments,
            final(self).foreign == old(self).foreign,
            final(self).features@.len() == old(self).features@.len(),
            forall|i: int|
                0 <= i < old(self).features@.len() ==> {
                    let before = old(self).features@[i];
                    let after = #[trigger] final(self).features@[i];
                    after.name == before.name && after.platforms == before.platforms
                        && after.channels == before.channels && after.tasks == before.tasks
                        && after.extra == before.extra && (before.name@ != feature_name@
                        ==> after == before)
                },
            ({
                let key = char_view(normalized_bytes(byte_view(raw_name@)));
                let pre = store_of(feature_of(*old(self), feature_name@), kind);
                let post = store_of(feature_of(*final(self), feature_name@), kind);
                match r {
                    Ok(()) => {
                        &&& feature_exists(*old(self), feature_name@)
                        &&& post == scoped_remove(pre, key, target_scopes(strs_view(platforms@)))
                        &&& exists|k: (Seq<char>, Option<Seq<char>>)|
                            #[trigger] pre.contains_key(k) && targeted_key(
                                key,
                                strs_view(platforms@),
                                k,
                            )
                    },
                    Err(ManifestError::InvalidSpecification { raw }) => {
                        &&& raw@ == raw_name@
                        &&& !(raw_name.is_ascii() && valid_name_bytes(byte_view(raw_name@)))
                        &&& *final(self) == *old(self)
                    },
                    Err(ManifestError::UnknownFeature { feature }) => {
                        &&& feature@ == feature_name@
                        &&& !feature_exists(*old(self), feature_name@)
                        &&& *final(self) == *old(self)
                    },
                    Err(ManifestError::DependencyNotFound { name }) => {
                        &&& name@ == key
                        &&& feature_exists(*old(self), feature_name@)
                        &&& post == scoped_remove(pre, key, target_scopes(strs_view(platforms@)))
                        &&& forall|k: (Seq<char>, Option<Seq<char>>)|
                            !(#[trigger] pre.contains_key(k) && targeted_key(
                                key,
                                strs_view(platforms@),
                                k,
                            ))
                    },
                    _ => false,
                }
            }),
    {
        let key = match normalize_package_name(raw_name) {
            Some(k) => k,
            None => {
                return Err(
                    ManifestError::InvalidSpecification {
                        raw: <String as vstd::string::StringExecFns>::from_str(raw_name),
                    },
                );
            },
        };
        let idx = match self.feature_index(feature_name) {
            Some(i) => i,
            None => {
                return Err(ManifestError::UnknownFeature { feature: feature_name.clone() });
            },
        };
        let ghost fs1 = self.features@;
        let mut f = self.features.remove(idx);
        let res = match kind {
            SpecKind::Conda => f.dependencies.remove(&key, platforms),
            SpecKind::Pypi => f.pypi_dependencies.remove(&key, platforms),
        };
        self.features.insert(idx, f);
        proof {
            assert(self.features@ =~= fs1.update(idx as int, f));
            assert(forall|i: int|
                0 <= i < self.features@.len() ==> (#[trigger] self.features@[i]).name@
                    == fs1[i].name@);
            assert(unique_feature_names(self.features@));
            assert(forall|i: int|
                0 <= i < self.features@.len() ==> (#[trigger] self.features@[i]).dependencies.wf()
                    && self.features@[i].pypi_dependencies.wf());
            let w = choose|w: int|
                0 <= w < self.features@.len() && (#[trigger] self.features@[w]).name@
                    == feature_name@;
            assert(w == idx);
            assert(feature_of(*self, feature_name@) == self.features@[idx as int]);
            assert(self.features@[idx as int] == f);
            assert forall|i: int|
                0 <= i < self.environments@.len() implies all_features_exist(
                *self,
                env_feature_names(#[trigger] self.environments@[i]),
            ) by {
                assert(all_features_exist(*old(self), env_feature_names(self.environments@[i])));
                assert forall|j: int|
                    0 <= j < env_feature_names(self.environments@[i]).len() implies feature_exists(
                    *self,
                    #[trigger] env_feature_names(self.environments@[i])[j],
                ) by {
                    let n = env_feature_names(self.environments@[i])[j];
                    assert(feature_exists(*old(self), n));
                    let w2 = choose|w2: int|
                        0 <= w2 < old(self).features@.len() && (
                        #[trigger] old(self).features@[w2]).name@ == n;
                    assert(self.features@[w2].name@ == n);
                }
            }
        }
        res
    }
}


/// Composition precedence: when the last composed feature defines `pkg`
/// for the queried scope, the environment resolves to that feature's
/// specification, whatever earlier features declared.
pub proof fn lemma_composition_precedence(
    m: Manifest,
    names: Seq<Seq<char>>,
    kind: SpecKind,
    pkg: Seq<char>,
    platform: Option<Seq<char>>,
)
    requires
        names.len() > 0,
        feature_exists(m, names.last()),
        effective_lookup(store_of(feature_of(m, names.last()), kind), pkg, platform) is Some,
    ensures
        composed_lookup(m, names, kind, pkg, platform) == effective_lookup(
            store_of(feature_of(m, names.last()), kind),
            pkg,
            platform,
        ),
{
}

} // verus!
