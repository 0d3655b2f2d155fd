//! Classification of the configured crates into local and remote sources.

use vstd::prelude::*;

verus! {

/// The detailed form of a dependency declaration, as written in a manifest table.
#[derive(Debug, Clone)]
pub struct DependencyDetail {
    pub version: Option<String>,
    pub package: Option<String>,
    pub registry: Option<String>,
    pub registry_index: Option<String>,
    pub path: Option<String>,
    pub git: Option<String>,
    pub branch: Option<String>,
    pub tag: Option<String>,
    pub rev: Option<String>,
}

/// One dependency declaration of the configuration.
#[derive(Debug, Clone)]
pub enum Dependency {
    /// A bare version requirement.
    Simple(String),
    /// A declaration taken over from a workspace, whose details are not available.
    Inherited,
    /// A table with details.
    Detailed(DependencyDetail),
}

/// The git reference that pins a repository source.
#[derive(Debug, Clone)]
pub enum CrateGitInformation {
    Branch(String),
    Commit(String),
    Tag(String),
    Unspecified,
}

/// Where a crate that is not on disk comes from.
#[derive(Debug, Clone)]
pub enum ExternalCrateSource {
    CratesIo,
    Git(CrateGitInformation),
}

/// A configured crate, with the outcome of checking its local directory: whether
/// the declared path exists, is a directory and holds a manifest file.
#[derive(Debug, Clone)]
pub struct ConfiguredCrate {
    pub name: String,
    pub dependency: Dependency,
    pub local_dir_valid: bool,
}

/// A crate whose sources have to be fetched.
#[derive(Debug, Clone)]
pub struct RemoteCrate {
    pub name: String,
    pub source: ExternalCrateSource,
    pub dependency: Dependency,
}

/// A crate whose sources are in a local directory.
#[derive(Debug, Clone)]
pub struct LocalCrate {
    pub name: String,
    pub dependency: Dependency,
}

/// The configured crates, split by where their sources are.
#[derive(Debug, Clone)]
pub struct SortedCrates {
    pub locally_unavailable_crates: Vec<RemoteCrate>,
    pub locally_available_crates: Vec<LocalCrate>,
}

/// Why the configuration of a crate was refused.
#[derive(Debug, Clone, Copy, PartialEq, Eq, Structural)]
pub enum ClassifyError {
    /// A remote source is declared, but no HTTP client is available.
    NoHttpClient,
    /// The declaration is inherited from a workspace, so nothing can be told of it.
    InheritedDependency,
    /// The declaration points to an alternate registry.
    AlternateRegistry,
    /// The declared local path is not a directory holding a manifest.
    InvalidLocalPath,
}

/// Where the classifier puts one crate.
pub enum Bucket {
    Remote(ExternalCrateSource),
    Local,
}

/// Whether a detailed declaration names a crate of the default registry: no path,
/// registry, index, repository or git reference.
pub open spec fn detail_is_crates_io(d: DependencyDetail) -> bool {
    &&& d.path is None
    &&& d.registry is None
    &&& d.registry_index is None
    &&& d.git is None
    &&& d.tag is None
    &&& d.branch is None
    &&& d.rev is None
}

/// The git reference of a declaration: commit, then tag, then branch, else none.
pub open spec fn ref_kind(d: DependencyDetail) -> CrateGitInformation {
    if d.rev is Some {
        CrateGitInformation::Commit(d.rev->0)
    } else if d.tag is Some {
        CrateGitInformation::Tag(d.tag->0)
    } else if d.branch is Some {
        CrateGitInformation::Branch(d.branch->0)
    } else {
        CrateGitInformation::Unspecified
    }
}

/// Reference resolution by priority: a commit wins over a tag and a branch, a tag
/// over a branch, and with none of them the reference is unspecified; the outcome
/// depends on the declaration alone.
pub proof fn lemma_ref_priority(d: DependencyDetail)
    ensures
        d.rev is Some ==> ref_kind(d) == CrateGitInformation::Commit(d.rev->0),
        d.rev is None && d.tag is Some ==> ref_kind(d) == CrateGitInformation::Tag(d.tag->0),
        d.rev is None && d.tag is None && d.branch is Some ==> ref_kind(d)
            == CrateGitInformation::Branch(d.branch->0),
        d.rev is None && d.tag is None && d.branch is None ==> ref_kind(d)
            == CrateGitInformation::Unspecified,
{
}

/// The bucket of one configured crate.
pub open spec fn classify(c: ConfiguredCrate, http_available: bool) -> Result<Bucket, ClassifyError> {
    match c.dependency {
        Dependency::Inherited => Err(ClassifyError::InheritedDependency),
        Dependency::Simple(_) => if http_available {
            Ok(Bucket::Remote(ExternalCrateSource::CratesIo))
        } else {
            Err(ClassifyError::NoHttpClient)
        },
        Dependency::Detailed(d) => if detail_is_crates_io(d) || d.git is Some {
            if !http_available {
                Err(ClassifyError::NoHttpClient)
            } else if d.git is Some {
                Ok(Bucket::Remote(ExternalCrateSource::Git(ref_kind(d))))
            } else {
                Ok(Bucket::Remote(ExternalCrateSource::CratesIo))
            }
        } else if d.path is Some {
            if c.local_dir_valid {
                Ok(Bucket::Local)
            } else {
                Err(ClassifyError::InvalidLocalPath)
            }
        } else {
            Err(ClassifyError::AlternateRegistry)
        },
    }
}

/// The remote and local crates of a configuration, in configuration order, or the
/// error of the first crate that is refused.
pub open spec fn sort_spec(cs: Seq<ConfiguredCrate>, http_available: bool) -> Result<
    (Seq<RemoteCrate>, Seq<LocalCrate>),
    ClassifyError,
>
    decreases cs.len(),
{
    if cs.len() == 0 {
        Ok((Seq::empty(), Seq::empty()))
    } else {
        match sort_spec(cs.drop_last(), http_available) {
            Err(e) => Err(e),
            Ok((remote, local)) => {
                let c = cs.last();
                match classify(c, http_available) {
                    Err(e) => Err(e),
                    Ok(Bucket::Remote(source)) => Ok(
                        (
                            remote.push(
                                RemoteCrate { name: c.name, source, dependency: c.dependency },
                            ),
                            local,
                        ),
                    ),
                    Ok(Bucket::Local) => Ok(
                        (remote, local.push(LocalCrate { name: c.name, dependency: c.dependency })),
                    ),
                }
            },
        }
    }
}

/// Whether the configured crates have pairwise distinct names, as the keys of the
/// table they are read from.
pub open spec fn names_distinct(cs: Seq<ConfiguredCrate>) -> bool {
    forall|i: int, j: int| 0 <= i < j < cs.len() ==> #[trigger] cs[i].name@ != #[trigger] cs[j].name@
}

proof fn lemma_sort_all_classified(cs: Seq<ConfiguredCrate>, h: bool)
    requires
        sort_spec(cs, h) is Ok,
    ensures
        forall|k: int| 0 <= k < cs.len() ==> #[trigger] classify(cs[k], h) is Ok,
    decreases cs.len(),
{
    if cs.len() > 0 {
        lemma_sort_all_classified(cs.drop_last(), h);
        assert forall|k: int| 0 <= k < cs.len() implies #[trigger] classify(cs[k], h) is Ok by {
            if k < cs.len() - 1 {
                assert(cs[k] == cs.drop_last()[k]);
            }
        }
    }
}

proof fn lemma_sort_origin(cs: Seq<ConfiguredCrate>, h: bool)
    requires
        sort_spec(cs, h) is Ok,
    ensures
        forall|j: int|
            0 <= j < sort_spec(cs, h)->Ok_0.0.len() ==> exists|i: int|
                0 <= i < cs.len() && #[trigger] cs[i].name == (#[trigger] sort_spec(cs, h)->Ok_0.0[j]).name
                    && classify(cs[i], h) == Ok::<Bucket, ClassifyError>(
                    Bucket::Remote(sort_spec(cs, h)->Ok_0.0[j].source),
                ),
    decreases cs.len(),
{
    if cs.len() > 0 {
        let p = cs.drop_last();
        lemma_sort_origin(p, h);
        let r0 = sort_spec(p, h)->Ok_0.0;
        let r = sort_spec(cs, h)->Ok_0.0;
        assert forall|j: int| 0 <= j < r.len() implies exists|i: int|
            0 <= i < cs.len() && #[trigger] cs[i].name == (#[trigger] r[j]).name && classify(cs[i], h)
                == Ok::<Bucket, ClassifyError>(Bucket::Remote(r[j].source)) by {
            if j < r0.len() {
                assert(r[j] == r0[j]);
                let i = choose|i: int|
                    0 <= i < p.len() && #[trigger] p[i].name == (#[trigger] r0[j]).name
                        && classify(p[i], h) == Ok::<Bucket, ClassifyError>(Bucket::Remote(r0[j].source));
                assert(cs[i] == p[i]);
            } else {
                assert(cs[cs.len() - 1] == cs.last());
            }
        }
    }
}

proof fn lemma_sort_present(cs: Seq<ConfiguredCrate>, h: bool, k: int, src: ExternalCrateSource)
    requires
        sort_spec(cs, h) is Ok,
        0 <= k < cs.len(),
        classify(cs[k], h) == Ok::<Bucket, ClassifyError>(Bucket::Remote(src)),
    ensures
        exists|j: int|
            0 <= j < sort_spec(cs, h)->Ok_0.0.len() && #[trigger] sort_spec(cs, h)->Ok_0.0[j]
                == (RemoteCrate { name: cs[k].name, source: src, dependency: cs[k].dependency }),
    decreases cs.len(),
{
    let p = cs.drop_last();
    let r = sort_spec(cs, h)->Ok_0.0;
    if k < cs.len() - 1 {
        assert(cs[k] == p[k]);
        lemma_sort_present(p, h, k, src);
        let r0 = sort_spec(p, h)->Ok_0.0;
        let j = choose|j: int|
            0 <= j < r0.len() && #[trigger] r0[j] == (RemoteCrate {
                name: p[k].name,
                source: src,
                dependency: p[k].dependency,
            });
        assert(r[j] == r0[j]);
    } else {
        assert(r[r.len() - 1] == (RemoteCrate {
            name: cs[k].name,
            source: src,
            dependency: cs[k].dependency,
        }));
    }
}

proof fn lemma_sort_remote_distinct(cs: Seq<ConfiguredCrate>, h: bool)
    requires
        sort_spec(cs, h) is Ok,
        names_distinct(cs),
    ensures
        forall|a: int, b: int|
            0 <= a < b < sort_spec(cs, h)->Ok_0.0.len() ==> #[trigger] sort_spec(cs, h)->Ok_0.0[a].name@
                != #[trigger] sort_spec(cs, h)->Ok_0.0[b].name@,
    decreases cs.len(),
{
    if cs.len() > 0 {
        let p = cs.drop_last();
        assert forall|i: int, j: int| 0 <= i < j < p.len() implies #[trigger] p[i].name@
            != #[trigger] p[j].name@ by {
            assert(p[i] == cs[i] && p[j] == cs[j]);
        }
        lemma_sort_remote_distinct(p, h);
        lemma_sort_origin(p, h);
        let r0 = sort_spec(p, h)->Ok_0.0;
        let r = sort_spec(cs, h)->Ok_0.0;
        assert forall|a: int, b: int| 0 <= a < b < r.len() implies #[trigger] r[a].name@
            != #[trigger] r[b].name@ by {
            assert(r[a] == r0[a]);
            if b < r0.len() {
                assert(r[b] == r0[b]);
            } else {
                let i = choose|i: int|
                    0 <= i < p.len() && #[trigger] p[i].name == (#[trigger] r0[a]).name
                        && classify(p[i], h) == Ok::<Bucket, ClassifyError>(Bucket::Remote(r0[a].source));
                assert(p[i] == cs[i]);
                assert(r[b].name == cs[cs.len() - 1].name);
            }
        }
    }
}

/// Reference resolution across a configuration: when crates have distinct names
/// and the configuration is accepted, a crate declared with a repository appears
/// exactly once among the crates to fetch, with the reference its commit, tag and
/// branch settings give by priority.
pub proof fn lemma_git_crate_resolved_once(cs: Seq<ConfiguredCrate>, http_available: bool, k: int)
    requires
        names_distinct(cs),
        0 <= k < cs.len(),
        cs[k].dependency is Detailed,
        cs[k].dependency->Detailed_0.git is Some,
        sort_spec(cs, http_available) is Ok,
    ensures
        ({
            let remote = sort_spec(cs, http_available)->Ok_0.0;
            &&& exists|j: int|
                0 <= j < remote.len() && #[trigger] remote[j] == (RemoteCrate {
                    name: cs[k].name,
                    source: ExternalCrateSource::Git(ref_kind(cs[k].dependency->Detailed_0)),
                    dependency: cs[k].dependency,
                })
            &&& forall|j1: int, j2: int|
                0 <= j1 < remote.len() && 0 <= j2 < remote.len() && #[trigger] remote[j1].name@
                    == cs[k].name@ && #[trigger] remote[j2].name@ == cs[k].name@ ==> j1 == j2
        }),
{
    lemma_sort_all_classified(cs, http_available);
    assert(classify(cs[k], http_available) is Ok);
    let src = ExternalCrateSource::Git(ref_kind(cs[k].dependency->Detailed_0));
    lemma_sort_present(cs, http_available, k, src);
    lemma_sort_remote_distinct(cs, http_available);
    let remote = sort_spec(cs, http_available)->Ok_0.0;
    assert forall|j1: int, j2: int|
        0 <= j1 < remote.len() && 0 <= j2 < remote.len() && #[trigger] remote[j1].name@ == cs[k].name@
            && #[trigger] remote[j2].name@ == cs[k].name@ implies j1 == j2 by {
        if j1 < j2 {
            assert(remote[j1].name@ != remote[j2].name@);
        } else if j2 < j1 {
            assert(remote[j2].name@ != remote[j1].name@);
        }
    }
}

/// Whether an HTTP client is available to fetch remote sources; this library is
/// always built with one.
pub fn http_client_available() -> (r: bool)
    ensures
        r,
{
    true
}

/// The git reference of a declaration, by priority commit, tag, branch.
pub fn git_reference(d: &DependencyDetail) -> (r: CrateGitInformation)
    ensures
        r == ref_kind(*d),
{
    if let Some(commit) = &d.rev {
        CrateGitInformation::Commit(commit.clone())
    } else if let Some(tag) = &d.tag {
        CrateGitInformation::Tag(tag.clone())
    } else if let Some(branch) = &d.branch {
        CrateGitInformation::Branch(branch.clone())
    } else {
        CrateGitInformation::Unspecified
    }
}

/// The bucket of one configured crate.
pub fn classify_crate(c: &ConfiguredCrate, http_available: bool) -> (r: Result<Bucket, ClassifyError>)
    ensures
        r == classify(*c, http_available),
{
    match &c.dependency {
        Dependency::Inherited => Err(ClassifyError::InheritedDependency),
        Dependency::Simple(_) => if http_available {
            Ok(Bucket::Remote(ExternalCrateSource::CratesIo))
        } else {
            Err(ClassifyError::NoHttpClient)
        },
        Dependency::Detailed(d) => {
            let crates_io = d.path.is_none() && d.registry.is_none() && d.registry_index.is_none()
                && d.git.is_none() && d.tag.is_none() && d.branch.is_none() && d.rev.is_none();
            if crates_io || d.git.is_some() {
                if !http_available {
                    Err(ClassifyError::NoHttpClient)
                } else if d.git.is_some() {
                    Ok(Bucket::Remote(ExternalCrateSource::Git(git_reference(d))))
                } else {
                    Ok(Bucket::Remote(ExternalCrateSource::CratesIo))
                }
            } else if d.path.is_some() {
                if c.local_dir_valid {
                    Ok(Bucket::Local)
                } else {
                    Err(ClassifyError::InvalidLocalPath)
                }
            } else {
                Err(ClassifyError::AlternateRegistry)
            }
        },
    }
}

/// Splits the configured crates into those to fetch and those on disk, keeping
/// their order. Fails with the error of the first crate that is refused.
pub fn sort_crates_into_buckets(crates: Vec<ConfiguredCrate>, http_available: bool) -> (r: Result<
    SortedCrates,
    ClassifyError,
>)
    ensures
        r is Ok <==> sort_spec(crates@, http_available) is Ok,
        r is Ok ==> (r->Ok_0.locally_unavailable_crates@, r->Ok_0.locally_available_crates@)
            == sort_spec(crates@, http_available)->Ok_0,
        r is Err ==> r->Err_0 == sort_spec(crates@, http_available)->Err_0,
{
    let ghost all = crates@;
    let n: usize = crates.len();
    let mut rest = crates;
    let mut remote: Vec<RemoteCrate> = Vec::new();
    let mut local: Vec<LocalCrate> = Vec::new();
    let mut i: usize = 0;
    proof {
        assert(all.subrange(0, 0) =~= Seq::<ConfiguredCrate>::empty());
    }
    while rest.len() > 0
        invariant
            all == crates@,
            all.len() == n,
            i + rest@.len() == all.len(),
            rest@ == all.subrange(i as int, all.len() as int),
            sort_spec(all.subrange(0, i as int), http_available) == Ok::<
                (Seq<RemoteCrate>, Seq<LocalCrate>),
                ClassifyError,
            >((remote@, local@)),
        decreases rest.len(),
    {
        let c = rest.remove(0);
        proof {
            assert(all.subrange(0, i + 1).drop_last() =~= all.subrange(0, i as int));
            assert(all.subrange(0, i + 1).last() == c);
        }
        match classify_crate(&c, http_available) {
            Err(e) => {
                proof {
                    let prefix = all.subrange(0, i + 1);
                    assert(sort_spec(prefix, http_available) == Err::<
                        (Seq<RemoteCrate>, Seq<LocalCrate>),
                        ClassifyError,
                    >(e));
                    lemma_sort_error_persists(all, i as int + 1, http_available);
                    assert(sort_spec(all, http_available) == Err::<
                        (Seq<RemoteCrate>, Seq<LocalCrate>),
                        ClassifyError,
                    >(e));
                }
                return Err(e);
            },
            Ok(Bucket::Remote(source)) => {
                remote.push(RemoteCrate { name: c.name, source, dependency: c.dependency });
            },
            Ok(Bucket::Local) => {
                local.push(LocalCrate { name: c.name, dependency: c.dependency });
            },
        }
        i = i + 1;
        proof {
            assert(rest@ =~= all.subrange(i as int, all.len() as int));
        }
    }
    proof {
        assert(all.subrange(0, i as int) =~= all);
    }
    Ok(SortedCrates { locally_unavailable_crates: remote, locally_available_crates: local })
}

/// Once a prefix of the configuration is refused, every longer prefix is refused
/// with the same error.
proof fn lemma_sort_error_persists(cs: Seq<ConfiguredCrate>, k: int, http_available: bool)
    requires
        0 <= k <= cs.len(),
        sort_spec(cs.subrange(0, k), http_available) is Err,
    ensures
        sort_spec(cs, http_available) == sort_spec(cs.subrange(0, k), http_available),
    decreases cs.len() - k,
{
    if k < cs.len() {
        assert(cs.subrange(0, k + 1).drop_last() =~= cs.subrange(0, k));
        lemma_sort_error_persists(cs, k + 1, http_available);
    } else {
        assert(cs.subrange(0, k) =~= cs);
    }
}

} // verus!
