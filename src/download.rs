//! Planning and stepping the download of remote crate sources: the URLs of each
//! crate, and the fallback chain that walks them.

use vstd::prelude::*;

use crate::sources::{
    CrateGitInformation, Dependency, ExternalCrateSource, RemoteCrate, SortedCrates,
};
use crate::text::{
    contains, split_on, split_str, str_contains, trim_end_all, trim_end_matches,
};

verus! {

/// Why the sources of a remote crate could not be had.
#[derive(Debug, Clone, Copy, PartialEq, Eq, Structural)]
pub enum AcquireError {
    /// A registry crate declares no version.
    MissingVersion,
    /// A registry crate's version is inherited from a workspace.
    InheritedVersion,
    /// A repository crate declares no repository URL.
    MissingGitUrl,
    /// A repository crate is not declared as a table.
    InvalidGitDependency,
    /// The repository is hosted neither on GitHub nor on GitLab.
    UnsupportedHost,
    /// The repository URL does not have an owner and a repository segment.
    MalformedRepositoryUrl,
    /// Every URL of the chain failed.
    Exhausted,
    /// An answer was not a valid gzip stream.
    Decompress,
}

/// What gzip decoding gives for a byte stream: the decoded bytes, or nothing when
/// the stream is not valid.
pub uninterp spec fn gunzip(data: Seq<u8>) -> Option<Seq<u8>>;

/// Relies on flate2's `bufread::GzDecoder`, read to its end: the outcome depends on
/// the bytes alone.
#[verifier::external_body]
fn unpack_gzip_archive(gzip_archive: &Vec<u8>) -> (r: Option<Vec<u8>>)
    ensures
        match r {
            Some(d) => gunzip(gzip_archive@) == Some(d@),
            None => gunzip(gzip_archive@) is None,
        },
{
    let mut decoder = flate2::bufread::GzDecoder::new(gzip_archive.as_slice());
    let mut data: Vec<u8> = Vec::new();
    match std::io::Read::read_to_end(&mut decoder, &mut data) {
        Ok(_) => Some(data),
        Err(_) => None,
    }
}

/// The static mirror URL of a registry crate.
pub open spec fn mirror_url(package: Seq<char>, version: Seq<char>) -> Seq<char> {
    "https://static.crates.io/crates/"@ + package + "/"@ + package + "-"@ + version + ".crate"@
}

/// The download API URL of a registry crate.
pub open spec fn api_url(package: Seq<char>, version: Seq<char>) -> Seq<char> {
    "https://crates.io/api/v1/crates/"@ + package + "/"@ + version + "/download"@
}

/// The URLs tried for a registry crate: the mirror, then the API.
pub open spec fn registry_chain(package: Seq<char>, version: Seq<char>) -> Seq<Seq<char>> {
    seq![mirror_url(package, version), api_url(package, version)]
}

pub open spec fn github_base(owner: Seq<char>, repo: Seq<char>) -> Seq<char> {
    "https://github.com/"@ + owner + "/"@ + repo
}

pub open spec fn github_branch_url(owner: Seq<char>, repo: Seq<char>, branch: Seq<char>) -> Seq<
    char,
> {
    github_base(owner, repo) + "/archive/refs/heads/"@ + branch + ".zip"@
}

pub open spec fn github_tag_url(owner: Seq<char>, repo: Seq<char>, tag: Seq<char>) -> Seq<char> {
    github_base(owner, repo) + "/archive/refs/tags/"@ + tag + ".zip"@
}

pub open spec fn github_commit_url(owner: Seq<char>, repo: Seq<char>, commit: Seq<char>) -> Seq<
    char,
> {
    github_base(owner, repo) + "/archive/"@ + commit + ".zip"@
}

pub open spec fn gitlab_archive(owner: Seq<char>, repo: Seq<char>) -> Seq<char> {
    "https://gitlab.com/api/v4/projects/"@ + owner + "%2F"@ + repo + "/repository/archive.zip"@
}

pub open spec fn gitlab_ref_url(owner: Seq<char>, repo: Seq<char>, reference: Seq<char>) -> Seq<
    char,
> {
    gitlab_archive(owner, repo) + "?sha="@ + reference
}

/// The URLs tried for a GitHub repository: the archive of the pinned reference, or
/// the `main` branch and then the `stable` branch.
pub open spec fn github_chain(owner: Seq<char>, repo: Seq<char>, info: CrateGitInformation) -> Seq<
    Seq<char>,
> {
    match info {
        CrateGitInformation::Branch(b) => seq![github_branch_url(owner, repo, b@)],
        CrateGitInformation::Tag(t) => seq![github_tag_url(owner, repo, t@)],
        CrateGitInformation::Commit(c) => seq![github_commit_url(owner, repo, c@)],
        CrateGitInformation::Unspecified => seq![
            github_branch_url(owner, repo, "main"@),
            github_branch_url(owner, repo, "stable"@),
        ],
    }
}

/// The URL tried for a GitLab repository: the archive at the pinned reference, or
/// the archive of the default branch.
pub open spec fn gitlab_chain(owner: Seq<char>, repo: Seq<char>, info: CrateGitInformation) -> Seq<
    Seq<char>,
> {
    match info {
        CrateGitInformation::Branch(b) => seq![gitlab_ref_url(owner, repo, b@)],
        CrateGitInformation::Tag(t) => seq![gitlab_ref_url(owner, repo, t@)],
        CrateGitInformation::Commit(c) => seq![gitlab_ref_url(owner, repo, c@)],
        CrateGitInformation::Unspecified => seq![gitlab_archive(owner, repo)],
    }
}

/// The pieces of a repository URL once trailing `.git` is removed.
pub open spec fn repo_pieces(url: Seq<char>) -> Seq<Seq<char>> {
    split_on(trim_end_all(url, ".git"@), '/')
}

/// The URLs tried for a repository, chosen by host.
pub open spec fn git_chain(url: Seq<char>, info: CrateGitInformation) -> Result<
    Seq<Seq<char>>,
    AcquireError,
> {
    let pieces = repo_pieces(url);
    if !contains(url, "github.com"@) && !contains(url, "gitlab.com"@) {
        Err(AcquireError::UnsupportedHost)
    } else if pieces.len() < 2 {
        Err(AcquireError::MalformedRepositoryUrl)
    } else {
        let owner = pieces[pieces.len() - 2];
        let repo = pieces[pieces.len() - 1];
        if contains(url, "github.com"@) {
            Ok(github_chain(owner, repo, info))
        } else {
            Ok(gitlab_chain(owner, repo, info))
        }
    }
}

/// The package name under which a registry crate is published.
pub open spec fn registry_package(name: Seq<char>, dep: Dependency) -> Seq<char> {
    match dep {
        Dependency::Detailed(d) => match d.package {
            Some(p) => p@,
            None => name,
        },
        _ => name,
    }
}

/// The version requirement of a registry crate.
pub open spec fn registry_version(dep: Dependency) -> Result<Seq<char>, AcquireError> {
    match dep {
        Dependency::Simple(v) => Ok(v@),
        Dependency::Detailed(d) => match d.version {
            Some(v) => Ok(v@),
            None => Err(AcquireError::MissingVersion),
        },
        Dependency::Inherited => Err(AcquireError::InheritedVersion),
    }
}

/// The repository URL of a repository crate.
pub open spec fn git_location(dep: Dependency) -> Result<Seq<char>, AcquireError> {
    match dep {
        Dependency::Detailed(d) => match d.git {
            Some(g) => Ok(g@),
            None => Err(AcquireError::MissingGitUrl),
        },
        _ => Err(AcquireError::InvalidGitDependency),
    }
}

/// The URLs tried for a remote crate, in order.
pub open spec fn fetch_urls(c: RemoteCrate) -> Result<Seq<Seq<char>>, AcquireError> {
    match c.source {
        ExternalCrateSource::CratesIo => match registry_version(c.dependency) {
            Ok(v) => Ok(registry_chain(registry_package(c.name@, c.dependency), v)),
            Err(e) => Err(e),
        },
        ExternalCrateSource::Git(info) => match git_location(c.dependency) {
            Ok(url) => git_chain(url, info),
            Err(e) => Err(e),
        },
    }
}

/// The views of a list of strings.
pub open spec fn views(v: Seq<String>) -> Seq<Seq<char>> {
    v.map_values(|s: String| s@)
}

/// A fallback chain of URLs for one crate: the first answer that succeeds wins,
/// and the chain fails once every URL has failed.
#[derive(Debug)]
pub struct FetchChain {
    pub crate_name: String,
    pub urls: Vec<String>,
    pub attempt: usize,
}

/// An HTTP answer: status code and body.
#[derive(Debug)]
pub struct HttpReply {
    pub status_code: i32,
    pub body: Vec<u8>,
}

/// What to do after an answer: request another URL, keep the decoded sources, or
/// give up on the crate.
#[derive(Debug)]
pub enum FetchAction {
    Request(String),
    Finished(Vec<u8>),
    Failed(AcquireError),
}

/// The meaning of a [`FetchAction`].
pub enum ActionModel {
    Request(Seq<char>),
    Finished(Seq<u8>),
    Failed(AcquireError),
}

impl FetchAction {
    pub open spec fn model(&self) -> ActionModel {
        match self {
            FetchAction::Request(u) => ActionModel::Request(u@),
            FetchAction::Finished(d) => ActionModel::Finished(d@),
            FetchAction::Failed(e) => ActionModel::Failed(*e),
        }
    }
}

/// Whether an answer is a success: it came, with status 200.
pub open spec fn reply_ok(reply: Option<HttpReply>) -> bool {
    reply is Some && reply->0.status_code == 200
}

/// The action that follows an answer to the URL at `attempt` of `urls`.
pub open spec fn step_model(urls: Seq<Seq<char>>, attempt: int, reply: Option<HttpReply>) -> ActionModel {
    if reply_ok(reply) {
        match gunzip(reply->0.body@) {
            Some(d) => ActionModel::Finished(d),
            None => ActionModel::Failed(AcquireError::Decompress),
        }
    } else if attempt + 1 < urls.len() {
        ActionModel::Request(urls[attempt + 1])
    } else {
        ActionModel::Failed(AcquireError::Exhausted)
    }
}

/// Registry fallback: a successful answer from the static mirror ends the chain
/// without a request to the API; a failed mirror request is followed by exactly one
/// request, to the API URL of the same package and version, and the chain fails
/// when that one fails too.
pub proof fn lemma_registry_fallback(
    package: Seq<char>,
    version: Seq<char>,
    mirror_reply: Option<HttpReply>,
    api_reply: Option<HttpReply>,
)
    ensures
        registry_chain(package, version)[0] == mirror_url(package, version),
        reply_ok(mirror_reply) ==> !(step_model(registry_chain(package, version), 0, mirror_reply) is Request),
        !reply_ok(mirror_reply) ==> step_model(registry_chain(package, version), 0, mirror_reply)
            == ActionModel::Request(api_url(package, version)),
        !reply_ok(api_reply) ==> step_model(registry_chain(package, version), 1, api_reply)
            == ActionModel::Failed(AcquireError::Exhausted),
{
}

impl FetchChain {
    /// A chain is well formed while it points at one of its URLs.
    pub open spec fn wf(&self) -> bool {
        self.attempt < self.urls@.len()
    }

    /// The URL to request now.
    pub fn current_url(&self) -> (r: String)
        requires
            self.wf(),
        ensures
            r@ == self.urls@[self.attempt as int]@,
    {
        self.urls[self.attempt].clone()
    }

    /// Takes the answer to the current URL (`None` when the request itself failed)
    /// and says what comes next. A success is decoded as gzip and ends the chain,
    /// with the decoded bytes or, when the body is not gzip, with a hard failure; a
    /// failed answer moves on to the next URL, or ends the chain once none is left.
    pub fn on_reply(&mut self, reply: Option<HttpReply>) -> (action: FetchAction)
        requires
            old(self).wf(),
        ensures
            action.model() == step_model(views(old(self).urls@), old(self).attempt as int, reply),
            final(self).crate_name == old(self).crate_name,
            final(self).urls == old(self).urls,
            final(self).attempt == if action is Request {
                old(self).attempt + 1
            } else {
                old(self).attempt as int
            },
            final(self).wf(),
    {
        let ok = match &reply {
            Some(r) => r.status_code == 200,
            None => false,
        };
        if ok {
            let r = reply.unwrap();
            match unpack_gzip_archive(&r.body) {
                Some(data) => FetchAction::Finished(data),
                None => FetchAction::Failed(AcquireError::Decompress),
            }
        } else if self.attempt < self.urls.len() - 1 {
            self.attempt = self.attempt + 1;
            FetchAction::Request(self.urls[self.attempt].clone())
        } else {
            FetchAction::Failed(AcquireError::Exhausted)
        }
    }
}

/// `a` followed by `b`, as a new string.
fn cat(a: &str, b: &str) -> (r: String)
    ensures
        r@ == a@ + b@,
{
    a.to_owned().concat(b)
}

/// The URLs of a registry crate: the static mirror, then the download API.
pub fn registry_urls(package: &str, version: &str) -> (r: Vec<String>)
    ensures
        views(r@) == registry_chain(package@, version@),
{
    let mirror = cat("https://static.crates.io/crates/", package).concat("/").concat(package).concat(
        "-",
    ).concat(version).concat(".crate");
    let api = cat("https://crates.io/api/v1/crates/", package).concat("/").concat(version).concat(
        "/download",
    );
    let r = vec![mirror, api];
    proof {
        assert(views(r@) =~= registry_chain(package@, version@));
    }
    r
}

/// The owner and repository segments of a repository URL: the last two segments
/// once trailing `.git` is removed.
pub fn repository_segments(url: &str) -> (r: Result<(String, String), AcquireError>)
    ensures
        match r {
            Ok((owner, repo)) => {
                let pieces = repo_pieces(url@);
                pieces.len() >= 2 && owner@ == pieces[pieces.len() - 2] && repo@ == pieces[pieces.len() - 1]
            },
            Err(e) => e == AcquireError::MalformedRepositoryUrl && repo_pieces(url@).len() < 2,
        },
{
    let trimmed = trim_end_matches(url, ".git");
    let pieces = split_str(trimmed.as_str(), '/');
    proof {
        assert(views(pieces@) == repo_pieces(url@));
        assert(views(pieces@).len() == pieces@.len());
    }
    let n = pieces.len();
    if n < 2 {
        return Err(AcquireError::MalformedRepositoryUrl);
    }
    proof {
        assert(views(pieces@)[n - 2] == pieces@[n - 2]@);
        assert(views(pieces@)[n - 1] == pieces@[n - 1]@);
    }
    Ok((pieces[n - 2].clone(), pieces[n - 1].clone()))
}

fn github_prefix(owner: &str, repo: &str) -> (r: String)
    ensures
        r@ == github_base(owner@, repo@),
{
    cat("https://github.com/", owner).concat("/").concat(repo)
}

fn gitlab_prefix(owner: &str, repo: &str) -> (r: String)
    ensures
        r@ == gitlab_archive(owner@, repo@),
{
    cat("https://gitlab.com/api/v4/projects/", owner).concat("%2F").concat(repo).concat(
        "/repository/archive.zip",
    )
}

/// The URLs of a repository crate, by host and pinned reference.
pub fn git_urls(url: &str, info: &CrateGitInformation) -> (r: Result<Vec<String>, AcquireError>)
    ensures
        match r {
            Ok(v) => git_chain(url@, *info) == Ok::<Seq<Seq<char>>, AcquireError>(views(v@)),
            Err(e) => git_chain(url@, *info) == Err::<Seq<Seq<char>>, AcquireError>(e),
        },
{
    let github = str_contains(url, "github.com");
    let gitlab = str_contains(url, "gitlab.com");
    if !github && !gitlab {
        return Err(AcquireError::UnsupportedHost);
    }
    let (owner, repo) = match repository_segments(url) {
        Ok(parts) => parts,
        Err(e) => return Err(e),
    };
    let r = if github {
        let base = github_prefix(owner.as_str(), repo.as_str());
        match info {
            CrateGitInformation::Branch(b) => vec![
                base.concat("/archive/refs/heads/").concat(b.as_str()).concat(".zip"),
            ],
            CrateGitInformation::Tag(t) => vec![
                base.concat("/archive/refs/tags/").concat(t.as_str()).concat(".zip"),
            ],
            CrateGitInformation::Commit(c) => vec![
                base.concat("/archive/").concat(c.as_str()).concat(".zip"),
            ],
            CrateGitInformation::Unspecified => {
                let main = base.clone().concat("/archive/refs/heads/").concat("main").concat(
                    ".zip",
                );
                let stable = base.concat("/archive/refs/heads/").concat("stable").concat(".zip");
                vec![main, stable]
            },
        }
    } else {
        let base = gitlab_prefix(owner.as_str(), repo.as_str());
        match info {
            CrateGitInformation::Branch(b) => vec![base.concat("?sha=").concat(b.as_str())],
            CrateGitInformation::Tag(t) => vec![base.concat("?sha=").concat(t.as_str())],
            CrateGitInformation::Commit(c) => vec![base.concat("?sha=").concat(c.as_str())],
            CrateGitInformation::Unspecified => vec![base],
        }
    };
    proof {
        assert(views(r@) =~= git_chain(url@, *info)->Ok_0);
    }
    Ok(r)
}

/// The fallback chain of a remote crate, positioned at its first URL.
pub fn plan_fetch(c: &RemoteCrate) -> (r: Result<FetchChain, AcquireError>)
    ensures
        match r {
            Ok(chain) => fetch_urls(*c) == Ok::<Seq<Seq<char>>, AcquireError>(views(chain.urls@))
                && chain.crate_name == c.name && chain.attempt == 0 && chain.wf(),
            Err(e) => fetch_urls(*c) == Err::<Seq<Seq<char>>, AcquireError>(e),
        },
{
    let urls = match &c.source {
        ExternalCrateSource::CratesIo => {
            let version = match &c.dependency {
                Dependency::Simple(v) => v,
                Dependency::Detailed(d) => match &d.version {
                    Some(v) => v,
                    None => return Err(AcquireError::MissingVersion),
                },
                Dependency::Inherited => return Err(AcquireError::InheritedVersion),
            };
            let package = match &c.dependency {
                Dependency::Detailed(d) => match &d.package {
                    Some(p) => p,
                    None => &c.name,
                },
                _ => &c.name,
            };
            registry_urls(package.as_str(), version.as_str())
        },
        ExternalCrateSource::Git(info) => {
            let location = match &c.dependency {
                Dependency::Detailed(d) => match &d.git {
                    Some(g) => g,
                    None => return Err(AcquireError::MissingGitUrl),
                },
                _ => return Err(AcquireError::InvalidGitDependency),
            };
            match git_urls(location.as_str(), info) {
                Ok(u) => u,
                Err(e) => return Err(e),
            }
        },
    };
    proof {
        assert(views(urls@).len() == urls@.len());
        lemma_chains_nonempty(*c);
    }
    Ok(FetchChain { crate_name: c.name.clone(), urls, attempt: 0 })
}

proof fn lemma_chains_nonempty(c: RemoteCrate)
    ensures
        fetch_urls(c) is Ok ==> fetch_urls(c)->Ok_0.len() >= 1,
{
}

/// Whether a remote crate comes from the registry.
pub open spec fn is_registry(c: RemoteCrate) -> bool {
    c.source is CratesIo
}

/// The chains of the registry crates (`registry`) or of the repository crates
/// (`!registry`) among `cs`, in order, or the first error among them.
pub open spec fn plan_spec(cs: Seq<RemoteCrate>, registry: bool) -> Result<
    Seq<(String, Seq<Seq<char>>)>,
    AcquireError,
>
    decreases cs.len(),
{
    if cs.len() == 0 {
        Ok(Seq::empty())
    } else {
        match plan_spec(cs.drop_last(), registry) {
            Err(e) => Err(e),
            Ok(plans) => if is_registry(cs.last()) == registry {
                match fetch_urls(cs.last()) {
                    Ok(urls) => Ok(plans.push((cs.last().name, urls))),
                    Err(e) => Err(e),
                }
            } else {
                Ok(plans)
            },
        }
    }
}

/// The chains of all remote crates: registry crates first, then repository crates,
/// each group in configuration order; or the first error met in that order.
pub open spec fn plans_spec(cs: Seq<RemoteCrate>) -> Result<
    Seq<(String, Seq<Seq<char>>)>,
    AcquireError,
> {
    match plan_spec(cs, true) {
        Err(e) => Err(e),
        Ok(first) => match plan_spec(cs, false) {
            Err(e) => Err(e),
            Ok(second) => Ok(first + second),
        },
    }
}

/// The name and URLs of each chain.
pub open spec fn chains_view(v: Seq<FetchChain>) -> Seq<(String, Seq<Seq<char>>)> {
    v.map_values(|c: FetchChain| (c.crate_name, views(c.urls@)))
}

proof fn lemma_plan_error_persists(cs: Seq<RemoteCrate>, k: int, registry: bool)
    requires
        0 <= k <= cs.len(),
        plan_spec(cs.subrange(0, k), registry) is Err,
    ensures
        plan_spec(cs, registry) == plan_spec(cs.subrange(0, k), registry),
    decreases cs.len() - k,
{
    if k < cs.len() {
        assert(cs.subrange(0, k + 1).drop_last() =~= cs.subrange(0, k));
        lemma_plan_error_persists(cs, k + 1, registry);
    } else {
        assert(cs.subrange(0, k) =~= cs);
    }
}

/// Appends the chains of the crates from one group to `out`.
fn plan_group(cs: &Vec<RemoteCrate>, registry: bool, out: &mut Vec<FetchChain>) -> (r: Result<
    (),
    AcquireError,
>)
    ensures
        match (r, plan_spec(cs@, registry)) {
            (Ok(_), Ok(plans)) => chains_view(final(out)@) == chains_view(old(out)@) + plans,
            (Err(e), Err(f)) => e == f,
            _ => false,
        },
        old(out)@.len() <= final(out)@.len(),
        forall|j: int| old(out)@.len() <= j < final(out)@.len() ==> (#[trigger] final(out)@[j]).wf(),
        forall|j: int| 0 <= j < old(out)@.len() ==> final(out)@[j] == old(out)@[j],
{
    let ghost start = out@;
    let mut i: usize = 0;
    proof {
        assert(cs@.subrange(0, 0) =~= Seq::<RemoteCrate>::empty());
        assert(chains_view(out@) =~= chains_view(start) + Seq::empty());
    }
    while i < cs.len()
        invariant
            start == old(out)@,
            i <= cs@.len(),
            start.len() <= out@.len(),
            forall|j: int| 0 <= j < start.len() ==> out@[j] == start[j],
            forall|j: int| start.len() <= j < out@.len() ==> (#[trigger] out@[j]).wf(),
            plan_spec(cs@.subrange(0, i as int), registry) is Ok,
            chains_view(out@) == chains_view(start) + plan_spec(cs@.subrange(0, i as int), registry)->Ok_0,
        decreases cs.len() - i,
    {
        let c = &cs[i];
        proof {
            assert(cs@.subrange(0, i + 1).drop_last() =~= cs@.subrange(0, i as int));
            assert(cs@.subrange(0, i + 1).last() == *c);
        }
        let pick = match c.source {
            ExternalCrateSource::CratesIo => registry,
            ExternalCrateSource::Git(_) => !registry,
        };
        if pick {
            match plan_fetch(c) {
                Ok(chain) => {
                    let ghost before = out@;
                    out.push(chain);
                    proof {
                        assert(chains_view(out@) =~= chains_view(before).push(
                            (chain.crate_name, views(chain.urls@)),
                        ));
                        assert(chain.crate_name == c.name);
                    }
                },
                Err(e) => {
                    proof {
                        lemma_plan_error_persists(cs@, i + 1, registry);
                        assert(cs@.subrange(0, cs@.len() as int) =~= cs@);
                    }
                    return Err(e);
                },
            }
        }
        i = i + 1;
    }
    proof {
        assert(cs@.subrange(0, cs@.len() as int) =~= cs@);
    }
    Ok(())
}

/// The fallback chains of all remote crates: registry crates first, then
/// repository crates. Fails with the first crate whose URLs cannot be formed.
pub fn plan_downloads(sources: &SortedCrates) -> (r: Result<Vec<FetchChain>, AcquireError>)
    ensures
        match (r, plans_spec(sources.locally_unavailable_crates@)) {
            (Ok(v), Ok(plans)) => chains_view(v@) == plans && forall|j: int|
                0 <= j < v@.len() ==> (#[trigger] v@[j]).wf(),
            (Err(e), Err(f)) => e == f,
            _ => false,
        },
{
    let mut out: Vec<FetchChain> = Vec::new();
    proof {
        assert(chains_view(out@) =~= Seq::empty());
    }
    match plan_group(&sources.locally_unavailable_crates, true, &mut out) {
        Ok(_) => {},
        Err(e) => return Err(e),
    }
    match plan_group(&sources.locally_unavailable_crates, false, &mut out) {
        Ok(_) => {},
        Err(e) => return Err(e),
    }
    proof {
        let first = plan_spec(sources.locally_unavailable_crates@, true)->Ok_0;
        assert(Seq::<(String, Seq<Seq<char>>)>::empty() + first =~= first);
    }
    Ok(out)
}

} // verus!
