//! The auxiliary tools a run needs: which are missing on the host, how the host's
//! list of installed crates reads, and the command line that installs them.

use vstd::prelude::*;

use crate::text::{
    split_on, split_str, split_whitespace, starts_with, trim, trim_ws, words,
};

verus! {

/// A crate, by name and version.
#[derive(Debug, Clone, Hash, PartialEq, Eq)]
pub struct Crate {
    pub name: String,
    pub version: String,
}

/// Whether an auxiliary tool is used, and which version of it.
#[derive(Debug, Clone)]
pub struct DependencyProperties {
    pub enabled: bool,
    pub version: String,
}

/// The auxiliary tools of a configuration, by name: each name appears once (see
/// [`DependenciesConfig::wf`]), as in the table they are read from.
#[derive(Debug, Clone)]
pub struct DependenciesConfig {
    pub properties: Vec<(String, DependencyProperties)>,
}

/// Whether the crates of a list have pairwise distinct names.
pub open spec fn crates_distinct(m: Seq<(Seq<char>, Seq<char>)>) -> bool {
    forall|i: int, j: int| 0 <= i < j < m.len() ==> #[trigger] m[i].0 != #[trigger] m[j].0
}

/// The tools of `reqs` with the tool `name` set: in place if it is there, else at
/// the end.
pub open spec fn set_tool(
    reqs: Seq<(Seq<char>, bool, Seq<char>)>,
    name: Seq<char>,
    enabled: bool,
    version: Seq<char>,
) -> Seq<(Seq<char>, bool, Seq<char>)> {
    if exists|i: int| 0 <= i < reqs.len() && #[trigger] reqs[i].0 == name {
        let i = choose|i: int| 0 <= i < reqs.len() && #[trigger] reqs[i].0 == name;
        reqs.update(i, (name, enabled, version))
    } else {
        reqs.push((name, enabled, version))
    }
}

impl DependenciesConfig {
    /// Each tool is configured once.
    pub open spec fn wf(&self) -> bool {
        forall|i: int, j: int|
            0 <= i < j < self.properties@.len() ==> #[trigger] self.properties@[i].0@
                != #[trigger] self.properties@[j].0@
    }

    /// A configuration without tools.
    pub fn new() -> (r: Self)
        ensures
            r.wf(),
            r.properties@.len() == 0,
    {
        DependenciesConfig { properties: Vec::new() }
    }

    /// Configures the tool `name`, replacing its earlier settings if it has some.
    pub fn insert(&mut self, name: String, properties: DependencyProperties)
        requires
            old(self).wf(),
        ensures
            final(self).wf(),
            props_view(final(self).properties@) == set_tool(
                props_view(old(self).properties@),
                name@,
                properties.enabled,
                properties.version@,
            ),
    {
        let ghost reqs = props_view(self.properties@);
        let mut i: usize = 0;
        while i < self.properties.len()
            invariant
                reqs == props_view(old(self).properties@),
                self.properties@ == old(self).properties@,
                self.wf(),
                i <= self.properties@.len(),
                forall|j: int| 0 <= j < i ==> #[trigger] self.properties@[j].0@ != name@,
            decreases self.properties.len() - i,
        {
            if self.properties[i].0 == name {
                let ghost before = self.properties@;
                proof {
                    assert(reqs[i as int].0 == name@);
                    let k = choose|k: int| 0 <= k < reqs.len() && #[trigger] reqs[k].0 == name@;
                    assert(k == i) by {
                        if k < i {
                            assert(self.properties@[k].0@ != name@);
                        } else if k > i {
                            assert(before[i as int].0@ != before[k].0@);
                        }
                    }
                }
                self.properties.set(i, (name, properties));
                proof {
                    assert(props_view(self.properties@) =~= reqs.update(
                        i as int,
                        (name@, properties.enabled, properties.version@),
                    ));
                    assert forall|a: int, b: int|
                        0 <= a < b < self.properties@.len() implies #[trigger] self.properties@[a].0@
                        != #[trigger] self.properties@[b].0@ by {
                        assert(self.properties@[a].0@ == before[a].0@);
                        assert(self.properties@[b].0@ == before[b].0@);
                    }
                }
                return;
            }
            i = i + 1;
        }
        let ghost before = self.properties@;
        proof {
            assert forall|k: int| 0 <= k < reqs.len() implies #[trigger] reqs[k].0 != name@ by {
                assert(before[k].0@ != name@);
            }
        }
        self.properties.push((name, properties));
        proof {
            assert(props_view(self.properties@) =~= reqs.push(
                (name@, properties.enabled, properties.version@),
            ));
            assert forall|a: int, b: int|
                0 <= a < b < self.properties@.len() implies #[trigger] self.properties@[a].0@
                != #[trigger] self.properties@[b].0@ by {
                if b < before.len() {
                    assert(before[a].0@ != before[b].0@);
                } else {
                    assert(before[a].0@ != name@);
                }
            }
        }
    }
}

/// Why the list of installed crates could not be read.
#[derive(Debug, Clone, Copy, PartialEq, Eq, Structural)]
pub enum InstalledListError {
    /// The listing command printed nothing.
    EmptyOutput,
    /// A crate line has no name.
    MissingName,
    /// A crate line has no version.
    MissingVersion,
}

/// Why the missing tools could not be determined or installed.
#[derive(Debug, Clone, Copy, PartialEq, Eq, Structural)]
pub enum DependencyError {
    /// A version requirement of the configuration is not valid.
    MalformedRequirement,
}

/// Whether `Version::parse` accepts the text.
pub uninterp spec fn version_parses(s: Seq<char>) -> bool;

/// Whether `VersionReq::parse` accepts the text.
pub uninterp spec fn req_parses(s: Seq<char>) -> bool;

/// Whether the requirement parsed from `req` matches the version parsed from `version`.
pub uninterp spec fn req_matches(req: Seq<char>, version: Seq<char>) -> bool;

/// The text of the requirement parsed from `req`, as its `Display` writes it.
pub uninterp spec fn req_text(req: Seq<char>) -> Seq<char>;

/// Relies on `semver::Version::parse`: whether the text is a valid version.
#[verifier::external_body]
fn semver_version_valid(s: &str) -> (r: bool)
    ensures
        r == version_parses(s@),
{
    semver::Version::parse(s).is_ok()
}

/// Relies on `semver::VersionReq::parse`: whether the text is a valid requirement.
#[verifier::external_body]
fn semver_req_valid(s: &str) -> (r: bool)
    ensures
        r == req_parses(s@),
{
    semver::VersionReq::parse(s).is_ok()
}

/// Relies on `semver::VersionReq::matches`, on a requirement and a version that
/// parse.
#[verifier::external_body]
fn semver_matches(req: &str, version: &str) -> (r: bool)
    requires
        req_parses(req@),
        version_parses(version@),
    ensures
        r == req_matches(req@, version@),
{
    match (semver::VersionReq::parse(req), semver::Version::parse(version)) {
        (Ok(q), Ok(v)) => q.matches(&v),
        _ => false,
    }
}

/// Relies on the `Display` of `semver::VersionReq`, on a requirement that parses.
#[verifier::external_body]
fn semver_req_text(req: &str) -> (r: String)
    requires
        req_parses(req@),
    ensures
        r@ == req_text(req@),
{
    match semver::VersionReq::parse(req) {
        Ok(q) => q.to_string(),
        Err(_) => String::new(),
    }
}

/// A version as the listing prints it, normalised: trimmed, without a leading `v`
/// and without a trailing `:`.
pub open spec fn normal_version(s: Seq<char>) -> Seq<char> {
    let t = trim_ws(s);
    let u = if t.len() > 0 && t[0] == 'v' {
        t.drop_first()
    } else {
        t
    };
    if u.len() > 0 && u.last() == ':' {
        u.drop_last()
    } else {
        u
    }
}

/// Normalises a version printed by the listing of installed crates.
pub fn format_crate_version(cargo_install_version: &str) -> (r: String)
    ensures
        r@ == normal_version(cargo_install_version@),
{
    let t = trim(cargo_install_version);
    let n = t.as_str().unicode_len();
    let mut start: usize = 0;
    if n > 0 && t.as_str().get_char(0) == 'v' {
        start = 1;
    }
    let mut end: usize = n;
    if end > start && t.as_str().get_char(end - 1) == ':' {
        end = end - 1;
    }
    proof {
        let u = if n > 0 && t@[0] == 'v' {
            t@.drop_first()
        } else {
            t@
        };
        assert(u =~= t@.subrange(start as int, n as int));
        if u.len() > 0 && u.last() == ':' {
            assert(u.drop_last() =~= t@.subrange(start as int, end as int));
        } else {
            assert(u =~= t@.subrange(start as int, end as int));
        }
    }
    t.as_str().substring_char(start, end).to_owned()
}

/// The views of a list of crates, as (name, version).
pub open spec fn crate_views(v: Seq<Crate>) -> Seq<(Seq<char>, Seq<char>)> {
    v.map_values(|c: Crate| (c.name@, c.version@))
}

/// The index of the first crate named `name`.
pub open spec fn name_index(m: Seq<(Seq<char>, Seq<char>)>, name: Seq<char>) -> Option<int>
    decreases m.len(),
{
    if m.len() == 0 {
        None
    } else {
        match name_index(m.drop_last(), name) {
            Some(i) => Some(i),
            None => if m.last().0 == name {
                Some(m.len() - 1)
            } else {
                None
            },
        }
    }
}

/// `m` with the crate `name` set to `version`: in place if it is there, else at
/// the end.
pub open spec fn upsert(m: Seq<(Seq<char>, Seq<char>)>, name: Seq<char>, version: Seq<char>) -> Seq<
    (Seq<char>, Seq<char>),
> {
    match name_index(m, name) {
        Some(i) => m.update(i, (name, version)),
        None => m.push((name, version)),
    }
}

/// Line `k` of a text split at `\n` into `pieces`, as `str::lines` yields it: a
/// `\r` that ends a `\r\n` is removed.
pub open spec fn line_at(pieces: Seq<Seq<char>>, k: int) -> Seq<char> {
    let p = pieces[k];
    if k < pieces.len() - 1 && p.len() > 0 && p.last() == '\r' {
        p.drop_last()
    } else {
        p
    }
}

/// The number of lines of a text split at `\n`: an empty piece after a final
/// `\n` is no line.
pub open spec fn line_count(pieces: Seq<Seq<char>>) -> int {
    if pieces.last().len() == 0 {
        pieces.len() - 1
    } else {
        pieces.len() as int
    }
}

/// The installed crates read from the first `k` lines.
pub open spec fn read_lines(pieces: Seq<Seq<char>>, k: int) -> Result<
    Seq<(Seq<char>, Seq<char>)>,
    InstalledListError,
>
    decreases k,
{
    if k <= 0 {
        Ok(Seq::empty())
    } else {
        match read_lines(pieces, k - 1) {
            Err(e) => Err(e),
            Ok(m) => {
                let line = line_at(pieces, k - 1);
                let ws = words(line);
                if starts_with(line, " "@) {
                    Ok(m)
                } else if ws.len() == 0 {
                    Err(InstalledListError::MissingName)
                } else if ws.len() == 1 {
                    Err(InstalledListError::MissingVersion)
                } else {
                    Ok(upsert(m, ws[0], normal_version(ws[1])))
                }
            },
        }
    }
}

/// The crates listed as installed: one per line that does not start with a space,
/// named by its first word, with the normalised second word as version; a later
/// line for a name replaces an earlier one.
pub open spec fn installed_spec(stdout: Seq<char>) -> Result<
    Seq<(Seq<char>, Seq<char>)>,
    InstalledListError,
> {
    if stdout.len() == 0 {
        Err(InstalledListError::EmptyOutput)
    } else {
        let pieces = split_on(stdout, '\n');
        read_lines(pieces, line_count(pieces))
    }
}

proof fn lemma_name_index(m: Seq<(Seq<char>, Seq<char>)>, name: Seq<char>)
    ensures
        match name_index(m, name) {
            Some(i) => 0 <= i < m.len() && m[i].0 == name,
            None => forall|j: int| 0 <= j < m.len() ==> #[trigger] m[j].0 != name,
        },
    decreases m.len(),
{
    if m.len() > 0 {
        lemma_name_index(m.drop_last(), name);
        assert forall|j: int| 0 <= j < m.len() - 1 implies #[trigger] m[j] == m.drop_last()[j] by {}
    }
}

/// The index of the first crate named `name`.
fn find_crate(v: &Vec<Crate>, name: &str) -> (r: Option<usize>)
    ensures
        match r {
            Some(i) => name_index(crate_views(v@), name@) == Some(i as int),
            None => name_index(crate_views(v@), name@) is None,
        },
{
    let target = name.to_owned();
    let ghost m = crate_views(v@);
    let mut i: usize = 0;
    proof {
        assert(m.subrange(0, 0) =~= Seq::<(Seq<char>, Seq<char>)>::empty());
    }
    while i < v.len()
        invariant
            m == crate_views(v@),
            target@ == name@,
            i <= v@.len(),
            name_index(m.subrange(0, i as int), name@) is None,
        decreases v.len() - i,
    {
        proof {
            assert(m.subrange(0, i + 1).drop_last() =~= m.subrange(0, i as int));
            assert(m[i as int] == (v@[i as int].name@, v@[i as int].version@));
        }
        if v[i].name == target {
            proof {
                lemma_name_index_prefix(m, name@, i as int + 1);
            }
            return Some(i);
        }
        i = i + 1;
    }
    proof {
        assert(m.subrange(0, v@.len() as int) =~= m);
    }
    None
}

/// The first index of a name in a prefix that holds it is its first index overall.
proof fn lemma_name_index_prefix(m: Seq<(Seq<char>, Seq<char>)>, name: Seq<char>, k: int)
    requires
        0 <= k <= m.len(),
        name_index(m.subrange(0, k), name) is Some,
    ensures
        name_index(m, name) == name_index(m.subrange(0, k), name),
    decreases m.len() - k,
{
    if k < m.len() {
        assert(m.subrange(0, k + 1).drop_last() =~= m.subrange(0, k));
        lemma_name_index_prefix(m, name, k + 1);
    } else {
        assert(m.subrange(0, k) =~= m);
    }
}

/// Records a crate, replacing the version of one of the same name.
fn upsert_crate(v: &mut Vec<Crate>, name: String, version: String)
    ensures
        crate_views(final(v)@) == upsert(crate_views(old(v)@), name@, version@),
        crates_distinct(crate_views(old(v)@)) ==> crates_distinct(crate_views(final(v)@)),
{
    let ghost before = v@;
    match find_crate(v, name.as_str()) {
        Some(i) => {
            proof {
                lemma_name_index(crate_views(before), name@);
            }
            v.set(i, Crate { name, version });
            proof {
                let m = crate_views(before);
                assert(crate_views(v@) =~= m.update(i as int, (name@, version@)));
                let m2 = crate_views(v@);
                assert forall|a: int, b: int| 0 <= a < b < m2.len() implies #[trigger] m2[a].0
                    == m[a].0 && #[trigger] m2[b].0 == m[b].0 by {}
            }
        },
        None => {
            let ghost c = Crate { name, version };
            v.push(Crate { name, version });
            proof {
                let m = crate_views(before);
                assert(crate_views(v@) =~= m.push((c.name@, c.version@)));
                lemma_name_index(m, name@);
                let m2 = crate_views(v@);
                assert forall|a: int, b: int| 0 <= a < b < m2.len() && crates_distinct(m) implies
                    #[trigger] m2[a].0 != #[trigger] m2[b].0 by {
                    if b == m.len() {
                        assert(m[a].0 != name@);
                    } else {
                        assert(m[a].0 != m[b].0);
                    }
                }
            }
        },
    }
}

proof fn lemma_read_error_persists(ps: Seq<Seq<char>>, k: int, count: int)
    requires
        0 <= k <= count,
        read_lines(ps, k) is Err,
    ensures
        read_lines(ps, count) == read_lines(ps, k),
    decreases count - k,
{
    if k < count {
        lemma_read_error_persists(ps, k + 1, count);
    }
}

/// Reads the crates installed on the host from what `cargo install --list` printed.
/// Lines that start with a space (the binaries of a crate) are skipped.
pub fn get_installed_crates_on_host(stdout: &str) -> (r: Result<Vec<Crate>, InstalledListError>)
    ensures
        match r {
            Ok(v) => installed_spec(stdout@) == Ok::<
                Seq<(Seq<char>, Seq<char>)>,
                InstalledListError,
            >(crate_views(v@)) && crates_distinct(crate_views(v@)),
            Err(e) => installed_spec(stdout@) == Err::<
                Seq<(Seq<char>, Seq<char>)>,
                InstalledListError,
            >(e),
        },
{
    if stdout.unicode_len() == 0 {
        return Err(InstalledListError::EmptyOutput);
    }
    let pieces = split_str(stdout, '\n');
    let ghost ps = split_on(stdout@, '\n');
    proof {
        crate::text::lemma_split_on_nonempty(stdout@, '\n');
        assert(pieces@.len() == ps.len());
        assert forall|k: int| 0 <= k < ps.len() implies #[trigger] ps[k] == pieces@[k]@ by {
            assert(pieces@.map_values(|p: String| p@)[k] == pieces@[k]@);
        }
    }
    let n = pieces.len();
    let count: usize = if pieces[n - 1].as_str().unicode_len() == 0 {
        n - 1
    } else {
        n
    };
    let mut installed: Vec<Crate> = Vec::new();
    let mut k: usize = 0;
    proof {
        assert(crate_views(installed@) =~= Seq::<(Seq<char>, Seq<char>)>::empty());
    }
    while k < count
        invariant
            ps == split_on(stdout@, '\n'),
            stdout@.len() > 0,
            n == pieces@.len(),
            n == ps.len(),
            n >= 1,
            count == line_count(ps),
            count <= n,
            k <= count,
            forall|j: int| 0 <= j < ps.len() ==> #[trigger] ps[j] == pieces@[j]@,
            read_lines(ps, k as int) == Ok::<Seq<(Seq<char>, Seq<char>)>, InstalledListError>(
                crate_views(installed@),
            ),
            crates_distinct(crate_views(installed@)),
        decreases count - k,
    {
        let piece = pieces[k].as_str();
        let len = piece.unicode_len();
        let line: &str = if k < n - 1 && len > 0 && piece.get_char(len - 1) == '\r' {
            piece.substring_char(0, len - 1)
        } else {
            piece
        };
        proof {
            assert(ps[k as int] == piece@);
            if k < n - 1 && len > 0 && piece@[len - 1] == '\r' {
                assert(piece@.drop_last() =~= piece@.subrange(0, len - 1));
            }
            assert(line@ == line_at(ps, k as int));
        }
        let skip = line.unicode_len() > 0 && line.get_char(0) == ' ';
        proof {
            reveal_strlit(" ");
            if line@.len() > 0 {
                assert(starts_with(line@, " "@) == (line@[0] == ' ')) by {
                    if line@[0] == ' ' {
                        assert(line@.subrange(0, 1) =~= " "@);
                    } else {
                        assert(line@.subrange(0, 1)[0] != " "@[0]);
                    }
                }
            }
        }
        if !skip {
            let parts = split_whitespace(line);
            proof {
                assert(parts@.len() == words(line@).len());
            }
            if parts.len() == 0 {
                proof {
                    lemma_read_error_persists(ps, k as int + 1, count as int);
                }
                return Err(InstalledListError::MissingName);
            }
            if parts.len() == 1 {
                proof {
                    lemma_read_error_persists(ps, k as int + 1, count as int);
                }
                return Err(InstalledListError::MissingVersion);
            }
            proof {
                assert(parts@[0]@ == words(line@)[0]);
                assert(parts@[1]@ == words(line@)[1]);
            }
            let name = parts[0].clone();
            let version = format_crate_version(parts[1].as_str());
            upsert_crate(&mut installed, name, version);
        }
        k = k + 1;
    }
    Ok(installed)
}

/// The view of the configured tools, as (name, enabled, version).
pub open spec fn props_view(v: Seq<(String, DependencyProperties)>) -> Seq<(Seq<char>, bool, Seq<char>)> {
    v.map_values(|e: (String, DependencyProperties)| (e.0@, e.1.enabled, e.1.version@))
}

/// The enabled tools that are not installed, or whose installed version does not
/// meet the configured requirement, in configuration order. An installed version
/// that does not parse is passed over; a requirement that does not parse is an error.
pub open spec fn missing_spec(
    reqs: Seq<(Seq<char>, bool, Seq<char>)>,
    installed: Seq<(Seq<char>, Seq<char>)>,
) -> Result<Seq<(Seq<char>, Seq<char>)>, DependencyError>
    decreases reqs.len(),
{
    if reqs.len() == 0 {
        Ok(Seq::empty())
    } else {
        match missing_spec(reqs.drop_last(), installed) {
            Err(e) => Err(e),
            Ok(m) => {
                let (name, enabled, version) = reqs.last();
                let wanted = normal_version(version);
                if !enabled {
                    Ok(m)
                } else {
                    match name_index(installed, name) {
                        None => Ok(m.push((name, wanted))),
                        Some(i) => if !version_parses(installed[i].1) {
                            Ok(m)
                        } else if !req_parses(wanted) {
                            Err(DependencyError::MalformedRequirement)
                        } else if req_matches(wanted, installed[i].1) {
                            Ok(m)
                        } else {
                            Ok(m.push((name, wanted)))
                        },
                    }
                }
            },
        }
    }
}

proof fn lemma_missing_error_persists(
    reqs: Seq<(Seq<char>, bool, Seq<char>)>,
    installed: Seq<(Seq<char>, Seq<char>)>,
    k: int,
)
    requires
        0 <= k <= reqs.len(),
        missing_spec(reqs.subrange(0, k), installed) is Err,
    ensures
        missing_spec(reqs, installed) == missing_spec(reqs.subrange(0, k), installed),
    decreases reqs.len() - k,
{
    if k < reqs.len() {
        assert(reqs.subrange(0, k + 1).drop_last() =~= reqs.subrange(0, k));
        lemma_missing_error_persists(reqs, installed, k + 1);
    } else {
        assert(reqs.subrange(0, k) =~= reqs);
    }
}

/// The configured tools that have to be installed, given the crates installed on the
/// host: each enabled tool that is not installed, or whose installed version does not
/// meet its requirement, with its normalised requirement.
pub fn list_missing_dependencies(
    dependency_requirements: &DependenciesConfig,
    installed: &Vec<Crate>,
) -> (r: Result<Vec<Crate>, DependencyError>)
    requires
        dependency_requirements.wf(),
    ensures
        match r {
            Ok(v) => missing_spec(
                props_view(dependency_requirements.properties@),
                crate_views(installed@),
            ) == Ok::<Seq<(Seq<char>, Seq<char>)>, DependencyError>(crate_views(v@))
                && crates_distinct(crate_views(v@)),
            Err(e) => missing_spec(
                props_view(dependency_requirements.properties@),
                crate_views(installed@),
            ) == Err::<Seq<(Seq<char>, Seq<char>)>, DependencyError>(e),
        },
{
    let props = &dependency_requirements.properties;
    let ghost reqs = props_view(props@);
    let ghost inst = crate_views(installed@);
    let mut missing: Vec<Crate> = Vec::new();
    let mut i: usize = 0;
    // the index in the configuration of each missing tool
    let ghost mut origin: Seq<int> = Seq::empty();
    proof {
        assert(reqs.subrange(0, 0) =~= Seq::<(Seq<char>, bool, Seq<char>)>::empty());
        assert(crate_views(missing@) =~= Seq::<(Seq<char>, Seq<char>)>::empty());
    }
    while i < props.len()
        invariant
            props@ == dependency_requirements.properties@,
            dependency_requirements.wf(),
            reqs == props_view(props@),
            inst == crate_views(installed@),
            i <= props@.len(),
            origin.len() == missing@.len(),
            forall|k: int|
                0 <= k < origin.len() ==> 0 <= #[trigger] origin[k] < i && props@[origin[k]].0@
                    == missing@[k].name@,
            crates_distinct(crate_views(missing@)),
            missing_spec(reqs.subrange(0, i as int), inst) == Ok::<
                Seq<(Seq<char>, Seq<char>)>,
                DependencyError,
            >(crate_views(missing@)),
        decreases props.len() - i,
    {
        let (name, properties) = (&props[i].0, &props[i].1);
        proof {
            assert(reqs.subrange(0, i + 1).drop_last() =~= reqs.subrange(0, i as int));
            assert(reqs.subrange(0, i + 1).last() == (name@, properties.enabled, properties.version@));
        }
        if properties.enabled {
            let wanted = format_crate_version(properties.version.as_str());
            let ghost before = missing@;
            let mut add = false;
            match find_crate(installed, name.as_str()) {
                None => {
                    add = true;
                },
                Some(j) => {
                    proof {
                        lemma_name_index(inst, name@);
                        assert(inst[j as int].1 == installed@[j as int].version@);
                    }
                    let have = installed[j].version.as_str();
                    if semver_version_valid(have) {
                        if !semver_req_valid(wanted.as_str()) {
                            proof {
                                lemma_missing_error_persists(reqs, inst, i as int + 1);
                                assert(reqs.subrange(0, reqs.len() as int) =~= reqs);
                            }
                            return Err(DependencyError::MalformedRequirement);
                        }
                        if !semver_matches(wanted.as_str(), have) {
                            add = true;
                        }
                    }
                },
            }
            if add {
                missing.push(Crate { name: name.clone(), version: wanted });
                proof {
                    assert(crate_views(missing@) =~= crate_views(before).push((name@, wanted@)));
                    let m = crate_views(missing@);
                    assert forall|a: int, b: int| 0 <= a < b < m.len() implies #[trigger] m[a].0
                        != #[trigger] m[b].0 by {
                        assert(m[a].0 == before[a].name@);
                        if b < before.len() {
                            assert(m[b].0 == before[b].name@);
                            assert(crate_views(before)[a].0 != crate_views(before)[b].0);
                        } else {
                            assert(props@[origin[a]].0@ == before[a].name@);
                            assert(origin[a] < i);
                            assert(props@[origin[a]].0@ != props@[i as int].0@);
                        }
                    }
                    origin = origin.push(i as int);
                }
            }
        }
        i = i + 1;
    }
    proof {
        assert(reqs.subrange(0, props@.len() as int) =~= reqs);
    }
    Ok(missing)
}

/// The names of `ns` joined by `, `.
pub open spec fn joined(ns: Seq<Seq<char>>) -> Seq<char>
    decreases ns.len(),
{
    if ns.len() == 0 {
        Seq::empty()
    } else if ns.len() == 1 {
        ns[0]
    } else {
        joined(ns.drop_last()) + ", "@ + ns.last()
    }
}

/// The names of the missing tools, separated by `, `.
pub fn fmt_missing_dependencies(deps: &Vec<Crate>) -> (r: String)
    ensures
        r@ == joined(deps@.map_values(|c: Crate| c.name@)),
{
    let ghost names = deps@.map_values(|c: Crate| c.name@);
    let mut out = String::new();
    let mut i: usize = 0;
    proof {
        assert(names.subrange(0, 0) =~= Seq::<Seq<char>>::empty());
    }
    while i < deps.len()
        invariant
            names == deps@.map_values(|c: Crate| c.name@),
            i <= deps@.len(),
            out@ == joined(names.subrange(0, i as int)),
        decreases deps.len() - i,
    {
        proof {
            assert(names.subrange(0, i + 1).drop_last() =~= names.subrange(0, i as int));
            assert(names.subrange(0, i + 1).last() == deps@[i as int].name@);
        }
        if i == 0 {
            out = deps[i].name.clone();
            proof {
                assert(names.subrange(0, 1) =~= seq![deps@[0].name@]);
            }
        } else {
            out = out.concat(", ").concat(deps[i].name.as_str());
        }
        i = i + 1;
    }
    proof {
        assert(names.subrange(0, deps@.len() as int) =~= names);
    }
    out
}

/// Whether the tool `name` is configured and enabled (its first entry decides).
pub open spec fn tool_enabled(reqs: Seq<(Seq<char>, bool, Seq<char>)>, name: Seq<char>) -> bool
    decreases reqs.len(),
{
    reqs.len() > 0 && if reqs[0].0 == name {
        reqs[0].1
    } else {
        tool_enabled(reqs.drop_first(), name)
    }
}

/// Whether builds go through `cargo-auditable`: it is configured and enabled.
pub fn check_auditable(config: &DependenciesConfig) -> (r: bool)
    ensures
        r == tool_enabled(props_view(config.properties@), "cargo-auditable"@),
{
    let props = &config.properties;
    let ghost reqs = props_view(props@);
    let target = "cargo-auditable".to_owned();
    let mut i: usize = 0;
    proof {
        assert(reqs.subrange(0, reqs.len() as int) =~= reqs);
    }
    while i < props.len()
        invariant
            props@ == config.properties@,
            reqs == props_view(props@),
            target@ == "cargo-auditable"@,
            i <= props@.len(),
            tool_enabled(reqs, "cargo-auditable"@) == tool_enabled(
                reqs.subrange(i as int, reqs.len() as int),
                "cargo-auditable"@,
            ),
        decreases props.len() - i,
    {
        let ghost rest = reqs.subrange(i as int, reqs.len() as int);
        proof {
            assert(rest[0] == (props@[i as int].0@, props@[i as int].1.enabled, props@[i as int].1.version@));
            assert(rest.drop_first() =~= reqs.subrange(i + 1, reqs.len() as int));
        }
        if props[i].0 == target {
            return props[i].1.enabled;
        }
        i = i + 1;
    }
    false
}

/// The arguments of `cargo` that install the given crates, each pinned to its
/// parsed requirement as `name@requirement`.
pub open spec fn install_args_spec(deps: Seq<(Seq<char>, Seq<char>)>, locked: bool, force: bool) -> Result<
    Seq<Seq<char>>,
    DependencyError,
>
    decreases deps.len(),
{
    if deps.len() == 0 {
        let a = seq!["install"@];
        let b = if locked { a.push("--locked"@) } else { a };
        Ok(if force { b.push("--force"@) } else { b })
    } else {
        match install_args_spec(deps.drop_last(), locked, force) {
            Err(e) => Err(e),
            Ok(args) => {
                let (name, version) = deps.last();
                if req_parses(version) {
                    Ok(args.push(name + "@"@ + req_text(version)))
                } else {
                    Err(DependencyError::MalformedRequirement)
                }
            },
        }
    }
}

/// The arguments of `cargo` that install the missing tools: `install`, then
/// `--locked` and `--force` when asked for, then `name@requirement` for each tool.
/// Fails on the first requirement that does not parse.
pub fn install_arguments(deps: &Vec<Crate>, locked: bool, force: bool) -> (r: Result<
    Vec<String>,
    DependencyError,
>)
    ensures
        match r {
            Ok(v) => install_args_spec(crate_views(deps@), locked, force) == Ok::<
                Seq<Seq<char>>,
                DependencyError,
            >(v@.map_values(|s: String| s@)),
            Err(e) => install_args_spec(crate_views(deps@), locked, force) == Err::<
                Seq<Seq<char>>,
                DependencyError,
            >(e),
        },
{
    let ghost ds = crate_views(deps@);
    let mut args: Vec<String> = vec!["install".to_owned()];
    if locked {
        args.push("--locked".to_owned());
    }
    if force {
        args.push("--force".to_owned());
    }
    proof {
        assert(ds.subrange(0, 0) =~= Seq::<(Seq<char>, Seq<char>)>::empty());
        let a = seq!["install"@];
        let b = if locked { a.push("--locked"@) } else { a };
        assert(args@.map_values(|s: String| s@) =~= if force { b.push("--force"@) } else { b });
    }
    let mut i: usize = 0;
    while i < deps.len()
        invariant
            ds == crate_views(deps@),
            i <= deps@.len(),
            install_args_spec(ds.subrange(0, i as int), locked, force) == Ok::<
                Seq<Seq<char>>,
                DependencyError,
            >(args@.map_values(|s: String| s@)),
        decreases deps.len() - i,
    {
        proof {
            assert(ds.subrange(0, i + 1).drop_last() =~= ds.subrange(0, i as int));
            assert(ds.subrange(0, i + 1).last() == (deps@[i as int].name@, deps@[i as int].version@));
        }
        let version = deps[i].version.as_str();
        if !semver_req_valid(version) {
            proof {
                lemma_install_error_persists(ds, locked, force, i as int + 1);
                assert(ds.subrange(0, ds.len() as int) =~= ds);
            }
            return Err(DependencyError::MalformedRequirement);
        }
        let arg = deps[i].name.clone().concat("@").concat(semver_req_text(version).as_str());
        let ghost before = args@;
        args.push(arg);
        proof {
            assert(args@.map_values(|s: String| s@) =~= before.map_values(|s: String| s@).push(arg@));
        }
        i = i + 1;
    }
    proof {
        assert(ds.subrange(0, deps@.len() as int) =~= ds);
    }
    Ok(args)
}

proof fn lemma_install_error_persists(
    ds: Seq<(Seq<char>, Seq<char>)>,
    locked: bool,
    force: bool,
    k: int,
)
    requires
        0 <= k <= ds.len(),
        install_args_spec(ds.subrange(0, k), locked, force) is Err,
    ensures
        install_args_spec(ds, locked, force) == install_args_spec(ds.subrange(0, k), locked, force),
    decreases ds.len() - k,
{
    if k < ds.len() {
        assert(ds.subrange(0, k + 1).drop_last() =~= ds.subrange(0, k));
        lemma_install_error_persists(ds, locked, force, k + 1);
    } else {
        assert(ds.subrange(0, k) =~= ds);
    }
}

} // verus!
