//! A structured manifest document, and the injection of signing and packaging
//! metadata under `package.metadata.binstall`, leaving everything else as it was.

use vstd::prelude::*;

verus! {

broadcast use vstd::std_specs::vec::axiom_vec_index_decreases;

/// A value of a manifest document. Floating-point numbers are kept as the text
/// that denotes them, and so are date-times.
pub enum TomlValue {
    String(String),
    Integer(i64),
    Float(String),
    Boolean(bool),
    Datetime(String),
    Array(Vec<TomlValue>),
    Table(Vec<(String, TomlValue)>),
}

/// The mathematical meaning of a [`TomlValue`].
pub enum TomlModel {
    Str(Seq<char>),
    Int(i64),
    Float(Seq<char>),
    Bool(bool),
    Datetime(Seq<char>),
    Array(Seq<TomlModel>),
    Table(Seq<(Seq<char>, TomlModel)>),
}

/// Why metadata could not be injected into a manifest.
#[derive(Debug, Clone, Copy, PartialEq, Eq, Structural)]
pub enum ManifestError {
    /// The document is not a table.
    NotATable,
    /// The document has no `package` entry.
    MissingPackage,
    /// `package` is not a table.
    InvalidPackage,
    /// `package.metadata` is not a table.
    InvalidMetadata,
}

pub open spec fn value_view(v: TomlValue) -> TomlModel
    decreases v, 0int,
{
    match v {
        TomlValue::String(s) => TomlModel::Str(s@),
        TomlValue::Integer(i) => TomlModel::Int(i),
        TomlValue::Float(s) => TomlModel::Float(s@),
        TomlValue::Boolean(b) => TomlModel::Bool(b),
        TomlValue::Datetime(s) => TomlModel::Datetime(s@),
        TomlValue::Array(items) => TomlModel::Array(items_view(items, items@.len() as int)),
        TomlValue::Table(es) => TomlModel::Table(entries_view(es, es@.len() as int)),
    }
}

/// The meanings of the first `n` items of an array.
pub open spec fn items_view(items: Vec<TomlValue>, n: int) -> Seq<TomlModel>
    decreases items, n,
{
    if n <= 0 || n > items@.len() {
        Seq::empty()
    } else {
        items_view(items, n - 1).push(value_view(items[n - 1]))
    }
}

/// The meanings of the first `n` entries of a table.
pub open spec fn entries_view(es: Vec<(String, TomlValue)>, n: int) -> Seq<(Seq<char>, TomlModel)>
    decreases es, n,
{
    if n <= 0 || n > es@.len() {
        Seq::empty()
    } else {
        entries_view(es, n - 1).push((es[n - 1].0@, value_view(es[n - 1].1)))
    }
}

pub open spec fn entry_view(e: (String, TomlValue)) -> (Seq<char>, TomlModel) {
    (e.0@, value_view(e.1))
}

/// The meaning of a table's entries, in order.
pub open spec fn table_view(es: Seq<(String, TomlValue)>) -> Seq<(Seq<char>, TomlModel)> {
    es.map_values(|e: (String, TomlValue)| entry_view(e))
}

impl TomlValue {
    pub open spec fn view(&self) -> TomlModel {
        value_view(*self)
    }
}

proof fn lemma_entries_view(es: Vec<(String, TomlValue)>, n: int)
    requires
        0 <= n <= es@.len(),
    ensures
        entries_view(es, n) == table_view(es@.subrange(0, n)),
    decreases n,
{
    if n > 0 {
        lemma_entries_view(es, n - 1);
        assert(table_view(es@.subrange(0, n)) =~= table_view(es@.subrange(0, n - 1)).push(
            entry_view(es@[n - 1]),
        ));
    } else {
        assert(table_view(es@.subrange(0, n)) =~= Seq::empty());
    }
}

/// A table's meaning is the meaning of its entries.
proof fn lemma_table_value(es: Vec<(String, TomlValue)>)
    ensures
        value_view(TomlValue::Table(es)) == TomlModel::Table(table_view(es@)),
{
    lemma_entries_view(es, es@.len() as int);
    assert(es@.subrange(0, es@.len() as int) =~= es@);
}

/// The index of the first entry with key `k`.
pub open spec fn key_index(t: Seq<(Seq<char>, TomlModel)>, k: Seq<char>) -> Option<int>
    decreases t.len(),
{
    if t.len() == 0 {
        None
    } else if t[0].0 == k {
        Some(0)
    } else {
        match key_index(t.drop_first(), k) {
            Some(i) => Some(i + 1),
            None => None,
        }
    }
}

/// `t` with the entry of key `k` set to `v`: in place if the key is there, else
/// at the end.
pub open spec fn set_key(t: Seq<(Seq<char>, TomlModel)>, k: Seq<char>, v: TomlModel) -> Seq<
    (Seq<char>, TomlModel),
> {
    match key_index(t, k) {
        Some(i) => t.update(i, (k, v)),
        None => t.push((k, v)),
    }
}

/// `t` without any entry of key `k`.
pub open spec fn without_key(t: Seq<(Seq<char>, TomlModel)>, k: Seq<char>) -> Seq<
    (Seq<char>, TomlModel),
>
    decreases t.len(),
{
    if t.len() == 0 {
        t
    } else if t.last().0 == k {
        without_key(t.drop_last(), k)
    } else {
        without_key(t.drop_last(), k).push(t.last())
    }
}

/// The `binstall` table that is injected for a verifying key.
pub open spec fn binstall_model(key: Seq<char>) -> TomlModel {
    TomlModel::Table(
        seq![
            ("pkg_fmt"@, TomlModel::Str("tar"@)),
            (
                "signing"@,
                TomlModel::Table(
                    seq![
                        ("algorithm"@, TomlModel::Str("minisign"@)),
                        ("pubkey"@, TomlModel::Str(key)),
                    ],
                ),
            ),
        ],
    )
}

/// The metadata table after injection: any `binstall` entry is dropped and a
/// fresh one is added.
pub open spec fn inject_metadata(m: Seq<(Seq<char>, TomlModel)>, key: Seq<char>) -> Seq<
    (Seq<char>, TomlModel),
> {
    without_key(m, "binstall"@).push(("binstall"@, binstall_model(key)))
}

/// The metadata table of a package table, empty when absent.
pub open spec fn metadata_of(pkg: Seq<(Seq<char>, TomlModel)>) -> Result<
    Seq<(Seq<char>, TomlModel)>,
    ManifestError,
> {
    match key_index(pkg, "metadata"@) {
        None => Ok(Seq::empty()),
        Some(j) => match pkg[j].1 {
            TomlModel::Table(m) => Ok(m),
            _ => Err(ManifestError::InvalidMetadata),
        },
    }
}

/// The document after injecting the metadata for `key`.
pub open spec fn inject(doc: TomlModel, key: Seq<char>) -> Result<TomlModel, ManifestError> {
    match doc {
        TomlModel::Table(root) => match key_index(root, "package"@) {
            None => Err(ManifestError::MissingPackage),
            Some(i) => match root[i].1 {
                TomlModel::Table(pkg) => match metadata_of(pkg) {
                    Err(e) => Err(e),
                    Ok(m) => Ok(
                        TomlModel::Table(
                            set_key(
                                root,
                                "package"@,
                                TomlModel::Table(
                                    set_key(
                                        pkg,
                                        "metadata"@,
                                        TomlModel::Table(inject_metadata(m, key)),
                                    ),
                                ),
                            ),
                        ),
                    ),
                },
                _ => Err(ManifestError::InvalidPackage),
            },
        },
        _ => Err(ManifestError::NotATable),
    }
}

proof fn lemma_key_index(t: Seq<(Seq<char>, TomlModel)>, k: Seq<char>)
    ensures
        match key_index(t, k) {
            Some(i) => 0 <= i < t.len() && t[i].0 == k && forall|j: int|
                0 <= j < i ==> #[trigger] t[j].0 != k,
            None => forall|j: int| 0 <= j < t.len() ==> #[trigger] t[j].0 != k,
        },
    decreases t.len(),
{
    if t.len() > 0 {
        lemma_key_index(t.drop_first(), k);
        if t[0].0 != k {
            assert forall|j: int| 0 < j < t.len() implies #[trigger] t[j].0 == t.drop_first()[j - 1].0 by {}
        }
    }
}

/// The first index of a key is determined by where the key occurs.
proof fn lemma_key_index_unique(t: Seq<(Seq<char>, TomlModel)>, k: Seq<char>, i: int)
    requires
        0 <= i < t.len(),
        t[i].0 == k,
        forall|j: int| 0 <= j < i ==> #[trigger] t[j].0 != k,
    ensures
        key_index(t, k) == Some(i),
{
    lemma_key_index(t, k);
    match key_index(t, k) {
        Some(x) => {
            if x < i {
                assert(t[x].0 != k);
            } else if x > i {
                assert(t[i].0 != k);
            }
        },
        None => {
            assert(t[i].0 != k);
        },
    }
}

proof fn lemma_key_absent(t: Seq<(Seq<char>, TomlModel)>, k: Seq<char>)
    requires
        forall|j: int| 0 <= j < t.len() ==> #[trigger] t[j].0 != k,
    ensures
        key_index(t, k) is None,
{
    lemma_key_index(t, k);
    if let Some(x) = key_index(t, k) {
        assert(t[x].0 != k);
    }
}

proof fn lemma_set_key(t: Seq<(Seq<char>, TomlModel)>, k: Seq<char>, v: TomlModel)
    ensures
        key_index(set_key(t, k, v), k) is Some,
        set_key(t, k, v)[key_index(set_key(t, k, v), k)->0] == (k, v),
        set_key(set_key(t, k, v), k, v) == set_key(t, k, v),
{
    lemma_key_index(t, k);
    let s = set_key(t, k, v);
    match key_index(t, k) {
        Some(i) => {
            assert forall|j: int| 0 <= j < i implies #[trigger] s[j].0 != k by {
                assert(t[j].0 != k);
            }
            lemma_key_index_unique(s, k, i);
            assert(s.update(i, (k, v)) =~= s);
        },
        None => {
            let n = t.len() as int;
            assert forall|j: int| 0 <= j < n implies #[trigger] s[j].0 != k by {
                assert(t[j].0 != k);
            }
            lemma_key_index_unique(s, k, n);
            assert(s.update(n, (k, v)) =~= s);
        },
    }
}

proof fn lemma_without_key(t: Seq<(Seq<char>, TomlModel)>, k: Seq<char>)
    ensures
        forall|j: int| 0 <= j < without_key(t, k).len() ==> #[trigger] without_key(t, k)[j].0 != k,
        without_key(without_key(t, k), k) == without_key(t, k),
    decreases t.len(),
{
    if t.len() > 0 {
        lemma_without_key(t.drop_last(), k);
        let w = without_key(t.drop_last(), k);
        if t.last().0 != k {
            let w2 = w.push(t.last());
            assert(w2.drop_last() =~= w);
            assert(w2.last() == t.last());
        }
    }
}

proof fn lemma_inject_metadata(m: Seq<(Seq<char>, TomlModel)>, key: Seq<char>)
    ensures
        inject_metadata(inject_metadata(m, key), key) == inject_metadata(m, key),
        key_index(inject_metadata(m, key), "binstall"@) == Some(without_key(m, "binstall"@).len() as int),
{
    let b = "binstall"@;
    let w = without_key(m, b);
    let m1 = inject_metadata(m, key);
    lemma_without_key(m, b);
    assert(m1.drop_last() =~= w);
    assert(without_key(m1, b) == without_key(w, b));
    lemma_key_index_unique(m1, b, w.len() as int);
}

/// Injecting the metadata twice with one key gives what injecting it once gives,
/// and the document then holds exactly the fresh `binstall` table for that key,
/// whatever `binstall` table it held before.
pub proof fn lemma_inject_idempotent(doc: TomlModel, key: Seq<char>)
    requires
        inject(doc, key) is Ok,
    ensures
        inject(inject(doc, key)->Ok_0, key) == inject(doc, key),
        binstall_of(inject(doc, key)->Ok_0) == Some(binstall_model(key)),
{
    let root = doc->Table_0;
    let i = key_index(root, "package"@)->0;
    let pkg = root[i].1->Table_0;
    let m = metadata_of(pkg)->Ok_0;
    let m1 = inject_metadata(m, key);
    let pkg1 = set_key(pkg, "metadata"@, TomlModel::Table(m1));
    let root1 = set_key(root, "package"@, TomlModel::Table(pkg1));
    lemma_set_key(root, "package"@, TomlModel::Table(pkg1));
    lemma_set_key(pkg, "metadata"@, TomlModel::Table(m1));
    lemma_inject_metadata(m, key);
    assert(metadata_of(pkg1) == Ok::<Seq<(Seq<char>, TomlModel)>, ManifestError>(m1));
    let b = "binstall"@;
    assert(m1[key_index(m1, b)->0] == (b, binstall_model(key)));
}

/// The `binstall` table of a document, if it has one.
pub open spec fn binstall_of(doc: TomlModel) -> Option<TomlModel> {
    match doc {
        TomlModel::Table(root) => match key_index(root, "package"@) {
            Some(i) => match root[i].1 {
                TomlModel::Table(pkg) => match key_index(pkg, "metadata"@) {
                    Some(j) => match pkg[j].1 {
                        TomlModel::Table(m) => match key_index(m, "binstall"@) {
                            Some(l) => Some(m[l].1),
                            None => None,
                        },
                        _ => None,
                    },
                    None => None,
                },
                _ => None,
            },
            None => None,
        },
        _ => None,
    }
}

/// The index of the first entry with the given key.
fn find_key(es: &Vec<(String, TomlValue)>, key: &str) -> (r: Option<usize>)
    ensures
        match r {
            Some(i) => key_index(table_view(es@), key@) == Some(i as int),
            None => key_index(table_view(es@), key@) is None,
        },
{
    let target = key.to_owned();
    let ghost t = table_view(es@);
    let mut i: usize = 0;
    while i < es.len()
        invariant
            t == table_view(es@),
            target@ == key@,
            i <= es@.len(),
            forall|j: int| 0 <= j < i ==> #[trigger] t[j].0 != key@,
        decreases es.len() - i,
    {
        if es[i].0 == target {
            proof {
                lemma_key_index_unique(t, key@, i as int);
            }
            return Some(i);
        }
        i = i + 1;
    }
    proof {
        lemma_key_absent(t, key@);
    }
    None
}

/// The entries of a table without those of the given key, in order.
fn remove_key(es: Vec<(String, TomlValue)>, key: &str) -> (r: Vec<(String, TomlValue)>)
    ensures
        table_view(r@) == without_key(table_view(es@), key@),
{
    let target = key.to_owned();
    let ghost all = es@;
    let mut rest = es;
    let mut kept: Vec<(String, TomlValue)> = Vec::new();
    let mut i: usize = 0;
    let n = rest.len();
    proof {
        assert(table_view(all.subrange(0, 0)) =~= Seq::empty());
        assert(table_view(kept@) =~= Seq::empty());
    }
    while rest.len() > 0
        invariant
            all.len() == n,
            target@ == key@,
            i + rest@.len() == n,
            rest@ == all.subrange(i as int, n as int),
            table_view(kept@) == without_key(table_view(all.subrange(0, i as int)), key@),
        decreases rest.len(),
    {
        let e = rest.remove(0);
        proof {
            assert(table_view(all.subrange(0, i + 1)).drop_last() =~= table_view(
                all.subrange(0, i as int),
            ));
            assert(table_view(all.subrange(0, i + 1)).last() == entry_view(e));
        }
        if e.0 != target {
            let ghost before = kept@;
            kept.push(e);
            proof {
                assert(table_view(kept@) =~= table_view(before).push(entry_view(e)));
            }
        }
        i = i + 1;
        proof {
            assert(rest@ =~= all.subrange(i as int, n as int));
        }
    }
    proof {
        assert(all.subrange(0, n as int) =~= all);
    }
    kept
}

/// A fresh `binstall` table for a verifying key.
fn binstall_table(verifying_key: &str) -> (r: TomlValue)
    ensures
        r.view() == binstall_model(verifying_key@),
{
    let signing = vec![
        ("algorithm".to_owned(), TomlValue::String("minisign".to_owned())),
        ("pubkey".to_owned(), TomlValue::String(verifying_key.to_owned())),
    ];
    proof {
        lemma_table_value(signing);
        assert(table_view(signing@) =~= seq![
            ("algorithm"@, TomlModel::Str("minisign"@)),
            ("pubkey"@, TomlModel::Str(verifying_key@)),
        ]);
    }
    let ghost signing_view = TomlValue::Table(signing).view();
    let entries = vec![
        ("pkg_fmt".to_owned(), TomlValue::String("tar".to_owned())),
        ("signing".to_owned(), TomlValue::Table(signing)),
    ];
    proof {
        lemma_table_value(entries);
        assert(table_view(entries@) =~= seq![
            ("pkg_fmt"@, TomlModel::Str("tar"@)),
            ("signing"@, signing_view),
        ]);
    }
    TomlValue::Table(entries)
}

/// Replacing an entry in place changes the table's meaning at that entry only.
proof fn lemma_table_replace(
    before: Seq<(String, TomlValue)>,
    after: Seq<(String, TomlValue)>,
    i: int,
    e: (String, TomlValue),
)
    requires
        0 <= i < before.len(),
        after == before.remove(i).insert(i, e),
    ensures
        table_view(after) == table_view(before).update(i, entry_view(e)),
{
    assert(after =~= before.update(i, e));
    assert(table_view(after) =~= table_view(before).update(i, entry_view(e)));
}

/// Injects the signing and packaging metadata for `verifying_key` into a manifest:
/// `package.metadata` is created if absent, any `binstall` table in it is replaced by
/// one that holds `pkg_fmt = "tar"` and a `signing` table with
/// `algorithm = "minisign"` and `pubkey` set to the key. Nothing else changes.
pub fn add_build_meta_info(doc: TomlValue, verifying_key: &str) -> (r: Result<
    TomlValue,
    ManifestError,
>)
    ensures
        match r {
            Ok(d) => inject(doc.view(), verifying_key@) == Ok::<TomlModel, ManifestError>(d.view()),
            Err(e) => inject(doc.view(), verifying_key@) == Err::<TomlModel, ManifestError>(e),
        },
{
    let mut root = match doc {
        TomlValue::Table(es) => es,
        _ => return Err(ManifestError::NotATable),
    };
    let ghost root0 = root@;
    proof {
        lemma_table_value(root);
    }
    let i = match find_key(&root, "package") {
        Some(i) => i,
        None => return Err(ManifestError::MissingPackage),
    };
    proof {
        lemma_key_index(table_view(root@), "package"@);
    }
    let (package_key, package_value) = root.remove(i);
    proof {
        assert(table_view(root0)[i as int] == entry_view(root0[i as int]));
    }
    let mut pkg = match package_value {
        TomlValue::Table(es) => es,
        _ => return Err(ManifestError::InvalidPackage),
    };
    let ghost pkg0 = pkg@;
    proof {
        lemma_table_value(pkg);
    }
    let metadata_index = find_key(&pkg, "metadata");
    proof {
        lemma_key_index(table_view(pkg@), "metadata"@);
    }
    let metadata = match metadata_index {
        None => Vec::new(),
        Some(j) => {
            proof {
                assert(table_view(pkg0)[j as int] == entry_view(pkg0[j as int]));
            }
            let m = match &pkg[j].1 {
                TomlValue::Table(_) => {
                    let (_, value) = pkg.remove(j);
                    match value {
                        TomlValue::Table(m) => m,
                        _ => Vec::new(),
                    }
                },
                _ => return Err(ManifestError::InvalidMetadata),
            };
            proof {
                lemma_table_value(m);
            }
            m
        },
    };
    proof {
        assert(metadata_index is None ==> table_view(metadata@) =~= Seq::empty());
        assert(metadata_of(table_view(pkg0)) == Ok::<Seq<(Seq<char>, TomlModel)>, ManifestError>(
            table_view(metadata@),
        ));
    }
    let mut fresh = remove_key(metadata, "binstall");
    let ghost stripped = fresh@;
    let binstall = binstall_table(verifying_key);
    fresh.push(("binstall".to_owned(), binstall));
    proof {
        assert(table_view(fresh@) =~= table_view(stripped).push(
            ("binstall"@, binstall_model(verifying_key@)),
        ));
        lemma_table_value(fresh);
    }
    let ghost fresh_view = TomlValue::Table(fresh).view();
    let entry = ("metadata".to_owned(), TomlValue::Table(fresh));
    match metadata_index {
        None => {
            let ghost before = pkg@;
            pkg.push(entry);
            proof {
                assert(table_view(pkg@) =~= table_view(before).push(entry_view(entry)));
            }
        },
        Some(j) => {
            pkg.insert(j, entry);
            proof {
                lemma_table_replace(pkg0, pkg@, j as int, entry);
            }
        },
    }
    proof {
        lemma_table_value(pkg);
        assert(table_view(pkg@) == set_key(table_view(pkg0), "metadata"@, fresh_view));
    }
    let ghost pkg_view = TomlValue::Table(pkg).view();
    let package_entry = (package_key, TomlValue::Table(pkg));
    root.insert(i, package_entry);
    proof {
        lemma_table_replace(root0, root@, i as int, package_entry);
        lemma_table_value(root);
        assert(table_view(root@) == set_key(table_view(root0), "package"@, pkg_view));
    }
    Ok(TomlValue::Table(root))
}

} // verus!
