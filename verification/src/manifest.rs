//! The `Aevia.toml` project manifest.
use vstd::prelude::*;
use crate::diagnostics::AeviaError;
use crate::modules::paths::{join_path, join_spec, opt_text, parent_dir, parent_spec};
use crate::text::{copy_string, push_str, str_eq};
use indexmap::IndexMap;

verus! {

/// A TOML value as plain data.  Tables list their entries in the parser's
/// order (ascending keys).
#[derive(Debug)]
pub enum TomlValue {
    Str(String),
    Int(i64),
    Bool(bool),
    Array(Vec<TomlValue>),
    Table(Vec<(String, TomlValue)>),
    /// A float or a date-time, which the manifest never reads.
    Other,
}

#[verifier::external_type_specification]
#[verifier::external_body]
pub struct ExTomlValue(toml::Value);

/// The document `toml::from_str` parses from a text: its root table as plain
/// values, or the parser's error message.
pub uninterp spec fn spec_toml_document(text: Seq<char>) -> Result<TomlValue, Seq<char>>;

/// Parses `text` as a TOML document (trusted: `toml::from_str` into a
/// `toml::Table`).  The result is the name [`spec_toml_document`] applied to
/// the text, and on success it is a table; what the parser accepts and the
/// wording of its errors are left to the `toml` crate.
#[verifier::external_body]
fn toml_document(text: &str) -> (r: Result<TomlValue, String>)
    ensures
        match r {
            Ok(v) => v is Table && spec_toml_document(text@) == Ok::<TomlValue, Seq<char>>(v),
            Err(e) => spec_toml_document(text@) == Err::<TomlValue, Seq<char>>(e@),
        },
{
    match toml::from_str::<toml::Table>(text) {
        Ok(t) => Ok(plain_value(toml::Value::Table(t))),
        Err(e) => Err(e.to_string()),
    }
}

/// A parsed `toml::Value` as plain values, variant for variant (trusted
/// conversion: strings, integers, booleans, arrays and tables are carried
/// over as they are, floats and date-times become `Other`).
#[verifier::external_body]
fn plain_value(v: toml::Value) -> TomlValue {
    match v {
        toml::Value::String(s) => TomlValue::Str(s),
        toml::Value::Integer(i) => TomlValue::Int(i),
        toml::Value::Boolean(b) => TomlValue::Bool(b),
        toml::Value::Array(a) => TomlValue::Array(a.into_iter().map(plain_value).collect()),
        toml::Value::Table(t) => TomlValue::Table(t.into_iter().map(|(k, x)| (k, plain_value(x))).collect()),
        toml::Value::Float(_) => TomlValue::Other,
        toml::Value::Datetime(_) => TomlValue::Other,
    }
}

/// `[package]`.
#[derive(Debug, Clone)]
pub struct PackageSection {
    pub name: String,
    pub version: String,
    pub authors: Vec<String>,
}

/// `[profile]`.
#[derive(Debug, Clone)]
pub struct ProfileSection {
    pub release: ReleaseProfile,
}

/// `[profile.release]`.
#[derive(Debug, Clone)]
pub struct ReleaseProfile {
    pub opt_level: Option<u8>,
    pub backend: Option<String>,
    pub dimension_checking: Option<String>,
}

/// One entry of `[dependencies]`.
#[derive(Debug, Clone)]
pub struct DependencySpec {
    pub version: Option<String>,
    pub registry: Option<String>,
}

/// A project manifest.  `dependencies` keeps the order of the file's table.
#[derive(Debug)]
pub struct Manifest {
    pub package: PackageSection,
    pub profile: ProfileSection,
    pub dependencies: IndexMap<String, DependencySpec>,
}

impl Default for ReleaseProfile {
    fn default() -> (r: Self)
        ensures
            r.opt_level is None,
            r.backend is None,
            r.dimension_checking is None,
    {
        ReleaseProfile { opt_level: None, backend: None, dimension_checking: None }
    }
}

impl Default for ProfileSection {
    fn default() -> (r: Self)
        ensures
            r.release.opt_level is None,
            r.release.backend is None,
            r.release.dimension_checking is None,
    {
        ProfileSection { release: ReleaseProfile::default() }
    }
}

/// The value under `key` in a table's entries (the first, should a key repeat).
pub open spec fn tget(t: Seq<(String, TomlValue)>, key: Seq<char>) -> Option<TomlValue>
    decreases t.len(),
{
    if t.len() == 0 {
        None
    } else if t[0].0@ == key {
        Some(t[0].1)
    } else {
        tget(t.drop_first(), key)
    }
}

/// The entries of a table value.
pub open spec fn as_table(v: Option<TomlValue>) -> Option<Seq<(String, TomlValue)>> {
    match v {
        Some(TomlValue::Table(t)) => Some(t@),
        _ => None,
    }
}

/// The text of a string value.
pub open spec fn as_str(v: Option<TomlValue>) -> Option<Seq<char>> {
    match v {
        Some(TomlValue::Str(s)) => Some(s@),
        _ => None,
    }
}

/// The string elements of an array, in order; other elements are skipped.
pub open spec fn strings_of(a: Seq<TomlValue>) -> Seq<Seq<char>>
    decreases a.len(),
{
    if a.len() == 0 {
        Seq::empty()
    } else {
        let p = strings_of(a.drop_last());
        match a.last() {
            TomlValue::Str(s) => p.push(s@),
            _ => p,
        }
    }
}

/// `package.authors`: its strings, or none when it is not an array.
pub open spec fn authors_spec(pkg: Seq<(String, TomlValue)>) -> Seq<Seq<char>> {
    match tget(pkg, "authors"@) {
        Some(TomlValue::Array(a)) => strings_of(a@),
        _ => Seq::empty(),
    }
}

/// The `[profile.release]` entries, if that table is there.
pub open spec fn release_spec(root: Seq<(String, TomlValue)>) -> Option<Seq<(String, TomlValue)>> {
    match as_table(tget(root, "profile"@)) {
        Some(p) => as_table(tget(p, "release"@)),
        None => None,
    }
}

/// `opt-level`: an integer that fits in a byte.
pub open spec fn opt_level_spec(release: Option<Seq<(String, TomlValue)>>) -> Option<u8> {
    match release {
        Some(r) => match tget(r, "opt-level"@) {
            Some(TomlValue::Int(i)) => if 0 <= i <= 255 { Some(i as u8) } else { None },
            _ => None,
        },
        None => None,
    }
}

/// A string entry of `[profile.release]`.
pub open spec fn release_str(release: Option<Seq<(String, TomlValue)>>, key: Seq<char>) -> Option<Seq<char>> {
    match release {
        Some(r) => as_str(tget(r, key)),
        None => None,
    }
}

/// A dependency as plain values: its version and registry.
pub open spec fn dep_entry(v: TomlValue) -> Option<(Option<Seq<char>>, Option<Seq<char>>)> {
    match v {
        TomlValue::Str(s) => Some((Some(s@), None)),
        TomlValue::Table(t) => Some((as_str(tget(t@, "version"@)), as_str(tget(t@, "registry"@)))),
        _ => None,
    }
}

/// A dependency entry as plain values: its name, version and registry.
pub type DepEntry = (Seq<char>, (Option<Seq<char>>, Option<Seq<char>>));

/// The index of the entry named `k`, if any (the first such entry).
pub open spec fn entry_index(e: Seq<DepEntry>, k: Seq<char>) -> Option<int>
    decreases e.len(),
{
    if e.len() == 0 {
        None
    } else {
        match entry_index(e.drop_last(), k) {
            Some(i) => Some(i),
            None => if e.last().0 == k { Some((e.len() - 1) as int) } else { None },
        }
    }
}

/// The entries after inserting `x`: an entry with the same name takes the
/// new value in its place, otherwise `x` comes last.
pub open spec fn entry_insert(e: Seq<DepEntry>, x: DepEntry) -> Seq<DepEntry> {
    match entry_index(e, x.0) {
        Some(i) => e.update(i, x),
        None => e.push(x),
    }
}

/// The dependencies of a `[dependencies]` table, in order: a string is a
/// version, a table gives a version and a registry, anything else is
/// skipped; a name given again keeps its place and takes the later value.
pub open spec fn deps_spec(t: Seq<(String, TomlValue)>) -> Seq<DepEntry>
    decreases t.len(),
{
    if t.len() == 0 {
        Seq::empty()
    } else {
        let p = deps_spec(t.drop_last());
        match dep_entry(t.last().1) {
            Some(d) => entry_insert(p, (t.last().0@, d)),
            None => p,
        }
    }
}

/// The model of a dependency.
pub open spec fn dep_view(d: DependencySpec) -> (Option<Seq<char>>, Option<Seq<char>>) {
    (opt_text(d.version), opt_text(d.registry))
}

#[verifier::external_type_specification]
#[verifier::external_body]
#[verifier::reject_recursive_types(K)]
#[verifier::reject_recursive_types(V)]
#[verifier::reject_recursive_types(S)]
pub struct ExIndexMap<K, V, S>(IndexMap<K, V, S>);

/// The entries of a dependency map, in the map's order, as plain values.
pub uninterp spec fn dep_entries(m: IndexMap<String, DependencySpec>) -> Seq<DepEntry>;

/// An empty dependency map (trusted: `IndexMap::new`, which creates a map
/// with no entries).
#[verifier::external_body]
fn new_dep_map() -> (m: IndexMap<String, DependencySpec>)
    ensures
        dep_entries(m) == Seq::<DepEntry>::empty(),
{
    IndexMap::new()
}

/// Inserts a dependency (trusted: `IndexMap::insert`, which, for a key
/// already present, keeps the key in its place and replaces its value, and
/// otherwise appends the pair last in order).
#[verifier::external_body]
fn insert_dep(m: &mut IndexMap<String, DependencySpec>, name: String, d: DependencySpec)
    ensures
        dep_entries(*final(m)) == entry_insert(dep_entries(*old(m)), (name@, dep_view(d))),
{
    m.insert(name, d);
}

/// The texts of a sequence of strings.
pub open spec fn string_texts(v: Seq<String>) -> Seq<Seq<char>> {
    v.map_values(|s: String| s@)
}

/// Why the root table is not a manifest, if it is not one.
pub open spec fn manifest_error(root: Seq<(String, TomlValue)>) -> Option<Seq<char>> {
    match as_table(tget(root, "package"@)) {
        None => Some("missing [package] section"@),
        Some(pkg) => match as_str(tget(pkg, "name"@)) {
            None => Some("package.name is required"@),
            Some(_) => None,
        },
    }
}

/// Whether `m` is the manifest that the root table `root` describes.
pub open spec fn manifest_of(root: Seq<(String, TomlValue)>, m: Manifest) -> bool {
    let pkg = as_table(tget(root, "package"@))->0;
    let release = release_spec(root);
    &&& m.package.name@ == as_str(tget(pkg, "name"@))->0
    &&& m.package.version@ == match as_str(tget(pkg, "version"@)) {
        Some(v) => v,
        None => "0.1.0"@,
    }
    &&& string_texts(m.package.authors@) == authors_spec(pkg)
    &&& m.profile.release.opt_level == opt_level_spec(release)
    &&& opt_text(m.profile.release.backend) == release_str(release, "backend"@)
    &&& opt_text(m.profile.release.dimension_checking) == release_str(release, "dimension-checking"@)
    &&& dep_entries(m.dependencies) == match as_table(tget(root, "dependencies"@)) {
        Some(t) => deps_spec(t),
        None => Seq::empty(),
    }
}

fn table_get<'a>(t: &'a Vec<(String, TomlValue)>, key: &str) -> (r: Option<&'a TomlValue>)
    ensures
        match r {
            Some(v) => tget(t@, key@) == Some(*v),
            None => tget(t@, key@) is None,
        },
{
    proof {
        assert(t@.subrange(0, t@.len() as int) =~= t@);
    }
    let mut i: usize = 0;
    while i < t.len()
        invariant
            i <= t@.len(),
            tget(t@, key@) == tget(t@.subrange(i as int, t@.len() as int), key@),
        decreases t@.len() - i,
    {
        proof {
            let rest = t@.subrange(i as int, t@.len() as int);
            assert(rest.drop_first() =~= t@.subrange(i + 1, t@.len() as int));
            assert(rest[0] == t@[i as int]);
        }
        if str_eq(t[i].0.as_str(), key) {
            return Some(&t[i].1);
        }
        i = i + 1;
    }
    None
}

fn get_table<'a>(t: &'a Vec<(String, TomlValue)>, key: &str) -> (r: Option<&'a Vec<(String, TomlValue)>>)
    ensures
        match r {
            Some(v) => as_table(tget(t@, key@)) == Some(v@),
            None => as_table(tget(t@, key@)) is None,
        },
{
    match table_get(t, key) {
        Some(TomlValue::Table(x)) => Some(x),
        _ => None,
    }
}

fn get_str(t: &Vec<(String, TomlValue)>, key: &str) -> (r: Option<String>)
    ensures
        opt_text(r) == as_str(tget(t@, key@)),
{
    match table_get(t, key) {
        Some(TomlValue::Str(s)) => Some(copy_string(s)),
        _ => None,
    }
}

fn strings_in(a: &Vec<TomlValue>) -> (r: Vec<String>)
    ensures
        string_texts(r@) == strings_of(a@),
{
    let mut out: Vec<String> = Vec::new();
    let mut i: usize = 0;
    proof {
        assert(string_texts(out@) =~= strings_of(a@.subrange(0, 0)));
    }
    while i < a.len()
        invariant
            i <= a@.len(),
            string_texts(out@) == strings_of(a@.subrange(0, i as int)),
        decreases a@.len() - i,
    {
        proof {
            let pre = a@.subrange(0, i + 1);
            assert(pre.drop_last() =~= a@.subrange(0, i as int));
            assert(pre.last() == a@[i as int]);
        }
        match &a[i] {
            TomlValue::Str(s) => {
                let ghost before = out@;
                let c = copy_string(s);
                out.push(c);
                proof {
                    assert(string_texts(out@) =~= string_texts(before).push(c@));
                }
            },
            _ => {},
        }
        i = i + 1;
    }
    proof {
        assert(a@.subrange(0, a@.len() as int) =~= a@);
    }
    out
}

fn dependencies_of(t: &Vec<(String, TomlValue)>) -> (r: IndexMap<String, DependencySpec>)
    ensures
        dep_entries(r) == deps_spec(t@),
{
    let mut out = new_dep_map();
    let mut i: usize = 0;
    proof {
        assert(t@.subrange(0, 0) =~= Seq::<(String, TomlValue)>::empty());
    }
    while i < t.len()
        invariant
            i <= t@.len(),
            dep_entries(out) == deps_spec(t@.subrange(0, i as int)),
        decreases t@.len() - i,
    {
        proof {
            let pre = t@.subrange(0, i + 1);
            assert(pre.drop_last() =~= t@.subrange(0, i as int));
            assert(pre.last() == t@[i as int]);
        }
        let entry: Option<DependencySpec> = match &t[i].1 {
            TomlValue::Str(s) => Some(DependencySpec { version: Some(copy_string(s)), registry: None }),
            TomlValue::Table(x) => Some(DependencySpec { version: get_str(x, "version"), registry: get_str(x, "registry") }),
            _ => None,
        };
        match entry {
            Some(d) => {
                let name = copy_string(&t[i].0);
                insert_dep(&mut out, name, d);
            },
            None => {},
        }
        i = i + 1;
    }
    proof {
        assert(t@.subrange(0, t@.len() as int) =~= t@);
    }
    out
}

fn release_of(root: &Vec<(String, TomlValue)>) -> (r: ReleaseProfile)
    ensures
        r.opt_level == opt_level_spec(release_spec(root@)),
        opt_text(r.backend) == release_str(release_spec(root@), "backend"@),
        opt_text(r.dimension_checking) == release_str(release_spec(root@), "dimension-checking"@),
{
    let profile = match get_table(root, "profile") {
        Some(p) => p,
        None => return ReleaseProfile::default(),
    };
    let release = match get_table(profile, "release") {
        Some(r) => r,
        None => return ReleaseProfile::default(),
    };
    let opt_level = match table_get(release, "opt-level") {
        Some(TomlValue::Int(i)) => if 0 <= *i && *i <= 255 { Some(*i as u8) } else { None },
        _ => None,
    };
    ReleaseProfile {
        opt_level,
        backend: get_str(release, "backend"),
        dimension_checking: get_str(release, "dimension-checking"),
    }
}

fn manifest_message(text: &str) -> (s: String)
    ensures
        s@ == text@,
{
    let mut s = String::new();
    push_str(&mut s, text);
    proof {
        assert(s@ =~= text@);
    }
    s
}

impl Manifest {
    /// The manifest that a parsed root table describes: `[package]` with a
    /// string `name` is required; `version` defaults to `0.1.0`, `authors` to
    /// none, and the other sections are optional.
    pub fn from_table(root: &Vec<(String, TomlValue)>) -> (r: Result<Manifest, String>)
        ensures
            match r {
                Ok(m) => manifest_error(root@) is None && manifest_of(root@, m),
                Err(e) => manifest_error(root@) == Some(e@),
            },
    {
        let pkg = match get_table(root, "package") {
            Some(p) => p,
            None => return Err(manifest_message("missing [package] section")),
        };
        let name = match get_str(pkg, "name") {
            Some(n) => n,
            None => return Err(manifest_message("package.name is required")),
        };
        let version = match get_str(pkg, "version") {
            Some(v) => v,
            None => manifest_message("0.1.0"),
        };
        let authors = match table_get(pkg, "authors") {
            Some(TomlValue::Array(a)) => strings_in(a),
            _ => Vec::new(),
        };
        proof {
            if !(tget(pkg@, "authors"@) matches Some(TomlValue::Array(_))) {
                assert(string_texts(authors@) =~= Seq::<Seq<char>>::empty());
            }
        }
        let release = release_of(root);
        let dependencies = match get_table(root, "dependencies") {
            Some(t) => dependencies_of(t),
            None => new_dep_map(),
        };
        Ok(Manifest {
            package: PackageSection { name, version, authors },
            profile: ProfileSection { release },
            dependencies,
        })
    }

    /// Parses the text of an `Aevia.toml`: the TOML parser's error, or the
    /// manifest its root table describes.
    pub fn parse(text: &str) -> (r: Result<Manifest, String>)
        ensures
            match spec_toml_document(text@) {
                Err(e) => r matches Err(x) && x@ == e,
                Ok(TomlValue::Table(t)) => match r {
                    Ok(m) => manifest_error(t@) is None && manifest_of(t@, m),
                    Err(x) => manifest_error(t@) == Some(x@),
                },
                Ok(_) => false,
            },
    {
        match toml_document(text) {
            Err(e) => Err(e),
            Ok(TomlValue::Table(t)) => Manifest::from_table(&t),
            Ok(_) => {
                proof {
                    assert(false);
                }
                Err(String::new())
            },
        }
    }
}

/// The manifest file of a directory.
pub fn manifest_file(dir: &str) -> (r: String)
    ensures
        r@ == join_spec(dir@, "Aevia.toml"@),
{
    join_path(dir, "Aevia.toml")
}

proof fn lemma_parent_shorter(s: Seq<char>)
    ensures
        parent_spec(s) matches Some(p) ==> p.len() < s.len(),
{
    if s.len() > 0 && s != seq!['/'] {
        lemma_last_slash_bound(s);
        if s.len() == 1 && s[0] == '/' {
            assert(s =~= seq!['/']);
        }
    }
}

proof fn lemma_last_slash_bound(s: Seq<char>)
    ensures
        crate::modules::paths::last_slash(s) matches Some(k) ==> 0 <= k < s.len() && s[k] == '/',
    decreases s.len(),
{
    if s.len() > 0 && s.last() != '/' {
        lemma_last_slash_bound(s.drop_last());
    }
}

/// A directory and its ancestors, nearest first: each the parent of the one
/// before, up to the root.
pub open spec fn ancestors_spec(dir: Seq<char>) -> Seq<Seq<char>>
    decreases dir.len(),
{
    match parent_spec(dir) {
        Some(p) => if p.len() < dir.len() { seq![dir] + ancestors_spec(p) } else { seq![dir] },
        None => seq![dir],
    }
}

/// The directories searched for the manifest from `dir` (see [`ancestors_spec`]).
pub fn ancestors(dir: &str) -> (r: Vec<String>)
    ensures
        string_texts(r@) == ancestors_spec(dir@),
    decreases dir@.len(),
{
    let mut out: Vec<String> = Vec::new();
    let mut first = String::new();
    push_str(&mut first, dir);
    out.push(first);
    proof {
        lemma_parent_shorter(dir@);
    }
    match parent_dir(dir) {
        Some(p) => {
            let rest = ancestors(p.as_str());
            let ghost head = out@;
            let mut k: usize = 0;
            while k < rest.len()
                invariant
                    k <= rest@.len(),
                    out@.len() == 1 + k,
                    string_texts(out@) == seq![dir@] + string_texts(rest@).subrange(0, k as int),
                decreases rest@.len() - k,
            {
                let ghost before = out@;
                let c = copy_string(&rest[k]);
                out.push(c);
                proof {
                    assert(string_texts(out@) =~= string_texts(before).push(c@));
                    assert(string_texts(rest@).subrange(0, k + 1) =~= string_texts(rest@).subrange(0, k as int).push(rest@[k as int]@));
                }
                k = k + 1;
            }
            proof {
                assert(string_texts(rest@).subrange(0, rest@.len() as int) =~= string_texts(rest@));
            }
        },
        None => {
            proof {
                assert(string_texts(out@) =~= seq![dir@]);
            }
        },
    }
    out
}

/// The first position whose flag is set.
pub open spec fn first_set(flags: Seq<bool>) -> Option<int>
    decreases flags.len(),
{
    if flags.len() == 0 {
        None
    } else if flags[0] {
        Some(0)
    } else {
        match first_set(flags.drop_first()) {
            Some(k) => Some(k + 1),
            None => None,
        }
    }
}

/// The project root: the first of `dirs` (the start directory and its
/// ancestors) whose flag in `has_manifest` says it holds `Aevia.toml`, or the
/// error naming `start`.
pub fn find_project_root(dirs: &Vec<String>, has_manifest: &Vec<bool>, start: &str) -> (r: Result<String, AeviaError>)
    requires
        dirs@.len() == has_manifest@.len(),
    ensures
        match first_set(has_manifest@) {
            Some(k) => r matches Ok(d) && d@ == dirs@[k]@,
            None => r matches Err(AeviaError::Message(m))
                && m@ == "no Aevia.toml found in "@ + start@ + " or any parent directory"@,
        },
{
    proof {
        assert(has_manifest@.subrange(0, has_manifest@.len() as int) =~= has_manifest@);
    }
    let mut i: usize = 0;
    while i < has_manifest.len()
        invariant
            dirs@.len() == has_manifest@.len(),
            i <= has_manifest@.len(),
            first_set(has_manifest@) == match first_set(has_manifest@.subrange(i as int, has_manifest@.len() as int)) {
                Some(k) => Some(k + i),
                None => None,
            },
        decreases has_manifest@.len() - i,
    {
        proof {
            let rest = has_manifest@.subrange(i as int, has_manifest@.len() as int);
            assert(rest.drop_first() =~= has_manifest@.subrange(i + 1, has_manifest@.len() as int));
            assert(rest[0] == has_manifest@[i as int]);
        }
        if has_manifest[i] {
            return Ok(copy_string(&dirs[i]));
        }
        i = i + 1;
    }
    let mut m = String::new();
    push_str(&mut m, "no Aevia.toml found in ");
    push_str(&mut m, start);
    push_str(&mut m, " or any parent directory");
    proof {
        assert(m@ =~= "no Aevia.toml found in "@ + start@ + " or any parent directory"@);
    }
    Err(AeviaError::message(m))
}

} // verus!
