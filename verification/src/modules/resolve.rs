//! Resolution of `use` declarations against the loaded modules of a program.
//!
//! The loader reads the files; what it found on disk reaches this module as
//! plain values: the parsed modules, and for each `mod name;` it looked up,
//! the file that the name resolved to.
use vstd::prelude::*;
use crate::ast::{DimExpr, Item, SourceFile, Spanned, Visibility};
use crate::diagnostics::{AeviaError, error_text};
use crate::modules::{ImportBindings, table_view, table_get, keys_unique};
use crate::modules::paths::{module_not_found, module_not_found_text, opt_text, parent_dir, parent_spec,
    path_starts_with, starts_with_spec};
use crate::text::{copy_string, push_str, str_eq};
use crate::types::dim::{DimVector, resolve, resolve_dim, spec_dimensionless};

verus! {

/// One loaded source file and its resolved import bindings.
#[derive(Debug)]
pub struct LoadedModule {
    pub path: String,
    pub ast: SourceFile,
    pub imports: ImportBindings,
}

/// Where the loader found the file of module `name` looked up from the file
/// `from` (`None`: none of the candidate files exists).
#[derive(Debug, Clone)]
pub struct ModLink {
    pub from: String,
    pub name: String,
    pub target: Option<String>,
}

/// A multi-module program loaded from an entry `.ae` file.
#[derive(Debug)]
pub struct ModuleProgram {
    /// The entry file.
    pub entry: String,
    /// The root of the enclosing project, if the entry lies in one.
    pub crate_root: Option<String>,
    /// The loaded files, entry first, each path at most once.
    pub modules: Vec<LoadedModule>,
    /// The module files found on disk.
    pub links: Vec<ModLink>,
}

/// What a module exports under a name.
#[derive(Debug, Clone, Copy, PartialEq, Eq)]
pub enum Export {
    /// A function, with the dimension it returns.
    Fn(DimVector),
    /// A type alias, with the dimension it stands for.
    Alias(DimVector),
}

/// A binding table as a map from local names to dimensions.
pub open spec fn table_map(t: Seq<(Seq<char>, DimVector)>) -> Map<Seq<char>, DimVector> {
    Map::new(|k: Seq<char>| table_get(t, k) is Some, |k: Seq<char>| table_get(t, k)->0)
}

/// The two tables of a set of bindings: functions and aliases.
pub open spec fn binding_maps(b: ImportBindings) -> (Map<Seq<char>, DimVector>, Map<Seq<char>, DimVector>) {
    (table_map(table_view(b.functions@)), table_map(table_view(b.aliases@)))
}

/// The texts of a sequence of strings.
pub open spec fn texts(v: Seq<String>) -> Seq<Seq<char>> {
    v.map_values(|s: String| s@)
}

/// Module path segments joined with `::`.
pub open spec fn join_colons(p: Seq<Seq<char>>) -> Seq<char>
    decreases p.len(),
{
    if p.len() == 0 {
        Seq::empty()
    } else if p.len() == 1 {
        p[0]
    } else {
        join_colons(p.drop_last()) + "::"@ + p.last()
    }
}

/// Index of the first loaded module with the given path.
pub open spec fn module_index(mods: Seq<LoadedModule>, path: Seq<char>) -> Option<int>
    decreases mods.len(),
{
    if mods.len() == 0 {
        None
    } else if mods[0].path@ == path {
        Some(0)
    } else {
        match module_index(mods.drop_first(), path) {
            Some(k) => Some(k + 1),
            None => None,
        }
    }
}

/// The file that module `name`, looked up from `from`, resolved to.
pub open spec fn link_target(links: Seq<ModLink>, from: Seq<char>, name: Seq<char>) -> Option<Seq<char>>
    decreases links.len(),
{
    if links.len() == 0 {
        None
    } else if links[0].from@ == from && links[0].name@ == name {
        opt_text(links[0].target)
    } else {
        link_target(links.drop_first(), from, name)
    }
}

/// Index of the first `mod` item named `name`.
pub open spec fn child_module(items: Seq<Spanned<Item>>, name: Seq<char>) -> Option<int>
    decreases items.len(),
{
    if items.len() == 0 {
        None
    } else if items[0].node is Module && items[0].node->Module_name@ == name {
        Some(0)
    } else {
        match child_module(items.drop_first(), name) {
            Some(k) => Some(k + 1),
            None => None,
        }
    }
}

/// Whether an item with visibility `vis` can be seen from a module in the
/// same file (`same_file`) or the same crate (`same_crate`).
pub open spec fn visible_spec(vis: Visibility, same_file: bool, same_crate: bool) -> bool {
    match vis {
        Visibility::Private => same_file,
        Visibility::Crate => same_crate,
        Visibility::Public => true,
    }
}

/// Whether two files belong to one crate: both under the project root, or,
/// outside a project, in one directory.
pub open spec fn same_crate_spec(root: Option<String>, a: Seq<char>, b: Seq<char>) -> bool {
    match root {
        Some(r) => starts_with_spec(a, r@) && starts_with_spec(b, r@),
        None => parent_spec(a) == parent_spec(b),
    }
}

/// The file module `name` resolves to from `from`, with its items.
pub open spec fn file_step(prog: ModuleProgram, from: Seq<char>, name: Seq<char>)
    -> Result<(Seq<char>, Seq<Spanned<Item>>), Seq<char>>
{
    match link_target(prog.links@, from, name) {
        None => Err(module_not_found_text(from, name)),
        Some(t) => match module_index(prog.modules@, t) {
            None => Err("module file not loaded: "@ + t),
            Some(j) => Ok((t, prog.modules@[j].ast.items@)),
        },
    }
}

/// One segment of a module path: an inline `mod name { .. }` among the
/// current items, or else the file of module `name`.
pub open spec fn resolve_step(prog: ModuleProgram, from: Seq<char>, items: Seq<Spanned<Item>>, name: Seq<char>)
    -> Result<(Seq<char>, Seq<Spanned<Item>>), Seq<char>>
{
    match child_module(items, name) {
        Some(i) => match items[i].node {
            Item::Module { body: Some(b), .. } => Ok((from, b@)),
            _ => file_step(prog, from, name),
        },
        None => file_step(prog, from, name),
    }
}

/// Follows the segments `segs` from the items of file `from`.
pub open spec fn walk(prog: ModuleProgram, from: Seq<char>, items: Seq<Spanned<Item>>, segs: Seq<Seq<char>>)
    -> Result<(Seq<char>, Seq<Spanned<Item>>), Seq<char>>
    decreases segs.len(),
{
    if segs.len() == 0 {
        Ok((from, items))
    } else {
        match resolve_step(prog, from, items, segs[0]) {
            Err(e) => Err(e),
            Ok(p) => walk(prog, p.0, p.1, segs.drop_first()),
        }
    }
}

/// The file owning the module at `path` seen from `importer`, and its items.
pub open spec fn module_items_spec(prog: ModuleProgram, importer: Seq<char>, path: Seq<Seq<char>>)
    -> Result<(Seq<char>, Seq<Spanned<Item>>), Seq<char>>
{
    if path.len() == 0 {
        Err("empty module path"@)
    } else {
        match module_index(prog.modules@, importer) {
            None => Err("module not loaded"@),
            Some(j) => walk(prog, importer, prog.modules@[j].ast.items@, path),
        }
    }
}

/// The dimension a function returns: its declared return type, or
/// dimensionless when it has none or it does not resolve.
pub open spec fn ret_dim(rt: Option<Spanned<DimExpr>>) -> DimVector {
    match rt {
        Some(s) => match resolve_dim(s.node) {
            Some(d) => d,
            None => spec_dimensionless(),
        },
        None => spec_dimensionless(),
    }
}

/// The export `name` among `items`: the first function or type alias of that
/// name decides (`None`: there is none).
pub open spec fn find_export(items: Seq<Spanned<Item>>, name: Seq<char>, same_file: bool, same_crate: bool)
    -> Option<Result<Export, Seq<char>>>
    decreases items.len(),
{
    if items.len() == 0 {
        None
    } else {
        let it = items[0].node;
        if it is Function && it->Function_name@ == name {
            if visible_spec(it->Function_visibility, same_file, same_crate) {
                Some(Ok(Export::Fn(ret_dim(it->Function_return_type))))
            } else {
                Some(Err("`"@ + name + "` is not accessible from this module"@))
            }
        } else if it is TypeAlias && it->TypeAlias_name@ == name {
            match resolve_dim(it->TypeAlias_dimension_expr.node) {
                Some(d) => Some(Ok(Export::Alias(d))),
                None => Some(Err("unknown unit in alias `"@ + name + "`"@)),
            }
        } else {
            find_export(items.drop_first(), name, same_file, same_crate)
        }
    }
}

/// What `importer` gets for `name` from the module at `mod_path`.
pub open spec fn export_spec(prog: ModuleProgram, importer: Seq<char>, mod_path: Seq<Seq<char>>, name: Seq<char>)
    -> Result<Export, Seq<char>>
{
    match module_items_spec(prog, importer, mod_path) {
        Err(e) => Err(e),
        Ok(p) => match find_export(p.1, name, importer == p.0, same_crate_spec(prog.crate_root, importer, p.0)) {
            Some(r) => r,
            None => Err("no export `"@ + name + "` in module `"@ + join_colons(mod_path) + "`"@),
        },
    }
}

/// The bindings after `use a::b::name [as alias];` in `importer`.
pub open spec fn bind_use_spec(
    prog: ModuleProgram,
    importer: Seq<char>,
    use_path: Seq<Seq<char>>,
    alias: Option<Seq<char>>,
    acc: (Map<Seq<char>, DimVector>, Map<Seq<char>, DimVector>),
) -> Result<(Map<Seq<char>, DimVector>, Map<Seq<char>, DimVector>), Seq<char>> {
    if use_path.len() == 0 {
        Err("empty use path"@)
    } else {
        let name = use_path.last();
        let mod_path = use_path.drop_last();
        if mod_path.len() == 0 {
            Err("use must import from a module path, got `"@ + name + "` alone"@)
        } else {
            let local = match alias {
                Some(a) => a,
                None => name,
            };
            match export_spec(prog, importer, mod_path, name) {
                Err(e) => Err(e),
                Ok(Export::Fn(d)) => Ok((acc.0.insert(local, d), acc.1)),
                Ok(Export::Alias(d)) => Ok((acc.0, acc.1.insert(local, d))),
            }
        }
    }
}

/// The bindings after one item of a glob-imported module.
pub open spec fn glob_item(
    item: Item,
    same_file: bool,
    same_crate: bool,
    acc: (Map<Seq<char>, DimVector>, Map<Seq<char>, DimVector>),
) -> (Map<Seq<char>, DimVector>, Map<Seq<char>, DimVector>) {
    match item {
        Item::Function { name, return_type, visibility, .. } => if visible_spec(visibility, same_file, same_crate) {
            (acc.0.insert(name@, ret_dim(return_type)), acc.1)
        } else {
            acc
        },
        Item::TypeAlias { name, dimension_expr, .. } => match resolve_dim(dimension_expr.node) {
            Some(d) => (acc.0, acc.1.insert(name@, d)),
            None => acc,
        },
        Item::Const { name, dim, visibility, .. } => if visible_spec(visibility, same_file, same_crate) {
            match dim {
                Some(ds) => match resolve_dim(ds.node) {
                    Some(d) => (acc.0.insert(name@, d), acc.1),
                    None => acc,
                },
                None => acc,
            }
        } else {
            acc
        },
        _ => acc,
    }
}

/// The bindings after all items of a glob-imported module, in order.
pub open spec fn glob_fold(
    items: Seq<Spanned<Item>>,
    same_file: bool,
    same_crate: bool,
    acc: (Map<Seq<char>, DimVector>, Map<Seq<char>, DimVector>),
) -> (Map<Seq<char>, DimVector>, Map<Seq<char>, DimVector>)
    decreases items.len(),
{
    if items.len() == 0 {
        acc
    } else {
        glob_item(items.last().node, same_file, same_crate, glob_fold(items.drop_last(), same_file, same_crate, acc))
    }
}

/// The bindings after `use a::b::*;` in `importer`.
pub open spec fn bind_glob_spec(
    prog: ModuleProgram,
    importer: Seq<char>,
    use_path: Seq<Seq<char>>,
    acc: (Map<Seq<char>, DimVector>, Map<Seq<char>, DimVector>),
) -> Result<(Map<Seq<char>, DimVector>, Map<Seq<char>, DimVector>), Seq<char>> {
    if use_path.len() == 0 {
        Err("empty use path"@)
    } else {
        match module_items_spec(prog, importer, use_path) {
            Err(e) => Err(e),
            Ok(p) => Ok(glob_fold(p.1, importer == p.0, same_crate_spec(prog.crate_root, importer, p.0), acc)),
        }
    }
}

/// The bindings after one item of `importer` (only `use` items bind).
pub open spec fn use_item_spec(
    prog: ModuleProgram,
    importer: Seq<char>,
    item: Item,
    acc: (Map<Seq<char>, DimVector>, Map<Seq<char>, DimVector>),
) -> Result<(Map<Seq<char>, DimVector>, Map<Seq<char>, DimVector>), Seq<char>> {
    match item {
        Item::Use { path, alias, glob } => if glob {
            bind_glob_spec(prog, importer, texts(path@), acc)
        } else {
            bind_use_spec(prog, importer, texts(path@), opt_text(alias), acc)
        },
        _ => Ok(acc),
    }
}

/// The bindings of the `use` items among `items`, in order; the first
/// failing one decides the error.
pub open spec fn uses_fold(prog: ModuleProgram, importer: Seq<char>, items: Seq<Spanned<Item>>)
    -> Result<(Map<Seq<char>, DimVector>, Map<Seq<char>, DimVector>), Seq<char>>
    decreases items.len(),
{
    if items.len() == 0 {
        Ok((Map::empty(), Map::empty()))
    } else {
        match uses_fold(prog, importer, items.drop_last()) {
            Err(e) => Err(e),
            Ok(acc) => use_item_spec(prog, importer, items.last().node, acc),
        }
    }
}

/// The import bindings of the module at `path`.
pub open spec fn imports_spec(prog: ModuleProgram, path: Seq<char>)
    -> Result<(Map<Seq<char>, DimVector>, Map<Seq<char>, DimVector>), Seq<char>>
{
    match module_index(prog.modules@, path) {
        None => Err("internal module table inconsistency"@),
        Some(j) => uses_fold(prog, path, prog.modules@[j].ast.items@),
    }
}

/// Whether an exec result and a model result agree: the same value, or a
/// message error with the model's text.
pub open spec fn agrees<T>(r: Result<T, AeviaError>, m: Result<T, Seq<char>>) -> bool {
    match r {
        Ok(v) => m == Ok::<T, Seq<char>>(v),
        Err(e) => e is Message && m == Err::<T, Seq<char>>(error_text(e)),
    }
}

/// Whether an item with visibility `vis` can be seen from a module in the
/// same file or the same crate.
pub fn visible(vis: Visibility, same_file: bool, same_crate: bool) -> (r: bool)
    ensures
        r == visible_spec(vis, same_file, same_crate),
{
    match vis {
        Visibility::Private => same_file,
        Visibility::Crate => same_crate,
        Visibility::Public => true,
    }
}

fn same_crate(root: &Option<String>, a: &str, b: &str) -> (r: bool)
    ensures
        r == same_crate_spec(*root, a@, b@),
{
    match root {
        Some(r) => path_starts_with(a, r.as_str()) && path_starts_with(b, r.as_str()),
        None => {
            let pa = parent_dir(a);
            let pb = parent_dir(b);
            match (pa, pb) {
                (Some(x), Some(y)) => str_eq(x.as_str(), y.as_str()),
                (None, None) => true,
                _ => false,
            }
        },
    }
}

/// Position of the module loaded from `path`.
pub fn find_module(mods: &Vec<LoadedModule>, path: &str) -> (r: Option<usize>)
    ensures
        r matches Some(j) ==> j < mods@.len() && mods@[j as int].path@ == path@,
        match r {
            Some(j) => module_index(mods@, path@) == Some(j as int),
            None => module_index(mods@, path@) is None,
        },
{
    proof {
        assert(mods@.subrange(0, mods@.len() as int) =~= mods@);
    }
    let mut i: usize = 0;
    while i < mods.len()
        invariant
            i <= mods@.len(),
            module_index(mods@, path@) == match module_index(mods@.subrange(i as int, mods@.len() as int), path@) {
                Some(k) => Some(k + i),
                None => None,
            },
        decreases mods@.len() - i,
    {
        proof {
            let rest = mods@.subrange(i as int, mods@.len() as int);
            assert(rest.drop_first() =~= mods@.subrange(i + 1, mods@.len() as int));
            assert(rest[0] == mods@[i as int]);
        }
        if str_eq(mods[i].path.as_str(), path) {
            return Some(i);
        }
        i = i + 1;
    }
    None
}

fn find_link(links: &Vec<ModLink>, from: &str, name: &str) -> (r: Option<String>)
    ensures
        opt_text(r) == link_target(links@, from@, name@),
{
    proof {
        assert(links@.subrange(0, links@.len() as int) =~= links@);
    }
    let mut i: usize = 0;
    while i < links.len()
        invariant
            i <= links@.len(),
            link_target(links@, from@, name@) == link_target(links@.subrange(i as int, links@.len() as int), from@, name@),
        decreases links@.len() - i,
    {
        proof {
            let rest = links@.subrange(i as int, links@.len() as int);
            assert(rest.drop_first() =~= links@.subrange(i + 1, links@.len() as int));
            assert(rest[0] == links@[i as int]);
        }
        if str_eq(links[i].from.as_str(), from) && str_eq(links[i].name.as_str(), name) {
            return match &links[i].target {
                Some(t) => Some(copy_string(t)),
                None => None,
            };
        }
        i = i + 1;
    }
    None
}

fn find_child_module(items: &Vec<Spanned<Item>>, name: &str) -> (r: Option<usize>)
    ensures
        match r {
            Some(j) => child_module(items@, name@) == Some(j as int) && j < items@.len(),
            None => child_module(items@, name@) is None,
        },
{
    proof {
        assert(items@.subrange(0, items@.len() as int) =~= items@);
    }
    let mut i: usize = 0;
    while i < items.len()
        invariant
            i <= items@.len(),
            child_module(items@, name@) == match child_module(items@.subrange(i as int, items@.len() as int), name@) {
                Some(k) => Some(k + i),
                None => None,
            },
        decreases items@.len() - i,
    {
        proof {
            let rest = items@.subrange(i as int, items@.len() as int);
            assert(rest.drop_first() =~= items@.subrange(i + 1, items@.len() as int));
            assert(rest[0] == items@[i as int]);
        }
        match &items[i].node {
            Item::Module { name: n, .. } => {
                if str_eq(n.as_str(), name) {
                    return Some(i);
                }
            },
            _ => {},
        }
        i = i + 1;
    }
    None
}

fn message_error(text: &str) -> (e: AeviaError)
    ensures
        e matches AeviaError::Message(m) && m@ == text@,
{
    let mut m = String::new();
    push_str(&mut m, text);
    proof {
        assert(m@ =~= text@);
    }
    AeviaError::message(m)
}

fn message_error2(prefix: &str, middle: &str) -> (e: AeviaError)
    ensures
        e matches AeviaError::Message(m) && m@ == prefix@ + middle@,
{
    let mut m = String::new();
    push_str(&mut m, prefix);
    push_str(&mut m, middle);
    proof {
        assert(m@ =~= prefix@ + middle@);
    }
    AeviaError::message(m)
}

fn message_error3(prefix: &str, middle: &str, suffix: &str) -> (e: AeviaError)
    ensures
        e matches AeviaError::Message(m) && m@ == prefix@ + middle@ + suffix@,
{
    let mut m = String::new();
    push_str(&mut m, prefix);
    push_str(&mut m, middle);
    push_str(&mut m, suffix);
    proof {
        assert(m@ =~= prefix@ + middle@ + suffix@);
    }
    AeviaError::message(m)
}

fn file_step_exec<'a>(prog: &'a ModuleProgram, from: &str, name: &str)
    -> (r: Result<(String, &'a Vec<Spanned<Item>>), AeviaError>)
    ensures
        match r {
            Ok(p) => file_step(*prog, from@, name@) == Ok::<(Seq<char>, Seq<Spanned<Item>>), Seq<char>>((p.0@, p.1@)),
            Err(e) => e is Message && file_step(*prog, from@, name@) == Err::<(Seq<char>, Seq<Spanned<Item>>), Seq<char>>(error_text(e)),
        },
{
    match find_link(&prog.links, from, name) {
        None => Err(module_not_found(from, name)),
        Some(t) => match find_module(&prog.modules, t.as_str()) {
            None => {
                Err(message_error2("module file not loaded: ", t.as_str()))
            },
            Some(j) => Ok((t, &prog.modules[j].ast.items)),
        },
    }
}

fn resolve_step_exec<'a>(prog: &'a ModuleProgram, from: &str, items: &'a Vec<Spanned<Item>>, name: &str)
    -> (r: Result<(String, &'a Vec<Spanned<Item>>), AeviaError>)
    ensures
        match r {
            Ok(p) => resolve_step(*prog, from@, items@, name@) == Ok::<(Seq<char>, Seq<Spanned<Item>>), Seq<char>>((p.0@, p.1@)),
            Err(e) => e is Message && resolve_step(*prog, from@, items@, name@) == Err::<(Seq<char>, Seq<Spanned<Item>>), Seq<char>>(error_text(e)),
        },
{
    match find_child_module(items, name) {
        Some(i) => {
            match &items[i].node {
                Item::Module { body: Some(b), .. } => {
                    let mut f = String::new();
                    push_str(&mut f, from);
                    return Ok((f, b));
                },
                _ => {},
            }
        },
        None => {},
    }
    file_step_exec(prog, from, name)
}

/// The file owning the module at `path` as seen from `importer`, and the
/// items of that module: each segment names an inline `mod` of the current
/// items, or else a module file.
pub fn resolve_module_items<'a>(prog: &'a ModuleProgram, importer: &str, path: &Vec<String>)
    -> (r: Result<(String, &'a Vec<Spanned<Item>>), AeviaError>)
    ensures
        match r {
            Ok(p) => module_items_spec(*prog, importer@, texts(path@))
                == Ok::<(Seq<char>, Seq<Spanned<Item>>), Seq<char>>((p.0@, p.1@)),
            Err(e) => e is Message && module_items_spec(*prog, importer@, texts(path@))
                == Err::<(Seq<char>, Seq<Spanned<Item>>), Seq<char>>(error_text(e)),
        },
{
    if path.len() == 0 {
        return Err(message_error("empty module path"));
    }
    let j = match find_module(&prog.modules, importer) {
        None => {
            return Err(message_error("module not loaded"));
        },
        Some(j) => j,
    };
    let ghost segs = texts(path@);
    let ghost whole = walk(*prog, importer@, prog.modules@[j as int].ast.items@, segs);
    let mut cur = String::new();
    push_str(&mut cur, importer);
    let mut items: &'a Vec<Spanned<Item>> = &prog.modules[j].ast.items;
    let mut k: usize = 0;
    proof {
        assert(segs.subrange(0, segs.len() as int) =~= segs);
    }
    while k < path.len()
        invariant
            k <= path@.len(),
            segs == texts(path@),
            segs.len() == path@.len(),
            module_items_spec(*prog, importer@, segs) == whole,
            whole == walk(*prog, cur@, items@, segs.subrange(k as int, segs.len() as int)),
        decreases path@.len() - k,
    {
        proof {
            let rest = segs.subrange(k as int, segs.len() as int);
            assert(rest.drop_first() =~= segs.subrange(k + 1, segs.len() as int));
            assert(rest[0] == path@[k as int]@);
        }
        let step = resolve_step_exec(prog, cur.as_str(), items, path[k].as_str());
        match step {
            Err(e) => return Err(e),
            Ok(p) => {
                cur = p.0;
                items = p.1;
            },
        }
        k = k + 1;
    }
    proof {
        assert(segs.subrange(k as int, segs.len() as int) =~= Seq::<Seq<char>>::empty());
    }
    Ok((cur, items))
}

proof fn lemma_insert_map(
    old_t: Seq<(Seq<char>, DimVector)>,
    new_t: Seq<(Seq<char>, DimVector)>,
    name: Seq<char>,
    dim: DimVector,
)
    requires
        table_get(new_t, name) == Some(dim),
        forall|k: Seq<char>| k != name ==> table_get(new_t, k) == table_get(old_t, k),
    ensures
        table_map(new_t) == table_map(old_t).insert(name, dim),
{
    assert(table_map(new_t) =~= table_map(old_t).insert(name, dim));
}

proof fn lemma_empty_map()
    ensures
        table_map(Seq::<(Seq<char>, DimVector)>::empty()) == Map::<Seq<char>, DimVector>::empty(),
{
    assert(table_map(Seq::<(Seq<char>, DimVector)>::empty()) =~= Map::<Seq<char>, DimVector>::empty());
}

/// Binds function `name` to `dim`.
fn bind_function(b: &mut ImportBindings, name: &str, dim: DimVector)
    requires
        old(b).wf(),
    ensures
        final(b).wf(),
        binding_maps(*final(b)) == (binding_maps(*old(b)).0.insert(name@, dim), binding_maps(*old(b)).1),
{
    let ghost f0 = table_view(b.functions@);
    b.insert_function(name, dim);
    proof {
        lemma_insert_map(f0, table_view(b.functions@), name@, dim);
    }
}

/// Binds alias `name` to `dim`.
fn bind_alias(b: &mut ImportBindings, name: &str, dim: DimVector)
    requires
        old(b).wf(),
    ensures
        final(b).wf(),
        binding_maps(*final(b)) == (binding_maps(*old(b)).0, binding_maps(*old(b)).1.insert(name@, dim)),
{
    let ghost a0 = table_view(b.aliases@);
    b.insert_alias(name, dim);
    proof {
        lemma_insert_map(a0, table_view(b.aliases@), name@, dim);
    }
}

/// The dimension a function returns (see [`ret_dim`]).
fn return_dim(rt: &Option<Spanned<DimExpr>>) -> (d: DimVector)
    ensures
        d == ret_dim(*rt),
{
    match rt {
        Some(s) => match resolve(s) {
            Some(d) => d,
            None => DimVector::DIMENSIONLESS(),
        },
        None => DimVector::DIMENSIONLESS(),
    }
}

fn push_joined(out: &mut String, p: &Vec<String>)
    ensures
        final(out)@ == old(out)@ + join_colons(texts(p@)),
{
    let ghost ts = texts(p@);
    let ghost start = out@;
    let mut i: usize = 0;
    while i < p.len()
        invariant
            i <= p@.len(),
            ts == texts(p@),
            ts.len() == p@.len(),
            out@ == start + join_colons(ts.subrange(0, i as int)),
        decreases p@.len() - i,
    {
        let ghost before = out@;
        if i > 0 {
            push_str(out, "::");
        }
        push_str(out, p[i].as_str());
        proof {
            let pre = ts.subrange(0, i + 1);
            assert(pre.drop_last() =~= ts.subrange(0, i as int));
            assert(pre.last() == p@[i as int]@);
            if i == 0 {
                assert(pre =~= seq![p@[0]@]);
                assert(out@ =~= start + join_colons(pre));
            } else {
                assert(out@ =~= start + join_colons(pre));
            }
        }
        i = i + 1;
    }
    proof {
        assert(ts.subrange(0, ts.len() as int) =~= ts);
    }
}

/// What `importer` gets for `name` from the module at `mod_path`.
pub fn resolve_export(prog: &ModuleProgram, importer: &str, mod_path: &Vec<String>, name: &str) -> (r: Result<Export, AeviaError>)
    ensures
        agrees(r, export_spec(*prog, importer@, texts(mod_path@), name@)),
{
    let (owner, items) = match resolve_module_items(prog, importer, mod_path) {
        Err(e) => return Err(e),
        Ok(p) => p,
    };
    let sc = same_crate(&prog.crate_root, importer, owner.as_str());
    let sf = str_eq(importer, owner.as_str());
    let ghost whole = find_export(items@, name@, sf, sc);
    let ghost missing = "no export `"@ + name@ + "` in module `"@ + join_colons(texts(mod_path@)) + "`"@;
    proof {
        assert(items@.subrange(0, items@.len() as int) =~= items@);
    }
    let mut i: usize = 0;
    while i < items.len()
        invariant
            i <= items@.len(),
            export_spec(*prog, importer@, texts(mod_path@), name@) == match whole {
                Some(x) => x,
                None => Err::<Export, Seq<char>>(missing),
            },
            whole == find_export(items@.subrange(i as int, items@.len() as int), name@, sf, sc),
        decreases items@.len() - i,
    {
        proof {
            let rest = items@.subrange(i as int, items@.len() as int);
            assert(rest.drop_first() =~= items@.subrange(i + 1, items@.len() as int));
            assert(rest[0] == items@[i as int]);
        }
        match &items[i].node {
            Item::Function { name: n, return_type, visibility, .. } => {
                if str_eq(n.as_str(), name) {
                    if !visible(*visibility, sf, sc) {
                        return Err(message_error3("`", name, "` is not accessible from this module"));
                    }
                    return Ok(Export::Fn(return_dim(return_type)));
                }
            },
            Item::TypeAlias { name: n, dimension_expr, .. } => {
                if str_eq(n.as_str(), name) {
                    return match resolve(dimension_expr) {
                        Some(d) => Ok(Export::Alias(d)),
                        None => Err(message_error3("unknown unit in alias `", name, "`")),
                    };
                }
            },
            _ => {},
        }
        i = i + 1;
    }
    let mut m = String::new();
    push_str(&mut m, "no export `");
    push_str(&mut m, name);
    push_str(&mut m, "` in module `");
    push_joined(&mut m, mod_path);
    push_str(&mut m, "`");
    proof {
        assert(m@ =~= missing);
    }
    Err(AeviaError::message(m))
}

fn prefix_copy(v: &Vec<String>, n: usize) -> (r: Vec<String>)
    requires
        n <= v@.len(),
    ensures
        texts(r@) == texts(v@).subrange(0, n as int),
{
    let mut out: Vec<String> = Vec::new();
    let mut i: usize = 0;
    while i < n
        invariant
            i <= n <= v@.len(),
            texts(out@) == texts(v@).subrange(0, i as int),
        decreases n - i,
    {
        let ghost before = out@;
        let c = copy_string(&v[i]);
        out.push(c);
        proof {
            assert(out@ == before.push(c));
            assert(texts(out@) =~= texts(before).push(c@));
            assert(texts(v@).subrange(0, i + 1) =~= texts(v@).subrange(0, i as int).push(v@[i as int]@));
        }
        i = i + 1;
    }
    out
}

/// Adds the binding of `use a::b::name [as alias];` declared in `importer`.
pub fn bind_use(
    prog: &ModuleProgram,
    importer: &str,
    use_path: &Vec<String>,
    alias: &Option<String>,
    bindings: &mut ImportBindings,
) -> (r: Result<(), AeviaError>)
    requires
        old(bindings).wf(),
    ensures
        final(bindings).wf(),
        match r {
            Ok(_) => bind_use_spec(*prog, importer@, texts(use_path@), opt_text(*alias), binding_maps(*old(bindings)))
                == Ok::<(Map<Seq<char>, DimVector>, Map<Seq<char>, DimVector>), Seq<char>>(binding_maps(*final(bindings))),
            Err(e) => e is Message && bind_use_spec(*prog, importer@, texts(use_path@), opt_text(*alias), binding_maps(*old(bindings)))
                == Err::<(Map<Seq<char>, DimVector>, Map<Seq<char>, DimVector>), Seq<char>>(error_text(e)),
        },
{
    if use_path.len() == 0 {
        return Err(message_error("empty use path"));
    }
    let n = use_path.len() - 1;
    let export_name = &use_path[n];
    proof {
        assert(texts(use_path@).last() == export_name@);
    }
    if n == 0 {
        return Err(message_error3("use must import from a module path, got `", export_name.as_str(), "` alone"));
    }
    let mod_path = prefix_copy(use_path, n);
    proof {
        assert(texts(mod_path@) =~= texts(use_path@).drop_last());
    }
    let export = match resolve_export(prog, importer, &mod_path, export_name.as_str()) {
        Err(e) => return Err(e),
        Ok(x) => x,
    };
    let local: &str = match alias {
        Some(a) => a.as_str(),
        None => export_name.as_str(),
    };
    match export {
        Export::Fn(d) => bind_function(bindings, local, d),
        Export::Alias(d) => bind_alias(bindings, local, d),
    }
    Ok(())
}

/// Adds the bindings of `use a::b::*;` declared in `importer`: the visible
/// functions and constants, and every type alias, of that module.
pub fn bind_glob_use(
    prog: &ModuleProgram,
    importer: &str,
    use_path: &Vec<String>,
    bindings: &mut ImportBindings,
) -> (r: Result<(), AeviaError>)
    requires
        old(bindings).wf(),
    ensures
        final(bindings).wf(),
        match r {
            Ok(_) => bind_glob_spec(*prog, importer@, texts(use_path@), binding_maps(*old(bindings)))
                == Ok::<(Map<Seq<char>, DimVector>, Map<Seq<char>, DimVector>), Seq<char>>(binding_maps(*final(bindings))),
            Err(e) => e is Message && bind_glob_spec(*prog, importer@, texts(use_path@), binding_maps(*old(bindings)))
                == Err::<(Map<Seq<char>, DimVector>, Map<Seq<char>, DimVector>), Seq<char>>(error_text(e)),
        },
{
    if use_path.len() == 0 {
        return Err(message_error("empty use path"));
    }
    let (owner, items) = match resolve_module_items(prog, importer, use_path) {
        Err(e) => return Err(e),
        Ok(p) => p,
    };
    let sc = same_crate(&prog.crate_root, importer, owner.as_str());
    let sf = str_eq(importer, owner.as_str());
    let ghost acc0 = binding_maps(*bindings);
    let mut i: usize = 0;
    while i < items.len()
        invariant
            i <= items@.len(),
            bindings.wf(),
            binding_maps(*bindings) == glob_fold(items@.subrange(0, i as int), sf, sc, acc0),
        decreases items@.len() - i,
    {
        proof {
            let pre = items@.subrange(0, i + 1);
            assert(pre.drop_last() =~= items@.subrange(0, i as int));
            assert(pre.last() == items@[i as int]);
        }
        match &items[i].node {
            Item::Function { name, return_type, visibility, .. } => {
                if visible(*visibility, sf, sc) {
                    bind_function(bindings, name.as_str(), return_dim(return_type));
                }
            },
            Item::TypeAlias { name, dimension_expr, .. } => {
                match resolve(dimension_expr) {
                    Some(d) => bind_alias(bindings, name.as_str(), d),
                    None => {},
                }
            },
            Item::Const { name, dim, visibility, .. } => {
                if visible(*visibility, sf, sc) {
                    match dim {
                        Some(ds) => match resolve(ds) {
                            Some(d) => bind_function(bindings, name.as_str(), d),
                            None => {},
                        },
                        None => {},
                    }
                }
            },
            _ => {},
        }
        i = i + 1;
    }
    proof {
        assert(items@.subrange(0, items@.len() as int) =~= items@);
    }
    Ok(())
}

proof fn lemma_uses_fold_prefix_err(prog: ModuleProgram, importer: Seq<char>, items: Seq<Spanned<Item>>, n: int)
    requires
        0 <= n <= items.len(),
        uses_fold(prog, importer, items.subrange(0, n)) is Err,
    ensures
        uses_fold(prog, importer, items) == uses_fold(prog, importer, items.subrange(0, n)),
    decreases items.len() - n,
{
    if n < items.len() {
        let pre = items.subrange(0, n + 1);
        assert(pre.drop_last() =~= items.subrange(0, n));
        lemma_uses_fold_prefix_err(prog, importer, items, n + 1);
    } else {
        assert(items.subrange(0, n) =~= items);
    }
}

/// The import bindings of the module loaded from `path`: its `use` items
/// bound in order, the first failing one deciding the error.
pub fn resolve_imports_for(prog: &ModuleProgram, path: &str) -> (r: Result<ImportBindings, AeviaError>)
    ensures
        match r {
            Ok(b) => b.wf() && imports_spec(*prog, path@)
                == Ok::<(Map<Seq<char>, DimVector>, Map<Seq<char>, DimVector>), Seq<char>>(binding_maps(b)),
            Err(e) => e is Message && imports_spec(*prog, path@)
                == Err::<(Map<Seq<char>, DimVector>, Map<Seq<char>, DimVector>), Seq<char>>(error_text(e)),
        },
{
    let j = match find_module(&prog.modules, path) {
        None => return Err(message_error("internal module table inconsistency")),
        Some(j) => j,
    };
    let items = &prog.modules[j].ast.items;
    let mut b = ImportBindings::new();
    proof {
        lemma_empty_map();
        assert(table_view(b.functions@) =~= Seq::<(Seq<char>, DimVector)>::empty());
        assert(table_view(b.aliases@) =~= Seq::<(Seq<char>, DimVector)>::empty());
        assert(items@.subrange(0, 0) =~= Seq::<Spanned<Item>>::empty());
    }
    let mut i: usize = 0;
    while i < items.len()
        invariant
            i <= items@.len(),
            items@ == prog.modules@[j as int].ast.items@,
            module_index(prog.modules@, path@) == Some(j as int),
            b.wf(),
            uses_fold(*prog, path@, items@.subrange(0, i as int))
                == Ok::<(Map<Seq<char>, DimVector>, Map<Seq<char>, DimVector>), Seq<char>>(binding_maps(b)),
        decreases items@.len() - i,
    {
        proof {
            let pre = items@.subrange(0, i + 1);
            assert(pre.drop_last() =~= items@.subrange(0, i as int));
            assert(pre.last() == items@[i as int]);
        }
        match &items[i].node {
            Item::Use { path: use_path, alias, glob } => {
                let r = if *glob {
                    bind_glob_use(prog, path, use_path, &mut b)
                } else {
                    bind_use(prog, path, use_path, alias, &mut b)
                };
                match r {
                    Err(e) => {
                        proof {
                            lemma_uses_fold_prefix_err(*prog, path@, items@, i + 1);
                        }
                        return Err(e);
                    },
                    Ok(_) => {},
                }
            },
            _ => {},
        }
        i = i + 1;
    }
    proof {
        assert(items@.subrange(0, items@.len() as int) =~= items@);
    }
    Ok(b)
}

/// Resolves the imports of every loaded module: the program's modules keep
/// their paths and syntax trees and get the bindings of their `use` items;
/// the first module whose imports fail decides the error.
pub fn resolve_imports(prog: ModuleProgram) -> (r: Result<ModuleProgram, AeviaError>)
    ensures
        match r {
            Ok(p) => {
                &&& p.entry == prog.entry
                &&& p.crate_root == prog.crate_root
                &&& p.links == prog.links
                &&& p.modules@.len() == prog.modules@.len()
                &&& forall|i: int| 0 <= i < p.modules@.len() ==> {
                    &&& (#[trigger] p.modules@[i]).path == prog.modules@[i].path
                    &&& p.modules@[i].ast == prog.modules@[i].ast
                    &&& p.modules@[i].imports.wf()
                    &&& imports_spec(prog, prog.modules@[i].path@)
                        == Ok::<(Map<Seq<char>, DimVector>, Map<Seq<char>, DimVector>), Seq<char>>(
                            binding_maps(p.modules@[i].imports))
                }
            },
            Err(e) => e is Message && exists|i: int| 0 <= i < prog.modules@.len() && {
                &&& imports_spec(prog, (#[trigger] prog.modules@[i]).path@)
                    == Err::<(Map<Seq<char>, DimVector>, Map<Seq<char>, DimVector>), Seq<char>>(error_text(e))
                &&& forall|k: int| 0 <= k < i ==> imports_spec(prog, (#[trigger] prog.modules@[k]).path@) is Ok
            },
        },
{
    let ghost p0 = prog;
    let mut bs: Vec<ImportBindings> = Vec::new();
    let mut i: usize = 0;
    while i < prog.modules.len()
        invariant
            p0 == prog,
            i <= prog.modules@.len(),
            bs@.len() == i,
            forall|k: int| 0 <= k < i ==> {
                &&& (#[trigger] bs@[k]).wf()
                &&& imports_spec(p0, p0.modules@[k].path@)
                    == Ok::<(Map<Seq<char>, DimVector>, Map<Seq<char>, DimVector>), Seq<char>>(binding_maps(bs@[k]))
            },
        decreases prog.modules@.len() - i,
    {
        match resolve_imports_for(&prog, prog.modules[i].path.as_str()) {
            Err(e) => {
                proof {
                    assert forall|k: int| 0 <= k < i implies imports_spec(p0, (#[trigger] p0.modules@[k]).path@) is Ok by {
                        assert(bs@[k].wf());
                    }
                }
                return Err(e);
            },
            Ok(b) => bs.push(b),
        }
        i = i + 1;
    }
    let ModuleProgram { entry, crate_root, modules, links } = prog;
    let n = modules.len();
    let mut rest = modules;
    let mut out: Vec<LoadedModule> = Vec::new();
    let mut k: usize = 0;
    while k < n
        invariant
            n == p0.modules@.len(),
            k <= n,
            rest@ == p0.modules@.subrange(k as int, n as int),
            bs@.len() == n - k,
            forall|t: int| 0 <= t < n - k ==> {
                &&& (#[trigger] bs@[t]).wf()
                &&& imports_spec(p0, p0.modules@[t + k].path@)
                    == Ok::<(Map<Seq<char>, DimVector>, Map<Seq<char>, DimVector>), Seq<char>>(binding_maps(bs@[t]))
            },
            out@.len() == k,
            forall|t: int| 0 <= t < k ==> {
                &&& (#[trigger] out@[t]).path == p0.modules@[t].path
                &&& out@[t].ast == p0.modules@[t].ast
                &&& out@[t].imports.wf()
                &&& imports_spec(p0, p0.modules@[t].path@)
                    == Ok::<(Map<Seq<char>, DimVector>, Map<Seq<char>, DimVector>), Seq<char>>(binding_maps(out@[t].imports))
            },
        decreases n - k,
    {
        let ghost bs_before = bs@;
        let m = rest.remove(0);
        let b = bs.remove(0);
        proof {
            assert(m == p0.modules@[k as int]);
            assert(b == bs_before[0]);
            assert(bs_before[0].wf());
            assert forall|t: int| 0 <= t < n - k - 1 implies {
                &&& (#[trigger] bs@[t]).wf()
                &&& imports_spec(p0, p0.modules@[t + k + 1].path@)
                    == Ok::<(Map<Seq<char>, DimVector>, Map<Seq<char>, DimVector>), Seq<char>>(binding_maps(bs@[t]))
            } by {
                assert(bs@[t] == bs_before[t + 1]);
                assert(bs_before[t + 1].wf());
            }
            assert(rest@ =~= p0.modules@.subrange(k + 1, n as int));
        }
        let LoadedModule { path, ast, imports: _ } = m;
        out.push(LoadedModule { path, ast, imports: b });
        k = k + 1;
    }
    Ok(ModuleProgram { entry, crate_root, modules: out, links })
}

/// The syntax tree of the entry file.
pub fn entry_ast(program: &ModuleProgram) -> (r: &SourceFile)
    requires
        module_index(program.modules@, program.entry@) is Some,
    ensures
        *r == program.modules@[module_index(program.modules@, program.entry@)->0].ast,
{
    let j = find_module(&program.modules, program.entry.as_str());
    match j {
        Some(j) => &program.modules[j].ast,
        None => {
            proof {
                assert(false);
            }
            &program.modules[0].ast
        },
    }
}

/// The import bindings of the entry file.
pub fn entry_imports(program: &ModuleProgram) -> (r: &ImportBindings)
    requires
        module_index(program.modules@, program.entry@) is Some,
    ensures
        *r == program.modules@[module_index(program.modules@, program.entry@)->0].imports,
{
    let j = find_module(&program.modules, program.entry.as_str());
    match j {
        Some(j) => &program.modules[j].imports,
        None => {
            proof {
                assert(false);
            }
            &program.modules[0].imports
        },
    }
}

} // verus!
