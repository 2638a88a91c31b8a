//! Documentation generation from the AST: Markdown API reference and HTML pages.
use vstd::prelude::*;
use crate::ast::{Attribute, Field, Item, Param, SourceFile, Spanned, Visibility};
use crate::fmt::{dim_expr_text, expr_text, number_text, push_dim, push_expr, push_number};
use crate::text::{push_str};
use crate::doc::html::ModuleInfo;
pub use crate::fmt::format_dim;

pub mod html;

verus! {

/// Whether an item of this visibility is documented.
pub open spec fn documented(v: Visibility) -> bool {
    v == Visibility::Public || v == Visibility::Crate
}

/// `true` or `false`.
pub open spec fn bool_text(b: bool) -> Seq<char> {
    if b { "true"@ } else { "false"@ }
}

/// A doc paragraph followed by a blank line, when there is a doc.
pub open spec fn doc_para(doc: Option<String>) -> Seq<char> {
    match doc {
        Some(d) => d@ + "\n\n"@,
        None => Seq::empty(),
    }
}

/// Table rows `| `name` | `dim` |` for fields from index `i` on.
pub open spec fn md_field_rows(fs: Seq<Field>, i: int) -> Seq<char>
    decreases fs.len() - i,
{
    if i < 0 || i >= fs.len() {
        Seq::empty()
    } else {
        "| `"@ + fs[i].name@ + "` | `"@ + dim_expr_text(fs[i].dim.node) + "` |\n"@ + md_field_rows(fs, i + 1)
    }
}

/// Table rows for parameters from index `i` on.
pub open spec fn md_param_rows(ps: Seq<Param>, i: int) -> Seq<char>
    decreases ps.len() - i,
{
    if i < 0 || i >= ps.len() {
        Seq::empty()
    } else {
        "| `"@ + ps[i].name@ + "` | `"@ + dim_expr_text(ps[i].dim.node) + "` |\n"@ + md_param_rows(ps, i + 1)
    }
}

/// Attribute names from index `i` on, `#[name]`, separated by spaces.
pub open spec fn md_attrs(attrs: Seq<Attribute>, i: int) -> Seq<char>
    decreases attrs.len() - i,
{
    if i < 0 || i >= attrs.len() {
        Seq::empty()
    } else {
        (if i > 0 { " "@ } else { Seq::empty() }) + "#["@ + attrs[i].name@ + "]"@ + md_attrs(attrs, i + 1)
    }
}

/// The Markdown section of an item (empty for undocumented items).
pub open spec fn md_item(item: Item) -> Seq<char>
    decreases item, 0int,
{
    match item {
        Item::TypeAlias { name, dimension_expr, .. } =>
            "## type `"@ + name@ + "`\n\n```ae\ntype "@ + name@ + " = "@ + dim_expr_text(dimension_expr.node) + ";\n```\n\n"@,
        Item::Struct { name, fields, visibility, doc } => if !documented(visibility) {
            Seq::empty()
        } else {
            "## struct `"@ + name@ + "`\n\n"@ + doc_para(doc) + "| Field | Dimension |\n|-------|-----------|\n"@
                + md_field_rows(fields@, 0) + "\n"@
        },
        Item::Function { name, params, return_type, visibility, attributes, doc, .. } =>
            if !documented(visibility) && name@ != "main"@ {
                Seq::empty()
            } else {
                "## fn `"@ + name@ + "`\n\n"@ + doc_para(doc)
                    + (if attributes@.len() > 0 { md_attrs(attributes@, 0) + "\n\n"@ } else { Seq::empty() })
                    + "**Returns:** `"@ + (match return_type {
                        Some(r) => dim_expr_text(r.node),
                        None => "dimensionless"@,
                    }) + "`\n\n"@ + "| Parameter | Dimension |\n|-----------|-----------|\n"@ + md_param_rows(params@, 0)
                    + "\n"@
            },
        Item::CustomOp { name, param_name, input_dim, output_dim, visibility, properties, doc } =>
            if !documented(visibility) {
                Seq::empty()
            } else {
                "## op `"@ + name@ + "`\n\n```ae\nop "@ + name@ + "("@ + param_name@ + ": "@ + dim_expr_text(input_dim.node)
                    + " -> "@ + dim_expr_text(output_dim.node) + ")\n```\n\n"@ + doc_para(doc) + "- vectorizable: "@
                    + bool_text(properties.vectorizable) + "\n- cost: "@ + (match properties.cost {
                        Some(c) => number_text(c),
                        None => "default"@,
                    }) + "\n\n"@
            },
        Item::Module { name, body, visibility, doc } => if !documented(visibility) {
            Seq::empty()
        } else {
            "## mod `"@ + name@ + "`\n\n"@ + doc_para(doc) + match body {
                Some(items) => md_items(items@, 0),
                None => Seq::empty(),
            }
        },
        Item::Const { name, dim, value, visibility, doc } => if !documented(visibility) {
            Seq::empty()
        } else {
            "## const `"@ + name@ + "`\n\n"@ + doc_para(doc) + "```ae\nconst "@ + name@ + ": "@ + (match dim {
                Some(d) => dim_expr_text(d.node),
                None => "inferred"@,
            }) + " = "@ + expr_text(value.node) + ";\n```\n\n"@
        },
        Item::Use { .. } | Item::MacroDef { .. } | Item::MacroCall { .. } => Seq::empty(),
    }
}

/// The Markdown sections of the items from index `i` on.
pub open spec fn md_items(items: Seq<Spanned<Item>>, i: int) -> Seq<char>
    decreases items, items.len() - i,
{
    if i < 0 || i >= items.len() {
        Seq::empty()
    } else {
        md_item(items[i].node) + md_items(items, i + 1)
    }
}

/// The Markdown API reference of a file titled `title`.
pub open spec fn markdown_text(title: Seq<char>, file: SourceFile) -> Seq<char> {
    "# `"@ + title + "`\n\n"@ + doc_para(file.doc) + md_items(file.items@, 0)
}

fn is_public(v: Visibility) -> (r: bool)
    ensures
        r == documented(v),
{
    match v {
        Visibility::Public | Visibility::Crate => true,
        Visibility::Private => false,
    }
}

fn push_bool(out: &mut String, b: bool)
    ensures
        final(out)@ == old(out)@ + bool_text(b),
{
    if b {
        push_str(out, "true");
    } else {
        push_str(out, "false");
    }
}

fn push_doc_para(out: &mut String, doc: &Option<String>)
    ensures
        final(out)@ == old(out)@ + doc_para(*doc),
{
    match doc {
        Some(d) => {
            push_str(out, d.as_str());
            push_str(out, "\n\n");
        },
        None => {},
    }
    proof {
        assert(out@ =~= old(out)@ + doc_para(*doc));
    }
}

fn push_md_fields(out: &mut String, fs: &Vec<Field>)
    ensures
        final(out)@ == old(out)@ + md_field_rows(fs@, 0),
{
    let ghost o = out@;
    let mut i: usize = 0;
    while i < fs.len()
        invariant
            i <= fs@.len(),
            o + md_field_rows(fs@, 0) == out@ + md_field_rows(fs@, i as int),
        decreases fs@.len() - i,
    {
        let ghost before = out@;
        push_str(out, "| `");
        push_str(out, fs[i].name.as_str());
        push_str(out, "` | `");
        push_dim(out, &fs[i].dim.node);
        push_str(out, "` |\n");
        proof {
            assert(before + md_field_rows(fs@, i as int) =~= out@ + md_field_rows(fs@, i + 1));
        }
        i = i + 1;
    }
    proof {
        assert(out@ + md_field_rows(fs@, i as int) =~= out@);
    }
}

fn push_md_params(out: &mut String, ps: &Vec<Param>)
    ensures
        final(out)@ == old(out)@ + md_param_rows(ps@, 0),
{
    let ghost o = out@;
    let mut i: usize = 0;
    while i < ps.len()
        invariant
            i <= ps@.len(),
            o + md_param_rows(ps@, 0) == out@ + md_param_rows(ps@, i as int),
        decreases ps@.len() - i,
    {
        let ghost before = out@;
        push_str(out, "| `");
        push_str(out, ps[i].name.as_str());
        push_str(out, "` | `");
        push_dim(out, &ps[i].dim.node);
        push_str(out, "` |\n");
        proof {
            assert(before + md_param_rows(ps@, i as int) =~= out@ + md_param_rows(ps@, i + 1));
        }
        i = i + 1;
    }
    proof {
        assert(out@ + md_param_rows(ps@, i as int) =~= out@);
    }
}

fn push_md_attrs(out: &mut String, attrs: &Vec<Attribute>)
    ensures
        final(out)@ == old(out)@ + md_attrs(attrs@, 0),
{
    let ghost o = out@;
    let mut i: usize = 0;
    while i < attrs.len()
        invariant
            i <= attrs@.len(),
            o + md_attrs(attrs@, 0) == out@ + md_attrs(attrs@, i as int),
        decreases attrs@.len() - i,
    {
        let ghost before = out@;
        if i > 0 {
            push_str(out, " ");
        }
        push_str(out, "#[");
        push_str(out, attrs[i].name.as_str());
        push_str(out, "]");
        proof {
            let sep: Seq<char> = if i > 0 { " "@ } else { Seq::empty() };
            assert(out@ =~= before + sep + "#["@ + attrs@[i as int].name@ + "]"@);
            assert(before + md_attrs(attrs@, i as int) =~= out@ + md_attrs(attrs@, i + 1));
        }
        i = i + 1;
    }
    proof {
        assert(out@ + md_attrs(attrs@, i as int) =~= out@);
    }
}

fn md_alias(out: &mut String, item: &Item)
    requires
        item is TypeAlias,
    ensures
        final(out)@ == old(out)@ + md_item(*item),
{
    let ghost o = out@;
    match item {
        Item::TypeAlias { name, dimension_expr, .. } => {
            push_str(out, "## type `");
            push_str(out, name.as_str());
            push_str(out, "`\n\n```ae\ntype ");
            push_str(out, name.as_str());
            push_str(out, " = ");
            push_dim(out, &dimension_expr.node);
            push_str(out, ";\n```\n\n");
        },
        _ => {},
    }
    proof {
        assert(out@ =~= o + md_item(*item));
    }
}

fn md_struct(out: &mut String, item: &Item)
    requires
        item is Struct,
    ensures
        final(out)@ == old(out)@ + md_item(*item),
{
    let ghost o = out@;
    match item {
        Item::Struct { name, fields, visibility, doc } => {
            if is_public(*visibility) {
                push_str(out, "## struct `");
                push_str(out, name.as_str());
                push_str(out, "`\n\n");
                push_doc_para(out, doc);
                push_str(out, "| Field | Dimension |\n|-------|-----------|\n");
                push_md_fields(out, fields);
                push_str(out, "\n");
            }
        },
        _ => {},
    }
    proof {
        assert(out@ =~= o + md_item(*item));
    }
}

fn md_fn(out: &mut String, item: &Item)
    requires
        item is Function,
    ensures
        final(out)@ == old(out)@ + md_item(*item),
{
    let ghost o = out@;
    match item {
        Item::Function { name, params, return_type, visibility, attributes, doc, .. } => {
            if is_public(*visibility) || crate::text::str_eq(name.as_str(), "main") {
                push_str(out, "## fn `");
                push_str(out, name.as_str());
                push_str(out, "`\n\n");
                push_doc_para(out, doc);
                let ghost a0 = out@;
                if attributes.len() > 0 {
                    push_md_attrs(out, attributes);
                    push_str(out, "\n\n");
                }
                let ghost a1 = out@;
                proof {
                    assert(a1 =~= a0 + (if attributes@.len() > 0 { md_attrs(attributes@, 0) + "\n\n"@ } else { Seq::empty() }));
                }
                push_str(out, "**Returns:** `");
                match return_type {
                    Some(r) => push_dim(out, &r.node),
                    None => push_str(out, "dimensionless"),
                }
                push_str(out, "`\n\n");
                push_str(out, "| Parameter | Dimension |\n|-----------|-----------|\n");
                push_md_params(out, params);
                push_str(out, "\n");
            }
        },
        _ => {},
    }
    proof {
        assert(out@ =~= o + md_item(*item));
    }
}

fn md_op(out: &mut String, item: &Item)
    requires
        item is CustomOp,
    ensures
        final(out)@ == old(out)@ + md_item(*item),
{
    let ghost o = out@;
    match item {
        Item::CustomOp { name, param_name, input_dim, output_dim, visibility, properties, doc } => {
            if is_public(*visibility) {
                push_str(out, "## op `");
                push_str(out, name.as_str());
                push_str(out, "`\n\n```ae\nop ");
                push_str(out, name.as_str());
                push_str(out, "(");
                push_str(out, param_name.as_str());
                push_str(out, ": ");
                push_dim(out, &input_dim.node);
                push_str(out, " -> ");
                push_dim(out, &output_dim.node);
                push_str(out, ")\n```\n\n");
                push_doc_para(out, doc);
                push_str(out, "- vectorizable: ");
                push_bool(out, properties.vectorizable);
                push_str(out, "\n- cost: ");
                match properties.cost {
                    Some(c) => push_number(out, c),
                    None => push_str(out, "default"),
                }
                push_str(out, "\n\n");
            }
        },
        _ => {},
    }
    proof {
        assert(out@ =~= o + md_item(*item));
    }
}

fn md_mod(out: &mut String, item: &Item)
    requires
        item is Module,
    ensures
        final(out)@ == old(out)@ + md_item(*item),
    decreases item, 0int,
{
    let ghost o = out@;
    match item {
        Item::Module { name, body, visibility, doc } => {
            if is_public(*visibility) {
                push_str(out, "## mod `");
                push_str(out, name.as_str());
                push_str(out, "`\n\n");
                push_doc_para(out, doc);
                match body {
                    Some(items) => push_md_items(out, items),
                    None => {},
                }
            }
        },
        _ => {},
    }
    proof {
        assert(out@ =~= o + md_item(*item));
    }
}

fn md_const(out: &mut String, item: &Item)
    requires
        item is Const,
    ensures
        final(out)@ == old(out)@ + md_item(*item),
{
    let ghost o = out@;
    match item {
        Item::Const { name, dim, value, visibility, doc } => {
            if is_public(*visibility) {
                push_str(out, "## const `");
                push_str(out, name.as_str());
                push_str(out, "`\n\n");
                push_doc_para(out, doc);
                push_str(out, "```ae\nconst ");
                push_str(out, name.as_str());
                push_str(out, ": ");
                match dim {
                    Some(d) => push_dim(out, &d.node),
                    None => push_str(out, "inferred"),
                }
                push_str(out, " = ");
                push_expr(out, value);
                push_str(out, ";\n```\n\n");
            }
        },
        _ => {},
    }
    proof {
        assert(out@ =~= o + md_item(*item));
    }
}

/// Appends the Markdown section of an item.
fn push_md_item(out: &mut String, item: &Item)
    ensures
        final(out)@ == old(out)@ + md_item(*item),
    decreases item, 1int,
{
    match item {
        Item::TypeAlias { .. } => md_alias(out, item),
        Item::Struct { .. } => md_struct(out, item),
        Item::Function { .. } => md_fn(out, item),
        Item::CustomOp { .. } => md_op(out, item),
        Item::Module { .. } => md_mod(out, item),
        Item::Const { .. } => md_const(out, item),
        Item::Use { .. } | Item::MacroDef { .. } | Item::MacroCall { .. } => {
            proof {
                assert(out@ =~= old(out)@ + md_item(*item));
            }
        },
    }
}

fn push_md_items(out: &mut String, items: &Vec<Spanned<Item>>)
    ensures
        final(out)@ == old(out)@ + md_items(items@, 0),
    decreases items, 0int,
{
    let ghost o = out@;
    let mut i: usize = 0;
    while i < items.len()
        invariant
            i <= items@.len(),
            o + md_items(items@, 0) == out@ + md_items(items@, i as int),
        decreases items@.len() - i,
    {
        let ghost before = out@;
        proof {
            assert(decreases_to!(*items => items@));
            assert(decreases_to!(items@ => items@[i as int]));
        }
        push_md_item(out, &items[i].node);
        proof {
            assert(before + md_items(items@, i as int) =~= out@ + md_items(items@, i + 1));
        }
        i = i + 1;
    }
    proof {
        assert(out@ + md_items(items@, i as int) =~= out@);
    }
}

/// The file name of `path` without its extension (`Path::file_stem`), when
/// it has one that is valid text.
pub uninterp spec fn spec_file_stem(path: Seq<char>) -> Option<Seq<char>>;

/// The file stem of a path.
///
/// Trusted wrapper of `std::path::Path::file_stem`: the result is the named
/// stem of `path`, as text.
#[verifier::external_body]
pub fn file_stem(path: &str) -> (r: Option<String>)
    ensures
        match r {
            Some(s) => spec_file_stem(path@) == Some(s@),
            None => spec_file_stem(path@) is None,
        },
{
    std::path::Path::new(path).file_stem().and_then(|s| s.to_str()).map(|s| s.to_string())
}

/// The title of a page for a file: its stem, or `fallback` when it has none.
pub open spec fn title_of(path: Seq<char>, fallback: Seq<char>) -> Seq<char> {
    match spec_file_stem(path) {
        Some(s) => s,
        None => fallback,
    }
}

/// The page title of `path`, `fallback` when it has no file stem.
pub fn page_title(path: &str, fallback: &str) -> (t: String)
    ensures
        t@ == title_of(path@, fallback@),
{
    match file_stem(path) {
        Some(s) => s,
        None => {
            let mut t = String::new();
            push_str(&mut t, fallback);
            t
        },
    }
}

/// Render a file as a Markdown API reference titled by the file's stem:
/// a heading, the module doc, then a section per documented item (public
/// and crate-visible items, and `main`; type aliases always).
pub fn render_markdown(path: &str, file: &SourceFile) -> (s: String)
    ensures
        s@ == markdown_text(title_of(path@, "module"@), *file),
{
    let title = page_title(path, "module");
    let mut out = String::new();
    push_str(&mut out, "# `");
    push_str(&mut out, title.as_str());
    push_str(&mut out, "`\n\n");
    push_doc_para(&mut out, &file.doc);
    push_md_items(&mut out, &file.items);
    proof {
        assert(out@ =~= markdown_text(title_of(path@, "module"@), *file));
    }
    out
}

/// A module's page: its name and the file of its page.
pub open spec fn info_of(name: Seq<char>) -> (Seq<char>, Seq<char>) {
    (name, name + ".html"@)
}

/// Model of a list of module pages.
pub open spec fn infos_view(v: Seq<ModuleInfo>) -> Seq<(Seq<char>, Seq<char>)> {
    v.map_values(|m: ModuleInfo| (m.name@, m.html_filename@))
}

/// The pages of an HTML documentation set: one per loaded module, named by
/// its file stem, then the entry's page when no module has its name.
pub open spec fn doc_modules_spec(paths: Seq<Seq<char>>, entry: Seq<char>) -> Seq<(Seq<char>, Seq<char>)> {
    let base = paths.map_values(|p: Seq<char>| info_of(title_of(p, "module"@)));
    let en = title_of(entry, "main"@);
    if exists|i: int| 0 <= i < base.len() && (#[trigger] base[i]).0 == en {
        base
    } else {
        base.push(info_of(en))
    }
}

fn module_info(name: String) -> (m: ModuleInfo)
    ensures
        (m.name@, m.html_filename@) == info_of(name@),
{
    let mut f = String::new();
    push_str(&mut f, name.as_str());
    push_str(&mut f, ".html");
    ModuleInfo { name, html_filename: f }
}

/// The pages of the documentation of the modules at `paths` with entry file
/// `entry` (see [`doc_modules_spec`]).
pub fn doc_modules(paths: &Vec<String>, entry: &str) -> (r: Vec<ModuleInfo>)
    ensures
        infos_view(r@) == doc_modules_spec(paths@.map_values(|p: String| p@), entry@),
{
    let ghost ps = paths@.map_values(|p: String| p@);
    let ghost base = ps.map_values(|p: Seq<char>| info_of(title_of(p, "module"@)));
    let mut out: Vec<ModuleInfo> = Vec::new();
    let mut i: usize = 0;
    while i < paths.len()
        invariant
            i <= paths@.len(),
            ps == paths@.map_values(|p: String| p@),
            base == ps.map_values(|p: Seq<char>| info_of(title_of(p, "module"@))),
            infos_view(out@) == base.subrange(0, i as int),
        decreases paths@.len() - i,
    {
        let ghost before = out@;
        let m = module_info(page_title(paths[i].as_str(), "module"));
        out.push(m);
        proof {
            assert(infos_view(out@) =~= infos_view(before).push((m.name@, m.html_filename@)));
            assert(base.subrange(0, i + 1) =~= base.subrange(0, i as int).push(base[i as int]));
        }
        i = i + 1;
    }
    proof {
        assert(base.subrange(0, base.len() as int) =~= base);
    }
    let entry_name = page_title(entry, "main");
    let mut k: usize = 0;
    while k < out.len()
        invariant
            k <= out@.len(),
            infos_view(out@) == base,
            ps == paths@.map_values(|p: String| p@),
            base == ps.map_values(|p: Seq<char>| info_of(title_of(p, "module"@))),
            entry_name@ == title_of(entry@, "main"@),
            forall|j: int| 0 <= j < k ==> (#[trigger] base[j]).0 != entry_name@,
        decreases out@.len() - k,
    {
        proof {
            assert(infos_view(out@)[k as int] == (out@[k as int].name@, out@[k as int].html_filename@));
        }
        if crate::text::str_eq(out[k].name.as_str(), entry_name.as_str()) {
            proof {
                assert(base[k as int].0 == entry_name@);
                assert(exists|i: int| 0 <= i < base.len() && (#[trigger] base[i]).0 == title_of(entry@, "main"@));
            }
            return out;
        }
        k = k + 1;
    }
    let ghost before = out@;
    let m = module_info(entry_name);
    out.push(m);
    proof {
        assert(infos_view(out@) =~= infos_view(before).push((m.name@, m.html_filename@)));
    }
    out
}

} // verus!
