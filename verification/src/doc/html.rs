//! HTML documentation: styled pages with a navigation sidebar.
use vstd::prelude::*;
use crate::ast::{Attribute, Field, Item, Param, SourceFile, Spanned, Visibility};
use crate::doc::{bool_text, documented, page_title, title_of};
use crate::fmt::{dim_expr_text, expr_text, number_text, push_dim, push_expr, push_number};
use crate::text::{chars_of, push_char, push_str, str_eq};

verus! {

/// Embedded CSS stylesheet for generated HTML docs.
pub const STYLESHEET: &'static str = r#"
:root {
    --sidebar-width: 240px;
    --sidebar-bg: #1e293b;
    --sidebar-fg: #e2e8f0;
    --sidebar-link: #93c5fd;
    --sidebar-link-hover: #bfdbfe;
    --accent: #3b82f6;
    --accent-dark: #1d4ed8;
    --code-bg: #f1f5f9;
    --border: #e2e8f0;
    --text: #1e293b;
    --text-muted: #64748b;
    --bg: #ffffff;
}

* { margin: 0; padding: 0; box-sizing: border-box; }

body {
    font-family: -apple-system, BlinkMacSystemFont, "Segoe UI", Roboto, "Helvetica Neue", Arial, sans-serif;
    color: var(--text);
    background: var(--bg);
    line-height: 1.6;
}

nav {
    position: fixed;
    top: 0; left: 0;
    width: var(--sidebar-width);
    height: 100vh;
    background: var(--sidebar-bg);
    color: var(--sidebar-fg);
    overflow-y: auto;
    padding: 1.5rem 1rem;
}

nav h2 {
    font-size: 0.85rem;
    text-transform: uppercase;
    letter-spacing: 0.05em;
    color: var(--text-muted);
    margin-bottom: 0.75rem;
    padding-bottom: 0.5rem;
    border-bottom: 1px solid #334155;
}

nav ul { list-style: none; }

nav li { margin-bottom: 0.25rem; }

nav a {
    color: var(--sidebar-link);
    text-decoration: none;
    font-size: 0.9rem;
    display: block;
    padding: 0.25rem 0.5rem;
    border-radius: 4px;
}

nav a:hover {
    color: var(--sidebar-link-hover);
    background: rgba(255,255,255,0.05);
}

nav a.active {
    background: rgba(59,130,246,0.15);
    color: #fff;
    font-weight: 600;
}

main {
    margin-left: var(--sidebar-width);
    padding: 2rem 3rem;
    max-width: 960px;
}

h1 {
    font-size: 2rem;
    color: var(--accent-dark);
    margin-bottom: 0.5rem;
    padding-bottom: 0.5rem;
    border-bottom: 2px solid var(--accent);
}

.module-doc {
    font-size: 1.05rem;
    color: var(--text-muted);
    margin-bottom: 2rem;
    white-space: pre-line;
}

section {
    margin-bottom: 2.5rem;
    padding-top: 1rem;
}

section h2 {
    font-size: 1.4rem;
    margin-bottom: 0.75rem;
}

section h2 .kind {
    font-weight: 400;
    color: var(--text-muted);
    font-size: 0.9rem;
    margin-right: 0.35rem;
}

section h2 .name {
    color: var(--accent-dark);
    font-family: "SFMono-Regular", Consolas, "Liberation Mono", Menlo, monospace;
}

.doc-text {
    color: var(--text-muted);
    margin-bottom: 0.75rem;
    white-space: pre-line;
}

pre {
    background: var(--code-bg);
    border: 1px solid var(--border);
    border-radius: 6px;
    padding: 0.75rem 1rem;
    overflow-x: auto;
    font-family: "SFMono-Regular", Consolas, "Liberation Mono", Menlo, monospace;
    font-size: 0.875rem;
    line-height: 1.5;
    margin-bottom: 0.75rem;
}

code {
    font-family: "SFMono-Regular", Consolas, "Liberation Mono", Menlo, monospace;
    font-size: 0.875em;
    background: var(--code-bg);
    padding: 0.1em 0.3em;
    border-radius: 3px;
}

pre code {
    background: none;
    padding: 0;
}

table {
    width: 100%;
    border-collapse: collapse;
    margin-bottom: 0.75rem;
}

th {
    text-align: left;
    font-size: 0.8rem;
    text-transform: uppercase;
    letter-spacing: 0.04em;
    color: var(--text-muted);
    padding: 0.5rem 0.75rem;
    border-bottom: 2px solid var(--border);
}

td {
    padding: 0.5rem 0.75rem;
    border-bottom: 1px solid var(--border);
}

td code {
    font-size: 0.85rem;
}

.returns {
    font-size: 0.95rem;
    margin-bottom: 0.75rem;
}

.returns strong { color: var(--text); }

.properties {
    list-style: none;
    padding: 0;
}

.properties li {
    padding: 0.25rem 0;
    font-size: 0.9rem;
}

.properties li::before {
    content: "•";
    color: var(--accent);
    font-weight: bold;
    margin-right: 0.5rem;
}

.attributes {
    margin-bottom: 0.5rem;
}

.attributes span {
    display: inline-block;
    background: var(--code-bg);
    border: 1px solid var(--border);
    border-radius: 4px;
    padding: 0.1rem 0.4rem;
    font-size: 0.8rem;
    font-family: monospace;
    margin-right: 0.25rem;
}

.index-list {
    list-style: none;
    padding: 0;
}

.index-list li {
    padding: 0.5rem 0;
    border-bottom: 1px solid var(--border);
}

.index-list a {
    color: var(--accent);
    text-decoration: none;
    font-weight: 500;
    font-size: 1.05rem;
}

.index-list a:hover { text-decoration: underline; }

.index-list .desc {
    display: block;
    color: var(--text-muted);
    font-size: 0.9rem;
    margin-top: 0.15rem;
}

@media print {
    nav { display: none; }
    main { margin-left: 0; max-width: 100%; }
}

@media (max-width: 768px) {
    nav { position: static; width: 100%; height: auto; }
    main { margin-left: 0; padding: 1.5rem; }
}
"#;

/// A module's name and the file its page is written to, for cross-links.
#[derive(Debug, Clone)]
pub struct ModuleInfo {
    pub name: String,
    pub html_filename: String,
}

/// The HTML escape of one character.
pub open spec fn esc_char(c: char) -> Seq<char> {
    if c == '&' {
        "&amp;"@
    } else if c == '<' {
        "&lt;"@
    } else if c == '>' {
        "&gt;"@
    } else if c == '"' {
        "&quot;"@
    } else {
        seq![c]
    }
}

/// `s` with `&`, `<`, `>` and `"` replaced by their HTML entities.
pub open spec fn escape(s: Seq<char>) -> Seq<char>
    decreases s.len(),
{
    if s.len() == 0 { Seq::empty() } else { escape(s.drop_last()) + esc_char(s.last()) }
}

/// The document head with the given title, and the opening `<body>`.
pub open spec fn head_text(title: Seq<char>) -> Seq<char> {
    "<!DOCTYPE html>\n<html lang=\"en\">\n<head>\n<meta charset=\"utf-8\">\n"@
        + "<meta name=\"viewport\" content=\"width=device-width, initial-scale=1\">\n"@ + "<title>"@ + title
        + "</title>\n<link rel=\"stylesheet\" href=\"style.css\">\n</head>\n<body>\n"@
}

/// ` class="active"` when `on`.
pub open spec fn active_attr(on: bool) -> Seq<char> {
    if on { " class=\"active\""@ } else { Seq::empty() }
}

/// Sidebar links for the modules from index `i` on.
pub open spec fn sidebar_links(active: Seq<char>, ms: Seq<ModuleInfo>, i: int) -> Seq<char>
    decreases ms.len() - i,
{
    if i < 0 || i >= ms.len() {
        Seq::empty()
    } else {
        "<li><a href=\""@ + ms[i].html_filename@ + "\""@ + active_attr(ms[i].name@ == active) + ">"@
            + escape(ms[i].name@) + "</a></li>\n"@ + sidebar_links(active, ms, i + 1)
    }
}

/// The navigation sidebar, marking the module named `active`.
pub open spec fn sidebar_text(active: Seq<char>, ms: Seq<ModuleInfo>) -> Seq<char> {
    "<nav>\n<h2>Modules</h2>\n<ul>\n"@ + "<li><a href=\"index.html\""@ + active_attr(active == "index"@)
        + ">Index</a></li>\n"@ + sidebar_links(active, ms, 0) + "</ul>\n</nav>\n"@
}

/// Index list entries for the modules from index `i` on.
pub open spec fn index_links(ms: Seq<ModuleInfo>, i: int) -> Seq<char>
    decreases ms.len() - i,
{
    if i < 0 || i >= ms.len() {
        Seq::empty()
    } else {
        "<li><a href=\""@ + ms[i].html_filename@ + "\">"@ + escape(ms[i].name@) + "</a></li>\n"@ + index_links(ms, i + 1)
    }
}

/// The index page listing all modules.
pub open spec fn index_text(ms: Seq<ModuleInfo>) -> Seq<char> {
    head_text("Aevia Documentation"@) + sidebar_text("index"@, ms)
        + "<main>\n<h1>Aevia Documentation</h1>\n<ul class=\"index-list\">\n"@ + index_links(ms, 0)
        + "</ul>\n</main>\n</body>\n</html>\n"@
}

/// An item's doc paragraph, when it has a doc.
pub open spec fn doc_html(doc: Option<String>) -> Seq<char> {
    match doc {
        Some(d) => "<p class=\"doc-text\">"@ + escape(d@) + "</p>\n"@,
        None => Seq::empty(),
    }
}

/// A section heading `kind name`.
pub open spec fn heading(kind: Seq<char>, name: Seq<char>) -> Seq<char> {
    "<section id=\""@ + kind + "-"@ + name + "\">\n<h2><span class=\"kind\">"@ + kind
        + "</span> <span class=\"name\">"@ + name + "</span></h2>\n"@
}

/// A two-column table row of code cells.
pub open spec fn code_row(a: Seq<char>, b: Seq<char>) -> Seq<char> {
    "<tr><td><code>"@ + a + "</code></td><td><code>"@ + b + "</code></td></tr>\n"@
}

/// Field rows from index `i` on.
pub open spec fn html_field_rows(fs: Seq<Field>, i: int) -> Seq<char>
    decreases fs.len() - i,
{
    if i < 0 || i >= fs.len() {
        Seq::empty()
    } else {
        code_row(escape(fs[i].name@), dim_expr_text(fs[i].dim.node)) + html_field_rows(fs, i + 1)
    }
}

/// Parameter rows from index `i` on.
pub open spec fn html_param_rows(ps: Seq<Param>, i: int) -> Seq<char>
    decreases ps.len() - i,
{
    if i < 0 || i >= ps.len() {
        Seq::empty()
    } else {
        code_row(escape(ps[i].name@), dim_expr_text(ps[i].dim.node)) + html_param_rows(ps, i + 1)
    }
}

/// Signature parameters from index `i` on, `[mut ]name: dim`, separated by `, `.
pub open spec fn sig_params(ps: Seq<Param>, i: int) -> Seq<char>
    decreases ps.len() - i,
{
    if i < 0 || i >= ps.len() {
        Seq::empty()
    } else {
        (if i > 0 { ", "@ } else { Seq::empty() }) + (if ps[i].is_mut { "mut "@ } else { Seq::empty() })
            + ps[i].name@ + ": "@ + dim_expr_text(ps[i].dim.node) + sig_params(ps, i + 1)
    }
}

/// Attribute badges from index `i` on.
pub open spec fn attr_badges(attrs: Seq<Attribute>, i: int) -> Seq<char>
    decreases attrs.len() - i,
{
    if i < 0 || i >= attrs.len() {
        Seq::empty()
    } else {
        "<span>#["@ + escape(attrs[i].name@) + "]</span>"@ + attr_badges(attrs, i + 1)
    }
}

/// The attribute badges of a function, when it has attributes.
pub open spec fn fn_attrs_html(attrs: Seq<Attribute>) -> Seq<char> {
    if attrs.len() > 0 { "<div class=\"attributes\">"@ + attr_badges(attrs, 0) + "</div>\n"@ } else { Seq::empty() }
}

/// The signature block of a function.
pub open spec fn fn_sig_html(name: Seq<char>, params: Seq<Param>, ret: Option<Spanned<crate::ast::DimExpr>>) -> Seq<char> {
    "<pre><code>fn "@ + escape(name) + "("@ + sig_params(params, 0) + ")"@
        + (match ret { Some(r) => " -&gt; "@ + dim_expr_text(r.node), None => Seq::empty() }) + " </code></pre>\n"@
}

/// The return-dimension line of a function.
pub open spec fn fn_returns_html(ret: Option<Spanned<crate::ast::DimExpr>>) -> Seq<char> {
    "<p class=\"returns\"><strong>Returns:</strong> <code>"@
        + (match ret { Some(r) => dim_expr_text(r.node), None => "dimensionless"@ }) + "</code></p>\n"@
}

/// The parameter table of a function, when it has parameters.
pub open spec fn fn_params_html(params: Seq<Param>) -> Seq<char> {
    if params.len() > 0 {
        "<table>\n<thead><tr><th>Parameter</th><th>Dimension</th></tr></thead>\n<tbody>\n"@ + html_param_rows(params, 0)
            + "</tbody></table>\n"@
    } else {
        Seq::empty()
    }
}

/// The signature block of a custom op.
pub open spec fn op_sig_html(name: Seq<char>, param: Seq<char>, input: crate::ast::DimExpr, output: crate::ast::DimExpr) -> Seq<char> {
    "<pre><code>op "@ + escape(name) + "("@ + escape(param) + ": "@ + dim_expr_text(input) + " -&gt; "@
        + dim_expr_text(output) + ")</code></pre>\n"@
}

/// One property line `<li>label: <code>value</code></li>`.
pub open spec fn prop_line(label: Seq<char>, value: Seq<char>) -> Seq<char> {
    "<li>"@ + label + ": <code>"@ + value + "</code></li>\n"@
}

/// The property list of a custom op.
pub open spec fn op_props_html(p: crate::ast::OpProperties) -> Seq<char> {
    "<ul class=\"properties\">\n"@ + prop_line("vectorizable"@, bool_text(p.vectorizable))
        + prop_line("commutative"@, bool_text(p.commutative)) + prop_line("associative"@, bool_text(p.associative))
        + prop_line("cost"@, match p.cost { Some(c) => number_text(c), None => "default"@ }) + "</ul>\n"@
}

/// The HTML section of an item (empty for undocumented items).
pub open spec fn html_item(item: Item) -> Seq<char>
    decreases item, 0int,
{
    match item {
        Item::TypeAlias { name, dimension_expr, doc } => heading("type"@, name@) + doc_html(doc)
            + "<pre><code>type "@ + name@ + " = "@ + dim_expr_text(dimension_expr.node) + ";</code></pre>\n</section>\n"@,
        Item::Struct { name, fields, visibility, doc } => if !documented(visibility) {
            Seq::empty()
        } else {
            heading("struct"@, name@) + doc_html(doc)
                + "<table>\n<thead><tr><th>Field</th><th>Dimension</th></tr></thead>\n<tbody>\n"@
                + html_field_rows(fields@, 0) + "</tbody></table>\n</section>\n"@
        },
        Item::Function { name, params, return_type, visibility, attributes, doc, .. } =>
            if !documented(visibility) && name@ != "main"@ {
                Seq::empty()
            } else {
                heading("fn"@, name@) + doc_html(doc) + fn_attrs_html(attributes@) + fn_sig_html(name@, params@, return_type)
                    + fn_returns_html(return_type) + fn_params_html(params@) + "</section>\n"@
            },
        Item::CustomOp { name, param_name, input_dim, output_dim, visibility, properties, doc } =>
            if !documented(visibility) {
                Seq::empty()
            } else {
                heading("op"@, name@) + doc_html(doc) + op_sig_html(name@, param_name@, input_dim.node, output_dim.node)
                    + op_props_html(properties) + "</section>\n"@
            },
        Item::Module { name, body, visibility, doc } => if !documented(visibility) {
            Seq::empty()
        } else {
            heading("mod"@, name@) + doc_html(doc) + (match body {
                Some(items) => html_items(items@, 0),
                None => Seq::empty(),
            }) + "</section>\n"@
        },
        Item::Const { name, dim, value, visibility, doc } => if !documented(visibility) {
            Seq::empty()
        } else {
            heading("const"@, name@) + doc_html(doc) + "<pre><code>const "@ + escape(name@) + ": "@
                + (match dim { Some(d) => dim_expr_text(d.node), None => "inferred"@ })
                + " = "@ + expr_text(value.node) + ";</code></pre>\n</section>\n"@
        },
        Item::Use { .. } | Item::MacroDef { .. } | Item::MacroCall { .. } => Seq::empty(),
    }
}

/// The HTML sections of the items from index `i` on.
pub open spec fn html_items(items: Seq<Spanned<Item>>, i: int) -> Seq<char>
    decreases items, items.len() - i,
{
    if i < 0 || i >= items.len() {
        Seq::empty()
    } else {
        html_item(items[i].node) + html_items(items, i + 1)
    }
}

/// The page of a file titled `title`.
pub open spec fn page_text(title: Seq<char>, file: SourceFile, ms: Seq<ModuleInfo>) -> Seq<char> {
    head_text(title + " - Aevia Docs"@) + sidebar_text(title, ms) + "<main>\n<h1><code>"@ + title
        + "</code></h1>\n"@ + (match file.doc {
            Some(d) => "<p class=\"module-doc\">"@ + escape(d@) + "</p>\n"@,
            None => Seq::empty(),
        }) + html_items(file.items@, 0) + "</main>\n</body>\n</html>\n"@
}


fn is_documented(v: Visibility) -> (r: bool)
    ensures
        r == documented(v),
{
    match v {
        Visibility::Public | Visibility::Crate => true,
        Visibility::Private => false,
    }
}

fn push_bool_text(out: &mut String, b: bool)
    ensures
        final(out)@ == old(out)@ + bool_text(b),
{
    if b {
        push_str(out, "true");
    } else {
        push_str(out, "false");
    }
}

/// Appends `s` with its HTML special characters escaped.
pub fn push_escaped(out: &mut String, s: &str)
    ensures
        final(out)@ == old(out)@ + escape(s@),
{
    let t = chars_of(s);
    let ghost o = out@;
    let mut i: usize = 0;
    while i < t.len()
        invariant
            i <= t@.len(),
            t@ == s@,
            out@ == o + escape(t@.subrange(0, i as int)),
        decreases t@.len() - i,
    {
        let c = t[i];
        if c == '&' {
            push_str(out, "&amp;");
        } else if c == '<' {
            push_str(out, "&lt;");
        } else if c == '>' {
            push_str(out, "&gt;");
        } else if c == '"' {
            push_str(out, "&quot;");
        } else {
            push_char(out, c);
        }
        proof {
            let sub = t@.subrange(0, i + 1);
            assert(sub.drop_last() =~= t@.subrange(0, i as int));
            assert(sub.last() == c);
            assert(out@ =~= o + escape(sub));
        }
        i = i + 1;
    }
    proof {
        assert(t@.subrange(0, t@.len() as int) =~= t@);
    }
}

/// `s` with `&`, `<`, `>` and `"` replaced by their HTML entities.
pub fn escape_html(s: &str) -> (r: String)
    ensures
        r@ == escape(s@),
{
    let mut r = String::new();
    push_escaped(&mut r, s);
    proof {
        assert(r@ =~= escape(s@));
    }
    r
}

fn push_head(out: &mut String, title: &str)
    ensures
        final(out)@ == old(out)@ + head_text(title@),
{
    let ghost o = out@;
    push_str(out, "<!DOCTYPE html>\n<html lang=\"en\">\n<head>\n<meta charset=\"utf-8\">\n");
    push_str(out, "<meta name=\"viewport\" content=\"width=device-width, initial-scale=1\">\n");
    push_str(out, "<title>");
    push_str(out, title);
    push_str(out, "</title>\n<link rel=\"stylesheet\" href=\"style.css\">\n</head>\n<body>\n");
    proof {
        assert(out@ =~= o + head_text(title@));
    }
}

fn push_sidebar(out: &mut String, active: &str, modules: &Vec<ModuleInfo>)
    ensures
        final(out)@ == old(out)@ + sidebar_text(active@, modules@),
{
    let ghost o = out@;
    push_str(out, "<nav>\n<h2>Modules</h2>\n<ul>\n");
    push_str(out, "<li><a href=\"index.html\"");
    if str_eq(active, "index") {
        push_str(out, " class=\"active\"");
    }
    push_str(out, ">Index</a></li>\n");
    let ghost o1 = out@;
    proof {
        assert(o1 =~= o + "<nav>\n<h2>Modules</h2>\n<ul>\n"@ + "<li><a href=\"index.html\""@ + active_attr(active@ == "index"@)
            + ">Index</a></li>\n"@);
    }
    let mut i: usize = 0;
    while i < modules.len()
        invariant
            i <= modules@.len(),
            o1 + sidebar_links(active@, modules@, 0) == out@ + sidebar_links(active@, modules@, i as int),
        decreases modules@.len() - i,
    {
        let ghost before = out@;
        push_str(out, "<li><a href=\"");
        push_str(out, modules[i].html_filename.as_str());
        push_str(out, "\"");
        if str_eq(modules[i].name.as_str(), active) {
            push_str(out, " class=\"active\"");
        }
        push_str(out, ">");
        push_escaped(out, modules[i].name.as_str());
        push_str(out, "</a></li>\n");
        proof {
            assert(before + sidebar_links(active@, modules@, i as int) =~= out@ + sidebar_links(active@, modules@, i + 1));
        }
        i = i + 1;
    }
    proof {
        assert(out@ + sidebar_links(active@, modules@, i as int) =~= out@);
    }
    push_str(out, "</ul>\n</nav>\n");
    proof {
        assert(out@ =~= o + sidebar_text(active@, modules@));
    }
}

/// Render the index page listing all modules.
pub fn render_html_index(modules: &Vec<ModuleInfo>) -> (s: String)
    ensures
        s@ == index_text(modules@),
{
    let mut out = String::new();
    push_head(&mut out, "Aevia Documentation");
    push_sidebar(&mut out, "index", modules);
    push_str(&mut out, "<main>\n<h1>Aevia Documentation</h1>\n<ul class=\"index-list\">\n");
    let ghost o1 = out@;
    let mut i: usize = 0;
    while i < modules.len()
        invariant
            i <= modules@.len(),
            o1 + index_links(modules@, 0) == out@ + index_links(modules@, i as int),
        decreases modules@.len() - i,
    {
        let ghost before = out@;
        push_str(&mut out, "<li><a href=\"");
        push_str(&mut out, modules[i].html_filename.as_str());
        push_str(&mut out, "\">");
        push_escaped(&mut out, modules[i].name.as_str());
        push_str(&mut out, "</a></li>\n");
        proof {
            assert(before + index_links(modules@, i as int) =~= out@ + index_links(modules@, i + 1));
        }
        i = i + 1;
    }
    proof {
        assert(out@ + index_links(modules@, i as int) =~= out@);
    }
    push_str(&mut out, "</ul>\n</main>\n</body>\n</html>\n");
    proof {
        assert(out@ =~= index_text(modules@));
    }
    out
}

fn push_doc_html(out: &mut String, doc: &Option<String>)
    ensures
        final(out)@ == old(out)@ + doc_html(*doc),
{
    match doc {
        Some(d) => {
            push_str(out, "<p class=\"doc-text\">");
            push_escaped(out, d.as_str());
            push_str(out, "</p>\n");
        },
        None => {},
    }
    proof {
        assert(out@ =~= old(out)@ + doc_html(*doc));
    }
}

fn push_heading(out: &mut String, kind: &str, name: &str)
    ensures
        final(out)@ == old(out)@ + heading(kind@, name@),
{
    push_str(out, "<section id=\"");
    push_str(out, kind);
    push_str(out, "-");
    push_str(out, name);
    push_str(out, "\">\n<h2><span class=\"kind\">");
    push_str(out, kind);
    push_str(out, "</span> <span class=\"name\">");
    push_str(out, name);
    push_str(out, "</span></h2>\n");
    proof {
        assert(out@ =~= old(out)@ + heading(kind@, name@));
    }
}

fn push_field_rows(out: &mut String, fs: &Vec<Field>)
    ensures
        final(out)@ == old(out)@ + html_field_rows(fs@, 0),
{
    let ghost o = out@;
    let mut i: usize = 0;
    while i < fs.len()
        invariant
            i <= fs@.len(),
            o + html_field_rows(fs@, 0) == out@ + html_field_rows(fs@, i as int),
        decreases fs@.len() - i,
    {
        let ghost before = out@;
        push_str(out, "<tr><td><code>");
        push_escaped(out, fs[i].name.as_str());
        push_str(out, "</code></td><td><code>");
        push_dim(out, &fs[i].dim.node);
        push_str(out, "</code></td></tr>\n");
        proof {
            assert(before + html_field_rows(fs@, i as int) =~= out@ + html_field_rows(fs@, i + 1));
        }
        i = i + 1;
    }
    proof {
        assert(out@ + html_field_rows(fs@, i as int) =~= out@);
    }
}

fn push_param_rows(out: &mut String, ps: &Vec<Param>)
    ensures
        final(out)@ == old(out)@ + html_param_rows(ps@, 0),
{
    let ghost o = out@;
    let mut i: usize = 0;
    while i < ps.len()
        invariant
            i <= ps@.len(),
            o + html_param_rows(ps@, 0) == out@ + html_param_rows(ps@, i as int),
        decreases ps@.len() - i,
    {
        let ghost before = out@;
        push_str(out, "<tr><td><code>");
        push_escaped(out, ps[i].name.as_str());
        push_str(out, "</code></td><td><code>");
        push_dim(out, &ps[i].dim.node);
        push_str(out, "</code></td></tr>\n");
        proof {
            assert(before + html_param_rows(ps@, i as int) =~= out@ + html_param_rows(ps@, i + 1));
        }
        i = i + 1;
    }
    proof {
        assert(out@ + html_param_rows(ps@, i as int) =~= out@);
    }
}

fn push_sig_params(out: &mut String, ps: &Vec<Param>)
    ensures
        final(out)@ == old(out)@ + sig_params(ps@, 0),
{
    let ghost o = out@;
    let mut i: usize = 0;
    while i < ps.len()
        invariant
            i <= ps@.len(),
            o + sig_params(ps@, 0) == out@ + sig_params(ps@, i as int),
        decreases ps@.len() - i,
    {
        let ghost before = out@;
        if i > 0 {
            push_str(out, ", ");
        }
        let ghost b1 = out@;
        if ps[i].is_mut {
            push_str(out, "mut ");
        }
        let ghost b2 = out@;
        push_str(out, ps[i].name.as_str());
        push_str(out, ": ");
        push_dim(out, &ps[i].dim.node);
        proof {
            let sep: Seq<char> = if i > 0 { ", "@ } else { Seq::empty() };
            let m: Seq<char> = if ps@[i as int].is_mut { "mut "@ } else { Seq::empty() };
            assert(b1 =~= before + sep);
            assert(b2 =~= b1 + m);
            assert(before + sig_params(ps@, i as int) =~= out@ + sig_params(ps@, i + 1));
        }
        i = i + 1;
    }
    proof {
        assert(out@ + sig_params(ps@, i as int) =~= out@);
    }
}

fn push_attr_badges(out: &mut String, attrs: &Vec<Attribute>)
    ensures
        final(out)@ == old(out)@ + attr_badges(attrs@, 0),
{
    let ghost o = out@;
    let mut i: usize = 0;
    while i < attrs.len()
        invariant
            i <= attrs@.len(),
            o + attr_badges(attrs@, 0) == out@ + attr_badges(attrs@, i as int),
        decreases attrs@.len() - i,
    {
        let ghost before = out@;
        push_str(out, "<span>#[");
        push_escaped(out, attrs[i].name.as_str());
        push_str(out, "]</span>");
        proof {
            assert(before + attr_badges(attrs@, i as int) =~= out@ + attr_badges(attrs@, i + 1));
        }
        i = i + 1;
    }
    proof {
        assert(out@ + attr_badges(attrs@, i as int) =~= out@);
    }
}

fn html_alias(out: &mut String, item: &Item)
    requires
        item is TypeAlias,
    ensures
        final(out)@ == old(out)@ + html_item(*item),
{
    let ghost o = out@;
    match item {
        Item::TypeAlias { name, dimension_expr, doc } => {
            push_heading(out, "type", name.as_str());
            push_doc_html(out, doc);
            push_str(out, "<pre><code>type ");
            push_str(out, name.as_str());
            push_str(out, " = ");
            push_dim(out, &dimension_expr.node);
            push_str(out, ";</code></pre>\n</section>\n");
        },
        _ => {},
    }
    proof {
        assert(out@ =~= o + html_item(*item));
    }
}

fn html_struct(out: &mut String, item: &Item)
    requires
        item is Struct,
    ensures
        final(out)@ == old(out)@ + html_item(*item),
{
    let ghost o = out@;
    match item {
        Item::Struct { name, fields, visibility, doc } => {
            if is_documented(*visibility) {
                push_heading(out, "struct", name.as_str());
                push_doc_html(out, doc);
                push_str(out, "<table>\n<thead><tr><th>Field</th><th>Dimension</th></tr></thead>\n<tbody>\n");
                push_field_rows(out, fields);
                push_str(out, "</tbody></table>\n</section>\n");
            }
        },
        _ => {},
    }
    proof {
        assert(out@ =~= o + html_item(*item));
    }
}

fn push_fn_attrs(out: &mut String, attrs: &Vec<Attribute>)
    ensures
        final(out)@ == old(out)@ + fn_attrs_html(attrs@),
{
    let ghost o = out@;
    if attrs.len() > 0 {
        push_str(out, "<div class=\"attributes\">");
        push_attr_badges(out, attrs);
        push_str(out, "</div>\n");
    }
    proof {
        assert(out@ =~= o + fn_attrs_html(attrs@));
    }
}

fn push_fn_sig(out: &mut String, name: &str, params: &Vec<Param>, ret: &Option<Spanned<crate::ast::DimExpr>>)
    ensures
        final(out)@ == old(out)@ + fn_sig_html(name@, params@, *ret),
{
    let ghost o = out@;
    push_str(out, "<pre><code>fn ");
    push_escaped(out, name);
    push_str(out, "(");
    push_sig_params(out, params);
    push_str(out, ")");
    let ghost a2 = out@;
    match ret {
        Some(r) => {
            push_str(out, " -&gt; ");
            push_dim(out, &r.node);
        },
        None => {},
    }
    let ghost a3 = out@;
    proof {
        assert(a3 =~= a2 + (match *ret { Some(r) => " -&gt; "@ + dim_expr_text(r.node), None => Seq::empty() }));
    }
    push_str(out, " </code></pre>\n");
    proof {
        assert(out@ =~= o + fn_sig_html(name@, params@, *ret));
    }
}

fn push_fn_returns(out: &mut String, ret: &Option<Spanned<crate::ast::DimExpr>>)
    ensures
        final(out)@ == old(out)@ + fn_returns_html(*ret),
{
    let ghost o = out@;
    push_str(out, "<p class=\"returns\"><strong>Returns:</strong> <code>");
    match ret {
        Some(r) => push_dim(out, &r.node),
        None => push_str(out, "dimensionless"),
    }
    push_str(out, "</code></p>\n");
    proof {
        assert(out@ =~= o + fn_returns_html(*ret));
    }
}

fn push_fn_params(out: &mut String, params: &Vec<Param>)
    ensures
        final(out)@ == old(out)@ + fn_params_html(params@),
{
    let ghost o = out@;
    if params.len() > 0 {
        push_str(out, "<table>\n<thead><tr><th>Parameter</th><th>Dimension</th></tr></thead>\n<tbody>\n");
        push_param_rows(out, params);
        push_str(out, "</tbody></table>\n");
    }
    proof {
        assert(out@ =~= o + fn_params_html(params@));
    }
}

fn html_fn(out: &mut String, item: &Item)
    requires
        item is Function,
    ensures
        final(out)@ == old(out)@ + html_item(*item),
{
    let ghost o = out@;
    match item {
        Item::Function { name, params, return_type, visibility, attributes, doc, .. } => {
            if is_documented(*visibility) || str_eq(name.as_str(), "main") {
                push_heading(out, "fn", name.as_str());
                push_doc_html(out, doc);
                push_fn_attrs(out, attributes);
                push_fn_sig(out, name.as_str(), params, return_type);
                push_fn_returns(out, return_type);
                push_fn_params(out, params);
                push_str(out, "</section>\n");
            }
        },
        _ => {},
    }
    proof {
        assert(out@ =~= o + html_item(*item));
    }
}

fn push_op_sig(out: &mut String, name: &str, param: &str, input: &crate::ast::DimExpr, output: &crate::ast::DimExpr)
    ensures
        final(out)@ == old(out)@ + op_sig_html(name@, param@, *input, *output),
{
    let ghost o = out@;
    push_str(out, "<pre><code>op ");
    push_escaped(out, name);
    push_str(out, "(");
    push_escaped(out, param);
    push_str(out, ": ");
    push_dim(out, input);
    push_str(out, " -&gt; ");
    push_dim(out, output);
    push_str(out, ")</code></pre>\n");
    proof {
        assert(out@ =~= o + op_sig_html(name@, param@, *input, *output));
    }
}

fn push_prop_bool(out: &mut String, label: &str, b: bool)
    ensures
        final(out)@ == old(out)@ + prop_line(label@, bool_text(b)),
{
    let ghost o = out@;
    push_str(out, "<li>");
    push_str(out, label);
    push_str(out, ": <code>");
    push_bool_text(out, b);
    push_str(out, "</code></li>\n");
    proof {
        assert(out@ =~= o + prop_line(label@, bool_text(b)));
    }
}

fn push_prop_cost(out: &mut String, cost: Option<crate::ast::Number>)
    ensures
        final(out)@ == old(out)@ + prop_line("cost"@, match cost { Some(c) => number_text(c), None => "default"@ }),
{
    let ghost o = out@;
    push_str(out, "<li>");
    push_str(out, "cost");
    push_str(out, ": <code>");
    match cost {
        Some(c) => push_number(out, c),
        None => push_str(out, "default"),
    }
    push_str(out, "</code></li>\n");
    proof {
        assert(out@ =~= o + prop_line("cost"@, match cost { Some(c) => number_text(c), None => "default"@ }));
    }
}

fn push_op_props(out: &mut String, p: &crate::ast::OpProperties)
    ensures
        final(out)@ == old(out)@ + op_props_html(*p),
{
    let ghost o = out@;
    push_str(out, "<ul class=\"properties\">\n");
    push_prop_bool(out, "vectorizable", p.vectorizable);
    push_prop_bool(out, "commutative", p.commutative);
    push_prop_bool(out, "associative", p.associative);
    push_prop_cost(out, p.cost);
    push_str(out, "</ul>\n");
    proof {
        assert(out@ =~= o + op_props_html(*p));
    }
}

fn html_op(out: &mut String, item: &Item)
    requires
        item is CustomOp,
    ensures
        final(out)@ == old(out)@ + html_item(*item),
{
    let ghost o = out@;
    match item {
        Item::CustomOp { name, param_name, input_dim, output_dim, visibility, properties, doc } => {
            if is_documented(*visibility) {
                push_heading(out, "op", name.as_str());
                push_doc_html(out, doc);
                push_op_sig(out, name.as_str(), param_name.as_str(), &input_dim.node, &output_dim.node);
                push_op_props(out, properties);
                push_str(out, "</section>\n");
            }
        },
        _ => {},
    }
    proof {
        assert(out@ =~= o + html_item(*item));
    }
}

fn html_mod(out: &mut String, item: &Item)
    requires
        item is Module,
    ensures
        final(out)@ == old(out)@ + html_item(*item),
    decreases item, 0int,
{
    let ghost o = out@;
    match item {
        Item::Module { name, body, visibility, doc } => {
            if is_documented(*visibility) {
                push_heading(out, "mod", name.as_str());
                push_doc_html(out, doc);
                let ghost a0 = out@;
                match body {
                    Some(items) => push_html_items(out, items),
                    None => {},
                }
                let ghost a1 = out@;
                proof {
                    assert(a1 =~= a0 + (match body { Some(items) => html_items(items@, 0), None => Seq::empty() }));
                }
                push_str(out, "</section>\n");
            }
        },
        _ => {},
    }
    proof {
        assert(out@ =~= o + html_item(*item));
    }
}

fn html_const(out: &mut String, item: &Item)
    requires
        item is Const,
    ensures
        final(out)@ == old(out)@ + html_item(*item),
{
    let ghost o = out@;
    match item {
        Item::Const { name, dim, value, visibility, doc } => {
            if is_documented(*visibility) {
                push_heading(out, "const", name.as_str());
                push_doc_html(out, doc);
                push_str(out, "<pre><code>const ");
                push_escaped(out, name.as_str());
                push_str(out, ": ");
                match dim {
                    Some(d) => push_dim(out, &d.node),
                    None => push_str(out, "inferred"),
                }
                push_str(out, " = ");
                push_expr(out, value);
                push_str(out, ";</code></pre>\n</section>\n");
            }
        },
        _ => {},
    }
    proof {
        assert(out@ =~= o + html_item(*item));
    }
}

/// Appends the HTML section of an item.
fn push_html_item(out: &mut String, item: &Item)
    ensures
        final(out)@ == old(out)@ + html_item(*item),
    decreases item, 1int,
{
    match item {
        Item::TypeAlias { .. } => html_alias(out, item),
        Item::Struct { .. } => html_struct(out, item),
        Item::Function { .. } => html_fn(out, item),
        Item::CustomOp { .. } => html_op(out, item),
        Item::Module { .. } => html_mod(out, item),
        Item::Const { .. } => html_const(out, item),
        Item::Use { .. } | Item::MacroDef { .. } | Item::MacroCall { .. } => {
            proof {
                assert(out@ =~= old(out)@ + html_item(*item));
            }
        },
    }
}

fn push_html_items(out: &mut String, items: &Vec<Spanned<Item>>)
    ensures
        final(out)@ == old(out)@ + html_items(items@, 0),
    decreases items, 0int,
{
    let ghost o = out@;
    let mut i: usize = 0;
    while i < items.len()
        invariant
            i <= items@.len(),
            o + html_items(items@, 0) == out@ + html_items(items@, i as int),
        decreases items@.len() - i,
    {
        let ghost before = out@;
        proof {
            assert(decreases_to!(*items => items@));
            assert(decreases_to!(items@ => items@[i as int]));
        }
        push_html_item(out, &items[i].node);
        proof {
            assert(before + html_items(items@, i as int) =~= out@ + html_items(items@, i + 1));
        }
        i = i + 1;
    }
    proof {
        assert(out@ + html_items(items@, i as int) =~= out@);
    }
}

/// Render the HTML page of a file: the head, the sidebar with the file's
/// module marked, the module doc and a section per documented item.
pub fn render_html_page(path: &str, file: &SourceFile, all_modules: &Vec<ModuleInfo>) -> (s: String)
    ensures
        s@ == page_text(title_of(path@, "module"@), *file, all_modules@),
{
    let title = page_title(path, "module");
    let mut head_title = String::new();
    push_str(&mut head_title, title.as_str());
    push_str(&mut head_title, " - Aevia Docs");
    let mut out = String::new();
    push_head(&mut out, head_title.as_str());
    push_sidebar(&mut out, title.as_str(), all_modules);
    push_str(&mut out, "<main>\n<h1><code>");
    push_str(&mut out, title.as_str());
    push_str(&mut out, "</code></h1>\n");
    let ghost a0 = out@;
    match &file.doc {
        Some(d) => {
            push_str(&mut out, "<p class=\"module-doc\">");
            push_escaped(&mut out, d.as_str());
            push_str(&mut out, "</p>\n");
        },
        None => {},
    }
    let ghost a1 = out@;
    proof {
        assert(a1 =~= a0 + (match file.doc {
            Some(d) => "<p class=\"module-doc\">"@ + escape(d@) + "</p>\n"@,
            None => Seq::empty(),
        }));
    }
    push_html_items(&mut out, &file.items);
    push_str(&mut out, "</main>\n</body>\n</html>\n");
    proof {
        assert(out@ =~= page_text(title_of(path@, "module"@), *file, all_modules@));
    }
    out
}

} // verus!
