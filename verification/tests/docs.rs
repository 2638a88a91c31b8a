use aevia::doc::html::{escape_html, render_html_index, render_html_page, ModuleInfo, STYLESHEET};
use aevia::doc::render_markdown;
use aevia::parser::items::parse_source;

#[test]
fn renders_public_fn() {
    let file = parse_source("pub fn f(x: m) -> m := x;").unwrap();
    let md = render_markdown("f.ae", &file);
    assert!(md.contains("## fn `f`"));
    assert!(md.contains("`x`"));
}

#[test]
fn markdown_is_exact_for_a_small_file() {
    let file = parse_source("//! Physics\n/// Force law\npub fn force(m: kg, a: m/s^2) -> N := m * a;\nfn hidden(x: m) := x;").unwrap();
    let md = render_markdown("src/physics.ae", &file);
    assert_eq!(
        md,
        "# `physics`\n\nPhysics\n\n## fn `force`\n\nForce law\n\n**Returns:** `N`\n\n| Parameter | Dimension |\n|-----------|-----------|\n| `m` | `kg` |\n| `a` | `m / s^2` |\n\n"
    );
}

#[test]
fn renders_html_page() {
    let src = r#"
pub struct Particle {
    pub mass: kg,
    pub velocity: m / s,
}

pub fn kinetic_energy(m: kg, v: m / s) -> kg * m^2 / s^2 := 0.5 * m * v^2;

pub const G: m / s^2 = 9.8;
"#;
    let file = parse_source(src).unwrap();
    let modules = vec![ModuleInfo { name: "physics".to_string(), html_filename: "physics.html".to_string() }];
    let page = render_html_page("physics.ae", &file, &modules);
    assert!(page.contains("<!DOCTYPE html>"));
    assert!(page.contains("<title>physics - Aevia Docs</title>"));
    assert!(page.contains("style.css"));
    assert!(page.contains("<nav>"));
    assert!(page.contains("physics.html"));
    assert!(page.contains("struct"));
    assert!(page.contains("Particle"));
    assert!(page.contains("mass"));
    assert!(page.contains("kg"));
    assert!(page.contains("kinetic_energy"));
    assert!(page.contains("fn"));
    assert!(page.contains("const"));
    assert!(page.contains("G"));
    assert!(page.contains("<li><a href=\"physics.html\" class=\"active\">physics</a></li>"));
    assert!(page.contains("<pre><code>const G: m / s^2 = 9.8;</code></pre>"));
}

#[test]
fn renders_html_index() {
    let modules = vec![
        ModuleInfo { name: "main".to_string(), html_filename: "main.html".to_string() },
        ModuleInfo { name: "physics".to_string(), html_filename: "physics.html".to_string() },
    ];
    let index = render_html_index(&modules);
    assert!(index.contains("<!DOCTYPE html>"));
    assert!(index.contains("Aevia Documentation"));
    assert!(index.contains("main.html"));
    assert!(index.contains("physics.html"));
    assert!(index.contains("<li><a href=\"index.html\" class=\"active\">Index</a></li>"));
}

#[test]
fn stylesheet_is_non_empty() {
    assert!(!STYLESHEET.is_empty());
    assert!(STYLESHEET.contains("nav"));
    assert!(STYLESHEET.contains("main"));
    assert!(STYLESHEET.contains("@media print"));
}

#[test]
fn escape_html_replaces_special_characters() {
    assert_eq!(escape_html("a < b && \"c\" > d"), "a &lt; b &amp;&amp; &quot;c&quot; &gt; d");
    assert_eq!(escape_html("plain"), "plain");
}

#[test]
fn private_items_are_not_documented() {
    let file = parse_source("struct Hidden { x: m }\nfn helper(x: m) := x;\nfn main() := 1.0;").unwrap();
    let page = render_html_page("m.ae", &file, &vec![]);
    assert!(!page.contains("Hidden"));
    assert!(!page.contains("helper"));
    assert!(page.contains("<section id=\"fn-main\">"));
}
