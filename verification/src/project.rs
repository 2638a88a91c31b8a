//! The files of a new project.
use vstd::prelude::*;
use crate::text::push_str;

verus! {

/// The entry point of a new project.
pub const SAMPLE_MAIN_AE: &'static str = r#"//! Sample Aevia simulation entry point.

type Acceleration = m / s^2;
type Force = kg * Acceleration;

/// Kinetic energy: 0.5 * m * v^2
/// # Physical Context
/// - domain: mass > 0.0, velocity >= 0.0
/// - unit_output: Joule
pub fn kinetic_energy(m: kg, v: m/s) -> Joule := 0.5 * m * v^2;

pub fn main() {
    let mass: kg = 10.0;
    let acc: Acceleration = 9.8;
    let force: Force = mass * acc;
    let _ = force;
}
"#;

/// The library root of a new project.
pub const SAMPLE_LIB_AE: &'static str = r#"//! Library root for shared simulation utilities.

pub mod physics;
"#;

/// The sample module of a new project.
pub const SAMPLE_PHYSICS_AE: &'static str = r#"//! Physics helpers.

pub struct Particle {
    pub position: m,
    pub velocity: m / s,
    pub mass: kg,
}
"#;

/// The sample test of a new project.
pub const SAMPLE_SMOKE_AE: &'static str = "// @aevia-test: check\n\nfn smoke() -> m := 1.0;\n";

/// The manifest of a new project, up to its name.
pub const MANIFEST_HEAD: &'static str = "[package]\nname = \"";

/// The manifest of a new project, after its name.
pub const MANIFEST_TAIL: &'static str = r#""
version = "0.1.0"
authors = ["Aevia Developer"]

[profile.release]
opt-level = 3
backend = "rssn"
dimension-checking = "strict"
"#;

/// The manifest of a new project called `name`.
pub fn manifest_text(name: &str) -> (r: String)
    ensures
        r@ == MANIFEST_HEAD@ + name@ + MANIFEST_TAIL@,
{
    let mut s = String::new();
    push_str(&mut s, MANIFEST_HEAD);
    push_str(&mut s, name);
    push_str(&mut s, MANIFEST_TAIL);
    proof {
        assert(s@ =~= MANIFEST_HEAD@ + name@ + MANIFEST_TAIL@);
    }
    s
}

/// The directories of a new project, relative to its root.
pub fn project_dirs() -> (r: Vec<String>)
    ensures
        r@.len() == 3,
        r@[0]@ == "src/modules"@,
        r@[1]@ == "tests"@,
        r@[2]@ == "kernels"@,
{
    let mut out: Vec<String> = Vec::new();
    let mut a = String::new();
    push_str(&mut a, "src/modules");
    out.push(a);
    let mut b = String::new();
    push_str(&mut b, "tests");
    out.push(b);
    let mut c = String::new();
    push_str(&mut c, "kernels");
    out.push(c);
    out
}

fn file_entry(path: &str, contents: &str) -> (r: (String, String))
    ensures
        r.0@ == path@,
        r.1@ == contents@,
{
    let mut p = String::new();
    push_str(&mut p, path);
    let mut c = String::new();
    push_str(&mut c, contents);
    proof {
        assert(p@ =~= path@);
        assert(c@ =~= contents@);
    }
    (p, c)
}

/// The files of a new project called `name`, as (path relative to the
/// project root, contents): the manifest, the entry point, the library root
/// and its sample module, a smoke test, and an empty marker in `kernels/`.
pub fn project_files(name: &str) -> (r: Vec<(String, String)>)
    ensures
        r@.len() == 6,
        r@[0].0@ == "Aevia.toml"@ && r@[0].1@ == MANIFEST_HEAD@ + name@ + MANIFEST_TAIL@,
        r@[1].0@ == "src/main.ae"@ && r@[1].1@ == SAMPLE_MAIN_AE@,
        r@[2].0@ == "src/lib.ae"@ && r@[2].1@ == SAMPLE_LIB_AE@,
        r@[3].0@ == "src/modules/physics.ae"@ && r@[3].1@ == SAMPLE_PHYSICS_AE@,
        r@[4].0@ == "tests/smoke.ae"@ && r@[4].1@ == SAMPLE_SMOKE_AE@,
        r@[5].0@ == "kernels/.gitkeep"@ && r@[5].1@.len() == 0,
{
    let mut out: Vec<(String, String)> = Vec::new();
    let mut p = String::new();
    push_str(&mut p, "Aevia.toml");
    out.push((p, manifest_text(name)));
    out.push(file_entry("src/main.ae", SAMPLE_MAIN_AE));
    out.push(file_entry("src/lib.ae", SAMPLE_LIB_AE));
    out.push(file_entry("src/modules/physics.ae", SAMPLE_PHYSICS_AE));
    out.push(file_entry("tests/smoke.ae", SAMPLE_SMOKE_AE));
    let mut k = String::new();
    push_str(&mut k, "kernels/.gitkeep");
    out.push((k, String::new()));
    out
}

} // verus!
