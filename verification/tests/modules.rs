use aevia::diagnostics::AeviaError;
use aevia::modules::deps::{module_deps, text_less};
use aevia::modules::paths::{
    dir_of_file, extension, is_ae_file, join_path, mod_path_candidates, parent_dir, path_starts_with,
    resolve_mod_path,
};
use aevia::modules::resolve::{
    bind_glob_use, bind_use, entry_imports, find_module, resolve_export, resolve_imports, resolve_imports_for,
    resolve_module_items, visible, Export, LoadedModule, ModLink, ModuleProgram,
};
use aevia::modules::{register_lowerer, ImportBindings};
use aevia::lowering::Lowerer;
use aevia::ast::Visibility;
use aevia::parser::items::parse_source;
use aevia::types::dim::DimVector;

fn module(path: &str, src: &str) -> LoadedModule {
    LoadedModule { path: path.to_string(), ast: parse_source(src).unwrap(), imports: ImportBindings::new() }
}

fn link(from: &str, name: &str, target: Option<&str>) -> ModLink {
    ModLink { from: from.to_string(), name: name.to_string(), target: target.map(|t| t.to_string()) }
}

fn lookup(t: &[(String, DimVector)], k: &str) -> Option<DimVector> {
    t.iter().find(|(n, _)| n == k).map(|(_, d)| *d)
}

fn message(e: AeviaError) -> String {
    match e {
        AeviaError::Message(m) => m,
        other => panic!("unexpected error {:?}", other),
    }
}

#[test]
fn paths_split_and_join() {
    assert_eq!(parent_dir("/p/src/main.ae"), Some("/p/src".to_string()));
    assert_eq!(parent_dir("/main.ae"), Some("/".to_string()));
    assert_eq!(parent_dir("main.ae"), Some(String::new()));
    assert_eq!(parent_dir("/"), None);
    assert_eq!(parent_dir(""), None);
    assert_eq!(dir_of_file("/"), ".");
    assert_eq!(join_path("/p/src", "lib.ae"), "/p/src/lib.ae");
    assert_eq!(join_path("/", "lib.ae"), "/lib.ae");
    assert_eq!(join_path("", "lib.ae"), "lib.ae");
    assert!(path_starts_with("/p/src/main.ae", "/p"));
    assert!(path_starts_with("/p", "/p"));
    assert!(!path_starts_with("/pq/main.ae", "/p"));
    assert!(path_starts_with("/p/x", "/"));
}

#[test]
fn ae_extension() {
    assert!(is_ae_file("/p/src/main.ae"));
    assert!(!is_ae_file("/p/src/main.rs"));
    assert!(!is_ae_file("/p/.ae"));
    assert!(!is_ae_file("/p.ae/main"));
    assert_eq!(extension("a.tar.gz"), Some("gz".to_string()));
    assert_eq!(extension("README"), None);
}

#[test]
fn candidates_for_a_module() {
    let c = mod_path_candidates("/p/src/lib.ae", "physics", &None);
    assert_eq!(
        c,
        vec![
            "/p/src/physics.ae",
            "/p/src/physics/mod.ae",
            "/p/src/modules/physics.ae",
            "/p/src/modules/physics/mod.ae",
        ]
    );
    let c = mod_path_candidates("/p/src/lib.ae", "physics", &Some("/p".to_string()));
    assert_eq!(c.len(), 8);
    assert_eq!(c[4], "/p/src/physics.ae");
    assert_eq!(c[5], "/p/src/physics/mod.ae");
    assert_eq!(c[6], "/p/src/modules/physics.ae");
    assert_eq!(c[7], "/p/src/modules/physics/mod.ae");
}

#[test]
fn first_existing_candidate_wins() {
    let c = mod_path_candidates("/p/src/lib.ae", "physics", &None);
    let found = resolve_mod_path("/p/src/lib.ae", "physics", &c, &vec![false, false, true, true]).unwrap();
    assert_eq!(found, "/p/src/modules/physics.ae");
    let err = resolve_mod_path("/p/src/lib.ae", "physics", &c, &vec![false; 4]).unwrap_err();
    assert_eq!(message(err), "cannot find module `physics` (searched near /p/src)");
}

#[test]
fn dependencies_are_sorted_and_unique() {
    let file = parse_source("pub mod physics;\nmod inline_mod { type T = s; }\nuse zeta::f;\nuse physics::energy;\nuse alpha::*;").unwrap();
    assert_eq!(module_deps(&file), vec!["alpha", "physics", "zeta"]);
    assert!(text_less("abc", "abd"));
    assert!(text_less("ab", "abc"));
    assert!(!text_less("b", "abc"));
}

#[test]
fn resolves_mod_under_modules_dir() {
    let lib = "/t/src/lib.ae";
    let lib_ast = parse_source("pub mod physics;").unwrap();
    let deps = module_deps(&lib_ast);
    assert_eq!(deps, vec!["physics"]);
    let cands = mod_path_candidates(lib, "physics", &None);
    let exists: Vec<bool> = cands.iter().map(|c| c == "/t/src/modules/physics.ae").collect();
    let target = resolve_mod_path(lib, "physics", &cands, &exists).unwrap();
    assert_eq!(target, "/t/src/modules/physics.ae");
    let program = ModuleProgram {
        entry: lib.to_string(),
        crate_root: None,
        modules: vec![
            LoadedModule { path: lib.to_string(), ast: lib_ast, imports: ImportBindings::new() },
            module(&target, "pub fn energy(m: kg, v: m/s) -> J := 0.5 * m * v^2;"),
        ],
        links: vec![link(lib, "physics", Some(&target))],
    };
    let program = resolve_imports(program).unwrap();
    assert_eq!(program.modules.len(), 2);
}

fn physics_program(main_src: &str) -> ModuleProgram {
    ModuleProgram {
        entry: "/t/src/main.ae".to_string(),
        crate_root: None,
        modules: vec![
            module("/t/src/main.ae", main_src),
            module(
                "/t/src/modules/physics.ae",
                "pub fn energy(m: kg, v: m/s) -> J := 0.5 * m * v^2;\nfn hidden() -> m := 1.0;\npub(crate) fn inner() -> s := 1.0;\ntype Speed = m / s;\ntype Bad = furlong;\npub const G: m / s^2 = 9.8;",
            ),
        ],
        links: vec![link("/t/src/main.ae", "physics", Some("/t/src/modules/physics.ae"))],
    }
}

#[test]
fn use_imports_function_return_type() {
    let program = resolve_imports(physics_program("use physics::energy;\nfn main() -> J := energy(1.0, 1.0);")).unwrap();
    let imports = entry_imports(&program);
    assert_eq!(lookup(&imports.functions, "energy"), Some(DimVector::JOULE()));
    assert!(imports.aliases.is_empty());
}

#[test]
fn use_with_alias_binds_the_local_name() {
    let program = physics_program("use physics::Speed as V;\nuse physics::energy as e;");
    let b = resolve_imports_for(&program, "/t/src/main.ae").unwrap();
    assert_eq!(lookup(&b.aliases, "V"), Some(DimVector::VELOCITY()));
    assert_eq!(lookup(&b.functions, "e"), Some(DimVector::JOULE()));
    assert_eq!(lookup(&b.functions, "energy"), None);
}

#[test]
fn glob_use_binds_visible_exports() {
    let program = physics_program("use physics::*;");
    let mut b = ImportBindings::new();
    let use_path = vec!["physics".to_string()];
    bind_glob_use(&program, "/t/src/main.ae", &use_path, &mut b).unwrap();
    assert_eq!(lookup(&b.functions, "energy"), Some(DimVector::JOULE()));
    assert_eq!(lookup(&b.functions, "hidden"), None);
    // other directory and no project root: another crate
    assert_eq!(lookup(&b.functions, "inner"), None);
    assert_eq!(lookup(&b.functions, "G"), Some(DimVector::ACCELERATION()));
    assert_eq!(lookup(&b.aliases, "Speed"), Some(DimVector::VELOCITY()));
    assert_eq!(lookup(&b.aliases, "Bad"), None);
}

#[test]
fn crate_visibility_follows_the_project_root() {
    let mut program = physics_program("use physics::inner;");
    program.crate_root = Some("/t".to_string());
    let b = resolve_imports_for(&program, "/t/src/main.ae").unwrap();
    assert_eq!(lookup(&b.functions, "inner"), Some(DimVector::S()));
    program.crate_root = None;
    let e = resolve_imports_for(&program, "/t/src/main.ae").unwrap_err();
    assert_eq!(message(e), "`inner` is not accessible from this module");
}

#[test]
fn use_errors() {
    let program = physics_program("");
    let mut b = ImportBindings::new();
    let e = bind_use(&program, "/t/src/main.ae", &vec!["energy".to_string()], &None, &mut b).unwrap_err();
    assert_eq!(message(e), "use must import from a module path, got `energy` alone");
    let e = bind_use(&program, "/t/src/main.ae", &vec![], &None, &mut b).unwrap_err();
    assert_eq!(message(e), "empty use path");
    let e = bind_use(&program, "/t/src/main.ae", &vec!["physics".to_string(), "hidden".to_string()], &None, &mut b)
        .unwrap_err();
    assert_eq!(message(e), "`hidden` is not accessible from this module");
    let e = resolve_export(&program, "/t/src/main.ae", &vec!["physics".to_string()], "nothing").unwrap_err();
    assert_eq!(message(e), "no export `nothing` in module `physics`");
    let e = resolve_export(&program, "/t/src/main.ae", &vec!["physics".to_string()], "Bad").unwrap_err();
    assert_eq!(message(e), "unknown unit in alias `Bad`");
    let e = resolve_export(&program, "/t/src/main.ae", &vec!["chem".to_string()], "x").unwrap_err();
    assert_eq!(message(e), "cannot find module `chem` (searched near /t/src)");
    let e = resolve_imports_for(&program, "/t/src/other.ae").unwrap_err();
    assert_eq!(message(e), "internal module table inconsistency");
    assert!(b.functions.is_empty());
}

#[test]
fn inline_and_nested_modules() {
    let program = ModuleProgram {
        entry: "/t/main.ae".to_string(),
        crate_root: None,
        modules: vec![module(
            "/t/main.ae",
            "mod mechanics { mod kinematics { type Force = kg * m / s^2; } }\nuse mechanics::kinematics::Force as F;",
        )],
        links: vec![],
    };
    let (owner, items) =
        resolve_module_items(&program, "/t/main.ae", &vec!["mechanics".to_string(), "kinematics".to_string()])
            .unwrap();
    assert_eq!(owner, "/t/main.ae");
    assert_eq!(items.len(), 1);
    let x = resolve_export(
        &program,
        "/t/main.ae",
        &vec!["mechanics".to_string(), "kinematics".to_string()],
        "Force",
    )
    .unwrap();
    assert_eq!(x, Export::Alias(DimVector::NEWTON()));
    let program = resolve_imports(program).unwrap();
    assert_eq!(lookup(&program.modules[0].imports.aliases, "F"), Some(DimVector::NEWTON()));
}

#[test]
fn linked_file_must_be_loaded() {
    let program = ModuleProgram {
        entry: "/t/main.ae".to_string(),
        crate_root: None,
        modules: vec![module("/t/main.ae", "use geo::area;")],
        links: vec![link("/t/main.ae", "geo", Some("/t/geo.ae"))],
    };
    let e = resolve_imports(program).unwrap_err();
    assert_eq!(message(e), "module file not loaded: /t/geo.ae");
}

#[test]
fn module_lookup_and_visibility() {
    let program = physics_program("");
    assert_eq!(find_module(&program.modules, "/t/src/modules/physics.ae"), Some(1));
    assert_eq!(find_module(&program.modules, "/t/src/none.ae"), None);
    assert!(visible(Visibility::Public, false, false));
    assert!(visible(Visibility::Crate, false, true));
    assert!(!visible(Visibility::Crate, true, false));
    assert!(visible(Visibility::Private, true, false));
    assert!(!visible(Visibility::Private, false, true));
}

#[test]
fn register_lowerer_takes_every_module_in_order() {
    let program = physics_program("fn main() -> J := 1.0;\nop twice(x: m -> m) { }");
    let mut lowerer = Lowerer::new();
    register_lowerer(&program, &mut lowerer);
    let names: Vec<&str> = lowerer.functions.iter().map(|(n, _)| n.as_str()).collect();
    assert_eq!(names, vec!["main", "twice", "energy", "hidden", "inner"]);
}
