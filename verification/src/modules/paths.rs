//! Paths as text: `/`-separated, as the loader hands them over (absolute and
//! normalized, without `.` components or a trailing separator), and the
//! candidate files of a `mod name;` declaration.
use vstd::prelude::*;
use crate::diagnostics::AeviaError;
use crate::text::{chars_of, push_char, push_str, string_from_range};

verus! {

/// Index of the last `/` in `s`, if any.
pub open spec fn last_slash(s: Seq<char>) -> Option<int>
    decreases s.len(),
{
    if s.len() == 0 {
        None
    } else if s.last() == '/' {
        Some(s.len() - 1)
    } else {
        last_slash(s.drop_last())
    }
}

/// The path without its final component: `None` for the root and for the
/// empty path, `""` for a single relative component, `/` for a file at the
/// root.
pub open spec fn parent_spec(s: Seq<char>) -> Option<Seq<char>> {
    if s.len() == 0 || s == seq!['/'] {
        None
    } else {
        match last_slash(s) {
            None => Some(Seq::<char>::empty()),
            Some(k) => if k == 0 { Some(seq!['/']) } else { Some(s.subrange(0, k)) },
        }
    }
}

/// The directory searched next to a file: its parent, or `.` when it has none.
pub open spec fn dir_of(s: Seq<char>) -> Seq<char> {
    match parent_spec(s) {
        Some(d) => d,
        None => seq!['.'],
    }
}

/// `b` appended to `a` as a further component.
pub open spec fn join_spec(a: Seq<char>, b: Seq<char>) -> Seq<char> {
    if a.len() == 0 {
        b
    } else if a.last() == '/' {
        a + b
    } else {
        a + seq!['/'] + b
    }
}

/// Whether the components of `root` are a prefix of those of `p`.
pub open spec fn starts_with_spec(p: Seq<char>, root: Seq<char>) -> bool {
    if root.len() == 0 {
        p.len() == 0 || p[0] != '/'
    } else {
        p == root || (root.len() < p.len() && p.subrange(0, root.len() as int) == root
            && (root.last() == '/' || p[root.len() as int] == '/'))
    }
}

/// The final component of a path.
pub open spec fn file_name_spec(s: Seq<char>) -> Seq<char> {
    match last_slash(s) {
        None => s,
        Some(k) => s.subrange(k + 1, s.len() as int),
    }
}

/// Index of the last `.` in `s`, if any.
pub open spec fn last_dot(s: Seq<char>) -> Option<int>
    decreases s.len(),
{
    if s.len() == 0 {
        None
    } else if s.last() == '.' {
        Some(s.len() - 1)
    } else {
        last_dot(s.drop_last())
    }
}

/// The extension of a path: the text after the last `.` of its file name,
/// when that dot is not the name's first character.
pub open spec fn extension_spec(s: Seq<char>) -> Option<Seq<char>> {
    let name = file_name_spec(s);
    match last_dot(name) {
        Some(k) => if k > 0 { Some(name.subrange(k + 1, name.len() as int)) } else { None },
        None => None,
    }
}

/// View of an optional string.
pub open spec fn opt_text(o: Option<String>) -> Option<Seq<char>> {
    match o {
        Some(s) => Some(s@),
        None => None,
    }
}

fn last_index_of(v: &Vec<char>, c: char) -> (r: Option<usize>)
    ensures
        r matches Some(k) ==> k < v@.len() && v@[k as int] == c,
        c == '/' ==> (match r { Some(k) => last_slash(v@) == Some(k as int), None => last_slash(v@) is None }),
        c == '.' ==> (match r { Some(k) => last_dot(v@) == Some(k as int), None => last_dot(v@) is None }),
{
    proof {
        lemma_full_range(v@);
    }
    let mut i: usize = v.len();
    while i > 0
        invariant
            i <= v@.len(),
            c == '/' ==> last_slash(v@) == last_slash(v@.subrange(0, i as int)),
            c == '.' ==> last_dot(v@) == last_dot(v@.subrange(0, i as int)),
        decreases i,
    {
        proof {
            assert(v@.subrange(0, i as int).drop_last() =~= v@.subrange(0, i - 1));
            assert(v@.subrange(0, i as int).last() == v@[i - 1]);
        }
        if v[i - 1] == c {
            return Some(i - 1);
        }
        i = i - 1;
    }
    proof {
        assert(v@.subrange(0, 0) =~= Seq::<char>::empty());
    }
    None
}

proof fn lemma_full_range(v: Seq<char>)
    ensures
        v.subrange(0, v.len() as int) == v,
{
    assert(v.subrange(0, v.len() as int) =~= v);
}

/// The directory part of `path` (see [`parent_spec`]).
pub fn parent_dir(path: &str) -> (r: Option<String>)
    ensures
        opt_text(r) == parent_spec(path@),
{
    let v = chars_of(path);
    if v.len() == 0 || (v.len() == 1 && v[0] == '/') {
        proof {
            if v@.len() == 1 {
                assert(path@ =~= seq!['/']);
            }
        }
        return None;
    }
    proof {
        assert(path@ != seq!['/']) by {
            if path@ == seq!['/'] {
                assert(path@.len() == 1 && path@[0] == '/');
            }
        }
    }
    match last_index_of(&v, '/') {
        None => Some(String::new()),
        Some(k) => {
            if k == 0 {
                let mut s = String::new();
                push_char(&mut s, '/');
                proof {
                    assert(s@ =~= seq!['/']);
                }
                Some(s)
            } else {
                Some(string_from_range(&v, 0, k))
            }
        },
    }
}

/// The directory searched for modules declared in `file` (see [`dir_of`]).
pub fn dir_of_file(file: &str) -> (r: String)
    ensures
        r@ == dir_of(file@),
{
    match parent_dir(file) {
        Some(d) => d,
        None => {
            let mut s = String::new();
            push_char(&mut s, '.');
            proof {
                assert(s@ =~= seq!['.']);
            }
            s
        },
    }
}

/// `b` joined to `a` as a further component (see [`join_spec`]).
pub fn join_path(a: &str, b: &str) -> (r: String)
    ensures
        r@ == join_spec(a@, b@),
{
    let va = chars_of(a);
    let mut s = String::new();
    push_str(&mut s, a);
    if va.len() > 0 && va[va.len() - 1] != '/' {
        push_char(&mut s, '/');
    }
    push_str(&mut s, b);
    proof {
        if a@.len() == 0 {
            assert(s@ =~= b@);
        } else if a@.last() == '/' {
            assert(s@ =~= a@ + b@);
        } else {
            assert(s@ =~= a@ + seq!['/'] + b@);
        }
    }
    s
}

/// Whether `root` is a leading run of whole components of `p`.
pub fn path_starts_with(p: &str, root: &str) -> (r: bool)
    ensures
        r == starts_with_spec(p@, root@),
{
    let vp = chars_of(p);
    let vr = chars_of(root);
    if vr.len() == 0 {
        return vp.len() == 0 || vp[0] != '/';
    }
    if vr.len() > vp.len() {
        proof {
            assert(p@ != root@);
        }
        return false;
    }
    let mut i: usize = 0;
    while i < vr.len()
        invariant
            vr@ == root@,
            vp@ == p@,
            vr@.len() <= vp@.len(),
            i <= vr@.len(),
            forall|j: int| 0 <= j < i ==> vp@[j] == vr@[j],
        decreases vr@.len() - i,
    {
        if vp[i] != vr[i] {
            proof {
                assert(p@ != root@);
                assert(p@.subrange(0, root@.len() as int)[i as int] != root@[i as int]);
            }
            return false;
        }
        i = i + 1;
    }
    proof {
        assert(p@.subrange(0, root@.len() as int) =~= root@);
    }
    if vr.len() == vp.len() {
        proof {
            assert(p@ =~= root@);
        }
        return true;
    }
    vr[vr.len() - 1] == '/' || vp[vr.len()] == '/'
}

/// The extension of `path` (see [`extension_spec`]).
pub fn extension(path: &str) -> (r: Option<String>)
    ensures
        opt_text(r) == extension_spec(path@),
{
    let v = chars_of(path);
    let name = match last_index_of(&v, '/') {
        None => {
            proof {
                lemma_full_range(v@);
            }
            string_from_range(&v, 0, v.len())
        },
        Some(k) => string_from_range(&v, k + 1, v.len()),
    };
    let vn = chars_of(name.as_str());
    match last_index_of(&vn, '.') {
        Some(k) => {
            if k > 0 {
                Some(string_from_range(&vn, k + 1, vn.len()))
            } else {
                None
            }
        },
        None => None,
    }
}

/// Whether `path` names an Aevia source file (extension `ae`).
pub fn is_ae_file(path: &str) -> (r: bool)
    ensures
        r == (extension_spec(path@) == Some(seq!['a', 'e'])),
{
    match extension(path) {
        Some(e) => {
            let v = chars_of(e.as_str());
            let r = v.len() == 2 && v[0] == 'a' && v[1] == 'e';
            proof {
                if r {
                    assert(e@ =~= seq!['a', 'e']);
                } else if e@ == seq!['a', 'e'] {
                    assert(v@.len() == 2 && v@[0] == 'a' && v@[1] == 'e');
                }
            }
            r
        },
        None => false,
    }
}

/// The files that may hold `mod name;` declared in `declaring_file`, in the
/// order they are tried: next to the file, then under its `modules/`
/// directory, and, inside a project, under the project's `src/` and
/// `src/modules/` directories.
pub open spec fn candidates_spec(declaring_file: Seq<char>, name: Seq<char>, root: Option<Seq<char>>) -> Seq<Seq<char>> {
    let dir = dir_of(declaring_file);
    let file = name + ".ae"@;
    let near = seq![
        join_spec(dir, file),
        join_spec(join_spec(dir, name), "mod.ae"@),
        join_spec(join_spec(dir, "modules"@), file),
        join_spec(join_spec(join_spec(dir, "modules"@), name), "mod.ae"@),
    ];
    match root {
        None => near,
        Some(r) => near + seq![
            join_spec(join_spec(r, "src"@), file),
            join_spec(join_spec(join_spec(r, "src"@), name), "mod.ae"@),
            join_spec(join_spec(r, "src/modules"@), file),
            join_spec(join_spec(join_spec(r, "src/modules"@), name), "mod.ae"@),
        ],
    }
}

/// The candidate files of `mod name;` declared in `declaring_file`, where
/// `project_root` is the root of the enclosing project, if any.
pub fn mod_path_candidates(declaring_file: &str, name: &str, project_root: &Option<String>) -> (r: Vec<String>)
    ensures
        r@.map_values(|s: String| s@) == candidates_spec(declaring_file@, name@, opt_text(*project_root)),
{
    let dir = dir_of_file(declaring_file);
    let mut file = String::new();
    push_str(&mut file, name);
    push_str(&mut file, ".ae");
    let mut out: Vec<String> = Vec::new();
    out.push(join_path(dir.as_str(), file.as_str()));
    let sub = join_path(dir.as_str(), name);
    out.push(join_path(sub.as_str(), "mod.ae"));
    let mdir = join_path(dir.as_str(), "modules");
    out.push(join_path(mdir.as_str(), file.as_str()));
    let msub = join_path(mdir.as_str(), name);
    out.push(join_path(msub.as_str(), "mod.ae"));
    let ghost near = out@.map_values(|s: String| s@);
    proof {
        assert(near =~= candidates_spec(declaring_file@, name@, None));
    }
    match project_root {
        None => {},
        Some(root) => {
            let src = join_path(root.as_str(), "src");
            out.push(join_path(src.as_str(), file.as_str()));
            let ssub = join_path(src.as_str(), name);
            out.push(join_path(ssub.as_str(), "mod.ae"));
            let smod = join_path(root.as_str(), "src/modules");
            out.push(join_path(smod.as_str(), file.as_str()));
            let smsub = join_path(smod.as_str(), name);
            out.push(join_path(smsub.as_str(), "mod.ae"));
        },
    }
    proof {
        assert(out@.map_values(|s: String| s@) =~= candidates_spec(declaring_file@, name@, opt_text(*project_root)));
    }
    out
}

/// The first candidate that exists, if any.
pub open spec fn first_found(found: Seq<bool>) -> Option<int>
    decreases found.len(),
{
    if found.len() == 0 {
        None
    } else if found[0] {
        Some(0)
    } else {
        match first_found(found.drop_first()) {
            Some(k) => Some(k + 1),
            None => None,
        }
    }
}

/// The error for a module none of whose candidate files exists.
pub open spec fn module_not_found_text(declaring_file: Seq<char>, name: Seq<char>) -> Seq<char> {
    "cannot find module `"@ + name + "` (searched near "@ + dir_of(declaring_file) + ")"@
}

/// The message of a module none of whose candidate files exists.
pub fn module_not_found(declaring_file: &str, name: &str) -> (e: AeviaError)
    ensures
        e matches AeviaError::Message(m) && m@ == module_not_found_text(declaring_file@, name@),
{
    let mut m = String::new();
    push_str(&mut m, "cannot find module `");
    push_str(&mut m, name);
    push_str(&mut m, "` (searched near ");
    let dir = dir_of_file(declaring_file);
    push_str(&mut m, dir.as_str());
    push_str(&mut m, ")");
    proof {
        assert(m@ =~= module_not_found_text(declaring_file@, name@));
    }
    AeviaError::message(m)
}

/// Resolves `mod name;` declared in `declaring_file` to the first of
/// `candidates` that is a file (`is_file[i]` tells whether `candidates[i]`
/// is one), or to the error naming the directory searched.
pub fn resolve_mod_path(declaring_file: &str, name: &str, candidates: &Vec<String>, is_file: &Vec<bool>) -> (r: Result<String, AeviaError>)
    requires
        candidates@.len() == is_file@.len(),
    ensures
        match first_found(is_file@) {
            Some(k) => r matches Ok(p) && p@ == candidates@[k]@,
            None => r matches Err(AeviaError::Message(m)) && m@ == module_not_found_text(declaring_file@, name@),
        },
{
    proof {
        assert(is_file@.subrange(0, is_file@.len() as int) =~= is_file@);
    }
    let mut i: usize = 0;
    while i < is_file.len()
        invariant
            candidates@.len() == is_file@.len(),
            i <= is_file@.len(),
            first_found(is_file@) == match first_found(is_file@.subrange(i as int, is_file@.len() as int)) {
                Some(k) => Some(k + i),
                None => None,
            },
        decreases is_file@.len() - i,
    {
        proof {
            let rest = is_file@.subrange(i as int, is_file@.len() as int);
            assert(rest.drop_first() =~= is_file@.subrange(i + 1, is_file@.len() as int));
            assert(rest[0] == is_file@[i as int]);
        }
        if is_file[i] {
            return Ok(candidates[i].clone());
        }
        i = i + 1;
    }
    proof {
        assert(is_file@.subrange(i as int, is_file@.len() as int) =~= Seq::<bool>::empty());
    }
    Err(module_not_found(declaring_file, name))
}

} // verus!
