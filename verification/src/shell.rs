//! What the interactive shell makes of an input line.
use vstd::prelude::*;
use crate::macro_expand::{trim, trim_ws};
use crate::text::{chars_of, push_str, string_from_range};

verus! {

/// A shell input line, classified.
#[derive(Debug, PartialEq, Eq)]
pub enum ShellCommand {
    /// A blank line.
    Empty,
    /// `:quit`, `:exit` or `:q`.
    Quit,
    /// `:help` or `:h`.
    Help,
    /// `:check <file.ae>`.
    Check(String),
    /// `:load <file.ae>`.
    Load(String),
    /// Anything else: an expression or a function to evaluate.
    Eval(String),
}

/// The shell's help text.
pub const SHELL_HELP: &'static str = r#"Commands:
  <expr>           Evaluate an expression (e.g. 0.5 * 2.0 * 3.0^2)
  :check <file.ae> Type-check a source file
  :load <file.ae>  Load, type-check, compile, and JIT-run the main function
  :help            Show this message
  :quit            Exit"#;

/// Whether `s` begins with `p`.
pub open spec fn starts_with(s: Seq<char>, p: Seq<char>) -> bool {
    p.len() <= s.len() && s.subrange(0, p.len() as int) == p
}

/// `s` with every leading repetition of `p` removed.
pub open spec fn strip_all(s: Seq<char>, p: Seq<char>) -> Seq<char>
    decreases s.len(),
{
    if p.len() > 0 && starts_with(s, p) {
        strip_all(s.subrange(p.len() as int, s.len() as int), p)
    } else {
        s
    }
}

/// The classification of a line (see [`ShellCommand`]).
pub open spec fn command_spec(line: Seq<char>) -> (int, Seq<char>) {
    let t = trim_ws(line);
    if t.len() == 0 {
        (0, t)
    } else if t == ":quit"@ || t == ":exit"@ || t == ":q"@ {
        (1, t)
    } else if t == ":help"@ || t == ":h"@ {
        (2, t)
    } else if starts_with(t, ":check "@) {
        (3, trim_ws(strip_all(t, ":check "@)))
    } else if starts_with(t, ":load "@) {
        (4, trim_ws(strip_all(t, ":load "@)))
    } else {
        (5, t)
    }
}

/// The model of a classified line: its kind and its text.
pub open spec fn command_view(c: ShellCommand) -> (int, Option<Seq<char>>) {
    match c {
        ShellCommand::Empty => (0, None),
        ShellCommand::Quit => (1, None),
        ShellCommand::Help => (2, None),
        ShellCommand::Check(p) => (3, Some(p@)),
        ShellCommand::Load(p) => (4, Some(p@)),
        ShellCommand::Eval(e) => (5, Some(e@)),
    }
}

fn begins_with(v: &Vec<char>, p: &str) -> (r: bool)
    ensures
        r == starts_with(v@, p@),
{
    let pv = chars_of(p);
    if pv.len() > v.len() {
        return false;
    }
    let mut i: usize = 0;
    while i < pv.len()
        invariant
            pv@ == p@,
            pv@.len() <= v@.len(),
            i <= pv@.len(),
            forall|k: int| 0 <= k < i ==> v@[k] == pv@[k],
        decreases pv@.len() - i,
    {
        if v[i] != pv[i] {
            proof {
                assert(v@.subrange(0, p@.len() as int)[i as int] != p@[i as int]);
            }
            return false;
        }
        i = i + 1;
    }
    proof {
        assert(v@.subrange(0, p@.len() as int) =~= p@);
    }
    true
}

fn strip_prefixes(s: &str, p: &str) -> (r: String)
    requires
        p@.len() > 0,
    ensures
        r@ == strip_all(s@, p@),
{
    let v = chars_of(s);
    let n = chars_of(p).len();
    let mut lo: usize = 0;
    proof {
        assert(v@.subrange(0, v@.len() as int) =~= v@);
    }
    while n <= v.len() - lo && begins_with_at(&v, lo, p)
        invariant
            v@ == s@,
            n == p@.len(),
            n > 0,
            lo <= v@.len(),
            strip_all(s@, p@) == strip_all(v@.subrange(lo as int, v@.len() as int), p@),
        decreases v@.len() - lo,
    {
        proof {
            let rest = v@.subrange(lo as int, v@.len() as int);
            assert(rest.subrange(n as int, rest.len() as int) =~= v@.subrange(lo + n, v@.len() as int));
        }
        lo = lo + n;
    }
    proof {
        let rest = v@.subrange(lo as int, v@.len() as int);
        assert(!starts_with(rest, p@));
    }
    string_from_range(&v, lo, v.len())
}

fn begins_with_at(v: &Vec<char>, lo: usize, p: &str) -> (r: bool)
    requires
        lo <= v@.len(),
    ensures
        r == starts_with(v@.subrange(lo as int, v@.len() as int), p@),
{
    let pv = chars_of(p);
    if pv.len() > v.len() - lo {
        proof {
            assert(v@.subrange(lo as int, v@.len() as int).len() < p@.len());
        }
        return false;
    }
    let ghost rest = v@.subrange(lo as int, v@.len() as int);
    let mut i: usize = 0;
    while i < pv.len()
        invariant
            pv@ == p@,
            lo + pv@.len() <= v@.len(),
            v@.len() <= usize::MAX,
            rest == v@.subrange(lo as int, v@.len() as int),
            i <= pv@.len(),
            forall|k: int| 0 <= k < i ==> rest[k] == pv@[k],
        decreases pv@.len() - i,
    {
        let j: usize = lo + i;
        if v[j] != pv[i] {
            proof {
                assert(rest.subrange(0, p@.len() as int)[i as int] != p@[i as int]);
            }
            return false;
        }
        i = i + 1;
    }
    proof {
        assert(rest.subrange(0, p@.len() as int) =~= p@);
    }
    true
}

fn text_is(v: &Vec<char>, t: &str) -> (r: bool)
    ensures
        r == (v@ == t@),
{
    let tv = chars_of(t);
    crate::text::chars_eq(v.as_slice(), tv.as_slice())
}

/// Classifies a shell input line.
pub fn parse_shell_line(line: &str) -> (r: ShellCommand)
    ensures
        command_view(r).0 == command_spec(line@).0,
        command_view(r).0 >= 3 ==> command_view(r).1 == Some(command_spec(line@).1),
{
    let t = trim(line);
    let v = chars_of(t.as_str());
    if v.len() == 0 {
        return ShellCommand::Empty;
    }
    if text_is(&v, ":quit") || text_is(&v, ":exit") || text_is(&v, ":q") {
        return ShellCommand::Quit;
    }
    if text_is(&v, ":help") || text_is(&v, ":h") {
        return ShellCommand::Help;
    }
    proof {
        reveal_strlit(":check ");
        reveal_strlit(":load ");
    }
    if begins_with(&v, ":check ") {
        let rest = strip_prefixes(t.as_str(), ":check ");
        return ShellCommand::Check(trim(rest.as_str()));
    }
    if begins_with(&v, ":load ") {
        let rest = strip_prefixes(t.as_str(), ":load ");
        return ShellCommand::Load(trim(rest.as_str()));
    }
    ShellCommand::Eval(t)
}

/// Whether `s` contains the text `fn `.
pub open spec fn mentions_fn(s: Seq<char>) -> bool {
    exists|i: int| 0 <= i && i + 3 <= s.len() && #[trigger] s.subrange(i, i + 3) == "fn "@
}

/// The source the shell evaluates for an input: a function definition as
/// given (with a closing `;` added when missing), or an expression wrapped
/// as the body of a function `__repl`.
pub open spec fn repl_source_spec(line: Seq<char>) -> Seq<char> {
    if mentions_fn(line) {
        if line.len() > 0 && line.last() == ';' { line } else { line + ";"@ }
    } else {
        "fn __repl() := "@ + line + ";"@
    }
}

/// The source the shell evaluates for an input line (see [`repl_source_spec`]).
pub fn repl_source(line: &str) -> (r: String)
    ensures
        r@ == repl_source_spec(line@),
{
    let v = chars_of(line);
    let mut found = false;
    let mut i: usize = 0;
    while v.len() >= 3 && i <= v.len() - 3 && !found
        invariant
            v@ == line@,
            !found ==> forall|k: int| 0 <= k < i ==> #[trigger] v@.subrange(k, k + 3) != "fn "@,
            found ==> mentions_fn(line@),
        decreases v@.len() + 1 - i,
    {
        let ghost w = v@.subrange(i as int, i + 3);
        if v[i] == 'f' && v[i + 1] == 'n' && v[i + 2] == ' ' {
            proof {
                assert(w =~= "fn "@) by {
                    reveal_strlit("fn ");
                }
            }
            found = true;
            i = i + 1;
        } else {
            proof {
                reveal_strlit("fn ");
                assert(w != "fn "@) by {
                    if w == "fn "@ {
                        assert(w[0] == 'f' && w[1] == 'n' && w[2] == ' ');
                    }
                }
            }
            i = i + 1;
        }
    }
    let mut s = String::new();
    if found {
        push_str(&mut s, line);
        if !(v.len() > 0 && v[v.len() - 1] == ';') {
            push_str(&mut s, ";");
        }
    } else {
        push_str(&mut s, "fn __repl() := ");
        push_str(&mut s, line);
        push_str(&mut s, ";");
    }
    proof {
        if !found {
            assert(!mentions_fn(line@));
        }
        assert(s@ =~= repl_source_spec(line@));
    }
    s
}

} // verus!
