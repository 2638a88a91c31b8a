//! Doc comment extraction (`//!`, `///`) before parsing.
use vstd::prelude::*;
use crate::ast::{SourceFile, item_doc, has_doc_slot, Item, Spanned, item_node_view, view_with_doc};
use crate::parser::lex::{is_whitespace, spec_is_whitespace, lit_at};
use crate::text::{chars_of, push_char, push_chars_range, string_from_range};

verus! {

/// Prepared source: code without doc/comment lines plus extracted docs.
#[derive(Debug, Clone)]
pub struct PreparedSource {
    pub code: String,
    pub module_doc: Option<String>,
    /// One entry per top-level item, in source order.
    pub item_docs: Vec<Option<String>>,
}

/// Index of the first `\n` at or after `pos` (the length when there is none).
pub open spec fn nl_index(s: Seq<char>, pos: int) -> int
    decreases s.len() - pos,
{
    if pos >= s.len() || pos < 0 {
        s.len() as int
    } else if s[pos] == '\n' {
        pos
    } else {
        nl_index(s, pos + 1)
    }
}

/// A line without its trailing `\r`.
pub open spec fn strip_cr(t: Seq<char>) -> Seq<char> {
    if t.len() > 0 && t.last() == '\r' { t.drop_last() } else { t }
}

/// First index in `[i, hi)` of a non-whitespace character (`hi` if none).
pub open spec fn ws_skip(t: Seq<char>, i: int, hi: int) -> int
    decreases hi - i,
{
    if i < hi && spec_is_whitespace(t[i]) { ws_skip(t, i + 1, hi) } else { i }
}

/// End of `t[lo..hi)` once trailing whitespace is removed.
pub open spec fn ws_trim_end(t: Seq<char>, lo: int, hi: int) -> int
    decreases hi - lo,
{
    if hi > lo && spec_is_whitespace(t[hi - 1]) { ws_trim_end(t, lo, hi - 1) } else { hi }
}

/// `t` without leading whitespace.
pub open spec fn trim_start(t: Seq<char>) -> Seq<char> {
    t.subrange(ws_skip(t, 0, t.len() as int), t.len() as int)
}

/// `t` without leading and trailing whitespace.
pub open spec fn trim(t: Seq<char>) -> Seq<char> {
    let lo = ws_skip(t, 0, t.len() as int);
    t.subrange(lo, ws_trim_end(t, lo, t.len() as int))
}

/// Whether `t` starts with `p`.
pub open spec fn starts_with(t: Seq<char>, p: Seq<char>) -> bool {
    t.len() >= p.len() && t.subrange(0, p.len() as int) == p
}

/// Whether a (left-trimmed) line starts a top-level item.
pub open spec fn item_start(t: Seq<char>) -> bool {
    starts_with(t, "fn "@) || starts_with(t, "type "@) || starts_with(t, "struct "@)
        || starts_with(t, "use "@) || starts_with(t, "mod "@) || starts_with(t, "op "@)
        || starts_with(t, "#["@) || starts_with(t, "pub "@) || starts_with(t, "pub("@)
}

/// Lines joined with `\n`.
pub open spec fn join_nl(lines: Seq<Seq<char>>) -> Seq<char>
    decreases lines.len(),
{
    if lines.len() == 0 {
        Seq::empty()
    } else if lines.len() == 1 {
        lines[0]
    } else {
        join_nl(lines.drop_last()) + seq!['\n'] + lines.last()
    }
}

/// The joined lines, or `None` when there are none.
pub open spec fn joined(lines: Seq<Seq<char>>) -> Option<Seq<char>> {
    if lines.len() == 0 { None } else { Some(join_nl(lines)) }
}

/// State of the line-by-line scan: besides what is collected, the depth of
/// open braces before the line and whether the last line was an attribute
/// that begins an item.
pub struct PrepState {
    pub code: Seq<char>,
    pub module_lines: Seq<Seq<char>>,
    pub item_docs: Seq<Option<Seq<char>>>,
    pub pending: Seq<Seq<char>>,
    pub depth: nat,
    pub attr: bool,
}

/// The depth of open braces after `line`, starting from `d` (a `}` at depth
/// zero is ignored).
pub open spec fn brace_depth(line: Seq<char>, d: nat) -> nat
    decreases line.len(),
{
    if line.len() == 0 {
        d
    } else {
        let c = line[0];
        let d1: nat = if c == '{' { d + 1 } else if c == '}' { if d > 0 { (d - 1) as nat } else { 0 } } else { d };
        brace_depth(line.drop_first(), d1)
    }
}

/// Whether a left-trimmed line is an attribute alone: `#[` ... `]`.
pub open spec fn attr_line(t: Seq<char>) -> bool {
    let e = ws_trim_end(t, 0, t.len() as int);
    starts_with(t, "#["@) && e > 0 && t[e - 1] == ']'
}

/// The effect of one line: `//!` lines feed the module doc, `///` lines
/// the pending item doc, other `//` lines are dropped, blank lines keep an
/// empty line, and code lines are kept; a code line outside every brace
/// that starts an item takes the pending doc, unless it follows an
/// attribute line that already took it for the same item; a code line
/// inside braces drops the pending doc, which belongs to no top-level item.
pub open spec fn prep_step(st: PrepState, line: Seq<char>) -> PrepState {
    let t = trim_start(line);
    if starts_with(t, "//!"@) {
        PrepState { module_lines: st.module_lines.push(trim(t.subrange(3, t.len() as int))), ..st }
    } else if starts_with(t, "///"@) {
        PrepState { pending: st.pending.push(trim(t.subrange(3, t.len() as int))), ..st }
    } else if starts_with(t, "//"@) {
        st
    } else if t.len() == 0 {
        PrepState { code: st.code.push('\n'), ..st }
    } else {
        let starts = st.depth == 0 && item_start(t);
        let entry = starts && !st.attr;
        PrepState {
            code: st.code + line + seq!['\n'],
            item_docs: if entry { st.item_docs.push(joined(st.pending)) } else { st.item_docs },
            pending: if entry || st.depth > 0 { Seq::empty() } else { st.pending },
            depth: brace_depth(line, st.depth),
            attr: starts && attr_line(t),
            ..st
        }
    }
}

/// The scan of the lines of `s` from `pos` on, starting in state `st`.
pub open spec fn prep_from(s: Seq<char>, pos: int, st: PrepState) -> PrepState
    decreases s.len() + 1 - pos,
{
    if pos >= s.len() || pos < 0 {
        st
    } else {
        let e = nl_index(s, pos);
        proof {
            lemma_nl_index_bounds(s, pos);
        }
        prep_from(s, e + 1, prep_step(st, strip_cr(s.subrange(pos, e))))
    }
}

/// The scan of a whole source text.
pub open spec fn prep(s: Seq<char>) -> PrepState {
    prep_from(s, 0, PrepState { code: Seq::empty(), module_lines: Seq::empty(), item_docs: Seq::empty(), pending: Seq::empty(), depth: 0, attr: false })
}

pub proof fn lemma_nl_index_bounds(s: Seq<char>, pos: int)
    requires
        0 <= pos <= s.len(),
    ensures
        pos <= nl_index(s, pos) <= s.len(),
        nl_index(s, pos) < s.len() ==> s[nl_index(s, pos)] == '\n',
    decreases s.len() - pos,
{
    if pos < s.len() && s[pos] != '\n' {
        lemma_nl_index_bounds(s, pos + 1);
    }
}

pub(crate) fn find_nl(s: &Vec<char>, pos: usize) -> (e: usize)
    requires
        pos <= s.len(),
    ensures
        e == nl_index(s@, pos as int),
        pos <= e <= s.len(),
{
    let mut e = pos;
    proof { lemma_nl_index_bounds(s@, pos as int); }
    while e < s.len() && s[e] != '\n'
        invariant
            pos <= e <= s.len(),
            nl_index(s@, pos as int) == nl_index(s@, e as int),
        decreases s.len() - e,
    {
        e = e + 1;
    }
    e
}

fn skip_ws_range(s: &Vec<char>, lo: usize, hi: usize) -> (r: usize)
    requires
        lo <= hi <= s.len(),
    ensures
        r == ws_skip(s@, lo as int, hi as int),
        lo <= r <= hi,
{
    let mut i = lo;
    while i < hi && is_whitespace(s[i])
        invariant
            lo <= i <= hi,
            hi <= s@.len(),
            ws_skip(s@, lo as int, hi as int) == ws_skip(s@, i as int, hi as int),
        decreases hi - i,
    {
        i = i + 1;
    }
    i
}

fn trim_end_range(s: &Vec<char>, lo: usize, hi: usize) -> (r: usize)
    requires
        lo <= hi <= s.len(),
    ensures
        r == ws_trim_end(s@, lo as int, hi as int),
        lo <= r <= hi,
{
    let mut j = hi;
    while j > lo && is_whitespace(s[j - 1])
        invariant
            lo <= j <= hi,
            hi <= s@.len(),
            ws_trim_end(s@, lo as int, hi as int) == ws_trim_end(s@, lo as int, j as int),
        decreases j - lo,
    {
        j = j - 1;
    }
    j
}

proof fn lemma_ws_skip_shift(s: Seq<char>, lo: int, hi: int, i: int)
    requires
        0 <= lo <= i <= hi <= s.len(),
    ensures
        ws_skip(s.subrange(lo, hi), i - lo, hi - lo) + lo == ws_skip(s, i, hi),
    decreases hi - i,
{
    if i < hi {
        assert(s.subrange(lo, hi)[i - lo] == s[i]);
        if spec_is_whitespace(s[i]) {
            lemma_ws_skip_shift(s, lo, hi, i + 1);
        }
    }
}

proof fn lemma_ws_trim_end_shift(s: Seq<char>, base: int, lo: int, hi: int, top: int)
    requires
        0 <= base <= lo <= hi <= top <= s.len(),
    ensures
        ws_trim_end(s.subrange(base, top), lo - base, hi - base) + base == ws_trim_end(s, lo, hi),
    decreases hi - lo,
{
    if hi > lo {
        assert(s.subrange(base, top)[hi - 1 - base] == s[hi - 1]);
        if spec_is_whitespace(s[hi - 1]) {
            lemma_ws_trim_end_shift(s, base, lo, hi - 1, top);
        }
    }
}

fn starts_with_at(s: &Vec<char>, lo: usize, hi: usize, p: &str) -> (r: bool)
    requires
        lo <= hi <= s.len(),
    ensures
        r == starts_with(s@.subrange(lo as int, hi as int), p@),
{
    let ok = lit_at(s, lo, p);
    let w = chars_of(p);
    let r = ok && lo + w.len() <= hi;
    proof {
        let t = s@.subrange(lo as int, hi as int);
        if r {
            assert(t.subrange(0, p@.len() as int) =~= s@.subrange(lo as int, lo + p@.len()));
        }
        if starts_with(t, p@) {
            assert(t.subrange(0, p@.len() as int) =~= s@.subrange(lo as int, lo + p@.len()));
        }
    }
    r
}

fn is_item_start_at(s: &Vec<char>, lo: usize, hi: usize) -> (r: bool)
    requires
        lo <= hi <= s.len(),
    ensures
        r == item_start(s@.subrange(lo as int, hi as int)),
{
    starts_with_at(s, lo, hi, "fn ") || starts_with_at(s, lo, hi, "type ")
        || starts_with_at(s, lo, hi, "struct ") || starts_with_at(s, lo, hi, "use ")
        || starts_with_at(s, lo, hi, "mod ") || starts_with_at(s, lo, hi, "op ")
        || starts_with_at(s, lo, hi, "#[") || starts_with_at(s, lo, hi, "pub ")
        || starts_with_at(s, lo, hi, "pub(")
}

/// The brace depth after `s[lo..hi)`, starting from `d`.
fn line_depth(s: &Vec<char>, lo: usize, hi: usize, d: usize) -> (r: usize)
    requires
        lo <= hi <= s.len(),
        d <= lo,
    ensures
        r == brace_depth(s@.subrange(lo as int, hi as int), d as nat),
        r <= hi,
{
    let mut k = lo;
    let mut cur = d;
    proof {
        assert(s@.subrange(lo as int, hi as int) =~= s@.subrange(k as int, hi as int));
    }
    while k < hi
        invariant
            lo <= k <= hi,
            hi <= s@.len(),
            cur <= k,
            brace_depth(s@.subrange(lo as int, hi as int), d as nat) == brace_depth(s@.subrange(k as int, hi as int), cur as nat),
        decreases hi - k,
    {
        proof {
            assert(s@.subrange(k as int, hi as int).drop_first() =~= s@.subrange(k + 1, hi as int));
            assert(s@.subrange(k as int, hi as int)[0] == s@[k as int]);
        }
        if s[k] == '{' {
            cur = cur + 1;
        } else if s[k] == '}' {
            if cur > 0 {
                cur = cur - 1;
            }
        }
        k = k + 1;
    }
    cur
}

/// Whether the left-trimmed line `s[lo..hi)` is an attribute alone.
fn is_attr_line_at(s: &Vec<char>, lo: usize, hi: usize) -> (r: bool)
    requires
        lo <= hi <= s.len(),
    ensures
        r == attr_line(s@.subrange(lo as int, hi as int)),
{
    let e = trim_end_range(s, lo, hi);
    proof {
        lemma_ws_trim_end_shift(s@, lo as int, lo as int, hi as int, hi as int);
    }
    starts_with_at(s, lo, hi, "#[") && e > lo && s[e - 1] == ']'
}

/// Strip comment lines from `source`, keeping `//!` lines as the module doc
/// and `///` lines as the doc of the next item.
#[verifier::rlimit(80)]
pub fn prepare_source(source: &str) -> (r: PreparedSource)
    ensures
        r.code@ == prep(source@).code,
        name_opt(r.module_doc) == joined(prep(source@).module_lines),
        r.item_docs@.map_values(|d: Option<String>| name_opt(d)) == prep(source@).item_docs,
{
    let s = chars_of(source);
    let mut code = String::new();
    let mut module_lines: Vec<String> = Vec::new();
    let mut item_docs: Vec<Option<String>> = Vec::new();
    let mut pending: Vec<String> = Vec::new();
    let mut pos: usize = 0;
    let mut depth: usize = 0;
    let mut attr = false;
    proof {
        assert(item_docs@.map_values(|d: Option<String>| name_opt(d)) =~= Seq::<Option<Seq<char>>>::empty());
        assert(strings_view(module_lines@) =~= Seq::<Seq<char>>::empty());
        assert(strings_view(pending@) =~= Seq::<Seq<char>>::empty());
    }
    while pos < s.len()
        invariant
            pos <= s.len(),
            s@ == source@,
            prep(s@) == prep_from(s@, pos as int, PrepState {
                code: code@,
                module_lines: strings_view(module_lines@),
                item_docs: item_docs@.map_values(|d: Option<String>| name_opt(d)),
                pending: strings_view(pending@),
                depth: depth as nat,
                attr,
            }),
            depth <= pos,
        decreases s.len() - pos,
    {
        let ghost st = PrepState {
            code: code@,
            module_lines: strings_view(module_lines@),
            item_docs: item_docs@.map_values(|d: Option<String>| name_opt(d)),
            pending: strings_view(pending@),
            depth: depth as nat,
            attr,
        };
        let e = find_nl(&s, pos);
        let mut le = e;
        if le > pos && s[le - 1] == '\r' {
            le = le - 1;
        }
        let ghost line = strip_cr(s@.subrange(pos as int, e as int));
        proof {
            assert(line =~= s@.subrange(pos as int, le as int));
        }
        let t0 = skip_ws_range(&s, pos, le);
        let ghost t = trim_start(line);
        proof {
            lemma_ws_skip_shift(s@, pos as int, le as int, pos as int);
            assert(t =~= s@.subrange(t0 as int, le as int));
        }
        let is_mod = starts_with_at(&s, t0, le, "//!");
        let is_item_doc = starts_with_at(&s, t0, le, "///");
        let is_comment = starts_with_at(&s, t0, le, "//");
        proof { reveal_strlit("//!"); reveal_strlit("///"); reveal_strlit("//"); }
        if is_mod || is_item_doc {
            let a = skip_ws_range(&s, t0 + 3, le);
            let b = trim_end_range(&s, a, le);
            let text = string_from_range(&s, a, b);
            proof {
                let u = t.subrange(3, t.len() as int);
                assert(u =~= s@.subrange(t0 + 3, le as int));
                lemma_ws_skip_shift(s@, t0 + 3, le as int, t0 + 3);
                lemma_ws_trim_end_shift(s@, t0 + 3, a as int, le as int, le as int);
                assert(trim(u) =~= s@.subrange(a as int, b as int));
            }
            if is_mod {
                module_lines.push(text);
                proof {
                    assert(strings_view(module_lines@) =~= st.module_lines.push(trim(t.subrange(3, t.len() as int))));
                }
            } else {
                pending.push(text);
                proof {
                    assert(strings_view(pending@) =~= st.pending.push(trim(t.subrange(3, t.len() as int))));
                }
            }
        } else if is_comment {
        } else if t0 == le {
            push_char(&mut code, '\n');
        } else {
            let starts = depth == 0 && is_item_start_at(&s, t0, le);
            if starts && !attr {
                let d = flush_doc(&mut pending);
                let ghost dv = name_opt(d);
                item_docs.push(d);
                proof {
                    assert(item_docs@.map_values(|d: Option<String>| name_opt(d)) =~= st.item_docs.push(dv));
                    assert(strings_view(pending@) =~= Seq::<Seq<char>>::empty());
                }
            }
            if depth > 0 {
                pending.clear();
                proof {
                    assert(strings_view(pending@) =~= Seq::<Seq<char>>::empty());
                }
            }
            attr = starts && is_attr_line_at(&s, t0, le);
            depth = line_depth(&s, pos, le, depth);
            push_chars_range(&mut code, &s, pos, le);
            push_char(&mut code, '\n');
            proof {
                assert(code@ =~= st.code + line + seq!['\n']);
            }
        }
        proof {
            lemma_nl_index_bounds(s@, pos as int);
            let st2 = PrepState {
                code: code@,
                module_lines: strings_view(module_lines@),
                item_docs: item_docs@.map_values(|d: Option<String>| name_opt(d)),
                pending: strings_view(pending@),
                depth: depth as nat,
                attr,
            };
            assert(st2 == prep_step(st, line));
            assert(prep_from(s@, pos as int, st) == prep_from(s@, e + 1, prep_step(st, line)));
        }
        if e < s.len() {
            pos = e + 1;
        } else {
            pos = s.len();
        }
    }
    let module_doc = join_lines(&module_lines);
    PreparedSource { code, module_doc, item_docs }
}

/// The model of an optional string.
pub open spec fn name_opt(d: Option<String>) -> Option<Seq<char>> {
    match d {
        Some(x) => Some(x@),
        None => None,
    }
}

/// The model of a list of strings.
pub open spec fn strings_view(v: Seq<String>) -> Seq<Seq<char>> {
    v.map_values(|x: String| x@)
}

/// The lines joined with `\n`, or `None` when there are none.
fn join_lines(lines: &Vec<String>) -> (r: Option<String>)
    ensures
        name_opt(r) == joined(strings_view(lines@)),
{
    if lines.len() == 0 {
        return None;
    }
    let mut out = String::new();
    let mut i: usize = 0;
    while i < lines.len()
        invariant
            i <= lines@.len(),
            out@ == join_nl(strings_view(lines@.subrange(0, i as int))),
        decreases lines@.len() - i,
    {
        if i > 0 {
            push_char(&mut out, '\n');
        }
        crate::text::push_str(&mut out, lines[i].as_str());
        proof {
            let sub = strings_view(lines@.subrange(0, i + 1));
            assert(sub.drop_last() =~= strings_view(lines@.subrange(0, i as int)));
            assert(sub.last() == lines@[i as int]@);
            assert(out@ =~= join_nl(sub));
        }
        i = i + 1;
    }
    proof {
        assert(lines@.subrange(0, lines@.len() as int) =~= lines@);
    }
    Some(out)
}

/// The pending doc lines joined (`None` when there are none); the pending list is emptied.
fn flush_doc(pending: &mut Vec<String>) -> (r: Option<String>)
    ensures
        name_opt(r) == joined(strings_view(old(pending)@)),
        final(pending)@.len() == 0,
{
    let r = join_lines(pending);
    pending.clear();
    r
}

/// Attach extracted docs to parsed items, by index: item `i` receives
/// `docs[i]` for every index both lists have.
pub fn attach_item_docs(file: &mut SourceFile, docs: Vec<Option<String>>)
    ensures
        final(file).doc == old(file).doc,
        final(file).items@.len() == old(file).items@.len(),
        forall|i: int| 0 <= i < old(file).items@.len() ==> (#[trigger] final(file).items@[i]).span == old(file).items@[i].span,
        forall|i: int| 0 <= i < old(file).items@.len() && i < docs@.len() && has_doc_slot(old(file).items@[i].node)
            ==> item_doc((#[trigger] final(file).items@[i]).node) == docs@[i],
        forall|i: int| 0 <= i < old(file).items@.len() && !(i < docs@.len() && has_doc_slot(old(file).items@[i].node))
            ==> (#[trigger] final(file).items@[i]) == old(file).items@[i],
        forall|i: int| 0 <= i < old(file).items@.len() ==> item_node_view((#[trigger] final(file).items@[i]).node) == (
            if i < docs@.len() {
                view_with_doc(item_node_view(old(file).items@[i].node), name_opt(docs@[i]))
            } else {
                item_node_view(old(file).items@[i].node)
            }),
{
    let mut docs = docs;
    let n = if file.items.len() < docs.len() { file.items.len() } else { docs.len() };
    let ghost d0 = docs@;
    let mut i: usize = 0;
    while i < n
        invariant
            n <= file.items@.len(),
            n <= d0.len(),
            i <= n,
            docs@.len() == d0.len(),
            forall|j: int| i <= j < d0.len() ==> docs@[j] == d0[j],
            file.doc == old(file).doc,
            file.items@.len() == old(file).items@.len(),
            forall|j: int| 0 <= j < old(file).items@.len() ==> (#[trigger] file.items@[j]).span == old(file).items@[j].span,
            forall|j: int| 0 <= j < i && has_doc_slot(old(file).items@[j].node)
                ==> item_doc((#[trigger] file.items@[j]).node) == d0[j],
            forall|j: int| 0 <= j < old(file).items@.len() && !(j < i && has_doc_slot(old(file).items@[j].node))
                ==> (#[trigger] file.items@[j]) == old(file).items@[j],
            forall|j: int| 0 <= j < i ==> item_node_view((#[trigger] file.items@[j]).node)
                == view_with_doc(item_node_view(old(file).items@[j].node), name_opt(d0[j])),
            n == (if old(file).items@.len() < d0.len() { old(file).items@.len() } else { d0.len() }),
        decreases n - i,
    {
        let mut d: Option<String> = None;
        std::mem::swap(&mut d, &mut docs[i]);
        file.items[i].node.set_doc(d);
        i = i + 1;
    }
}

} // verus!
