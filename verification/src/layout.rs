use crate::model::RuleId;
use crate::scanner::{
    all_wf, lemma_scan_wf, node_wf, nodes_ordered, nodes_view, scan, scan_nodes_chars, SourceNode,
};
use crate::text::{is_ws, lines, line_ranges, rfind_char, rfind_char_in, trim, trim_bounds, unicode_ws};
use vstd::prelude::*;

verus! {

// ---------------------------------------------------------------------------
// Nodes of a source held as characters
// ---------------------------------------------------------------------------

/// Every node is well formed inside `s` and the nodes come in source order.
pub open spec fn nodes_ok(s: Seq<char>, ns: Seq<SourceNode>) -> bool {
    &&& forall|i: int| 0 <= i < ns.len() ==> node_wf(s, (#[trigger] ns[i])@, 0, s.len() as int)
    &&& forall|i: int, j: int| 0 <= i < j < ns.len() ==> (#[trigger] ns[i]).end <= (#[trigger] ns[j]).start
}

/// Every node lies inside `[a, b]`.
pub open spec fn nodes_within(ns: Seq<SourceNode>, a: int, b: int) -> bool {
    forall|i: int| 0 <= i < ns.len() ==> a <= (#[trigger] ns[i]).start && ns[i].end <= b
}

/// The top-level nodes of `s[a..b]`.
pub(crate) fn scan_in(s: &[char], a: usize, b: usize) -> (nodes: Vec<SourceNode>)
    requires
        a <= b <= s@.len(),
    ensures
        nodes_view(nodes@) == scan(s@, a as int, b as int),
        nodes_ok(s@, nodes@),
        nodes_within(nodes@, a as int, b as int),
{
    let nodes = scan_nodes_chars(s, a, b);
    proof {
        lemma_scan_wf(s@, a as int, b as int);
        let v = nodes_view(nodes@);
        assert forall|i: int| 0 <= i < nodes@.len() implies node_wf(s@, (#[trigger] nodes@[i])@, 0, s@.len() as int)
            && a <= nodes@[i].start && nodes@[i].end <= b by {
            assert(v[i] == nodes@[i]@);
            assert(node_wf(s@, v[i], a as int, b as int));
        }
        assert forall|i: int, j: int| 0 <= i < j < nodes@.len() implies (#[trigger] nodes@[i]).end <= (#[trigger] nodes@[j]).start by {
            assert(v[i] == nodes@[i]@);
            assert(v[j] == nodes@[j]@);
        }
    }
    nodes
}

/// Whether `r` is among the enabled rules.
pub(crate) fn rule_enabled(enabled: &[RuleId], r: RuleId) -> (b: bool)
    ensures
        b == enabled@.contains(r),
{
    let mut k: usize = 0;
    while k < enabled.len()
        invariant
            k <= enabled@.len(),
            forall|j: int| 0 <= j < k ==> enabled@[j] != r,
        decreases enabled.len() - k,
    {
        if enabled[k] == r {
            return true;
        }
        k = k + 1;
    }
    false
}

// ---------------------------------------------------------------------------
// Indentation and line numbers
// ---------------------------------------------------------------------------

pub open spec fn is_indent_char(c: char) -> bool {
    is_ws(c) && c != '\n' && c != '\r'
}

/// Length of the run of leading characters of `s` that satisfy `is_indent_char`.
pub open spec fn indent_len(s: Seq<char>) -> nat
    decreases s.len(),
{
    if s.len() > 0 && is_indent_char(s[0]) {
        1 + indent_len(s.drop_first())
    } else {
        0
    }
}

/// Where the line holding position `off` starts.
pub open spec fn line_start(s: Seq<char>, off: int) -> int {
    match rfind_char(s.take(off), '\n') {
        Some(k) => k + 1,
        None => 0,
    }
}

/// The whitespace that opens the line holding `off`, up to `off`.
pub open spec fn line_indent_spec(s: Seq<char>, off: int) -> Seq<char> {
    let t = s.subrange(line_start(s, off), off);
    t.take(indent_len(t) as int)
}

proof fn lemma_indent_len(s: Seq<char>, k: int)
    requires
        0 <= k <= s.len(),
        forall|j: int| 0 <= j < k ==> is_indent_char(#[trigger] s[j]),
        k < s.len() ==> !is_indent_char(s[k]),
    ensures
        indent_len(s) == k,
    decreases s.len(),
{
    if k > 0 {
        assert(is_indent_char(s[0]));
        assert forall|j: int| 0 <= j < k - 1 implies is_indent_char(#[trigger] s.drop_first()[j]) by {
            assert(s.drop_first()[j] == s[j + 1]);
        }
        if k < s.len() {
            assert(s.drop_first()[k - 1] == s[k]);
        }
        lemma_indent_len(s.drop_first(), k - 1);
    }
}

/// The indentation of the line that holds position `off`.
pub(crate) fn line_indent(s: &[char], off: usize) -> (r: Vec<char>)
    requires
        off <= s@.len(),
    ensures
        r@ == line_indent_spec(s@, off as int),
{
    proof {
        assert(s@.subrange(0, off as int) =~= s@.take(off as int));
        crate::text::lemma_rfind_char_sound(s@.take(off as int), '\n');
    }
    let ls = match rfind_char_in(s, 0, off, '\n') {
        Some(k) => k + 1,
        None => 0,
    };
    assert(ls as int == line_start(s@, off as int));
    assert(ls <= off);
    let mut i = ls;
    while i < off && unicode_ws(s[i]) && s[i] != '\n' && s[i] != '\r'
        invariant
            ls <= i <= off <= s@.len(),
            forall|j: int| ls <= j < i ==> is_indent_char(#[trigger] s@[j]),
        decreases off - i,
    {
        i = i + 1;
    }
    proof {
        let t = s@.subrange(ls as int, off as int);
        assert forall|j: int| 0 <= j < i - ls implies is_indent_char(#[trigger] t[j]) by {
            assert(t[j] == s@[ls + j]);
        }
        if i < off {
            assert(t[i - ls] == s@[i as int]);
        }
        lemma_indent_len(t, i - ls);
    }
    let r = crate::selector::copy_range(s, ls, i);
    proof {
        let t = s@.subrange(ls as int, off as int);
        assert(t.take(i - ls) =~= s@.subrange(ls as int, i as int));
    }
    r
}

/// How many lines `s[..off]` holds (`off` is capped at the length).
pub open spec fn line_number_spec(s: Seq<char>, off: int) -> nat {
    lines(s.take(if off < s.len() { off } else { s.len() as int })).len()
}

pub(crate) fn line_number(s: &[char], off: usize) -> (r: usize)
    ensures
        r == line_number_spec(s@, off as int),
{
    let m = if off < s.len() { off } else { s.len() };
    let rs = line_ranges(s, 0, m);
    proof {
        assert(s@.subrange(0, m as int) =~= s@.take(m as int));
        assert(crate::text::ranges_view(s@, rs@).len() == rs@.len());
    }
    rs.len()
}

pub open spec fn is_space_or_tab(c: char) -> bool {
    c == ' ' || c == '\t'
}

pub open spec fn space_len(s: Seq<char>) -> nat
    decreases s.len(),
{
    if s.len() > 0 && is_space_or_tab(s[0]) {
        1 + space_len(s.drop_first())
    } else {
        0
    }
}

/// The leading spaces and tabs of the first non-blank line of `ls` that has any.
pub open spec fn first_indent(ls: Seq<Seq<char>>) -> Option<Seq<char>>
    decreases ls.len(),
{
    if ls.len() == 0 {
        None
    } else if trim(ls[0]).len() > 0 && space_len(ls[0]) > 0 {
        Some(ls[0].take(space_len(ls[0]) as int))
    } else {
        first_indent(ls.drop_first())
    }
}

proof fn lemma_space_len(s: Seq<char>, k: int)
    requires
        0 <= k <= s.len(),
        forall|j: int| 0 <= j < k ==> is_space_or_tab(#[trigger] s[j]),
        k < s.len() ==> !is_space_or_tab(s[k]),
    ensures
        space_len(s) == k,
    decreases s.len(),
{
    if k > 0 {
        assert forall|j: int| 0 <= j < k - 1 implies is_space_or_tab(#[trigger] s.drop_first()[j]) by {
            assert(s.drop_first()[j] == s[j + 1]);
        }
        if k < s.len() {
            assert(s.drop_first()[k - 1] == s[k]);
        }
        lemma_space_len(s.drop_first(), k - 1);
    }
}

/// The indentation unit of a block body: the leading spaces and tabs of its first
/// indented non-blank line.
pub(crate) fn detect_indent_unit(s: &[char], a: usize, b: usize) -> (r: Option<Vec<char>>)
    requires
        a <= b <= s@.len(),
    ensures
        match first_indent(lines(s@.subrange(a as int, b as int))) {
            Some(u) => r matches Some(v) && v@ == u,
            None => r is None,
        },
{
    let rs = line_ranges(s, a, b);
    let ghost ls = crate::text::ranges_view(s@, rs@);
    let mut k: usize = 0;
    assert(ls.skip(0) =~= ls);
    while k < rs.len()
        invariant
            k <= rs@.len(),
            a <= b <= s@.len(),
            ls == crate::text::ranges_view(s@, rs@),
            ls == lines(s@.subrange(a as int, b as int)),
            forall|i: int| 0 <= i < rs@.len() ==> a <= #[trigger] rs@[i].0 <= rs@[i].1 <= b,
            first_indent(ls) == first_indent(ls.skip(k as int)),
        decreases rs.len() - k,
    {
        let (x, y) = rs[k];
        let ghost l = s@.subrange(x as int, y as int);
        assert(ls[k as int] == l);
        assert(ls.skip(k as int)[0] == l);
        assert(ls.skip(k as int).drop_first() =~= ls.skip(k + 1));
        let (tx, ty) = trim_bounds(s, x, y);
        if tx < ty {
            let mut i = x;
            while i < y && (s[i] == ' ' || s[i] == '\t')
                invariant
                    x <= i <= y <= s@.len(),
                    forall|j: int| x <= j < i ==> is_space_or_tab(#[trigger] s@[j]),
                decreases y - i,
            {
                i = i + 1;
            }
            proof {
                assert forall|j: int| 0 <= j < i - x implies is_space_or_tab(#[trigger] l[j]) by {
                    assert(l[j] == s@[x + j]);
                }
                if i < y {
                    assert(l[i - x] == s@[i as int]);
                }
                lemma_space_len(l, i - x);
            }
            if i > x {
                let v = crate::selector::copy_range(s, x, i);
                proof {
                    assert(l.take(i - x) =~= s@.subrange(x as int, i as int));
                }
                return Some(v);
            }
        }
        k = k + 1;
    }
    proof {
        assert(ls.skip(rs@.len() as int) =~= seq![]);
    }
    None
}

} // verus!
