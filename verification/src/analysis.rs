use crate::layout::{nodes_ok, scan_in};
use crate::model::{AnalysisStats, FileReport, Finding, PlanEntry, RuleId, Safety, WorkspaceReport, WorkspaceSummary};
use crate::plan::{plans_view, PlanView};
use crate::render::{at_block_named, body_of, is_style_node, prelude_chars};
use crate::scanner::{
    NodeKind,
    case_insensitive_count, node_wf, nodes_view, prelude_of, scan, top_level_declarations, SpecKind, SpecNode,
    SourceNode,
};
use crate::text::{chars_eq, chars_of, contains, line_ranges, lines, starts_with, string_of, trim, trim_bounds, trim_start};
use lightningcss::stylesheet::{ParserOptions, StyleSheet};
use similar::TextDiff;
use vstd::prelude::*;
use vstd::string::*;
use vstd::utf8::encode_utf8;

verus! {

// ---------------------------------------------------------------------------
// Statistics
// ---------------------------------------------------------------------------

pub open spec fn node_count(ns: Seq<SpecNode>, f: spec_fn(SpecNode) -> bool) -> nat
    decreases ns.len(),
{
    if ns.len() == 0 {
        0
    } else {
        node_count(ns.drop_last(), f) + if f(ns.last()) {
            1nat
        } else {
            0nat
        }
    }
}

pub open spec fn node_sum(ns: Seq<SpecNode>, f: spec_fn(SpecNode) -> nat) -> nat
    decreases ns.len(),
{
    if ns.len() == 0 {
        0
    } else {
        node_sum(ns.drop_last(), f) + f(ns.last())
    }
}

pub open spec fn at_named(n: SpecNode, lit: Seq<char>) -> bool {
    n.kind matches SpecKind::AtBlock { name, .. } && name == lit
}

pub open spec fn body_text(s: Seq<char>, n: SpecNode) -> Seq<char> {
    match n.body {
        Some((x, y)) => s.subrange(x, y),
        None => seq![],
    }
}

/// A line that declares a custom property (`--name: value`).
pub open spec fn is_custom_line(l: Seq<char>) -> bool {
    starts_with(trim_start(l), seq!['-', '-']) && contains(trim_start(l), seq![':'])
}

pub open spec fn custom_count(ls: Seq<Seq<char>>) -> nat
    decreases ls.len(),
{
    if ls.len() == 0 {
        0
    } else {
        custom_count(ls.drop_last()) + if is_custom_line(ls.last()) {
            1nat
        } else {
            0nat
        }
    }
}

/// The number of lines of a rule body that declare a custom property.
pub open spec fn custom_properties(b: Seq<char>) -> nat {
    custom_count(lines(b))
}

pub open spec fn decls_of(s: Seq<char>, n: SpecNode) -> nat {
    if n.kind is Style {
        top_level_declarations(body_text(s, n))
    } else {
        0
    }
}

pub open spec fn customs_of(s: Seq<char>, n: SpecNode) -> nat {
    if n.kind is Style {
        custom_properties(body_text(s, n))
    } else {
        0
    }
}

/// The selectors of the style rules, in order.
pub open spec fn style_selectors(s: Seq<char>, ns: Seq<SpecNode>) -> Seq<Seq<char>>
    decreases ns.len(),
{
    if ns.len() == 0 {
        seq![]
    } else if ns.last().kind is Style {
        style_selectors(s, ns.drop_last()).push(prelude_of(s, ns.last()))
    } else {
        style_selectors(s, ns.drop_last())
    }
}

pub open spec fn first_at(v: Seq<Seq<char>>, k: int) -> bool {
    forall|j: int| 0 <= j < k ==> v[j] != v[k]
}

pub open spec fn repeated_after(v: Seq<Seq<char>>, k: int) -> bool {
    exists|j: int| k < j < v.len() && v[j] == v[k]
}

/// How many distinct texts occur more than once among the first `n` of `v`, counted at their
/// first occurrence.
pub open spec fn dup_count(v: Seq<Seq<char>>, n: int) -> nat
    decreases n,
{
    if n <= 0 {
        0
    } else {
        dup_count(v, n - 1) + if first_at(v, n - 1) && repeated_after(v, n - 1) {
            1nat
        } else {
            0nat
        }
    }
}

/// The selectors that occur more than once, each counted once.
pub open spec fn duplicate_selectors(s: Seq<char>, ns: Seq<SpecNode>) -> nat {
    dup_count(style_selectors(s, ns), style_selectors(s, ns).len() as int)
}

/// What `collect_stats` reports for the nodes `ns` of `s`.
pub open spec fn stats_match(st: AnalysisStats, s: Seq<char>, ns: Seq<SpecNode>, bytes: nat, parse_ok: bool) -> bool {
    &&& st.bytes == bytes
    &&& st.parse_errors == (if parse_ok { 0nat } else { 1nat })
    &&& st.important_declarations == case_insensitive_count(s, "!important"@)
    &&& st.top_level_style_rules == node_count(ns, |n: SpecNode| n.kind is Style)
    &&& st.top_level_at_rules == node_count(ns, |n: SpecNode| !(n.kind is Style))
    &&& st.declarations == node_sum(ns, |n: SpecNode| decls_of(s, n))
    &&& st.custom_properties == node_sum(ns, |n: SpecNode| customs_of(s, n))
    &&& st.media_rules == node_count(ns, |n: SpecNode| at_named(n, "media"@))
    &&& st.supports_rules == node_count(ns, |n: SpecNode| at_named(n, "supports"@))
    &&& st.container_rules == node_count(ns, |n: SpecNode| at_named(n, "container"@))
    &&& st.layer_rules == node_count(ns, |n: SpecNode| at_named(n, "layer"@))
    &&& st.scope_rules == node_count(ns, |n: SpecNode| at_named(n, "scope"@))
    &&& st.starting_style_rules == node_count(ns, |n: SpecNode| at_named(n, "starting-style"@))
    &&& st.duplicate_selectors == duplicate_selectors(s, ns)
}

proof fn lemma_lines_len(b: Seq<char>)
    ensures
        lines(b).len() <= b.len(),
    decreases b.len(),
{
    if b.len() > 0 {
        match crate::text::find(b, seq!['\n']) {
            Some(k) => {
                crate::text::lemma_find_sound(b, seq!['\n']);
                lemma_lines_len(b.skip(k + 1));
            },
            None => {},
        }
    }
}

proof fn lemma_custom_count_bound(ls: Seq<Seq<char>>)
    ensures
        custom_count(ls) <= ls.len(),
    decreases ls.len(),
{
    if ls.len() > 0 {
        lemma_custom_count_bound(ls.drop_last());
    }
}

/// Whether a line declares a custom property.
fn custom_line(l: &[char], a: usize, b: usize) -> (r: bool)
    requires
        a <= b <= l@.len(),
    ensures
        r == is_custom_line(l@.subrange(a as int, b as int)),
{
    let (x, _) = trim_bounds(l, a, b);
    let dd = ['-', '-'];
    let colon = [':'];
    proof {
        assert(trim_start(l@.subrange(a as int, b as int)) =~= l@.subrange(x as int, b as int));
    }
    assert(dd@ == seq!['-', '-']);
    assert(colon@ == seq![':']);
    crate::text::starts_with_at(l, x, b, &dd) && crate::text::contains_in(l, x, b, &colon)
}

/// The number of lines of `s[a..b]` that declare a custom property.
pub(crate) fn count_custom_properties(s: &[char], a: usize, b: usize) -> (r: usize)
    requires
        a <= b <= s@.len(),
    ensures
        r == custom_properties(s@.subrange(a as int, b as int)),
        r <= b - a,
{
    let rs = line_ranges(s, a, b);
    let ghost ls = crate::text::ranges_view(s@, rs@);
    proof {
        lemma_lines_len(s@.subrange(a as int, b as int));
    }
    let mut n: usize = 0;
    let mut i: usize = 0;
    while i < rs.len()
        invariant
            i <= rs@.len(),
            a <= b <= s@.len(),
            ls == crate::text::ranges_view(s@, rs@),
            ls == lines(s@.subrange(a as int, b as int)),
            ls.len() <= b - a,
            forall|k: int| 0 <= k < rs@.len() ==> a <= #[trigger] rs@[k].0 <= rs@[k].1 <= b,
            n == custom_count(ls.take(i as int)),
        decreases rs.len() - i,
    {
        let (x, y) = rs[i];
        proof {
            assert(ls.take(i + 1).drop_last() =~= ls.take(i as int));
            assert(ls.take(i + 1).last() == ls[i as int]);
            assert(ls[i as int] == s@.subrange(x as int, y as int));
            lemma_custom_count_bound(ls.take(i as int));
        }
        if custom_line(s, x, y) {
            n = n + 1;
        }
        i = i + 1;
    }
    proof {
        assert(ls.take(rs@.len() as int) =~= ls);
        lemma_custom_count_bound(ls);
    }
    n
}

/// Counts over the top-level nodes of a stylesheet.
pub(crate) fn collect_stats(source: &str, s: &[char], nodes: &Vec<SourceNode>, parse_ok: bool) -> (st: AnalysisStats)
    requires
        s@ == source@,
        nodes_ok(s@, nodes@),
    ensures
        stats_match(st, s@, nodes_view(nodes@), (source.spec_bytes().len() as usize) as nat, parse_ok),
{
    let ghost ns = nodes_view(nodes@);
    proof {
        reveal_strlit("!important");
    }
    let mut st = AnalysisStats {
        bytes: source.len(),
        top_level_style_rules: 0,
        top_level_at_rules: 0,
        declarations: 0,
        important_declarations: crate::scanner::count_ascii_case_insensitive_outside_comments(source, "!important"),
        custom_properties: 0,
        duplicate_selectors: 0,
        media_rules: 0,
        supports_rules: 0,
        container_rules: 0,
        layer_rules: 0,
        scope_rules: 0,
        starting_style_rules: 0,
        parse_errors: if parse_ok { 0 } else { 1 },
    };
    let mut sels: Vec<Vec<char>> = Vec::new();
    let mut k: usize = 0;
    while k < nodes.len()
        invariant
            k <= nodes@.len(),
            s@ == source@,
            ns == nodes_view(nodes@),
            nodes_ok(s@, nodes@),
            st.bytes == source.spec_bytes().len() as usize,
            st.parse_errors == (if parse_ok { 0nat } else { 1nat }),
            st.important_declarations == case_insensitive_count(s@, "!important"@),
            st.top_level_style_rules == node_count(ns.take(k as int), |n: SpecNode| n.kind is Style),
            st.top_level_at_rules == node_count(ns.take(k as int), |n: SpecNode| !(n.kind is Style)),
            st.declarations == node_sum(ns.take(k as int), |n: SpecNode| decls_of(s@, n)),
            st.custom_properties == node_sum(ns.take(k as int), |n: SpecNode| customs_of(s@, n)),
            st.media_rules == node_count(ns.take(k as int), |n: SpecNode| at_named(n, "media"@)),
            st.supports_rules == node_count(ns.take(k as int), |n: SpecNode| at_named(n, "supports"@)),
            st.container_rules == node_count(ns.take(k as int), |n: SpecNode| at_named(n, "container"@)),
            st.layer_rules == node_count(ns.take(k as int), |n: SpecNode| at_named(n, "layer"@)),
            st.scope_rules == node_count(ns.take(k as int), |n: SpecNode| at_named(n, "scope"@)),
            st.starting_style_rules == node_count(ns.take(k as int), |n: SpecNode| at_named(n, "starting-style"@)),
            st.top_level_style_rules <= k,
            st.top_level_at_rules <= k,
            st.media_rules <= k,
            st.supports_rules <= k,
            st.container_rules <= k,
            st.layer_rules <= k,
            st.scope_rules <= k,
            st.starting_style_rules <= k,
            k > 0 ==> st.declarations <= nodes@[k - 1].end,
            k > 0 ==> st.custom_properties <= nodes@[k - 1].end,
            k == 0 ==> st.declarations == 0 && st.custom_properties == 0,
            crate::text::texts(sels@) == style_selectors(s@, ns.take(k as int)),
        decreases nodes.len() - k,
    {
        let n = &nodes[k];
        assert(node_wf(s@, n@, 0, s@.len() as int));
        proof {
            reveal_strlit("media");
            reveal_strlit("supports");
            reveal_strlit("container");
            reveal_strlit("layer");
            reveal_strlit("scope");
            reveal_strlit("starting-style");
            let t = ns.take(k + 1);
            assert(t.drop_last() =~= ns.take(k as int));
            assert(t.last() == n@);
            assert(ns[k as int] == n@);
            if k > 0 {
                assert(nodes@[k - 1].end <= nodes@[k as int].start);
            }
        }
        match &n.kind {
            NodeKind::Style => {
                st.top_level_style_rules = st.top_level_style_rules + 1;
                let sel = prelude_chars(s, n);
                let ghost before = sels@;
                sels.push(sel);
                proof {
                    assert(crate::text::texts(sels@) =~= crate::text::texts(before).push(sel@));
                }
                let (x, y) = body_of(s, n);
                let body = crate::text::string_of_range(s, x, y);
                let d = crate::scanner::count_top_level_declarations(body.as_str());
                proof {
                    crate::scanner::lemma_decl_count_bound(body@, 0, 0, 0, 0, None, false, false);
                }
                st.declarations = st.declarations + d;
                let c = count_custom_properties(s, x, y);
                st.custom_properties = st.custom_properties + c;
            },
            NodeKind::AtBlock { .. } => {
                st.top_level_at_rules = st.top_level_at_rules + 1;
                proof {
                    assert("media"@[0] == 'm' && "supports"@[0] == 's' && "container"@[0] == 'c');
                    assert("layer"@[0] == 'l' && "scope"@[1] == 'c' && "supports"@[1] == 'u');
                    assert("starting-style"@[1] == 't');
                    assert("media"@ != "supports"@);
                    assert("media"@ != "container"@);
                    assert("supports"@ != "container"@);
                    assert("media"@ != "layer"@);
                    assert("media"@ != "scope"@);
                    assert("media"@ != "starting-style"@);
                    assert("supports"@ != "layer"@);
                    assert("supports"@ != "scope"@);
                    assert("supports"@ != "starting-style"@);
                    assert("container"@ != "layer"@);
                    assert("container"@ != "scope"@);
                    assert("container"@ != "starting-style"@);
                    assert("layer"@ != "scope"@);
                    assert("layer"@ != "starting-style"@);
                    assert("scope"@ != "starting-style"@);
                }
                if at_block_named(n, "media") {
                    st.media_rules = st.media_rules + 1;
                } else if at_block_named(n, "supports") {
                    st.supports_rules = st.supports_rules + 1;
                } else if at_block_named(n, "container") {
                    st.container_rules = st.container_rules + 1;
                } else if at_block_named(n, "layer") {
                    st.layer_rules = st.layer_rules + 1;
                } else if at_block_named(n, "scope") {
                    st.scope_rules = st.scope_rules + 1;
                } else if at_block_named(n, "starting-style") {
                    st.starting_style_rules = st.starting_style_rules + 1;
                }
            },
            NodeKind::AtStatement { .. } => {
                st.top_level_at_rules = st.top_level_at_rules + 1;
            },
        }
        k = k + 1;
    }
    proof {
        assert(ns.take(nodes@.len() as int) =~= ns);
    }
    st.duplicate_selectors = count_duplicates(&sels);
    st
}

/// How many distinct texts occur more than once in `v`.
fn count_duplicates(v: &Vec<Vec<char>>) -> (r: usize)
    ensures
        r == dup_count(crate::text::texts(v@), v@.len() as int),
{
    let ghost t = crate::text::texts(v@);
    let mut n: usize = 0;
    let mut k: usize = 0;
    while k < v.len()
        invariant
            k <= v@.len(),
            t == crate::text::texts(v@),
            n == dup_count(t, k as int),
            n <= k,
        decreases v.len() - k,
    {
        let mut first = true;
        let mut j: usize = 0;
        while j < k
            invariant
                j <= k < v@.len(),
                t == crate::text::texts(v@),
                first == (forall|q: int| 0 <= q < j ==> t[q] != t[k as int]),
            decreases k - j,
        {
            assert(t[j as int] == v@[j as int]@);
            assert(t[k as int] == v@[k as int]@);
            if chars_eq(v[j].as_slice(), v[k].as_slice()) {
                first = false;
            }
            j = j + 1;
        }
        let mut again = false;
        let mut j: usize = k + 1;
        while j < v.len()
            invariant
                k < j <= v@.len(),
                t == crate::text::texts(v@),
                again == (exists|q: int| k < q < j && t[q] == t[k as int]),
            decreases v.len() - j,
        {
            assert(t[j as int] == v@[j as int]@);
            assert(t[k as int] == v@[k as int]@);
            if chars_eq(v[j].as_slice(), v[k].as_slice()) {
                again = true;
            }
            j = j + 1;
        }
        if first && again {
            n = n + 1;
        }
        k = k + 1;
    }
    n
}

// ---------------------------------------------------------------------------
// Findings
// ---------------------------------------------------------------------------

/// A finding as values: how safe, its title and its detail.
pub open spec fn finding_views(fs: Seq<Finding>) -> Seq<(Safety, Seq<char>, Seq<char>)> {
    fs.map_values(|f: Finding| (f.safety, f.title@, f.detail@))
}

/// Trailing `;` removed, as `trim_end_matches(';')` does.
pub open spec fn strip_semis(x: Seq<char>) -> Seq<char>
    decreases x.len(),
{
    if x.len() > 0 && x.last() == ';' {
        strip_semis(x.drop_last())
    } else {
        x
    }
}

/// The property (lower-cased) and value a body line declares, if it declares one.
pub open spec fn decl_pair(l: Seq<char>) -> Option<(Seq<char>, Seq<char>)> {
    let t = trim(l);
    if starts_with(t, seq!['/', '*']) || starts_with(t, seq!['*']) || !contains(t, seq![':']) {
        None
    } else {
        match crate::text::find(t, seq![':']) {
            Some(c) => Some(
                (crate::text::lower(trim(t.take(c))), trim(strip_semis(trim(t.skip(c + 1))))),
            ),
            None => None,
        }
    }
}

/// The declarations of the lines from `i` on that repeat, with the same value, a property first
/// declared earlier (`seen` holds the first value of each property met so far).
pub open spec fn dup_decls(ls: Seq<Seq<char>>, seen: Map<Seq<char>, Seq<char>>, i: int) -> Seq<(Seq<char>, Seq<char>)>
    decreases ls.len() - i,
{
    if i >= ls.len() || i < 0 {
        seq![]
    } else {
        match decl_pair(ls[i]) {
            None => dup_decls(ls, seen, i + 1),
            Some((p, v)) => if seen.contains_key(p) {
                (if seen[p] == v {
                    seq![(p, v)]
                } else {
                    seq![]
                }) + dup_decls(ls, seen, i + 1)
            } else {
                dup_decls(ls, seen.insert(p, v), i + 1)
            },
        }
    }
}

pub open spec fn list_part(sel: Seq<char>) -> Seq<(Safety, Seq<char>, Seq<char>)> {
    if crate::selector::has_top_level_comma(sel) {
        if !crate::transform::uniform_specificity(crate::transform::trimmed_parts(sel)) {
            seq![
                (
                    Safety::Review,
                    "Mixed-specificity selector list detected"@,
                    sel
                        + ": contains branches with differing specificities; factoring into :is() or parent nesting would raise lower-specificity branches."@,
                ),
            ]
        } else {
            seq![
                (
                    Safety::Review,
                    "Selector list kept flat"@,
                    sel + ": parent selector lists require per-branch specificity proof before native nesting."@,
                ),
            ]
        }
    } else {
        seq![]
    }
}

pub open spec fn bem_part(sel: Seq<char>, all_sels: Seq<Seq<char>>) -> Seq<(Safety, Seq<char>, Seq<char>)> {
    match crate::relation::bem_spec(sel) {
        Some(base) => if all_sels.contains(base) {
            seq![
                (
                    Safety::Unsupported,
                    "BEM token concatenation is not native nesting"@,
                    sel + " resembles "@ + base + " + a BEM suffix; CSS nesting cannot safely generate &__element or &--modifier."@,
                ),
            ]
        } else {
            seq![]
        },
        None => seq![],
    }
}

pub open spec fn empty_part(sel: Seq<char>, b: Seq<char>) -> Seq<(Safety, Seq<char>, Seq<char>)> {
    if trim(b).len() == 0 {
        seq![(Safety::Review, "Empty rule block detected"@, sel + " contains no declarations or nested rules."@)]
    } else {
        seq![]
    }
}

/// The finding for the repeated declaration `d` in the rule of selector `sel`.
pub open spec fn dup_decl_finding(sel: Seq<char>, d: (Seq<char>, Seq<char>)) -> (Safety, Seq<char>, Seq<char>) {
    (
        Safety::Review,
        "Exact duplicate declaration detected"@,
        "In "@ + sel + ": property '"@ + d.0 + ": "@ + d.1 + "' is declared multiple times with identical value."@,
    )
}

pub open spec fn dup_part(sel: Seq<char>, b: Seq<char>) -> Seq<(Safety, Seq<char>, Seq<char>)> {
    dup_decls(lines(b), Map::empty(), 0).map_values(|d: (Seq<char>, Seq<char>)| dup_decl_finding(sel, d))
}

pub open spec fn has_part(sel: Seq<char>) -> Seq<(Safety, Seq<char>, Seq<char>)> {
    if contains(sel, " ."@) && !contains(sel, ":has("@) {
        seq![
            (
                Safety::Review,
                "Potential :has() relational candidate"@,
                sel
                    + ": parent-child descendant relationship could be expressed with :has() if container-targeting is intended (advisory)."@,
            ),
        ]
    } else {
        seq![]
    }
}

pub open spec fn style_findings(s: Seq<char>, all_sels: Seq<Seq<char>>, n: SpecNode) -> Seq<(Safety, Seq<char>, Seq<char>)> {
    let sel = prelude_of(s, n);
    let b = body_text(s, n);
    list_part(sel) + bem_part(sel, all_sels) + empty_part(sel, b) + dup_part(sel, b) + has_part(sel)
}

pub open spec fn node_findings(s: Seq<char>, all_sels: Seq<Seq<char>>, n: SpecNode) -> Seq<(Safety, Seq<char>, Seq<char>)> {
    if n.kind is Style {
        style_findings(s, all_sels, n)
    } else if at_named(n, "layer"@) {
        seq![
            (
                Safety::Review,
                "Cascade layer context detected"@,
                "@layer participates in cascade ordering and reverses layer precedence for !important; automatic layer architecture is not applied."@,
            ),
        ]
    } else if at_named(n, "scope"@) {
        seq![
            (
                Safety::Review,
                "Scope context detected"@,
                "@scope adds scope proximity to the cascade; scope architecture remains advisory."@,
            ),
        ]
    } else if at_named(n, "container"@) {
        seq![
            (
                Safety::Review,
                "Container query context detected"@,
                "@container depends on eligible ancestor containers; media-to-container conversion is not inferred from CSS alone."@,
            ),
        ]
    } else if at_named(n, "starting-style"@) {
        seq![
            (
                Safety::Review,
                "Starting-style context detected"@,
                "@starting-style is temporal transition state; this build never invents it from ordinary declarations."@,
            ),
        ]
    } else {
        seq![]
    }
}

pub open spec fn nodes_findings(s: Seq<char>, all_sels: Seq<Seq<char>>, ns: Seq<SpecNode>) -> Seq<(Safety, Seq<char>, Seq<char>)>
    decreases ns.len(),
{
    if ns.len() == 0 {
        seq![]
    } else {
        nodes_findings(s, all_sels, ns.drop_last()) + node_findings(s, all_sels, ns.last())
    }
}

/// How many of `v[lo..hi]` are `x`.
pub open spec fn count_of(v: Seq<Seq<char>>, x: Seq<char>, lo: int, hi: int) -> nat
    decreases hi - lo,
{
    if hi <= lo {
        0
    } else {
        count_of(v, x, lo, hi - 1) + if v[hi - 1] == x {
            1nat
        } else {
            0nat
        }
    }
}

/// One finding for each text of the first `n` of `v` that occurs more than once, at its first
/// occurrence, with how often it occurs.
pub open spec fn dup_sel_findings(v: Seq<Seq<char>>, n: int) -> Seq<(Safety, Seq<char>, Seq<char>)>
    decreases n,
{
    if n <= 0 {
        seq![]
    } else {
        dup_sel_findings(v, n - 1) + if first_at(v, n - 1) && repeated_after(v, n - 1) {
            seq![
                (
                    Safety::Review,
                    "Duplicate selector in stylesheet"@,
                    "'"@ + v[n - 1] + "' appears "@ + crate::planner::decimal(count_of(v, v[n - 1], 0, v.len() as int))
                        + " times in the stylesheet; non-adjacent occurrences must not be merged across intervening rules."@,
                ),
            ]
        } else {
            seq![]
        }
    }
}

/// The findings of a stylesheet: those of each node in order, then one for each selector used
/// more than once.
pub open spec fn findings_spec(s: Seq<char>, ns: Seq<SpecNode>) -> Seq<(Safety, Seq<char>, Seq<char>)> {
    let sels = style_selectors(s, ns);
    nodes_findings(s, sels, ns) + dup_sel_findings(sels, sels.len() as int)
}

/// The map of first values, from a list of (property, value) pairs with distinct properties.
pub open spec fn seen_map(v: Seq<(Seq<char>, Seq<char>)>) -> Map<Seq<char>, Seq<char>>
    decreases v.len(),
{
    if v.len() == 0 {
        Map::empty()
    } else {
        seen_map(v.drop_last()).insert(v.last().0, v.last().1)
    }
}

pub open spec fn pairs_view(v: Seq<(Vec<char>, Vec<char>)>) -> Seq<(Seq<char>, Seq<char>)> {
    v.map_values(|x: (Vec<char>, Vec<char>)| (x.0@, x.1@))
}

proof fn lemma_seen_map(v: Seq<(Seq<char>, Seq<char>)>, p: Seq<char>)
    ensures
        seen_map(v).contains_key(p) <==> exists|j: int| 0 <= j < v.len() && v[j].0 == p,
    decreases v.len(),
{
    if v.len() > 0 {
        lemma_seen_map(v.drop_last(), p);
        if seen_map(v).contains_key(p) && v.last().0 != p {
            let j = choose|j: int| 0 <= j < v.len() - 1 && v.drop_last()[j].0 == p;
            assert(v[j] == v.drop_last()[j]);
        }
        if exists|j: int| 0 <= j < v.len() && v[j].0 == p {
            let j = choose|j: int| 0 <= j < v.len() && v[j].0 == p;
            if j < v.len() - 1 {
                assert(v.drop_last()[j] == v[j]);
            }
        }
    }
}

proof fn lemma_seen_map_last(v: Seq<(Seq<char>, Seq<char>)>, j: int)
    requires
        0 <= j < v.len(),
        forall|q: int| j < q < v.len() ==> v[q].0 != v[j].0,
    ensures
        seen_map(v).contains_key(v[j].0),
        seen_map(v)[v[j].0] == v[j].1,
    decreases v.len(),
{
    if j < v.len() - 1 {
        assert forall|q: int| j < q < v.len() - 1 implies v.drop_last()[q].0 != v.drop_last()[j].0 by {
            assert(v.drop_last()[q] == v[q]);
        }
        assert(v.drop_last()[j] == v[j]);
        lemma_seen_map_last(v.drop_last(), j);
    }
}

/// The property and value a line `s[a..b]` declares, if any.
fn decl_pair_exec(s: &[char], a: usize, b: usize) -> (r: Option<(Vec<char>, Vec<char>)>)
    requires
        a <= b <= s@.len(),
    ensures
        match decl_pair(s@.subrange(a as int, b as int)) {
            Some((p, v)) => r matches Some((x, y)) && x@ == p && y@ == v,
            None => r is None,
        },
{
    let ghost l = s@.subrange(a as int, b as int);
    let (tx, ty) = trim_bounds(s, a, b);
    let ghost t = s@.subrange(tx as int, ty as int);
    let sc = ['/', '*'];
    let st = ['*'];
    let colon = [':'];
    assert(sc@ == seq!['/', '*']);
    assert(st@ == seq!['*']);
    assert(colon@ == seq![':']);
    if crate::text::starts_with_at(s, tx, ty, &sc) || crate::text::starts_with_at(s, tx, ty, &st) {
        return None;
    }
    proof {
        crate::text::lemma_find_sound(t, seq![':']);
    }
    let c = match crate::text::find_in(s, tx, ty, &colon) {
        Some(c) => c,
        None => {
            return None;
        },
    };
    let (px, py) = trim_bounds(s, tx, c);
    let prop = crate::text::lower_range(s, px, py);
    let (vx, vy0) = trim_bounds(s, c + 1, ty);
    let mut vy = vy0;
    while vy > vx && s[vy - 1] == ';'
        invariant
            vx <= vy <= vy0 <= s@.len(),
            strip_semis(s@.subrange(vx as int, vy0 as int)) == strip_semis(s@.subrange(vx as int, vy as int)),
        decreases vy - vx,
    {
        proof {
            assert(s@.subrange(vx as int, vy as int).drop_last() =~= s@.subrange(vx as int, vy - 1));
        }
        vy = vy - 1;
    }
    proof {
        assert(strip_semis(s@.subrange(vx as int, vy as int)) == s@.subrange(vx as int, vy as int));
        assert(t.take(c - tx) =~= s@.subrange(tx as int, c as int));
        assert(t.skip(c - tx + 1) =~= s@.subrange(c + 1, ty as int));
    }
    let (wx, wy) = trim_bounds(s, vx, vy);
    let val = crate::selector::copy_range(s, wx, wy);
    Some((prop, val))
}

/// The declarations of `s[a..b]`, by line, that repeat an earlier declaration of the same
/// property with the same value.
fn dup_decl_lines(s: &[char], a: usize, b: usize) -> (r: Vec<(Vec<char>, Vec<char>)>)
    requires
        a <= b <= s@.len(),
    ensures
        pairs_view(r@) == dup_decls(lines(s@.subrange(a as int, b as int)), Map::empty(), 0),
{
    let mut dups: Vec<(Vec<char>, Vec<char>)> = Vec::new();
    let rs = line_ranges(s, a, b);
    let ghost ls = crate::text::ranges_view(s@, rs@);
    let mut seen: Vec<(Vec<char>, Vec<char>)> = Vec::new();
    let mut i: usize = 0;
    proof {
        lemma_lines_len(s@.subrange(a as int, b as int));
        assert(seen_map(pairs_view(seen@)) =~= Map::<Seq<char>, Seq<char>>::empty());
        assert(pairs_view(dups@) =~= Seq::<(Seq<char>, Seq<char>)>::empty());
    }
    while i < rs.len()
        invariant
            i <= rs@.len(),
            a <= b <= s@.len(),
            ls == crate::text::ranges_view(s@, rs@),
            ls == lines(s@.subrange(a as int, b as int)),
            ls.len() <= b - a,
            forall|k: int| 0 <= k < rs@.len() ==> a <= #[trigger] rs@[k].0 <= rs@[k].1 <= b,
            forall|x: int, y: int| 0 <= x < y < seen@.len() ==> (#[trigger] pairs_view(seen@)[x]).0 != (#[trigger] pairs_view(seen@)[y]).0,
            dup_decls(ls, Map::empty(), 0) == pairs_view(dups@) + dup_decls(ls, seen_map(pairs_view(seen@)), i as int),
        decreases rs.len() - i,
    {
        let (x, y) = rs[i];
        assert(ls[i as int] == s@.subrange(x as int, y as int));
        let ghost sm = seen_map(pairs_view(seen@));
        let ghost pv = pairs_view(seen@);
        match decl_pair_exec(s, x, y) {
            None => {},
            Some((p, v)) => {
                let mut found: Option<usize> = None;
                let mut j: usize = seen.len();
                while j > 0
                    invariant
                        j <= seen@.len(),
                        pv == pairs_view(seen@),
                        found matches Some(q) ==> q < seen@.len() && pv[q as int].0 == p@ && forall|w: int|
                            q < w < seen@.len() ==> pv[w].0 != p@,
                        found is None ==> forall|q: int| j <= q < seen@.len() ==> pv[q].0 != p@,
                    decreases j,
                {
                    assert(pv[j - 1] == (seen@[j - 1].0@, seen@[j - 1].1@));
                    if found.is_none() && chars_eq(seen[j - 1].0.as_slice(), p.as_slice()) {
                        found = Some(j - 1);
                    }
                    j = j - 1;
                }
                proof {
                    lemma_seen_map(pv, p@);
                }
                match found {
                    Some(q) => {
                        proof {
                            lemma_seen_map_last(pv, q as int);
                        }
                        assert(pv[q as int] == (seen@[q as int].0@, seen@[q as int].1@));
                        if chars_eq(seen[q].1.as_slice(), v.as_slice()) {
                            let ghost d0 = dups@;
                            dups.push((p, v));
                            proof {
                                assert(pairs_view(dups@) =~= pairs_view(d0).push((p@, v@)));
                                assert(pairs_view(dups@) + dup_decls(ls, sm, i + 1) =~= pairs_view(d0) + dup_decls(
                                    ls,
                                    sm,
                                    i as int,
                                ));
                            }
                        }
                    },
                    None => {
                        proof {
                            assert(j == 0);
                        }
                        let ghost before = seen@;
                        seen.push((p, v));
                        proof {
                            assert(pairs_view(seen@) =~= pairs_view(before).push((p@, v@)));
                            assert(pairs_view(seen@).drop_last() =~= pairs_view(before));
                            assert forall|x: int, y: int| 0 <= x < y < seen@.len() implies (#[trigger] pairs_view(seen@)[x]).0 != (#[trigger] pairs_view(seen@)[y]).0 by {
                                if y < seen@.len() - 1 {
                                    assert(pairs_view(seen@)[x] == pv[x]);
                                    assert(pairs_view(seen@)[y] == pv[y]);
                                } else {
                                    assert(pairs_view(seen@)[x] == pv[x]);
                                }
                            }
                        }
                    },
                }
            },
        }
        i = i + 1;
    }
    dups
}

fn push_finding(fs: &mut Vec<Finding>, safety: Safety, title: &str, detail: Vec<char>)
    ensures
        finding_views(final(fs)@) == finding_views(old(fs)@).push((safety, title@, detail@)),
{
    let ghost before = fs@;
    fs.push(Finding { safety, title: String::from_str(title), detail: string_of(detail.as_slice()) });
    proof {
        assert(finding_views(fs@) =~= finding_views(before).push((safety, title@, detail@)));
    }
}


fn contains_text(vs: &Vec<Vec<char>>, v: &[char]) -> (r: bool)
    ensures
        r == crate::text::texts(vs@).contains(v@),
{
    let mut k: usize = 0;
    while k < vs.len()
        invariant
            k <= vs@.len(),
            forall|j: int| 0 <= j < k ==> crate::text::texts(vs@)[j] != v@,
        decreases vs.len() - k,
    {
        assert(crate::text::texts(vs@)[k as int] == vs@[k as int]@);
        if chars_eq(vs[k].as_slice(), v) {
            return true;
        }
        k = k + 1;
    }
    false
}

/// The selectors of the style rules among `nodes`, in order.
fn collect_selectors(s: &[char], nodes: &Vec<SourceNode>) -> (r: Vec<Vec<char>>)
    requires
        nodes_ok(s@, nodes@),
    ensures
        crate::text::texts(r@) == style_selectors(s@, nodes_view(nodes@)),
{
    let ghost ns = nodes_view(nodes@);
    let mut sels: Vec<Vec<char>> = Vec::new();
    let mut k: usize = 0;
    while k < nodes.len()
        invariant
            k <= nodes@.len(),
            ns == nodes_view(nodes@),
            nodes_ok(s@, nodes@),
            crate::text::texts(sels@) == style_selectors(s@, ns.take(k as int)),
        decreases nodes.len() - k,
    {
        let n = &nodes[k];
        assert(node_wf(s@, n@, 0, s@.len() as int));
        proof {
            let t = ns.take(k + 1);
            assert(t.drop_last() =~= ns.take(k as int));
            assert(t.last() == n@);
        }
        if is_style_node(n) {
            let sel = prelude_chars(s, n);
            let ghost before = sels@;
            sels.push(sel);
            proof {
                assert(crate::text::texts(sels@) =~= crate::text::texts(before).push(sel@));
            }
        }
        k = k + 1;
    }
    proof {
        assert(ns.take(nodes@.len() as int) =~= ns);
    }
    sels
}

fn sel_detail(sel: &[char], rest: &str) -> (r: Vec<char>)
    ensures
        r@ == sel@ + rest@,
{
    let mut d = crate::selector::copy_range(sel, 0, sel.len());
    proof {
        assert(sel@.subrange(0, sel@.len() as int) =~= sel@);
    }
    d.extend_from_slice(chars_of(rest).as_slice());
    d
}

fn push_list_part(sel: &Vec<char>, findings: &mut Vec<Finding>)
    ensures
        finding_views(final(findings)@) == finding_views(old(findings)@) + list_part(sel@),
{
    let ghost h0 = finding_views(findings@);
    if crate::selector::contains_top_level_comma(sel.as_slice()) {
        let parts = crate::transform::trimmed_parts_exec(sel.as_slice());
        if !crate::transform::uniform_exec(&parts) {
            push_finding(
                findings,
                Safety::Review,
                "Mixed-specificity selector list detected",
                sel_detail(sel.as_slice(), ": contains branches with differing specificities; factoring into :is() or parent nesting would raise lower-specificity branches."),
            );
        } else {
            push_finding(
                findings,
                Safety::Review,
                "Selector list kept flat",
                sel_detail(sel.as_slice(), ": parent selector lists require per-branch specificity proof before native nesting."),
            );
        }
    }
    assert(finding_views(findings@) =~= h0 + list_part(sel@));
}

fn push_bem_part(sel: &Vec<char>, all: &Vec<Vec<char>>, findings: &mut Vec<Finding>)
    ensures
        finding_views(final(findings)@) == finding_views(old(findings)@) + bem_part(sel@, crate::text::texts(all@)),
{
    let ghost h0 = finding_views(findings@);
    if let Some(base) = crate::relation::bem_base_candidate(sel.as_slice()) {
        if contains_text(all, base.as_slice()) {
            let mut d = crate::selector::copy_range(sel.as_slice(), 0, sel.len());
            proof {
                assert(sel@.subrange(0, sel@.len() as int) =~= sel@);
            }
            d.extend_from_slice(chars_of(" resembles ").as_slice());
            d.extend_from_slice(base.as_slice());
            d.extend_from_slice(chars_of(" + a BEM suffix; CSS nesting cannot safely generate &__element or &--modifier.").as_slice());
            assert(d@ == sel@ + " resembles "@ + base@ + " + a BEM suffix; CSS nesting cannot safely generate &__element or &--modifier."@);
            push_finding(findings, Safety::Unsupported, "BEM token concatenation is not native nesting", d);
            assert(finding_views(findings@) =~= h0 + bem_part(sel@, crate::text::texts(all@)));
        }
    }
    assert(finding_views(findings@) =~= h0 + bem_part(sel@, crate::text::texts(all@)));
}

fn push_body_parts(s: &[char], x: usize, y: usize, sel: &Vec<char>, findings: &mut Vec<Finding>)
    requires
        x <= y <= s@.len(),
    ensures
        finding_views(final(findings)@) == finding_views(old(findings)@) + empty_part(sel@, s@.subrange(x as int, y as int))
            + dup_part(sel@, s@.subrange(x as int, y as int)),
{
    let ghost h0 = finding_views(findings@);
    let (tx, ty) = trim_bounds(s, x, y);
    if tx == ty {
        push_finding(
            findings,
            Safety::Review,
            "Empty rule block detected",
            sel_detail(sel.as_slice(), " contains no declarations or nested rules."),
        );
    }
    assert(finding_views(findings@) =~= h0 + empty_part(sel@, s@.subrange(x as int, y as int)));
    let ghost h3 = finding_views(findings@);
    let dups = dup_decl_lines(s, x, y);
    let ghost want = pairs_view(dups@).map_values(|d: (Seq<char>, Seq<char>)| dup_decl_finding(sel@, d));
    let mut k: usize = 0;
    while k < dups.len()
        invariant
            k <= dups@.len(),
            want == pairs_view(dups@).map_values(|d: (Seq<char>, Seq<char>)| dup_decl_finding(sel@, d)),
            finding_views(findings@) == h3 + want.take(k as int),
        decreases dups.len() - k,
    {
        let (ref p, ref v) = dups[k];
        let mut d = chars_of("In ");
        d.extend_from_slice(sel.as_slice());
        d.extend_from_slice(chars_of(": property '").as_slice());
        d.extend_from_slice(p.as_slice());
        d.extend_from_slice(chars_of(": ").as_slice());
        d.extend_from_slice(v.as_slice());
        d.extend_from_slice(chars_of("' is declared multiple times with identical value.").as_slice());
        assert(d@ == "In "@ + sel@ + ": property '"@ + p@ + ": "@ + v@ + "' is declared multiple times with identical value."@);
        push_finding(findings, Safety::Review, "Exact duplicate declaration detected", d);
        proof {
            assert(pairs_view(dups@)[k as int] == (p@, v@));
            assert(want[k as int] == dup_decl_finding(sel@, (p@, v@)));
            assert(want.take(k + 1) =~= want.take(k as int).push(want[k as int]));
            assert(finding_views(findings@) =~= h3 + want.take(k + 1));
        }
        k = k + 1;
    }
    assert(want.take(dups@.len() as int) =~= want);
    assert(h3 + want =~= h3 + dup_part(sel@, s@.subrange(x as int, y as int)));
}

fn push_has_part(sel: &Vec<char>, findings: &mut Vec<Finding>)
    ensures
        finding_views(final(findings)@) == finding_views(old(findings)@) + has_part(sel@),
{
    let ghost h0 = finding_views(findings@);
    let sp = chars_of(" .");
    let hs = chars_of(":has(");
    let c1 = crate::text::contains_in(sel.as_slice(), 0, sel.len(), sp.as_slice());
    let c2 = crate::text::contains_in(sel.as_slice(), 0, sel.len(), hs.as_slice());
    proof {
        assert(sel@.subrange(0, sel@.len() as int) =~= sel@);
    }
    if c1 && !c2 {
        push_finding(
            findings,
            Safety::Review,
            "Potential :has() relational candidate",
            sel_detail(sel.as_slice(), ": parent-child descendant relationship could be expressed with :has() if container-targeting is intended (advisory)."),
        );
    }
    assert(finding_views(findings@) =~= h0 + has_part(sel@));
}

/// The findings for one style rule.
fn push_style_findings(s: &[char], n: &SourceNode, all: &Vec<Vec<char>>, findings: &mut Vec<Finding>)
    requires
        node_wf(s@, n@, 0, s@.len() as int),
        n.kind is Style,
    ensures
        finding_views(final(findings)@) == finding_views(old(findings)@) + style_findings(s@, crate::text::texts(all@), n@),
{
    let ghost h0 = finding_views(findings@);
    let sel = prelude_chars(s, n);
    assert(sel@ == prelude_of(s@, n@));
    push_list_part(&sel, findings);
    push_bem_part(&sel, all, findings);
    let (x, y) = body_of(s, n);
    assert(body_text(s@, n@) == s@.subrange(x as int, y as int));
    push_body_parts(s, x, y, &sel, findings);
    push_has_part(&sel, findings);
    let ghost b = body_text(s@, n@);
    assert(finding_views(findings@) =~= h0 + (list_part(sel@) + bem_part(sel@, crate::text::texts(all@)) + empty_part(
        sel@,
        b,
    ) + dup_part(sel@, b) + has_part(sel@)));
}

/// The advisory findings of a stylesheet: per style rule (selector lists, BEM names, empty
/// blocks, repeated declarations, `:has()` candidates), per context at-rule, and one per
/// selector used more than once.
pub(crate) fn collect_findings(s: &[char], nodes: &Vec<SourceNode>) -> (r: Vec<Finding>)
    requires
        nodes_ok(s@, nodes@),
    ensures
        finding_views(r@) == findings_spec(s@, nodes_view(nodes@)),
{
    let ghost ns = nodes_view(nodes@);
    let all = collect_selectors(s, nodes);
    let ghost sels = crate::text::texts(all@);
    let mut findings: Vec<Finding> = Vec::new();
    let mut k: usize = 0;
    while k < nodes.len()
        invariant
            k <= nodes@.len(),
            ns == nodes_view(nodes@),
            nodes_ok(s@, nodes@),
            sels == crate::text::texts(all@),
            sels == style_selectors(s@, ns),
            finding_views(findings@) == nodes_findings(s@, sels, ns.take(k as int)),
        decreases nodes.len() - k,
    {
        let n = &nodes[k];
        assert(node_wf(s@, n@, 0, s@.len() as int));
        proof {
            let t = ns.take(k + 1);
            assert(t.drop_last() =~= ns.take(k as int));
            assert(t.last() == n@);
            reveal_strlit("layer");
            reveal_strlit("scope");
            reveal_strlit("container");
            reveal_strlit("starting-style");
            assert("layer"@[0] == 'l' && "scope"@[1] == 'c' && "container"@[0] == 'c' && "starting-style"@[1] == 't');
        }
        let ghost before = finding_views(findings@);
        if is_style_node(n) {
            push_style_findings(s, n, &all, &mut findings);
        } else if at_block_named(n, "layer") {
            push_finding(
                &mut findings,
                Safety::Review,
                "Cascade layer context detected",
                chars_of("@layer participates in cascade ordering and reverses layer precedence for !important; automatic layer architecture is not applied."),
            );
        } else if at_block_named(n, "scope") {
            push_finding(
                &mut findings,
                Safety::Review,
                "Scope context detected",
                chars_of("@scope adds scope proximity to the cascade; scope architecture remains advisory."),
            );
        } else if at_block_named(n, "container") {
            push_finding(
                &mut findings,
                Safety::Review,
                "Container query context detected",
                chars_of("@container depends on eligible ancestor containers; media-to-container conversion is not inferred from CSS alone."),
            );
        } else if at_block_named(n, "starting-style") {
            push_finding(
                &mut findings,
                Safety::Review,
                "Starting-style context detected",
                chars_of("@starting-style is temporal transition state; this build never invents it from ordinary declarations."),
            );
        }
        assert(finding_views(findings@) =~= before + node_findings(s@, sels, n@));
        k = k + 1;
    }
    proof {
        assert(ns.take(nodes@.len() as int) =~= ns);
    }
    let ghost h = finding_views(findings@);
    let mut k: usize = 0;
    while k < all.len()
        invariant
            k <= all@.len(),
            sels == crate::text::texts(all@),
            finding_views(findings@) == h + dup_sel_findings(sels, k as int),
        decreases all.len() - k,
    {
        let mut first = true;
        let mut count: usize = 0;
        let mut j: usize = 0;
        while j < k
            invariant
                j <= k < all@.len(),
                sels == crate::text::texts(all@),
                first == (forall|q: int| 0 <= q < j ==> sels[q] != sels[k as int]),
                count == count_of(sels, sels[k as int], 0, j as int),
                count <= j,
            decreases k - j,
        {
            assert(sels[j as int] == all@[j as int]@);
            assert(sels[k as int] == all@[k as int]@);
            if chars_eq(all[j].as_slice(), all[k].as_slice()) {
                first = false;
                count = count + 1;
            }
            j = j + 1;
        }
        count = count + 1;
        let mut again = false;
        let mut j: usize = k + 1;
        while j < all.len()
            invariant
                k < j <= all@.len(),
                count <= j,
                sels == crate::text::texts(all@),
                again == (exists|q: int| k < q < j && sels[q] == sels[k as int]),
                count == count_of(sels, sels[k as int], 0, j as int),
            decreases all.len() - j,
        {
            assert(sels[j as int] == all@[j as int]@);
            assert(sels[k as int] == all@[k as int]@);
            if chars_eq(all[j].as_slice(), all[k].as_slice()) {
                again = true;
                count = count + 1;
            }
            j = j + 1;
        }
        let ghost before = finding_views(findings@);
        if first && again {
            let mut d = chars_of("'");
            d.extend_from_slice(all[k].as_slice());
            d.extend_from_slice(chars_of("' appears ").as_slice());
            d.extend_from_slice(crate::planner::decimal_exec(count).as_slice());
            d.extend_from_slice(chars_of(" times in the stylesheet; non-adjacent occurrences must not be merged across intervening rules.").as_slice());
            assert(sels[k as int] == all@[k as int]@);
            assert(d@ == "'"@ + sels[k as int] + "' appears "@ + crate::planner::decimal(count_of(sels, sels[k as int], 0, sels.len() as int))
                + " times in the stylesheet; non-adjacent occurrences must not be merged across intervening rules."@);
            push_finding(&mut findings, Safety::Review, "Duplicate selector in stylesheet", d);
        }
        proof {
            assert(sels[k as int] == all@[k as int]@);
            assert(finding_views(findings@) =~= h + dup_sel_findings(sels, k + 1));
        }
        k = k + 1;
    }
    findings
}

// ---------------------------------------------------------------------------
// Files and workspaces
// ---------------------------------------------------------------------------

/// What lightningcss's `StyleSheet::parse` reports for `source`, named `filename` in its
/// messages and parsed without error recovery: `None` when the stylesheet parses, else the
/// debug text of the error.
pub uninterp spec fn stylesheet_parse_error(filename: Seq<char>, source: Seq<char>) -> Option<Seq<char>>;

/// Parses `source` with lightningcss (`StyleSheet::parse`, no error recovery) and gives
/// back the debug text of the error, if any. Its contract only names the outcome: which
/// stylesheets lightningcss accepts is not restated here. Left unsaid as well: lightningcss
/// descends once per nested block and sets no limit on rule nesting, so a stylesheet nested
/// deeply enough can exhaust the stack before the call returns; its source gives no bound
/// that could be required here.
#[verifier::external_body]
fn parse_stylesheet(filename: &str, source: &str) -> (r: Option<String>)
    ensures
        match stylesheet_parse_error(filename@, source@) {
            Some(e) => r matches Some(t) && t@ == e,
            None => r is None,
        },
{
    let options = ParserOptions { filename: filename.to_string(), error_recovery: false, ..ParserOptions::default() };
    match StyleSheet::parse(source, options) {
        Ok(_) => None,
        Err(err) => Some(format!("{err:?}")),
    }
}

/// What a file report for `path` and `source` holds, given what parsing reported.
pub open spec fn report_ok(
    r: FileReport,
    path: Seq<char>,
    s: Seq<char>,
    perr: Option<Seq<char>>,
    enabled: Seq<RuleId>,
) -> bool {
    let ns = scan(s, 0, s.len() as int);
    &&& r.path@ == path
    &&& r.parse_ok == (perr is None)
    &&& match perr {
        Some(e) => r.parse_error matches Some(t) && t@ == e,
        None => r.parse_error is None,
    }
    &&& stats_match(r.stats, s, ns, (encode_utf8(s).len() as usize) as nat, perr is None)
    &&& finding_views(r.findings@) == findings_spec(s, ns) + match perr {
        Some(e) => seq![(Safety::Unsupported, "Semantic parse failed"@, e)],
        None => seq![],
    }
    &&& (perr is Some || enabled.len() == 0) ==> r.plans@.len() == 0
    &&& (perr is None && enabled.len() > 0) ==> exists|nodes: Seq<SourceNode>|
        #[trigger] crate::scanner::nodes_view(nodes) == ns && crate::layout::nodes_ok(s, nodes) && crate::planner::planned(
            path,
            s,
            nodes,
            enabled,
            plans_view(r.plans@),
        )
    &&& crate::planner::plans_ok(s, path, r.plans@)
    &&& crate::plan::ordered(plans_view(r.plans@), 0, s.len() as int)
}

/// The report for `source` given what parsing it reported: statistics, findings (with one
/// for the parse failure), and, when it parsed and some rule is enabled, the plans.
pub fn analyze_parsed(path: &str, source: &str, parse_error: Option<String>, enabled_rules: &[RuleId]) -> (r: FileReport)
    ensures
        report_ok(
            r,
            path@,
            source@,
            match parse_error {
                Some(e) => Some(e@),
                None => None,
            },
            enabled_rules@,
        ),
{
    let s = chars_of(source);
    let nodes = scan_in(s.as_slice(), 0, s.len());
    let parse_ok = parse_error.is_none();
    let stats = collect_stats(source, s.as_slice(), &nodes, parse_ok);
    let mut findings = collect_findings(s.as_slice(), &nodes);
    let ghost fh = finding_views(findings@);
    match &parse_error {
        Some(e) => {
            push_finding(&mut findings, Safety::Unsupported, "Semantic parse failed", chars_of(e.as_str()));
            assert(finding_views(findings@) =~= fh + seq![(Safety::Unsupported, "Semantic parse failed"@, e@)]);
        },
        None => {
            assert(finding_views(findings@) =~= fh + seq![]);
        },
    }
    let plans = if parse_ok && enabled_rules.len() > 0 {
        crate::planner::build_plans_recursive(path, s.as_slice(), &nodes, 0, s.len(), enabled_rules)
    } else {
        let v: Vec<PlanEntry> = Vec::new();
        proof {
            assert(plans_view(v@) =~= seq![]);
        }
        v
    };
    FileReport {
        path: String::from_str(path),
        parse_ok,
        parse_error: match parse_error {
            Some(e) => Some(e),
            None => None,
        },
        stats,
        findings,
        plans,
    }
}

/// Parses `source` with lightningcss and reports on it (see `analyze_parsed`).
pub fn analyze_source(path: &str, source: &str, enabled_rules: &[RuleId]) -> (r: FileReport)
    ensures
        report_ok(r, path@, source@, stylesheet_parse_error(path@, source@), enabled_rules@),
{
    let perr = parse_stylesheet(path, source);
    analyze_parsed(path, source, perr, enabled_rules)
}

/// `d` padded with zeros on the left to at least `w` digits.
pub open spec fn zero_pad(d: Seq<char>, w: nat) -> Seq<char> {
    if d.len() < w {
        Seq::new((w - d.len()) as nat, |i: int| '0') + d
    } else {
        d
    }
}

/// The id of the `n`-th plan of a workspace: `T-` and six or more digits.
pub open spec fn plan_id_text(n: nat) -> Seq<char> {
    "T-"@ + zero_pad(crate::planner::decimal(n), 6)
}

pub fn plan_id(n: usize) -> (r: String)
    ensures
        r@ == plan_id_text(n as nat),
{
    let d = crate::planner::decimal_exec(n);
    let mut v = chars_of("T-");
    let mut k = d.len();
    while k < 6
        invariant
            d.len() <= k <= 6 || d.len() > 6 && k == d.len(),
            v@ == "T-"@ + Seq::new((k - d.len()) as nat, |i: int| '0'),
        decreases 6 - k,
    {
        let ghost before = v@;
        v.push('0');
        proof {
            assert(v@ =~= "T-"@ + Seq::new((k + 1 - d.len()) as nat, |i: int| '0'));
        }
        k = k + 1;
    }
    v.extend_from_slice(d.as_slice());
    proof {
        if d@.len() < 6 {
            assert(v@ =~= "T-"@ + zero_pad(d@, 6));
        } else {
            assert(Seq::new((k - d.len()) as nat, |i: int| '0') =~= Seq::<char>::empty());
            assert(v@ =~= "T-"@ + zero_pad(d@, 6));
        }
    }
    string_of(v.as_slice())
}

pub open spec fn count_safety(ps: Seq<PlanEntry>, sf: Safety) -> nat
    decreases ps.len(),
{
    if ps.len() == 0 {
        0
    } else {
        count_safety(ps.drop_last(), sf) + if ps.last().safety == sf {
            1nat
        } else {
            0nat
        }
    }
}

/// Whether some warning of `p`, lower-cased, holds one of `words`.
pub open spec fn warns_of(p: PlanEntry, words: Seq<Seq<char>>) -> bool {
    exists|w: int, k: int| 0 <= w < p.warnings@.len() && 0 <= k < words.len() && contains(
        crate::text::lower(p.warnings@[w]@),
        words[k],
    )
}

pub open spec fn count_warned(ps: Seq<PlanEntry>, words: Seq<Seq<char>>) -> nat
    decreases ps.len(),
{
    if ps.len() == 0 {
        0
    } else {
        count_warned(ps.drop_last(), words) + if warns_of(ps.last(), words) {
            1nat
        } else {
            0nat
        }
    }
}

/// All plans of a list of reports, in order.
pub open spec fn all_plans(rs: Seq<FileReport>) -> Seq<PlanEntry>
    decreases rs.len(),
{
    if rs.len() == 0 {
        seq![]
    } else {
        all_plans(rs.drop_last()) + rs.last().plans@
    }
}

pub open spec fn count_failed(rs: Seq<FileReport>) -> nat
    decreases rs.len(),
{
    if rs.len() == 0 {
        0
    } else {
        count_failed(rs.drop_last()) + if rs.last().parse_ok {
            0nat
        } else {
            1nat
        }
    }
}

pub open spec fn rules_total(rs: Seq<FileReport>) -> nat
    decreases rs.len(),
{
    if rs.len() == 0 {
        0
    } else {
        rules_total(rs.drop_last()) + (rs.last().stats.top_level_style_rules + rs.last().stats.top_level_at_rules) as nat
    }
}

pub open spec fn capped(n: nat) -> nat {
    if n < usize::MAX {
        n
    } else {
        usize::MAX as nat
    }
}

pub(crate) fn sat_add(a: usize, b: usize) -> (r: usize)
    ensures
        r == capped((a + b) as nat),
{
    if a <= usize::MAX - b {
        a + b
    } else {
        usize::MAX
    }
}

/// What a report of a workspace holds for one file: as `report_ok` says, with ids given to
/// the plans.
pub open spec fn workspace_file_ok(
    r: FileReport,
    path: Seq<char>,
    s: Seq<char>,
    perr: Option<Seq<char>>,
    enabled: Seq<RuleId>,
) -> bool {
    let ns = scan(s, 0, s.len() as int);
    &&& r.path@ == path
    &&& r.parse_ok == (perr is None)
    &&& match perr {
        Some(e) => r.parse_error matches Some(t) && t@ == e,
        None => r.parse_error is None,
    }
    &&& stats_match(r.stats, s, ns, (encode_utf8(s).len() as usize) as nat, perr is None)
    &&& finding_views(r.findings@) == findings_spec(s, ns) + match perr {
        Some(e) => seq![(Safety::Unsupported, "Semantic parse failed"@, e)],
        None => seq![],
    }
    &&& (perr is Some || enabled.len() == 0) ==> r.plans@.len() == 0
    &&& forall|k: int| 0 <= k < r.plans@.len() ==> crate::plan::plan_fits(s, (#[trigger] r.plans@[k])@) && r.plans@[k]@.file
        == path && r.plans@[k]@.selected
    &&& (perr is None && enabled.len() > 0) ==> exists|nodes: Seq<SourceNode>, v: Seq<PlanView>|
        crate::scanner::nodes_view(nodes) == ns && crate::layout::nodes_ok(s, nodes) && #[trigger] crate::planner::planned(
            path,
            s,
            nodes,
            enabled,
            v,
        ) && renumbered(plans_view(r.plans@), v)
    &&& crate::plan::ordered(plans_view(r.plans@), 0, s.len() as int)
}

/// `a` is `b` with other ids.
pub open spec fn renumbered(a: Seq<PlanView>, b: Seq<PlanView>) -> bool {
    &&& a.len() == b.len()
    &&& forall|k: int| 0 <= k < a.len() ==> #[trigger] a[k] == (PlanView { id: a[k].id, ..b[k] })
}

/// Some warning of the list mentions `word`, ignoring ASCII case.
pub open spec fn warned(ws: Seq<Seq<char>>, word: Seq<char>) -> bool {
    exists|k: int| 0 <= k < ws.len() && crate::text::contains(crate::text::lower(#[trigger] ws[k]), word)
}

/// Some warning of the plan mentions one of `words`, ignoring ASCII case.
pub open spec fn sensitive(p: PlanView, words: Seq<Seq<char>>) -> bool {
    exists|j: int| 0 <= j < words.len() && warned(p.warnings, #[trigger] words[j])
}

/// The number of plans with a warning that mentions one of `words`.
pub open spec fn count_sensitive(ps: Seq<PlanEntry>, words: Seq<Seq<char>>) -> nat
    decreases ps.len(),
{
    if ps.len() == 0 {
        0
    } else {
        count_sensitive(ps.drop_last(), words) + if sensitive(ps.last()@, words) {
            1nat
        } else {
            0nat
        }
    }
}

fn has_warning(p: &PlanEntry, word: &str) -> (r: bool)
    ensures
        r == warned(p@.warnings, word@),
{
    let wv = chars_of(word);
    let mut k: usize = 0;
    while k < p.warnings.len()
        invariant
            k <= p.warnings@.len(),
            wv@ == word@,
            forall|j: int| 0 <= j < k ==> !crate::text::contains(crate::text::lower(#[trigger] p@.warnings[j]), word@),
        decreases p.warnings.len() - k,
    {
        let w = chars_of(p.warnings[k].as_str());
        let lw = crate::text::lower_range(w.as_slice(), 0, w.len());
        proof {
            assert(w@.subrange(0, w@.len() as int) =~= w@);
            assert(lw@.subrange(0, lw@.len() as int) =~= lw@);
            assert(p@.warnings[k as int] == p.warnings@[k as int]@);
        }
        if crate::text::contains_in(lw.as_slice(), 0, lw.len(), wv.as_slice()) {
            return true;
        }
        k = k + 1;
    }
    false
}

/// The words of the warnings that make a plan specificity sensitive.
pub open spec fn specificity_words() -> Seq<Seq<char>> {
    seq!["specificity"@]
}

/// The words of the warnings that make a plan cascade sensitive.
pub open spec fn cascade_words() -> Seq<Seq<char>> {
    seq!["cascade"@, "source order"@]
}

/// The words of the warnings that make a plan layer sensitive.
pub open spec fn layer_words() -> Seq<Seq<char>> {
    seq!["layer"@]
}

/// The words of the warnings that make a plan scope sensitive.
pub open spec fn scope_words() -> Seq<Seq<char>> {
    seq!["scope"@]
}

proof fn lemma_sensitive_one(p: PlanView, words: Seq<Seq<char>>)
    requires
        words.len() == 1,
    ensures
        sensitive(p, words) == warned(p.warnings, words[0]),
{
    if warned(p.warnings, words[0]) {
        assert(warned(p.warnings, words[0]));
    }
}

proof fn lemma_sensitive_two(p: PlanView, words: Seq<Seq<char>>)
    requires
        words.len() == 2,
    ensures
        sensitive(p, words) == (warned(p.warnings, words[0]) || warned(p.warnings, words[1])),
{
    if warned(p.warnings, words[0]) {
        assert(warned(p.warnings, words[0]));
    }
    if warned(p.warnings, words[1]) {
        assert(warned(p.warnings, words[1]));
    }
}

proof fn lemma_ordered_same_spans(a: Seq<PlanView>, b: Seq<PlanView>, hi: int)
    requires
        a.len() == b.len(),
        forall|k: int| 0 <= k < a.len() ==> (#[trigger] a[k]).start == b[k].start && a[k].end == b[k].end,
        crate::plan::ordered(a, 0, hi),
    ensures
        crate::plan::ordered(b, 0, hi),
{
    assert forall|k: int| 0 <= k < b.len() implies 0 <= (#[trigger] b[k]).start <= b[k].end <= hi by {
        assert(a[k].start == b[k].start);
    }
    assert forall|k: int, l: int| 0 <= k < l < b.len() implies (#[trigger] b[k]).end <= (#[trigger] b[l]).start by {
        assert(a[k].end == b[k].end);
        assert(a[l].start == b[l].start);
    }
}

/// What the report of a workspace holds for the files `files` with contents `sources`: a
/// report for each file, the plans numbered `T-000001`, `T-000002`, ... in file order, and the
/// sums over them.
pub open spec fn workspace_ok(
    r: WorkspaceReport,
    root: Seq<char>,
    files: Seq<Seq<char>>,
    sources: Seq<Seq<char>>,
    enabled: Seq<RuleId>,
) -> bool {
    &&& r.files@.len() == files.len()
    &&& forall|i: int| 0 <= i < files.len() ==> workspace_file_ok(
        #[trigger] r.files@[i],
        files[i],
        sources[i],
        stylesheet_parse_error(files[i], sources[i]),
        enabled,
    )
    &&& forall|j: int| 0 <= j < all_plans(r.files@).len() ==> (#[trigger] all_plans(r.files@)[j]).id@ == plan_id_text(
        capped((j + 1) as nat),
    )
    &&& r.summary.files == files.len()
    &&& r.summary.parse_errors == count_failed(r.files@)
    &&& r.summary.rules_analyzed == capped(rules_total(r.files@))
    &&& r.summary.safe == capped(count_safety(all_plans(r.files@), Safety::Safe))
    &&& r.summary.review == capped(count_safety(all_plans(r.files@), Safety::Review))
    &&& r.summary.unsafe_count == capped(count_safety(all_plans(r.files@), Safety::Unsafe))
    &&& r.summary.unsupported == capped(count_safety(all_plans(r.files@), Safety::Unsupported))
    &&& r.summary.no_op == capped(count_safety(all_plans(r.files@), Safety::NoOp))
    &&& r.summary.specificity_sensitive == capped(count_sensitive(all_plans(r.files@), specificity_words()))
    &&& r.summary.cascade_sensitive == capped(count_sensitive(all_plans(r.files@), cascade_words()))
    &&& r.summary.layer_sensitive == capped(count_sensitive(all_plans(r.files@), layer_words()))
    &&& r.summary.scope_sensitive == capped(count_sensitive(all_plans(r.files@), scope_words()))
    &&& r.tool_version@ == "0.4.0"@
    &&& r.spec_baseline@ == "2026-08-17"@
    &&& r.root@ == root
    &&& r.enabled_rules@ == enabled
}

/// Analyzes each file (`files[i]` holding `sources[i]`), numbers the plans of the whole
/// workspace `T-000001`, `T-000002`, ... in file order, and sums up.
#[verifier::rlimit(40)]
pub fn analyze_workspace(root: &str, files: &[String], sources: &[String], enabled_rules: &[RuleId]) -> (r:
    WorkspaceReport)
    requires
        files@.len() == sources@.len(),
    ensures
        workspace_ok(
            r,
            root@,
            crate::text::texts_of_strings(files@),
            crate::text::texts_of_strings(sources@),
            enabled_rules@,
        ),
{
    let mut reports: Vec<FileReport> = Vec::new();
    let mut next_id: usize = 1;
    let mut i: usize = 0;
    while i < files.len()
        invariant
            i <= files@.len(),
            files@.len() == sources@.len(),
            reports@.len() == i,
            next_id == capped(all_plans(reports@).len() + 1),
            forall|q: int| 0 <= q < i ==> workspace_file_ok(
                #[trigger] reports@[q],
                files@[q]@,
                sources@[q]@,
                stylesheet_parse_error(files@[q]@, sources@[q]@),
                enabled_rules@,
            ),
            forall|j: int| 0 <= j < all_plans(reports@).len() ==> (#[trigger] all_plans(reports@)[j]).id@
                == plan_id_text(capped((j + 1) as nat)),
        decreases files.len() - i,
    {
        let report = analyze_source(files[i].as_str(), sources[i].as_str(), enabled_rules);
        let FileReport { path, parse_ok, parse_error, stats, findings, plans } = report;
        let ghost old_plans = plans@;
        let ghost prior = all_plans(reports@);
        let mut src = plans;
        let mut numbered: Vec<PlanEntry> = Vec::new();
        while src.len() > 0
            invariant
                numbered@.len() + src@.len() == old_plans.len(),
                src@ == old_plans.skip(numbered@.len() as int),
                next_id == capped(prior.len() + numbered@.len() + 1),
                forall|k: int| 0 <= k < numbered@.len() ==> (#[trigger] numbered@[k])@ == (PlanView {
                    id: numbered@[k]@.id,
                    ..old_plans[k]@
                }),
                forall|k: int| 0 <= k < numbered@.len() ==> (#[trigger] numbered@[k]).id@ == plan_id_text(
                    capped((prior.len() + k + 1) as nat),
                ),
            decreases src@.len(),
        {
            let ghost before = src@;
            let mut p = src.remove(0);
            assert(p == old_plans[numbered@.len() as int]);
            p.id = plan_id(next_id);
            numbered.push(p);
            next_id = sat_add(next_id, 1);
            proof {
                assert(src@ =~= old_plans.skip(numbered@.len() as int));
            }
        }
        let rep = FileReport { path, parse_ok, parse_error, stats, findings, plans: numbered };
        let ghost before = reports@;
        reports.push(rep);
        proof {
            assert(reports@.drop_last() =~= before);
            assert(all_plans(reports@) =~= prior + numbered@);
            assert forall|j: int| 0 <= j < all_plans(reports@).len() implies (#[trigger] all_plans(reports@)[j]).id@
                == plan_id_text(capped((j + 1) as nat)) by {
                if j >= prior.len() {
                    assert(all_plans(reports@)[j] == numbered@[j - prior.len()]);
                } else {
                    assert(all_plans(reports@)[j] == prior[j]);
                }
            }
            assert forall|q: int| 0 <= q < i + 1 implies workspace_file_ok(
                #[trigger] reports@[q],
                files@[q]@,
                sources@[q]@,
                stylesheet_parse_error(files@[q]@, sources@[q]@),
                enabled_rules@,
            ) by {
                if q < i {
                    assert(reports@[q] == before[q]);
                } else {
                    assert(reports@[q] == rep);
                    assert forall|k: int| 0 <= k < rep.plans@.len() implies crate::plan::plan_fits(
                        sources@[q]@,
                        (#[trigger] rep.plans@[k])@,
                    ) && rep.plans@[k]@.file == files@[q]@ && rep.plans@[k]@.selected by {
                        assert(crate::planner::plan_ok(sources@[q]@, files@[q]@, old_plans[k]@));
                    }
                    lemma_ordered_same_spans(plans_view(old_plans), plans_view(rep.plans@), sources@[q]@.len() as int);
                    let perr = stylesheet_parse_error(files@[q]@, sources@[q]@);
                    if perr is None && enabled_rules@.len() > 0 {
                        let s = sources@[q]@;
                        let nodes = choose|nodes: Seq<SourceNode>|
                            #[trigger] crate::scanner::nodes_view(nodes) == scan(s, 0, s.len() as int) && crate::layout::nodes_ok(
                                s,
                                nodes,
                            ) && crate::planner::planned(files@[q]@, s, nodes, enabled_rules@, plans_view(old_plans));
                        assert(renumbered(plans_view(rep.plans@), plans_view(old_plans)));
                        assert(crate::planner::planned(files@[q]@, s, nodes, enabled_rules@, plans_view(old_plans)));
                    }
                }
            }
        }
        i = i + 1;
    }
    let mut summary = WorkspaceSummary {
        files: reports.len(),
        parse_errors: 0,
        rules_analyzed: 0,
        safe: 0,
        review: 0,
        unsafe_count: 0,
        unsupported: 0,
        no_op: 0,
        specificity_sensitive: 0,
        cascade_sensitive: 0,
        layer_sensitive: 0,
        scope_sensitive: 0,
    };
    let mut f: usize = 0;
    while f < reports.len()
        invariant
            f <= reports@.len(),
            summary.files == reports@.len(),
            summary.parse_errors == count_failed(reports@.take(f as int)),
            summary.parse_errors <= f,
            summary.rules_analyzed == capped(rules_total(reports@.take(f as int))),
            summary.safe == capped(count_safety(all_plans(reports@.take(f as int)), Safety::Safe)),
            summary.review == capped(count_safety(all_plans(reports@.take(f as int)), Safety::Review)),
            summary.unsafe_count == capped(count_safety(all_plans(reports@.take(f as int)), Safety::Unsafe)),
            summary.unsupported == capped(count_safety(all_plans(reports@.take(f as int)), Safety::Unsupported)),
            summary.no_op == capped(count_safety(all_plans(reports@.take(f as int)), Safety::NoOp)),
            summary.specificity_sensitive == capped(count_sensitive(all_plans(reports@.take(f as int)), specificity_words())),
            summary.cascade_sensitive == capped(count_sensitive(all_plans(reports@.take(f as int)), cascade_words())),
            summary.layer_sensitive == capped(count_sensitive(all_plans(reports@.take(f as int)), layer_words())),
            summary.scope_sensitive == capped(count_sensitive(all_plans(reports@.take(f as int)), scope_words())),
        decreases reports.len() - f,
    {
        let rep = &reports[f];
        let ghost t = reports@.take(f + 1);
        proof {
            assert(t.drop_last() =~= reports@.take(f as int));
            assert(t.last() == *rep);
        }
        if !rep.parse_ok {
            summary.parse_errors = summary.parse_errors + 1;
        }
        summary.rules_analyzed = sat_add(
            summary.rules_analyzed,
            sat_add(rep.stats.top_level_style_rules, rep.stats.top_level_at_rules),
        );
        let ghost base = all_plans(reports@.take(f as int));
        let ghost pe = summary.parse_errors;
        let ghost ra = summary.rules_analyzed;
        let ghost sa = summary.safe;
        let mut k: usize = 0;
        while k < rep.plans.len()
            invariant
                k <= rep.plans@.len(),
                summary.files == reports@.len(),
                summary.parse_errors == pe,
                summary.rules_analyzed == ra,
                summary.safe == capped(count_safety(base + rep.plans@.take(k as int), Safety::Safe)),
                summary.review == capped(count_safety(base + rep.plans@.take(k as int), Safety::Review)),
                summary.unsafe_count == capped(count_safety(base + rep.plans@.take(k as int), Safety::Unsafe)),
                summary.unsupported == capped(count_safety(base + rep.plans@.take(k as int), Safety::Unsupported)),
                summary.no_op == capped(count_safety(base + rep.plans@.take(k as int), Safety::NoOp)),
                summary.specificity_sensitive == capped(count_sensitive(base + rep.plans@.take(k as int), specificity_words())),
                summary.cascade_sensitive == capped(count_sensitive(base + rep.plans@.take(k as int), cascade_words())),
                summary.layer_sensitive == capped(count_sensitive(base + rep.plans@.take(k as int), layer_words())),
                summary.scope_sensitive == capped(count_sensitive(base + rep.plans@.take(k as int), scope_words())),
            decreases rep.plans.len() - k,
        {
            let p = &rep.plans[k];
            proof {
                let u = base + rep.plans@.take(k + 1);
                assert(u.drop_last() =~= base + rep.plans@.take(k as int));
                assert(u.last() == *p);
            }
            match p.safety {
                Safety::Safe => summary.safe = sat_add(summary.safe, 1),
                Safety::Review => summary.review = sat_add(summary.review, 1),
                Safety::Unsafe => summary.unsafe_count = sat_add(summary.unsafe_count, 1),
                Safety::Unsupported => summary.unsupported = sat_add(summary.unsupported, 1),
                Safety::NoOp => summary.no_op = sat_add(summary.no_op, 1),
            }
            let spec_w = has_warning(p, "specificity");
            let casc_w = has_warning(p, "cascade");
            let order_w = has_warning(p, "source order");
            let layer_w = has_warning(p, "layer");
            let scope_w = has_warning(p, "scope");
            proof {
                lemma_sensitive_one(p@, specificity_words());
                lemma_sensitive_two(p@, cascade_words());
                lemma_sensitive_one(p@, layer_words());
                lemma_sensitive_one(p@, scope_words());
            }
            if spec_w {
                summary.specificity_sensitive = sat_add(summary.specificity_sensitive, 1);
            }
            if casc_w || order_w {
                summary.cascade_sensitive = sat_add(summary.cascade_sensitive, 1);
            }
            if layer_w {
                summary.layer_sensitive = sat_add(summary.layer_sensitive, 1);
            }
            if scope_w {
                summary.scope_sensitive = sat_add(summary.scope_sensitive, 1);
            }
            k = k + 1;
        }
        proof {
            assert(rep.plans@.take(rep.plans@.len() as int) =~= rep.plans@);
            assert(all_plans(t) == all_plans(t.drop_last()) + t.last().plans@);
        }
        f = f + 1;
    }
    proof {
        assert(reports@.take(reports@.len() as int) =~= reports@);
    }
    let mut enabled: Vec<RuleId> = Vec::new();
    let mut e: usize = 0;
    while e < enabled_rules.len()
        invariant
            e <= enabled_rules@.len(),
            enabled@ == enabled_rules@.take(e as int),
        decreases enabled_rules.len() - e,
    {
        enabled.push(enabled_rules[e]);
        proof {
            assert(enabled_rules@.take(e + 1) =~= enabled_rules@.take(e as int).push(enabled_rules@[e as int]));
        }
        e = e + 1;
    }
    proof {
        assert(enabled_rules@.take(enabled_rules@.len() as int) =~= enabled_rules@);
    }
    WorkspaceReport {
        tool_version: String::from_str("0.4.0"),
        spec_baseline: String::from_str("2026-08-17"),
        root: String::from_str(root),
        enabled_rules: enabled,
        files: reports,
        summary,
    }
}

/// Law: every plan of a workspace is counted under exactly one safety level.
pub proof fn law_safety_counts_partition(ps: Seq<PlanEntry>)
    ensures
        count_safety(ps, Safety::Safe) + count_safety(ps, Safety::Review) + count_safety(ps, Safety::Unsafe)
            + count_safety(ps, Safety::Unsupported) + count_safety(ps, Safety::NoOp) == ps.len(),
    decreases ps.len(),
{
    if ps.len() > 0 {
        law_safety_counts_partition(ps.drop_last());
    }
}

/// What `similar` renders as the unified diff (grouped by lines, with `old_name` and
/// `new_name` in its header) between `old` and `new`.
pub uninterp spec fn unified_diff_text(old: Seq<char>, new: Seq<char>, old_name: Seq<char>, new_name: Seq<char>) -> Seq<char>;

/// The unified line diff from `old` to `new`, as `similar`'s `TextDiff::from_lines` renders
/// it under the header `old_name` / `new_name`. Only the name of the text is stated: how
/// `similar` lays out hunks is not restated here.
#[verifier::external_body]
pub fn unified_diff(old: &str, new: &str, old_name: &str, new_name: &str) -> (r: String)
    ensures
        r@ == unified_diff_text(old@, new@, old_name@, new_name@),
{
    TextDiff::from_lines(old, new).unified_diff().header(old_name, new_name).to_string()
}

} // verus!
