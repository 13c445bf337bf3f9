use crate::layout::{line_indent, line_number, nodes_ok, nodes_within, rule_enabled, scan_in};
use crate::model::{safe_local_proof, PlanEntry, Proof, RuleId, Safety, SourceRange};
use crate::plan::{apply_selected_plans, order_disjoint, plan_fits, plans_view, PlanView};
use crate::relation::{extract_base_target, extract_multi_branch_pattern, extract_related_nested_selector, selector_relation, trimmed};
use crate::render::{
    at_block_named, body_of, children_ok, concat, conditional_child, format_merged_rule,
    is_style_node, prelude_chars, push_str, render_cluster, unit_or, ClusterChild,
};
use crate::scanner::{node_wf, whitespace_only_chars, NodeKind, SourceNode};
use crate::text::{chars_eq, chars_of, push_range, push_reindented, string_of, trim_bounds};
use vstd::prelude::*;
use vstd::string::*;

verus! {

// ---------------------------------------------------------------------------
// Plans and what every builder promises of them
// ---------------------------------------------------------------------------

/// A plan built for `path` whose span lies in `s` and whose `original` is that span's text;
/// where it is safe, it passes every proof check.
pub open spec fn plan_ok(s: Seq<char>, path: Seq<char>, p: PlanView) -> bool {
    &&& plan_fits(s, p)
    &&& p.file == path
    &&& p.id == Seq::<char>::empty()
    &&& p.selected
    &&& p.safety == Safety::Safe ==> p.proof == safe_local_proof()
}

pub open spec fn plans_ok(s: Seq<char>, path: Seq<char>, ps: Seq<PlanEntry>) -> bool {
    forall|k: int| 0 <= k < ps.len() ==> plan_ok(s, path, #[trigger] ps[k]@)
}

/// `new` keeps the plans of `old`, in place, and may add more after them.
pub open spec fn grows(old: Seq<PlanEntry>, new: Seq<PlanEntry>) -> bool {
    &&& old.len() <= new.len()
    &&& forall|k: int| 0 <= k < old.len() ==> (#[trigger] new[k])@ == old[k]@
}

/// Every plan added after `old` applies exactly `rules` with the given safety.
pub open spec fn added_as(old: Seq<PlanEntry>, new: Seq<PlanEntry>, rules: Seq<RuleId>, safety: Safety) -> bool {
    forall|k: int| old.len() <= k < new.len() ==> (#[trigger] new[k])@.rules == rules && new[k]@.safety
        == safety
}

/// Law (proof checks): every safe plan that the builders give (and `build_plans_recursive`
/// keeps, whose plans are `plans_ok`) passes all eight proof checks: selector set,
/// specificity, cascade context, source order, layer, scope, declarations and `!important`.
pub proof fn law_safe_plans_pass_every_check(s: Seq<char>, path: Seq<char>, ps: Seq<PlanEntry>)
    requires
        plans_ok(s, path, ps),
    ensures
        forall|k: int| 0 <= k < ps.len() && (#[trigger] ps[k])@.safety == Safety::Safe ==> {
            let pr = ps[k]@.proof;
            &&& pr.selector_set_equivalent && pr.specificity_equivalent && pr.cascade_context_equivalent
            &&& pr.source_order_equivalent && pr.layer_equivalent && pr.scope_equivalent
            &&& pr.declarations_exact && pr.important_exact
        },
{
    assert forall|k: int| 0 <= k < ps.len() && (#[trigger] ps[k])@.safety == Safety::Safe implies {
        let pr = ps[k]@.proof;
        &&& pr.selector_set_equivalent && pr.specificity_equivalent && pr.cascade_context_equivalent
        &&& pr.source_order_equivalent && pr.layer_equivalent && pr.scope_equivalent
        &&& pr.declarations_exact && pr.important_exact
    } by {
        assert(plan_ok(s, path, ps[k]@));
    }
}

proof fn lemma_push_plan(s: Seq<char>, path: Seq<char>, old: Seq<PlanEntry>, mid: Seq<PlanEntry>, p: PlanEntry)
    requires
        plans_ok(s, path, mid),
        grows(old, mid),
        plan_ok(s, path, p@),
    ensures
        plans_ok(s, path, mid.push(p)),
        grows(old, mid.push(p)),
{
    let n = mid.push(p);
    assert forall|k: int| 0 <= k < n.len() implies plan_ok(s, path, #[trigger] n[k]@) by {
        if k < mid.len() {
            assert(n[k] == mid[k]);
        }
    }
    assert forall|k: int| 0 <= k < old.len() implies (#[trigger] n[k])@ == old[k]@ by {
        assert(n[k] == mid[k]);
    }
}

pub open spec fn digit(d: nat) -> char {
    if d == 0 { '0' } else if d == 1 { '1' } else if d == 2 { '2' } else if d == 3 { '3' } else if d == 4 {
        '4'
    } else if d == 5 { '5' } else if d == 6 { '6' } else if d == 7 { '7' } else if d == 8 { '8' } else {
        '9'
    }
}

/// The decimal digits of `n`.
pub open spec fn decimal(n: nat) -> Seq<char>
    decreases n,
{
    if n < 10 {
        seq![digit(n)]
    } else {
        decimal(n / 10).push(digit(n % 10))
    }
}

fn digit_exec(d: usize) -> (c: char)
    requires
        d < 10,
    ensures
        c == digit(d as nat),
{
    if d == 0 { '0' } else if d == 1 { '1' } else if d == 2 { '2' } else if d == 3 { '3' } else if d == 4 {
        '4'
    } else if d == 5 { '5' } else if d == 6 { '6' } else if d == 7 { '7' } else if d == 8 { '8' } else {
        '9'
    }
}

/// The decimal digits of `n`.
pub(crate) fn decimal_exec(n: usize) -> (r: Vec<char>)
    ensures
        r@ == decimal(n as nat),
    decreases n,
{
    if n < 10 {
        let mut r: Vec<char> = Vec::new();
        r.push(digit_exec(n));
        assert(r@ =~= seq![digit(n as nat)]);
        r
    } else {
        let mut r = decimal_exec(n / 10);
        r.push(digit_exec(n % 10));
        r
    }
}

/// A plan for `s[start..end]`, selected, with no id yet.
pub(crate) fn make_plan(
    path: &str,
    s: &[char],
    start: usize,
    end: usize,
    rules: Vec<RuleId>,
    safety: Safety,
    proposed: Vec<char>,
    proof: Proof,
    warnings: Vec<String>,
    reason: Vec<char>,
) -> (p: PlanEntry)
    requires
        start <= end <= s@.len(),
        safety == Safety::Safe ==> proof == safe_local_proof(),
    ensures
        plan_ok(s@, path@, p@),
        p@.start == start,
        p@.end == end,
        p@.rules == rules@,
        p@.safety == safety,
        p@.proposed == proposed@,
        p@.proof == proof,
        p@.reason == reason@,
        p@.warnings == warnings@.map_values(|w: String| w@),
{
    PlanEntry {
        id: String::new(),
        file: String::from_str(path),
        rules,
        safety,
        source_range: SourceRange { start, end },
        original: crate::text::string_of_range(s, start, end),
        proposed: string_of(proposed.as_slice()),
        proof,
        warnings,
        reason: string_of(reason.as_slice()),
        selected: true,
    }
}

fn lit(s: &str) -> (r: Vec<char>)
    ensures
        r@ == s@,
{
    chars_of(s)
}

fn one_rule(r: RuleId) -> (v: Vec<RuleId>)
    ensures
        v@ == seq![r],
{
    let mut v: Vec<RuleId> = Vec::new();
    v.push(r);
    assert(v@ =~= seq![r]);
    v
}

/// The name of an at-rule block.
pub open spec fn at_name(n: SourceNode) -> Option<Seq<char>> {
    match n.kind {
        NodeKind::AtBlock { name, .. } => Some(name@),
        _ => None,
    }
}

/// The rule that merges adjacent identical blocks of a node's at-rule, if there is one.
pub open spec fn at_merge_rule_spec(n: SourceNode) -> Option<RuleId> {
    match at_name(n) {
        Some(x) => if x == "media"@ {
            Some(RuleId::MergeAdjacentMedia)
        } else if x == "supports"@ {
            Some(RuleId::MergeAdjacentSupports)
        } else if x == "container"@ {
            Some(RuleId::MergeAdjacentContainer)
        } else if x == "scope"@ {
            Some(RuleId::MergeIdenticalScope)
        } else if x == "starting-style"@ {
            Some(RuleId::MergeIdenticalStartingStyle)
        } else {
            None
        },
        None => None,
    }
}

/// Whether two nodes are at-rule blocks of the same name.
fn same_at_name(a: &SourceNode, b: &SourceNode) -> (r: bool)
    ensures
        r == (at_name(*a) is Some && at_name(*a) == at_name(*b)),
{
    match (&a.kind, &b.kind) {
        (NodeKind::AtBlock { name: x, .. }, NodeKind::AtBlock { name: y, .. }) => {
            let xv = chars_of(x.as_str());
            let yv = chars_of(y.as_str());
            chars_eq(xv.as_slice(), yv.as_slice())
        },
        _ => false,
    }
}

/// The merge rule that covers adjacent identical blocks of this at-rule, if any.
fn at_merge_rule(n: &SourceNode) -> (r: Option<RuleId>)
    ensures
        r == at_merge_rule_spec(*n),
{
    if at_block_named(n, "media") {
        Some(RuleId::MergeAdjacentMedia)
    } else if at_block_named(n, "supports") {
        Some(RuleId::MergeAdjacentSupports)
    } else if at_block_named(n, "container") {
        Some(RuleId::MergeAdjacentContainer)
    } else if at_block_named(n, "scope") {
        Some(RuleId::MergeIdenticalScope)
    } else if at_block_named(n, "starting-style") {
        Some(RuleId::MergeIdenticalStartingStyle)
    } else {
        None
    }
}

/// The trimmed body of a node, empty when it has none.
pub open spec fn body_text(s: Seq<char>, n: crate::scanner::SpecNode) -> Seq<char> {
    match n.body {
        Some((x, y)) => crate::text::trim(s.subrange(x, y)),
        None => seq![],
    }
}

/// The trimmed body of a node that has one.
fn trimmed_body(s: &[char], n: &SourceNode) -> (r: Vec<char>)
    requires
        node_wf(s@, n@, 0, s@.len() as int),
    ensures
        r@ == body_text(s@, n@),
{
    if n.body_range.is_some() {
        let (x, y) = body_of(s, n);
        let (a, b) = trim_bounds(s, x, y);
        crate::selector::copy_range(s, a, b)
    } else {
        Vec::new()
    }
}

/// Node `k` follows node `k - 1` with only whitespace between them.
pub open spec fn gap_ws(s: Seq<char>, nodes: Seq<SourceNode>, k: int) -> bool {
    crate::scanner::whitespace_only(s, nodes[k - 1].end as int, nodes[k].start as int)
}

/// The end of a run of nodes: from position `j` on, the first position that is past the
/// list (of length `len`) or whose node does not `join` the run.
pub open spec fn run_end(len: int, j: int, join: spec_fn(int) -> bool) -> int
    decreases len - j,
{
    if j < 1 || j >= len || !join(j) {
        j
    } else {
        run_end(len, j + 1, join)
    }
}

proof fn lemma_run_end(len: int, j: int, e: int, join: spec_fn(int) -> bool)
    requires
        1 <= j <= e <= len,
        forall|k: int| j <= k < e ==> #[trigger] join(k),
        e == len || !join(e),
    ensures
        run_end(len, j, join) == e,
    decreases e - j,
{
    if j < e {
        assert(join(j));
        lemma_run_end(len, j + 1, e, join);
    }
}

/// A run that starts inside the list ends inside it, not before its start.
proof fn lemma_run_end_range(len: int, j: int, join: spec_fn(int) -> bool)
    requires
        1 <= j <= len,
    ensures
        j <= run_end(len, j, join) <= len,
    decreases len - j,
{
    if j < len && join(j) {
        lemma_run_end_range(len, j + 1, join);
    }
}

/// Every position from `j` up to the end of the run joins it.
proof fn lemma_run_end_inside(len: int, j: int, k: int, join: spec_fn(int) -> bool)
    requires
        1 <= j <= k < run_end(len, j, join),
    ensures
        join(k),
    decreases k - j,
{
    if j < k {
        lemma_run_end_inside(len, j + 1, k, join);
    }
}

// ---------------------------------------------------------------------------
// Adjacent identical at-rule blocks
// ---------------------------------------------------------------------------

/// Node `k` is a block of the same at-rule as node `i`, with the same trimmed prelude.
pub open spec fn same_at_block(s: Seq<char>, nodes: Seq<SourceNode>, i: int, k: int) -> bool {
    &&& at_name(nodes[k]) is Some
    &&& at_name(nodes[k]) == at_name(nodes[i])
    &&& crate::scanner::prelude_of(s, nodes[k]@) == crate::scanner::prelude_of(s, nodes[i]@)
}

/// Node `k` continues the run of identical at-rule blocks that node `i` starts.
pub open spec fn joins_at_run(s: Seq<char>, nodes: Seq<SourceNode>, i: int, k: int) -> bool {
    gap_ws(s, nodes, k) && same_at_block(s, nodes, i, k)
}

/// The end of the run of identical at-rule blocks that node `i` starts.
pub open spec fn at_run_end_spec(s: Seq<char>, nodes: Seq<SourceNode>, i: int) -> int {
    run_end(nodes.len() as int, i + 1, |k: int| joins_at_run(s, nodes, i, k))
}

/// The bodies of the nodes `lo..hi`, one after the other, each re-indented with `ind`.
pub open spec fn bodies_reindented(s: Seq<char>, nodes: Seq<SourceNode>, lo: int, hi: int, ind: Seq<char>) -> Seq<char>
    decreases hi - lo,
{
    if hi <= lo {
        seq![]
    } else {
        bodies_reindented(s, nodes, lo, hi - 1, ind) + match nodes[hi - 1]@.body {
            Some((x, y)) => crate::text::reindent(s.subrange(x, y), ind),
            None => seq![],
        }
    }
}

/// The indentation unit of a node's body, or `dflt` when no line of it is indented.
pub open spec fn body_unit(s: Seq<char>, n: crate::scanner::SpecNode, dflt: Seq<char>) -> Seq<char> {
    match n.body {
        Some((x, y)) => match crate::layout::first_indent(crate::text::lines(s.subrange(x, y))) {
            Some(u) => u,
            None => dflt,
        },
        None => dflt,
    }
}

/// The block that replaces the adjacent identical at-rule blocks `lo..hi`: the prelude of the
/// first, then every non-blank line of their bodies, trimmed and indented one unit deeper.
pub open spec fn merged_at_blocks(s: Seq<char>, nodes: Seq<SourceNode>, lo: int, hi: int) -> Seq<char> {
    let f = nodes[lo]@;
    let ind = crate::layout::line_indent_spec(s, f.start);
    ind + crate::scanner::prelude_of(s, f) + " {\n"@ + bodies_reindented(s, nodes, lo, hi, ind + body_unit(s, f, "  "@))
        + ind + seq!['}']
}

/// The plan that merges the adjacent identical at-rule blocks `lo..hi`.
pub open spec fn at_merge_plan(path: Seq<char>, s: Seq<char>, nodes: Seq<SourceNode>, rule: RuleId, lo: int, hi: int) -> PlanView {
    let start = nodes[lo].start as int;
    let end = nodes[hi - 1].end as int;
    PlanView {
        id: seq![],
        file: path,
        rules: seq![rule],
        safety: Safety::Safe,
        start,
        end,
        original: s.subrange(start, end),
        proposed: merged_at_blocks(s, nodes, lo, hi),
        proof: crate::model::safe_local_proof(),
        warnings: seq![],
        reason: "Merge "@ + decimal((hi - lo) as nat) + " adjacent identical "@ + crate::scanner::prelude_of(s, nodes[lo]@)
            + " blocks into a single block."@,
        selected: true,
    }
}

/// The plans for the runs of two or more adjacent identical at-rule blocks from node `i` on,
/// each run as long as it goes, left to right, for the enabled rules.
pub open spec fn at_merge_plans(path: Seq<char>, s: Seq<char>, nodes: Seq<SourceNode>, enabled: Seq<RuleId>, i: int) -> Seq<
    PlanView,
>
    decreases nodes.len() - i,
{
    if i < 0 || i >= nodes.len() {
        seq![]
    } else {
        match at_merge_rule_spec(nodes[i]) {
            Some(rule) => {
                let e = at_run_end_spec(s, nodes, i);
                if enabled.contains(rule) && i + 1 < e <= nodes.len() {
                    seq![at_merge_plan(path, s, nodes, rule, i, e)] + at_merge_plans(path, s, nodes, enabled, e)
                } else {
                    at_merge_plans(path, s, nodes, enabled, i + 1)
                }
            },
            None => at_merge_plans(path, s, nodes, enabled, i + 1),
        }
    }
}

/// The end of the run of identical at-rule blocks that node `i` starts.
fn at_run_end(s: &[char], nodes: &[SourceNode], i: usize) -> (e: usize)
    requires
        nodes_ok(s@, nodes@),
        i < nodes@.len(),
    ensures
        i < e <= nodes@.len(),
        e == at_run_end_spec(s@, nodes@, i as int),
{
    let first = &nodes[i];
    assert(node_wf(s@, first@, 0, s@.len() as int));
    let fp = prelude_chars(s, first);
    let mut cursor = i + 1;
    while cursor < nodes.len()
        invariant
            i < cursor <= nodes@.len(),
            nodes_ok(s@, nodes@),
            fp@ == crate::scanner::prelude_of(s@, nodes@[i as int]@),
            *first == nodes@[i as int],
            forall|k: int| i + 1 <= k < cursor ==> #[trigger] joins_at_run(s@, nodes@, i as int, k),
        ensures
            i < cursor <= nodes@.len(),
            forall|k: int| i + 1 <= k < cursor ==> #[trigger] joins_at_run(s@, nodes@, i as int, k),
            cursor == nodes@.len() || !joins_at_run(s@, nodes@, i as int, cursor as int),
        decreases nodes.len() - cursor,
    {
        let next = &nodes[cursor];
        assert(nodes@[cursor - 1].end <= nodes@[cursor as int].start);
        assert(node_wf(s@, next@, 0, s@.len() as int));
        if !whitespace_only_chars(s, nodes[cursor - 1].end, next.start) {
            break;
        }
        if !same_at_name(first, next) {
            break;
        }
        let np = prelude_chars(s, next);
        if !chars_eq(np.as_slice(), fp.as_slice()) {
            break;
        }
        assert(joins_at_run(s@, nodes@, i as int, cursor as int));
        cursor = cursor + 1;
    }
    proof {
        lemma_run_end(nodes@.len() as int, i + 1, cursor as int, |k: int| joins_at_run(s@, nodes@, i as int, k));
    }
    cursor
}

/// The plan that merges the adjacent identical at-rule blocks `lo..hi`.
fn at_merge_plan_exec(path: &str, s: &[char], nodes: &[SourceNode], rule: RuleId, lo: usize, hi: usize) -> (p: PlanEntry)
    requires
        nodes_ok(s@, nodes@),
        lo < hi <= nodes@.len(),
    ensures
        p@ == at_merge_plan(path@, s@, nodes@, rule, lo as int, hi as int),
        plan_ok(s@, path@, p@),
{
    let first = &nodes[lo];
    let last = &nodes[hi - 1];
    assert(node_wf(s@, first@, 0, s@.len() as int));
    assert(node_wf(s@, last@, 0, s@.len() as int));
    assert(first.start <= last.end) by {
        if hi - 1 > lo {
            assert(nodes@[lo as int].end <= nodes@[hi - 1].start);
        }
    }
    let fp = prelude_chars(s, first);
    let indent = line_indent(s, first.start);
    let unit = match &first.body_range {
        Some(b) => unit_or(s, b.start, b.end, "  "),
        None => chars_of("  "),
    };
    let nested = concat(indent.as_slice(), unit.as_slice());
    let mut merged: Vec<char> = Vec::new();
    let mut k: usize = lo;
    while k < hi
        invariant
            lo <= k <= hi <= nodes@.len(),
            nodes_ok(s@, nodes@),
            merged@ == bodies_reindented(s@, nodes@, lo as int, k as int, nested@),
        decreases hi - k,
    {
        let c = &nodes[k];
        assert(node_wf(s@, c@, 0, s@.len() as int));
        match &c.body_range {
            Some(b) => {
                push_reindented(&mut merged, s, b.start, b.end, nested.as_slice());
            },
            None => {},
        }
        k = k + 1;
    }
    let mut proposed = concat(indent.as_slice(), fp.as_slice());
    push_str(&mut proposed, " {\n");
    proposed.extend_from_slice(merged.as_slice());
    proposed.extend_from_slice(indent.as_slice());
    proposed.push('}');
    let mut reason = lit("Merge ");
    reason.extend_from_slice(decimal_exec(hi - lo).as_slice());
    push_str(&mut reason, " adjacent identical ");
    reason.extend_from_slice(fp.as_slice());
    push_str(&mut reason, " blocks into a single block.");
    let p = make_plan(
        path,
        s,
        first.start,
        last.end,
        one_rule(rule),
        Safety::Safe,
        proposed,
        Proof::safe_local(),
        Vec::new(),
        reason,
    );
    proof {
        assert(p@.warnings =~= seq![]);
        assert(p@.proposed =~= merged_at_blocks(s@, nodes@, lo as int, hi as int));
        assert(p@.reason =~= at_merge_plan(path@, s@, nodes@, rule, lo as int, hi as int).reason);
    }
    p
}

/// Merges runs of adjacent at-rule blocks (`@media`, `@supports`, `@container`, `@scope`,
/// `@starting-style`) with identical preludes into the first of them.
pub(crate) fn plan_merge_adjacent_at_blocks(
    path: &str,
    s: &[char],
    nodes: &[SourceNode],
    enabled: &[RuleId],
    plans: &mut Vec<PlanEntry>,
)
    requires
        nodes_ok(s@, nodes@),
        plans_ok(s@, path@, old(plans)@),
    ensures
        plans_ok(s@, path@, final(plans)@),
        grows(old(plans)@, final(plans)@),
        plans_view(final(plans)@) == plans_view(old(plans)@) + at_merge_plans(path@, s@, nodes@, enabled@, 0),
{
    let ghost start_plans = plans@;
    let ghost emitted: Seq<PlanView> = seq![];
    let mut i: usize = 0;
    while i < nodes.len()
        invariant
            i <= nodes@.len(),
            nodes_ok(s@, nodes@),
            plans_ok(s@, path@, plans@),
            grows(start_plans, plans@),
            plans_view(plans@) == plans_view(start_plans) + emitted,
            emitted + at_merge_plans(path@, s@, nodes@, enabled@, i as int) == at_merge_plans(path@, s@, nodes@, enabled@, 0),
        decreases nodes.len() - i,
    {
        let rule = match at_merge_rule(&nodes[i]) {
            Some(r) => r,
            None => {
                i = i + 1;
                continue;
            },
        };
        let e = at_run_end(s, nodes, i);
        if rule_enabled(enabled, rule) && e - i > 1 {
            let p = at_merge_plan_exec(path, s, nodes, rule, i, e);
            proof {
                lemma_push_plan(s@, path@, start_plans, plans@, p);
                assert(plans_view(plans@.push(p)) =~= plans_view(plans@).push(p@));
                assert(emitted.push(p@) + at_merge_plans(path@, s@, nodes@, enabled@, e as int) =~= emitted + at_merge_plans(
                    path@,
                    s@,
                    nodes@,
                    enabled@,
                    i as int,
                ));
                emitted = emitted.push(p@);
            }
            plans.push(p);
            i = e;
        } else {
            i = i + 1;
        }
    }
    proof {
        assert(emitted =~= at_merge_plans(path@, s@, nodes@, enabled@, 0));
    }
}

// ---------------------------------------------------------------------------
// Adjacent rules with the same selector, or the same body
// ---------------------------------------------------------------------------

/// The positions `lo..hi`.
pub open spec fn range_seq(lo: int, hi: int) -> Seq<usize> {
    Seq::new(if hi >= lo {
        (hi - lo) as nat
    } else {
        0
    }, |k: int| (lo + k) as usize)
}

/// Node `k` is a style rule right after the previous node, with the selector of node `i`.
pub open spec fn joins_selector_run(s: Seq<char>, nodes: Seq<SourceNode>, i: int, k: int) -> bool {
    &&& gap_ws(s, nodes, k)
    &&& nodes[k].kind is Style
    &&& crate::scanner::prelude_of(s, nodes[k]@) == crate::scanner::prelude_of(s, nodes[i]@)
}

/// The end of the run of style rules with the selector of node `i` that node `i` starts.
pub open spec fn selector_run_end_spec(s: Seq<char>, nodes: Seq<SourceNode>, i: int) -> int {
    run_end(nodes.len() as int, i + 1, |k: int| joins_selector_run(s, nodes, i, k))
}

/// The plan that merges the style rules `lo..hi` of one selector.
pub open spec fn selector_merge_plan(path: Seq<char>, s: Seq<char>, nodes: Seq<SourceNode>, lo: int, hi: int) -> PlanView {
    let start = nodes[lo].start as int;
    let end = nodes[hi - 1].end as int;
    let f = nodes[lo]@;
    let sel = crate::scanner::prelude_of(s, f);
    PlanView {
        id: seq![],
        file: path,
        rules: seq![RuleId::MergeAdjacentIdenticalSelector],
        safety: Safety::Safe,
        start,
        end,
        original: s.subrange(start, end),
        proposed: crate::render::merged_rule_text(
            s,
            nodes,
            range_seq(lo, hi),
            sel,
            crate::layout::line_indent_spec(s, f.start),
            body_unit(s, f, "    "@),
        ),
        proof: crate::model::safe_local_proof(),
        warnings: seq![],
        reason: "Merge "@ + decimal((hi - lo) as nat) + " adjacent identical selector rules for '"@ + sel
            + "' into a single block."@,
        selected: true,
    }
}

/// The plans for the runs of two or more adjacent style rules with one selector from node `i`
/// on, each run as long as it goes, left to right.
pub open spec fn selector_merge_plans(path: Seq<char>, s: Seq<char>, nodes: Seq<SourceNode>, i: int) -> Seq<PlanView>
    decreases nodes.len() - i,
{
    if i < 0 || i >= nodes.len() {
        seq![]
    } else {
        let e = selector_run_end_spec(s, nodes, i);
        if nodes[i].kind is Style && i + 1 < e <= nodes.len() {
            seq![selector_merge_plan(path, s, nodes, i, e)] + selector_merge_plans(path, s, nodes, e)
        } else {
            selector_merge_plans(path, s, nodes, i + 1)
        }
    }
}

/// The end of the run of style rules with the selector of node `i` that node `i` starts.
fn selector_run_end(s: &[char], nodes: &[SourceNode], i: usize) -> (e: usize)
    requires
        nodes_ok(s@, nodes@),
        i < nodes@.len(),
    ensures
        i < e <= nodes@.len(),
        e == selector_run_end_spec(s@, nodes@, i as int),
{
    let first = &nodes[i];
    assert(node_wf(s@, first@, 0, s@.len() as int));
    let fs = prelude_chars(s, first);
    let mut cursor = i + 1;
    while cursor < nodes.len()
        invariant
            i < cursor <= nodes@.len(),
            nodes_ok(s@, nodes@),
            fs@ == crate::scanner::prelude_of(s@, nodes@[i as int]@),
            forall|k: int| i + 1 <= k < cursor ==> #[trigger] joins_selector_run(s@, nodes@, i as int, k),
        ensures
            i < cursor <= nodes@.len(),
            forall|k: int| i + 1 <= k < cursor ==> #[trigger] joins_selector_run(s@, nodes@, i as int, k),
            cursor == nodes@.len() || !joins_selector_run(s@, nodes@, i as int, cursor as int),
        decreases nodes.len() - cursor,
    {
        let next = &nodes[cursor];
        assert(nodes@[cursor - 1].end <= nodes@[cursor as int].start);
        assert(node_wf(s@, next@, 0, s@.len() as int));
        if !whitespace_only_chars(s, nodes[cursor - 1].end, next.start) {
            break;
        }
        if !is_style_node(next) {
            break;
        }
        let np = prelude_chars(s, next);
        if !chars_eq(np.as_slice(), fs.as_slice()) {
            break;
        }
        assert(joins_selector_run(s@, nodes@, i as int, cursor as int));
        cursor = cursor + 1;
    }
    proof {
        lemma_run_end(nodes@.len() as int, i + 1, cursor as int, |k: int| joins_selector_run(s@, nodes@, i as int, k));
    }
    cursor
}

/// The positions `lo..hi` as a vector.
fn range_vec(lo: usize, hi: usize) -> (r: Vec<usize>)
    requires
        lo <= hi,
    ensures
        r@ == range_seq(lo as int, hi as int),
{
    let mut r: Vec<usize> = Vec::new();
    let mut k = lo;
    while k < hi
        invariant
            lo <= k <= hi,
            r@ == range_seq(lo as int, k as int),
        decreases hi - k,
    {
        r.push(k);
        proof {
            assert(r@ =~= range_seq(lo as int, k + 1));
        }
        k = k + 1;
    }
    r
}

/// The plan that merges the style rules `lo..hi` of one selector.
fn selector_merge_plan_exec(path: &str, s: &[char], nodes: &[SourceNode], lo: usize, hi: usize) -> (p: PlanEntry)
    requires
        nodes_ok(s@, nodes@),
        lo < hi <= nodes@.len(),
    ensures
        p@ == selector_merge_plan(path@, s@, nodes@, lo as int, hi as int),
        plan_ok(s@, path@, p@),
{
    let first = &nodes[lo];
    let last = &nodes[hi - 1];
    assert(node_wf(s@, first@, 0, s@.len() as int));
    assert(node_wf(s@, last@, 0, s@.len() as int));
    assert(first.start <= last.end) by {
        if hi - 1 > lo {
            assert(nodes@[lo as int].end <= nodes@[hi - 1].start);
        }
    }
    let fs = prelude_chars(s, first);
    let indent = line_indent(s, first.start);
    let unit = match &first.body_range {
        Some(b) => unit_or(s, b.start, b.end, "    "),
        None => chars_of("    "),
    };
    let cluster = range_vec(lo, hi);
    let proposed = format_merged_rule(fs.as_slice(), indent.as_slice(), unit.as_slice(), &cluster, s, nodes);
    let mut reason = lit("Merge ");
    reason.extend_from_slice(decimal_exec(hi - lo).as_slice());
    push_str(&mut reason, " adjacent identical selector rules for '");
    reason.extend_from_slice(fs.as_slice());
    push_str(&mut reason, "' into a single block.");
    let p = make_plan(
        path,
        s,
        first.start,
        last.end,
        one_rule(RuleId::MergeAdjacentIdenticalSelector),
        Safety::Safe,
        proposed,
        Proof::safe_local(),
        Vec::new(),
        reason,
    );
    proof {
        assert(p@.warnings =~= seq![]);
        assert(p@.reason =~= selector_merge_plan(path@, s@, nodes@, lo as int, hi as int).reason);
    }
    p
}

/// Merges runs of adjacent style rules with the same selector into one rule.
#[verifier::rlimit(40)]
pub(crate) fn plan_merge_adjacent_identical_selectors(
    path: &str,
    s: &[char],
    nodes: &[SourceNode],
    enabled: &[RuleId],
    plans: &mut Vec<PlanEntry>,
)
    requires
        nodes_ok(s@, nodes@),
        plans_ok(s@, path@, old(plans)@),
    ensures
        plans_ok(s@, path@, final(plans)@),
        grows(old(plans)@, final(plans)@),
        added_as(old(plans)@, final(plans)@, seq![RuleId::MergeAdjacentIdenticalSelector], Safety::Safe),
        plans_view(final(plans)@) == plans_view(old(plans)@) + if enabled@.contains(RuleId::MergeAdjacentIdenticalSelector) {
            selector_merge_plans(path@, s@, nodes@, 0)
        } else {
            seq![]
        },
{
    if !rule_enabled(enabled, RuleId::MergeAdjacentIdenticalSelector) {
        proof {
            assert(plans_view(plans@) =~= plans_view(plans@) + seq![]);
        }
        return;
    }
    let ghost start_plans = plans@;
    let ghost emitted: Seq<PlanView> = seq![];
    let mut i: usize = 0;
    while i < nodes.len()
        invariant
            i <= nodes@.len(),
            nodes_ok(s@, nodes@),
            plans_ok(s@, path@, plans@),
            grows(start_plans, plans@),
            added_as(start_plans, plans@, seq![RuleId::MergeAdjacentIdenticalSelector], Safety::Safe),
            plans_view(plans@) == plans_view(start_plans) + emitted,
            emitted + selector_merge_plans(path@, s@, nodes@, i as int) == selector_merge_plans(path@, s@, nodes@, 0),
        decreases nodes.len() - i,
    {
        let first = &nodes[i];
        let e = selector_run_end(s, nodes, i);
        if is_style_node(first) && e - i > 1 {
            let p = selector_merge_plan_exec(path, s, nodes, i, e);
            proof {
                lemma_push_plan(s@, path@, start_plans, plans@, p);
                assert(plans_view(plans@.push(p)) =~= plans_view(plans@).push(p@));
                assert(emitted.push(p@) + selector_merge_plans(path@, s@, nodes@, e as int) =~= emitted + selector_merge_plans(
                    path@,
                    s@,
                    nodes@,
                    i as int,
                ));
                emitted = emitted.push(p@);
                assert forall|q: int| start_plans.len() <= q < plans@.push(p).len() implies (#[trigger] plans@.push(p)[q])@.rules
                    == seq![RuleId::MergeAdjacentIdenticalSelector] && plans@.push(p)[q]@.safety == Safety::Safe by {
                    if q < plans@.len() {
                        assert(plans@.push(p)[q] == plans@[q]);
                    }
                }
            }
            plans.push(p);
            i = e;
        } else {
            i = i + 1;
        }
    }
    proof {
        assert(emitted =~= selector_merge_plans(path@, s@, nodes@, 0));
    }
}

/// Node `k` is a style rule right after the previous node, with the trimmed body of node `i`.
pub open spec fn joins_body_run(s: Seq<char>, nodes: Seq<SourceNode>, i: int, k: int) -> bool {
    &&& gap_ws(s, nodes, k)
    &&& nodes[k].kind is Style
    &&& body_text(s, nodes[k]@) == body_text(s, nodes[i]@)
}

/// The end of the run of style rules with the body of node `i` that node `i` starts.
pub open spec fn body_run_end_spec(s: Seq<char>, nodes: Seq<SourceNode>, i: int) -> int {
    run_end(nodes.len() as int, i + 1, |k: int| joins_body_run(s, nodes, i, k))
}

/// The trimmed preludes of the nodes `lo..hi`, joined by `sep`.
pub open spec fn joined_preludes(s: Seq<char>, nodes: Seq<SourceNode>, lo: int, hi: int, sep: Seq<char>) -> Seq<char>
    decreases hi - lo,
{
    if hi <= lo {
        seq![]
    } else if hi == lo + 1 {
        crate::scanner::prelude_of(s, nodes[lo]@)
    } else {
        joined_preludes(s, nodes, lo, hi - 1, sep) + sep + crate::scanner::prelude_of(s, nodes[hi - 1]@)
    }
}

/// The rule that replaces the style rules `lo..hi` of one body: their selectors, one per line,
/// and the body of the first, re-indented one unit deeper.
pub open spec fn merged_body_rule(s: Seq<char>, nodes: Seq<SourceNode>, lo: int, hi: int) -> Seq<char> {
    let f = nodes[lo]@;
    let ind = crate::layout::line_indent_spec(s, f.start);
    let body = match f.body {
        Some((x, y)) => crate::text::reindent(s.subrange(x, y), ind + body_unit(s, f, "  "@)),
        None => seq![],
    };
    ind + joined_preludes(s, nodes, lo, hi, ",\n"@ + ind) + " {\n"@ + body + ind + seq!['}']
}

/// The plan that merges the style rules `lo..hi` of one body.
pub open spec fn body_merge_plan(path: Seq<char>, s: Seq<char>, nodes: Seq<SourceNode>, lo: int, hi: int) -> PlanView {
    let start = nodes[lo].start as int;
    let end = nodes[hi - 1].end as int;
    PlanView {
        id: seq![],
        file: path,
        rules: seq![RuleId::MergeIdenticalRuleBodies],
        safety: Safety::Safe,
        start,
        end,
        original: s.subrange(start, end),
        proposed: merged_body_rule(s, nodes, lo, hi),
        proof: crate::model::safe_local_proof(),
        warnings: seq![],
        reason: "Merge "@ + decimal((hi - lo) as nat)
            + " rules with identical declaration bodies into a single comma-separated rule."@,
        selected: true,
    }
}

/// The plans for the runs of two or more adjacent style rules with one non-empty body from
/// node `i` on, each run as long as it goes, left to right.
pub open spec fn body_merge_plans(path: Seq<char>, s: Seq<char>, nodes: Seq<SourceNode>, i: int) -> Seq<PlanView>
    decreases nodes.len() - i,
{
    if i < 0 || i >= nodes.len() {
        seq![]
    } else {
        let e = body_run_end_spec(s, nodes, i);
        if nodes[i].kind is Style && body_text(s, nodes[i]@).len() > 0 && i + 1 < e <= nodes.len() {
            seq![body_merge_plan(path, s, nodes, i, e)] + body_merge_plans(path, s, nodes, e)
        } else {
            body_merge_plans(path, s, nodes, i + 1)
        }
    }
}

/// The end of the run of style rules with the body of node `i` that node `i` starts.
fn body_run_end(s: &[char], nodes: &[SourceNode], i: usize) -> (e: usize)
    requires
        nodes_ok(s@, nodes@),
        i < nodes@.len(),
    ensures
        i < e <= nodes@.len(),
        e == body_run_end_spec(s@, nodes@, i as int),
{
    let first = &nodes[i];
    assert(node_wf(s@, first@, 0, s@.len() as int));
    let fb = trimmed_body(s, first);
    let mut cursor = i + 1;
    while cursor < nodes.len()
        invariant
            i < cursor <= nodes@.len(),
            nodes_ok(s@, nodes@),
            fb@ == body_text(s@, nodes@[i as int]@),
            forall|k: int| i + 1 <= k < cursor ==> #[trigger] joins_body_run(s@, nodes@, i as int, k),
        ensures
            i < cursor <= nodes@.len(),
            forall|k: int| i + 1 <= k < cursor ==> #[trigger] joins_body_run(s@, nodes@, i as int, k),
            cursor == nodes@.len() || !joins_body_run(s@, nodes@, i as int, cursor as int),
        decreases nodes.len() - cursor,
    {
        let next = &nodes[cursor];
        assert(nodes@[cursor - 1].end <= nodes@[cursor as int].start);
        assert(node_wf(s@, next@, 0, s@.len() as int));
        if !whitespace_only_chars(s, nodes[cursor - 1].end, next.start) {
            break;
        }
        if !is_style_node(next) {
            break;
        }
        let nb = trimmed_body(s, next);
        if !chars_eq(nb.as_slice(), fb.as_slice()) {
            break;
        }
        assert(joins_body_run(s@, nodes@, i as int, cursor as int));
        cursor = cursor + 1;
    }
    proof {
        lemma_run_end(nodes@.len() as int, i + 1, cursor as int, |k: int| joins_body_run(s@, nodes@, i as int, k));
    }
    cursor
}

/// The plan that merges the style rules `lo..hi` of one body.
fn body_merge_plan_exec(path: &str, s: &[char], nodes: &[SourceNode], lo: usize, hi: usize) -> (p: PlanEntry)
    requires
        nodes_ok(s@, nodes@),
        lo < hi <= nodes@.len(),
    ensures
        p@ == body_merge_plan(path@, s@, nodes@, lo as int, hi as int),
        plan_ok(s@, path@, p@),
{
    let first = &nodes[lo];
    let last = &nodes[hi - 1];
    assert(node_wf(s@, first@, 0, s@.len() as int));
    assert(node_wf(s@, last@, 0, s@.len() as int));
    assert(first.start <= last.end) by {
        if hi - 1 > lo {
            assert(nodes@[lo as int].end <= nodes@[hi - 1].start);
        }
    }
    let indent = line_indent(s, first.start);
    let mut sep = lit(",\n");
    sep.extend_from_slice(indent.as_slice());
    let mut proposed = indent.clone();
    let ghost base = indent@;
    let mut k: usize = lo;
    while k < hi
        invariant
            lo <= k <= hi <= nodes@.len(),
            nodes_ok(s@, nodes@),
            proposed@ == base + joined_preludes(s@, nodes@, lo as int, k as int, sep@),
        decreases hi - k,
    {
        let c = &nodes[k];
        assert(node_wf(s@, c@, 0, s@.len() as int));
        if k > lo {
            proposed.extend_from_slice(sep.as_slice());
        }
        let cp = prelude_chars(s, c);
        proposed.extend_from_slice(cp.as_slice());
        proof {
            if k == lo {
                assert(joined_preludes(s@, nodes@, lo as int, k + 1, sep@) == crate::scanner::prelude_of(s@, nodes@[lo as int]@));
            }
        }
        k = k + 1;
    }
    push_str(&mut proposed, " {\n");
    let ghost head = proposed@;
    let ghost f = nodes@[lo as int]@;
    let ghost body = match f.body {
        Some((x, y)) => crate::text::reindent(s@.subrange(x, y), indent@ + body_unit(s@, f, "  "@)),
        None => seq![],
    };
    match &first.body_range {
        Some(b) => {
            let unit = unit_or(s, b.start, b.end, "  ");
            let nested = concat(indent.as_slice(), unit.as_slice());
            push_reindented(&mut proposed, s, b.start, b.end, nested.as_slice());
        },
        None => {},
    }
    assert(proposed@ == head + body);
    assert(sep@ == ",\n"@ + indent@);
    assert(head == indent@ + joined_preludes(s@, nodes@, lo as int, hi as int, ",\n"@ + indent@) + " {\n"@);
    proposed.extend_from_slice(indent.as_slice());
    proposed.push('}');
    let mut reason = lit("Merge ");
    reason.extend_from_slice(decimal_exec(hi - lo).as_slice());
    push_str(&mut reason, " rules with identical declaration bodies into a single comma-separated rule.");
    let p = make_plan(
        path,
        s,
        first.start,
        last.end,
        one_rule(RuleId::MergeIdenticalRuleBodies),
        Safety::Safe,
        proposed,
        Proof::safe_local(),
        Vec::new(),
        reason,
    );
    proof {
        assert(p@.warnings =~= seq![]);
        assert(p@.proposed =~= merged_body_rule(s@, nodes@, lo as int, hi as int));
        assert(p@.reason =~= body_merge_plan(path@, s@, nodes@, lo as int, hi as int).reason);
    }
    p
}

/// Merges runs of adjacent style rules with identical non-empty bodies into one rule with a
/// selector list.
pub(crate) fn plan_merge_identical_rule_bodies(
    path: &str,
    s: &[char],
    nodes: &[SourceNode],
    enabled: &[RuleId],
    plans: &mut Vec<PlanEntry>,
)
    requires
        nodes_ok(s@, nodes@),
        plans_ok(s@, path@, old(plans)@),
    ensures
        plans_ok(s@, path@, final(plans)@),
        grows(old(plans)@, final(plans)@),
        added_as(old(plans)@, final(plans)@, seq![RuleId::MergeIdenticalRuleBodies], Safety::Safe),
        plans_view(final(plans)@) == plans_view(old(plans)@) + if enabled@.contains(RuleId::MergeIdenticalRuleBodies) {
            body_merge_plans(path@, s@, nodes@, 0)
        } else {
            seq![]
        },
{
    if !rule_enabled(enabled, RuleId::MergeIdenticalRuleBodies) {
        proof {
            assert(plans_view(plans@) =~= plans_view(plans@) + seq![]);
        }
        return;
    }
    let ghost start_plans = plans@;
    let ghost emitted: Seq<PlanView> = seq![];
    let mut i: usize = 0;
    while i < nodes.len()
        invariant
            i <= nodes@.len(),
            nodes_ok(s@, nodes@),
            plans_ok(s@, path@, plans@),
            grows(start_plans, plans@),
            added_as(start_plans, plans@, seq![RuleId::MergeIdenticalRuleBodies], Safety::Safe),
            plans_view(plans@) == plans_view(start_plans) + emitted,
            emitted + body_merge_plans(path@, s@, nodes@, i as int) == body_merge_plans(path@, s@, nodes@, 0),
        decreases nodes.len() - i,
    {
        let first = &nodes[i];
        assert(node_wf(s@, first@, 0, s@.len() as int));
        let e = body_run_end(s, nodes, i);
        if is_style_node(first) && trimmed_body(s, first).len() > 0 && e - i > 1 {
            let p = body_merge_plan_exec(path, s, nodes, i, e);
            proof {
                lemma_push_plan(s@, path@, start_plans, plans@, p);
                assert(plans_view(plans@.push(p)) =~= plans_view(plans@).push(p@));
                assert(emitted.push(p@) + body_merge_plans(path@, s@, nodes@, e as int) =~= emitted + body_merge_plans(
                    path@,
                    s@,
                    nodes@,
                    i as int,
                ));
                emitted = emitted.push(p@);
                assert forall|q: int| start_plans.len() <= q < plans@.push(p).len() implies (#[trigger] plans@.push(p)[q])@.rules
                    == seq![RuleId::MergeIdenticalRuleBodies] && plans@.push(p)[q]@.safety == Safety::Safe by {
                    if q < plans@.len() {
                        assert(plans@.push(p)[q] == plans@[q]);
                    }
                }
            }
            plans.push(p);
            i = e;
        } else {
            i = i + 1;
        }
    }
    proof {
        assert(emitted =~= body_merge_plans(path@, s@, nodes@, 0));
    }
}

// ---------------------------------------------------------------------------
// Adjacent state rules of one base
// ---------------------------------------------------------------------------

/// `s[from..]` as a new vector.
fn tail(v: &[char], from: usize) -> (r: Vec<char>)
    requires
        from <= v@.len(),
    ensures
        r@ == v@.skip(from as int),
{
    let r = crate::selector::copy_range(v, from, v.len());
    assert(r@ =~= v@.skip(from as int));
    r
}

/// The base of a state selector `base:state`: what precedes its first `:`, when that colon
/// does not open `::` and the base is neither empty nor holds a space.
pub open spec fn state_base(sel: Seq<char>) -> Option<Seq<char>> {
    match crate::text::find(sel, seq![':']) {
        Some(p) => if crate::text::starts_with(sel.skip(p), seq![':', ':']) || p == 0 || crate::text::contains(
            sel.take(p),
            seq![' '],
        ) {
            None
        } else {
            Some(sel.take(p))
        },
        None => None,
    }
}

/// The base of the selector of node `i`, when it is a state selector.
pub open spec fn node_state_base(s: Seq<char>, nodes: Seq<SourceNode>, i: int) -> Option<Seq<char>> {
    state_base(crate::scanner::prelude_of(s, nodes[i]@))
}

/// Node `k` is a style rule right after the previous node, for a single-colon state of the
/// base of node `i`, with the trimmed body of node `i`.
pub open spec fn joins_state_run(s: Seq<char>, nodes: Seq<SourceNode>, i: int, k: int) -> bool {
    let b = node_state_base(s, nodes, i).unwrap();
    let sel = crate::scanner::prelude_of(s, nodes[k]@);
    &&& gap_ws(s, nodes, k)
    &&& nodes[k].kind is Style
    &&& crate::text::starts_with(sel, b)
    &&& crate::text::starts_with(sel.skip(b.len() as int), seq![':'])
    &&& !crate::text::starts_with(sel.skip(b.len() as int), seq![':', ':'])
    &&& body_text(s, nodes[k]@) == body_text(s, nodes[i]@)
}

/// The end of the run of state rules of one base and body that node `i` starts.
pub open spec fn state_run_end_spec(s: Seq<char>, nodes: Seq<SourceNode>, i: int) -> int {
    run_end(nodes.len() as int, i + 1, |k: int| joins_state_run(s, nodes, i, k))
}

/// The states of the rules `lo..hi` (their selectors past the first `cut` characters), joined
/// by `, `.
pub open spec fn joined_states(s: Seq<char>, nodes: Seq<SourceNode>, lo: int, hi: int, cut: int) -> Seq<char>
    decreases hi - lo,
{
    if hi <= lo {
        seq![]
    } else if hi == lo + 1 {
        crate::scanner::prelude_of(s, nodes[lo]@).skip(cut)
    } else {
        joined_states(s, nodes, lo, hi - 1, cut) + ", "@ + crate::scanner::prelude_of(s, nodes[hi - 1]@).skip(cut)
    }
}

/// The rule that replaces the state rules `lo..hi` of base `b`: `b { &:is(states) { body } }`.
pub open spec fn factored_states(s: Seq<char>, nodes: Seq<SourceNode>, lo: int, hi: int, b: Seq<char>) -> Seq<char> {
    let f = nodes[lo]@;
    let ind = crate::layout::line_indent_spec(s, f.start);
    let unit = body_unit(s, f, "  "@);
    let body = match f.body {
        Some((x, y)) => crate::text::reindent(s.subrange(x, y), ind + unit + unit),
        None => seq![],
    };
    ind + b + " {\n"@ + (ind + unit) + "&:is("@ + joined_states(s, nodes, lo, hi, b.len() as int) + ") {\n"@ + body
        + (ind + unit) + "}\n"@ + ind + seq!['}']
}

/// The plan that factors the state rules `lo..hi` of base `b`.
pub open spec fn state_plan(path: Seq<char>, s: Seq<char>, nodes: Seq<SourceNode>, lo: int, hi: int, b: Seq<char>) -> PlanView {
    let start = nodes[lo].start as int;
    let end = nodes[hi - 1].end as int;
    PlanView {
        id: seq![],
        file: path,
        rules: seq![RuleId::FactorIdenticalStatesWithIs],
        safety: Safety::Safe,
        start,
        end,
        original: s.subrange(start, end),
        proposed: factored_states(s, nodes, lo, hi, b),
        proof: crate::model::safe_local_proof(),
        warnings: seq![],
        reason: "Factor "@ + decimal((hi - lo) as nat) + " identical state rules for '"@ + b + "' into &:is("@ + joined_states(
            s,
            nodes,
            lo,
            hi,
            b.len() as int,
        ) + ") form."@,
        selected: true,
    }
}

/// The plans for the runs of two or more adjacent state rules of one base and one body from
/// node `i` on, each run as long as it goes, left to right.
pub open spec fn state_plans(path: Seq<char>, s: Seq<char>, nodes: Seq<SourceNode>, i: int) -> Seq<PlanView>
    decreases nodes.len() - i,
{
    if i < 0 || i >= nodes.len() {
        seq![]
    } else {
        let e = state_run_end_spec(s, nodes, i);
        if nodes[i].kind is Style && node_state_base(s, nodes, i) is Some && i + 1 < e <= nodes.len() {
            seq![state_plan(path, s, nodes, i, e, node_state_base(s, nodes, i).unwrap())] + state_plans(path, s, nodes, e)
        } else {
            state_plans(path, s, nodes, i + 1)
        }
    }
}

/// The base of a state selector, when `sel` is one.
fn state_base_exec(sel: &[char]) -> (r: Option<Vec<char>>)
    ensures
        match r {
            Some(b) => state_base(sel@) == Some(b@),
            None => state_base(sel@) is None,
        },
{
    let colon = [':'];
    let dc = [':', ':'];
    let sp = [' '];
    assert(colon@ =~= seq![':']);
    assert(dc@ =~= seq![':', ':']);
    assert(sp@ =~= seq![' ']);
    proof {
        assert(sel@.subrange(0, sel@.len() as int) =~= sel@);
    }
    let pos = match crate::text::find_in(sel, 0, sel.len(), &colon) {
        Some(p) => p,
        None => {
            return None;
        },
    };
    proof {
        crate::text::lemma_find_sound(sel@, colon@);
        assert(sel@.subrange(pos as int, sel@.len() as int) =~= sel@.skip(pos as int));
        assert(sel@.subrange(0, pos as int) =~= sel@.take(pos as int));
    }
    if crate::text::starts_with_at(sel, pos, sel.len(), &dc) || pos == 0 || crate::text::contains_in(sel, 0, pos, &sp) {
        return None;
    }
    Some(crate::selector::copy_range(sel, 0, pos))
}

/// The end of the run of state rules of base `base` and one body that node `i` starts.
fn state_run_end(s: &[char], nodes: &[SourceNode], i: usize, base: &[char]) -> (e: usize)
    requires
        nodes_ok(s@, nodes@),
        i < nodes@.len(),
        node_state_base(s@, nodes@, i as int) == Some(base@),
    ensures
        i < e <= nodes@.len(),
        e == state_run_end_spec(s@, nodes@, i as int),
{
    let colon = [':'];
    let dc = [':', ':'];
    assert(colon@ =~= seq![':']);
    assert(dc@ =~= seq![':', ':']);
    let first = &nodes[i];
    assert(node_wf(s@, first@, 0, s@.len() as int));
    let fb = trimmed_body(s, first);
    let mut cursor = i + 1;
    while cursor < nodes.len()
        invariant
            i < cursor <= nodes@.len(),
            nodes_ok(s@, nodes@),
            node_state_base(s@, nodes@, i as int) == Some(base@),
            fb@ == body_text(s@, nodes@[i as int]@),
            colon@ == seq![':'],
            dc@ == seq![':', ':'],
            forall|k: int| i + 1 <= k < cursor ==> #[trigger] joins_state_run(s@, nodes@, i as int, k),
        ensures
            i < cursor <= nodes@.len(),
            forall|k: int| i + 1 <= k < cursor ==> #[trigger] joins_state_run(s@, nodes@, i as int, k),
            cursor == nodes@.len() || !joins_state_run(s@, nodes@, i as int, cursor as int),
        decreases nodes.len() - cursor,
    {
        let next = &nodes[cursor];
        assert(nodes@[cursor - 1].end <= nodes@[cursor as int].start);
        assert(node_wf(s@, next@, 0, s@.len() as int));
        if !whitespace_only_chars(s, nodes[cursor - 1].end, next.start) {
            break;
        }
        if !is_style_node(next) {
            break;
        }
        let ns = prelude_chars(s, next);
        proof {
            assert(ns@.subrange(0, ns@.len() as int) =~= ns@);
        }
        if !crate::text::starts_with_at(ns.as_slice(), 0, ns.len(), base) {
            break;
        }
        let bl = base.len();
        proof {
            assert(ns@.subrange(bl as int, ns@.len() as int) =~= ns@.skip(bl as int));
        }
        if !crate::text::starts_with_at(ns.as_slice(), bl, ns.len(), &colon) || crate::text::starts_with_at(
            ns.as_slice(),
            bl,
            ns.len(),
            &dc,
        ) {
            break;
        }
        let nb = trimmed_body(s, next);
        if !chars_eq(nb.as_slice(), fb.as_slice()) {
            break;
        }
        assert(joins_state_run(s@, nodes@, i as int, cursor as int));
        cursor = cursor + 1;
    }
    proof {
        lemma_run_end(nodes@.len() as int, i + 1, cursor as int, |k: int| joins_state_run(s@, nodes@, i as int, k));
    }
    cursor
}

/// The plan that factors the state rules `lo..hi` of base `base`.
fn state_plan_exec(path: &str, s: &[char], nodes: &[SourceNode], lo: usize, hi: usize, base: &[char]) -> (p: PlanEntry)
    requires
        nodes_ok(s@, nodes@),
        lo < hi <= nodes@.len(),
        forall|k: int| lo <= k < hi ==> base@.len() <= (#[trigger] crate::scanner::prelude_of(s@, nodes@[k]@)).len(),
    ensures
        p@ == state_plan(path@, s@, nodes@, lo as int, hi as int, base@),
        plan_ok(s@, path@, p@),
{
    let first = &nodes[lo];
    let last = &nodes[hi - 1];
    assert(node_wf(s@, first@, 0, s@.len() as int));
    assert(node_wf(s@, last@, 0, s@.len() as int));
    assert(first.start <= last.end) by {
        if hi - 1 > lo {
            assert(nodes@[lo as int].end <= nodes@[hi - 1].start);
        }
    }
    let bl = base.len();
    let mut is_inner: Vec<char> = Vec::new();
    let mut k: usize = lo;
    while k < hi
        invariant
            lo <= k <= hi <= nodes@.len(),
            nodes_ok(s@, nodes@),
            bl == base@.len(),
            forall|q: int| lo <= q < hi ==> base@.len() <= (#[trigger] crate::scanner::prelude_of(s@, nodes@[q]@)).len(),
            is_inner@ == joined_states(s@, nodes@, lo as int, k as int, bl as int),
        decreases hi - k,
    {
        let c = &nodes[k];
        assert(node_wf(s@, c@, 0, s@.len() as int));
        if k > lo {
            push_str(&mut is_inner, ", ");
        }
        let cp = prelude_chars(s, c);
        assert(cp@ == crate::scanner::prelude_of(s@, nodes@[k as int]@));
        assert(bl <= cp@.len());
        is_inner.extend_from_slice(tail(cp.as_slice(), bl).as_slice());
        proof {
            if k == lo {
                assert(is_inner@ =~= joined_states(s@, nodes@, lo as int, k + 1, bl as int));
            }
        }
        k = k + 1;
    }
    let indent = line_indent(s, first.start);
    let unit = match &first.body_range {
        Some(b) => unit_or(s, b.start, b.end, "  "),
        None => chars_of("  "),
    };
    let nested = concat(indent.as_slice(), unit.as_slice());
    let inner = concat(nested.as_slice(), unit.as_slice());
    let mut proposed = concat(indent.as_slice(), base);
    push_str(&mut proposed, " {\n");
    proposed.extend_from_slice(nested.as_slice());
    push_str(&mut proposed, "&:is(");
    proposed.extend_from_slice(is_inner.as_slice());
    push_str(&mut proposed, ") {\n");
    let ghost head = proposed@;
    match &first.body_range {
        Some(b) => {
            push_reindented(&mut proposed, s, b.start, b.end, inner.as_slice());
        },
        None => {},
    }
    let ghost f = nodes@[lo as int]@;
    assert(proposed@ == head + match f.body {
        Some((x, y)) => crate::text::reindent(s@.subrange(x, y), indent@ + body_unit(s@, f, "  "@) + body_unit(s@, f, "  "@)),
        None => seq![],
    });
    proposed.extend_from_slice(nested.as_slice());
    push_str(&mut proposed, "}\n");
    proposed.extend_from_slice(indent.as_slice());
    proposed.push('}');
    let mut reason = lit("Factor ");
    reason.extend_from_slice(decimal_exec(hi - lo).as_slice());
    push_str(&mut reason, " identical state rules for '");
    reason.extend_from_slice(base);
    push_str(&mut reason, "' into &:is(");
    reason.extend_from_slice(is_inner.as_slice());
    push_str(&mut reason, ") form.");
    let p = make_plan(
        path,
        s,
        first.start,
        last.end,
        one_rule(RuleId::FactorIdenticalStatesWithIs),
        Safety::Safe,
        proposed,
        Proof::safe_local(),
        Vec::new(),
        reason,
    );
    proof {
        assert(p@.warnings =~= seq![]);
        assert(p@.proposed =~= factored_states(s@, nodes@, lo as int, hi as int, base@));
        assert(p@.reason =~= state_plan(path@, s@, nodes@, lo as int, hi as int, base@).reason);
    }
    p
}

/// Factors runs of adjacent rules `base:state { body }` with identical bodies into
/// `base { &:is(:a, :b) { body } }`.
pub(crate) fn plan_factor_identical_states_with_is(
    path: &str,
    s: &[char],
    nodes: &[SourceNode],
    enabled: &[RuleId],
    plans: &mut Vec<PlanEntry>,
)
    requires
        nodes_ok(s@, nodes@),
        plans_ok(s@, path@, old(plans)@),
    ensures
        plans_ok(s@, path@, final(plans)@),
        grows(old(plans)@, final(plans)@),
        added_as(old(plans)@, final(plans)@, seq![RuleId::FactorIdenticalStatesWithIs], Safety::Safe),
        plans_view(final(plans)@) == plans_view(old(plans)@) + if enabled@.contains(RuleId::FactorIdenticalStatesWithIs) {
            state_plans(path@, s@, nodes@, 0)
        } else {
            seq![]
        },
{
    if !rule_enabled(enabled, RuleId::FactorIdenticalStatesWithIs) {
        proof {
            assert(plans_view(plans@) =~= plans_view(plans@) + seq![]);
        }
        return;
    }
    let ghost start_plans = plans@;
    let ghost emitted: Seq<PlanView> = seq![];
    let mut i: usize = 0;
    while i < nodes.len()
        invariant
            i <= nodes@.len(),
            nodes_ok(s@, nodes@),
            plans_ok(s@, path@, plans@),
            grows(start_plans, plans@),
            added_as(start_plans, plans@, seq![RuleId::FactorIdenticalStatesWithIs], Safety::Safe),
            plans_view(plans@) == plans_view(start_plans) + emitted,
            emitted + state_plans(path@, s@, nodes@, i as int) == state_plans(path@, s@, nodes@, 0),
        decreases nodes.len() - i,
    {
        let first = &nodes[i];
        assert(node_wf(s@, first@, 0, s@.len() as int));
        if !is_style_node(first) {
            i = i + 1;
            continue;
        }
        let fs = prelude_chars(s, first);
        let base = match state_base_exec(fs.as_slice()) {
            Some(b) => b,
            None => {
                i = i + 1;
                continue;
            },
        };
        let e = state_run_end(s, nodes, i, base.as_slice());
        if e - i > 1 {
            proof {
                assert forall|k: int| i <= k < e implies base@.len() <= (#[trigger] crate::scanner::prelude_of(s@, nodes@[k]@)).len() by {
                    if k > i {
                        lemma_run_end_inside(nodes@.len() as int, i + 1, k, |q: int| joins_state_run(s@, nodes@, i as int, q));
                        assert(joins_state_run(s@, nodes@, i as int, k));
                    } else {
                        crate::text::lemma_find_sound(fs@, seq![':']);
                    }
                }
            }
            let p = state_plan_exec(path, s, nodes, i, e, base.as_slice());
            proof {
                lemma_push_plan(s@, path@, start_plans, plans@, p);
                assert(plans_view(plans@.push(p)) =~= plans_view(plans@).push(p@));
                assert(emitted.push(p@) + state_plans(path@, s@, nodes@, e as int) =~= emitted + state_plans(
                    path@,
                    s@,
                    nodes@,
                    i as int,
                ));
                emitted = emitted.push(p@);
                assert forall|q: int| start_plans.len() <= q < plans@.push(p).len() implies (#[trigger] plans@.push(p)[q])@.rules
                    == seq![RuleId::FactorIdenticalStatesWithIs] && plans@.push(p)[q]@.safety == Safety::Safe by {
                    if q < plans@.len() {
                        assert(plans@.push(p)[q] == plans@[q]);
                    }
                }
            }
            plans.push(p);
            i = e;
        } else {
            i = i + 1;
        }
    }
    proof {
        assert(emitted =~= state_plans(path@, s@, nodes@, 0));
    }
}

fn two_rules(a: RuleId, b: RuleId) -> (v: Vec<RuleId>)
    ensures
        v@ == seq![a, b],
{
    let mut v: Vec<RuleId> = Vec::new();
    v.push(a);
    v.push(b);
    assert(v@ =~= seq![a, b]);
    v
}

/// The base target of the selector of node `i` (`input` for `input:invalid`), if it has one.
pub open spec fn node_target(s: Seq<char>, nodes: Seq<SourceNode>, i: int) -> Option<Seq<char>> {
    crate::relation::base_target_spec(crate::scanner::prelude_of(s, nodes[i]@))
}

/// Node `k` is a style rule right after the previous node, for the base target of node `i`.
pub open spec fn joins_target_run(s: Seq<char>, nodes: Seq<SourceNode>, i: int, k: int) -> bool {
    &&& gap_ws(s, nodes, k)
    &&& nodes[k].kind is Style
    &&& node_target(s, nodes, k) is Some
    &&& node_target(s, nodes, k) == node_target(s, nodes, i)
}

/// The end of the run of rules for one base target that node `i` starts.
pub open spec fn target_run_end_spec(s: Seq<char>, nodes: Seq<SourceNode>, i: int) -> int {
    run_end(nodes.len() as int, i + 1, |k: int| joins_target_run(s, nodes, i, k))
}

/// The nested selector for what follows the base: `&` before a state, class, id or attribute,
/// the trimmed rest otherwise.
pub open spec fn nested_target_selector(rem: Seq<char>) -> Seq<char> {
    if rem.len() > 0 && (rem[0] == ':' || rem[0] == '[' || rem[0] == '.' || rem[0] == '#') {
        seq!['&'] + rem
    } else {
        crate::text::trim(rem)
    }
}

/// Rule `n` nested under base `b`: its nested selector, then its body lines.
pub open spec fn nested_target_rule(s: Seq<char>, n: crate::scanner::SpecNode, b: Seq<char>, nested: Seq<char>, inner: Seq<
    char,
>) -> Seq<char> {
    nested + nested_target_selector(crate::scanner::prelude_of(s, n).skip(b.len() as int)) + " {\n"@ + match n.body {
        Some((x, y)) => crate::text::reindent(s.subrange(x, y), inner),
        None => seq![],
    } + nested + "}\n"@
}

/// The rules `lo..hi` nested under base `b`, separated by blank lines.
pub open spec fn nested_target_rules(s: Seq<char>, nodes: Seq<SourceNode>, lo: int, hi: int, b: Seq<char>, nested: Seq<char>, inner: Seq<
    char,
>) -> Seq<char>
    decreases hi - lo,
{
    if hi <= lo {
        seq![]
    } else if hi == lo + 1 {
        nested_target_rule(s, nodes[lo]@, b, nested, inner)
    } else {
        nested_target_rules(s, nodes, lo, hi - 1, b, nested, inner) + seq!['\n'] + nested_target_rule(
            s,
            nodes[hi - 1]@,
            b,
            nested,
            inner,
        )
    }
}

/// The rule that replaces the rules `lo..hi` of base target `b`, each nested under `b`.
pub open spec fn nested_in_place(s: Seq<char>, nodes: Seq<SourceNode>, lo: int, hi: int, b: Seq<char>) -> Seq<char> {
    let f = nodes[lo]@;
    let ind = crate::layout::line_indent_spec(s, f.start);
    let unit = body_unit(s, f, "  "@);
    ind + b + " {\n"@ + nested_target_rules(s, nodes, lo, hi, b, ind + unit, ind + unit + unit) + ind + seq!['}']
}

/// The plan that nests the rules `lo..hi` of base target `b` in place.
pub open spec fn target_plan(path: Seq<char>, s: Seq<char>, nodes: Seq<SourceNode>, lo: int, hi: int, b: Seq<char>) -> PlanView {
    let start = nodes[lo].start as int;
    let end = nodes[hi - 1].end as int;
    PlanView {
        id: seq![],
        file: path,
        rules: seq![RuleId::NestPseudoClass, RuleId::NestAttribute],
        safety: Safety::Safe,
        start,
        end,
        original: s.subrange(start, end),
        proposed: nested_in_place(s, nodes, lo, hi, b),
        proof: crate::model::safe_local_proof(),
        warnings: seq![],
        reason: "Nest "@ + decimal((hi - lo) as nat) + " adjacent state rules for '"@ + b + "' in place without moving."@,
        selected: true,
    }
}

/// The plans for the runs of two or more adjacent rules for one base target from node `i` on,
/// each run as long as it goes, left to right.
pub open spec fn target_plans(path: Seq<char>, s: Seq<char>, nodes: Seq<SourceNode>, i: int) -> Seq<PlanView>
    decreases nodes.len() - i,
{
    if i < 0 || i >= nodes.len() {
        seq![]
    } else {
        let e = target_run_end_spec(s, nodes, i);
        if nodes[i].kind is Style && node_target(s, nodes, i) is Some && i + 1 < e <= nodes.len() {
            seq![target_plan(path, s, nodes, i, e, node_target(s, nodes, i).unwrap())] + target_plans(path, s, nodes, e)
        } else {
            target_plans(path, s, nodes, i + 1)
        }
    }
}

/// The end of the run of rules for base target `base` that node `i` starts.
fn target_run_end(s: &[char], nodes: &[SourceNode], i: usize, base: &[char]) -> (e: usize)
    requires
        nodes_ok(s@, nodes@),
        i < nodes@.len(),
        node_target(s@, nodes@, i as int) == Some(base@),
    ensures
        i < e <= nodes@.len(),
        e == target_run_end_spec(s@, nodes@, i as int),
{
    assert(i < nodes.len());
    let mut cursor = i + 1;
    while cursor < nodes.len()
        invariant
            i < cursor <= nodes@.len(),
            nodes_ok(s@, nodes@),
            node_target(s@, nodes@, i as int) == Some(base@),
            forall|k: int| i + 1 <= k < cursor ==> #[trigger] joins_target_run(s@, nodes@, i as int, k),
        ensures
            i < cursor <= nodes@.len(),
            forall|k: int| i + 1 <= k < cursor ==> #[trigger] joins_target_run(s@, nodes@, i as int, k),
            cursor == nodes@.len() || !joins_target_run(s@, nodes@, i as int, cursor as int),
        decreases nodes.len() - cursor,
    {
        let next = &nodes[cursor];
        assert(nodes@[cursor - 1].end <= nodes@[cursor as int].start);
        assert(node_wf(s@, next@, 0, s@.len() as int));
        if !whitespace_only_chars(s, nodes[cursor - 1].end, next.start) {
            break;
        }
        if !is_style_node(next) {
            break;
        }
        let ns = prelude_chars(s, next);
        let same = match extract_base_target(ns.as_slice()) {
            Some(nb) => chars_eq(nb.as_slice(), base),
            None => false,
        };
        if !same {
            break;
        }
        assert(joins_target_run(s@, nodes@, i as int, cursor as int));
        cursor = cursor + 1;
    }
    proof {
        lemma_run_end(nodes@.len() as int, i + 1, cursor as int, |k: int| joins_target_run(s@, nodes@, i as int, k));
    }
    cursor
}

/// Appends rule `k` nested under base `base`.
fn push_nested_target_rule(out: &mut Vec<char>, s: &[char], nodes: &[SourceNode], k: usize, base: &[char], nested: &[char], inner: &[char])
    requires
        nodes_ok(s@, nodes@),
        k < nodes@.len(),
        base@.len() <= crate::scanner::prelude_of(s@, nodes@[k as int]@).len(),
    ensures
        final(out)@ == old(out)@ + nested_target_rule(s@, nodes@[k as int]@, base@, nested@, inner@),
{
    let c = &nodes[k];
    assert(node_wf(s@, c@, 0, s@.len() as int));
    let cp = prelude_chars(s, c);
    let rem = tail(cp.as_slice(), base.len());
    let nested_sel = if rem.len() > 0 && (rem[0] == ':' || rem[0] == '[' || rem[0] == '.' || rem[0] == '#') {
        let mut v: Vec<char> = Vec::new();
        v.push('&');
        v.extend_from_slice(rem.as_slice());
        v
    } else {
        trimmed(rem.as_slice())
    };
    assert(nested_sel@ =~= nested_target_selector(rem@));
    let ghost start = out@;
    out.extend_from_slice(nested);
    out.extend_from_slice(nested_sel.as_slice());
    push_str(out, " {\n");
    let ghost head = out@;
    match &c.body_range {
        Some(r) => {
            push_reindented(out, s, r.start, r.end, inner);
        },
        None => {},
    }
    assert(out@ == head + match nodes@[k as int]@.body {
        Some((x, y)) => crate::text::reindent(s@.subrange(x, y), inner@),
        None => seq![],
    });
    out.extend_from_slice(nested);
    push_str(out, "}\n");
    assert(out@ =~= start + nested_target_rule(s@, nodes@[k as int]@, base@, nested@, inner@));
}

/// The plan that nests the rules `lo..hi` of base target `base` in place.
fn target_plan_exec(path: &str, s: &[char], nodes: &[SourceNode], lo: usize, hi: usize, base: &[char]) -> (p: PlanEntry)
    requires
        nodes_ok(s@, nodes@),
        lo < hi <= nodes@.len(),
        forall|k: int| lo <= k < hi ==> base@.len() <= (#[trigger] crate::scanner::prelude_of(s@, nodes@[k]@)).len(),
    ensures
        p@ == target_plan(path@, s@, nodes@, lo as int, hi as int, base@),
        plan_ok(s@, path@, p@),
{
    let first = &nodes[lo];
    let last = &nodes[hi - 1];
    assert(node_wf(s@, first@, 0, s@.len() as int));
    assert(node_wf(s@, last@, 0, s@.len() as int));
    assert(first.start <= last.end) by {
        if hi - 1 > lo {
            assert(nodes@[lo as int].end <= nodes@[hi - 1].start);
        }
    }
    let indent = line_indent(s, first.start);
    let unit = match &first.body_range {
        Some(b) => unit_or(s, b.start, b.end, "  "),
        None => chars_of("  "),
    };
    let nested = concat(indent.as_slice(), unit.as_slice());
    let inner = concat(nested.as_slice(), unit.as_slice());
    let mut rules_out: Vec<char> = Vec::new();
    let bl = base.len();
    let mut k: usize = lo;
    while k < hi
        invariant
            lo <= k <= hi <= nodes@.len(),
            nodes_ok(s@, nodes@),
            bl == base@.len(),
            forall|q: int| lo <= q < hi ==> base@.len() <= (#[trigger] crate::scanner::prelude_of(s@, nodes@[q]@)).len(),
            rules_out@ == nested_target_rules(s@, nodes@, lo as int, k as int, base@, nested@, inner@),
        decreases hi - k,
    {
        let ghost before = rules_out@;
        if k > lo {
            rules_out.push('\n');
        }
        let ghost mid = rules_out@;
        push_nested_target_rule(&mut rules_out, s, nodes, k, base, nested.as_slice(), inner.as_slice());
        proof {
            assert(rules_out@ =~= mid + nested_target_rule(s@, nodes@[k as int]@, base@, nested@, inner@));
            if k == lo {
                assert(mid =~= seq![]);
            } else {
                assert(mid =~= before + seq!['\n']);
            }
        }
        k = k + 1;
    }
    let mut out = concat(indent.as_slice(), base);
    push_str(&mut out, " {\n");
    out.extend_from_slice(rules_out.as_slice());
    out.extend_from_slice(indent.as_slice());
    out.push('}');
    let mut reason = lit("Nest ");
    reason.extend_from_slice(decimal_exec(hi - lo).as_slice());
    push_str(&mut reason, " adjacent state rules for '");
    reason.extend_from_slice(base);
    push_str(&mut reason, "' in place without moving.");
    let p = make_plan(
        path,
        s,
        first.start,
        last.end,
        two_rules(RuleId::NestPseudoClass, RuleId::NestAttribute),
        Safety::Safe,
        out,
        Proof::safe_local(),
        Vec::new(),
        reason,
    );
    proof {
        assert(p@.warnings =~= seq![]);
        assert(p@.proposed =~= nested_in_place(s@, nodes@, lo as int, hi as int, base@));
        assert(p@.reason =~= target_plan(path@, s@, nodes@, lo as int, hi as int, base@).reason);
    }
    p
}

/// Nests runs of adjacent rules that share a base target (`input:invalid`, `input:valid`)
/// under one rule for the base, where the first of them stands.
pub(crate) fn plan_nest_in_place_adjacent_states(
    path: &str,
    s: &[char],
    nodes: &[SourceNode],
    enabled: &[RuleId],
    plans: &mut Vec<PlanEntry>,
)
    requires
        nodes_ok(s@, nodes@),
        plans_ok(s@, path@, old(plans)@),
    ensures
        plans_ok(s@, path@, final(plans)@),
        grows(old(plans)@, final(plans)@),
        added_as(old(plans)@, final(plans)@, seq![RuleId::NestPseudoClass, RuleId::NestAttribute], Safety::Safe),
        plans_view(final(plans)@) == plans_view(old(plans)@) + if enabled@.contains(RuleId::NestPseudoClass) {
            target_plans(path@, s@, nodes@, 0)
        } else {
            seq![]
        },
{
    if !rule_enabled(enabled, RuleId::NestPseudoClass) {
        proof {
            assert(plans_view(plans@) =~= plans_view(plans@) + seq![]);
        }
        return;
    }
    let ghost start_plans = plans@;
    let ghost emitted: Seq<PlanView> = seq![];
    let mut i: usize = 0;
    while i < nodes.len()
        invariant
            i <= nodes@.len(),
            nodes_ok(s@, nodes@),
            plans_ok(s@, path@, plans@),
            grows(start_plans, plans@),
            added_as(start_plans, plans@, seq![RuleId::NestPseudoClass, RuleId::NestAttribute], Safety::Safe),
            plans_view(plans@) == plans_view(start_plans) + emitted,
            emitted + target_plans(path@, s@, nodes@, i as int) == target_plans(path@, s@, nodes@, 0),
        decreases nodes.len() - i,
    {
        let first = &nodes[i];
        assert(node_wf(s@, first@, 0, s@.len() as int));
        if !is_style_node(first) {
            i = i + 1;
            continue;
        }
        let fs = prelude_chars(s, first);
        let base = match extract_base_target(fs.as_slice()) {
            Some(b) => b,
            None => {
                i = i + 1;
                continue;
            },
        };
        let e = target_run_end(s, nodes, i, base.as_slice());
        if e - i > 1 {
            proof {
                assert forall|k: int| i <= k < e implies base@.len() <= (#[trigger] crate::scanner::prelude_of(s@, nodes@[k]@)).len() by {
                    if k > i {
                        lemma_run_end_inside(nodes@.len() as int, i + 1, k, |q: int| joins_target_run(s@, nodes@, i as int, q));
                        assert(joins_target_run(s@, nodes@, i as int, k));
                    }
                    crate::relation::lemma_base_target_prefix(crate::scanner::prelude_of(s@, nodes@[k]@));
                }
            }
            let p = target_plan_exec(path, s, nodes, i, e, base.as_slice());
            proof {
                lemma_push_plan(s@, path@, start_plans, plans@, p);
                assert(plans_view(plans@.push(p)) =~= plans_view(plans@).push(p@));
                assert(emitted.push(p@) + target_plans(path@, s@, nodes@, e as int) =~= emitted + target_plans(
                    path@,
                    s@,
                    nodes@,
                    i as int,
                ));
                emitted = emitted.push(p@);
                assert forall|q: int| start_plans.len() <= q < plans@.push(p).len() implies (#[trigger] plans@.push(p)[q])@.rules
                    == seq![RuleId::NestPseudoClass, RuleId::NestAttribute] && plans@.push(p)[q]@.safety == Safety::Safe by {
                    if q < plans@.len() {
                        assert(plans@.push(p)[q] == plans@[q]);
                    }
                }
            }
            plans.push(p);
            i = e;
        } else {
            i = i + 1;
        }
    }
    proof {
        assert(emitted =~= target_plans(path@, s@, nodes@, 0));
    }
}

/// The trimmed selector of the one item a block holds, when that item is a style rule.
pub open spec fn single_selector_spec(s: Seq<char>, n: crate::scanner::SpecNode) -> Option<Seq<char>> {
    match n.body {
        Some((x, y)) => {
            let ins = crate::scanner::scan(s, x, y);
            if ins.len() == 1 && crate::scanner::is_style(ins[0]) {
                Some(crate::scanner::prelude_of(s, ins[0]))
            } else {
                None
            }
        },
        None => None,
    }
}

/// The trimmed selector of the one item a block holds, when that item is a style rule.
fn single_style_selector(s: &[char], n: &SourceNode) -> (r: Option<Vec<char>>)
    requires
        node_wf(s@, n@, 0, s@.len() as int),
    ensures
        match r {
            Some(v) => single_selector_spec(s@, n@) == Some(v@),
            None => single_selector_spec(s@, n@) is None,
        },
{
    if n.body_range.is_none() {
        return None;
    }
    let (x, y) = body_of(s, n);
    let inner = scan_in(s, x, y);
    proof {
        if inner@.len() > 0 {
            assert(crate::scanner::nodes_view(inner@)[0] == inner@[0]@);
        }
    }
    if inner.len() == 1 && is_style_node(&inner[0]) {
        assert(node_wf(s@, inner@[0]@, 0, s@.len() as int));
        Some(prelude_chars(s, &inner[0]))
    } else {
        None
    }
}

/// An `@media` block where `media` holds (media nesting is on), or an `@supports` block where
/// `supports` holds (supports nesting is on).
pub open spec fn is_condition_block(n: SourceNode, media: bool, supports: bool) -> bool {
    (media && at_name(n) == Some("media"@)) || (supports && at_name(n) == Some("supports"@))
}

/// Node `k` is a condition block right after the previous node, holding one rule for the
/// selector that node `i` holds one rule for.
pub open spec fn joins_cond_run(s: Seq<char>, nodes: Seq<SourceNode>, media: bool, supports: bool, i: int, k: int) -> bool {
    &&& gap_ws(s, nodes, k)
    &&& is_condition_block(nodes[k], media, supports)
    &&& single_selector_spec(s, nodes[k]@) is Some
    &&& single_selector_spec(s, nodes[k]@) == single_selector_spec(s, nodes[i]@)
}

/// The end of the run of condition blocks for one selector that node `i` starts.
pub open spec fn cond_run_end_spec(s: Seq<char>, nodes: Seq<SourceNode>, media: bool, supports: bool, i: int) -> int {
    run_end(nodes.len() as int, i + 1, |k: int| joins_cond_run(s, nodes, media, supports, i, k))
}

/// The bodies of the items `ns`, one after the other, each re-indented with `ind`.
pub open spec fn item_bodies(s: Seq<char>, ns: Seq<crate::scanner::SpecNode>, ind: Seq<char>) -> Seq<char>
    decreases ns.len(),
{
    if ns.len() == 0 {
        seq![]
    } else {
        item_bodies(s, ns.drop_last(), ind) + match ns.last().body {
            Some((x, y)) => crate::text::reindent(s.subrange(x, y), ind),
            None => seq![],
        }
    }
}

/// A condition block nested under the gathered selector: its condition, then the body lines of
/// the rule it holds.
pub open spec fn nested_condition(s: Seq<char>, n: crate::scanner::SpecNode, nested: Seq<char>, inner: Seq<char>) -> Seq<char> {
    nested + crate::scanner::prelude_of(s, n) + " {\n"@ + match n.body {
        Some((x, y)) => item_bodies(s, crate::scanner::scan(s, x, y), inner),
        None => seq![],
    } + nested + "}\n"@
}

/// The condition blocks `lo..hi` nested under the gathered selector, separated by blank lines.
pub open spec fn nested_conditions(s: Seq<char>, nodes: Seq<SourceNode>, lo: int, hi: int, nested: Seq<char>, inner: Seq<char>) -> Seq<
    char,
>
    decreases hi - lo,
{
    if hi <= lo {
        seq![]
    } else if hi == lo + 1 {
        nested_condition(s, nodes[lo]@, nested, inner)
    } else {
        nested_conditions(s, nodes, lo, hi - 1, nested, inner) + seq!['\n'] + nested_condition(s, nodes[hi - 1]@, nested, inner)
    }
}

/// The rule that replaces the condition blocks `lo..hi` for one selector.
pub open spec fn gathered_conditions(s: Seq<char>, nodes: Seq<SourceNode>, lo: int, hi: int) -> Seq<char> {
    let f = nodes[lo]@;
    let ind = crate::layout::line_indent_spec(s, f.start);
    let unit = body_unit(s, f, "  "@);
    ind + single_selector_spec(s, f).unwrap() + " {\n"@ + nested_conditions(s, nodes, lo, hi, ind + unit, ind + unit + unit)
        + ind + seq!['}']
}

/// The plan that gathers the condition blocks `lo..hi` for one selector.
pub open spec fn cond_gather_plan(path: Seq<char>, s: Seq<char>, nodes: Seq<SourceNode>, lo: int, hi: int) -> PlanView {
    let start = nodes[lo].start as int;
    let end = nodes[hi - 1].end as int;
    PlanView {
        id: seq![],
        file: path,
        rules: seq![RuleId::NestMedia, RuleId::NestSupports],
        safety: Safety::Safe,
        start,
        end,
        original: s.subrange(start, end),
        proposed: gathered_conditions(s, nodes, lo, hi),
        proof: crate::model::safe_local_proof(),
        warnings: seq![],
        reason: "Gather "@ + decimal((hi - lo) as nat) + " consecutive condition blocks targeting '"@
            + single_selector_spec(s, nodes[lo]@).unwrap() + "' into a single component rule."@,
        selected: true,
    }
}

/// The plans for the runs of two or more adjacent condition blocks that each hold one rule for
/// the same selector, from node `i` on, each run as long as it goes, left to right.
pub open spec fn cond_gather_plans(path: Seq<char>, s: Seq<char>, nodes: Seq<SourceNode>, media: bool, supports: bool, i: int) -> Seq<
    PlanView,
>
    decreases nodes.len() - i,
{
    if i < 0 || i >= nodes.len() {
        seq![]
    } else {
        let e = cond_run_end_spec(s, nodes, media, supports, i);
        if is_condition_block(nodes[i], media, supports) && single_selector_spec(s, nodes[i]@) is Some && i + 1 < e
            <= nodes.len() {
            seq![cond_gather_plan(path, s, nodes, i, e)] + cond_gather_plans(path, s, nodes, media, supports, e)
        } else {
            cond_gather_plans(path, s, nodes, media, supports, i + 1)
        }
    }
}

fn is_condition_node(n: &SourceNode, media: bool, supports: bool) -> (r: bool)
    ensures
        r == is_condition_block(*n, media, supports),
{
    (media && at_block_named(n, "media")) || (supports && at_block_named(n, "supports"))
}

/// The end of the run of condition blocks for one selector that node `i` starts.
fn cond_run_end(s: &[char], nodes: &[SourceNode], media: bool, supports: bool, i: usize) -> (e: usize)
    requires
        nodes_ok(s@, nodes@),
        i < nodes@.len(),
    ensures
        i < e <= nodes@.len(),
        e == cond_run_end_spec(s@, nodes@, media, supports, i as int),
{
    let first = &nodes[i];
    assert(node_wf(s@, first@, 0, s@.len() as int));
    let target = single_style_selector(s, first);
    let mut cursor = i + 1;
    while cursor < nodes.len()
        invariant
            i < cursor <= nodes@.len(),
            nodes_ok(s@, nodes@),
            match target {
                Some(v) => single_selector_spec(s@, nodes@[i as int]@) == Some(v@),
                None => single_selector_spec(s@, nodes@[i as int]@) is None,
            },
            forall|k: int| i + 1 <= k < cursor ==> #[trigger] joins_cond_run(s@, nodes@, media, supports, i as int, k),
        ensures
            i < cursor <= nodes@.len(),
            forall|k: int| i + 1 <= k < cursor ==> #[trigger] joins_cond_run(s@, nodes@, media, supports, i as int, k),
            cursor == nodes@.len() || !joins_cond_run(s@, nodes@, media, supports, i as int, cursor as int),
        decreases nodes.len() - cursor,
    {
        let next = &nodes[cursor];
        assert(nodes@[cursor - 1].end <= nodes@[cursor as int].start);
        assert(node_wf(s@, next@, 0, s@.len() as int));
        if !whitespace_only_chars(s, nodes[cursor - 1].end, next.start) {
            break;
        }
        if !is_condition_node(next, media, supports) {
            break;
        }
        let ns = single_style_selector(s, next);
        let same = match (&ns, &target) {
            (Some(a), Some(b)) => chars_eq(a.as_slice(), b.as_slice()),
            _ => false,
        };
        if !same {
            break;
        }
        assert(joins_cond_run(s@, nodes@, media, supports, i as int, cursor as int));
        cursor = cursor + 1;
    }
    proof {
        lemma_run_end(nodes@.len() as int, i + 1, cursor as int, |k: int| joins_cond_run(s@, nodes@, media, supports, i as int, k));
    }
    cursor
}

/// Appends the bodies of the items of `s[a..b]`, each re-indented with `ind`.
fn push_item_bodies(out: &mut Vec<char>, s: &[char], a: usize, b: usize, ind: &[char])
    requires
        a <= b <= s@.len(),
    ensures
        final(out)@ == old(out)@ + item_bodies(s@, crate::scanner::scan(s@, a as int, b as int), ind@),
{
    let inner_nodes = scan_in(s, a, b);
    let ghost ns = crate::scanner::nodes_view(inner_nodes@);
    let ghost start = out@;
    let mut q: usize = 0;
    while q < inner_nodes.len()
        invariant
            q <= inner_nodes@.len(),
            nodes_ok(s@, inner_nodes@),
            ns == crate::scanner::nodes_view(inner_nodes@),
            out@ == start + item_bodies(s@, ns.take(q as int), ind@),
        decreases inner_nodes.len() - q,
    {
        let inn = &inner_nodes[q];
        assert(node_wf(s@, inn@, 0, s@.len() as int));
        proof {
            assert(ns.take(q + 1).drop_last() =~= ns.take(q as int));
            assert(ns.take(q + 1).last() == inn@);
        }
        match &inn.body_range {
            Some(r) => {
                push_reindented(out, s, r.start, r.end, ind);
            },
            None => {},
        }
        q = q + 1;
    }
    proof {
        assert(ns.take(inner_nodes@.len() as int) =~= ns);
    }
}

/// The plan that gathers the condition blocks `lo..hi` for one selector.
fn cond_gather_plan_exec(path: &str, s: &[char], nodes: &[SourceNode], lo: usize, hi: usize, target: Vec<char>) -> (p: PlanEntry)
    requires
        nodes_ok(s@, nodes@),
        lo < hi <= nodes@.len(),
        single_selector_spec(s@, nodes@[lo as int]@) == Some(target@),
    ensures
        p@ == cond_gather_plan(path@, s@, nodes@, lo as int, hi as int),
        plan_ok(s@, path@, p@),
{
    let first = &nodes[lo];
    let last = &nodes[hi - 1];
    assert(node_wf(s@, first@, 0, s@.len() as int));
    assert(node_wf(s@, last@, 0, s@.len() as int));
    assert(first.start <= last.end) by {
        if hi - 1 > lo {
            assert(nodes@[lo as int].end <= nodes@[hi - 1].start);
        }
    }
    let indent = line_indent(s, first.start);
    let unit = match &first.body_range {
        Some(b) => unit_or(s, b.start, b.end, "  "),
        None => chars_of("  "),
    };
    let nested = concat(indent.as_slice(), unit.as_slice());
    let inner = concat(nested.as_slice(), unit.as_slice());
    let mut body_out: Vec<char> = Vec::new();
    let mut k: usize = lo;
    while k < hi
        invariant
            lo <= k <= hi <= nodes@.len(),
            nodes_ok(s@, nodes@),
            body_out@ == nested_conditions(s@, nodes@, lo as int, k as int, nested@, inner@),
        decreases hi - k,
    {
        let ghost before = body_out@;
        if k > lo {
            body_out.push('\n');
        }
        let c = &nodes[k];
        assert(node_wf(s@, c@, 0, s@.len() as int));
        let ghost mid = body_out@;
        let header = prelude_chars(s, c);
        body_out.extend_from_slice(nested.as_slice());
        body_out.extend_from_slice(header.as_slice());
        push_str(&mut body_out, " {\n");
        match &c.body_range {
            Some(r) => {
                push_item_bodies(&mut body_out, s, r.start, r.end, inner.as_slice());
            },
            None => {},
        }
        body_out.extend_from_slice(nested.as_slice());
        push_str(&mut body_out, "}\n");
        proof {
            assert(body_out@ =~= mid + nested_condition(s@, nodes@[k as int]@, nested@, inner@));
            if k == lo {
                assert(mid =~= seq![]);
            } else {
                assert(mid =~= before + seq!['\n']);
            }
        }
        k = k + 1;
    }
    let mut proposed = concat(indent.as_slice(), target.as_slice());
    push_str(&mut proposed, " {\n");
    proposed.extend_from_slice(body_out.as_slice());
    proposed.extend_from_slice(indent.as_slice());
    proposed.push('}');
    let mut reason = lit("Gather ");
    reason.extend_from_slice(decimal_exec(hi - lo).as_slice());
    push_str(&mut reason, " consecutive condition blocks targeting '");
    reason.extend_from_slice(target.as_slice());
    push_str(&mut reason, "' into a single component rule.");
    let p = make_plan(
        path,
        s,
        first.start,
        last.end,
        two_rules(RuleId::NestMedia, RuleId::NestSupports),
        Safety::Safe,
        proposed,
        Proof::safe_local(),
        Vec::new(),
        reason,
    );
    proof {
        assert(p@.warnings =~= seq![]);
        assert(p@.proposed =~= gathered_conditions(s@, nodes@, lo as int, hi as int));
        assert(p@.reason =~= cond_gather_plan(path@, s@, nodes@, lo as int, hi as int).reason);
    }
    p
}

/// Gathers runs of adjacent `@media`/`@supports` blocks that each hold one rule for the same
/// selector into one rule for that selector with the conditions nested.
#[verifier::rlimit(30)]
pub(crate) fn plan_gather_consecutive_conditions_by_selector(
    path: &str,
    s: &[char],
    nodes: &[SourceNode],
    enabled: &[RuleId],
    plans: &mut Vec<PlanEntry>,
)
    requires
        nodes_ok(s@, nodes@),
        plans_ok(s@, path@, old(plans)@),
    ensures
        plans_ok(s@, path@, final(plans)@),
        grows(old(plans)@, final(plans)@),
        added_as(old(plans)@, final(plans)@, seq![RuleId::NestMedia, RuleId::NestSupports], Safety::Safe),
        plans_view(final(plans)@) == plans_view(old(plans)@) + if enabled@.contains(RuleId::NestMedia)
            || enabled@.contains(RuleId::NestSupports) {
            cond_gather_plans(
                path@,
                s@,
                nodes@,
                enabled@.contains(RuleId::NestMedia),
                enabled@.contains(RuleId::NestSupports),
                0,
            )
        } else {
            seq![]
        },
{
    let media = rule_enabled(enabled, RuleId::NestMedia);
    let supports = rule_enabled(enabled, RuleId::NestSupports);
    if !media && !supports {
        proof {
            assert(plans_view(plans@) =~= plans_view(plans@) + seq![]);
        }
        return;
    }
    let ghost start_plans = plans@;
    let ghost emitted: Seq<PlanView> = seq![];
    let mut i: usize = 0;
    while i < nodes.len()
        invariant
            i <= nodes@.len(),
            nodes_ok(s@, nodes@),
            plans_ok(s@, path@, plans@),
            grows(start_plans, plans@),
            added_as(start_plans, plans@, seq![RuleId::NestMedia, RuleId::NestSupports], Safety::Safe),
            plans_view(plans@) == plans_view(start_plans) + emitted,
            emitted + cond_gather_plans(path@, s@, nodes@, media, supports, i as int) == cond_gather_plans(path@, s@, nodes@, media, supports, 0),
        decreases nodes.len() - i,
    {
        let first = &nodes[i];
        assert(node_wf(s@, first@, 0, s@.len() as int));
        let e = cond_run_end(s, nodes, media, supports, i);
        let target = if is_condition_node(first, media, supports) {
            single_style_selector(s, first)
        } else {
            None
        };
        match target {
            Some(t) => {
                if e - i > 1 {
                    let p = cond_gather_plan_exec(path, s, nodes, i, e, t);
                    proof {
                        lemma_push_plan(s@, path@, start_plans, plans@, p);
                        assert(plans_view(plans@.push(p)) =~= plans_view(plans@).push(p@));
                        assert(emitted.push(p@) + cond_gather_plans(path@, s@, nodes@, media, supports, e as int) =~= emitted + cond_gather_plans(
                            path@,
                            s@,
                            nodes@,
                            media,
                            supports,
                            i as int,
                        ));
                        emitted = emitted.push(p@);
                        assert forall|q: int| start_plans.len() <= q < plans@.push(p).len() implies (#[trigger] plans@.push(
                            p,
                        )[q])@.rules == seq![RuleId::NestMedia, RuleId::NestSupports] && plans@.push(p)[q]@.safety
                            == Safety::Safe by {
                            if q < plans@.len() {
                                assert(plans@.push(p)[q] == plans@[q]);
                            }
                        }
                    }
                    plans.push(p);
                    i = e;
                } else {
                    i = i + 1;
                }
            },
            None => {
                i = i + 1;
            },
        }
    }
    proof {
        assert(emitted =~= cond_gather_plans(path@, s@, nodes@, media, supports, 0));
    }
}

// ---------------------------------------------------------------------------
// Clusters of selector lists sharing their alternatives
// ---------------------------------------------------------------------------

fn vecs_eq(a: &Vec<Vec<char>>, b: &Vec<Vec<char>>) -> (r: bool)
    ensures
        r == (crate::text::texts(a@) == crate::text::texts(b@)),
{
    if a.len() != b.len() {
        assert(crate::text::texts(a@).len() != crate::text::texts(b@).len());
        return false;
    }
    let mut k: usize = 0;
    while k < a.len()
        invariant
            k <= a@.len(),
            a@.len() == b@.len(),
            forall|j: int| 0 <= j < k ==> crate::text::texts(a@)[j] == #[trigger] crate::text::texts(b@)[j],
        decreases a.len() - k,
    {
        if !chars_eq(a[k].as_slice(), b[k].as_slice()) {
            assert(crate::text::texts(a@)[k as int] != crate::text::texts(b@)[k as int]);
            return false;
        }
        k = k + 1;
    }
    assert(crate::text::texts(a@) =~= crate::text::texts(b@));
    true
}

/// The branch pattern of the selector of node `k`: the prefixes and the shared suffix.
pub open spec fn node_branches(s: Seq<char>, nodes: Seq<SourceNode>, k: int) -> Option<(Seq<Seq<char>>, Option<Seq<char>>)> {
    crate::relation::multi_branch_spec(crate::scanner::prelude_of(s, nodes[k]@))
}

/// Node `k` is a style rule right after the previous node, whose selector has a branch
/// pattern with the prefixes of node `i`.
pub open spec fn joins_multi_run(s: Seq<char>, nodes: Seq<SourceNode>, i: int, k: int) -> bool {
    &&& gap_ws(s, nodes, k)
    &&& nodes[k].kind is Style
    &&& node_branches(s, nodes, k) is Some
    &&& node_branches(s, nodes, k).unwrap().0 == node_branches(s, nodes, i).unwrap().0
}

/// The end of the run of rules with the branch prefixes of node `i` that node `i` starts.
pub open spec fn multi_run_end_spec(s: Seq<char>, nodes: Seq<SourceNode>, i: int) -> int {
    run_end(nodes.len() as int, i + 1, |k: int| joins_multi_run(s, nodes, i, k))
}

/// The body of a node, re-indented with `ind`.
pub open spec fn body_reindented(s: Seq<char>, n: crate::scanner::SpecNode, ind: Seq<char>) -> Seq<char> {
    match n.body {
        Some((x, y)) => crate::text::reindent(s.subrange(x, y), ind),
        None => seq![],
    }
}

/// The bodies of the rules of `lo..hi` without a shared suffix, re-indented with `ind`.
pub open spec fn direct_bodies(s: Seq<char>, nodes: Seq<SourceNode>, lo: int, hi: int, ind: Seq<char>) -> Seq<char>
    decreases hi - lo,
{
    if hi <= lo {
        seq![]
    } else {
        direct_bodies(s, nodes, lo, hi - 1, ind) + if node_branches(s, nodes, hi - 1).unwrap().1 is None {
            body_reindented(s, nodes[hi - 1]@, ind)
        } else {
            seq![]
        }
    }
}

/// The rules of `lo..hi` with a shared suffix, each as a rule for the suffix; a blank line
/// goes before each but the first of the run when no direct body precedes.
pub open spec fn suffix_rules(s: Seq<char>, nodes: Seq<SourceNode>, lo: int, hi: int, direct: bool, nested: Seq<char>, inner: Seq<
    char,
>) -> Seq<char>
    decreases hi - lo,
{
    if hi <= lo {
        seq![]
    } else {
        suffix_rules(s, nodes, lo, hi - 1, direct, nested, inner) + match node_branches(s, nodes, hi - 1).unwrap().1 {
            Some(sub) => (if direct || hi - 1 > lo {
                seq!['\n']
            } else {
                seq![]
            }) + nested + sub + " {\n"@ + body_reindented(s, nodes[hi - 1]@, inner) + nested + "}\n"@,
            None => seq![],
        }
    }
}

/// The `:is(...)` header over the prefixes.
pub open spec fn is_header(ps: Seq<Seq<char>>) -> Seq<char> {
    ":is("@ + crate::text::join(ps, ", "@) + seq![')']
}

/// The rule that replaces the rules `lo..hi` sharing the prefixes of node `lo`.
pub open spec fn multi_cluster_rule(s: Seq<char>, nodes: Seq<SourceNode>, lo: int, hi: int) -> Seq<char> {
    let f = nodes[lo]@;
    let ind = crate::layout::line_indent_spec(s, f.start);
    let unit = body_unit(s, f, "  "@);
    let direct = direct_bodies(s, nodes, lo, hi, ind + unit);
    ind + is_header(node_branches(s, nodes, lo).unwrap().0) + " {\n"@ + direct + suffix_rules(
        s,
        nodes,
        lo,
        hi,
        direct.len() > 0,
        ind + unit,
        ind + unit + unit,
    ) + ind + seq!['}']
}

/// The plan that factors the rules `lo..hi` sharing the prefixes of node `lo`. It is safe when
/// the prefixes share one specificity; otherwise `:is()` raises the less specific ones, so the
/// plan asks for review, warns, and does not claim equal specificity.
pub open spec fn multi_plan(path: Seq<char>, s: Seq<char>, nodes: Seq<SourceNode>, lo: int, hi: int) -> PlanView {
    let start = nodes[lo].start as int;
    let end = nodes[hi - 1].end as int;
    let ps = node_branches(s, nodes, lo).unwrap().0;
    PlanView {
        id: seq![],
        file: path,
        rules: seq![RuleId::ModernizeIs],
        safety: if crate::transform::uniform_specificity(ps) {
            Safety::Safe
        } else {
            Safety::Review
        },
        start,
        end,
        original: s.subrange(start, end),
        proposed: multi_cluster_rule(s, nodes, lo, hi),
        proof: Proof { specificity_equivalent: crate::transform::uniform_specificity(ps), ..crate::model::safe_local_proof() },
        warnings: if crate::transform::uniform_specificity(ps) {
            seq![]
        } else {
            seq!["Notice: :is() takes the specificity of its most specific argument."@]
        },
        reason: "Factor multi-selector cluster for "@ + is_header(ps) + " into :is(...) with nested rules."@,
        selected: true,
    }
}

/// The plans for the runs of two or more adjacent rules whose selectors share their branch
/// prefixes, from node `i` on, each run as long as it goes, left to right.
pub open spec fn multi_plans(path: Seq<char>, s: Seq<char>, nodes: Seq<SourceNode>, i: int) -> Seq<PlanView>
    decreases nodes.len() - i,
{
    if i < 0 || i >= nodes.len() {
        seq![]
    } else {
        let e = multi_run_end_spec(s, nodes, i);
        if nodes[i].kind is Style && node_branches(s, nodes, i) is Some && i + 1 < e <= nodes.len() {
            seq![multi_plan(path, s, nodes, i, e)] + multi_plans(path, s, nodes, e)
        } else {
            multi_plans(path, s, nodes, i + 1)
        }
    }
}

/// The end of the run of rules with the branch prefixes `prefixes` of node `i`.
fn multi_run_end(s: &[char], nodes: &[SourceNode], i: usize, prefixes: &Vec<Vec<char>>) -> (e: usize)
    requires
        nodes_ok(s@, nodes@),
        i < nodes@.len(),
        node_branches(s@, nodes@, i as int) is Some,
        node_branches(s@, nodes@, i as int).unwrap().0 == crate::text::texts(prefixes@),
    ensures
        i < e <= nodes@.len(),
        e == multi_run_end_spec(s@, nodes@, i as int),
{
    assert(i < nodes.len());
    let mut cursor = i + 1;
    while cursor < nodes.len()
        invariant
            i < cursor <= nodes@.len(),
            nodes_ok(s@, nodes@),
            node_branches(s@, nodes@, i as int).unwrap().0 == crate::text::texts(prefixes@),
            forall|k: int| i + 1 <= k < cursor ==> #[trigger] joins_multi_run(s@, nodes@, i as int, k),
        ensures
            i < cursor <= nodes@.len(),
            forall|k: int| i + 1 <= k < cursor ==> #[trigger] joins_multi_run(s@, nodes@, i as int, k),
            cursor == nodes@.len() || !joins_multi_run(s@, nodes@, i as int, cursor as int),
        decreases nodes.len() - cursor,
    {
        let next = &nodes[cursor];
        assert(nodes@[cursor - 1].end <= nodes@[cursor as int].start);
        assert(node_wf(s@, next@, 0, s@.len() as int));
        if !whitespace_only_chars(s, nodes[cursor - 1].end, next.start) {
            break;
        }
        if !is_style_node(next) {
            break;
        }
        let ns = prelude_chars(s, next);
        let same = match extract_multi_branch_pattern(ns.as_slice()) {
            Some((np, _)) => vecs_eq(&np, prefixes),
            None => false,
        };
        if !same {
            break;
        }
        assert(joins_multi_run(s@, nodes@, i as int, cursor as int));
        cursor = cursor + 1;
    }
    proof {
        lemma_run_end(nodes@.len() as int, i + 1, cursor as int, |k: int| joins_multi_run(s@, nodes@, i as int, k));
    }
    cursor
}

/// The suffix of the branch pattern of node `k` (which has one).
fn node_suffix(s: &[char], nodes: &[SourceNode], k: usize) -> (r: Option<Vec<char>>)
    requires
        nodes_ok(s@, nodes@),
        k < nodes@.len(),
        node_branches(s@, nodes@, k as int) is Some,
    ensures
        match node_branches(s@, nodes@, k as int).unwrap().1 {
            Some(x) => r matches Some(v) && v@ == x,
            None => r is None,
        },
{
    let c = &nodes[k];
    assert(node_wf(s@, c@, 0, s@.len() as int));
    let cp = prelude_chars(s, c);
    match extract_multi_branch_pattern(cp.as_slice()) {
        Some((_, suf)) => suf,
        None => None,
    }
}

/// The rule that replaces the rules `lo..hi` sharing the prefixes `prefixes` of node `lo`.
#[verifier::spinoff_prover]
#[verifier::rlimit(30)]
fn multi_cluster_rule_exec(s: &[char], nodes: &[SourceNode], lo: usize, hi: usize, prefixes: &Vec<Vec<char>>) -> (r: Vec<char>)
    requires
        nodes_ok(s@, nodes@),
        lo < hi <= nodes@.len(),
        forall|k: int| lo <= k < hi ==> #[trigger] node_branches(s@, nodes@, k) is Some,
        node_branches(s@, nodes@, lo as int).unwrap().0 == crate::text::texts(prefixes@),
    ensures
        r@ == multi_cluster_rule(s@, nodes@, lo as int, hi as int),
{
    let first = &nodes[lo];
    assert(node_wf(s@, first@, 0, s@.len() as int));
    let indent = line_indent(s, first.start);
    let unit = match &first.body_range {
        Some(b) => unit_or(s, b.start, b.end, "  "),
        None => chars_of("  "),
    };
    let nested = concat(indent.as_slice(), unit.as_slice());
    let inner = concat(nested.as_slice(), unit.as_slice());
    let mut direct: Vec<char> = Vec::new();
    let mut k: usize = lo;
    while k < hi
        invariant
            lo <= k <= hi <= nodes@.len(),
            nodes_ok(s@, nodes@),
            forall|q: int| lo <= q < hi ==> #[trigger] node_branches(s@, nodes@, q) is Some,
            direct@ == direct_bodies(s@, nodes@, lo as int, k as int, nested@),
        decreases hi - k,
    {
        let c = &nodes[k];
        assert(node_wf(s@, c@, 0, s@.len() as int));
        assert(node_branches(s@, nodes@, k as int) is Some);
        let suf = node_suffix(s, nodes, k);
        if suf.is_none() {
            match &c.body_range {
                Some(r) => {
                    push_reindented(&mut direct, s, r.start, r.end, nested.as_slice());
                },
                None => {},
            }
        }
        k = k + 1;
    }
    let has_direct = direct.len() > 0;
    let mut rest: Vec<char> = Vec::new();
    let mut k: usize = lo;
    while k < hi
        invariant
            lo <= k <= hi <= nodes@.len(),
            nodes_ok(s@, nodes@),
            forall|q: int| lo <= q < hi ==> #[trigger] node_branches(s@, nodes@, q) is Some,
            rest@ == suffix_rules(s@, nodes@, lo as int, k as int, has_direct, nested@, inner@),
        decreases hi - k,
    {
        let c = &nodes[k];
        assert(node_wf(s@, c@, 0, s@.len() as int));
        assert(node_branches(s@, nodes@, k as int) is Some);
        let ghost before = rest@;
        match node_suffix(s, nodes, k) {
            Some(sub) => {
                if has_direct || k > lo {
                    rest.push('\n');
                }
                let ghost mid = rest@;
                rest.extend_from_slice(nested.as_slice());
                rest.extend_from_slice(sub.as_slice());
                push_str(&mut rest, " {\n");
                let ghost head = rest@;
                match &c.body_range {
                    Some(r) => {
                        push_reindented(&mut rest, s, r.start, r.end, inner.as_slice());
                    },
                    None => {},
                }
                assert(rest@ == head + body_reindented(s@, nodes@[k as int]@, inner@));
                rest.extend_from_slice(nested.as_slice());
                push_str(&mut rest, "}\n");
                proof {
                    if has_direct || k > lo {
                        assert(mid =~= before + seq!['\n']);
                    } else {
                        assert(mid =~= before + seq![]);
                    }
                    assert(rest@ =~= suffix_rules(s@, nodes@, lo as int, k + 1, has_direct, nested@, inner@));
                }
            },
            None => {
                assert(rest@ =~= suffix_rules(s@, nodes@, lo as int, k + 1, has_direct, nested@, inner@));
            },
        }
        k = k + 1;
    }
    let mut out = indent.clone();
    push_str(&mut out, ":is(");
    crate::text::push_joined(&mut out, prefixes, lit(", ").as_slice());
    out.push(')');
    push_str(&mut out, " {\n");
    out.extend_from_slice(direct.as_slice());
    out.extend_from_slice(rest.as_slice());
    out.extend_from_slice(indent.as_slice());
    out.push('}');
    proof {
        assert(out@ =~= multi_cluster_rule(s@, nodes@, lo as int, hi as int));
    }
    out
}

/// The plan that factors the rules `lo..hi` sharing the prefixes `prefixes` of node `lo`.
fn multi_plan_exec(path: &str, s: &[char], nodes: &[SourceNode], lo: usize, hi: usize, prefixes: &Vec<Vec<char>>) -> (p: PlanEntry)
    requires
        nodes_ok(s@, nodes@),
        lo < hi <= nodes@.len(),
        forall|k: int| lo <= k < hi ==> #[trigger] node_branches(s@, nodes@, k) is Some,
        node_branches(s@, nodes@, lo as int).unwrap().0 == crate::text::texts(prefixes@),
    ensures
        p@ == multi_plan(path@, s@, nodes@, lo as int, hi as int),
        plan_ok(s@, path@, p@),
{
    let first = &nodes[lo];
    let last = &nodes[hi - 1];
    assert(node_wf(s@, first@, 0, s@.len() as int));
    assert(node_wf(s@, last@, 0, s@.len() as int));
    assert(first.start <= last.end) by {
        if hi - 1 > lo {
            assert(nodes@[lo as int].end <= nodes@[hi - 1].start);
        }
    }
    let out = multi_cluster_rule_exec(s, nodes, lo, hi, prefixes);
    let uniform = crate::transform::uniform_exec(prefixes);
    let mut warnings: Vec<String> = Vec::new();
    if !uniform {
        warnings.push(String::from_str("Notice: :is() takes the specificity of its most specific argument."));
    }
    let safety = if uniform {
        Safety::Safe
    } else {
        Safety::Review
    };
    let mut proof_v = Proof::safe_local();
    proof_v.specificity_equivalent = uniform;
    let mut header = lit(":is(");
    crate::text::push_joined(&mut header, prefixes, lit(", ").as_slice());
    header.push(')');
    let mut reason = lit("Factor multi-selector cluster for ");
    reason.extend_from_slice(header.as_slice());
    push_str(&mut reason, " into :is(...) with nested rules.");
    let p = make_plan(
        path,
        s,
        first.start,
        last.end,
        one_rule(RuleId::ModernizeIs),
        safety,
        out,
        proof_v,
        warnings,
        reason,
    );
    proof {
        assert(p@.warnings =~= multi_plan(path@, s@, nodes@, lo as int, hi as int).warnings);
        assert(p@.reason =~= multi_plan(path@, s@, nodes@, lo as int, hi as int).reason);
    }
    p
}

/// Factors runs of adjacent rules whose selector lists share their branches
/// (`.a .t, #b .t` and `.a .u, #b .u`) into one `:is(...)` rule with the suffixes nested.
pub(crate) fn plan_factor_multi_selector_cluster_with_is(
    path: &str,
    s: &[char],
    nodes: &[SourceNode],
    enabled: &[RuleId],
    plans: &mut Vec<PlanEntry>,
)
    requires
        nodes_ok(s@, nodes@),
        plans_ok(s@, path@, old(plans)@),
    ensures
        plans_ok(s@, path@, final(plans)@),
        grows(old(plans)@, final(plans)@),
        plans_view(final(plans)@) == plans_view(old(plans)@) + if enabled@.contains(RuleId::ModernizeIs) {
            multi_plans(path@, s@, nodes@, 0)
        } else {
            seq![]
        },
{
    if !rule_enabled(enabled, RuleId::ModernizeIs) {
        proof {
            assert(plans_view(plans@) =~= plans_view(plans@) + seq![]);
        }
        return;
    }
    let ghost start_plans = plans@;
    let ghost emitted: Seq<PlanView> = seq![];
    let mut i: usize = 0;
    while i < nodes.len()
        invariant
            i <= nodes@.len(),
            nodes_ok(s@, nodes@),
            plans_ok(s@, path@, plans@),
            grows(start_plans, plans@),
            plans_view(plans@) == plans_view(start_plans) + emitted,
            emitted + multi_plans(path@, s@, nodes@, i as int) == multi_plans(path@, s@, nodes@, 0),
        decreases nodes.len() - i,
    {
        let first = &nodes[i];
        assert(node_wf(s@, first@, 0, s@.len() as int));
        if !is_style_node(first) {
            i = i + 1;
            continue;
        }
        let fs = prelude_chars(s, first);
        let prefixes = match extract_multi_branch_pattern(fs.as_slice()) {
            Some((ps, _)) => ps,
            None => {
                i = i + 1;
                continue;
            },
        };
        let e = multi_run_end(s, nodes, i, &prefixes);
        if e - i > 1 {
            proof {
                assert forall|k: int| i <= k < e implies #[trigger] node_branches(s@, nodes@, k) is Some by {
                    if k > i {
                        lemma_run_end_inside(nodes@.len() as int, i + 1, k, |q: int| joins_multi_run(s@, nodes@, i as int, q));
                        assert(joins_multi_run(s@, nodes@, i as int, k));
                    }
                }
            }
            let p = multi_plan_exec(path, s, nodes, i, e, &prefixes);
            proof {
                lemma_push_plan(s@, path@, start_plans, plans@, p);
                assert(plans_view(plans@.push(p)) =~= plans_view(plans@).push(p@));
                assert(emitted.push(p@) + multi_plans(path@, s@, nodes@, e as int) =~= emitted + multi_plans(
                    path@,
                    s@,
                    nodes@,
                    i as int,
                ));
                emitted = emitted.push(p@);
            }
            plans.push(p);
            i = e;
        } else {
            i = i + 1;
        }
    }
    proof {
        assert(emitted =~= multi_plans(path@, s@, nodes@, 0));
    }
}

// ---------------------------------------------------------------------------
// Related rules spread over the stylesheet
// ---------------------------------------------------------------------------

/// The base a style rule's selector may gather under: the part before its first `:` or `[`,
/// trimmed, or the whole selector; none for a relative selector (`&`, `+`, `>`, `~`).
pub open spec fn gather_base_spec(sel: Seq<char>) -> Option<Seq<char>> {
    if sel.len() == 0 || sel[0] == '&' || sel[0] == '+' || sel[0] == '>' || sel[0] == '~' {
        None
    } else {
        let base = match crate::text::find(sel, seq![':']) {
            Some(p) => crate::text::trim(sel.take(p)),
            None => match crate::text::find(sel, seq!['[']) {
                Some(p) => crate::text::trim(sel.take(p)),
                None => sel,
            },
        };
        if base.len() == 0 {
            None
        } else {
            Some(base)
        }
    }
}

/// The distinct gather bases of the style rules among the first `i` nodes, in order of first
/// appearance.
pub open spec fn gather_bases(s: Seq<char>, nodes: Seq<SourceNode>, i: int) -> Seq<Seq<char>>
    decreases i,
{
    if i <= 0 {
        seq![]
    } else {
        let prev = gather_bases(s, nodes, i - 1);
        let n = nodes[i - 1];
        if n.kind is Style {
            match gather_base_spec(crate::scanner::prelude_of(s, n@)) {
                Some(b) => if prev.contains(b) {
                    prev
                } else {
                    prev.push(b)
                },
                None => prev,
            }
        } else {
            prev
        }
    }
}

/// Node `k` is a style rule for `b` or for a selector related to `b`.
pub open spec fn gathers_to(s: Seq<char>, nodes: Seq<SourceNode>, b: Seq<char>, k: int) -> bool {
    let sel = crate::scanner::prelude_of(s, nodes[k]@);
    nodes[k].kind is Style && (sel == b || crate::relation::related_spec(b, sel) is Some)
}

/// The positions of the first `j` nodes that gather to `b`, in order.
pub open spec fn gather_cluster(s: Seq<char>, nodes: Seq<SourceNode>, b: Seq<char>, j: int) -> Seq<usize>
    decreases j,
{
    if j <= 0 {
        seq![]
    } else if gathers_to(s, nodes, b, j - 1) {
        gather_cluster(s, nodes, b, j - 1).push((j - 1) as usize)
    } else {
        gather_cluster(s, nodes, b, j - 1)
    }
}

/// Some two consecutive nodes of the cluster have more than whitespace between them.
pub open spec fn scattered(s: Seq<char>, nodes: Seq<SourceNode>, cl: Seq<usize>) -> bool {
    exists|w: int|
        0 <= w < cl.len() - 1 && !crate::scanner::whitespace_only(
            s,
            nodes[cl[w] as int].end as int,
            nodes[#[trigger] cl[w + 1] as int].start as int,
        )
}

/// The end of the span that removes a node ending at `e`: its line break goes with it.
pub open spec fn removal_end(s: Seq<char>, e: int) -> int {
    if s.len() > 1 && e < s.len() - 1 && s[e] == '\r' && s[e + 1] == '\n' {
        e + 2
    } else if e < s.len() && s[e] == '\n' {
        e + 1
    } else {
        e
    }
}

/// The plan that gathers the cluster of base `b` into its first rule.
pub open spec fn gather_plan(path: Seq<char>, s: Seq<char>, nodes: Seq<SourceNode>, b: Seq<char>, cl: Seq<usize>) -> PlanView {
    let f = nodes[cl[0] as int]@;
    let n = decimal(cl.len());
    PlanView {
        id: seq![],
        file: path,
        rules: seq![RuleId::GatherRelatedSelectorRules],
        safety: Safety::Review,
        start: f.start,
        end: f.end,
        original: s.subrange(f.start, f.end),
        proposed: crate::render::merged_rule_text(
            s,
            nodes,
            cl,
            b,
            crate::layout::line_indent_spec(s, f.start),
            body_unit(s, f, "    "@),
        ),
        proof: gathered_proof(),
        warnings: seq!["Gathered "@ + n + " related occurrences of '"@ + b + "' across lines; review cascade ordering."@],
        reason: "Gather "@ + n + " related rules for '"@ + b + "' into the canonical first selector block."@,
        selected: true,
    }
}

/// The plan that removes the gathered rule at position `k` for base `b`, with its line break.
pub open spec fn removal_plan(path: Seq<char>, s: Seq<char>, nodes: Seq<SourceNode>, b: Seq<char>, k: int) -> PlanView {
    let n = nodes[k]@;
    let end = removal_end(s, n.end);
    PlanView {
        id: seq![],
        file: path,
        rules: seq![RuleId::GatherRelatedSelectorRules],
        safety: Safety::Review,
        start: n.start,
        end,
        original: s.subrange(n.start, end),
        proposed: seq![],
        proof: crate::model::safe_local_proof(),
        warnings: seq![],
        reason: "Remove non-adjacent gathered rule for '"@ + b + "' at line "@ + decimal(
            crate::layout::line_number_spec(s, n.start) as nat,
        ) + seq!['.'],
        selected: true,
    }
}

/// The removal plans for the cluster members from position `k` on (the first stays).
pub open spec fn removal_plans(path: Seq<char>, s: Seq<char>, nodes: Seq<SourceNode>, b: Seq<char>, cl: Seq<usize>, k: int) -> Seq<
    PlanView,
>
    decreases k,
{
    if k <= 1 {
        seq![]
    } else {
        removal_plans(path, s, nodes, b, cl, k - 1).push(removal_plan(path, s, nodes, b, cl[k - 1] as int))
    }
}

/// The plans for base `b`: when two or more rules gather to it and they are scattered, one that
/// gathers them into the first and one that removes each other.
pub open spec fn base_gather_plans(path: Seq<char>, s: Seq<char>, nodes: Seq<SourceNode>, b: Seq<char>) -> Seq<PlanView> {
    let cl = gather_cluster(s, nodes, b, nodes.len() as int);
    if cl.len() > 1 && scattered(s, nodes, cl) {
        seq![gather_plan(path, s, nodes, b, cl)] + removal_plans(path, s, nodes, b, cl, cl.len() as int)
    } else {
        seq![]
    }
}

/// The plans for the first `k` of the bases `bs`, base after base.
pub open spec fn gather_plans(path: Seq<char>, s: Seq<char>, nodes: Seq<SourceNode>, bs: Seq<Seq<char>>, k: int) -> Seq<PlanView>
    decreases k,
{
    if k <= 0 {
        seq![]
    } else {
        gather_plans(path, s, nodes, bs, k - 1) + base_gather_plans(path, s, nodes, bs[k - 1])
    }
}

fn gather_base(sel: &[char]) -> (r: Option<Vec<char>>)
    ensures
        match r {
            Some(b) => gather_base_spec(sel@) == Some(b@),
            None => gather_base_spec(sel@) is None,
        },
{
    if sel.len() == 0 || sel[0] == '&' || sel[0] == '+' || sel[0] == '>' || sel[0] == '~' {
        return None;
    }
    let colon = [':'];
    let br = ['['];
    assert(colon@ =~= seq![':']);
    assert(br@ =~= seq!['[']);
    proof {
        assert(sel@.subrange(0, sel@.len() as int) =~= sel@);
        crate::text::lemma_find_sound(sel@, colon@);
        crate::text::lemma_find_sound(sel@, br@);
    }
    let base = match crate::text::find_in(sel, 0, sel.len(), &colon) {
        Some(p) => {
            let (a, b) = trim_bounds(sel, 0, p);
            assert(sel@.subrange(0, p as int) =~= sel@.take(p as int));
            crate::selector::copy_range(sel, a, b)
        },
        None => match crate::text::find_in(sel, 0, sel.len(), &br) {
            Some(p) => {
                let (a, b) = trim_bounds(sel, 0, p);
                assert(sel@.subrange(0, p as int) =~= sel@.take(p as int));
                crate::selector::copy_range(sel, a, b)
            },
            None => crate::selector::copy_range(sel, 0, sel.len()),
        },
    };
    if base.len() == 0 {
        None
    } else {
        Some(base)
    }
}

fn contains_vec(vs: &Vec<Vec<char>>, v: &[char]) -> (r: bool)
    ensures
        r == crate::text::texts(vs@).contains(v@),
{
    let mut k: usize = 0;
    while k < vs.len()
        invariant
            k <= vs@.len(),
            forall|q: int| 0 <= q < k ==> crate::text::texts(vs@)[q] != v@,
        decreases vs.len() - k,
    {
        if chars_eq(vs[k].as_slice(), v) {
            assert(crate::text::texts(vs@)[k as int] == v@);
            return true;
        }
        k = k + 1;
    }
    false
}

pub open spec fn gathered_proof() -> Proof {
    Proof {
        selector_set_equivalent: true,
        specificity_equivalent: true,
        cascade_context_equivalent: false,
        source_order_equivalent: false,
        layer_equivalent: true,
        scope_equivalent: true,
        declarations_exact: true,
        important_exact: true,
    }
}

/// The distinct gather bases of the style rules, in order of first appearance.
fn collect_gather_bases(s: &[char], nodes: &[SourceNode]) -> (r: Vec<Vec<char>>)
    requires
        nodes_ok(s@, nodes@),
    ensures
        crate::text::texts(r@) == gather_bases(s@, nodes@, nodes@.len() as int),
{
    let mut bases: Vec<Vec<char>> = Vec::new();
    proof {
        assert(crate::text::texts(bases@) =~= seq![]);
    }
    let mut i: usize = 0;
    while i < nodes.len()
        invariant
            i <= nodes@.len(),
            nodes_ok(s@, nodes@),
            crate::text::texts(bases@) == gather_bases(s@, nodes@, i as int),
        decreases nodes.len() - i,
    {
        let n = &nodes[i];
        assert(node_wf(s@, n@, 0, s@.len() as int));
        if is_style_node(n) {
            let sel = prelude_chars(s, n);
            if let Some(b) = gather_base(sel.as_slice()) {
                if !contains_vec(&bases, b.as_slice()) {
                    let ghost before = bases@;
                    bases.push(b);
                    proof {
                        assert(crate::text::texts(bases@) =~= crate::text::texts(before).push(b@));
                    }
                }
            }
        }
        i = i + 1;
    }
    bases
}

/// The positions of the nodes that gather to `base`, in order.
fn collect_gather_cluster(s: &[char], nodes: &[SourceNode], base: &[char]) -> (r: Vec<usize>)
    requires
        nodes_ok(s@, nodes@),
    ensures
        r@ == gather_cluster(s@, nodes@, base@, nodes@.len() as int),
        forall|q: int| 0 <= q < r@.len() ==> #[trigger] r@[q] < nodes@.len(),
        forall|q: int| 0 <= q < r@.len() ==> (#[trigger] nodes@[r@[q] as int]).kind is Style,
        forall|q: int, t: int| 0 <= q < t < r@.len() ==> #[trigger] r@[q] < #[trigger] r@[t],
{
    let mut cluster: Vec<usize> = Vec::new();
    let mut j: usize = 0;
    while j < nodes.len()
        invariant
            j <= nodes@.len(),
            nodes_ok(s@, nodes@),
            cluster@ == gather_cluster(s@, nodes@, base@, j as int),
            forall|q: int| 0 <= q < cluster@.len() ==> #[trigger] cluster@[q] < j,
            forall|q: int| 0 <= q < cluster@.len() ==> (#[trigger] nodes@[cluster@[q] as int]).kind is Style,
            forall|q: int, t: int| 0 <= q < t < cluster@.len() ==> #[trigger] cluster@[q] < #[trigger] cluster@[t],
        decreases nodes.len() - j,
    {
        let n = &nodes[j];
        assert(node_wf(s@, n@, 0, s@.len() as int));
        if is_style_node(n) {
            let sel = prelude_chars(s, n);
            if chars_eq(sel.as_slice(), base) || extract_related_nested_selector(base, sel.as_slice()).is_some() {
                cluster.push(j);
            }
        }
        j = j + 1;
    }
    cluster
}

/// Whether two consecutive nodes of the cluster have more than whitespace between them.
fn is_scattered(s: &[char], nodes: &[SourceNode], cluster: &Vec<usize>) -> (r: bool)
    requires
        nodes_ok(s@, nodes@),
        forall|q: int| 0 <= q < cluster@.len() ==> #[trigger] cluster@[q] < nodes@.len(),
        forall|q: int, t: int| 0 <= q < t < cluster@.len() ==> #[trigger] cluster@[q] < #[trigger] cluster@[t],
    ensures
        r == scattered(s@, nodes@, cluster@),
{
    if cluster.len() < 2 {
        return false;
    }
    let mut w: usize = 0;
    while w < cluster.len() - 1
        invariant
            cluster@.len() > 1,
            nodes_ok(s@, nodes@),
            forall|q: int| 0 <= q < cluster@.len() ==> #[trigger] cluster@[q] < nodes@.len(),
            forall|q: int, t: int| 0 <= q < t < cluster@.len() ==> #[trigger] cluster@[q] < #[trigger] cluster@[t],
            forall|v: int| 0 <= v < w ==> crate::scanner::whitespace_only(
                s@,
                nodes@[cluster@[v] as int].end as int,
                nodes@[#[trigger] cluster@[v + 1] as int].start as int,
            ),
        decreases cluster.len() - w,
    {
        let a = &nodes[cluster[w]];
        let b = &nodes[cluster[w + 1]];
        assert(cluster@[w as int] < cluster@[w + 1]);
        assert(nodes@[cluster@[w as int] as int].end <= nodes@[cluster@[w + 1] as int].start);
        assert(node_wf(s@, b@, 0, s@.len() as int));
        if !whitespace_only_chars(s, a.end, b.start) {
            return true;
        }
        w = w + 1;
    }
    false
}

/// The plan that removes the gathered rule at position `k` for base `base`.
fn removal_plan_exec(path: &str, s: &[char], nodes: &[SourceNode], base: &[char], k: usize) -> (p: PlanEntry)
    requires
        nodes_ok(s@, nodes@),
        k < nodes@.len(),
    ensures
        p@ == removal_plan(path@, s@, nodes@, base@, k as int),
        plan_ok(s@, path@, p@),
{
    let sec = &nodes[k];
    assert(node_wf(s@, sec@, 0, s@.len() as int));
    let mut sec_end = sec.end;
    if s.len() > 1 && sec_end < s.len() - 1 && s[sec_end] == '\r' && s[sec_end + 1] == '\n' {
        sec_end = sec_end + 2;
    } else if sec_end < s.len() && s[sec_end] == '\n' {
        sec_end = sec_end + 1;
    }
    let mut reason = lit("Remove non-adjacent gathered rule for '");
    reason.extend_from_slice(base);
    push_str(&mut reason, "' at line ");
    reason.extend_from_slice(decimal_exec(line_number(s, sec.start)).as_slice());
    reason.push('.');
    let p = make_plan(
        path,
        s,
        sec.start,
        sec_end,
        one_rule(RuleId::GatherRelatedSelectorRules),
        Safety::Review,
        Vec::new(),
        Proof::safe_local(),
        Vec::new(),
        reason,
    );
    proof {
        assert(p@.warnings =~= seq![]);
        assert(p@.proposed =~= seq![]);
        assert(p@.reason =~= removal_plan(path@, s@, nodes@, base@, k as int).reason);
    }
    p
}

/// The plan that gathers the cluster of base `base` into its first rule.
fn gather_plan_exec(path: &str, s: &[char], nodes: &[SourceNode], base: &[char], cluster: &Vec<usize>) -> (p: PlanEntry)
    requires
        nodes_ok(s@, nodes@),
        cluster@.len() > 0,
        forall|q: int| 0 <= q < cluster@.len() ==> #[trigger] cluster@[q] < nodes@.len(),
    ensures
        p@ == gather_plan(path@, s@, nodes@, base@, cluster@),
        plan_ok(s@, path@, p@),
{
    let first = &nodes[cluster[0]];
    assert(node_wf(s@, first@, 0, s@.len() as int));
    let indent = line_indent(s, first.start);
    let unit = match &first.body_range {
        Some(b) => unit_or(s, b.start, b.end, "    "),
        None => chars_of("    "),
    };
    let proposed = format_merged_rule(base, indent.as_slice(), unit.as_slice(), cluster, s, nodes);
    let count = decimal_exec(cluster.len());
    let mut warning = lit("Gathered ");
    warning.extend_from_slice(count.as_slice());
    push_str(&mut warning, " related occurrences of '");
    warning.extend_from_slice(base);
    push_str(&mut warning, "' across lines; review cascade ordering.");
    let mut warnings: Vec<String> = Vec::new();
    let w = string_of(warning.as_slice());
    warnings.push(w);
    let mut reason = lit("Gather ");
    reason.extend_from_slice(count.as_slice());
    push_str(&mut reason, " related rules for '");
    reason.extend_from_slice(base);
    push_str(&mut reason, "' into the canonical first selector block.");
    let proof_v = Proof {
        selector_set_equivalent: true,
        specificity_equivalent: true,
        cascade_context_equivalent: false,
        source_order_equivalent: false,
        layer_equivalent: true,
        scope_equivalent: true,
        declarations_exact: true,
        important_exact: true,
    };
    let p = make_plan(
        path,
        s,
        first.start,
        first.end,
        one_rule(RuleId::GatherRelatedSelectorRules),
        Safety::Review,
        proposed,
        proof_v,
        warnings,
        reason,
    );
    proof {
        assert(warnings@ =~= seq![w]);
        assert(warning@ =~= "Gathered "@ + decimal(cluster@.len()) + " related occurrences of '"@ + base@
            + "' across lines; review cascade ordering."@);
        assert(warnings@.map_values(|x: String| x@) =~= seq![w@]);
        assert(p@.warnings =~= gather_plan(path@, s@, nodes@, base@, cluster@).warnings);
        assert(p@.reason =~= gather_plan(path@, s@, nodes@, base@, cluster@).reason);
    }
    p
}

/// Appends the plans for base `base`: where two or more rules gather to it and they are
/// scattered, the plan that gathers them into the first and one that removes each other.
fn push_base_gather(path: &str, s: &[char], nodes: &[SourceNode], base: &[char], plans: &mut Vec<PlanEntry>)
    requires
        nodes_ok(s@, nodes@),
        plans_ok(s@, path@, old(plans)@),
    ensures
        plans_ok(s@, path@, final(plans)@),
        grows(old(plans)@, final(plans)@),
        added_as(old(plans)@, final(plans)@, seq![RuleId::GatherRelatedSelectorRules], Safety::Review),
        plans_view(final(plans)@) == plans_view(old(plans)@) + base_gather_plans(path@, s@, nodes@, base@),
{
    let ghost start_plans = plans@;
    let cluster = collect_gather_cluster(s, nodes, base);
    let ghost before = plans_view(plans@);
    if cluster.len() > 1 && is_scattered(s, nodes, &cluster) {
        let p = gather_plan_exec(path, s, nodes, base, &cluster);
        proof {
            lemma_push_plan(s@, path@, start_plans, plans@, p);
            assert forall|q: int| start_plans.len() <= q < plans@.push(p).len() implies (#[trigger] plans@.push(p)[q])@.rules
                == seq![RuleId::GatherRelatedSelectorRules] && plans@.push(p)[q]@.safety == Safety::Review by {
                if q < plans@.len() {
                    assert(plans@.push(p)[q] == plans@[q]);
                }
            }
            assert(plans_view(plans@.push(p)) =~= before.push(p@));
        }
        plans.push(p);
        let mut k: usize = 1;
        while k < cluster.len()
            invariant
                1 <= k <= cluster@.len(),
                nodes_ok(s@, nodes@),
                forall|q: int| 0 <= q < cluster@.len() ==> #[trigger] cluster@[q] < nodes@.len(),
                plans_ok(s@, path@, plans@),
                grows(start_plans, plans@),
                added_as(start_plans, plans@, seq![RuleId::GatherRelatedSelectorRules], Safety::Review),
                plans_view(plans@) == before.push(gather_plan(path@, s@, nodes@, base@, cluster@)) + removal_plans(
                    path@,
                    s@,
                    nodes@,
                    base@,
                    cluster@,
                    k as int,
                ),
            decreases cluster.len() - k,
        {
            let p = removal_plan_exec(path, s, nodes, base, cluster[k]);
            proof {
                lemma_push_plan(s@, path@, start_plans, plans@, p);
                assert forall|q: int| start_plans.len() <= q < plans@.push(p).len() implies (#[trigger] plans@.push(p)[q])@.rules
                    == seq![RuleId::GatherRelatedSelectorRules] && plans@.push(p)[q]@.safety == Safety::Review by {
                    if q < plans@.len() {
                        assert(plans@.push(p)[q] == plans@[q]);
                    }
                }
                assert(plans_view(plans@.push(p)) =~= plans_view(plans@).push(p@));
            }
            plans.push(p);
            k = k + 1;
        }
        proof {
            assert(plans_view(plans@) =~= before + base_gather_plans(path@, s@, nodes@, base@));
        }
    } else {
        proof {
            assert(plans_view(plans@) =~= before + base_gather_plans(path@, s@, nodes@, base@));
        }
    }
}

/// Gathers the rules for one base selector spread over the stylesheet (`.card`, later
/// `.card:hover`, later `.card .title`) into the first of them, removing the others; as the
/// cascade order changes, the plans ask for review.
pub(crate) fn plan_gather_related_selector_rules(
    path: &str,
    s: &[char],
    nodes: &[SourceNode],
    enabled: &[RuleId],
    plans: &mut Vec<PlanEntry>,
)
    requires
        nodes_ok(s@, nodes@),
        plans_ok(s@, path@, old(plans)@),
    ensures
        plans_ok(s@, path@, final(plans)@),
        grows(old(plans)@, final(plans)@),
        added_as(old(plans)@, final(plans)@, seq![RuleId::GatherRelatedSelectorRules], Safety::Review),
        plans_view(final(plans)@) == plans_view(old(plans)@) + if enabled@.contains(RuleId::GatherRelatedSelectorRules) {
            let bs = gather_bases(s@, nodes@, nodes@.len() as int);
            gather_plans(path@, s@, nodes@, bs, bs.len() as int)
        } else {
            seq![]
        },
{
    if !rule_enabled(enabled, RuleId::GatherRelatedSelectorRules) {
        proof {
            assert(plans_view(plans@) =~= plans_view(plans@) + seq![]);
        }
        return;
    }
    let ghost start_plans = plans@;
    let bases = collect_gather_bases(s, nodes);
    let ghost bs = crate::text::texts(bases@);
    let mut bi: usize = 0;
    while bi < bases.len()
        invariant
            bi <= bases@.len(),
            bs == crate::text::texts(bases@),
            nodes_ok(s@, nodes@),
            plans_ok(s@, path@, plans@),
            grows(start_plans, plans@),
            added_as(start_plans, plans@, seq![RuleId::GatherRelatedSelectorRules], Safety::Review),
            plans_view(plans@) == plans_view(start_plans) + gather_plans(path@, s@, nodes@, bs, bi as int),
        decreases bases.len() - bi,
    {
        let base = &bases[bi];
        assert(bs[bi as int] == base@);
        let ghost mid = plans@;
        push_base_gather(path, s, nodes, base.as_slice(), plans);
        proof {
            assert(plans_view(plans@) =~= plans_view(start_plans) + gather_plans(path@, s@, nodes@, bs, bi + 1));
            assert forall|q: int| start_plans.len() <= q < plans@.len() implies (#[trigger] plans@[q])@.rules
                == seq![RuleId::GatherRelatedSelectorRules] && plans@[q]@.safety == Safety::Review by {
                if q < mid.len() {
                    assert(plans@[q]@ == mid[q]@);
                }
            }
        }
        bi = bi + 1;
    }
}

// ---------------------------------------------------------------------------
// Same-named cascade layers, and the plans of a region
// ---------------------------------------------------------------------------

/// The name of a cascade layer block (`@layer name { ... }`): its trimmed prelude past
/// `@layer`, trimmed, when that is neither empty nor holds `{`.
pub open spec fn layer_name_spec(s: Seq<char>, n: SourceNode) -> Option<Seq<char>> {
    let pre = crate::scanner::prelude_of(s, n@);
    if at_name(n) == Some("layer"@) && crate::text::starts_with(pre, "@layer"@) {
        let name = crate::text::trim(pre.skip("@layer"@.len() as int));
        if name.len() > 0 && !crate::text::contains(name, seq!['{']) {
            Some(name)
        } else {
            None
        }
    } else {
        None
    }
}

/// The distinct layer names of the first `i` nodes, in order of first appearance.
pub open spec fn layer_names(s: Seq<char>, nodes: Seq<SourceNode>, i: int) -> Seq<Seq<char>>
    decreases i,
{
    if i <= 0 {
        seq![]
    } else {
        let prev = layer_names(s, nodes, i - 1);
        match layer_name_spec(s, nodes[i - 1]) {
            Some(n) => if prev.contains(n) {
                prev
            } else {
                prev.push(n)
            },
            None => prev,
        }
    }
}

/// The positions of the blocks of layer `name` among the first `j` nodes, in order.
pub open spec fn layer_group(s: Seq<char>, nodes: Seq<SourceNode>, name: Seq<char>, j: int) -> Seq<usize>
    decreases j,
{
    if j <= 0 {
        seq![]
    } else if layer_name_spec(s, nodes[j - 1]) == Some(name) {
        layer_group(s, nodes, name, j - 1).push((j - 1) as usize)
    } else {
        layer_group(s, nodes, name, j - 1)
    }
}

/// The plan that consolidates the blocks `grp` of layer `name` into the first, whose new body
/// is `body`.
pub open spec fn layer_first_plan(path: Seq<char>, s: Seq<char>, nodes: Seq<SourceNode>, name: Seq<char>, grp: Seq<usize>, body: Seq<
    char,
>) -> PlanView {
    let f = nodes[grp[0] as int]@;
    let ind = crate::layout::line_indent_spec(s, f.start);
    PlanView {
        id: seq![],
        file: path,
        rules: seq![RuleId::MergeSameNamedLayer],
        safety: Safety::Safe,
        start: f.start,
        end: f.end,
        original: s.subrange(f.start, f.end),
        proposed: ind + "@layer "@ + name + " {\n"@ + body + ind + seq!['}'],
        proof: crate::model::safe_local_proof(),
        warnings: seq![],
        reason: "Consolidate "@ + decimal(grp.len()) + " separated blocks of @layer "@ + name + " into first occurrence."@,
        selected: true,
    }
}

/// The plan that removes the later block at position `k` of layer `name`.
pub open spec fn layer_removal_plan(path: Seq<char>, s: Seq<char>, nodes: Seq<SourceNode>, name: Seq<char>, k: int) -> PlanView {
    let n = nodes[k]@;
    PlanView {
        id: seq![],
        file: path,
        rules: seq![RuleId::MergeSameNamedLayer],
        safety: Safety::Safe,
        start: n.start,
        end: n.end,
        original: s.subrange(n.start, n.end),
        proposed: seq![],
        proof: crate::model::safe_local_proof(),
        warnings: seq![],
        reason: "Remove consolidated subsequent block of @layer "@ + name + seq!['.'],
        selected: true,
    }
}

/// The removal plans for the blocks of `grp` from position `k` on (the first stays).
pub open spec fn layer_removals(path: Seq<char>, s: Seq<char>, nodes: Seq<SourceNode>, name: Seq<char>, grp: Seq<usize>, k: int) -> Seq<
    PlanView,
>
    decreases k,
{
    if k <= 1 {
        seq![]
    } else {
        layer_removals(path, s, nodes, name, grp, k - 1).push(layer_removal_plan(path, s, nodes, name, grp[k - 1] as int))
    }
}

/// The plans for layer `name`: when it has two or more blocks, one that consolidates them
/// into the first (with new body `body`) and one that removes each later block.
pub open spec fn layer_name_plans(path: Seq<char>, s: Seq<char>, nodes: Seq<SourceNode>, name: Seq<char>, body: Seq<char>) -> Seq<
    PlanView,
> {
    let grp = layer_group(s, nodes, name, nodes.len() as int);
    if grp.len() > 1 {
        seq![layer_first_plan(path, s, nodes, name, grp, body)] + layer_removals(path, s, nodes, name, grp, grp.len() as int)
    } else {
        seq![]
    }
}

/// The plans for the first `k` layer names of `names`, the `g`-th consolidated body being
/// `bodies[g]`.
pub open spec fn layer_plans(path: Seq<char>, s: Seq<char>, nodes: Seq<SourceNode>, names: Seq<Seq<char>>, k: int, bodies: Seq<
    Seq<char>,
>) -> Seq<PlanView>
    decreases k,
{
    if k <= 0 {
        seq![]
    } else {
        layer_plans(path, s, nodes, names, k - 1, bodies) + layer_name_plans(path, s, nodes, names[k - 1], bodies[k - 1])
    }
}

fn layer_name(s: &[char], n: &SourceNode) -> (r: Option<Vec<char>>)
    requires
        node_wf(s@, n@, 0, s@.len() as int),
    ensures
        match r {
            Some(v) => layer_name_spec(s@, *n) == Some(v@) && n.body_range is Some,
            None => layer_name_spec(s@, *n) is None,
        },
{
    if !at_block_named(n, "layer") {
        return None;
    }
    let pre = prelude_chars(s, n);
    let at = lit("@layer");
    proof {
        assert(pre@.subrange(0, pre@.len() as int) =~= pre@);
    }
    if !crate::text::starts_with_at(pre.as_slice(), 0, pre.len(), at.as_slice()) {
        return None;
    }
    let (x, y) = trim_bounds(pre.as_slice(), at.len(), pre.len());
    proof {
        assert(pre@.subrange(at@.len() as int, pre@.len() as int) =~= pre@.skip("@layer"@.len() as int));
    }
    let name = crate::selector::copy_range(pre.as_slice(), x, y);
    let brace = ['{'];
    assert(brace@ =~= seq!['{']);
    proof {
        assert(name@.subrange(0, name@.len() as int) =~= name@);
    }
    if name.len() == 0 || crate::text::contains_in(name.as_slice(), 0, name.len(), &brace) {
        return None;
    }
    Some(name)
}

/// The plans of `ps` whose span lies inside `[x, y)`, in order, with their spans moved to count
/// from `x`.
pub open spec fn localized(ps: Seq<PlanView>, x: int, y: int) -> Seq<PlanView>
    decreases ps.len(),
{
    if ps.len() == 0 {
        seq![]
    } else {
        let rest = localized(ps.drop_last(), x, y);
        let p = ps.last();
        if p.start >= x && p.end <= y && p.start <= p.end {
            rest.push(PlanView { start: p.start - x, end: p.end - x, ..p })
        } else {
            rest
        }
    }
}

fn localize(plans: &Vec<PlanEntry>, x: usize, y: usize) -> (r: Vec<PlanEntry>)
    ensures
        plans_view(r@) == localized(plans_view(plans@), x as int, y as int),
{
    let mut out: Vec<PlanEntry> = Vec::new();
    let mut k: usize = 0;
    proof {
        assert(plans_view(out@) =~= localized(plans_view(plans@).take(0), x as int, y as int));
    }
    while k < plans.len()
        invariant
            k <= plans@.len(),
            plans_view(out@) == localized(plans_view(plans@).take(k as int), x as int, y as int),
        decreases plans.len() - k,
    {
        let p = &plans[k];
        let ghost before = out@;
        proof {
            assert(plans_view(plans@).take(k + 1).drop_last() =~= plans_view(plans@).take(k as int));
            assert(plans_view(plans@).take(k + 1).last() == p@);
        }
        if p.source_range.start >= x && p.source_range.end <= y && p.source_range.start <= p.source_range.end {
            let mut lp = p.clone();
            lp.source_range = SourceRange { start: p.source_range.start - x, end: p.source_range.end - x };
            out.push(lp);
            proof {
                assert(lp@ == PlanView { start: p@.start - x, end: p@.end - x, ..p@ });
                assert(plans_view(out@) =~= plans_view(before).push(lp@));
            }
        }
        k = k + 1;
    }
    proof {
        assert(plans_view(plans@).take(plans@.len() as int) =~= plans_view(plans@));
    }
    out
}

/// The distinct layer names of the nodes, in order of first appearance.
fn collect_layer_names(s: &[char], nodes: &[SourceNode]) -> (r: Vec<Vec<char>>)
    requires
        nodes_ok(s@, nodes@),
    ensures
        crate::text::texts(r@) == layer_names(s@, nodes@, nodes@.len() as int),
{
    let mut names: Vec<Vec<char>> = Vec::new();
    proof {
        assert(crate::text::texts(names@) =~= seq![]);
    }
    let mut i: usize = 0;
    while i < nodes.len()
        invariant
            i <= nodes@.len(),
            nodes_ok(s@, nodes@),
            crate::text::texts(names@) == layer_names(s@, nodes@, i as int),
        decreases nodes.len() - i,
    {
        let n = &nodes[i];
        assert(node_wf(s@, n@, 0, s@.len() as int));
        if let Some(name) = layer_name(s, n) {
            if !contains_vec(&names, name.as_slice()) {
                let ghost before = names@;
                names.push(name);
                proof {
                    assert(crate::text::texts(names@) =~= crate::text::texts(before).push(name@));
                }
            }
        }
        i = i + 1;
    }
    names
}

/// The positions of the blocks of layer `name`, in order.
fn collect_layer_group(s: &[char], nodes: &[SourceNode], name: &[char]) -> (r: Vec<usize>)
    requires
        nodes_ok(s@, nodes@),
    ensures
        r@ == layer_group(s@, nodes@, name@, nodes@.len() as int),
        forall|q: int| 0 <= q < r@.len() ==> #[trigger] r@[q] < nodes@.len(),
        forall|q: int| 0 <= q < r@.len() ==> (#[trigger] nodes@[r@[q] as int]).body_range is Some,
{
    let mut grp: Vec<usize> = Vec::new();
    let mut j: usize = 0;
    while j < nodes.len()
        invariant
            j <= nodes@.len(),
            nodes_ok(s@, nodes@),
            grp@ == layer_group(s@, nodes@, name@, j as int),
            forall|q: int| 0 <= q < grp@.len() ==> #[trigger] grp@[q] < j,
            forall|q: int| 0 <= q < grp@.len() ==> (#[trigger] nodes@[grp@[q] as int]).body_range is Some,
        decreases nodes.len() - j,
    {
        let n = &nodes[j];
        assert(node_wf(s@, n@, 0, s@.len() as int));
        match layer_name(s, n) {
            Some(nm) => {
                if chars_eq(nm.as_slice(), name) {
                    grp.push(j);
                }
            },
            None => {},
        }
        j = j + 1;
    }
    grp
}

/// `ps` is what the planner gives for the contents of block `n` of `s`: the plans for the items
/// scanned inside its body.
pub open spec fn block_planned(path: Seq<char>, s: Seq<char>, n: SourceNode, enabled: Seq<RuleId>, ps: Seq<PlanView>) -> bool
    decreases n.end - n.start, 1int,
{
    match n.body_range {
        Some(br) => n.start < br.start <= br.end < n.end && exists|ns: Seq<SourceNode>|
            #[trigger] crate::scanner::nodes_view(ns) == crate::scanner::scan(s, br.start as int, br.end as int) && nodes_ok(
                s,
                ns,
            ) && nodes_within(ns, br.start as int, br.end as int) && planned(path, s, ns, enabled, ps),
        None => false,
    }
}

/// How far the nodes reach, from the start of the first to the end of the last.
pub open spec fn nodes_span(nodes: Seq<SourceNode>) -> int {
    if nodes.len() == 0 {
        0
    } else {
        nodes[nodes.len() - 1].end - nodes[0].start
    }
}

/// The body of block `n` with the safe plans of `ps` for its contents applied (the plain body
/// where there are none), re-indented under `nested`. Plans that ask for review are left out:
/// the consolidated block is itself a safe plan.
pub open spec fn layer_block_text(s: Seq<char>, n: SourceNode, nested: Seq<char>, ps: Seq<PlanView>) -> Seq<char> {
    match n.body_range {
        Some(br) => {
            let body = s.subrange(br.start as int, br.end as int);
            if ps.len() == 0 {
                crate::text::reindent(body, nested)
            } else {
                crate::text::reindent(crate::plan::applied(body, localized(ps, br.start as int, br.end as int), false), nested)
            }
        },
        None => seq![],
    }
}

/// The texts of the first `pss.len()` blocks of `blocks`, block `k` with the plans `pss[k]`,
/// one after another.
pub open spec fn layer_body_text(s: Seq<char>, nodes: Seq<SourceNode>, blocks: Seq<usize>, nested: Seq<char>, pss: Seq<Seq<PlanView>>) -> Seq<char>
    decreases pss.len(),
{
    if pss.len() == 0 {
        seq![]
    } else {
        layer_body_text(s, nodes, blocks, nested, pss.drop_last()) + layer_block_text(
            s,
            nodes[blocks[pss.len() - 1] as int],
            nested,
            pss.last(),
        )
    }
}

/// `v` is the consolidated body of the blocks `blocks`: each block's body with the safe plans
/// that the planner gives for its contents applied, re-indented under `nested`, in order.
pub open spec fn is_layer_body(path: Seq<char>, s: Seq<char>, nodes: Seq<SourceNode>, blocks: Seq<usize>, nested: Seq<char>, enabled: Seq<RuleId>, v: Seq<char>) -> bool
    decreases nodes_span(nodes), 2int,
{
    nodes_ok(s, nodes) && exists|pss: Seq<Seq<PlanView>>|
        pss.len() == blocks.len() && (forall|q: int|
            0 <= q < blocks.len() ==> blocks[q] < nodes.len() && block_planned(path, s, nodes[blocks[q] as int], enabled, #[trigger] pss[q]))
            && v == #[trigger] layer_body_text(s, nodes, blocks, nested, pss)
}

/// The consolidated body of the blocks `blocks` of one layer: the body of each, with the safe
/// plans found for its contents applied, re-indented under `nested`.
#[verifier::rlimit(40)]
fn consolidated_layer_body(path: &str, s: &[char], nodes: &[SourceNode], a: usize, b: usize, blocks: &Vec<usize>, nested: &[char], enabled: &[RuleId]) -> (r: Vec<char>)
    requires
        a <= b <= s@.len(),
        nodes_ok(s@, nodes@),
        nodes_within(nodes@, a as int, b as int),
        forall|q: int| 0 <= q < blocks@.len() ==> #[trigger] blocks@[q] < nodes@.len(),
        forall|q: int| 0 <= q < blocks@.len() ==> (#[trigger] nodes@[blocks@[q] as int]).body_range is Some,
    ensures
        is_layer_body(path@, s@, nodes@, blocks@, nested@, enabled@, r@),
    decreases b - a, 0int,
{
    let mut merged: Vec<char> = Vec::new();
    let ghost pss: Seq<Seq<PlanView>> = seq![];
    let mut k: usize = 0;
    while k < blocks.len()
        invariant
            k <= blocks@.len(),
            a <= b <= s@.len(),
            nodes_ok(s@, nodes@),
            nodes_within(nodes@, a as int, b as int),
            forall|q: int| 0 <= q < blocks@.len() ==> #[trigger] blocks@[q] < nodes@.len(),
            forall|q: int| 0 <= q < blocks@.len() ==> (#[trigger] nodes@[blocks@[q] as int]).body_range is Some,
            pss.len() == k,
            forall|q: int| 0 <= q < k ==> block_planned(path@, s@, nodes@[blocks@[q] as int], enabled@, #[trigger] pss[q]),
            merged@ == layer_body_text(s@, nodes@, blocks@, nested@, pss),
        decreases blocks.len() - k,
    {
        assert(blocks@[k as int] < nodes@.len());
        let c = &nodes[blocks[k]];
        assert(node_wf(s@, c@, 0, s@.len() as int));
        assert(nodes@[blocks@[k as int] as int].body_range is Some);
        let (x, y) = body_of(s, c);
        assert(a <= c.start && c.end <= b);
        let inner_nodes = scan_in(s, x, y);
        let inner_plans = build_plans_recursive(path, s, &inner_nodes, x, y, enabled);
        let ghost ps = plans_view(inner_plans@);
        let ghost before = merged@;
        if inner_plans.len() == 0 {
            push_reindented(&mut merged, s, x, y, nested);
        } else {
            let local = localize(&inner_plans, x, y);
            let text = crate::text::string_of_range(s, x, y);
            match apply_selected_plans(text.as_str(), local.as_slice(), false) {
                Ok(t) => {
                    let tv = chars_of(t.as_str());
                    push_reindented(&mut merged, tv.as_slice(), 0, tv.len(), nested);
                    proof {
                        assert(tv@.subrange(0, tv@.len() as int) =~= tv@);
                    }
                },
                Err(_) => {
                    push_reindented(&mut merged, s, x, y, nested);
                },
            }
        }
        proof {
            assert(block_planned(path@, s@, *c, enabled@, ps)) by {
                reveal_with_fuel(block_planned, 2);
                assert(c.start < x <= y < c.end);
                assert(crate::scanner::nodes_view(inner_nodes@) == crate::scanner::scan(s@, x as int, y as int));
                assert(nodes_within(inner_nodes@, x as int, y as int));
                assert(nodes_ok(s@, inner_nodes@));
                assert(planned(path@, s@, inner_nodes@, enabled@, ps));
            }
            let ghost npss = pss.push(ps);
            assert(npss.drop_last() =~= pss);
            assert(merged@ == before + layer_block_text(s@, *c, nested@, ps));
            assert(merged@ == layer_body_text(s@, nodes@, blocks@, nested@, npss));
            assert forall|q: int| 0 <= q < k + 1 implies block_planned(path@, s@, nodes@[blocks@[q] as int], enabled@, #[trigger] npss[q]) by {
                if q < k {
                    assert(npss[q] == pss[q]);
                    assert(block_planned(path@, s@, nodes@[blocks@[q] as int], enabled@, pss[q]));
                }
            }
            pss = npss;
        }
        k = k + 1;
    }
    proof {
        assert(is_layer_body(path@, s@, nodes@, blocks@, nested@, enabled@, merged@)) by {
            assert(pss.len() == blocks@.len());
            assert forall|q: int| 0 <= q < blocks@.len() implies blocks@[q] < nodes@.len() && block_planned(
                path@,
                s@,
                nodes@[blocks@[q] as int],
                enabled@,
                #[trigger] pss[q],
            ) by {
                assert(block_planned(path@, s@, nodes@[blocks@[q] as int], enabled@, pss[q]));
            }
            assert(merged@ == layer_body_text(s@, nodes@, blocks@, nested@, pss));
        }
    }
    merged
}

/// The plan that consolidates the blocks of layer `name` into the first.
fn layer_first_plan_exec(path: &str, s: &[char], nodes: &[SourceNode], name: &[char], blocks: &Vec<usize>, merged: Vec<char>) -> (p: PlanEntry)
    requires
        nodes_ok(s@, nodes@),
        blocks@.len() > 0,
        forall|q: int| 0 <= q < blocks@.len() ==> #[trigger] blocks@[q] < nodes@.len(),
    ensures
        p@ == layer_first_plan(path@, s@, nodes@, name@, blocks@, merged@),
        plan_ok(s@, path@, p@),
{
    let first = &nodes[blocks[0]];
    assert(node_wf(s@, first@, 0, s@.len() as int));
    let indent = line_indent(s, first.start);
    let mut proposed = concat(indent.as_slice(), lit("@layer ").as_slice());
    proposed.extend_from_slice(name);
    push_str(&mut proposed, " {\n");
    proposed.extend_from_slice(merged.as_slice());
    proposed.extend_from_slice(indent.as_slice());
    proposed.push('}');
    let mut reason = lit("Consolidate ");
    reason.extend_from_slice(decimal_exec(blocks.len()).as_slice());
    push_str(&mut reason, " separated blocks of @layer ");
    reason.extend_from_slice(name);
    push_str(&mut reason, " into first occurrence.");
    let p = make_plan(
        path,
        s,
        first.start,
        first.end,
        one_rule(RuleId::MergeSameNamedLayer),
        Safety::Safe,
        proposed,
        Proof::safe_local(),
        Vec::new(),
        reason,
    );
    proof {
        assert(p@.warnings =~= seq![]);
        assert(p@.proposed =~= layer_first_plan(path@, s@, nodes@, name@, blocks@, merged@).proposed);
        assert(p@.reason =~= layer_first_plan(path@, s@, nodes@, name@, blocks@, merged@).reason);
    }
    p
}

/// The plan that removes the later block at position `k` of layer `name`.
fn layer_removal_plan_exec(path: &str, s: &[char], nodes: &[SourceNode], name: &[char], k: usize) -> (p: PlanEntry)
    requires
        nodes_ok(s@, nodes@),
        k < nodes@.len(),
    ensures
        p@ == layer_removal_plan(path@, s@, nodes@, name@, k as int),
        plan_ok(s@, path@, p@),
{
    let sub = &nodes[k];
    assert(node_wf(s@, sub@, 0, s@.len() as int));
    let mut reason = lit("Remove consolidated subsequent block of @layer ");
    reason.extend_from_slice(name);
    reason.push('.');
    let p = make_plan(
        path,
        s,
        sub.start,
        sub.end,
        one_rule(RuleId::MergeSameNamedLayer),
        Safety::Safe,
        Vec::new(),
        Proof::safe_local(),
        Vec::new(),
        reason,
    );
    proof {
        assert(p@.warnings =~= seq![]);
        assert(p@.proposed =~= seq![]);
        assert(p@.reason =~= layer_removal_plan(path@, s@, nodes@, name@, k as int).reason);
    }
    p
}

/// The indentation of the consolidated body of the blocks `grp`: the first block's line
/// indentation and its body's indent unit (two spaces where it has none).
pub open spec fn layer_nested(s: Seq<char>, nodes: Seq<SourceNode>, grp: Seq<usize>) -> Seq<char> {
    let f = nodes[grp[0] as int]@;
    crate::layout::line_indent_spec(s, f.start) + body_unit(s, f, "  "@)
}

/// `body` is the consolidated body of layer `name`, where it is declared more than once.
pub open spec fn layer_body_holds(path: Seq<char>, s: Seq<char>, nodes: Seq<SourceNode>, enabled: Seq<RuleId>, name: Seq<char>, body: Seq<
    char,
>) -> bool
    decreases nodes_span(nodes), 3int,
{
    let grp = layer_group(s, nodes, name, nodes.len() as int);
    grp.len() > 1 ==> is_layer_body(path, s, nodes, grp, layer_nested(s, nodes, grp), enabled, body)
}

/// Each of `bodies` is the consolidated body of the layer name at its position in `names`.
pub open spec fn layer_bodies_ok(path: Seq<char>, s: Seq<char>, nodes: Seq<SourceNode>, enabled: Seq<RuleId>, names: Seq<Seq<char>>, bodies: Seq<
    Seq<char>,
>) -> bool
    decreases nodes_span(nodes), 4int,
{
    &&& bodies.len() == names.len()
    &&& forall|g: int| 0 <= g < names.len() ==> layer_body_holds(path, s, nodes, enabled, names[g], #[trigger] bodies[g])
}

/// Consolidates the blocks of each cascade layer declared more than once into its first
/// block, with the safe plans for each block's contents applied, and removes the later blocks.
#[verifier::rlimit(40)]
pub(crate) fn plan_merge_same_named_layers(
    path: &str,
    s: &[char],
    nodes: &[SourceNode],
    a: usize,
    b: usize,
    enabled: &[RuleId],
    plans: &mut Vec<PlanEntry>,
)
    requires
        a <= b <= s@.len(),
        nodes_ok(s@, nodes@),
        nodes_within(nodes@, a as int, b as int),
        plans_ok(s@, path@, old(plans)@),
    ensures
        plans_ok(s@, path@, final(plans)@),
        grows(old(plans)@, final(plans)@),
        added_as(old(plans)@, final(plans)@, seq![RuleId::MergeSameNamedLayer], Safety::Safe),
        !enabled@.contains(RuleId::MergeSameNamedLayer) ==> final(plans)@ == old(plans)@,
        enabled@.contains(RuleId::MergeSameNamedLayer) ==> exists|bodies: Seq<Seq<char>>|
            plans_view(final(plans)@) == plans_view(old(plans)@) + #[trigger] layer_plans(
                path@,
                s@,
                nodes@,
                layer_names(s@, nodes@, nodes@.len() as int),
                layer_names(s@, nodes@, nodes@.len() as int).len() as int,
                bodies,
            ) && layer_bodies_ok(path@, s@, nodes@, enabled@, layer_names(s@, nodes@, nodes@.len() as int), bodies),
    decreases b - a, 1int,
{
    if !rule_enabled(enabled, RuleId::MergeSameNamedLayer) {
        return;
    }
    let ghost start_plans = plans@;
    let names = collect_layer_names(s, nodes);
    let ghost nv = crate::text::texts(names@);
    let ghost bodies: Seq<Seq<char>> = seq![];
    let mut g: usize = 0;
    while g < names.len()
        invariant
            g <= names@.len(),
            nv == crate::text::texts(names@),
            bodies.len() == g,
            a <= b <= s@.len(),
            nodes_ok(s@, nodes@),
            nodes_within(nodes@, a as int, b as int),
            plans_ok(s@, path@, plans@),
            grows(start_plans, plans@),
            added_as(start_plans, plans@, seq![RuleId::MergeSameNamedLayer], Safety::Safe),
            plans_view(plans@) == plans_view(start_plans) + layer_plans(path@, s@, nodes@, nv, g as int, bodies),
            forall|q: int| 0 <= q < g ==> #[trigger] layer_body_holds(path@, s@, nodes@, enabled@, nv[q], bodies[q]),
        decreases names.len() - g,
    {
        let name = &names[g];
        assert(nv[g as int] == name@);
        let blocks = collect_layer_group(s, nodes, name.as_slice());
        let ghost before = plans_view(plans@);
        proof {
            assert(layer_plans(path@, s@, nodes@, nv, g as int, bodies.push(seq![])) =~= layer_plans(path@, s@, nodes@, nv, g as int, bodies)) by {
                lemma_layer_plans_prefix(path@, s@, nodes@, nv, g as int, bodies, bodies.push(seq![]));
            }
        }
        if blocks.len() > 1 {
            let first = &nodes[blocks[0]];
            assert(node_wf(s@, first@, 0, s@.len() as int));
            assert(nodes@[blocks@[0] as int].body_range is Some);
            let indent = line_indent(s, first.start);
            let (fx, fy) = body_of(s, first);
            let unit = unit_or(s, fx, fy, "  ");
            let nested = concat(indent.as_slice(), unit.as_slice());
            let merged = consolidated_layer_body(path, s, nodes, a, b, &blocks, nested.as_slice(), enabled);
            let ghost mv = merged@;
            proof {
                assert(nested@ == layer_nested(s@, nodes@, blocks@));
                assert(layer_body_holds(path@, s@, nodes@, enabled@, nv[g as int], mv));
            }
            let p = layer_first_plan_exec(path, s, nodes, name.as_slice(), &blocks, merged);
            proof {
                lemma_push_plan(s@, path@, start_plans, plans@, p);
                assert forall|q: int| start_plans.len() <= q < plans@.push(p).len() implies (#[trigger] plans@.push(p)[q])@.rules
                    == seq![RuleId::MergeSameNamedLayer] && plans@.push(p)[q]@.safety == Safety::Safe by {
                    if q < plans@.len() {
                        assert(plans@.push(p)[q] == plans@[q]);
                    }
                }
                assert(plans_view(plans@.push(p)) =~= before.push(p@));
            }
            plans.push(p);
            let mut k: usize = 1;
            while k < blocks.len()
                invariant
                    1 <= k <= blocks@.len(),
                    nodes_ok(s@, nodes@),
                    forall|q: int| 0 <= q < blocks@.len() ==> #[trigger] blocks@[q] < nodes@.len(),
                    plans_ok(s@, path@, plans@),
                    grows(start_plans, plans@),
                    added_as(start_plans, plans@, seq![RuleId::MergeSameNamedLayer], Safety::Safe),
                    plans_view(plans@) == before.push(layer_first_plan(path@, s@, nodes@, name@, blocks@, mv)) + layer_removals(
                        path@,
                        s@,
                        nodes@,
                        name@,
                        blocks@,
                        k as int,
                    ),
                decreases blocks.len() - k,
            {
                let p = layer_removal_plan_exec(path, s, nodes, name.as_slice(), blocks[k]);
                proof {
                    lemma_push_plan(s@, path@, start_plans, plans@, p);
                    assert forall|q: int| start_plans.len() <= q < plans@.push(p).len() implies (#[trigger] plans@.push(p)[q])@.rules
                        == seq![RuleId::MergeSameNamedLayer] && plans@.push(p)[q]@.safety == Safety::Safe by {
                        if q < plans@.len() {
                            assert(plans@.push(p)[q] == plans@[q]);
                        }
                    }
                    assert(plans_view(plans@.push(p)) =~= plans_view(plans@).push(p@));
                }
                plans.push(p);
                k = k + 1;
            }
            proof {
                lemma_layer_plans_prefix(path@, s@, nodes@, nv, g as int, bodies, bodies.push(mv));
                let ghost old_bodies = bodies;
                bodies = bodies.push(mv);
                assert(plans_view(plans@) =~= plans_view(start_plans) + layer_plans(path@, s@, nodes@, nv, g + 1, bodies));
                assert forall|q: int| 0 <= q < g + 1 implies #[trigger] layer_body_holds(path@, s@, nodes@, enabled@, nv[q], bodies[q]) by {
                    if q < g {
                        assert(bodies[q] == old_bodies[q]);
                    }
                }
            }
        } else {
            proof {
                let ghost old_bodies = bodies;
                bodies = bodies.push(seq![]);
                assert(plans_view(plans@) =~= plans_view(start_plans) + layer_plans(path@, s@, nodes@, nv, g + 1, bodies));
                assert forall|q: int| 0 <= q < g + 1 implies #[trigger] layer_body_holds(path@, s@, nodes@, enabled@, nv[q], bodies[q]) by {
                    if q < g {
                        assert(bodies[q] == old_bodies[q]);
                    }
                }
            }
        }
        g = g + 1;
    }
    proof {
        assert(plans_view(plans@) == plans_view(start_plans) + layer_plans(path@, s@, nodes@, nv, nv.len() as int, bodies));
        assert(nv.len() == names@.len());
        assert(bodies.len() == nv.len());
        assert forall|q: int| 0 <= q < nv.len() implies layer_body_holds(path@, s@, nodes@, enabled@, nv[q], #[trigger] bodies[q]) by {
            assert(layer_body_holds(path@, s@, nodes@, enabled@, nv[q], bodies[q]));
        }
        assert(layer_bodies_ok(path@, s@, nodes@, enabled@, nv, bodies));
    }
}

/// The plans for the first `k` layer names do not depend on the bodies given for later ones.
proof fn lemma_layer_plans_prefix(
    path: Seq<char>,
    s: Seq<char>,
    nodes: Seq<SourceNode>,
    names: Seq<Seq<char>>,
    k: int,
    b1: Seq<Seq<char>>,
    b2: Seq<Seq<char>>,
)
    requires
        0 <= k <= b1.len(),
        k <= b2.len(),
        forall|q: int| 0 <= q < k ==> b1[q] == b2[q],
    ensures
        layer_plans(path, s, nodes, names, k, b1) == layer_plans(path, s, nodes, names, k, b2),
    decreases k,
{
    if k > 0 {
        lemma_layer_plans_prefix(path, s, nodes, names, k - 1, b1, b2);
    }
}

/// Node `n` is an `@layer`, `@scope`, `@media`, `@supports` or `@container` block: one whose
/// contents are planned on their own when no plan covers the block itself.
pub open spec fn transparent_block(n: SourceNode) -> bool {
    &&& n.body_range is Some
    &&& at_name(n) matches Some(name) && (name == "layer"@ || name == "scope"@ || name == "media"@ || name == "supports"@
        || name == "container"@)
}

/// The plans `build_plans` gives with the layer plans `layers`: those, then the builders over
/// runs of adjacent rules, then the node-by-node pass.
pub open spec fn top_plans(path: Seq<char>, s: Seq<char>, nodes: Seq<SourceNode>, enabled: Seq<RuleId>, layers: Seq<PlanView>) -> Seq<
    PlanView,
> {
    layers + run_builder_plans(path, s, nodes, enabled) + node_pass(path, s, nodes, enabled, 0)
}

/// The related-rule gathers of `nodes`, one group of plans per base: the plan that gathers the
/// rules into the first and those that remove the others (none where the base gathers nothing).
pub open spec fn gather_groups(path: Seq<char>, s: Seq<char>, nodes: Seq<SourceNode>, enabled: Seq<RuleId>) -> Seq<Seq<PlanView>> {
    if enabled.contains(RuleId::GatherRelatedSelectorRules) {
        let bs = gather_bases(s, nodes, nodes.len() as int);
        Seq::new(bs.len(), |g: int| base_gather_plans(path, s, nodes, bs[g]))
    } else {
        seq![]
    }
}

pub open spec fn groups_view(gs: Seq<Vec<PlanEntry>>) -> Seq<Seq<PlanView>> {
    gs.map_values(|v: Vec<PlanEntry>| plans_view(v@))
}

/// `p` and `q` span the same text for the same reason.
pub open spec fn same_key(p: PlanView, q: PlanView) -> bool {
    p.start == q.start && p.end == q.end && p.reason == q.reason
}

/// Some plan of `ks` has the key of `q`.
pub open spec fn has_key(ks: Seq<PlanView>, q: PlanView) -> bool {
    exists|i: int| 0 <= i < ks.len() && #[trigger] same_key(ks[i], q)
}

/// Every plan of the group `grp` is among `ks`.
pub open spec fn group_kept(ks: Seq<PlanView>, grp: Seq<PlanView>) -> bool {
    forall|j: int| 0 <= j < grp.len() ==> #[trigger] has_key(ks, grp[j])
}

/// `p` belongs to a group of which some plan is not among `ks`.
pub open spec fn orphaned(ks: Seq<PlanView>, groups: Seq<Seq<PlanView>>, p: PlanView) -> bool {
    exists|g: int, j: int|
        0 <= g < groups.len() && 0 <= j < groups[g].len() && #[trigger] same_key(p, groups[g][j]) && !group_kept(ks, groups[g])
}

/// The first `n` plans of `ks` without those whose group was not kept whole.
pub open spec fn whole_groups(ks: Seq<PlanView>, groups: Seq<Seq<PlanView>>, n: int) -> Seq<PlanView>
    decreases n,
{
    if n <= 0 {
        seq![]
    } else if orphaned(ks, groups, ks[n - 1]) {
        whole_groups(ks, groups, n - 1)
    } else {
        whole_groups(ks, groups, n - 1).push(ks[n - 1])
    }
}

/// The plans `ks`, where a plan of a gather is kept only with every other plan of its gather:
/// no rule is removed without the plan that takes in its declarations.
pub open spec fn atomic_gathers(ks: Seq<PlanView>, groups: Seq<Seq<PlanView>>) -> Seq<PlanView> {
    whole_groups(ks, groups, ks.len() as int)
}

proof fn lemma_whole_groups(ks: Seq<PlanView>, groups: Seq<Seq<PlanView>>, n: int)
    requires
        0 <= n <= ks.len(),
    ensures
        forall|i: int| 0 <= i < whole_groups(ks, groups, n).len() ==> !orphaned(ks, groups, #[trigger] whole_groups(ks, groups, n)[i]),
    decreases n,
{
    if n > 0 {
        lemma_whole_groups(ks, groups, n - 1);
        let w = whole_groups(ks, groups, n - 1);
        if !orphaned(ks, groups, ks[n - 1]) {
            assert forall|i: int| 0 <= i < w.push(ks[n - 1]).len() implies !orphaned(ks, groups, #[trigger] w.push(ks[n - 1])[i]) by {
                if i < w.len() {
                    assert(w.push(ks[n - 1])[i] == w[i]);
                }
            }
        }
    }
}

/// Law (no orphaned removals): a plan kept that belongs to a related-rule gather comes with
/// every plan of that gather among the ordered plans it was picked from; in particular no
/// rule is removed by a gather whose plan taking in its declarations was dropped.
pub proof fn law_gathers_kept_whole(ks: Seq<PlanView>, groups: Seq<Seq<PlanView>>)
    ensures
        forall|i: int, g: int, j: int|
            0 <= i < atomic_gathers(ks, groups).len() && 0 <= g < groups.len() && 0 <= j < groups[g].len() && same_key(
                #[trigger] atomic_gathers(ks, groups)[i],
                #[trigger] groups[g][j],
            ) ==> group_kept(ks, groups[g]),
{
    lemma_whole_groups(ks, groups, ks.len() as int);
    assert forall|i: int, g: int, j: int|
        0 <= i < atomic_gathers(ks, groups).len() && 0 <= g < groups.len() && 0 <= j < groups[g].len() && same_key(
            #[trigger] atomic_gathers(ks, groups)[i],
            #[trigger] groups[g][j],
        ) implies group_kept(ks, groups[g]) by {
        assert(!orphaned(ks, groups, atomic_gathers(ks, groups)[i]));
    }
}

fn same_key_exec(p: &PlanEntry, q: &PlanEntry) -> (r: bool)
    ensures
        r == same_key(p@, q@),
{
    if p.source_range.start != q.source_range.start || p.source_range.end != q.source_range.end {
        return false;
    }
    let a = chars_of(p.reason.as_str());
    let b = chars_of(q.reason.as_str());
    chars_eq(a.as_slice(), b.as_slice())
}

fn has_key_exec(ks: &Vec<PlanEntry>, q: &PlanEntry) -> (r: bool)
    ensures
        r == has_key(plans_view(ks@), q@),
{
    let ghost kv = plans_view(ks@);
    let mut i: usize = 0;
    while i < ks.len()
        invariant
            i <= ks@.len(),
            kv == plans_view(ks@),
            forall|w: int| 0 <= w < i ==> !#[trigger] same_key(kv[w], q@),
        decreases ks.len() - i,
    {
        if same_key_exec(&ks[i], q) {
            assert(same_key(kv[i as int], q@));
            return true;
        }
        i = i + 1;
    }
    false
}

fn group_kept_exec(ks: &Vec<PlanEntry>, grp: &Vec<PlanEntry>) -> (r: bool)
    ensures
        r == group_kept(plans_view(ks@), plans_view(grp@)),
{
    let ghost gv = plans_view(grp@);
    let mut j: usize = 0;
    while j < grp.len()
        invariant
            j <= grp@.len(),
            gv == plans_view(grp@),
            forall|w: int| 0 <= w < j ==> #[trigger] has_key(plans_view(ks@), gv[w]),
        decreases grp.len() - j,
    {
        if !has_key_exec(ks, &grp[j]) {
            assert(!has_key(plans_view(ks@), gv[j as int]));
            return false;
        }
        j = j + 1;
    }
    true
}

fn orphaned_exec(ks: &Vec<PlanEntry>, groups: &Vec<Vec<PlanEntry>>, p: &PlanEntry) -> (r: bool)
    ensures
        r == orphaned(plans_view(ks@), groups_view(groups@), p@),
{
    let ghost kv = plans_view(ks@);
    let ghost gv = groups_view(groups@);
    let mut g: usize = 0;
    while g < groups.len()
        invariant
            g <= groups@.len(),
            kv == plans_view(ks@),
            gv == groups_view(groups@),
            forall|h: int, j: int|
                0 <= h < g && 0 <= j < gv[h].len() ==> !(#[trigger] same_key(p@, gv[h][j]) && !group_kept(kv, gv[h])),
        decreases groups.len() - g,
    {
        let grp = &groups[g];
        assert(gv[g as int] == plans_view(grp@));
        let kept = group_kept_exec(ks, grp);
        let mut j: usize = 0;
        while j < grp.len()
            invariant
                j <= grp@.len(),
                g < groups@.len(),
                grp == &groups@[g as int],
                kv == plans_view(ks@),
                gv == groups_view(groups@),
                gv[g as int] == plans_view(grp@),
                kept == group_kept(kv, gv[g as int]),
                forall|h: int, w: int|
                    0 <= h < g && 0 <= w < gv[h].len() ==> !(#[trigger] same_key(p@, gv[h][w]) && !group_kept(kv, gv[h])),
                forall|w: int| 0 <= w < j ==> !(#[trigger] same_key(p@, gv[g as int][w]) && !kept),
            decreases grp.len() - j,
        {
            if !kept && same_key_exec(p, &grp[j]) {
                assert(same_key(p@, gv[g as int][j as int]));
                return true;
            }
            j = j + 1;
        }
        g = g + 1;
    }
    false
}

/// The related-rule gathers of `nodes`, one group of plans per base.
fn gather_groups_exec(path: &str, s: &[char], nodes: &[SourceNode], enabled: &[RuleId]) -> (r: Vec<Vec<PlanEntry>>)
    requires
        nodes_ok(s@, nodes@),
    ensures
        groups_view(r@) == gather_groups(path@, s@, nodes@, enabled@),
{
    let mut groups: Vec<Vec<PlanEntry>> = Vec::new();
    if !rule_enabled(enabled, RuleId::GatherRelatedSelectorRules) {
        proof {
            assert(groups_view(groups@) =~= seq![]);
        }
        return groups;
    }
    let bases = collect_gather_bases(s, nodes);
    let ghost bs = crate::text::texts(bases@);
    let mut bi: usize = 0;
    while bi < bases.len()
        invariant
            bi <= bases@.len(),
            bs == crate::text::texts(bases@),
            bs == gather_bases(s@, nodes@, nodes@.len() as int),
            nodes_ok(s@, nodes@),
            groups@.len() == bi,
            forall|g: int| 0 <= g < bi ==> #[trigger] groups_view(groups@)[g] == base_gather_plans(path@, s@, nodes@, bs[g]),
        decreases bases.len() - bi,
    {
        let base = &bases[bi];
        assert(bs[bi as int] == base@);
        let mut grp: Vec<PlanEntry> = Vec::new();
        push_base_gather(path, s, nodes, base.as_slice(), &mut grp);
        proof {
            assert(plans_view(grp@) =~= base_gather_plans(path@, s@, nodes@, base@));
        }
        let ghost before = groups@;
        groups.push(grp);
        proof {
            assert forall|g: int| 0 <= g < bi + 1 implies #[trigger] groups_view(groups@)[g] == base_gather_plans(
                path@,
                s@,
                nodes@,
                bs[g],
            ) by {
                assert(groups_view(groups@)[g] == plans_view(groups@[g]@));
                if g < bi {
                    assert(groups@[g] == before[g]);
                    assert(groups_view(before)[g] == plans_view(before[g]@));
                }
            }
        }
        bi = bi + 1;
    }
    proof {
        assert(groups_view(groups@) =~= gather_groups(path@, s@, nodes@, enabled@));
    }
    groups
}

/// The plans `ks` without those of a gather that was not kept whole, in order.
fn keep_whole_groups(ks: &Vec<PlanEntry>, groups: &Vec<Vec<PlanEntry>>) -> (r: Vec<PlanEntry>)
    ensures
        plans_view(r@) == atomic_gathers(plans_view(ks@), groups_view(groups@)),
        forall|t: int| 0 <= t < r@.len() ==> exists|w: int| 0 <= w < ks@.len() && (#[trigger] r@[t])@ == ks@[w]@,
        forall|lo: int, hi: int| crate::plan::ordered(plans_view(ks@), lo, hi) ==> crate::plan::ordered(plans_view(r@), lo, hi),
{
    let ghost kv = plans_view(ks@);
    let ghost gv = groups_view(groups@);
    let mut out: Vec<PlanEntry> = Vec::new();
    let ghost mut ix: Seq<int> = seq![];
    let mut i: usize = 0;
    while i < ks.len()
        invariant
            i <= ks@.len(),
            kv == plans_view(ks@),
            gv == groups_view(groups@),
            plans_view(out@) == whole_groups(kv, gv, i as int),
            ix.len() == out@.len(),
            forall|t: int| 0 <= t < ix.len() ==> 0 <= #[trigger] ix[t] < i && out@[t]@ == kv[ix[t]],
            forall|t: int, u: int| 0 <= t < u < ix.len() ==> #[trigger] ix[t] < #[trigger] ix[u],
        decreases ks.len() - i,
    {
        let p = &ks[i];
        assert(kv[i as int] == p@);
        if !orphaned_exec(ks, groups, p) {
            let ghost before = out@;
            out.push(p.clone());
            proof {
                assert(plans_view(out@) =~= plans_view(before).push(p@));
                ix = ix.push(i as int);
            }
        }
        i = i + 1;
    }
    proof {
        assert forall|t: int| 0 <= t < out@.len() implies exists|w: int| 0 <= w < ks@.len() && (#[trigger] out@[t])@ == ks@[w]@ by {
            assert(out@[t]@ == kv[ix[t]]);
            assert(kv[ix[t]] == ks@[ix[t]]@);
        }
        assert forall|lo: int, hi: int| crate::plan::ordered(kv, lo, hi) implies crate::plan::ordered(plans_view(out@), lo, hi) by {
            let ov = plans_view(out@);
            assert forall|k: int| 0 <= k < ov.len() implies lo <= (#[trigger] ov[k]).start <= ov[k].end <= hi by {
                assert(ov[k] == out@[k]@);
                assert(ov[k] == kv[ix[k]]);
            }
            assert forall|k: int, l: int| 0 <= k < l < ov.len() implies (#[trigger] ov[k]).end <= (#[trigger] ov[l]).start by {
                assert(ov[k] == kv[ix[k]]);
                assert(ov[l] == kv[ix[l]]);
                assert(ix[k] < ix[l]);
            }
        }
    }
    out
}

/// The top plans with the plans `deeper` found inside transparent blocks, sorted by start, with
/// every plan that overlaps one kept before it dropped, and with what is left of a gather
/// that was not kept whole dropped too.
pub open spec fn kept_plans(
    path: Seq<char>,
    s: Seq<char>,
    nodes: Seq<SourceNode>,
    enabled: Seq<RuleId>,
    layers: Seq<PlanView>,
    deeper: Seq<PlanView>,
) -> Seq<PlanView> {
    atomic_gathers(
        crate::plan::greedy(crate::plan::sort_plans(top_plans(path, s, nodes, enabled, layers) + deeper), 0),
        gather_groups(path, s, nodes, enabled),
    )
}

/// Some plan of `top` spans the whole of node `n`.
pub open spec fn covered(top: Seq<PlanView>, n: SourceNode) -> bool {
    exists|k: int| 0 <= k < top.len() && (#[trigger] top[k]).start <= n.start && n.end <= top[k].end
}

/// Node `n` is a transparent block that no plan of `top` covers, with items in its body: the
/// planner looks inside it.
pub open spec fn opens(s: Seq<char>, top: Seq<PlanView>, n: SourceNode) -> bool {
    &&& transparent_block(n)
    &&& !covered(top, n)
    &&& n.body_range matches Some(br) && crate::scanner::scan(s, br.start as int, br.end as int).len() > 0
}

/// The plan lists `dss`, one after another.
pub open spec fn joined_plans(dss: Seq<Seq<PlanView>>) -> Seq<PlanView>
    decreases dss.len(),
{
    if dss.len() == 0 {
        seq![]
    } else {
        joined_plans(dss.drop_last()) + dss.last()
    }
}

/// `deeper` is what the planner finds inside the nodes it looks into (see `opens`), node after
/// node: for each, the plans for the items of its body.
pub open spec fn deeper_plans_ok(path: Seq<char>, s: Seq<char>, nodes: Seq<SourceNode>, enabled: Seq<RuleId>, top: Seq<PlanView>, deeper: Seq<
    PlanView,
>) -> bool
    decreases nodes_span(nodes), 2int,
{
    nodes_ok(s, nodes) && exists|dss: Seq<Seq<PlanView>>|
        dss.len() == nodes.len() && deeper == #[trigger] joined_plans(dss) && forall|j: int|
            0 <= j < nodes.len() ==> if opens(s, top, nodes[j]) {
                block_planned(path, s, nodes[j], enabled, #[trigger] dss[j])
            } else {
                dss[j] == Seq::<PlanView>::empty()
            }
}

/// `v` is what the planning of `nodes` gives: the top plans with the layer plans, and the plans
/// for the bodies of the transparent blocks that no top plan covers, sorted, without overlaps,
/// and with each related-rule gather kept whole or not at all.
pub open spec fn planned(path: Seq<char>, s: Seq<char>, nodes: Seq<SourceNode>, enabled: Seq<RuleId>, v: Seq<PlanView>) -> bool
    decreases nodes_span(nodes), 6int,
{
    exists|layers: Seq<PlanView>, deeper: Seq<PlanView>|
        is_layer_plans(path, s, nodes, enabled, layers) && deeper_plans_ok(
            path,
            s,
            nodes,
            enabled,
            top_plans(path, s, nodes, enabled, layers),
            deeper,
        ) && v == #[trigger] kept_plans(path, s, nodes, enabled, layers, deeper)
}

fn is_transparent(n: &SourceNode) -> (r: bool)
    ensures
        r == (at_name(*n) matches Some(name) && (name == "layer"@ || name == "scope"@ || name == "media"@ || name
            == "supports"@ || name == "container"@)),
{
    at_block_named(n, "layer") || at_block_named(n, "scope") || at_block_named(n, "media") || at_block_named(
        n,
        "supports",
    ) || at_block_named(n, "container")
}

/// The plans for the nodes of `s[a..b]`, and for the contents of the transparent blocks
/// (`@layer`, `@scope`, `@media`, `@supports`, `@container`) that no plan covers; kept in
/// order of start and without overlaps.
#[verifier::rlimit(40)]
pub(crate) fn build_plans_recursive(path: &str, s: &[char], nodes: &Vec<SourceNode>, a: usize, b: usize, enabled: &[RuleId]) -> (r:
    Vec<PlanEntry>)
    requires
        a <= b <= s@.len(),
        nodes_ok(s@, nodes@),
        nodes_within(nodes@, a as int, b as int),
    ensures
        plans_ok(s@, path@, r@),
        crate::plan::ordered(plans_view(r@), 0, s@.len() as int),
        planned(path@, s@, nodes@, enabled@, plans_view(r@)),
    decreases b - a, 4int,
{
    let mut plans = build_plans(path, s, nodes, a, b, enabled);
    let ghost layers = choose|layers: Seq<PlanView>|
        plans_view(plans@) == top_plans(path@, s@, nodes@, enabled@, layers) && #[trigger] is_layer_plans(
            path@,
            s@,
            nodes@,
            enabled@,
            layers,
        );
    let ghost top = plans_view(plans@);
    let top_len = plans.len();
    let ghost mut deeper: Seq<PlanView> = seq![];
    let ghost mut dss: Seq<Seq<PlanView>> = seq![];
    let mut i: usize = 0;
    while i < nodes.len()
        invariant
            i <= nodes@.len(),
            a <= b <= s@.len(),
            nodes_ok(s@, nodes@),
            nodes_within(nodes@, a as int, b as int),
            plans_ok(s@, path@, plans@),
            top_len == top.len(),
            plans_view(plans@) == top + deeper,
            dss.len() == i,
            deeper == joined_plans(dss),
            forall|j: int|
                0 <= j < i ==> if opens(s@, top, nodes@[j]) {
                    block_planned(path@, s@, nodes@[j], enabled@, #[trigger] dss[j])
                } else {
                    dss[j] == Seq::<PlanView>::empty()
                },
        decreases nodes.len() - i,
    {
        let node = &nodes[i];
        assert(node_wf(s@, node@, 0, s@.len() as int));
        let ghost found: Seq<PlanView> = seq![];
        if is_transparent(node) && node.body_range.is_some() {
            let mut hit = false;
            let mut k: usize = 0;
            assert(plans_view(plans@).len() == plans@.len());
            while k < top_len
                invariant
                    k <= top_len,
                    top_len == top.len(),
                    top_len <= plans@.len(),
                    plans_view(plans@) == top + deeper,
                    hit ==> covered(top, *node),
                    !hit ==> forall|w: int| 0 <= w < k ==> !((#[trigger] top[w]).start <= node.start && node.end <= top[w].end),
                decreases top_len - k,
            {
                assert(plans_view(plans@)[k as int] == plans@[k as int]@);
                assert(plans_view(plans@)[k as int] == top[k as int]);
                if !hit && plans[k].source_range.start <= node.start && node.end <= plans[k].source_range.end {
                    hit = true;
                    assert(top[k as int].start <= node.start && node.end <= top[k as int].end);
                }
                k = k + 1;
            }
            assert(hit == covered(top, *node));
            if !hit {
                let (x, y) = body_of(s, node);
                assert(a <= node.start && node.end <= b);
                let inner = scan_in(s, x, y);
                if inner.len() > 0 {
                    let mut inner_plans = build_plans_recursive(path, s, &inner, x, y, enabled);
                    let ghost before = plans@;
                    let ghost extra = inner_plans@;
                    plans.append(&mut inner_plans);
                    proof {
                        assert(plans@ =~= before + extra);
                        assert(plans_view(before + extra) =~= plans_view(before) + plans_view(extra));
                        assert(plans_view(plans@) =~= top + (deeper + plans_view(extra)));
                        deeper = deeper + plans_view(extra);
                        found = plans_view(extra);
                        assert(block_planned(path@, s@, *node, enabled@, found)) by {
                            reveal_with_fuel(block_planned, 2);
                            assert(node.start < x <= y < node.end);
                            assert(crate::scanner::nodes_view(inner@) == crate::scanner::scan(s@, x as int, y as int));
                            assert(nodes_within(inner@, x as int, y as int));
                            assert(planned(path@, s@, inner@, enabled@, found));
                        }
                        assert forall|q: int| 0 <= q < plans@.len() implies crate::planner::plan_ok(s@, path@, #[trigger] plans@[q]@) by {
                            if q < before.len() {
                                assert(plans@[q] == before[q]);
                            } else {
                                assert(plans@[q] == extra[q - before.len()]);
                            }
                        }
                    }
                } else {
                    proof {
                        assert(crate::scanner::nodes_view(inner@).len() == inner@.len());
                        assert(!opens(s@, top, *node));
                    }
                }
            }
        }
        proof {
            let ghost old_dss = dss;
            dss = dss.push(found);
            assert(dss.drop_last() =~= old_dss);
            assert(deeper =~= joined_plans(dss));
            assert forall|j: int|
                0 <= j < i + 1 implies if opens(s@, top, nodes@[j]) {
                    block_planned(path@, s@, nodes@[j], enabled@, #[trigger] dss[j])
                } else {
                    dss[j] == Seq::<PlanView>::empty()
                } by {
                if j < i {
                    assert(dss[j] == old_dss[j]);
                }
            }
        }
        i = i + 1;
    }
    proof {
        assert(deeper_plans_ok(path@, s@, nodes@, enabled@, top, deeper));
    }
    let d = order_disjoint(&plans);
    let groups = gather_groups_exec(path, s, nodes, enabled);
    let r = keep_whole_groups(&d, &groups);
    proof {
        assert(top + deeper =~= top_plans(path@, s@, nodes@, enabled@, layers) + deeper);
        assert(plans_view(r@) == kept_plans(path@, s@, nodes@, enabled@, layers, deeper));
        let pv = plans_view(plans@);
        assert forall|k: int| 0 <= k < pv.len() implies 0 <= (#[trigger] pv[k]).start <= pv[k].end <= s@.len() by {
            assert(pv[k] == plans@[k]@);
            assert(plan_ok(s@, path@, plans@[k]@));
        }
        crate::plan::law_order_disjoint(s@, pv);
        assert(plans_view(d@) == crate::plan::greedy(crate::plan::sort_plans(pv), 0));
        assert(crate::plan::ordered(plans_view(d@), 0, s@.len() as int));
        assert forall|k: int| 0 <= k < r@.len() implies plan_ok(s@, path@, #[trigger] r@[k]@) by {
            let e = choose|e: int| 0 <= e < d@.len() && r@[k]@ == d@[e]@;
            assert(plans_view(d@)[e] == d@[e]@);
            assert(pv.contains(plans_view(d@)[e]));
            let w = choose|w: int| 0 <= w < pv.len() && pv[w] == plans_view(d@)[e];
            assert(pv[w] == plans@[w]@);
            assert(plan_ok(s@, path@, plans@[w]@));
        }
    }
    r
}

fn prelude_plan(
    path: &str,
    s: &[char],
    n: &SourceNode,
    rule: RuleId,
    safety: Safety,
    proposed: &String,
    proof_v: Proof,
    warnings: Vec<String>,
    reason: &str,
) -> (p: PlanEntry)
    requires
        node_wf(s@, n@, 0, s@.len() as int),
        safety == Safety::Safe ==> proof_v == safe_local_proof(),
    ensures
        plan_ok(s@, path@, p@),
        p@.start == n.prelude_range.start,
        p@.end == n.prelude_range.end,
        p@.rules == seq![rule],
        p@.safety == safety,
        p@.proposed == proposed@,
        p@.proof == proof_v,
        p@.warnings == warnings@.map_values(|w: String| w@),
        p@.reason == reason@,
{
    let pv = chars_of(proposed.as_str());
    make_plan(
        path,
        s,
        n.prelude_range.start,
        n.prelude_range.end,
        one_rule(rule),
        safety,
        pv,
        proof_v,
        warnings,
        lit(reason),
    )
}

fn one_warning(w: &str) -> (v: Vec<String>)
    ensures
        v@.map_values(|x: String| x@) == seq![w@],
{
    let mut v: Vec<String> = Vec::new();
    v.push(String::from_str(w));
    assert(v@.map_values(|x: String| x@) =~= seq![w@]);
    v
}

/// `v` is what the layer merges give: for each layer declared more than once, the plan that
/// consolidates its blocks, with the consolidated body of `layer_bodies_ok`, and those that
/// remove its later blocks.
pub open spec fn is_layer_plans(path: Seq<char>, s: Seq<char>, nodes: Seq<SourceNode>, enabled: Seq<RuleId>, v: Seq<PlanView>) -> bool
    decreases nodes_span(nodes), 5int,
{
    if enabled.contains(RuleId::MergeSameNamedLayer) {
        exists|bodies: Seq<Seq<char>>|
            v == #[trigger] layer_plans(
                path,
                s,
                nodes,
                layer_names(s, nodes, nodes.len() as int),
                layer_names(s, nodes, nodes.len() as int).len() as int,
                bodies,
            ) && layer_bodies_ok(path, s, nodes, enabled, layer_names(s, nodes, nodes.len() as int), bodies)
    } else {
        v == Seq::<PlanView>::empty()
    }
}

/// The plans of the builders over runs of adjacent top-level items, in the order they run:
/// at-rule merges, condition gathering, selector merges, related-rule gathering, body
/// merges, `:is()` state factoring, multi-selector clusters and in-place nesting.
pub open spec fn run_builder_plans(path: Seq<char>, s: Seq<char>, nodes: Seq<SourceNode>, enabled: Seq<RuleId>) -> Seq<PlanView> {
    run_builder_plans_a(path, s, nodes, enabled) + run_builder_plans_b(path, s, nodes, enabled)
}

/// The plans of the first four builders over runs of adjacent items.
pub open spec fn run_builder_plans_a(path: Seq<char>, s: Seq<char>, nodes: Seq<SourceNode>, enabled: Seq<RuleId>) -> Seq<PlanView> {
    at_merge_plans(path, s, nodes, enabled, 0) + (if enabled.contains(RuleId::NestMedia) || enabled.contains(
        RuleId::NestSupports,
    ) {
        cond_gather_plans(
            path,
            s,
            nodes,
            enabled.contains(RuleId::NestMedia),
            enabled.contains(RuleId::NestSupports),
            0,
        )
    } else {
        seq![]
    }) + (if enabled.contains(RuleId::MergeAdjacentIdenticalSelector) {
        selector_merge_plans(path, s, nodes, 0)
    } else {
        seq![]
    }) + (if enabled.contains(RuleId::GatherRelatedSelectorRules) {
        gather_plans(path, s, nodes, gather_bases(s, nodes, nodes.len() as int), gather_bases(s, nodes, nodes.len() as int).len() as int)
    } else {
        seq![]
    })
}

/// The plans of the last four builders over runs of adjacent items.
pub open spec fn run_builder_plans_b(path: Seq<char>, s: Seq<char>, nodes: Seq<SourceNode>, enabled: Seq<RuleId>) -> Seq<PlanView> {
    (if enabled.contains(RuleId::MergeIdenticalRuleBodies) {
        body_merge_plans(path, s, nodes, 0)
    } else {
        seq![]
    }) + (if enabled.contains(RuleId::FactorIdenticalStatesWithIs) {
        state_plans(path, s, nodes, 0)
    } else {
        seq![]
    }) + (if enabled.contains(RuleId::ModernizeIs) {
        multi_plans(path, s, nodes, 0)
    } else {
        seq![]
    }) + (if enabled.contains(RuleId::NestPseudoClass) {
        target_plans(path, s, nodes, 0)
    } else {
        seq![]
    })
}

fn run_builders_a(path: &str, s: &[char], ns: &[SourceNode], enabled: &[RuleId], plans: &mut Vec<PlanEntry>)
    requires
        nodes_ok(s@, ns@),
        plans_ok(s@, path@, old(plans)@),
    ensures
        plans_ok(s@, path@, final(plans)@),
        plans_view(final(plans)@) == plans_view(old(plans)@) + run_builder_plans_a(path@, s@, ns@, enabled@),
{
    let ghost v0 = plans_view(plans@);
    plan_merge_adjacent_at_blocks(path, s, ns, enabled, plans);
    let ghost v1 = plans_view(plans@);
    plan_gather_consecutive_conditions_by_selector(path, s, ns, enabled, plans);
    let ghost v2 = plans_view(plans@);
    plan_merge_adjacent_identical_selectors(path, s, ns, enabled, plans);
    let ghost v3 = plans_view(plans@);
    plan_gather_related_selector_rules(path, s, ns, enabled, plans);
    let ghost v4 = plans_view(plans@);
    assert(v4 =~= v0 + run_builder_plans_a(path@, s@, ns@, enabled@));
}

#[verifier::spinoff_prover]
fn run_builders_b(path: &str, s: &[char], ns: &[SourceNode], enabled: &[RuleId], plans: &mut Vec<PlanEntry>)
    requires
        nodes_ok(s@, ns@),
        plans_ok(s@, path@, old(plans)@),
    ensures
        plans_ok(s@, path@, final(plans)@),
        plans_view(final(plans)@) == plans_view(old(plans)@) + run_builder_plans_b(path@, s@, ns@, enabled@),
{
    let ghost v0 = plans_view(plans@);
    plan_merge_identical_rule_bodies(path, s, ns, enabled, plans);
    let ghost v1 = plans_view(plans@);
    plan_factor_identical_states_with_is(path, s, ns, enabled, plans);
    let ghost v2 = plans_view(plans@);
    plan_factor_multi_selector_cluster_with_is(path, s, ns, enabled, plans);
    let ghost v3 = plans_view(plans@);
    plan_nest_in_place_adjacent_states(path, s, ns, enabled, plans);
    let ghost v4 = plans_view(plans@);
    assert(v4 =~= v0 + run_builder_plans_b(path@, s@, ns@, enabled@));
}

/// The plans of the layer merges, then of the builders over runs of adjacent items.
#[verifier::spinoff_prover]
#[verifier::rlimit(100)]
fn run_builders(path: &str, s: &[char], ns: &[SourceNode], a: usize, b: usize, enabled: &[RuleId]) -> (r: (
    Vec<PlanEntry>,
    Ghost<Seq<PlanView>>,
))
    requires
        a <= b <= s@.len(),
        nodes_ok(s@, ns@),
        nodes_within(ns@, a as int, b as int),
    ensures
        plans_ok(s@, path@, r.0@),
        plans_view(r.0@) == r.1@ + run_builder_plans(path@, s@, ns@, enabled@),
        is_layer_plans(path@, s@, ns@, enabled@, r.1@),
    decreases b - a, 2int,
{
    let mut plans: Vec<PlanEntry> = Vec::new();
    plan_merge_same_named_layers(path, s, ns, a, b, enabled, &mut plans);
    let ghost layers = plans_view(plans@);
    proof {
        if enabled@.contains(RuleId::MergeSameNamedLayer) {
            assert(plans_view(seq![]) =~= Seq::<PlanView>::empty());
            let bodies = choose|bodies: Seq<Seq<char>>|
                plans_view(plans@) == plans_view(seq![]) + #[trigger] layer_plans(
                    path@,
                    s@,
                    ns@,
                    layer_names(s@, ns@, ns@.len() as int),
                    layer_names(s@, ns@, ns@.len() as int).len() as int,
                    bodies,
                ) && layer_bodies_ok(path@, s@, ns@, enabled@, layer_names(s@, ns@, ns@.len() as int), bodies);
            assert(layers =~= layer_plans(
                path@,
                s@,
                ns@,
                layer_names(s@, ns@, ns@.len() as int),
                layer_names(s@, ns@, ns@.len() as int).len() as int,
                bodies,
            ));
            assert(is_layer_plans(path@, s@, ns@, enabled@, layers));
        } else {
            assert(layers =~= Seq::<PlanView>::empty());
        }
    }
    run_builders_a(path, s, ns, enabled, &mut plans);
    run_builders_b(path, s, ns, enabled, &mut plans);
    assert(plans_view(plans@) =~= layers + run_builder_plans(path@, s@, ns@, enabled@));
    (plans, Ghost(layers))
}

// ---------------------------------------------------------------------------
// The node-by-node pass of `build_plans`
// ---------------------------------------------------------------------------

/// A prelude plan for node `i`: its prelude span, rewritten to `proposed`.
#[verifier::opaque]
pub open spec fn prelude_plan_spec(
    path: Seq<char>,
    s: Seq<char>,
    nodes: Seq<SourceNode>,
    i: int,
    rule: RuleId,
    safety: Safety,
    proposed: Seq<char>,
    proof: Proof,
    warnings: Seq<Seq<char>>,
    reason: Seq<char>,
) -> PlanView {
    let n = nodes[i]@;
    PlanView {
        id: seq![],
        file: path,
        rules: seq![rule],
        safety,
        start: n.prelude_start,
        end: n.prelude_end,
        original: s.subrange(n.prelude_start, n.prelude_end),
        proposed,
        proof,
        warnings,
        reason,
        selected: true,
    }
}

/// The proof of a local rewrite whose specificity is kept only when `same`.
pub open spec fn proof_with_specificity(same: bool) -> Proof {
    Proof { specificity_equivalent: same, ..crate::model::safe_local_proof() }
}

/// Node `i` is an `@media` or `@container` block whose prelude has legacy range features.
pub open spec fn wants_media_plan(s: Seq<char>, nodes: Seq<SourceNode>, enabled: Seq<RuleId>, i: int) -> bool {
    &&& enabled.contains(RuleId::ModernizeMediaRange)
    &&& (at_name(nodes[i]) == Some("media"@) || at_name(nodes[i]) == Some("container"@))
    &&& crate::transform::media_modernization(crate::scanner::prelude_of(s, nodes[i]@)) is Some
}

pub open spec fn media_plan(path: Seq<char>, s: Seq<char>, nodes: Seq<SourceNode>, i: int) -> PlanView {
    prelude_plan_spec(
        path,
        s,
        nodes,
        i,
        RuleId::ModernizeMediaRange,
        Safety::Safe,
        crate::transform::media_modernization(crate::scanner::prelude_of(s, nodes[i]@)).unwrap(),
        crate::model::safe_local_proof(),
        seq![],
        "Modernize legacy media/container feature syntax to CSS Range Syntax (e.g. (width >= 800px))."@,
    )
}

pub open spec fn is_plan(path: Seq<char>, s: Seq<char>, nodes: Seq<SourceNode>, i: int) -> PlanView {
    let f = crate::transform::is_factoring(crate::scanner::prelude_of(s, nodes[i]@)).unwrap();
    prelude_plan_spec(
        path,
        s,
        nodes,
        i,
        RuleId::ModernizeIs,
        if f.1 {
            Safety::Safe
        } else {
            Safety::Review
        },
        f.0,
        proof_with_specificity(f.1),
        if f.1 {
            seq![]
        } else {
            seq!["Mixed branch specificity: :is() takes the specificity of its most specific argument."@]
        },
        "Factor common selector prefix/suffix into :is(...) grouping."@,
    )
}

pub open spec fn where_plan(path: Seq<char>, s: Seq<char>, nodes: Seq<SourceNode>, i: int) -> PlanView {
    prelude_plan_spec(
        path,
        s,
        nodes,
        i,
        RuleId::ModernizeWhere,
        Safety::Review,
        crate::transform::where_factoring(crate::scanner::prelude_of(s, nodes[i]@)).unwrap(),
        proof_with_specificity(false),
        seq!["Specificity zeroed to 0-0-0 by :where()"@],
        "Convert selector list to :where(...) for zero-specificity defaults (review required)."@,
    )
}

pub open spec fn not_plan(path: Seq<char>, s: Seq<char>, nodes: Seq<SourceNode>, i: int) -> PlanView {
    prelude_plan_spec(
        path,
        s,
        nodes,
        i,
        RuleId::ConsolidateNot,
        Safety::Review,
        crate::transform::not_consolidation(crate::scanner::prelude_of(s, nodes[i]@)).unwrap().0,
        proof_with_specificity(false),
        seq![
            "Specificity reduced: chained :not() has additive specificity; comma-separated :not() takes only the maximum argument specificity."@,
        ],
        "Consolidate chained :not() selectors into a single comma-separated :not() list (review required for specificity drop)."@,
    )
}

/// The factoring of the selector list of node `i` with its body, indentation and unit.
pub open spec fn list_factoring(s: Seq<char>, nodes: Seq<SourceNode>, i: int) -> Option<Seq<char>> {
    let n = nodes[i]@;
    match n.body {
        Some((x, y)) => crate::transform::selector_list_factoring(
            crate::scanner::prelude_of(s, n),
            s.subrange(x, y),
            crate::layout::line_indent_spec(s, n.start),
            body_unit(s, n, "  "@),
        ),
        None => None,
    }
}

/// Node `k` is a style rule right after the previous node, related to `base` by an enabled rule.
pub open spec fn style_child(s: Seq<char>, nodes: Seq<SourceNode>, base: Seq<char>, enabled: Seq<RuleId>, k: int) -> bool {
    &&& nodes[k].kind is Style
    &&& match crate::relation::relation_spec(base, crate::scanner::prelude_of(s, nodes[k]@)) {
        Some((rel, _)) => enabled.contains(crate::relation::relation_rule(rel)),
        None => false,
    }
}

pub open spec fn joins_extras(s: Seq<char>, nodes: Seq<SourceNode>, base: Seq<char>, enabled: Seq<RuleId>, k: int) -> bool {
    gap_ws(s, nodes, k) && style_child(s, nodes, base, enabled, k)
}

/// The first branch of the selector list of node `i`.
pub open spec fn list_base(s: Seq<char>, nodes: Seq<SourceNode>, i: int) -> Seq<char> {
    crate::transform::trimmed_parts(crate::scanner::prelude_of(s, nodes[i]@))[0]
}

pub open spec fn extras_end_spec(s: Seq<char>, nodes: Seq<SourceNode>, enabled: Seq<RuleId>, i: int) -> int {
    run_end(nodes.len() as int, i + 1, |k: int| joins_extras(s, nodes, list_base(s, nodes, i), enabled, k))
}

/// The related rules `lo..hi` of `base`, nested at the end of a factored selector list.
pub open spec fn extras_text(s: Seq<char>, nodes: Seq<SourceNode>, base: Seq<char>, lo: int, hi: int, nested: Seq<char>, inner: Seq<
    char,
>) -> Seq<char>
    decreases hi - lo,
{
    if hi <= lo {
        seq![]
    } else {
        extras_text(s, nodes, base, lo, hi - 1, nested, inner) + seq!['\n'] + nested + crate::text::trim(
            crate::relation::relation_spec(base, crate::scanner::prelude_of(s, nodes[hi - 1]@)).unwrap().1,
        ) + " {\n"@ + body_reindented(s, nodes[hi - 1]@, inner) + nested + "}\n"@
    }
}

/// `x` inserted before the last `}` of `f` (nothing happens without one).
pub open spec fn before_last_brace(f: Seq<char>, x: Seq<char>) -> Seq<char> {
    match crate::text::rfind_char(f, '}') {
        Some(p) => f.take(p) + x + f.skip(p),
        None => f,
    }
}

/// The plan that factors the selector list of node `i`, with the related rules `i+1..e` that
/// follow it nested inside.
#[verifier::opaque]
pub open spec fn list_plan(path: Seq<char>, s: Seq<char>, nodes: Seq<SourceNode>, i: int, e: int) -> PlanView {
    let n = nodes[i]@;
    let ind = crate::layout::line_indent_spec(s, n.start);
    let unit = body_unit(s, n, "  "@);
    let f = list_factoring(s, nodes, i).unwrap();
    let end = if e == i + 1 {
        n.end
    } else {
        nodes[e - 1].end as int
    };
    PlanView {
        id: seq![],
        file: path,
        rules: seq![RuleId::FactorSelectorList],
        safety: Safety::Safe,
        start: n.start,
        end,
        original: s.subrange(n.start, end),
        proposed: if e == i + 1 {
            f
        } else {
            before_last_brace(f, extras_text(s, nodes, list_base(s, nodes, i), i + 1, e, ind + unit, ind + unit + unit))
        },
        proof: crate::model::safe_local_proof(),
        warnings: seq![],
        reason: "Factor comma-separated selectors sharing a common base element into nested form."@,
        selected: true,
    }
}

/// Node `k` joins the cluster of parent selector `parent`: a related style rule or a
/// conditional block targeting it, right after the previous node.
pub open spec fn joins_cluster(s: Seq<char>, nodes: Seq<SourceNode>, parent: Seq<char>, enabled: Seq<RuleId>, k: int) -> bool {
    gap_ws(s, nodes, k) && (style_child(s, nodes, parent, enabled, k) || crate::render::cond_child_some(
        s,
        nodes,
        parent,
        enabled,
        k,
    ))
}

pub open spec fn cluster_end_spec(s: Seq<char>, nodes: Seq<SourceNode>, enabled: Seq<RuleId>, i: int) -> int {
    run_end(
        nodes.len() as int,
        i + 1,
        |k: int| joins_cluster(s, nodes, crate::scanner::prelude_of(s, nodes[i]@), enabled, k),
    )
}

/// The nesting rule of cluster member `k`.
pub open spec fn child_rule(s: Seq<char>, nodes: Seq<SourceNode>, parent: Seq<char>, enabled: Seq<RuleId>, k: int) -> RuleId {
    if style_child(s, nodes, parent, enabled, k) {
        crate::relation::relation_rule(
            crate::relation::relation_spec(parent, crate::scanner::prelude_of(s, nodes[k]@)).unwrap().0,
        )
    } else {
        crate::render::cond_rule(nodes[k]).unwrap()
    }
}

/// The distinct nesting rules of the cluster members `lo..hi`, in order of first appearance.
pub open spec fn cluster_rules(s: Seq<char>, nodes: Seq<SourceNode>, parent: Seq<char>, enabled: Seq<RuleId>, lo: int, hi: int) -> Seq<
    RuleId,
>
    decreases hi - lo,
{
    if hi <= lo {
        seq![]
    } else {
        let prev = cluster_rules(s, nodes, parent, enabled, lo, hi - 1);
        let r = child_rule(s, nodes, parent, enabled, hi - 1);
        if prev.contains(r) {
            prev
        } else {
            prev.push(r)
        }
    }
}

/// What cluster member `k` does to the nested tree of parent selector `parent`: a related style
/// rule is inserted with its relative selector, a conditional block is added whole.
pub open spec fn node_tree_step(s: Seq<char>, nodes: Seq<SourceNode>, parent: Seq<char>, enabled: Seq<RuleId>, k: int) -> crate::render::TreeStep {
    if style_child(s, nodes, parent, enabled, k) {
        crate::render::TreeStep::Insert(
            crate::text::trim(crate::relation::relation_spec(parent, crate::scanner::prelude_of(s, nodes[k]@)).unwrap().1),
            crate::render::body_lines_of(s, nodes[k]@),
        )
    } else {
        crate::render::TreeStep::Push(crate::render::cond_child_tree(s, nodes, parent, k))
    }
}

/// The tree steps of the cluster members `lo..hi`.
pub open spec fn cluster_steps(s: Seq<char>, nodes: Seq<SourceNode>, parent: Seq<char>, enabled: Seq<RuleId>, lo: int, hi: int) -> Seq<
    crate::render::TreeStep,
> {
    Seq::new((hi - lo) as nat, |q: int| node_tree_step(s, nodes, parent, enabled, lo + q))
}

/// The plan that nests the cluster members `i+1..e` into the block of node `i`.
#[verifier::opaque]
pub open spec fn cluster_plan(path: Seq<char>, s: Seq<char>, nodes: Seq<SourceNode>, enabled: Seq<RuleId>, i: int, e: int) -> PlanView {
    let n = nodes[i]@;
    let end = nodes[e - 1].end as int;
    let parent = crate::scanner::prelude_of(s, n);
    PlanView {
        id: seq![],
        file: path,
        rules: cluster_rules(s, nodes, parent, enabled, i + 1, e),
        safety: Safety::Safe,
        start: n.start,
        end,
        original: s.subrange(n.start, end),
        proposed: crate::render::cluster_text(s, nodes, i, cluster_steps(s, nodes, parent, enabled, i + 1, e)),
        proof: crate::model::safe_local_proof(),
        warnings: seq![],
        reason: decimal((e - i - 1) as nat)
            + " immediately adjacent rule(s) share the exact parent selector and can be nested without crossing comments or unrelated rules."@,
        selected: true,
    }
}

/// The plans of the node-by-node pass from node `i` on: legacy media ranges; for a selector list, its factoring (with the related rules
/// that follow), else `:is()`, else `:where()`; for a single selector, the cluster of related
/// rules and conditional blocks that follow it, else the consolidation of chained `:not()`.
#[verifier::opaque]
pub open spec fn node_pass(path: Seq<char>, s: Seq<char>, nodes: Seq<SourceNode>, enabled: Seq<RuleId>, i: int) -> Seq<PlanView>
    decreases nodes.len() - i,
{
    if i < 0 || i >= nodes.len() {
        seq![]
    } else if !(nodes[i].kind is Style) {
        (if wants_media_plan(s, nodes, enabled, i) {
            seq![media_plan(path, s, nodes, i)]
        } else {
            seq![]
        }) + node_pass(path, s, nodes, enabled, i + 1)
    } else {
        let sel = crate::scanner::prelude_of(s, nodes[i]@);
        if crate::selector::has_top_level_comma(sel) {
            let e = extras_end_spec(s, nodes, enabled, i);
            if enabled.contains(RuleId::FactorSelectorList) && list_factoring(s, nodes, i) is Some {
                if i < e <= nodes.len() {
                    seq![list_plan(path, s, nodes, i, e)] + node_pass(path, s, nodes, enabled, e)
                } else {
                    seq![]
                }
            } else if enabled.contains(RuleId::ModernizeIs) && crate::transform::is_factoring(sel) is Some {
                seq![is_plan(path, s, nodes, i)] + node_pass(path, s, nodes, enabled, i + 1)
            } else if enabled.contains(RuleId::ModernizeWhere) && crate::transform::where_factoring(sel) is Some {
                seq![where_plan(path, s, nodes, i)] + node_pass(path, s, nodes, enabled, i + 1)
            } else {
                node_pass(path, s, nodes, enabled, i + 1)
            }
        } else if crate::text::contains(sel, seq![':', ':']) {
            node_pass(path, s, nodes, enabled, i + 1)
        } else {
            let e = cluster_end_spec(s, nodes, enabled, i);
            if i + 1 < e <= nodes.len() {
                seq![cluster_plan(path, s, nodes, enabled, i, e)] + node_pass(path, s, nodes, enabled, e)
            } else if enabled.contains(RuleId::ConsolidateNot) && crate::transform::not_consolidation(sel) is Some {
                seq![not_plan(path, s, nodes, i)] + node_pass(path, s, nodes, enabled, i + 1)
            } else {
                node_pass(path, s, nodes, enabled, i + 1)
            }
        }
    }
}

proof fn lemma_plan_starts(path: Seq<char>, s: Seq<char>, nodes: Seq<SourceNode>, enabled: Seq<RuleId>, i: int, e: int)
    ensures
        list_plan(path, s, nodes, i, e).start == nodes[i]@.start,
        cluster_plan(path, s, nodes, enabled, i, e).start == nodes[i]@.start,
        is_plan(path, s, nodes, i).start == nodes[i]@.prelude_start,
        where_plan(path, s, nodes, i).start == nodes[i]@.prelude_start,
        not_plan(path, s, nodes, i).start == nodes[i]@.prelude_start,
{
    reveal(list_plan);
    reveal(cluster_plan);
    reveal(prelude_plan_spec);
}

/// Plan `p` of the node pass comes from node `j`: it spans from the start or the prelude of the
/// style rule `j`, or it is the range-syntax rewrite of the `@media` / `@container` prelude `j`.
pub open spec fn from_node(path: Seq<char>, s: Seq<char>, nodes: Seq<SourceNode>, enabled: Seq<RuleId>, p: PlanView, j: int) -> bool {
    ||| nodes[j].kind is Style && (p.start == nodes[j]@.start || p.start == nodes[j]@.prelude_start)
    ||| wants_media_plan(s, nodes, enabled, j) && p == media_plan(path, s, nodes, j)
}

/// Where the node pass goes on after node `i`.
pub open spec fn pass_next(s: Seq<char>, nodes: Seq<SourceNode>, enabled: Seq<RuleId>, i: int) -> int {
    if !(nodes[i].kind is Style) {
        i + 1
    } else {
        let sel = crate::scanner::prelude_of(s, nodes[i]@);
        if crate::selector::has_top_level_comma(sel) {
            let e = extras_end_spec(s, nodes, enabled, i);
            if enabled.contains(RuleId::FactorSelectorList) && list_factoring(s, nodes, i) is Some && i < e <= nodes.len() {
                e
            } else {
                i + 1
            }
        } else if crate::text::contains(sel, seq![':', ':']) {
            i + 1
        } else {
            let e = cluster_end_spec(s, nodes, enabled, i);
            if i + 1 < e <= nodes.len() {
                e
            } else {
                i + 1
            }
        }
    }
}

#[verifier::spinoff_prover]
#[verifier::rlimit(100)]
proof fn lemma_pass_unfold(path: Seq<char>, s: Seq<char>, nodes: Seq<SourceNode>, enabled: Seq<RuleId>, i: int)
    requires
        0 <= i < nodes.len(),
    ensures
        i < pass_next(s, nodes, enabled, i) <= nodes.len(),
        node_pass(path, s, nodes, enabled, i) == node_pass(path, s, nodes, enabled, pass_next(s, nodes, enabled, i))
            || (node_pass(path, s, nodes, enabled, i) == seq![node_pass(path, s, nodes, enabled, i)[0]] + node_pass(
            path,
            s,
            nodes,
            enabled,
            pass_next(s, nodes, enabled, i),
        ) && from_node(path, s, nodes, enabled, node_pass(path, s, nodes, enabled, i)[0], i)),
{
    reveal(node_pass);
    let next = pass_next(s, nodes, enabled, i);
    lemma_plan_starts(path, s, nodes, enabled, i, next);
    let np = node_pass(path, s, nodes, enabled, i);
    let rest = node_pass(path, s, nodes, enabled, next);
    if !(nodes[i].kind is Style) {
        if wants_media_plan(s, nodes, enabled, i) {
            assert(np =~= seq![np[0]] + rest);
        }
    } else {
        let sel = crate::scanner::prelude_of(s, nodes[i]@);
        if crate::selector::has_top_level_comma(sel) {
            lemma_run_end_range(
                nodes.len() as int,
                i + 1,
                |k: int| joins_extras(s, nodes, list_base(s, nodes, i), enabled, k),
            );
            if enabled.contains(RuleId::FactorSelectorList) && list_factoring(s, nodes, i) is Some {
                assert(np =~= seq![np[0]] + rest);
            } else if enabled.contains(RuleId::ModernizeIs) && crate::transform::is_factoring(sel) is Some {
                assert(np =~= seq![np[0]] + rest);
            } else if enabled.contains(RuleId::ModernizeWhere) && crate::transform::where_factoring(sel) is Some {
                assert(np =~= seq![np[0]] + rest);
            }
        } else if !crate::text::contains(sel, seq![':', ':']) {
            let e = cluster_end_spec(s, nodes, enabled, i);
            if i + 1 < e <= nodes.len() {
                assert(np =~= seq![np[0]] + rest);
            } else if enabled.contains(RuleId::ConsolidateNot) && crate::transform::not_consolidation(sel) is Some {
                assert(np =~= seq![np[0]] + rest);
            }
        }
    }
}

/// Plan `p` comes from some node at or after `i`.
pub open spec fn from_some_node(path: Seq<char>, s: Seq<char>, nodes: Seq<SourceNode>, enabled: Seq<RuleId>, p: PlanView, i: int) -> bool {
    exists|j: int| i <= j < nodes.len() && #[trigger] from_node(path, s, nodes, enabled, p, j)
}

/// Every plan of the node pass from node `i` on comes from a node at or after `i`.
pub open spec fn pass_from_nodes(path: Seq<char>, s: Seq<char>, nodes: Seq<SourceNode>, enabled: Seq<RuleId>, i: int) -> bool {
    forall|k: int|
        0 <= k < node_pass(path, s, nodes, enabled, i).len() ==> #[trigger] from_some_node(
            path,
            s,
            nodes,
            enabled,
            node_pass(path, s, nodes, enabled, i)[k],
            i,
        )
}

/// Law: the node-by-node pass rewrites selectors of style rules only; the one at-rule prelude
/// it touches is a legacy media or container range, which it modernizes. In particular it
/// never factors an at-rule prelude such as `@layer tokens` as if it were a selector.
pub proof fn law_node_pass_rewrites_style_rules(path: Seq<char>, s: Seq<char>, nodes: Seq<SourceNode>, enabled: Seq<RuleId>, i: int)
    requires
        0 <= i,
    ensures
        pass_from_nodes(path, s, nodes, enabled, i),
    decreases nodes.len() - i,
{
    let v = node_pass(path, s, nodes, enabled, i);
    if i < nodes.len() {
        lemma_pass_unfold(path, s, nodes, enabled, i);
        let next = pass_next(s, nodes, enabled, i);
        law_node_pass_rewrites_style_rules(path, s, nodes, enabled, next);
        let rest = node_pass(path, s, nodes, enabled, next);
        assert forall|k: int| 0 <= k < v.len() implies #[trigger] from_some_node(path, s, nodes, enabled, v[k], i) by {
            if v == rest {
                assert(from_some_node(path, s, nodes, enabled, rest[k], next));
                let j = choose|j: int| next <= j < nodes.len() && #[trigger] from_node(path, s, nodes, enabled, rest[k], j);
                assert(from_node(path, s, nodes, enabled, v[k], j));
            } else if k == 0 {
                assert(from_node(path, s, nodes, enabled, v[k], i));
            } else {
                assert(v[k] == rest[k - 1]);
                assert(from_some_node(path, s, nodes, enabled, rest[k - 1], next));
                let j = choose|j: int| next <= j < nodes.len() && #[trigger] from_node(path, s, nodes, enabled, rest[k - 1], j);
                assert(from_node(path, s, nodes, enabled, v[k], j));
            }
        }
    } else {
        reveal(node_pass);
        assert(v.len() == 0);
    }
}

/// What one step of the pass at node `i` gives: the plan `p` (if any) and the next node `next`.
pub open spec fn step_ok(
    path: Seq<char>,
    s: Seq<char>,
    nodes: Seq<SourceNode>,
    enabled: Seq<RuleId>,
    i: int,
    p: Option<PlanView>,
    next: int,
) -> bool {
    &&& i < next <= nodes.len()
    &&& match p {
        Some(v) => node_pass(path, s, nodes, enabled, i) == seq![v] + node_pass(path, s, nodes, enabled, next),
        None => node_pass(path, s, nodes, enabled, i) == node_pass(path, s, nodes, enabled, next),
    }
}

pub open spec fn opt_view(p: Option<PlanEntry>) -> Option<PlanView> {
    match p {
        Some(q) => Some(q@),
        None => None,
    }
}

/// The end of the run of related rules that follow the selector list of node `i`.
fn list_extras_end(s: &[char], nodes: &[SourceNode], i: usize, base: &[char], enabled: &[RuleId]) -> (e: usize)
    requires
        nodes_ok(s@, nodes@),
        i < nodes@.len(),
        base@ == list_base(s@, nodes@, i as int),
    ensures
        i < e <= nodes@.len(),
        e == extras_end_spec(s@, nodes@, enabled@, i as int),
{
    assert(i < nodes.len());
    let mut cursor = i + 1;
    while cursor < nodes.len()
        invariant
            i < cursor <= nodes@.len(),
            nodes_ok(s@, nodes@),
            base@ == list_base(s@, nodes@, i as int),
            forall|k: int| i + 1 <= k < cursor ==> #[trigger] joins_extras(s@, nodes@, base@, enabled@, k),
        ensures
            i < cursor <= nodes@.len(),
            forall|k: int| i + 1 <= k < cursor ==> #[trigger] joins_extras(s@, nodes@, base@, enabled@, k),
            cursor == nodes@.len() || !joins_extras(s@, nodes@, base@, enabled@, cursor as int),
        decreases nodes.len() - cursor,
    {
        let next = &nodes[cursor];
        assert(nodes@[cursor - 1].end <= nodes@[cursor as int].start);
        assert(node_wf(s@, next@, 0, s@.len() as int));
        if !whitespace_only_chars(s, nodes[cursor - 1].end, next.start) {
            break;
        }
        if !is_style_node(next) {
            break;
        }
        let np = prelude_chars(s, next);
        let ok = match selector_relation(base, np.as_slice()) {
            Some((rel, _)) => rule_enabled(enabled, rel.rule()),
            None => false,
        };
        if !ok {
            break;
        }
        assert(joins_extras(s@, nodes@, base@, enabled@, cursor as int));
        cursor = cursor + 1;
    }
    proof {
        lemma_run_end(
            nodes@.len() as int,
            i + 1,
            cursor as int,
            |k: int| joins_extras(s@, nodes@, list_base(s@, nodes@, i as int), enabled@, k),
        );
    }
    cursor
}

/// Appends the related rules `lo..hi` of `base`, nested (see `extras_text`).
fn push_extras(out: &mut Vec<char>, s: &[char], nodes: &[SourceNode], base: &[char], lo: usize, hi: usize, nested: &[char], inner: &[char])
    requires
        nodes_ok(s@, nodes@),
        lo <= hi <= nodes@.len(),
        forall|k: int| lo <= k < hi ==> crate::relation::relation_spec(base@, #[trigger] crate::scanner::prelude_of(s@, nodes@[k]@)) is Some,
    ensures
        final(out)@ == old(out)@ + extras_text(s@, nodes@, base@, lo as int, hi as int, nested@, inner@),
{
    let ghost start = out@;
    let mut k = lo;
    while k < hi
        invariant
            lo <= k <= hi <= nodes@.len(),
            nodes_ok(s@, nodes@),
            forall|q: int| lo <= q < hi ==> crate::relation::relation_spec(base@, #[trigger] crate::scanner::prelude_of(s@, nodes@[q]@)) is Some,
            out@ == start + extras_text(s@, nodes@, base@, lo as int, k as int, nested@, inner@),
        decreases hi - k,
    {
        let cn = &nodes[k];
        assert(node_wf(s@, cn@, 0, s@.len() as int));
        let np = prelude_chars(s, cn);
        assert(np@ == crate::scanner::prelude_of(s@, nodes@[k as int]@));
        let nsel = match selector_relation(base, np.as_slice()) {
            Some((_, n)) => n,
            None => Vec::new(),
        };
        let ghost before = out@;
        out.push('\n');
        out.extend_from_slice(nested);
        out.extend_from_slice(trimmed(nsel.as_slice()).as_slice());
        push_str(out, " {\n");
        let ghost head = out@;
        match &cn.body_range {
            Some(r) => {
                push_reindented(out, s, r.start, r.end, inner);
            },
            None => {},
        }
        assert(out@ == head + body_reindented(s@, nodes@[k as int]@, inner@));
        out.extend_from_slice(nested);
        push_str(out, "}\n");
        proof {
            assert(out@ =~= start + extras_text(s@, nodes@, base@, lo as int, k + 1, nested@, inner@));
        }
        k = k + 1;
    }
}

/// The factoring plan for the selector list of node `i` (which has the factoring `factored`),
/// with the related rules `i+1..e` nested inside.
fn list_plan_exec(path: &str, s: &[char], nodes: &[SourceNode], i: usize, e: usize, base: &[char], factored: Vec<char>, enabled: &[RuleId]) -> (p: PlanEntry)
    requires
        nodes_ok(s@, nodes@),
        i < e <= nodes@.len(),
        base@ == list_base(s@, nodes@, i as int),
        e == extras_end_spec(s@, nodes@, enabled@, i as int),
        list_factoring(s@, nodes@, i as int) == Some(factored@),
    ensures
        p@ == list_plan(path@, s@, nodes@, i as int, e as int),
        plan_ok(s@, path@, p@),
{
    let parent = &nodes[i];
    assert(node_wf(s@, parent@, 0, s@.len() as int));
    let indent = line_indent(s, parent.start);
    let unit = match &parent.body_range {
        Some(b) => unit_or(s, b.start, b.end, "  "),
        None => chars_of("  "),
    };
    let mut fv = factored;
    let ghost f = fv@;
    let end_offset = if e == i + 1 {
        parent.end
    } else {
        let nested = concat(indent.as_slice(), unit.as_slice());
        let inner = concat(nested.as_slice(), unit.as_slice());
        let mut extra: Vec<char> = Vec::new();
        proof {
            assert forall|k: int| i + 1 <= k < e implies crate::relation::relation_spec(
                base@,
                #[trigger] crate::scanner::prelude_of(s@, nodes@[k]@),
            ) is Some by {
                lemma_run_end_inside(
                    nodes@.len() as int,
                    i + 1,
                    k,
                    |q: int| joins_extras(s@, nodes@, list_base(s@, nodes@, i as int), enabled@, q),
                );
                assert(joins_extras(s@, nodes@, base@, enabled@, k));
            }
        }
        push_extras(&mut extra, s, nodes, base, i + 1, e, nested.as_slice(), inner.as_slice());
        let last = &nodes[e - 1];
        assert(node_wf(s@, last@, 0, s@.len() as int));
        assert(parent.start <= last.end) by {
            assert(nodes@[i as int].end <= nodes@[e - 1].start);
        }
        match crate::text::rfind_char_in(fv.as_slice(), 0, fv.len(), '}') {
            Some(pos) => {
                proof {
                    assert(fv@.subrange(0, fv@.len() as int) =~= fv@);
                    crate::text::lemma_rfind_char_sound(fv@, '}');
                }
                let mut nv: Vec<char> = Vec::new();
                push_range(&mut nv, fv.as_slice(), 0, pos);
                nv.extend_from_slice(extra.as_slice());
                push_range(&mut nv, fv.as_slice(), pos, fv.len());
                proof {
                    assert(nv@ =~= before_last_brace(f, extra@));
                }
                fv = nv;
            },
            None => {
                proof {
                    assert(fv@.subrange(0, fv@.len() as int) =~= fv@);
                }
            },
        }
        last.end
    };
    let p = make_plan(
        path,
        s,
        parent.start,
        end_offset,
        one_rule(RuleId::FactorSelectorList),
        Safety::Safe,
        fv,
        Proof::safe_local(),
        Vec::new(),
        lit("Factor comma-separated selectors sharing a common base element into nested form."),
    );
    proof {
        assert(p@.warnings =~= seq![]);
        reveal(list_plan);
        assert(p@ == list_plan(path@, s@, nodes@, i as int, e as int));
    }
    p
}

/// The end of the cluster of rules that nest under the selector of node `i`.
fn cluster_end(s: &[char], nodes: &[SourceNode], i: usize, sel: &[char], enabled: &[RuleId]) -> (e: usize)
    requires
        nodes_ok(s@, nodes@),
        i < nodes@.len(),
        sel@ == crate::scanner::prelude_of(s@, nodes@[i as int]@),
    ensures
        i < e <= nodes@.len(),
        e == cluster_end_spec(s@, nodes@, enabled@, i as int),
{
    assert(i < nodes.len());
    let mut cursor = i + 1;
    while cursor < nodes.len()
        invariant
            i < cursor <= nodes@.len(),
            nodes_ok(s@, nodes@),
            sel@ == crate::scanner::prelude_of(s@, nodes@[i as int]@),
            forall|k: int| i + 1 <= k < cursor ==> #[trigger] joins_cluster(s@, nodes@, sel@, enabled@, k),
        ensures
            i < cursor <= nodes@.len(),
            forall|k: int| i + 1 <= k < cursor ==> #[trigger] joins_cluster(s@, nodes@, sel@, enabled@, k),
            cursor == nodes@.len() || !joins_cluster(s@, nodes@, sel@, enabled@, cursor as int),
        decreases nodes.len() - cursor,
    {
        let next = &nodes[cursor];
        assert(nodes@[cursor - 1].end <= nodes@[cursor as int].start);
        assert(node_wf(s@, next@, 0, s@.len() as int));
        if !whitespace_only_chars(s, nodes[cursor - 1].end, next.start) {
            break;
        }
        let mut ok = false;
        if is_style_node(next) {
            let np = prelude_chars(s, next);
            ok = match selector_relation(sel, np.as_slice()) {
                Some((rel, _)) => rule_enabled(enabled, rel.rule()),
                None => false,
            };
        }
        if !ok {
            ok = conditional_child(s, nodes, sel, cursor, enabled).is_some();
        }
        if !ok {
            break;
        }
        assert(joins_cluster(s@, nodes@, sel@, enabled@, cursor as int));
        cursor = cursor + 1;
    }
    proof {
        lemma_run_end(nodes@.len() as int, i + 1, cursor as int, |k: int| joins_cluster(s@, nodes@, sel@, enabled@, k));
    }
    cursor
}

/// The members `i+1..e` of the cluster of node `i`, as children of its block.
fn cluster_children(s: &[char], nodes: &[SourceNode], i: usize, e: usize, sel: &[char], enabled: &[RuleId]) -> (cs: Vec<ClusterChild>)
    requires
        nodes_ok(s@, nodes@),
        i < e <= nodes@.len(),
        forall|k: int| i + 1 <= k < e ==> #[trigger] joins_cluster(s@, nodes@, sel@, enabled@, k),
    ensures
        children_ok(s@, nodes@, cs@),
        cs@.len() == e - i - 1,
        forall|q: int| 0 <= q < cs@.len() ==> (#[trigger] cs@[q]).rule_spec() == child_rule(s@, nodes@, sel@, enabled@, i + 1 + q),
        crate::render::child_steps(s@, nodes@, cs@) == cluster_steps(s@, nodes@, sel@, enabled@, i + 1, e as int),
{
    let mut children: Vec<ClusterChild> = Vec::new();
    let mut k = i + 1;
    while k < e
        invariant
            i < k <= e <= nodes@.len(),
            nodes_ok(s@, nodes@),
            forall|q: int| i + 1 <= q < e ==> #[trigger] joins_cluster(s@, nodes@, sel@, enabled@, q),
            children_ok(s@, nodes@, children@),
            children@.len() == k - i - 1,
            forall|q: int| 0 <= q < children@.len() ==> (#[trigger] children@[q]).rule_spec() == child_rule(s@, nodes@, sel@, enabled@, i + 1 + q),
            crate::render::child_steps(s@, nodes@, children@) == cluster_steps(s@, nodes@, sel@, enabled@, i + 1, k as int),
        decreases e - k,
    {
        let next = &nodes[k];
        assert(node_wf(s@, next@, 0, s@.len() as int));
        assert(joins_cluster(s@, nodes@, sel@, enabled@, k as int));
        let mut child: Option<ClusterChild> = None;
        if is_style_node(next) {
            let np = prelude_chars(s, next);
            match selector_relation(sel, np.as_slice()) {
                Some((rel, nested)) => {
                    if rule_enabled(enabled, rel.rule()) {
                        child = Some(ClusterChild::Style { node: k, relation: rel, nested_selector: nested });
                    }
                },
                None => {},
            }
        }
        if child.is_none() {
            child = conditional_child(s, nodes, sel, k, enabled);
        }
        let ghost before = children@;
        match child {
            Some(c) => {
                children.push(c);
            },
            None => {
                assert(false);
            },
        }
        proof {
            assert forall|q: int| 0 <= q < children@.len() implies crate::render::child_ok(s@, nodes@, #[trigger] children@[q]) by {
                if q < before.len() {
                    assert(children@[q] == before[q]);
                }
            }
            assert forall|q: int| 0 <= q < children@.len() implies (#[trigger] children@[q]).rule_spec() == child_rule(
                s@,
                nodes@,
                sel@,
                enabled@,
                i + 1 + q,
            ) by {
                if q < before.len() {
                    assert(children@[q] == before[q]);
                }
            }
            assert(crate::render::child_steps(s@, nodes@, children@) =~= cluster_steps(s@, nodes@, sel@, enabled@, i + 1, k + 1)) by {
                assert(crate::render::child_steps(s@, nodes@, children@) =~= crate::render::child_steps(s@, nodes@, before).push(
                    crate::render::child_step(s@, nodes@, children@[children@.len() - 1]),
                ));
            }
        }
        k = k + 1;
    }
    children
}

/// The distinct nesting rules of the children, in order of first appearance.
fn children_rules(children: &Vec<ClusterChild>, ghost_rules: Ghost<spec_fn(int) -> RuleId>) -> (r: Vec<RuleId>)
    requires
        forall|q: int| 0 <= q < children@.len() ==> (#[trigger] children@[q]).rule_spec() == ghost_rules@(q),
    ensures
        r@ == dedup_rules(ghost_rules@, children@.len() as int),
{
    let mut rules: Vec<RuleId> = Vec::new();
    let mut k: usize = 0;
    while k < children.len()
        invariant
            k <= children@.len(),
            forall|q: int| 0 <= q < children@.len() ==> (#[trigger] children@[q]).rule_spec() == ghost_rules@(q),
            rules@ == dedup_rules(ghost_rules@, k as int),
        decreases children.len() - k,
    {
        let r = children[k].rule();
        if !rule_enabled(rules.as_slice(), r) {
            rules.push(r);
        }
        k = k + 1;
    }
    rules
}

/// The distinct values of `f` over `0..k`, in order of first appearance.
pub open spec fn dedup_rules(f: spec_fn(int) -> RuleId, k: int) -> Seq<RuleId>
    decreases k,
{
    if k <= 0 {
        seq![]
    } else {
        let prev = dedup_rules(f, k - 1);
        if prev.contains(f(k - 1)) {
            prev
        } else {
            prev.push(f(k - 1))
        }
    }
}

proof fn lemma_cluster_rules(s: Seq<char>, nodes: Seq<SourceNode>, parent: Seq<char>, enabled: Seq<RuleId>, i: int, k: int)
    requires
        0 <= k,
    ensures
        cluster_rules(s, nodes, parent, enabled, i + 1, i + 1 + k) == dedup_rules(
            |q: int| child_rule(s, nodes, parent, enabled, i + 1 + q),
            k,
        ),
    decreases k,
{
    if k > 0 {
        lemma_cluster_rules(s, nodes, parent, enabled, i, k - 1);
    }
}

/// The plan that nests the cluster members `i+1..e` into the block of node `i`.
fn cluster_plan_exec(path: &str, s: &[char], nodes: &[SourceNode], i: usize, e: usize, sel: &[char], enabled: &[RuleId]) -> (p: PlanEntry)
    requires
        nodes_ok(s@, nodes@),
        i + 1 < e <= nodes@.len(),
        nodes@[i as int].kind is Style,
        sel@ == crate::scanner::prelude_of(s@, nodes@[i as int]@),
        e == cluster_end_spec(s@, nodes@, enabled@, i as int),
    ensures
        p@ == cluster_plan(path@, s@, nodes@, enabled@, i as int, e as int),
        plan_ok(s@, path@, p@),
{
    let parent = &nodes[i];
    assert(node_wf(s@, parent@, 0, s@.len() as int));
    proof {
        assert forall|k: int| i + 1 <= k < e implies #[trigger] joins_cluster(s@, nodes@, sel@, enabled@, k) by {
            lemma_run_end_inside(
                nodes@.len() as int,
                i + 1,
                k,
                |q: int| joins_cluster(s@, nodes@, crate::scanner::prelude_of(s@, nodes@[i as int]@), enabled@, q),
            );
        }
    }
    let children = cluster_children(s, nodes, i, e, sel, enabled);
    let proposed = render_cluster(s, nodes, i, &children);
    let ghost f = |q: int| child_rule(s@, nodes@, sel@, enabled@, i + 1 + q);
    let rules = children_rules(&children, Ghost(f));
    proof {
        lemma_cluster_rules(s@, nodes@, sel@, enabled@, i as int, (e - i - 1) as int);
    }
    let last = &nodes[e - 1];
    assert(node_wf(s@, last@, 0, s@.len() as int));
    assert(parent.start <= last.end) by {
        assert(nodes@[i as int].end <= nodes@[e - 1].start);
    }
    let mut reason = decimal_exec(children.len());
    push_str(&mut reason, " immediately adjacent rule(s) share the exact parent selector and can be nested without crossing comments or unrelated rules.");
    let p = make_plan(
        path,
        s,
        parent.start,
        last.end,
        rules,
        Safety::Safe,
        proposed,
        Proof::safe_local(),
        Vec::new(),
        reason,
    );
    proof {
        assert(p@.warnings =~= seq![]);
        reveal(cluster_plan);
    }
    p
}

/// One step of the pass at the style rule `i`, whose selector `sel` is a list.
fn list_step(path: &str, s: &[char], nodes: &[SourceNode], enabled: &[RuleId], i: usize, sel: &[char]) -> (r: (
    Option<PlanEntry>,
    usize,
))
    requires
        nodes_ok(s@, nodes@),
        i < nodes@.len(),
        nodes@[i as int].kind is Style,
        sel@ == crate::scanner::prelude_of(s@, nodes@[i as int]@),
        crate::selector::has_top_level_comma(sel@),
    ensures
        step_ok(path@, s@, nodes@, enabled@, i as int, opt_view(r.0), r.1 as int),
        r.0 matches Some(p) ==> plan_ok(s@, path@, p@),
{
    proof {
        reveal(node_pass);
    }
    let parent = &nodes[i];
    assert(node_wf(s@, parent@, 0, s@.len() as int));
    let sel_s = string_of(sel);
    if rule_enabled(enabled, RuleId::FactorSelectorList) {
        let (bx, by) = body_of(s, parent);
        let indent = line_indent(s, parent.start);
        let unit = unit_or(s, bx, by, "  ");
        let body_s = crate::text::string_of_range(s, bx, by);
        let indent_s = string_of(indent.as_slice());
        let unit_s = string_of(unit.as_slice());
        let fr = crate::transform::factor_selector_list(sel_s.as_str(), body_s.as_str(), indent_s.as_str(), unit_s.as_str());
        assert(fr is Some == list_factoring(s@, nodes@, i as int) is Some);
        if let Some(factored) = fr {
            let branches = crate::transform::trimmed_parts_exec(sel);
            assert(crate::text::texts(branches@).len() >= 2);
            let base = &branches[0];
            assert(base@ == list_base(s@, nodes@, i as int));
            let e = list_extras_end(s, nodes, i, base.as_slice(), enabled);
            let p = list_plan_exec(path, s, nodes, i, e, base.as_slice(), chars_of(factored.as_str()), enabled);
            return (Some(p), e);
        }
    }
    if rule_enabled(enabled, RuleId::ModernizeIs) {
        if let Some((f, uniform)) = crate::transform::factor_with_is(sel_s.as_str()) {
            let mut proof_v = Proof::safe_local();
            proof_v.specificity_equivalent = uniform;
            let warnings = if uniform {
                Vec::new()
            } else {
                one_warning("Mixed branch specificity: :is() takes the specificity of its most specific argument.")
            };
            let p = prelude_plan(
                path,
                s,
                parent,
                RuleId::ModernizeIs,
                if uniform {
                    Safety::Safe
                } else {
                    Safety::Review
                },
                &f,
                proof_v,
                warnings,
                "Factor common selector prefix/suffix into :is(...) grouping.",
            );
            proof {
                if uniform {
                    assert(p@.warnings =~= seq![]);
                }
                reveal(prelude_plan_spec);
                assert(p@ == is_plan(path@, s@, nodes@, i as int));
            }
            return (Some(p), i + 1);
        }
    }
    if rule_enabled(enabled, RuleId::ModernizeWhere) {
        if let Some(f) = crate::transform::factor_with_where(sel_s.as_str()) {
            let mut proof_v = Proof::safe_local();
            proof_v.specificity_equivalent = false;
            let p = prelude_plan(
                path,
                s,
                parent,
                RuleId::ModernizeWhere,
                Safety::Review,
                &f,
                proof_v,
                one_warning("Specificity zeroed to 0-0-0 by :where()"),
                "Convert selector list to :where(...) for zero-specificity defaults (review required).",
            );
            proof {
                reveal(prelude_plan_spec);
            }
            assert(p@ == where_plan(path@, s@, nodes@, i as int));
            return (Some(p), i + 1);
        }
    }
    (None, i + 1)
}

/// One step of the pass at the style rule `i`, whose selector `sel` is a single selector
/// without a pseudo-element.
fn single_step(path: &str, s: &[char], nodes: &[SourceNode], enabled: &[RuleId], i: usize, sel: &[char]) -> (r: (
    Option<PlanEntry>,
    usize,
))
    requires
        nodes_ok(s@, nodes@),
        i < nodes@.len(),
        nodes@[i as int].kind is Style,
        sel@ == crate::scanner::prelude_of(s@, nodes@[i as int]@),
        !crate::selector::has_top_level_comma(sel@),
        !crate::text::contains(sel@, seq![':', ':']),
    ensures
        step_ok(path@, s@, nodes@, enabled@, i as int, opt_view(r.0), r.1 as int),
        r.0 matches Some(p) ==> plan_ok(s@, path@, p@),
{
    proof {
        reveal(node_pass);
    }
    let parent = &nodes[i];
    assert(node_wf(s@, parent@, 0, s@.len() as int));
    let e = cluster_end(s, nodes, i, sel, enabled);
    if e > i + 1 {
        let p = cluster_plan_exec(path, s, nodes, i, e, sel, enabled);
        return (Some(p), e);
    }
    if rule_enabled(enabled, RuleId::ConsolidateNot) {
        let sel_s = string_of(sel);
        if let Some((c, _uniform)) = crate::transform::consolidate_not_in_selector(sel_s.as_str()) {
            let mut proof_v = Proof::safe_local();
            proof_v.specificity_equivalent = false;
            let p = prelude_plan(
                path,
                s,
                parent,
                RuleId::ConsolidateNot,
                Safety::Review,
                &c,
                proof_v,
                one_warning(
                    "Specificity reduced: chained :not() has additive specificity; comma-separated :not() takes only the maximum argument specificity.",
                ),
                "Consolidate chained :not() selectors into a single comma-separated :not() list (review required for specificity drop).",
            );
            proof {
                reveal(prelude_plan_spec);
            }
            assert(p@ == not_plan(path@, s@, nodes@, i as int));
            return (Some(p), i + 1);
        }
    }
    (None, i + 1)
}

/// One step of the pass at node `i`: the plan it gives, if any, and the node to go on from.
fn node_step(path: &str, s: &[char], nodes: &[SourceNode], enabled: &[RuleId], i: usize) -> (r: (Option<PlanEntry>, usize))
    requires
        nodes_ok(s@, nodes@),
        i < nodes@.len(),
    ensures
        step_ok(path@, s@, nodes@, enabled@, i as int, opt_view(r.0), r.1 as int),
        r.0 matches Some(p) ==> plan_ok(s@, path@, p@),
{
    proof {
        reveal(node_pass);
    }
    let parent = &nodes[i];
    assert(node_wf(s@, parent@, 0, s@.len() as int));
    if !is_style_node(parent) {
        if rule_enabled(enabled, RuleId::ModernizeMediaRange) && (at_block_named(parent, "media") || at_block_named(
            parent,
            "container",
        )) {
            let pre = prelude_chars(s, parent);
            let pre_s = string_of(pre.as_slice());
            if let Some(m) = crate::transform::modernize_media_query_str(pre_s.as_str()) {
                let p = prelude_plan(
                    path,
                    s,
                    parent,
                    RuleId::ModernizeMediaRange,
                    Safety::Safe,
                    &m,
                    Proof::safe_local(),
                    Vec::new(),
                    "Modernize legacy media/container feature syntax to CSS Range Syntax (e.g. (width >= 800px)).",
                );
                proof {
                    assert(p@.warnings =~= seq![]);
                    reveal(prelude_plan_spec);
                    assert(p@ == media_plan(path@, s@, nodes@, i as int));
                }
                return (Some(p), i + 1);
            }
        }
        return (None, i + 1);
    }
    let sel = prelude_chars(s, parent);
    if crate::selector::contains_top_level_comma(sel.as_slice()) {
        return list_step(path, s, nodes, enabled, i, sel.as_slice());
    }
    let dc = [':', ':'];
    assert(dc@ =~= seq![':', ':']);
    assert(sel@.subrange(0, sel@.len() as int) =~= sel@);
    if crate::text::contains_in(sel.as_slice(), 0, sel.len(), &dc) {
        return (None, i + 1);
    }
    single_step(path, s, nodes, enabled, i, sel.as_slice())
}

/// Runs the node-by-node pass, appending its plans to `plans`.
#[verifier::rlimit(40)]
fn node_pass_exec(path: &str, s: &[char], nodes: &[SourceNode], enabled: &[RuleId], plans: &mut Vec<PlanEntry>)
    requires
        nodes_ok(s@, nodes@),
        plans_ok(s@, path@, old(plans)@),
    ensures
        plans_ok(s@, path@, final(plans)@),
        grows(old(plans)@, final(plans)@),
        plans_view(final(plans)@) == plans_view(old(plans)@) + node_pass(path@, s@, nodes@, enabled@, 0),
{
    let ghost start_plans = plans@;
    let ghost mut emitted: Seq<PlanView> = seq![];
    let mut i: usize = 0;
    while i < nodes.len()
        invariant
            i <= nodes@.len(),
            nodes_ok(s@, nodes@),
            plans_ok(s@, path@, plans@),
            grows(start_plans, plans@),
            plans_view(plans@) == plans_view(start_plans) + emitted,
            emitted + node_pass(path@, s@, nodes@, enabled@, i as int) == node_pass(path@, s@, nodes@, enabled@, 0),
        decreases nodes.len() - i,
    {
        let (po, next) = node_step(path, s, nodes, enabled, i);
        match po {
            Some(p) => {
                proof {
                    lemma_push_plan(s@, path@, start_plans, plans@, p);
                    assert(plans_view(plans@.push(p)) =~= plans_view(plans@).push(p@));
                    assert(emitted.push(p@) + node_pass(path@, s@, nodes@, enabled@, next as int) =~= emitted + node_pass(
                        path@,
                        s@,
                        nodes@,
                        enabled@,
                        i as int,
                    ));
                    emitted = emitted.push(p@);
                }
                plans.push(p);
            },
            None => {},
        }
        i = next;
    }
    proof {
        reveal(node_pass);
        assert(emitted =~= node_pass(path@, s@, nodes@, enabled@, 0));
    }
}

/// The plans for the nodes of `s[a..b]`: the cross-rule rewrites first, then, rule by rule,
/// media range syntax, selector-list factoring (`&`-nesting, `:is()`, `:where()`), nesting of
/// the adjacent rules that extend a rule, and `:not()` consolidation.
pub(crate) fn build_plans(path: &str, s: &[char], nodes: &Vec<SourceNode>, a: usize, b: usize, enabled: &[RuleId]) -> (r: Vec<
    PlanEntry,
>)
    requires
        a <= b <= s@.len(),
        nodes_ok(s@, nodes@),
        nodes_within(nodes@, a as int, b as int),
    ensures
        plans_ok(s@, path@, r@),
        exists|layers: Seq<PlanView>|
            plans_view(r@) == top_plans(path@, s@, nodes@, enabled@, layers) && #[trigger] is_layer_plans(
                path@,
                s@,
                nodes@,
                enabled@,
                layers,
            ),
    decreases b - a, 3int,
{
    let ns = nodes.as_slice();
    assert(ns@ == nodes@);
    let (mut plans, Ghost(layers)) = run_builders(path, s, ns, a, b, enabled);
    let ghost p0 = plans@;
    node_pass_exec(path, s, ns, enabled, &mut plans);
    proof {
        assert(plans_view(plans@) =~= top_plans(path@, s@, nodes@, enabled@, layers));
    }
    plans
}

} // verus!
