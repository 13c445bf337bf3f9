use crate::layout::{detect_indent_unit, line_indent, nodes_ok};
use crate::model::RuleId;
use crate::relation::{extract_relative_subselector, selector_relation, trimmed, RelationKind};
use crate::scanner::{node_wf, NodeKind, SourceNode};
use crate::text::{chars_eq, chars_of, line_ranges, push_range, push_reindented, trim_bounds};
use vstd::prelude::*;

verus! {

// ---------------------------------------------------------------------------
// Small helpers over nodes
// ---------------------------------------------------------------------------

/// Whether the node is an at-rule block named `lit`.
pub(crate) fn at_block_named(n: &SourceNode, lit: &str) -> (r: bool)
    ensures
        r == (n.kind matches NodeKind::AtBlock { name, .. } && name@ == lit@),
{
    match &n.kind {
        NodeKind::AtBlock { name, .. } => {
            let a = chars_of(name.as_str());
            let b = chars_of(lit);
            chars_eq(a.as_slice(), b.as_slice())
        },
        _ => false,
    }
}

pub(crate) fn is_style_node(n: &SourceNode) -> (r: bool)
    ensures
        r == (n.kind is Style),
{
    match &n.kind {
        NodeKind::Style => true,
        _ => false,
    }
}

/// The body bounds of a node that has a block.
pub(crate) fn body_of(s: &[char], n: &SourceNode) -> (r: (usize, usize))
    requires
        node_wf(s@, n@, 0, s@.len() as int),
        n.body_range is Some,
    ensures
        n.body_range matches Some(b) && r.0 == b.start && r.1 == b.end,
        n.start < r.0 <= r.1 < n.end <= s@.len(),
        r.0 == n.prelude_range.end + 1,
{
    match &n.body_range {
        Some(b) => (b.start, b.end),
        None => (0, 0),
    }
}

/// The trimmed prelude of a node, as characters.
pub(crate) fn prelude_chars(s: &[char], n: &SourceNode) -> (r: Vec<char>)
    requires
        node_wf(s@, n@, 0, s@.len() as int),
    ensures
        r@ == crate::text::trim(s@.subrange(n.prelude_range.start as int, n.prelude_range.end as int)),
{
    let (x, y) = trim_bounds(s, n.prelude_range.start, n.prelude_range.end);
    crate::selector::copy_range(s, x, y)
}

/// The non-blank lines of `s[a..b]`, each trimmed.
pub(crate) fn trimmed_line_list(s: &[char], a: usize, b: usize) -> (r: Vec<Vec<char>>)
    requires
        a <= b <= s@.len(),
    ensures
        crate::text::texts(r@) == crate::text::trimmed_lines(s@.subrange(a as int, b as int)),
{
    let rs = line_ranges(s, a, b);
    let ghost ls = crate::text::ranges_view(s@, rs@);
    let mut out: Vec<Vec<char>> = Vec::new();
    let mut i: usize = 0;
    while i < rs.len()
        invariant
            i <= rs@.len(),
            a <= b <= s@.len(),
            ls == crate::text::ranges_view(s@, rs@),
            ls == crate::text::lines(s@.subrange(a as int, b as int)),
            forall|k: int| 0 <= k < rs@.len() ==> a <= #[trigger] rs@[k].0 <= rs@[k].1 <= b,
            crate::text::texts(out@) == crate::text::trimmed_lines_of(ls.take(i as int)),
        decreases rs.len() - i,
    {
        let (x, y) = rs[i];
        let (tx, ty) = trim_bounds(s, x, y);
        let ghost before = out@;
        proof {
            assert(ls.take(i + 1).drop_last() =~= ls.take(i as int));
            assert(ls.take(i + 1).last() == ls[i as int]);
            assert(ls[i as int] == s@.subrange(x as int, y as int));
        }
        if tx < ty {
            let v = crate::selector::copy_range(s, tx, ty);
            out.push(v);
            proof {
                assert(crate::text::texts(out@) =~= crate::text::texts(before).push(v@));
            }
        }
        i = i + 1;
    }
    proof {
        assert(ls.take(rs@.len() as int) =~= ls);
    }
    out
}

/// `ind` followed by `unit`.
pub(crate) fn concat(ind: &[char], unit: &[char]) -> (r: Vec<char>)
    ensures
        r@ == ind@ + unit@,
{
    let mut r: Vec<char> = Vec::new();
    r.extend_from_slice(ind);
    r.extend_from_slice(unit);
    r
}

/// The indentation unit of a body, or `dflt` when no line of it is indented.
pub(crate) fn unit_or(s: &[char], a: usize, b: usize, dflt: &str) -> (r: Vec<char>)
    requires
        a <= b <= s@.len(),
    ensures
        match crate::layout::first_indent(crate::text::lines(s@.subrange(a as int, b as int))) {
            Some(u) => r@ == u,
            None => r@ == dflt@,
        },
{
    match detect_indent_unit(s, a, b) {
        Some(u) => u,
        None => chars_of(dflt),
    }
}

pub(crate) fn push_str(out: &mut Vec<char>, lit: &str)
    ensures
        final(out)@ == old(out)@ + lit@,
{
    let v = chars_of(lit);
    out.extend_from_slice(v.as_slice());
}

// ---------------------------------------------------------------------------
// Clusters of rules nested under a parent
// ---------------------------------------------------------------------------

/// A style rule inside a conditional block that nests under the parent.
pub enum ConditionalInner {
    Direct { body: (usize, usize) },
    Nested { nested_selector: Vec<char>, body: (usize, usize) },
}

/// A rule that joins the parent's block: a related style rule, or a conditional block whose
/// rules all target the parent. `node` is the rule's index among the scanned nodes.
pub enum ClusterChild {
    Style { node: usize, relation: RelationKind, nested_selector: Vec<char> },
    Conditional { node: usize, rule: RuleId, inners: Vec<ConditionalInner> },
}

impl ClusterChild {
    pub open spec fn node_spec(&self) -> usize {
        match self {
            ClusterChild::Style { node, .. } => *node,
            ClusterChild::Conditional { node, .. } => *node,
        }
    }

    pub fn node(&self) -> (r: usize)
        ensures
            r == self.node_spec(),
    {
        match self {
            ClusterChild::Style { node, .. } => *node,
            ClusterChild::Conditional { node, .. } => *node,
        }
    }

    pub open spec fn rule_spec(&self) -> RuleId {
        match self {
            ClusterChild::Style { relation, .. } => crate::relation::relation_rule(*relation),
            ClusterChild::Conditional { rule, .. } => *rule,
        }
    }

    pub fn rule(&self) -> (r: RuleId)
        ensures
            r == self.rule_spec(),
    {
        match self {
            ClusterChild::Style { relation, .. } => relation.rule(),
            ClusterChild::Conditional { rule, .. } => *rule,
        }
    }
}

pub open spec fn inner_ok(s: Seq<char>, c: ConditionalInner) -> bool {
    match c {
        ConditionalInner::Direct { body } => body.0 <= body.1 <= s.len(),
        ConditionalInner::Nested { body, .. } => body.0 <= body.1 <= s.len(),
    }
}

pub open spec fn child_ok(s: Seq<char>, nodes: Seq<SourceNode>, c: ClusterChild) -> bool {
    match c {
        ClusterChild::Style { node, .. } => node < nodes.len() && nodes[node as int].kind is Style,
        ClusterChild::Conditional { node, inners, .. } => node < nodes.len() && forall|k: int|
            0 <= k < inners@.len() ==> inner_ok(s, #[trigger] inners@[k]),
    }
}

/// The nesting rule for a conditional block, by its at-rule.
pub open spec fn cond_rule(n: SourceNode) -> Option<RuleId> {
    match n.kind {
        NodeKind::AtBlock { name, .. } => if name@ == "media"@ {
            Some(RuleId::NestMedia)
        } else if name@ == "supports"@ {
            Some(RuleId::NestSupports)
        } else if name@ == "container"@ {
            Some(RuleId::NestContainer)
        } else if name@ == "starting-style"@ {
            Some(RuleId::NestStartingStyle)
        } else {
            None
        },
        _ => None,
    }
}

/// Every item of `ins` is a style rule for `parent` or for a selector related to it.
pub open spec fn all_target(s: Seq<char>, ins: Seq<crate::scanner::SpecNode>, parent: Seq<char>) -> bool {
    forall|j: int|
        0 <= j < ins.len() ==> crate::scanner::is_style(#[trigger] ins[j]) && (crate::scanner::prelude_of(s, ins[j])
            == crate::text::trim(parent) || crate::relation::relation_spec(parent, crate::scanner::prelude_of(s, ins[j])) is Some)
}

/// Node `k` is a conditional block of an enabled nesting rule, not empty, whose items all
/// target `parent`.
pub open spec fn cond_child_some(s: Seq<char>, nodes: Seq<SourceNode>, parent: Seq<char>, enabled: Seq<RuleId>, k: int) -> bool {
    match cond_rule(nodes[k]) {
        Some(r) => enabled.contains(r) && match nodes[k]@.body {
            Some((x, y)) => crate::scanner::scan(s, x, y).len() > 0 && all_target(s, crate::scanner::scan(s, x, y), parent),
            None => false,
        },
        None => false,
    }
}

/// The style rules `ins` of a conditional block, as rules of the tree under `parent`: one with
/// the parent's own selector gives its declarations directly, another its relative selector.
pub open spec fn cond_inner_trees(s: Seq<char>, ins: Seq<crate::scanner::SpecNode>, parent: Seq<char>) -> Seq<TreeView> {
    ins.map_values(
        |n: crate::scanner::SpecNode|
            TreeView {
                sel: if crate::scanner::prelude_of(s, n) == crate::text::trim(parent) {
                    seq![]
                } else {
                    crate::text::trim(crate::relation::relation_spec(parent, crate::scanner::prelude_of(s, n)).unwrap().1)
                },
                lines: body_lines_of(s, n),
                subs: seq![],
                header: None,
            },
    )
}

/// The conditional block `k` as a rule of the tree under `parent`.
pub open spec fn cond_child_tree(s: Seq<char>, nodes: Seq<SourceNode>, parent: Seq<char>, k: int) -> TreeView {
    let (x, y) = nodes[k]@.body.unwrap();
    cond_tree(s, nodes[k]@, cond_inner_trees(s, crate::scanner::scan(s, x, y), parent))
}

/// A conditional block (`@media`, `@supports`, `@container`, `@starting-style`) whose style
/// rules all target `parent` or a selector related to it, as a child of `parent`'s block.
pub(crate) fn conditional_child(s: &[char], nodes: &[SourceNode], parent: &[char], idx: usize, enabled: &[RuleId]) -> (r:
    Option<ClusterChild>)
    requires
        nodes_ok(s@, nodes@),
        idx < nodes@.len(),
    ensures
        r matches Some(c) ==> child_ok(s@, nodes@, c) && c.node_spec() == idx && enabled@.contains(
            c.rule_spec(),
        ) && cond_rule(nodes@[idx as int]) == Some(c.rule_spec()) && child_step(s@, nodes@, c) == TreeStep::Push(
            cond_child_tree(s@, nodes@, parent@, idx as int),
        ),
        (r is Some) == cond_child_some(s@, nodes@, parent@, enabled@, idx as int),
{
    let node = &nodes[idx];
    assert(node_wf(s@, node@, 0, s@.len() as int));
    let rule = if at_block_named(node, "media") {
        RuleId::NestMedia
    } else if at_block_named(node, "supports") {
        RuleId::NestSupports
    } else if at_block_named(node, "container") {
        RuleId::NestContainer
    } else if at_block_named(node, "starting-style") {
        RuleId::NestStartingStyle
    } else {
        return None;
    };
    if !crate::layout::rule_enabled(enabled, rule) {
        return None;
    }
    let (x, y) = body_of(s, node);
    let inner_nodes = crate::layout::scan_in(s, x, y);
    let ghost ins = crate::scanner::scan(s@, x as int, y as int);
    if inner_nodes.len() == 0 {
        return None;
    }
    let parent_t = trimmed(parent);
    let mut inners: Vec<ConditionalInner> = Vec::new();
    let mut k: usize = 0;
    while k < inner_nodes.len()
        invariant
            k <= inner_nodes@.len(),
            nodes_ok(s@, inner_nodes@),
            crate::scanner::nodes_view(inner_nodes@) == ins,
            ins == crate::scanner::scan(s@, x as int, y as int),
            parent_t@ == crate::text::trim(parent@),
            idx < nodes@.len(),
            cond_rule(nodes@[idx as int]) == Some(rule),
            enabled@.contains(rule),
            nodes@[idx as int]@.body == Some((x as int, y as int)),
            ins.len() > 0,
            forall|j: int| 0 <= j < inners@.len() ==> inner_ok(s@, #[trigger] inners@[j]),
            inners@.map_values(|c: ConditionalInner| inner_tree(s@, c)) == cond_inner_trees(s@, ins.take(k as int), parent@),
            forall|j: int|
                0 <= j < k ==> crate::scanner::is_style(#[trigger] ins[j]) && (crate::scanner::prelude_of(s@, ins[j])
                    == crate::text::trim(parent@) || crate::relation::relation_spec(parent@, crate::scanner::prelude_of(s@, ins[j])) is Some),
        decreases inner_nodes.len() - k,
    {
        let inner = &inner_nodes[k];
        assert(node_wf(s@, inner@, 0, s@.len() as int));
        assert(ins[k as int] == inner@);
        if !is_style_node(inner) {
            assert(!all_target(s@, ins, parent@)) by {
                assert(!crate::scanner::is_style(ins[k as int]));
            }
            return None;
        }
        let ip = prelude_chars(s, inner);
        let b = body_of(s, inner);
        let ghost before = inners@;
        proof {
            assert(ins.take(k + 1) =~= ins.take(k as int).push(ins[k as int]));
            assert(ip@ == crate::scanner::prelude_of(s@, ins[k as int]));
            assert(body_lines_of(s@, ins[k as int]) == crate::text::trimmed_lines(s@.subrange(b.0 as int, b.1 as int)));
            assert(cond_inner_trees(s@, ins.take(k + 1), parent@) =~= cond_inner_trees(s@, ins.take(k as int), parent@).push(
                cond_inner_trees(s@, ins.take(k + 1), parent@)[k as int],
            ));
        }
        if chars_eq(ip.as_slice(), parent_t.as_slice()) {
            inners.push(ConditionalInner::Direct { body: b });
            proof {
                assert(inners@.map_values(|c: ConditionalInner| inner_tree(s@, c)) =~= cond_inner_trees(
                    s@,
                    ins.take(k + 1),
                    parent@,
                ));
            }
        } else {
            match selector_relation(parent, ip.as_slice()) {
                Some((_rel, nested)) => {
                    inners.push(ConditionalInner::Nested { nested_selector: nested, body: b });
                    proof {
                        assert(inners@.map_values(|c: ConditionalInner| inner_tree(s@, c)) =~= cond_inner_trees(
                            s@,
                            ins.take(k + 1),
                            parent@,
                        ));
                    }
                },
                None => {
                    assert(!all_target(s@, ins, parent@)) by {
                        assert(crate::scanner::prelude_of(s@, ins[k as int]) == ip@);
                    }
                    return None;
                },
            }
        }
        k = k + 1;
    }
    proof {
        assert(ins.take(ins.len() as int) =~= ins);
    }
    let c = ClusterChild::Conditional { node: idx, rule, inners };
    proof {
        assert(child_step(s@, nodes@, c) == TreeStep::Push(cond_child_tree(s@, nodes@, parent@, idx as int)));
    }
    Some(c)
}

/// A rule in the nested tree built for a cluster.
pub struct HierarchicalRule {
    pub relative_selector: Vec<char>,
    pub body_lines: Vec<Vec<char>>,
    pub sub_rules: Vec<HierarchicalRule>,
    pub conditional_header: Option<Vec<char>>,
}

/// A rule of the nested tree, as values: its relative selector, its declaration lines, its
/// nested rules, and the header of a conditional block.
#[verifier::ext_equal]
pub struct TreeView {
    pub sel: Seq<char>,
    pub lines: Seq<Seq<char>>,
    pub subs: Seq<TreeView>,
    pub header: Option<Seq<char>>,
}

pub open spec fn empty_tree() -> TreeView {
    TreeView { sel: seq![], lines: seq![], subs: seq![], header: None }
}

pub open spec fn tree_view(r: HierarchicalRule) -> TreeView
    decreases r,
{
    proof {
        assert(decreases_to!(r => r.sub_rules));
    }
    TreeView {
        sel: r.relative_selector@,
        lines: crate::text::texts(r.body_lines@),
        subs: tree_views(r.sub_rules),
        header: match r.conditional_header {
            Some(h) => Some(h@),
            None => None,
        },
    }
}

pub open spec fn tree_views(rs: Vec<HierarchicalRule>) -> Seq<TreeView>
    decreases rs,
{
    proof {
        assert(decreases_to!(rs => rs@));
    }
    Seq::new(
        rs@.len(),
        |i: int|
            if 0 <= i < rs@.len() {
                tree_view(rs@[i])
            } else {
                empty_tree()
            },
    )
}

/// `lines`, each on its own line after `ind`.
pub open spec fn lines_text(lines: Seq<Seq<char>>, ind: Seq<char>) -> Seq<char>
    decreases lines.len(),
{
    if lines.len() == 0 {
        seq![]
    } else {
        lines_text(lines.drop_last(), ind) + ind + lines.last() + seq!['\n']
    }
}

/// A rule of the tree written at `ind`, its nested rules one `unit` deeper.
pub open spec fn rule_text(r: TreeView, ind: Seq<char>, unit: Seq<char>) -> Seq<char>
    decreases r,
{
    match r.header {
        Some(h) => ind + h + " {\n"@ + cond_subs_text(r.subs, ind + unit, unit) + ind + "}\n"@,
        None => ind + r.sel + " {\n"@ + lines_text(r.lines, ind + unit) + plain_subs_text(r.subs, ind + unit, unit) + ind
            + "}\n"@,
    }
}

/// The rules inside a conditional block, apart by blank lines: the declarations of one without a
/// selector go straight in.
pub open spec fn cond_subs_text(subs: Seq<TreeView>, ind: Seq<char>, unit: Seq<char>) -> Seq<char>
    decreases subs,
{
    if subs.len() == 0 {
        seq![]
    } else {
        let k = subs.len() - 1;
        cond_subs_text(subs.subrange(0, k), ind, unit) + (if k > 0 {
            seq!['\n']
        } else {
            seq![]
        }) + if subs[k].sel.len() == 0 {
            lines_text(subs[k].lines, ind)
        } else {
            rule_text(subs[k], ind, unit)
        }
    }
}

/// The rules nested in a rule, each after a blank line.
pub open spec fn plain_subs_text(subs: Seq<TreeView>, ind: Seq<char>, unit: Seq<char>) -> Seq<char>
    decreases subs,
{
    if subs.len() == 0 {
        seq![]
    } else {
        let k = subs.len() - 1;
        plain_subs_text(subs.subrange(0, k), ind, unit) + seq!['\n'] + rule_text(subs[k], ind, unit)
    }
}

/// `sel` with declaration lines `lines` added to the tree `rules`: under the last rule when it
/// extends that rule's selector, else at the end.
pub open spec fn tree_insert(rules: Seq<TreeView>, sel: Seq<char>, lines: Seq<Seq<char>>) -> Seq<TreeView>
    decreases rules,
{
    let fresh = TreeView { sel, lines, subs: seq![], header: None };
    if rules.len() > 0 && rules.last().header is None && rules.last().sel.len() > 0 {
        proof {
            assert(decreases_to!(rules => rules[rules.len() - 1]));
        }
        match crate::relation::relative_spec(rules.last().sel, sel) {
            Some(rel) => rules.drop_last().push(
                TreeView { subs: tree_insert(rules.last().subs, rel, lines), ..rules.last() },
            ),
            None => rules.push(fresh),
        }
    } else {
        rules.push(fresh)
    }
}

/// Adds a style rule to the tree: under the last rule when it extends that rule's selector,
/// else at the end.
pub(crate) fn insert_hierarchical_style(root_rules: &mut Vec<HierarchicalRule>, selector: &[char], body_lines: Vec<Vec<char>>)
    ensures
        tree_views(*final(root_rules)) == tree_insert(tree_views(*old(root_rules)), selector@, crate::text::texts(body_lines@)),
    decreases old(root_rules)@,
{
    let ghost r0 = tree_views(*root_rules);
    let ghost lines = crate::text::texts(body_lines@);
    let n = root_rules.len();
    if n > 0 {
        assert(r0.last() == tree_view(root_rules@[n - 1]));
        let last_fits = root_rules[n - 1].conditional_header.is_none() && root_rules[n - 1].relative_selector.len() > 0;
        if last_fits {
            let rel = extract_relative_subselector(root_rules[n - 1].relative_selector.as_slice(), selector);
            if let Some(rel) = rel {
                let ghost old_rules = root_rules@;
                let mut last = root_rules.pop().unwrap();
                let ghost old_last = last;
                proof {
                    assert(last == old_rules[n - 1]);
                    assert(decreases_to!(old_rules => old_rules[n - 1]));
                    assert(decreases_to!(last => last.sub_rules));
                    assert(decreases_to!(last.sub_rules => last.sub_rules@));
                }
                insert_hierarchical_style(&mut last.sub_rules, rel.as_slice(), body_lines);
                root_rules.push(last);
                proof {
                    assert(tree_view(last) =~= TreeView {
                        subs: tree_insert(tree_views(old_last.sub_rules), rel@, lines),
                        ..tree_view(old_last)
                    });
                    assert(tree_views(*root_rules) =~= tree_insert(r0, selector@, lines)) by {
                        assert(r0.drop_last().push(tree_view(last)) =~= tree_views(*root_rules));
                    }
                }
                return;
            }
        }
    }
    let fresh = HierarchicalRule {
        relative_selector: crate::selector::copy_range(selector, 0, selector.len()),
        body_lines,
        sub_rules: Vec::new(),
        conditional_header: None,
    };
    proof {
        assert(selector@.subrange(0, selector@.len() as int) =~= selector@);
        assert(tree_views(fresh.sub_rules) =~= Seq::<TreeView>::empty());
    }
    root_rules.push(fresh);
    proof {
        assert(tree_view(fresh) =~= TreeView { sel: selector@, lines, subs: seq![], header: None });
        assert(tree_views(*root_rules) =~= r0.push(tree_view(fresh)));
    }
}

/// Writes one rule of the tree at `indent`, its nested rules one `unit` deeper.
pub(crate) fn render_hierarchical_rule(out: &mut Vec<char>, rule: &HierarchicalRule, indent: &[char], unit: &[char])
    ensures
        final(out)@ == old(out)@ + rule_text(tree_view(*rule), indent@, unit@),
    decreases rule,
{
    let ghost start = out@;
    let ghost subs = tree_views(rule.sub_rules);
    let inner_indent = concat(indent, unit);
    match &rule.conditional_header {
        Some(header) => {
            out.extend_from_slice(indent);
            out.extend_from_slice(header.as_slice());
            push_str(out, " {\n");
            let ghost head = out@;
            let mut idx: usize = 0;
            while idx < rule.sub_rules.len()
                invariant
                    idx <= rule.sub_rules@.len(),
                    subs == tree_views(rule.sub_rules),
                    inner_indent@ == indent@ + unit@,
                    out@ == head + cond_subs_text(subs.subrange(0, idx as int), inner_indent@, unit@),
                decreases rule.sub_rules.len() - idx,
            {
                let ghost before = out@;
                proof {
                    assert(subs.subrange(0, idx + 1).subrange(0, idx as int) =~= subs.subrange(0, idx as int));
                }
                if idx > 0 {
                    out.push('\n');
                }
                let sub = &rule.sub_rules[idx];
                assert(subs[idx as int] == tree_view(*sub));
                if sub.relative_selector.len() == 0 {
                    let ghost mid = out@;
                    let mut k: usize = 0;
                    while k < sub.body_lines.len()
                        invariant
                            k <= sub.body_lines@.len(),
                            out@ == mid + lines_text(crate::text::texts(sub.body_lines@).take(k as int), inner_indent@),
                        decreases sub.body_lines.len() - k,
                    {
                        proof {
                            let ls = crate::text::texts(sub.body_lines@);
                            assert(ls.take(k + 1).drop_last() =~= ls.take(k as int));
                        }
                        out.extend_from_slice(inner_indent.as_slice());
                        out.extend_from_slice(sub.body_lines[k].as_slice());
                        out.push('\n');
                        k = k + 1;
                    }
                    proof {
                        let ls = crate::text::texts(sub.body_lines@);
                        assert(ls.take(ls.len() as int) =~= ls);
                    }
                } else {
                    proof {
                        assert(decreases_to!(rule => rule.sub_rules));
                        assert(decreases_to!(rule.sub_rules => rule.sub_rules@));
                        assert(decreases_to!(rule.sub_rules@ => rule.sub_rules@[idx as int]));
                    }
                    render_hierarchical_rule(out, sub, inner_indent.as_slice(), unit);
                }
                proof {
                    assert(out@ =~= head + cond_subs_text(subs.subrange(0, idx + 1), inner_indent@, unit@));
                }
                idx = idx + 1;
            }
            proof {
                assert(subs.subrange(0, subs.len() as int) =~= subs);
            }
            out.extend_from_slice(indent);
            push_str(out, "}\n");
            proof {
                assert(out@ =~= start + rule_text(tree_view(*rule), indent@, unit@));
            }
        },
        None => {
            out.extend_from_slice(indent);
            out.extend_from_slice(rule.relative_selector.as_slice());
            push_str(out, " {\n");
            let ghost head = out@;
            let mut k: usize = 0;
            while k < rule.body_lines.len()
                invariant
                    k <= rule.body_lines@.len(),
                    out@ == head + lines_text(crate::text::texts(rule.body_lines@).take(k as int), inner_indent@),
                decreases rule.body_lines.len() - k,
            {
                proof {
                    let ls = crate::text::texts(rule.body_lines@);
                    assert(ls.take(k + 1).drop_last() =~= ls.take(k as int));
                }
                out.extend_from_slice(inner_indent.as_slice());
                out.extend_from_slice(rule.body_lines[k].as_slice());
                out.push('\n');
                k = k + 1;
            }
            proof {
                let ls = crate::text::texts(rule.body_lines@);
                assert(ls.take(ls.len() as int) =~= ls);
            }
            let ghost mid = out@;
            let mut idx: usize = 0;
            while idx < rule.sub_rules.len()
                invariant
                    idx <= rule.sub_rules@.len(),
                    subs == tree_views(rule.sub_rules),
                    inner_indent@ == indent@ + unit@,
                    out@ == mid + plain_subs_text(subs.subrange(0, idx as int), inner_indent@, unit@),
                decreases rule.sub_rules.len() - idx,
            {
                proof {
                    assert(subs.subrange(0, idx + 1).subrange(0, idx as int) =~= subs.subrange(0, idx as int));
                }
                out.push('\n');
                let sub = &rule.sub_rules[idx];
                assert(subs[idx as int] == tree_view(*sub));
                proof {
                    assert(decreases_to!(rule => rule.sub_rules));
                    assert(decreases_to!(rule.sub_rules => rule.sub_rules@));
                    assert(decreases_to!(rule.sub_rules@ => rule.sub_rules@[idx as int]));
                }
                render_hierarchical_rule(out, sub, inner_indent.as_slice(), unit);
                proof {
                    assert(out@ =~= mid + plain_subs_text(subs.subrange(0, idx + 1), inner_indent@, unit@));
                }
                idx = idx + 1;
            }
            proof {
                assert(subs.subrange(0, subs.len() as int) =~= subs);
            }
            out.extend_from_slice(indent);
            push_str(out, "}\n");
            proof {
                assert(out@ =~= start + rule_text(tree_view(*rule), indent@, unit@));
            }
        },
    }
}

/// What a member of a cluster does to the tree: a style rule is inserted, a conditional block
/// is added at the end.
pub enum TreeStep {
    Insert(Seq<char>, Seq<Seq<char>>),
    Push(TreeView),
}

/// The tree built by `steps`, in order.
pub open spec fn build_tree(steps: Seq<TreeStep>) -> Seq<TreeView>
    decreases steps.len(),
{
    if steps.len() == 0 {
        seq![]
    } else {
        let acc = build_tree(steps.drop_last());
        match steps.last() {
            TreeStep::Insert(sel, lines) => tree_insert(acc, sel, lines),
            TreeStep::Push(t) => acc.push(t),
        }
    }
}

/// The trimmed non-blank lines of a node's body.
pub open spec fn body_lines_of(s: Seq<char>, n: crate::scanner::SpecNode) -> Seq<Seq<char>> {
    match n.body {
        Some((x, y)) => crate::text::trimmed_lines(s.subrange(x, y)),
        None => seq![],
    }
}

/// A rule of a conditional block as a rule of the tree.
pub open spec fn inner_tree(s: Seq<char>, c: ConditionalInner) -> TreeView {
    match c {
        ConditionalInner::Direct { body } => TreeView {
            sel: seq![],
            lines: crate::text::trimmed_lines(s.subrange(body.0 as int, body.1 as int)),
            subs: seq![],
            header: None,
        },
        ConditionalInner::Nested { nested_selector, body } => TreeView {
            sel: crate::text::trim(nested_selector@),
            lines: crate::text::trimmed_lines(s.subrange(body.0 as int, body.1 as int)),
            subs: seq![],
            header: None,
        },
    }
}

/// A conditional block with the rules `subs` as a rule of the tree.
pub open spec fn cond_tree(s: Seq<char>, n: crate::scanner::SpecNode, subs: Seq<TreeView>) -> TreeView {
    TreeView { sel: seq![], lines: seq![], subs, header: Some(crate::text::trim(crate::scanner::prelude_of(s, n))) }
}

/// What the cluster member `c` does to the tree.
pub open spec fn child_step(s: Seq<char>, nodes: Seq<SourceNode>, c: ClusterChild) -> TreeStep {
    match c {
        ClusterChild::Style { node, nested_selector, .. } => TreeStep::Insert(
            crate::text::trim(nested_selector@),
            body_lines_of(s, nodes[node as int]@),
        ),
        ClusterChild::Conditional { node, inners, .. } => TreeStep::Push(
            cond_tree(s, nodes[node as int]@, inners@.map_values(|c: ConditionalInner| inner_tree(s, c))),
        ),
    }
}

pub open spec fn child_steps(s: Seq<char>, nodes: Seq<SourceNode>, cs: Seq<ClusterChild>) -> Seq<TreeStep> {
    cs.map_values(|c: ClusterChild| child_step(s, nodes, c))
}

/// The text of the rule `i` with the tree built by `steps` nested at the end of its block:
/// its own declarations re-indented one unit deeper, then each rule of the tree after a blank
/// line.
pub open spec fn cluster_text(s: Seq<char>, nodes: Seq<SourceNode>, i: int, steps: Seq<TreeStep>) -> Seq<char> {
    let n = nodes[i]@;
    let (bx, by) = n.body.unwrap();
    let pind = crate::layout::line_indent_spec(s, n.start);
    let unit = crate::planner::body_unit(s, n, "  "@);
    s.subrange(n.start, bx) + (if crate::text::trim(s.subrange(bx, by)).len() > 0 {
        seq!['\n'] + crate::text::reindent(s.subrange(bx, by), pind + unit)
    } else {
        seq![]
    }) + plain_subs_text(build_tree(steps), pind + unit, unit) + pind + seq!['}']
}

pub open spec fn children_ok(s: Seq<char>, nodes: Seq<SourceNode>, cs: Seq<ClusterChild>) -> bool {
    forall|k: int| 0 <= k < cs.len() ==> child_ok(s, nodes, #[trigger] cs[k])
}

/// The parent rule with every child nested in its block, as a tree of relative selectors.
pub(crate) fn render_cluster(s: &[char], nodes: &[SourceNode], parent: usize, children: &Vec<ClusterChild>) -> (r: Vec<char>)
    requires
        nodes_ok(s@, nodes@),
        parent < nodes@.len(),
        nodes@[parent as int].kind is Style,
        children_ok(s@, nodes@, children@),
    ensures
        r@ == cluster_text(s@, nodes@, parent as int, child_steps(s@, nodes@, children@)),
{
    let ghost steps = child_steps(s@, nodes@, children@);
    let pn = &nodes[parent];
    assert(node_wf(s@, pn@, 0, s@.len() as int));
    let (bx, by) = body_of(s, pn);
    let parent_indent = line_indent(s, pn.start);
    let unit = unit_or(s, bx, by, "  ");
    let nested_indent = concat(parent_indent.as_slice(), unit.as_slice());
    let mut out: Vec<char> = Vec::new();
    push_range(&mut out, s, pn.start, bx);
    let (tx, ty) = trim_bounds(s, bx, by);
    if tx < ty {
        out.push('\n');
        push_reindented(&mut out, s, bx, by, nested_indent.as_slice());
    }
    let ghost head = out@;
    let mut root_rules: Vec<HierarchicalRule> = Vec::new();
    proof {
        assert(tree_views(root_rules) =~= build_tree(steps.take(0)));
    }
    let mut k: usize = 0;
    while k < children.len()
        invariant
            k <= children@.len(),
            nodes_ok(s@, nodes@),
            children_ok(s@, nodes@, children@),
            steps == child_steps(s@, nodes@, children@),
            tree_views(root_rules) == build_tree(steps.take(k as int)),
        decreases children.len() - k,
    {
        let child = &children[k];
        assert(child_ok(s@, nodes@, children@[k as int]));
        proof {
            assert(steps.take(k + 1).drop_last() =~= steps.take(k as int));
            assert(steps.take(k + 1).last() == child_step(s@, nodes@, *child));
        }
        match child {
            ClusterChild::Style { node, nested_selector, .. } => {
                let n = &nodes[*node];
                assert(node_wf(s@, n@, 0, s@.len() as int));
                let (x, y) = body_of(s, n);
                let lines = trimmed_line_list(s, x, y);
                let sel = trimmed(nested_selector.as_slice());
                insert_hierarchical_style(&mut root_rules, sel.as_slice(), lines);
            },
            ClusterChild::Conditional { node, inners, .. } => {
                let n = &nodes[*node];
                assert(node_wf(s@, n@, 0, s@.len() as int));
                let header = prelude_chars(s, n);
                let ghost want = inners@.map_values(|c: ConditionalInner| inner_tree(s@, c));
                let mut subs: Vec<HierarchicalRule> = Vec::new();
                let mut j: usize = 0;
                while j < inners.len()
                    invariant
                        j <= inners@.len(),
                        forall|q: int| 0 <= q < inners@.len() ==> inner_ok(s@, #[trigger] inners@[q]),
                        want == inners@.map_values(|c: ConditionalInner| inner_tree(s@, c)),
                        tree_views(subs) == want.take(j as int),
                    decreases inners.len() - j,
                {
                    assert(inner_ok(s@, inners@[j as int]));
                    let ghost before = subs;
                    match &inners[j] {
                        ConditionalInner::Direct { body } => {
                            let lines = trimmed_line_list(s, body.0, body.1);
                            let sub = HierarchicalRule {
                                relative_selector: Vec::new(),
                                body_lines: lines,
                                sub_rules: Vec::new(),
                                conditional_header: None,
                            };
                            proof {
                                assert(tree_views(sub.sub_rules) =~= Seq::<TreeView>::empty());
                                assert(tree_view(sub) =~= want[j as int]);
                            }
                            subs.push(sub);
                        },
                        ConditionalInner::Nested { nested_selector, body } => {
                            let lines = trimmed_line_list(s, body.0, body.1);
                            let sub = HierarchicalRule {
                                relative_selector: trimmed(nested_selector.as_slice()),
                                body_lines: lines,
                                sub_rules: Vec::new(),
                                conditional_header: None,
                            };
                            proof {
                                assert(tree_views(sub.sub_rules) =~= Seq::<TreeView>::empty());
                                assert(tree_view(sub) =~= want[j as int]);
                            }
                            subs.push(sub);
                        },
                    }
                    proof {
                        assert(tree_views(subs) =~= tree_views(before).push(want[j as int]));
                        assert(want.take(j + 1) =~= want.take(j as int).push(want[j as int]));
                    }
                    j = j + 1;
                }
                proof {
                    assert(want.take(inners@.len() as int) =~= want);
                }
                let ghost before_roots = root_rules;
                let cr = HierarchicalRule {
                    relative_selector: Vec::new(),
                    body_lines: Vec::new(),
                    sub_rules: subs,
                    conditional_header: Some(trimmed(header.as_slice())),
                };
                proof {
                    assert(crate::text::texts(cr.body_lines@) =~= Seq::<Seq<char>>::empty());
                    assert(tree_view(cr) =~= cond_tree(s@, nodes@[*node as int]@, want));
                }
                root_rules.push(cr);
                proof {
                    assert(tree_views(root_rules) =~= tree_views(before_roots).push(tree_view(cr)));
                }
            },
        }
        k = k + 1;
    }
    proof {
        assert(steps.take(children@.len() as int) =~= steps);
    }
    let ghost roots = tree_views(root_rules);
    let mut q: usize = 0;
    while q < root_rules.len()
        invariant
            q <= root_rules@.len(),
            roots == tree_views(root_rules),
            nested_indent@ == parent_indent@ + unit@,
            out@ == head + plain_subs_text(roots.subrange(0, q as int), nested_indent@, unit@),
        decreases root_rules.len() - q,
    {
        proof {
            assert(roots.subrange(0, q + 1).subrange(0, q as int) =~= roots.subrange(0, q as int));
        }
        out.push('\n');
        render_hierarchical_rule(&mut out, &root_rules[q], nested_indent.as_slice(), unit.as_slice());
        proof {
            assert(out@ =~= head + plain_subs_text(roots.subrange(0, q + 1), nested_indent@, unit@));
        }
        q = q + 1;
    }
    proof {
        assert(roots.subrange(0, roots.len() as int) =~= roots);
    }
    out.extend_from_slice(parent_indent.as_slice());
    out.push('}');
    proof {
        assert(out@ =~= cluster_text(s@, nodes@, parent as int, steps));
    }
    out
}

/// Where the reading of a rule body stands: the brace depth, the text of the nested block and
/// of the declaration being read, whether inside a comment, and what was found so far.
pub struct BodyScan {
    pub depth: nat,
    pub block: Seq<char>,
    pub decl: Seq<char>,
    pub in_comment: bool,
    pub decls: Seq<Seq<char>>,
    pub nested: Seq<Seq<char>>,
}

pub open spec fn body_scan_start() -> BodyScan {
    BodyScan { depth: 0, block: seq![], decl: seq![], in_comment: false, decls: seq![], nested: seq![] }
}

/// `t` appended to `v` when it is not empty.
pub open spec fn push_nonempty(v: Seq<Seq<char>>, t: Seq<char>) -> Seq<Seq<char>> {
    if t.len() > 0 {
        v.push(t)
    } else {
        v
    }
}

/// A line break ends a declaration when what was read so far, trimmed, has a colon, does
/// not end in `{`, and the rest of the body does not start (past whitespace) with `{`.
pub open spec fn line_ends_decl(b: Seq<char>, i: int, decl: Seq<char>) -> bool {
    let t = crate::text::trim(decl);
    let rest = crate::text::trim(b.subrange(i + 1, b.len() as int));
    &&& t.len() > 0
    &&& crate::text::contains(t, seq![':'])
    &&& t.last() != '{'
    &&& !(rest.len() > 0 && rest[0] == '{')
}

/// One step of reading the body `b` at position `i`: the next position and state.
pub open spec fn body_step(b: Seq<char>, i: int, st: BodyScan) -> (int, BodyScan) {
    let c = b[i];
    let comment_close = c == '*' && i + 1 < b.len() && b[i + 1] == '/';
    if st.in_comment {
        if comment_close {
            (i + 2, BodyScan { decl: st.decl + seq!['*', '/'], block: st.block + seq!['*', '/'], in_comment: false, ..st })
        } else {
            (i + 1, BodyScan { decl: st.decl.push(c), block: st.block.push(c), ..st })
        }
    } else if c == '/' && i + 1 < b.len() && b[i + 1] == '*' {
        (i + 2, BodyScan { decl: st.decl + seq!['/', '*'], block: st.block + seq!['/', '*'], in_comment: true, ..st })
    } else if c == '{' {
        if st.depth == 0 {
            (i + 1, BodyScan { depth: 1, block: st.decl.push('{'), decl: seq![], ..st })
        } else {
            (i + 1, BodyScan { depth: st.depth + 1, block: st.block.push('{'), ..st })
        }
    } else if c == '}' {
        if st.depth == 0 {
            (i + 1, st)
        } else if st.depth == 1 {
            (
                i + 1,
                BodyScan {
                    depth: 0,
                    nested: push_nonempty(st.nested, crate::text::trim(st.block.push('}'))),
                    block: seq![],
                    decl: seq![],
                    ..st
                },
            )
        } else {
            (i + 1, BodyScan { depth: (st.depth - 1) as nat, block: st.block.push('}'), ..st })
        }
    } else if st.depth > 0 {
        (i + 1, BodyScan { block: st.block.push(c), ..st })
    } else if c == ';' {
        (i + 1, BodyScan { decls: push_nonempty(st.decls, crate::text::trim(st.decl.push(';'))), decl: seq![], ..st })
    } else if c == '\n' {
        if line_ends_decl(b, i, st.decl) {
            (i + 1, BodyScan { decls: st.decls.push(crate::text::trim(st.decl)), decl: seq![], ..st })
        } else {
            (i + 1, BodyScan { decl: st.decl.push('\n'), ..st })
        }
    } else {
        (i + 1, BodyScan { decl: st.decl.push(c), ..st })
    }
}

/// The state after reading the body `b` from position `i` on.
pub open spec fn body_scan(b: Seq<char>, i: int, st: BodyScan) -> BodyScan
    decreases b.len() - i,
{
    if i < 0 || i >= b.len() {
        st
    } else {
        let (j, next) = body_step(b, i, st);
        if j <= i {
            st
        } else {
            body_scan(b, j, next)
        }
    }
}

/// The declarations and the nested rules of a rule body, each trimmed; a trailing text with a
/// colon counts as a declaration.
pub open spec fn body_items(b: Seq<char>) -> (Seq<Seq<char>>, Seq<Seq<char>>) {
    let st = body_scan(b, 0, body_scan_start());
    let t = crate::text::trim(st.decl);
    (if t.len() > 0 && crate::text::contains(t, seq![':']) {
        st.decls.push(t)
    } else {
        st.decls
    }, st.nested)
}

/// Splits a rule body into its top-level declarations and its nested rule blocks, each
/// trimmed. Comments stay attached to what follows them.
pub(crate) fn parse_rule_body_items(b: &[char]) -> (r: (Vec<Vec<char>>, Vec<Vec<char>>))
    ensures
        crate::text::texts(r.0@) == body_items(b@).0,
        crate::text::texts(r.1@) == body_items(b@).1,
{
    let mut declarations: Vec<Vec<char>> = Vec::new();
    let mut nested_rules: Vec<Vec<char>> = Vec::new();
    let mut depth: usize = 0;
    let mut block: Vec<char> = Vec::new();
    let mut decl: Vec<char> = Vec::new();
    let mut in_comment = false;
    let n = b.len();
    let colon = [':'];
    assert(colon@ =~= seq![':']);
    proof {
        assert(crate::text::texts(declarations@) =~= seq![]);
        assert(crate::text::texts(nested_rules@) =~= seq![]);
        assert(block@ =~= seq![]);
        assert(decl@ =~= seq![]);
    }
    let mut i: usize = 0;
    while i < n
        invariant
            n == b@.len(),
            i <= n,
            depth <= i,
            colon@ == seq![':'],
            body_scan(b@, 0, body_scan_start()) == body_scan(
                b@,
                i as int,
                BodyScan {
                    depth: depth as nat,
                    block: block@,
                    decl: decl@,
                    in_comment,
                    decls: crate::text::texts(declarations@),
                    nested: crate::text::texts(nested_rules@),
                },
            ),
        decreases n - i,
    {
        let ghost st = BodyScan {
            depth: depth as nat,
            block: block@,
            decl: decl@,
            in_comment,
            decls: crate::text::texts(declarations@),
            nested: crate::text::texts(nested_rules@),
        };
        let ghost step = body_step(b@, i as int, st);
        let ghost dl = declarations@;
        let ghost nl = nested_rules@;
        if in_comment {
            decl.push(b[i]);
            block.push(b[i]);
            if b[i] == '*' && i + 1 < n && b[i + 1] == '/' {
                decl.push('/');
                block.push('/');
                i = i + 2;
                in_comment = false;
                proof {
                    assert(decl@ =~= step.1.decl);
                    assert(block@ =~= step.1.block);
                }
                continue;
            }
            i = i + 1;
            continue;
        }
        if b[i] == '/' && i + 1 < n && b[i + 1] == '*' {
            in_comment = true;
            decl.push('/');
            decl.push('*');
            block.push('/');
            block.push('*');
            i = i + 2;
            proof {
                assert(decl@ =~= step.1.decl);
                assert(block@ =~= step.1.block);
            }
            continue;
        }
        let c = b[i];
        if c == '{' {
            depth = depth + 1;
            if depth == 1 {
                block = crate::selector::copy_range(decl.as_slice(), 0, decl.len());
                decl = Vec::new();
                proof {
                    assert(block@ =~= st.decl);
                    assert(decl@ =~= seq![]);
                }
            }
            block.push('{');
            i = i + 1;
            continue;
        } else if c == '}' {
            if depth > 0 {
                depth = depth - 1;
                block.push('}');
                if depth == 0 {
                    let t = trimmed(block.as_slice());
                    if t.len() > 0 {
                        nested_rules.push(t);
                    }
                    proof {
                        assert(crate::text::texts(nested_rules@) =~= push_nonempty(crate::text::texts(nl), t@));
                    }
                    block = Vec::new();
                    decl = Vec::new();
                    proof {
                        assert(block@ =~= seq![]);
                        assert(decl@ =~= seq![]);
                    }
                }
            }
            i = i + 1;
            continue;
        }
        if depth > 0 {
            block.push(c);
        } else if c == ';' {
            decl.push(';');
            let t = trimmed(decl.as_slice());
            if t.len() > 0 {
                declarations.push(t);
            }
            proof {
                assert(crate::text::texts(declarations@) =~= push_nonempty(crate::text::texts(dl), t@));
            }
            decl = Vec::new();
            proof {
                assert(decl@ =~= seq![]);
            }
        } else if c == '\n' {
            let t = trimmed(decl.as_slice());
            let has_colon = crate::text::contains_in(t.as_slice(), 0, t.len(), &colon);
            proof {
                assert(t@.subrange(0, t@.len() as int) =~= t@);
            }
            let ends_open = t.len() > 0 && t[t.len() - 1] == '{';
            if t.len() > 0 && has_colon && !ends_open {
                let (rx, ry) = trim_bounds(b, i + 1, n);
                proof {
                    let rest = crate::text::trim(b@.subrange(i + 1, n as int));
                    assert(b@.subrange(rx as int, ry as int) == rest);
                    if rx < ry {
                        assert(rest[0] == b@[rx as int]);
                    }
                }
                if !(rx < ry && b[rx] == '{') {
                    declarations.push(t);
                    decl = Vec::new();
                    proof {
                        assert(crate::text::texts(declarations@) =~= crate::text::texts(dl).push(t@));
                        assert(decl@ =~= seq![]);
                    }
                } else {
                    decl.push('\n');
                }
            } else {
                decl.push('\n');
            }
        } else {
            decl.push(c);
        }
        i = i + 1;
    }
    let trailing = trimmed(decl.as_slice());
    let ghost dl = declarations@;
    proof {
        assert(trailing@.subrange(0, trailing@.len() as int) =~= trailing@);
    }
    if trailing.len() > 0 && crate::text::contains_in(trailing.as_slice(), 0, trailing.len(), &colon) {
        declarations.push(trailing);
        proof {
            assert(crate::text::texts(declarations@) =~= crate::text::texts(dl).push(trailing@));
        }
    }
    (declarations, nested_rules)
}

/// The lines of `v`, as `str::lines` yields them.
pub(crate) fn line_list(v: &[char]) -> (r: Vec<Vec<char>>)
    ensures
        crate::text::texts(r@) == crate::text::lines(v@),
{
    let rs = line_ranges(v, 0, v.len());
    let ghost ls = crate::text::ranges_view(v@, rs@);
    proof {
        assert(v@.subrange(0, v@.len() as int) =~= v@);
    }
    let mut out: Vec<Vec<char>> = Vec::new();
    let mut i: usize = 0;
    while i < rs.len()
        invariant
            i <= rs@.len(),
            ls == crate::text::ranges_view(v@, rs@),
            forall|k: int| 0 <= k < rs@.len() ==> 0 <= #[trigger] rs@[k].0 <= rs@[k].1 <= v@.len(),
            crate::text::texts(out@) == ls.take(i as int),
        decreases rs.len() - i,
    {
        let (x, y) = rs[i];
        let ghost before = out@;
        let piece = crate::selector::copy_range(v, x, y);
        out.push(piece);
        proof {
            assert(crate::text::texts(out@) =~= crate::text::texts(before).push(piece@));
            assert(ls.take(i + 1) =~= ls.take(i as int).push(ls[i as int]));
        }
        i = i + 1;
    }
    proof {
        assert(ls.take(rs@.len() as int) =~= ls);
    }
    out
}

/// Each declaration followed by a line break.
pub open spec fn decl_lines(d: Seq<Seq<char>>) -> Seq<char>
    decreases d.len(),
{
    if d.len() == 0 {
        seq![]
    } else {
        decl_lines(d.drop_last()) + d.last() + seq!['\n']
    }
}

/// Each text with `ind` in front.
pub open spec fn indent_each(ind: Seq<char>, d: Seq<Seq<char>>) -> Seq<Seq<char>> {
    d.map_values(|x: Seq<char>| ind + x)
}

/// The nested rule for a related selector `rel` with declarations `d` and nested rules `nr`.
pub open spec fn related_rule_text(rel: Seq<char>, d: Seq<Seq<char>>, nr: Seq<Seq<char>>) -> Seq<char> {
    if nr.len() == 0 {
        rel + " {\n    "@ + decl_lines(d) + seq!['}']
    } else {
        rel + " {\n"@ + crate::text::join(indent_each("    "@, d) + nr, seq!['\n']) + "\n}"@
    }
}

/// The declarations and the nested rules gathered from the first `k` rules of `cluster` for a
/// merged rule of selector `first`: a rule of that selector gives its own, a related rule
/// (`first:hover`, `first .x`) gives one nested rule, any other rule nothing.
pub open spec fn merged_items(s: Seq<char>, nodes: Seq<SourceNode>, cluster: Seq<usize>, first: Seq<char>, k: int) -> (Seq<
    Seq<char>,
>, Seq<Seq<char>>)
    decreases k,
{
    if k <= 0 {
        (seq![], seq![])
    } else {
        let prev = merged_items(s, nodes, cluster, first, k - 1);
        let c = nodes[cluster[k - 1] as int]@;
        match c.body {
            Some((x, y)) => {
                let cand = crate::scanner::prelude_of(s, c);
                let items = body_items(s.subrange(x, y));
                if cand == first {
                    (prev.0 + items.0, prev.1 + items.1)
                } else {
                    match crate::relation::related_spec(first, cand) {
                        Some(rel) => (prev.0, prev.1.push(related_rule_text(rel, items.0, items.1))),
                        None => prev,
                    }
                }
            },
            None => prev,
        }
    }
}

/// The middle lines of a nested rule (all but its first and last), trimmed and indented with
/// `inner`; a blank one stays blank.
pub open spec fn middle_lines(ls: Seq<Seq<char>>, inner: Seq<char>) -> Seq<Seq<char>> {
    Seq::new(
        if ls.len() >= 2 {
            (ls.len() - 2) as nat
        } else {
            0
        },
        |q: int|
            if crate::text::trim(ls[q + 1]).len() == 0 {
                seq![]
            } else {
                inner + crate::text::trim(ls[q + 1])
            },
    )
}

/// The lines of one nested rule in a merged rule: its first and last lines under `nested`, the
/// others under `inner`, and a blank line after it when `more` rules follow.
pub open spec fn nested_block_lines(nr: Seq<char>, more: bool, nested: Seq<char>, inner: Seq<char>) -> Seq<Seq<char>> {
    let ls = crate::text::lines(nr);
    if ls.len() == 0 {
        seq![]
    } else {
        seq![nested + crate::text::trim(ls[0])] + middle_lines(ls, inner) + (if ls.len() > 1 {
            seq![nested + crate::text::trim(ls.last())]
        } else {
            seq![]
        }) + (if more {
            seq![seq![]]
        } else {
            seq![]
        })
    }
}

/// The lines of the first `k` of the nested rules `nrs` in a merged rule.
pub open spec fn nested_blocks(nrs: Seq<Seq<char>>, k: int, nested: Seq<char>, inner: Seq<char>) -> Seq<Seq<char>>
    decreases k,
{
    if k <= 0 {
        seq![]
    } else {
        nested_blocks(nrs, k - 1, nested, inner) + nested_block_lines(nrs[k - 1], k < nrs.len(), nested, inner)
    }
}

/// One rule for `first` holding, under `parent + unit`, the declarations of the cluster's rules
/// for that selector and, after a blank line, the nested and the related rules.
pub open spec fn merged_rule_text(s: Seq<char>, nodes: Seq<SourceNode>, cluster: Seq<usize>, first: Seq<char>, parent: Seq<char>, unit: Seq<
    char,
>) -> Seq<char> {
    let items = merged_items(s, nodes, cluster, first, cluster.len() as int);
    let nested = parent + unit;
    let inner = parent + unit + unit;
    let lines = indent_each(nested, items.0) + (if items.0.len() > 0 && items.1.len() > 0 {
        seq![seq![]]
    } else {
        seq![]
    }) + nested_blocks(items.1, items.1.len() as int, nested, inner);
    parent + first + " {\n"@ + crate::text::join(lines, seq!['\n']) + seq!['\n'] + parent + seq!['}']
}

/// Each item with `ind` in front.
fn indented_items(ind: &[char], items: &Vec<Vec<char>>) -> (r: Vec<Vec<char>>)
    ensures
        crate::text::texts(r@) == indent_each(ind@, crate::text::texts(items@)),
{
    let mut out: Vec<Vec<char>> = Vec::new();
    let mut j: usize = 0;
    while j < items.len()
        invariant
            j <= items@.len(),
            crate::text::texts(out@) == indent_each(ind@, crate::text::texts(items@).take(j as int)),
        decreases items.len() - j,
    {
        let ghost before = out@;
        let l = concat(ind, items[j].as_slice());
        out.push(l);
        proof {
            assert(crate::text::texts(out@) =~= crate::text::texts(before).push(l@));
            assert(indent_each(ind@, crate::text::texts(items@).take(j + 1)) =~= indent_each(ind@, crate::text::texts(items@).take(j as int)).push(ind@ + items@[j as int]@));
        }
        j = j + 1;
    }
    proof {
        assert(crate::text::texts(items@).take(items@.len() as int) =~= crate::text::texts(items@));
    }
    out
}

/// The nested rule for the related selector `rel` of a rule with declarations `d` and nested
/// rules `nr`.
fn related_rule(rel: Vec<char>, d: &Vec<Vec<char>>, nr: &Vec<Vec<char>>) -> (r: Vec<char>)
    ensures
        r@ == related_rule_text(rel@, crate::text::texts(d@), crate::text::texts(nr@)),
{
    let mut rule_text = rel;
    let ghost start = rule_text@;
    if nr.len() == 0 {
        push_str(&mut rule_text, " {\n    ");
        let ghost head = rule_text@;
        let mut j: usize = 0;
        while j < d.len()
            invariant
                j <= d@.len(),
                rule_text@ == head + decl_lines(crate::text::texts(d@).take(j as int)),
            decreases d.len() - j,
        {
            rule_text.extend_from_slice(d[j].as_slice());
            rule_text.push('\n');
            proof {
                let t = crate::text::texts(d@).take(j + 1);
                assert(t.drop_last() =~= crate::text::texts(d@).take(j as int));
                assert(rule_text@ =~= head + decl_lines(t));
            }
            j = j + 1;
        }
        rule_text.push('}');
        proof {
            assert(crate::text::texts(d@).take(d@.len() as int) =~= crate::text::texts(d@));
            assert(crate::text::texts(nr@).len() == 0);
        }
    } else {
        let four = chars_of("    ");
        let mut body_lines = indented_items(four.as_slice(), d);
        let ghost dl = crate::text::texts(body_lines@);
        let mut j: usize = 0;
        while j < nr.len()
            invariant
                j <= nr@.len(),
                crate::text::texts(body_lines@) == dl + crate::text::texts(nr@).take(j as int),
            decreases nr.len() - j,
        {
            let ghost before = body_lines@;
            let piece = crate::selector::copy_range(nr[j].as_slice(), 0, nr[j].len());
            body_lines.push(piece);
            proof {
                assert(nr@[j as int]@.subrange(0, nr@[j as int]@.len() as int) =~= nr@[j as int]@);
                assert(crate::text::texts(body_lines@) =~= crate::text::texts(before).push(piece@));
                assert(crate::text::texts(nr@).take(j + 1) =~= crate::text::texts(nr@).take(j as int).push(nr@[j as int]@));
            }
            j = j + 1;
        }
        proof {
            assert(crate::text::texts(nr@).take(nr@.len() as int) =~= crate::text::texts(nr@));
        }
        push_str(&mut rule_text, " {\n");
        let nl = ['\n'];
        assert(nl@ =~= seq!['\n']);
        crate::text::push_joined(&mut rule_text, &body_lines, &nl);
        push_str(&mut rule_text, "\n}");
    }
    rule_text
}

/// The lines of one nested rule in a merged rule (see `nested_block_lines`).
fn push_nested_block(out: &mut Vec<Vec<char>>, nr: &[char], more: bool, nested: &[char], inner: &[char])
    ensures
        crate::text::texts(final(out)@) == crate::text::texts(old(out)@) + nested_block_lines(nr@, more, nested@, inner@),
{
    let ls = line_list(nr);
    let ghost lv = crate::text::texts(ls@);
    let ghost start = crate::text::texts(out@);
    if ls.len() > 0 {
        let first = trimmed(ls[0].as_slice());
        let ghost before_first = out@;
        let fl = concat(nested, first.as_slice());
        out.push(fl);
        let ghost after_first = crate::text::texts(out@);
        proof {
            assert(lv[0] == ls@[0]@);
            assert(after_first =~= crate::text::texts(before_first).push(fl@));
            assert(after_first =~= start + seq![nested@ + crate::text::trim(lv[0])]);
        }
        let mut m: usize = 1;
        while m < ls.len() - 1
            invariant
                1 <= m,
                ls@.len() > 0,
                m == 1 || m <= ls@.len() - 1,
                lv == crate::text::texts(ls@),
                crate::text::texts(out@) == after_first + middle_lines(lv, inner@).take(m - 1),
            decreases ls.len() - m,
        {
            let ghost before = out@;
            let t = trimmed(ls[m].as_slice());
            let line = if t.len() == 0 {
                Vec::new()
            } else {
                concat(inner, t.as_slice())
            };
            out.push(line);
            proof {
                assert(lv[m as int] == ls@[m as int]@);
                assert(crate::text::texts(out@) =~= crate::text::texts(before).push(line@));
                assert(middle_lines(lv, inner@).take(m as int) =~= middle_lines(lv, inner@).take(m - 1).push(line@));
            }
            m = m + 1;
        }
        proof {
            if ls@.len() >= 2 {
                assert(middle_lines(lv, inner@).take(m - 1) =~= middle_lines(lv, inner@));
            } else {
                assert(middle_lines(lv, inner@).take(m - 1) =~= middle_lines(lv, inner@));
            }
        }
        let ghost mid = crate::text::texts(out@);
        assert(mid == start + seq![nested@ + crate::text::trim(lv[0])] + middle_lines(lv, inner@));
        if ls.len() > 1 {
            let last = trimmed(ls[ls.len() - 1].as_slice());
            let ghost before_last = out@;
            let ll = concat(nested, last.as_slice());
            out.push(ll);
            proof {
                assert(lv.last() == ls@[ls@.len() - 1]@);
                assert(crate::text::texts(out@) =~= crate::text::texts(before_last).push(ll@));
            }
        }
        let ghost after_last = crate::text::texts(out@);
        assert(after_last =~= mid + (if lv.len() > 1 {
            seq![nested@ + crate::text::trim(lv.last())]
        } else {
            seq![]
        }));
        let ghost before_more = out@;
        if more {
            let blank: Vec<char> = Vec::new();
            out.push(blank);
            proof {
                assert(crate::text::texts(out@) =~= crate::text::texts(before_more).push(blank@));
                assert(blank@ =~= seq![]);
            }
        }
        proof {
            assert(crate::text::texts(out@) =~= after_last + (if more {
                seq![seq![]]
            } else {
                seq![]
            }));
            assert(crate::text::texts(out@) =~= start + nested_block_lines(nr@, more, nested@, inner@));
        }
    } else {
        proof {
            assert(crate::text::texts(out@) =~= start + nested_block_lines(nr@, more, nested@, inner@));
        }
    }
}

/// The declarations and the nested rules the first `k` rules of `cluster` give to a merged
/// rule for `first_sel` (see `merged_items`).
fn gather_items(first_sel: &[char], cluster: &Vec<usize>, s: &[char], nodes: &[SourceNode]) -> (r: (Vec<Vec<char>>, Vec<Vec<char>>))
    requires
        nodes_ok(s@, nodes@),
        forall|k: int| 0 <= k < cluster@.len() ==> #[trigger] cluster@[k] < nodes@.len(),
    ensures
        crate::text::texts(r.0@) == merged_items(s@, nodes@, cluster@, first_sel@, cluster@.len() as int).0,
        crate::text::texts(r.1@) == merged_items(s@, nodes@, cluster@, first_sel@, cluster@.len() as int).1,
{
    let mut all_decls: Vec<Vec<char>> = Vec::new();
    let mut all_nested: Vec<Vec<char>> = Vec::new();
    proof {
        assert(crate::text::texts(all_decls@) =~= seq![]);
        assert(crate::text::texts(all_nested@) =~= seq![]);
    }
    let mut k: usize = 0;
    while k < cluster.len()
        invariant
            k <= cluster@.len(),
            nodes_ok(s@, nodes@),
            forall|q: int| 0 <= q < cluster@.len() ==> #[trigger] cluster@[q] < nodes@.len(),
            crate::text::texts(all_decls@) == merged_items(s@, nodes@, cluster@, first_sel@, k as int).0,
            crate::text::texts(all_nested@) == merged_items(s@, nodes@, cluster@, first_sel@, k as int).1,
        decreases cluster.len() - k,
    {
        assert(cluster@[k as int] < nodes@.len());
        let c = &nodes[cluster[k]];
        assert(node_wf(s@, c@, 0, s@.len() as int));
        let cand = prelude_chars(s, c);
        let ghost ad = crate::text::texts(all_decls@);
        let ghost an = crate::text::texts(all_nested@);
        match &c.body_range {
            Some(br) => {
                let body = crate::selector::copy_range(s, br.start, br.end);
                if chars_eq(cand.as_slice(), first_sel) {
                    let (mut d, mut nr) = parse_rule_body_items(body.as_slice());
                    let ghost dv = crate::text::texts(d@);
                    let ghost nv = crate::text::texts(nr@);
                    all_decls.append(&mut d);
                    all_nested.append(&mut nr);
                    proof {
                        assert(crate::text::texts(all_decls@) =~= ad + dv);
                        assert(crate::text::texts(all_nested@) =~= an + nv);
                    }
                } else {
                    match crate::relation::extract_related_nested_selector(first_sel, cand.as_slice()) {
                        Some(rel) => {
                            let (d, nr) = parse_rule_body_items(body.as_slice());
                            let rule_text = related_rule(rel, &d, &nr);
                            all_nested.push(rule_text);
                            proof {
                                assert(crate::text::texts(all_nested@) =~= an.push(rule_text@));
                            }
                        },
                        None => {},
                    }
                }
            },
            None => {},
        }
        k = k + 1;
    }
    (all_decls, all_nested)
}

/// One rule for `first_sel` holding the declarations of the cluster's rules for that
/// selector and, nested, the rules of the cluster that relate to it.
pub(crate) fn format_merged_rule(
    first_sel: &[char],
    parent_indent: &[char],
    unit: &[char],
    cluster: &Vec<usize>,
    s: &[char],
    nodes: &[SourceNode],
) -> (r: Vec<char>)
    requires
        nodes_ok(s@, nodes@),
        forall|k: int| 0 <= k < cluster@.len() ==> #[trigger] cluster@[k] < nodes@.len(),
    ensures
        r@ == merged_rule_text(s@, nodes@, cluster@, first_sel@, parent_indent@, unit@),
{
    let nested_indent = concat(parent_indent, unit);
    let inner_indent = concat(nested_indent.as_slice(), unit);
    let (all_decls, all_nested) = gather_items(first_sel, cluster, s, nodes);
    let ghost items = merged_items(s@, nodes@, cluster@, first_sel@, cluster@.len() as int);
    let mut body_lines = indented_items(nested_indent.as_slice(), &all_decls);
    if all_decls.len() > 0 && all_nested.len() > 0 {
        body_lines.push(Vec::new());
    }
    let ghost head = crate::text::texts(body_lines@);
    assert(head =~= indent_each(nested_indent@, items.0) + (if items.0.len() > 0 && items.1.len() > 0 {
        seq![seq![]]
    } else {
        seq![]
    }));
    let mut idx: usize = 0;
    while idx < all_nested.len()
        invariant
            idx <= all_nested@.len(),
            items.1 == crate::text::texts(all_nested@),
            crate::text::texts(body_lines@) == head + nested_blocks(items.1, idx as int, nested_indent@, inner_indent@),
        decreases all_nested.len() - idx,
    {
        push_nested_block(&mut body_lines, all_nested[idx].as_slice(), idx + 1 < all_nested.len(), nested_indent.as_slice(), inner_indent.as_slice());
        proof {
            assert(items.1[idx as int] == all_nested@[idx as int]@);
        }
        idx = idx + 1;
    }
    let nl = ['\n'];
    assert(nl@ =~= seq!['\n']);
    let mut out = concat(parent_indent, first_sel);
    push_str(&mut out, " {\n");
    crate::text::push_joined(&mut out, &body_lines, &nl);
    out.push('\n');
    out.extend_from_slice(parent_indent);
    out.push('}');
    proof {
        assert(out@ =~= merged_rule_text(s@, nodes@, cluster@, first_sel@, parent_indent@, unit@));
    }
    out
}

} // verus!
