use crate::model::{all_rules, rule_category, rule_level, rule_name, rule_section, safety_label, section_label, FileReport, Finding, PlanEntry, RuleId, RuleSection, SafetyLevel, WorkspaceReport};
use crate::planner::{decimal, decimal_exec};
use crate::screens::pad_right_exec;
use crate::text::{chars_of, string_of, texts_of_strings};
use vstd::prelude::*;

verus! {

/// How a flag is written.
pub open spec fn flag_text(b: bool) -> Seq<char> {
    if b {
        "true"@
    } else {
        "false"@
    }
}

/// The line of a file: its parse status and counts.
pub open spec fn file_head(f: FileReport) -> Seq<char> {
    let st = f.stats;
    f.path@ + "  parse="@ + (if f.parse_ok {
        "ok"@
    } else {
        "error"@
    }) + "  styles="@ + decimal(st.top_level_style_rules as nat) + " at-rules="@ + decimal(st.top_level_at_rules as nat)
        + " declarations="@ + decimal(st.declarations as nat) + " !important="@ + decimal(
        st.important_declarations as nat,
    ) + " plans="@ + decimal(f.plans@.len())
}

pub open spec fn finding_line(x: Finding) -> Seq<char> {
    "  ["@ + safety_label(x.safety) + "] "@ + x.title@ + " — "@ + x.detail@
}

/// The line of a file, then one line per finding.
pub open spec fn file_block(f: FileReport) -> Seq<Seq<char>> {
    seq![file_head(f)] + f.findings@.map_values(|x: Finding| finding_line(x))
}

pub open spec fn file_blocks(fs: Seq<FileReport>) -> Seq<Seq<char>>
    decreases fs.len(),
{
    if fs.len() == 0 {
        seq![]
    } else {
        file_blocks(fs.drop_last()) + file_block(fs.last())
    }
}

/// The text report of an analysis of the workspace shown as `root`: the totals, then each
/// file with its findings.
pub open spec fn analysis_text(root: Seq<char>, r: WorkspaceReport) -> Seq<Seq<char>> {
    let s = r.summary;
    seq![
        "CSSForge semantic analysis"@,
        "root: "@ + root,
        "files: "@ + decimal(s.files as nat),
        "rules analyzed: "@ + decimal(s.rules_analyzed as nat),
        "SAFE: "@ + decimal(s.safe as nat),
        "REVIEW: "@ + decimal(s.review as nat),
        "UNSAFE: "@ + decimal(s.unsafe_count as nat),
        "UNSUPPORTED: "@ + decimal(s.unsupported as nat),
        "parse errors: "@ + decimal(s.parse_errors as nat),
        seq![],
    ] + file_blocks(r.files@)
}

/// The names of rules, joined by `, `.
pub open spec fn rule_list(rs: Seq<RuleId>) -> Seq<char> {
    crate::text::join(Seq::new(rs.len(), |i: int| crate::model::rule_name(rs[i])), ", "@)
}

/// The lines of one plan: id, safety and file; rules; reason; the proof obligations; a blank.
pub open spec fn plan_block(p: PlanEntry) -> Seq<Seq<char>> {
    let q = p.proof;
    seq![
        p.id@ + " ["@ + safety_label(p.safety) + "] "@ + p.file@,
        "  rules: "@ + rule_list(p.rules@),
        "  reason: "@ + p.reason@,
        "  proof: selector="@ + flag_text(q.selector_set_equivalent) + " specificity="@ + flag_text(q.specificity_equivalent)
            + " cascade="@ + flag_text(q.cascade_context_equivalent) + " order="@ + flag_text(q.source_order_equivalent)
            + " declarations="@ + flag_text(q.declarations_exact) + " important="@ + flag_text(q.important_exact),
        seq![],
    ]
}

pub open spec fn plan_blocks(ps: Seq<PlanEntry>) -> Seq<Seq<char>>
    decreases ps.len(),
{
    if ps.len() == 0 {
        seq![]
    } else {
        plan_blocks(ps.drop_last()) + plan_block(ps.last())
    }
}

/// The text listing of the plans of a workspace, file by file.
pub open spec fn plans_text(fs: Seq<FileReport>) -> Seq<Seq<char>>
    decreases fs.len(),
{
    if fs.len() == 0 {
        seq![]
    } else {
        plans_text(fs.drop_last()) + plan_blocks(fs.last().plans@)
    }
}

fn push_text(out: &mut Vec<String>, v: Vec<char>)
    ensures
        texts_of_strings(final(out)@) == texts_of_strings(old(out)@).push(v@),
{
    let ghost before = out@;
    out.push(string_of(v.as_slice()));
    proof {
        assert(texts_of_strings(out@) =~= texts_of_strings(before).push(v@));
    }
}

fn labelled(label: &str, n: usize) -> (r: Vec<char>)
    ensures
        r@ == label@ + decimal(n as nat),
{
    let mut v = chars_of(label);
    v.extend_from_slice(decimal_exec(n).as_slice());
    v
}

fn flag_exec(b: bool) -> (r: &'static str)
    ensures
        r@ == flag_text(b),
{
    if b {
        "true"
    } else {
        "false"
    }
}

fn push_file_block(out: &mut Vec<String>, f: &FileReport)
    ensures
        texts_of_strings(final(out)@) == texts_of_strings(old(out)@) + file_block(*f),
{
    let st = &f.stats;
    let mut h = chars_of(f.path.as_str());
    h.extend_from_slice(chars_of(if f.parse_ok { "  parse=ok" } else { "  parse=error" }).as_slice());
    h.extend_from_slice(labelled("  styles=", st.top_level_style_rules).as_slice());
    h.extend_from_slice(labelled(" at-rules=", st.top_level_at_rules).as_slice());
    h.extend_from_slice(labelled(" declarations=", st.declarations).as_slice());
    h.extend_from_slice(labelled(" !important=", st.important_declarations).as_slice());
    h.extend_from_slice(labelled(" plans=", f.plans.len()).as_slice());
    proof {
        reveal_strlit("  parse=ok");
        reveal_strlit("  parse=error");
        reveal_strlit("  parse=");
        reveal_strlit("ok");
        reveal_strlit("error");
        assert(h@ =~= file_head(*f));
    }
    let ghost before = texts_of_strings(out@);
    push_text(out, h);
    let ghost fl = f.findings@.map_values(|x: Finding| finding_line(x));
    let mut k: usize = 0;
    while k < f.findings.len()
        invariant
            k <= f.findings@.len(),
            fl == f.findings@.map_values(|x: Finding| finding_line(x)),
            texts_of_strings(out@) == before.push(file_head(*f)) + fl.take(k as int),
        decreases f.findings.len() - k,
    {
        let x = &f.findings[k];
        let mut l = chars_of("  [");
        l.extend_from_slice(chars_of(x.safety.label()).as_slice());
        l.extend_from_slice(chars_of("] ").as_slice());
        l.extend_from_slice(chars_of(x.title.as_str()).as_slice());
        l.extend_from_slice(chars_of(" — ").as_slice());
        l.extend_from_slice(chars_of(x.detail.as_str()).as_slice());
        assert(l@ == fl[k as int]);
        push_text(out, l);
        proof {
            assert(fl.take(k + 1) =~= fl.take(k as int).push(fl[k as int]));
        }
        k = k + 1;
    }
    proof {
        assert(fl.take(fl.len() as int) =~= fl);
        assert(texts_of_strings(out@) =~= texts_of_strings(old(out)@) + file_block(*f));
    }
}

/// The text report of an analysis, one line per element.
pub fn analysis_listing(root: &str, r: &WorkspaceReport) -> (out: Vec<String>)
    ensures
        texts_of_strings(out@) == analysis_text(root@, *r),
{
    let s = &r.summary;
    let mut out: Vec<String> = Vec::new();
    push_text(&mut out, chars_of("CSSForge semantic analysis"));
    let mut rt = chars_of("root: ");
    rt.extend_from_slice(chars_of(root).as_slice());
    push_text(&mut out, rt);
    push_text(&mut out, labelled("files: ", s.files));
    push_text(&mut out, labelled("rules analyzed: ", s.rules_analyzed));
    push_text(&mut out, labelled("SAFE: ", s.safe));
    push_text(&mut out, labelled("REVIEW: ", s.review));
    push_text(&mut out, labelled("UNSAFE: ", s.unsafe_count));
    push_text(&mut out, labelled("UNSUPPORTED: ", s.unsupported));
    push_text(&mut out, labelled("parse errors: ", s.parse_errors));
    push_text(&mut out, Vec::new());
    let ghost head = texts_of_strings(out@);
    assert(head =~~= analysis_text(root@, *r).take(10));
    let ghost fs = r.files@;
    let mut i: usize = 0;
    while i < r.files.len()
        invariant
            i <= fs.len(),
            fs == r.files@,
            texts_of_strings(out@) == head + file_blocks(fs.take(i as int)),
        decreases r.files.len() - i,
    {
        let f = &r.files[i];
        push_file_block(&mut out, f);
        proof {
            assert(fs.take(i + 1).drop_last() =~= fs.take(i as int));
            assert(fs.take(i + 1).last() == *f);
            assert(texts_of_strings(out@) =~= head + file_blocks(fs.take(i + 1)));
        }
        i = i + 1;
    }
    proof {
        assert(fs.take(fs.len() as int) =~= fs);
        assert(texts_of_strings(out@) =~= analysis_text(root@, *r));
    }
    out
}

fn rule_list_exec(rs: &Vec<RuleId>) -> (r: Vec<char>)
    ensures
        r@ == rule_list(rs@),
{
    let ghost names = Seq::new(rs@.len(), |i: int| crate::model::rule_name(rs@[i]));
    let mut r: Vec<char> = Vec::new();
    let mut k: usize = 0;
    while k < rs.len()
        invariant
            k <= rs@.len(),
            names == Seq::new(rs@.len(), |i: int| crate::model::rule_name(rs@[i])),
            r@ == crate::text::join(names.take(k as int), ", "@),
        decreases rs.len() - k,
    {
        proof {
            assert(names.take(k + 1).drop_last() =~= names.take(k as int));
        }
        if k > 0 {
            r.extend_from_slice(chars_of(", ").as_slice());
        }
        r.extend_from_slice(chars_of(rs[k].as_str()).as_slice());
        proof {
            if k == 0 {
                assert(names.take(1) =~= seq![names[0]]);
            }
            assert(r@ =~= crate::text::join(names.take(k + 1), ", "@));
        }
        k = k + 1;
    }
    proof {
        assert(names.take(rs@.len() as int) =~= names);
    }
    r
}

#[verifier::rlimit(30)]
fn push_plan(out: &mut Vec<String>, p: &PlanEntry)
    ensures
        texts_of_strings(final(out)@) == texts_of_strings(old(out)@) + plan_block(*p),
{
    let ghost v0 = texts_of_strings(out@);
    let ghost pb = plan_block(*p);
    let mut l1 = chars_of(p.id.as_str());
    l1.extend_from_slice(chars_of(" [").as_slice());
    l1.extend_from_slice(chars_of(p.safety.label()).as_slice());
    l1.extend_from_slice(chars_of("] ").as_slice());
    l1.extend_from_slice(chars_of(p.file.as_str()).as_slice());
    assert(l1@ == pb[0]);
    push_text(out, l1);
    let mut l2 = chars_of("  rules: ");
    l2.extend_from_slice(rule_list_exec(&p.rules).as_slice());
    assert(l2@ == pb[1]);
    push_text(out, l2);
    let mut l3 = chars_of("  reason: ");
    l3.extend_from_slice(chars_of(p.reason.as_str()).as_slice());
    assert(l3@ == pb[2]);
    push_text(out, l3);
    let q = &p.proof;
    let mut l4 = chars_of("  proof: selector=");
    l4.extend_from_slice(chars_of(flag_exec(q.selector_set_equivalent)).as_slice());
    l4.extend_from_slice(chars_of(" specificity=").as_slice());
    l4.extend_from_slice(chars_of(flag_exec(q.specificity_equivalent)).as_slice());
    l4.extend_from_slice(chars_of(" cascade=").as_slice());
    l4.extend_from_slice(chars_of(flag_exec(q.cascade_context_equivalent)).as_slice());
    l4.extend_from_slice(chars_of(" order=").as_slice());
    l4.extend_from_slice(chars_of(flag_exec(q.source_order_equivalent)).as_slice());
    l4.extend_from_slice(chars_of(" declarations=").as_slice());
    l4.extend_from_slice(chars_of(flag_exec(q.declarations_exact)).as_slice());
    l4.extend_from_slice(chars_of(" important=").as_slice());
    l4.extend_from_slice(chars_of(flag_exec(q.important_exact)).as_slice());
    assert(l4@ == pb[3]);
    push_text(out, l4);
    let e: Vec<char> = Vec::new();
    assert(e@ =~= pb[4]);
    push_text(out, e);
    proof {
        assert(texts_of_strings(out@) =~= v0 + pb);
    }
}

/// The text listing of the plans of a workspace, one line per element.
pub fn plan_listing(r: &WorkspaceReport) -> (out: Vec<String>)
    ensures
        texts_of_strings(out@) == plans_text(r.files@),
{
    let mut out: Vec<String> = Vec::new();
    let ghost fs = r.files@;
    let mut i: usize = 0;
    proof {
        assert(texts_of_strings(out@) =~= plans_text(fs.take(0)));
    }
    while i < r.files.len()
        invariant
            i <= fs.len(),
            fs == r.files@,
            texts_of_strings(out@) == plans_text(fs.take(i as int)),
        decreases r.files.len() - i,
    {
        let f = &r.files[i];
        let ghost before = texts_of_strings(out@);
        let ghost ps = f.plans@;
        let mut k: usize = 0;
        while k < f.plans.len()
            invariant
                k <= ps.len(),
                ps == f.plans@,
                texts_of_strings(out@) == before + plan_blocks(ps.take(k as int)),
            decreases f.plans.len() - k,
        {
            push_plan(&mut out, &f.plans[k]);
            proof {
                assert(ps.take(k + 1).drop_last() =~= ps.take(k as int));
                assert(ps.take(k + 1).last() == ps[k as int]);
                assert(texts_of_strings(out@) =~= before + plan_blocks(ps.take(k + 1)));
            }
            k = k + 1;
        }
        proof {
            assert(ps.take(ps.len() as int) =~= ps);
            assert(fs.take(i + 1).drop_last() =~= fs.take(i as int));
            assert(fs.take(i + 1).last() == *f);
            assert(texts_of_strings(out@) =~= plans_text(fs.take(i + 1)));
        }
        i = i + 1;
    }
    proof {
        assert(fs.take(fs.len() as int) =~= fs);
    }
    out
}

/// How a safety level is written in the catalogue listing: its variant name.
pub open spec fn level_name(l: SafetyLevel) -> Seq<char> {
    match l {
        SafetyLevel::AnalysisOnly => "AnalysisOnly"@,
        SafetyLevel::FormattingOnly => "FormattingOnly"@,
        SafetyLevel::ProvenLocalRefactor => "ProvenLocalRefactor"@,
        SafetyLevel::SemanticReview => "SemanticReview"@,
        SafetyLevel::Architectural => "Architectural"@,
    }
}

/// The two lines of rule `r` in the catalogue listing.
pub open spec fn rule_entry(r: RuleId) -> Seq<Seq<char>> {
    seq![
        crate::screens::pad_right(rule_name(r), 32) + " "@ + crate::screens::pad_right(rule_category(r), 22) + " "@
            + level_name(rule_level(r)),
        "  "@ + crate::model::rule_description(r),
    ]
}

/// The entries of the first `n` rules of the catalogue that belong to section `s`.
pub open spec fn section_entries(s: RuleSection, n: int) -> Seq<Seq<char>>
    decreases n,
{
    if n <= 0 {
        seq![]
    } else {
        section_entries(s, n - 1) + if rule_section(all_rules()[n - 1]) == s {
            rule_entry(all_rules()[n - 1])
        } else {
            seq![]
        }
    }
}

pub open spec fn section_block(s: RuleSection) -> Seq<Seq<char>> {
    seq!["=== "@ + section_label(s) + " ==="@] + section_entries(s, all_rules().len() as int) + seq![seq![]]
}

/// The catalogue listing: the notice that the engine only goes forward, then each section
/// with its rules.
pub open spec fn catalogue_text() -> Seq<Seq<char>> {
    seq![
        "DISCLAIMER: CSSForge is a strictly forward semantic modernization & refactoring workbench."@,
        "Backward/reverse demodernization is unsupported. Always maintain Git backups before applying changes."@,
        seq![],
    ] + section_block(RuleSection::Modernize) + section_block(RuleSection::Refactor)
}

fn level_name_exec(l: SafetyLevel) -> (r: &'static str)
    ensures
        r@ == level_name(l),
{
    match l {
        SafetyLevel::AnalysisOnly => "AnalysisOnly",
        SafetyLevel::FormattingOnly => "FormattingOnly",
        SafetyLevel::ProvenLocalRefactor => "ProvenLocalRefactor",
        SafetyLevel::SemanticReview => "SemanticReview",
        SafetyLevel::Architectural => "Architectural",
    }
}

fn push_section(out: &mut Vec<String>, s: RuleSection, defs: &Vec<crate::model::RuleDefinition>)
    requires
        defs@.len() == all_rules().len(),
        forall|i: int| 0 <= i < defs@.len() ==> (#[trigger] defs@[i]).id == all_rules()[i] && crate::model::definition_of(defs@[i]),
    ensures
        texts_of_strings(final(out)@) == texts_of_strings(old(out)@) + section_block(s),
{
    let ghost v0 = texts_of_strings(out@);
    let mut h = chars_of("=== ");
    h.extend_from_slice(chars_of(s.label()).as_slice());
    h.extend_from_slice(chars_of(" ===").as_slice());
    push_text(out, h);
    let ghost v1 = texts_of_strings(out@);
    let mut k: usize = 0;
    while k < defs.len()
        invariant
            k <= defs@.len(),
            defs@.len() == all_rules().len(),
            forall|i: int| 0 <= i < defs@.len() ==> (#[trigger] defs@[i]).id == all_rules()[i] && crate::model::definition_of(defs@[i]),
            texts_of_strings(out@) == v1 + section_entries(s, k as int),
        decreases defs.len() - k,
    {
        let d = &defs[k];
        assert(d.id == all_rules()[k as int] && crate::model::definition_of(*d));
        if d.section == s {
            let mut l1 = pad_right_exec(chars_of(d.id.as_str()), 32);
            l1.extend_from_slice(chars_of(" ").as_slice());
            l1.extend_from_slice(pad_right_exec(chars_of(d.category), 22).as_slice());
            l1.extend_from_slice(chars_of(" ").as_slice());
            l1.extend_from_slice(chars_of(level_name_exec(d.safety_level)).as_slice());
            let ghost e = rule_entry(d.id);
            assert(l1@ == e[0]);
            push_text(out, l1);
            let mut l2 = chars_of("  ");
            l2.extend_from_slice(chars_of(d.description).as_slice());
            assert(l2@ == e[1]);
            push_text(out, l2);
            assert(section_entries(s, k + 1) == section_entries(s, k as int) + e);
            proof {
                assert(texts_of_strings(out@) =~= v1 + section_entries(s, k + 1));
            }
        } else {
            proof {
                assert(section_entries(s, k + 1) =~= section_entries(s, k as int));
            }
        }
        k = k + 1;
    }
    push_text(out, Vec::new());
    proof {
        assert(texts_of_strings(out@) =~~= v0 + section_block(s));
    }
}

/// The catalogue listing, one line per element.
pub fn catalogue_listing() -> (out: Vec<String>)
    ensures
        texts_of_strings(out@) == catalogue_text(),
{
    let defs = crate::model::rule_definitions();
    let mut out: Vec<String> = Vec::new();
    push_text(&mut out, chars_of("DISCLAIMER: CSSForge is a strictly forward semantic modernization & refactoring workbench."));
    push_text(
        &mut out,
        chars_of("Backward/reverse demodernization is unsupported. Always maintain Git backups before applying changes."),
    );
    push_text(&mut out, Vec::new());
    push_section(&mut out, RuleSection::Modernize, &defs);
    push_section(&mut out, RuleSection::Refactor, &defs);
    proof {
        assert(texts_of_strings(out@) =~~= catalogue_text());
    }
    out
}

} // verus!
