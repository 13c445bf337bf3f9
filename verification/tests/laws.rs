use cssforge::analysis::{
    analyze_parsed, analyze_source, analyze_workspace, plan_id, unified_diff,
};
use cssforge::model::{PlanEntry, Proof, RuleId, Safety, SourceRange};
use cssforge::plan::{apply_selected_plans, order_disjoint, select_for_apply};

fn plan_at(start: usize, end: usize, proposed: &str, safety: Safety, selected: bool) -> PlanEntry {
    PlanEntry {
        id: String::new(),
        file: "x.css".to_string(),
        rules: vec![RuleId::NestPseudoClass],
        safety,
        source_range: SourceRange { start, end },
        original: String::new(),
        proposed: proposed.to_string(),
        proof: Proof::safe_local(),
        warnings: Vec::new(),
        reason: String::new(),
        selected,
    }
}

#[test]
fn splicing_keeps_text_outside_the_spans() {
    let src = "aaaa BBBB cccc DDDD eeee";
    let plans = vec![
        plan_at(15, 19, "dd", Safety::Safe, true),
        plan_at(5, 9, "bb", Safety::Safe, true),
    ];
    let out = apply_selected_plans(src, &plans, false).unwrap();
    assert_eq!(out, "aaaa bb cccc dd eeee");
}

#[test]
fn overlapping_later_plan_is_skipped() {
    let src = "0123456789";
    let plans = vec![
        plan_at(2, 6, "X", Safety::Safe, true),
        plan_at(4, 8, "Y", Safety::Safe, true),
    ];
    let out = apply_selected_plans(src, &plans, false).unwrap();
    assert_eq!(out, "01X6789");
}

#[test]
fn longest_plan_wins_at_equal_start() {
    let src = "0123456789";
    let plans = vec![
        plan_at(2, 4, "short", Safety::Safe, true),
        plan_at(2, 8, "L", Safety::Safe, true),
    ];
    let out = apply_selected_plans(src, &plans, false).unwrap();
    assert_eq!(out, "01L89");
}

#[test]
fn review_plans_need_the_flag_and_unselected_plans_are_ignored() {
    let src = "abcdef";
    let plans = vec![
        plan_at(0, 1, "A", Safety::Review, true),
        plan_at(2, 3, "C", Safety::Safe, false),
        plan_at(4, 5, "E", Safety::Unsafe, true),
    ];
    assert_eq!(apply_selected_plans(src, &plans, false).unwrap(), "abcdef");
    assert_eq!(apply_selected_plans(src, &plans, true).unwrap(), "Abcdef");
}

#[test]
fn no_eligible_plan_changes_nothing() {
    let src = ".a { color: red; }";
    assert_eq!(apply_selected_plans(src, &[], true).unwrap(), src);
}

#[test]
fn order_disjoint_sorts_and_drops_overlaps() {
    let plans = vec![
        plan_at(10, 12, "c", Safety::Safe, true),
        plan_at(0, 5, "a", Safety::Safe, true),
        plan_at(3, 7, "b", Safety::Safe, true),
        plan_at(0, 2, "a2", Safety::Safe, true),
    ];
    let out = order_disjoint(&plans);
    let spans: Vec<(usize, usize)> =
        out.iter().map(|p| (p.source_range.start, p.source_range.end)).collect();
    assert_eq!(spans, vec![(0, 5), (10, 12)]);
}

#[test]
fn select_for_apply_follows_safety() {
    let plans = vec![
        plan_at(0, 1, "", Safety::Safe, false),
        plan_at(0, 1, "", Safety::Review, false),
        plan_at(0, 1, "", Safety::Unsupported, true),
    ];
    let strict: Vec<bool> = select_for_apply(&plans, false).iter().map(|p| p.selected).collect();
    let lenient: Vec<bool> = select_for_apply(&plans, true).iter().map(|p| p.selected).collect();
    assert_eq!(strict, vec![true, false, false]);
    assert_eq!(lenient, vec![true, true, false]);
}

#[test]
fn plans_of_a_file_are_sorted_disjoint_and_fit_the_source() {
    let css = ".card {\n  color: red;\n}\n.card:hover {\n  color: blue;\n}\n@media (min-width: 800px) {\n  .x { padding: 0; }\n}\n.a:not(.b):not(.c) {\n  margin: 0;\n}\n";
    let report = analyze_source("s.css", css, &RuleId::ALL);
    assert!(report.parse_ok);
    let chars: Vec<char> = css.chars().collect();
    let mut last_end = 0;
    assert!(!report.plans.is_empty());
    for p in &report.plans {
        assert!(p.source_range.start >= last_end);
        assert!(p.source_range.start <= p.source_range.end);
        assert!(p.source_range.end <= chars.len());
        let text: String = chars[p.source_range.start..p.source_range.end].iter().collect();
        assert_eq!(text, p.original);
        assert_eq!(p.file, "s.css");
        assert!(p.id.is_empty());
        last_end = p.source_range.end;
    }
}

#[test]
fn parse_failure_gives_a_finding_and_no_plans() {
    let css = ".a:hover { color: red; }\n.a { color: blue; }\n";
    let report = analyze_parsed("p.css", css, Some("boom".to_string()), &RuleId::ALL);
    assert!(!report.parse_ok);
    assert_eq!(report.parse_error.as_deref(), Some("boom"));
    assert!(report.plans.is_empty());
    assert_eq!(report.stats.parse_errors, 1);
    let last = report.findings.last().unwrap();
    assert_eq!(last.safety, Safety::Unsupported);
    assert_eq!(last.title, "Semantic parse failed");
    assert_eq!(last.detail, "boom");
}

#[test]
fn no_enabled_rule_gives_no_plans() {
    let css = ".a { color: red; }\n.a:hover { color: blue; }\n";
    let report = analyze_source("n.css", css, &[]);
    assert!(report.parse_ok);
    assert!(report.plans.is_empty());
}

#[test]
fn lightningcss_rejects_broken_css() {
    let report = analyze_source("broken.css", "..a { color: red; }", &RuleId::ALL);
    assert!(!report.parse_ok);
    assert!(report.parse_error.is_some());
    assert!(report.plans.is_empty());
}

#[test]
fn plan_ids_are_padded_to_six_digits() {
    assert_eq!(plan_id(1), "T-000001");
    assert_eq!(plan_id(42), "T-000042");
    assert_eq!(plan_id(1234567), "T-1234567");
}

#[test]
fn workspace_numbers_plans_and_sums_up() {
    let files = vec!["a.css".to_string(), "b.css".to_string()];
    let sources = vec![
        ".a {\n  color: red;\n}\n.a:hover {\n  color: blue;\n}\n".to_string(),
        ".b:not(.c):not(.d) {\n  margin: 0;\n}\n".to_string(),
    ];
    let report = analyze_workspace("root", &files, &sources, &RuleId::ALL);
    assert_eq!(report.tool_version, "0.4.0");
    assert_eq!(report.spec_baseline, "2026-08-17");
    assert_eq!(report.root, "root");
    assert_eq!(report.enabled_rules.len(), 26);
    assert_eq!(report.summary.files, 2);
    let ids: Vec<String> = report
        .files
        .iter()
        .flat_map(|f| f.plans.iter().map(|p| p.id.clone()))
        .collect();
    assert_eq!(ids, vec!["T-000001".to_string(), "T-000002".to_string()]);
    let s = &report.summary;
    assert_eq!(s.safe + s.review + s.unsafe_count + s.unsupported + s.no_op, 2);
    assert_eq!(s.safe, 1);
    assert_eq!(s.review, 1);
    assert_eq!(s.specificity_sensitive, 1);
    assert_eq!(s.rules_analyzed, 3);
}

#[test]
fn unified_diff_shows_both_sides() {
    let d = unified_diff("a\nb\n", "a\nc\n", "x:before", "x:after");
    assert!(d.contains("--- x:before"));
    assert!(d.contains("+++ x:after"));
    assert!(d.contains("-b"));
    assert!(d.contains("+c"));
}
