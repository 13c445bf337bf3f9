use cssforge::analysis::{analyze_source, analyze_workspace};
use cssforge::model::{RuleId, Safety};

#[test]
fn adjacent_identical_media_blocks_merge_into_the_first() {
    let css = "@media (x) {\n  .a { color: red; }\n}\n@media (x) {\n  .b { color: blue; }\n}\n";
    let report = analyze_source("m.css", css, &[RuleId::MergeAdjacentMedia]);
    assert_eq!(report.plans.len(), 1);
    let p = &report.plans[0];
    assert_eq!(p.rules, vec![RuleId::MergeAdjacentMedia]);
    assert_eq!(p.proposed, "@media (x) {\n  .a { color: red; }\n  .b { color: blue; }\n}");
    assert_eq!(p.reason, "Merge 2 adjacent identical @media (x) blocks into a single block.");
    assert_eq!(p.source_range.start, 0);
    assert_eq!(p.source_range.end, css.len() - 1);
}

#[test]
fn rules_with_one_body_become_a_selector_list() {
    let css = ".a {\n  color: red;\n}\n.b {\n  color: red;\n}\n";
    let report = analyze_source("b.css", css, &[RuleId::MergeIdenticalRuleBodies]);
    assert_eq!(report.plans.len(), 1);
    let p = &report.plans[0];
    assert_eq!(p.proposed, ".a,\n.b {\n  color: red;\n}");
    assert_eq!(
        p.reason,
        "Merge 2 rules with identical declaration bodies into a single comma-separated rule."
    );
}

#[test]
fn states_with_one_body_factor_into_is() {
    let css = ".btn:hover {\n  color: red;\n}\n.btn:focus {\n  color: red;\n}\n";
    let report = analyze_source("s.css", css, &[RuleId::FactorIdenticalStatesWithIs]);
    assert_eq!(report.plans.len(), 1);
    let p = &report.plans[0];
    assert_eq!(p.proposed, ".btn {\n  &:is(:hover, :focus) {\n    color: red;\n  }\n}");
    assert_eq!(p.reason, "Factor 2 identical state rules for '.btn' into &:is(:hover, :focus) form.");
}

#[test]
fn condition_blocks_for_one_selector_gather_under_it() {
    let css = "@media (a) {\n  .c {\n    x: 1;\n  }\n}\n@supports (b) {\n  .c {\n    y: 2;\n  }\n}\n";
    let report = analyze_source("c.css", css, &[RuleId::NestMedia]);
    assert!(report.plans.is_empty());
    let report = analyze_source("c.css", css, &[RuleId::NestMedia, RuleId::NestSupports]);
    assert_eq!(report.plans.len(), 1);
    let p = &report.plans[0];
    assert_eq!(p.rules, vec![RuleId::NestMedia, RuleId::NestSupports]);
    assert_eq!(
        p.proposed,
        ".c {\n  @media (a) {\n    x: 1;\n  }\n\n  @supports (b) {\n    y: 2;\n  }\n}"
    );
}

#[test]
fn adjacent_rules_of_one_selector_merge_their_declarations() {
    let css = ".card {\n  color: black;\n}\n\n.card {\n  padding: 1rem;\n}\n";
    let report = analyze_source("a.css", css, &[RuleId::MergeAdjacentIdenticalSelector]);
    assert_eq!(report.plans.len(), 1);
    let p = &report.plans[0];
    assert_eq!(p.proposed, ".card {\n  color: black;\n  padding: 1rem;\n}");
}

#[test]
fn scattered_related_rules_are_gathered_for_review() {
    let css = ".card { color: red; }\n.other { margin: 0; }\n.card:hover { color: blue; }\n";
    let report = analyze_source("g.css", css, &[RuleId::GatherRelatedSelectorRules]);
    assert_eq!(report.plans.len(), 2);
    assert!(report.plans.iter().all(|p| p.safety == Safety::Review));
    assert_eq!(report.plans[0].original, ".card { color: red; }");
    assert_eq!(
        report.plans[0].warnings,
        vec!["Gathered 2 related occurrences of '.card' across lines; review cascade ordering.".to_string()]
    );
    assert_eq!(report.plans[1].original, ".card:hover { color: blue; }\n");
    assert_eq!(report.plans[1].proposed, "");
    let files = vec!["g.css".to_string()];
    let sources = vec![css.to_string()];
    let ws = analyze_workspace("root", &files, &sources, &[RuleId::GatherRelatedSelectorRules]);
    assert_eq!(ws.summary.cascade_sensitive, 1);
    assert_eq!(ws.summary.layer_sensitive, 0);
    assert_eq!(ws.summary.review, 2);
}

#[test]
fn repeated_layers_consolidate_into_the_first_block() {
    let css = "@layer base {\n  .a { color: red; }\n}\n.x { y: z; }\n@layer base {\n  .b { color: blue; }\n}\n";
    let report = analyze_source("l.css", css, &[RuleId::MergeSameNamedLayer]);
    assert_eq!(report.plans.len(), 2);
    assert!(report.plans[0].proposed.starts_with("@layer base {\n"));
    assert!(report.plans[0].proposed.ends_with("\n}"));
    assert_eq!(report.plans[0].reason, "Consolidate 2 separated blocks of @layer base into first occurrence.");
    assert_eq!(report.plans[1].proposed, "");
    assert_eq!(report.plans[1].reason, "Remove consolidated subsequent block of @layer base.");
}

#[test]
fn cluster_nests_an_extension_under_the_rule_it_extends() {
    let css = ".card {\n  color: red;\n}\n.card .title {\n  font-weight: 700;\n}\n.card .title:hover {\n  color: blue;\n}\n";
    let report = analyze_source("c.css", css, &[RuleId::NestDescendant]);
    assert_eq!(report.plans.len(), 1);
    let p = &report.plans[0];
    assert_eq!(p.rules, vec![RuleId::NestDescendant]);
    assert_eq!(
        p.proposed,
        ".card {\n  color: red;\n\n  .title {\n    font-weight: 700;\n\n    &:hover {\n      color: blue;\n    }\n  }\n}"
    );
    assert_eq!(
        p.reason,
        "2 immediately adjacent rule(s) share the exact parent selector and can be nested without crossing comments or unrelated rules."
    );
}

#[test]
fn findings_name_the_selector_and_the_repeated_declaration() {
    let css = ".a {\n  color: red;\n  color: red;\n}\n.b {}\n.a {\n  margin: 0;\n}\n";
    let report = analyze_source("f.css", css, &[]);
    let details: Vec<(Safety, String, String)> =
        report.findings.iter().map(|f| (f.safety, f.title.clone(), f.detail.clone())).collect();
    assert_eq!(
        details,
        vec![
            (
                Safety::Review,
                "Exact duplicate declaration detected".to_string(),
                "In .a: property 'color: red' is declared multiple times with identical value.".to_string()
            ),
            (
                Safety::Review,
                "Empty rule block detected".to_string(),
                ".b contains no declarations or nested rules.".to_string()
            ),
            (
                Safety::Review,
                "Duplicate selector in stylesheet".to_string(),
                "'.a' appears 2 times in the stylesheet; non-adjacent occurrences must not be merged across intervening rules."
                    .to_string()
            ),
        ]
    );
}

#[test]
fn at_rule_preludes_are_never_factored_as_selectors() {
    let css = "@media screen, print {\n  .a {\n    color: red;\n  }\n}\n@layer tokens, base;\n";
    let report = analyze_source(
        "l.css",
        css,
        &[RuleId::FactorSelectorList, RuleId::ModernizeIs, RuleId::ModernizeWhere, RuleId::ConsolidateNot],
    );
    assert!(report.parse_ok);
    assert!(report.plans.is_empty());
}

#[test]
fn listings_of_an_analysis_and_its_plans() {
    let files = vec!["w/a.css".to_string()];
    let sources = vec![".a {\n  color: red;\n}\n.a {\n  color: red;\n}\n".to_string()];
    let report = analyze_workspace("w", &files, &sources, &[RuleId::MergeAdjacentIdenticalSelector]);
    let text = cssforge::listing::analysis_listing("w", &report);
    assert_eq!(text[0], "CSSForge semantic analysis");
    assert_eq!(text[1], "root: w");
    assert_eq!(text[2], "files: 1");
    assert_eq!(text[9], "");
    assert_eq!(
        text[10],
        "w/a.css  parse=ok  styles=2 at-rules=0 declarations=2 !important=0 plans=1"
    );
    assert!(text[11].starts_with("  [REVIEW] Duplicate selector in stylesheet — '.a' appears 2 times"));
    let plans = cssforge::listing::plan_listing(&report);
    assert_eq!(plans.len(), 5);
    assert_eq!(plans[0], "T-000001 [SAFE] w/a.css");
    assert_eq!(plans[1], "  rules: merge-adjacent-identical-selector");
    assert!(plans[3].starts_with("  proof: selector=true specificity=true"));
    assert_eq!(plans[4], "");
}

#[test]
fn catalogue_listing_by_section() {
    let text = cssforge::listing::catalogue_listing();
    assert_eq!(text[0], "DISCLAIMER: CSSForge is a strictly forward semantic modernization & refactoring workbench.");
    assert_eq!(text[2], "");
    assert_eq!(text[3], "=== MODERNIZE (Native Nesting, Range Syntax & Selectors) ===");
    assert!(text[4].starts_with("nest-pseudo-class"));
    assert!(text[5].starts_with("  "));
    assert!(text.iter().any(|l| l == "=== REFACTOR (Consolidation, Deduplication & Structural Cleanup) ==="));
    assert_eq!(text.last().unwrap(), "");
}

#[test]
fn a_gather_is_kept_whole_or_not_at_all() {
    let css = ".a {\n  x: 1;\n}\n.a:hover {\n  y: 2;\n}\n.b {\n  z: 3;\n}\n.a {\n  w: 4;\n}\n";
    let report = analyze_source(
        "g.css",
        css,
        &[RuleId::GatherRelatedSelectorRules, RuleId::NestPseudoClass],
    );
    assert!(report
        .plans
        .iter()
        .all(|p| p.rules != vec![RuleId::GatherRelatedSelectorRules]));
    let out = cssforge::plan::apply_selected_plans(css, &report.plans, true).unwrap();
    assert!(out.contains("w: 4;"));
    assert!(out.contains("x: 1;"));
    assert!(out.contains("y: 2;"));
}

#[test]
fn supports_blocks_gather_only_under_supports_nesting() {
    let css = "@supports (display: grid) {\n  .x {\n    a: 1;\n  }\n}\n@supports (gap: 1px) {\n  .x {\n    b: 2;\n  }\n}\n";
    let report = analyze_source("s.css", css, &[RuleId::NestMedia]);
    assert!(report.plans.is_empty());
    let report = analyze_source("s.css", css, &[RuleId::NestSupports]);
    assert_eq!(report.plans.len(), 1);
    let media = "@media (x) {\n  .x {\n    a: 1;\n  }\n}\n@media (y) {\n  .x {\n    b: 2;\n  }\n}\n";
    let report = analyze_source("m.css", media, &[RuleId::NestSupports]);
    assert!(report.plans.is_empty());
    let report = analyze_source("m.css", media, &[RuleId::NestMedia]);
    assert_eq!(report.plans.len(), 1);
}

#[test]
fn is_cluster_with_mixed_specificity_asks_for_review() {
    let css = ".a .t,\n#h .t {\n  x: 1;\n}\n.a,\n#h {\n  y: 2;\n}\n";
    let report = analyze_source("c.css", css, &[RuleId::ModernizeIs]);
    assert_eq!(report.plans.len(), 1);
    assert_eq!(report.plans[0].safety, Safety::Review);
    assert!(!report.plans[0].proof.specificity_equivalent);
    let css = ".a .t,\n.b .t {\n  x: 1;\n}\n.a,\n.b {\n  y: 2;\n}\n";
    let report = analyze_source("c.css", css, &[RuleId::ModernizeIs]);
    assert_eq!(report.plans.len(), 1);
    assert_eq!(report.plans[0].safety, Safety::Safe);
    assert!(report.plans[0].proof.specificity_equivalent);
}

#[test]
fn consolidated_layer_takes_in_only_safe_rewrites() {
    let css = "@layer a {\n  x:not(.p):not(.q) {\n    color: red;\n  }\n}\n@layer a {\n  y {\n    color: blue;\n  }\n}\n";
    let report = analyze_source("l.css", css, &[RuleId::MergeSameNamedLayer, RuleId::ConsolidateNot]);
    let first = report
        .plans
        .iter()
        .find(|p| p.rules == vec![RuleId::MergeSameNamedLayer] && !p.proposed.is_empty())
        .unwrap();
    assert_eq!(first.safety, Safety::Safe);
    assert!(first.proposed.contains("x:not(.p):not(.q)"));
}
