use cssforge::analysis::analyze_source;
use cssforge::discovery::{is_eligible_css_file, is_ignored_dir};
use cssforge::model::{OutputMode, RuleId, Safety};
use cssforge::output::{changed_text, is_destructive, stdout_entry, write_plan, OutputOptions};
use cssforge::selector::calculate_specificity;

#[test]
fn eligible_css_files() {
    assert!(is_eligible_css_file("proj/style.css"));
    assert!(is_eligible_css_file("proj/sub/app.CSS"));
    assert!(!is_eligible_css_file("proj/demo.modern.css"));
    assert!(!is_eligible_css_file("proj/bundle.MIN.css"));
    assert!(!is_eligible_css_file("proj/legacy.bak.css"));
    assert!(!is_eligible_css_file("proj/node_modules/pkg.css"));
    assert!(!is_eligible_css_file("proj/Target/out.css"));
    assert!(!is_eligible_css_file("proj/.css"));
    assert!(!is_eligible_css_file("proj/readme.md"));
    assert!(!is_eligible_css_file("proj/style.css/.."));
    assert!(is_ignored_dir("Node_Modules"));
    assert!(!is_ignored_dir("src"));
}

#[test]
fn specificity_examples() {
    let s = calculate_specificity("#a .b:hover > p::before");
    assert_eq!((s.ids, s.classes, s.elements), (1, 2, 2));
    let w = calculate_specificity(":where(#a, .b) p");
    assert_eq!((w.ids, w.classes, w.elements), (0, 0, 1));
    let i = calculate_specificity(":is(#a, .b) p");
    assert_eq!((i.ids, i.classes, i.elements), (1, 0, 1));
    let a = calculate_specificity("a[href]");
    assert_eq!((a.ids, a.classes, a.elements), (0, 1, 1));
}

#[test]
fn stats_count_rules_and_declarations() {
    let css = ".a {\n  --x: 1;\n  color: red !IMPORTANT;\n}\n@media (width >= 1px) {\n  .b { color: blue; }\n}\n@import url(x.css);\n.a {\n  margin: 0;\n}\n";
    let report = analyze_source("s.css", css, &[]);
    let st = &report.stats;
    assert_eq!(st.bytes, css.len());
    assert_eq!(st.top_level_style_rules, 2);
    assert_eq!(st.top_level_at_rules, 2);
    assert_eq!(st.media_rules, 1);
    assert_eq!(st.declarations, 3);
    assert_eq!(st.custom_properties, 1);
    assert_eq!(st.important_declarations, 1);
    assert_eq!(st.duplicate_selectors, 1);
}

#[test]
fn findings_by_title() {
    let css = ".card { color: red; }\n.card__title { color: red; color: red; }\n.x, #y { margin: 0; }\n.e {}\n.p .q { top: 0; }\n@layer base { .z { color: red; } }\n.card { padding: 0; }\n";
    let report = analyze_source("f.css", css, &[]);
    let titles: Vec<(Safety, String)> =
        report.findings.iter().map(|f| (f.safety, f.title.clone())).collect();
    assert!(titles.contains(&(Safety::Unsupported, "BEM token concatenation is not native nesting".to_string())));
    assert!(titles.contains(&(Safety::Review, "Mixed-specificity selector list detected".to_string())));
    assert!(titles.contains(&(Safety::Review, "Empty rule block detected".to_string())));
    assert!(titles.contains(&(Safety::Review, "Potential :has() relational candidate".to_string())));
    assert!(titles.contains(&(Safety::Review, "Cascade layer context detected".to_string())));
    assert_eq!(titles.last().unwrap().1, "Duplicate selector in stylesheet");
    let dup = report.findings.last().unwrap();
    assert_eq!(dup.detail, "'.card' appears 2 times in the stylesheet; non-adjacent occurrences must not be merged across intervening rules.");
}

#[test]
fn duplicate_declaration_on_separate_lines() {
    let css = ".a {\n  color: red;\n  Color: red;;\n  color: blue;\n}\n";
    let report = analyze_source("d.css", css, &[]);
    let dups: Vec<&str> = report
        .findings
        .iter()
        .filter(|f| f.title == "Exact duplicate declaration detected")
        .map(|f| f.detail.as_str())
        .collect();
    assert_eq!(dups, vec!["In .a: property 'color: red' is declared multiple times with identical value."]);
}

#[test]
fn media_range_plan_rewrites_the_prelude_only() {
    let css = "@media (min-width: 400px) and (max-width: 800px) {\n  .a { color: red; }\n}\n";
    let report = analyze_source("m.css", css, &[RuleId::ModernizeMediaRange]);
    assert_eq!(report.plans.len(), 1);
    let p = &report.plans[0];
    assert_eq!(p.original, "@media (min-width: 400px) and (max-width: 800px) ");
    assert_eq!(p.proposed, "@media (400px <= width <= 800px)");
}

#[test]
fn only_overwriting_modes_are_destructive() {
    assert!(is_destructive(OutputMode::Overwrite));
    assert!(is_destructive(OutputMode::OverwriteWithBackup));
    assert!(!is_destructive(OutputMode::DryRun));
    assert!(!is_destructive(OutputMode::NewFile));
    assert!(!is_destructive(OutputMode::OutDir));
    assert!(!is_destructive(OutputMode::Patch));
    assert!(!is_destructive(OutputMode::Stdout));
}

#[test]
fn write_plan_decides_each_output_mode() {
    let mut options = OutputOptions::default();
    options.root = "proj".to_string();
    let (w, b, r) = write_plan("proj/css/a.css", "a{}", "b{}", &options);
    assert!(w.is_none() && b.is_none());
    assert_eq!(r.message, "dry run: no file written");
    assert_eq!(r.source, "proj/css/a.css");

    options.mode = OutputMode::Stdout;
    let (w, _, r) = write_plan("proj/css/a.css", "a{}", "b{}", &options);
    assert!(w.is_none());
    assert_eq!(r.stdout.as_deref(), Some("b{}"));

    options.mode = OutputMode::NewFile;
    let (w, b, r) = write_plan("proj/css/a.css", "a{}", "b{}", &options);
    assert_eq!(w, Some(("proj/css/a.modern.css".to_string(), "b{}".to_string())));
    assert!(b.is_none());
    assert_eq!(r.written.as_deref(), Some("proj/css/a.modern.css"));

    options.mode = OutputMode::OutDir;
    let (w, _, _) = write_plan("proj/css/a.css", "a{}", "b{}", &options);
    assert_eq!(w.unwrap().0, "proj/cssforge-out/css/a.css");
    options.out_dir = Some("dist".to_string());
    let (w, _, _) = write_plan("elsewhere/a.css", "a{}", "b{}", &options);
    assert_eq!(w.unwrap().0, "dist/a.css");

    options.mode = OutputMode::Overwrite;
    let (w, b, r) = write_plan("proj/a.css", "a{}", "b{}", &options);
    assert_eq!(w, Some(("proj/a.css".to_string(), "b{}".to_string())));
    assert!(b.is_none());
    assert_eq!(r.message, "source overwritten");

    options.mode = OutputMode::OverwriteWithBackup;
    let (w, b, r) = write_plan("proj/a.css", "a{}", "b{}", &options);
    assert_eq!(w.unwrap().0, "proj/a.css");
    assert_eq!(b.as_deref(), Some("proj/a.css.bak"));
    assert_eq!(r.backup.as_deref(), Some("proj/a.css.bak"));

    options.mode = OutputMode::Patch;
    let (w, _, r) = write_plan("proj/a.css", "a{}\n", "b{}\n", &options);
    let (t, c) = w.unwrap();
    assert_eq!(t, "proj/a.css.patch");
    assert!(c.contains("--- proj/a.css"));
    assert!(c.contains("+++ proj/a.css.modern"));
    assert!(c.contains("-a{}"));
    assert!(c.contains("+b{}"));
    assert_eq!(r.message, "unified patch written");
}

#[test]
fn unchanged_files_are_not_written_and_stdout_names_the_file() {
    let css = "input:user-invalid {\n  border-color: crimson;\n}\ninput:user-valid {\n  border-color: seagreen;\n}\n";
    let report = analyze_source("t.css", css, &[RuleId::NestPseudoClass]);
    let changed = changed_text(css, &report.plans, true).unwrap();
    assert_ne!(changed, css);
    assert!(changed.contains("&:user-invalid"));
    assert_eq!(changed_text(css, &[], true), None);
    let mut options = OutputOptions::default();
    options.mode = OutputMode::Stdout;
    let (_, _, result) = write_plan("t.css", css, &changed, &options);
    assert_eq!(stdout_entry("t.css", &result), Some(format!("/* t.css */\n{changed}")));
    options.mode = OutputMode::DryRun;
    let (_, _, result) = write_plan("t.css", css, &changed, &options);
    assert_eq!(stdout_entry("t.css", &result), None);
}

#[test]
fn overlapping_plans_keep_the_earlier_one() {
    let css = ".a:hover {\n  x: 1;\n}\n.a:focus {\n  x: 1;\n}\n";
    let report = analyze_source(
        "o.css",
        css,
        &[RuleId::FactorIdenticalStatesWithIs, RuleId::NestPseudoClass],
    );
    let first = &report.plans[0];
    assert_eq!(first.source_range.start, 0);
    assert_eq!(first.rules, vec![RuleId::FactorIdenticalStatesWithIs]);
    assert!(report.plans[1..].iter().all(|p| p.source_range.start >= first.source_range.end));
}

#[test]
fn every_safe_plan_passes_all_proof_checks() {
    let css = ".a .t,\n#h .t {\n  x: 1;\n}\n.a,\n#h {\n  y: 2;\n}\n@media (min-width: 800px) {\n  .c { padding: 2rem; }\n}\n.b:hover, .b:focus {\n  color: blue;\n}\n.d {\n  z: 1;\n}\n.d {\n  w: 2;\n}\n";
    let all: Vec<RuleId> = cssforge::model::RuleId::ALL.to_vec();
    let report = analyze_source("all.css", css, &all);
    assert!(!report.plans.is_empty());
    for p in report.plans.iter().filter(|p| p.safety == Safety::Safe) {
        let pr = &p.proof;
        assert!(pr.selector_set_equivalent && pr.specificity_equivalent && pr.cascade_context_equivalent);
        assert!(pr.source_order_equivalent && pr.layer_equivalent && pr.scope_equivalent);
        assert!(pr.declarations_exact && pr.important_exact);
    }
}

#[test]
fn character_positions_map_to_utf8_byte_offsets() {
    let chars: Vec<char> = "aé€😀b".chars().collect();
    assert_eq!(cssforge::text::byte_offset(&chars, 0), 0);
    assert_eq!(cssforge::text::byte_offset(&chars, 2), 3);
    assert_eq!(cssforge::text::byte_offset(&chars, 4), 10);
    let r = cssforge::text::byte_range(&chars, cssforge::model::SourceRange { start: 1, end: 5 });
    assert_eq!((r.start, r.end), (1, 11));
}
