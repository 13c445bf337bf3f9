use cssforge::analysis::analyze_source;
use cssforge::model::{PlanEntry, RuleId, Safety};
use cssforge::plan::apply_selected_plans;

fn plan(css: &str, rules: &[RuleId]) -> Vec<PlanEntry> {
    analyze_source("test.css", css, rules).plans
}

    #[test]
    fn nests_adjacent_pseudo_and_descendant_rules() {
        let css = ".card {\n  color: red;\n}\n.card:hover {\n  color: blue !important;\n}\n.card .title {\n  font-weight: 700;\n}\n";
        let plans = plan(css, &RuleId::ALL);
        assert_eq!(plans.len(), 1);
        let output = apply_selected_plans(css, &plans, false).unwrap();
        assert!(output.contains("&:hover"));
        assert!(output.contains(".title"));
        assert!(output.contains("color: blue !important;"));
    }

    #[test]
    fn nests_exact_full_modernize_example() {
        let original = r#".card {
  color: #222;
  padding: 1rem;
}
.card:hover {
  color: #111 !important;
}
.card::before {
  content: "";
}
.card[data-active] {
  border-color: currentColor;
}
.card.featured {
  box-shadow: 0 0 0 1px currentColor;
}
.card .title {
  font-weight: 700;
}
.card > .body {
  min-width: 0;
}
.card + .card {
  margin-top: 1rem;
}
@media (width >= 48rem) {
  .card {
    padding: 1.5rem;
  }
}
@supports (display: grid) {
  .card {
    display: grid;
  }
}
"#;

        let expected = r#".card {
  color: #222;
  padding: 1rem;

  &:hover {
    color: #111 !important;
  }

  &::before {
    content: "";
  }

  &[data-active] {
    border-color: currentColor;
  }

  &.featured {
    box-shadow: 0 0 0 1px currentColor;
  }

  .title {
    font-weight: 700;
  }

  > .body {
    min-width: 0;
  }

  + .card {
    margin-top: 1rem;
  }

  @media (width >= 48rem) {
    padding: 1.5rem;
  }

  @supports (display: grid) {
    display: grid;
  }
}"#;

        let plans = plan(
            original,
            &[
                RuleId::NestPseudoClass,
                RuleId::NestPseudoElement,
                RuleId::NestAttribute,
                RuleId::NestCompound,
                RuleId::NestDescendant,
                RuleId::NestCombinator,
                RuleId::NestMedia,
                RuleId::NestSupports,
            ],
        );
        assert_eq!(plans.len(), 1);
        let output = apply_selected_plans(original, &plans, false).unwrap();
        assert_eq!(output.trim(), expected.trim());
    }

    #[test]
    fn factors_selector_list_sharing_base() {
        let css = ".marker,\n.marker::before,\n.marker::after {\n  box-sizing: border-box;\n}\n";
        let plans = plan(css, &[RuleId::FactorSelectorList]);
        assert_eq!(plans.len(), 1);
        let output = apply_selected_plans(css, &plans, false).unwrap();
        assert!(output.contains(".marker {"));
        assert!(output.contains("&,"));
        assert!(output.contains("&::before,"));
        assert!(output.contains("&::after {"));
        assert!(output.contains("box-sizing: border-box;"));
    }

    #[test]
    fn modernizes_is_with_uniform_specificity() {
        let css = ".button:hover, .button:focus, .button:active {\n  color: blue;\n}\n";
        let plans = plan(css, &[RuleId::ModernizeIs]);
        assert_eq!(plans.len(), 1);
        let output = apply_selected_plans(css, &plans, false).unwrap();
        assert!(output.contains(".button:is(:hover, :focus, :active)"));
    }

    #[test]
    fn modernizes_media_range_syntax() {
        let css = "@media (min-width: 800px) {\n  .card { padding: 2rem; }\n}\n";
        let plans = plan(css, &[RuleId::ModernizeMediaRange]);
        assert_eq!(plans.len(), 1);
        let output = apply_selected_plans(css, &plans, false).unwrap();
        assert!(output.contains("@media (width >= 800px)"));
    }

    #[test]
    fn consolidates_not_selectors() {
        let css = "input:not([type=\"checkbox\"]):not([type=\"radio\"]) {\n  border: 1px solid gray;\n}\n";
        let plans = plan(css, &[RuleId::ConsolidateNot]);
        assert_eq!(plans.len(), 1);
        assert_eq!(plans[0].safety, Safety::Review);
        let output = apply_selected_plans(css, &plans, true).unwrap();
        assert!(output.contains("input:not([type=\"checkbox\"], [type=\"radio\"])"));
    }

    #[test]
    fn refuses_subtoken_is_factoring_false_positive() {
        let css = ".same-specificity-a,\n.same-specificity-b {\n  color: black;\n}\n";
        let plans = plan(css, &[RuleId::ModernizeIs]);
        assert!(plans.is_empty());
    }

    #[test]
    fn modernizes_descendant_is_alternatives() {
        let css = ".card .title, .card .subtitle, .card .description {\n  color: black;\n}\n";
        let plans = plan(css, &[RuleId::ModernizeIs]);
        assert_eq!(plans.len(), 1);
        let output = apply_selected_plans(css, &plans, false).unwrap();
        assert!(output.contains(".card :is(.title, .subtitle, .description)"));
    }

    #[test]
    fn modernizes_suffix_is_alternatives() {
        let css = ".alpha .title,\n#hero .title {\n  color: rebeccapurple;\n}\n";
        let plans = plan(css, &[RuleId::ModernizeIs]);
        assert_eq!(plans.len(), 1);
        assert_eq!(plans[0].safety, Safety::Review);
        let output = apply_selected_plans(css, &plans, true).unwrap();
        assert!(output.contains(":is(.alpha, #hero) .title"));
    }

    #[test]
    fn factors_multi_selector_cluster_with_is_and_nesting() {
        let css = r#".alpha .title,
#hero .title {
  color: rebeccapurple;
}

.alpha .subtitle,
#hero .subtitle {
  color: slateblue;
}

.alpha,
#hero {
  border-color: currentColor;
}
"#;
        let plans = plan(css, &[RuleId::ModernizeIs]);
        assert_eq!(plans.len(), 1);
        let output = apply_selected_plans(css, &plans, true).unwrap();
        assert!(output.contains(":is(.alpha, #hero) {"));
        assert!(output.contains("border-color: currentColor;"));
        assert!(output.contains(".title {"));
        assert!(output.contains("color: rebeccapurple;"));
        assert!(output.contains(".subtitle {"));
        assert!(output.contains("color: slateblue;"));
    }

    #[test]
    fn refuses_bem_token_concatenation() {
        let css = ".card { color: red; }\n.card__title { font-weight: 700; }\n";
        let plans = plan(css, &RuleId::ALL);
        assert!(plans.is_empty());
    }

    #[test]
    fn merges_same_named_layer_blocks() {
        let css = "@layer overrides {\n  .layered-card {\n    color: darkgreen;\n  }\n}\n\n@layer overrides {\n  .layer-important {\n    color: orange !important;\n  }\n}\n";
        let plans = plan(css, &[RuleId::MergeSameNamedLayer]);
        assert_eq!(plans.len(), 2);
        let output = apply_selected_plans(css, &plans, false).unwrap();
        assert!(output.contains("@layer overrides {"));
        assert!(output.contains(".layered-card {"));
        assert!(output.contains(".layer-important {"));
    }

    #[test]
    fn merges_adjacent_media_queries() {
        let css = "@media (width >= 48rem) {\n  .card {\n    padding: 2rem;\n  }\n}\n\n@media (width >= 48rem) {\n  .panel {\n    padding: 2rem;\n  }\n}\n";
        let plans = plan(css, &[RuleId::MergeAdjacentMedia]);
        assert_eq!(plans.len(), 1);
        let output = apply_selected_plans(css, &plans, false).unwrap();
        assert!(output.contains("@media (width >= 48rem) {"));
        assert!(output.contains(".card {"));
        assert!(output.contains(".panel {"));
    }

    #[test]
    fn merges_adjacent_supports_queries() {
        let css = "@supports (display: grid) {\n  .card {\n    display: grid;\n  }\n}\n\n@supports (display: grid) {\n  .panel {\n    display: grid;\n  }\n}\n";
        let plans = plan(css, &[RuleId::MergeAdjacentSupports]);
        assert_eq!(plans.len(), 1);
        let output = apply_selected_plans(css, &plans, false).unwrap();
        assert!(output.contains("@supports (display: grid) {"));
        assert!(output.contains(".card {"));
        assert!(output.contains(".panel {"));
    }

    #[test]
    fn merges_adjacent_identical_selectors() {
        let css = ".card {\n  color: black;\n}\n\n.card {\n  padding: 1rem;\n}\n";
        let plans = plan(css, &[RuleId::MergeAdjacentIdenticalSelector]);
        assert_eq!(plans.len(), 1);
        let output = apply_selected_plans(css, &plans, false).unwrap();
        assert!(output.contains(".card {"));
        assert!(output.contains("color: black;"));
        assert!(output.contains("padding: 1rem;"));
    }

    #[test]
    fn merges_identical_rule_bodies() {
        let css = ".card:hover {\n  color: red;\n}\n\n.panel:hover {\n  color: red;\n}\n";
        let plans = plan(css, &[RuleId::MergeIdenticalRuleBodies]);
        assert_eq!(plans.len(), 1);
        let output = apply_selected_plans(css, &plans, false).unwrap();
        assert!(output.contains(".card:hover,"));
        assert!(output.contains(".panel:hover {"));
        assert!(output.contains("color: red;"));
    }

    #[test]
    fn factors_identical_states_with_is() {
        let css = ".card:hover {\n  background: silver;\n}\n\n.card:focus {\n  background: silver;\n}\n\n.card:focus-visible {\n  background: silver;\n}\n";
        let plans = plan(css, &[RuleId::FactorIdenticalStatesWithIs]);
        assert_eq!(plans.len(), 1);
        let output = apply_selected_plans(css, &plans, false).unwrap();
        assert!(output.contains(".card {"));
        assert!(output.contains("&:is(:hover, :focus, :focus-visible) {"));
        assert!(output.contains("background: silver;"));
    }

    #[test]
    fn nests_multi_level_tree_hierarchy() {
        let css = r#".tree {
  display: grid;
  gap: 0.5rem;
}
.tree .node {
  position: relative;
}
.tree .node .label {
  display: flex;
}
.tree .node .label:hover {
  color: var(--accent);
}
.tree .node > .children {
  margin-inline-start: 1.25rem;
}
.tree .node > .children > .node + .node {
  margin-block-start: 0.25rem;
}
"#;
        let plans = plan(
            css,
            &[
                RuleId::NestDescendant,
                RuleId::NestCombinator,
                RuleId::NestPseudoClass,
            ],
        );
        assert_eq!(plans.len(), 1);
        let output = apply_selected_plans(css, &plans, false).unwrap();
        assert!(output.contains(".node {"));
        assert!(output.contains(".label {"));
        assert!(output.contains("&:hover {"));
        assert!(output.contains("> .children {"));
        assert!(output.contains("> .node + .node {"));
    }

    #[test]
    fn nests_in_place_input_states() {
        let css = "input:user-invalid {\n  border-color: crimson;\n}\ninput:user-valid {\n  border-color: seagreen;\n}\ninput:placeholder-shown {\n  color: gray;\n}\n";
        let plans = plan(css, &[RuleId::NestPseudoClass]);
        assert_eq!(plans.len(), 1);
        let output = apply_selected_plans(css, &plans, false).unwrap();
        assert!(output.contains("input {"));
        assert!(output.contains("&:user-invalid {"));
        assert!(output.contains("&:user-valid {"));
        assert!(output.contains("&:placeholder-shown {"));
    }

    #[test]
    fn gathers_consecutive_conditions_by_selector() {
        let css = "@media (width >= 30rem) {\n  .responsive-grid {\n    gap: 1rem;\n  }\n}\n\n@media (width >= 80rem) {\n  .responsive-grid {\n    gap: 2rem;\n  }\n}\n";
        let plans = plan(css, &[RuleId::NestMedia]);
        assert_eq!(plans.len(), 1);
        let output = apply_selected_plans(css, &plans, false).unwrap();
        assert!(output.contains(".responsive-grid {"));
        assert!(output.contains("@media (width >= 30rem) {"));
        assert!(output.contains("@media (width >= 80rem) {"));
    }

    #[test]
    fn factors_selector_list_with_adjacent_hover() {
        let css = ".notice,\n.notice::before,\n.notice::after {\n  color: currentColor;\n}\n\n.notice:hover {\n  background: color-mix(in srgb, currentColor 8%, transparent);\n}\n";
        let plans = plan(css, &[RuleId::FactorSelectorList, RuleId::NestPseudoClass]);
        assert_eq!(plans.len(), 1);
        let output = apply_selected_plans(css, &plans, false).unwrap();
        assert!(output.contains(".notice {"));
        assert!(output.contains("&,"));
        assert!(output.contains("&::before,"));
        assert!(output.contains("&::after {"));
        assert!(output.contains("&:hover {"));
        assert!(output.contains("background: color-mix"));
    }

    #[test]
    fn gathers_non_adjacent_related_selector_rules_with_nested_blocks() {
        let css = r#".skip-link {
    position: absolute;
    inset-block-start: -48px;
    inset-inline-start: 1rem;
    z-index: 10000000000;
    background: var(--bg-color);
    color: var(--text-color);
    border: 1px solid var(--border-color);
    border-radius: 0.5rem;
    padding: 0.55rem 0.8rem;
    text-decoration: none;
    font-weight: 700;
    transition: inset-block-start 0.2s ease;

    &:focus-visible {
        inset-block-start: 0.75rem;
    }
}

.unrelated-rule {
    color: red;
}

.skip-link {
    font: optional;

    &::after {
        content: '';
    }

    :not(*) & {
        all: unset
    }
}
"#;
        let plans = plan(css, &[RuleId::GatherRelatedSelectorRules]);
        assert_eq!(plans.len(), 2);
        let output = apply_selected_plans(css, &plans, true).unwrap();
        assert!(output.contains("font: optional;"));
    }

    #[test]
    fn gathers_non_adjacent_related_pseudo_and_combinator_rules() {
        let css = r#".skip-link {
    position: absolute;
    inset-block-start: -48px;
    inset-inline-start: 1rem;
    z-index: 10000000000;
    background: var(--bg-color);
    color: var(--text-color);
    border: 1px solid var(--border-color);
    border-radius: 0.5rem;
    padding: 0.55rem 0.8rem;
    text-decoration: none;
    font-weight: 700;
    transition: inset-block-start 0.2s ease;

    &:focus-visible {
        inset-block-start: 0.75rem;
    }
}

.unrelated {
    color: red;
}

.skip-link {
    font: optional;

    &::after {
        content: '';
    }

    :not(*) & {
        all: unset
    }
}

.skip-link+* {
    display: block;
}

.skip-link::backdrop {
    background-color: gray;
}

.skip-link:has(*) {
    color: #27ca3f;
}
"#;
        let plans = plan(css, &[RuleId::GatherRelatedSelectorRules]);
        assert_eq!(plans.len(), 5);
        let output = apply_selected_plans(css, &plans, true).unwrap();
        assert!(output.contains("font: optional;"));
        assert!(output.contains("+ * {"));
        assert!(output.contains("&::backdrop {"));
        assert!(output.contains("&:has(*) {"));
    }
