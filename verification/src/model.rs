use vstd::prelude::*;

verus! {

/// How safe a transformation plan is to apply.
#[derive(Debug, Clone, Copy, PartialEq, Eq, Hash, Structural)]
pub enum Safety {
    Safe,
    Review,
    Unsafe,
    Unsupported,
    NoOp,
}

pub open spec fn safety_label(s: Safety) -> Seq<char> {
    match s {
        Safety::Safe => "SAFE"@,
        Safety::Review => "REVIEW"@,
        Safety::Unsafe => "UNSAFE"@,
        Safety::Unsupported => "UNSUPPORTED"@,
        Safety::NoOp => "NO_OP"@,
    }
}

impl Safety {
    /// The upper-case label of this safety class.
    pub fn label(self) -> (r: &'static str)
        ensures
            r@ == safety_label(self),
    {
        match self {
            Safety::Safe => "SAFE",
            Safety::Review => "REVIEW",
            Safety::Unsafe => "UNSAFE",
            Safety::Unsupported => "UNSUPPORTED",
            Safety::NoOp => "NO_OP",
        }
    }
}

/// How far-reaching a rule's rewrites are.
#[derive(Debug, Clone, Copy, PartialEq, Eq, Structural)]
pub enum SafetyLevel {
    AnalysisOnly,
    FormattingOnly,
    ProvenLocalRefactor,
    SemanticReview,
    Architectural,
}

/// The transformation rules.
#[derive(Debug, Clone, Copy, PartialEq, Eq, Hash, Structural)]
pub enum RuleId {
    NestPseudoClass,
    NestPseudoElement,
    NestAttribute,
    NestCompound,
    NestDescendant,
    NestCombinator,
    NestMedia,
    NestSupports,
    NestContainer,
    NestStartingStyle,
    FactorSelectorList,
    ConsolidateNot,
    ModernizeIs,
    ModernizeWhere,
    ModernizeMediaRange,
    MergeSameNamedLayer,
    MergeAdjacentMedia,
    MergeAdjacentSupports,
    MergeAdjacentContainer,
    MergeIdenticalScope,
    MergeIdenticalStartingStyle,
    MergeAdjacentIdenticalSelector,
    MergeIdenticalRuleBodies,
    FactorIdenticalStatesWithIs,
    GatherRelatedSelectorRules,
    PruneOverriddenDeclarations,
}

/// Every rule, in catalogue order.
pub open spec fn all_rules() -> Seq<RuleId> {
    seq![RuleId::NestPseudoClass, RuleId::NestPseudoElement, RuleId::NestAttribute, RuleId::NestCompound, RuleId::NestDescendant, RuleId::NestCombinator, RuleId::NestMedia, RuleId::NestSupports, RuleId::NestContainer, RuleId::NestStartingStyle, RuleId::FactorSelectorList, RuleId::ConsolidateNot, RuleId::ModernizeIs, RuleId::ModernizeWhere, RuleId::ModernizeMediaRange, RuleId::MergeSameNamedLayer, RuleId::MergeAdjacentMedia, RuleId::MergeAdjacentSupports, RuleId::MergeAdjacentContainer, RuleId::MergeIdenticalScope, RuleId::MergeIdenticalStartingStyle, RuleId::MergeAdjacentIdenticalSelector, RuleId::MergeIdenticalRuleBodies, RuleId::FactorIdenticalStatesWithIs, RuleId::GatherRelatedSelectorRules, RuleId::PruneOverriddenDeclarations]
}

pub open spec fn rule_name(r: RuleId) -> Seq<char> {
    match r {
        RuleId::NestPseudoClass => "nest-pseudo-class"@,
        RuleId::NestPseudoElement => "nest-pseudo-element"@,
        RuleId::NestAttribute => "nest-attribute"@,
        RuleId::NestCompound => "nest-compound"@,
        RuleId::NestDescendant => "nest-descendant"@,
        RuleId::NestCombinator => "nest-combinator"@,
        RuleId::NestMedia => "nest-media"@,
        RuleId::NestSupports => "nest-supports"@,
        RuleId::NestContainer => "nest-container"@,
        RuleId::NestStartingStyle => "nest-starting-style"@,
        RuleId::FactorSelectorList => "factor-selector-list"@,
        RuleId::ConsolidateNot => "consolidate-not"@,
        RuleId::ModernizeIs => "modernize-is"@,
        RuleId::ModernizeWhere => "modernize-where"@,
        RuleId::ModernizeMediaRange => "modernize-media-range-syntax"@,
        RuleId::MergeSameNamedLayer => "merge-same-named-layer"@,
        RuleId::MergeAdjacentMedia => "merge-adjacent-media"@,
        RuleId::MergeAdjacentSupports => "merge-adjacent-supports"@,
        RuleId::MergeAdjacentContainer => "merge-adjacent-container"@,
        RuleId::MergeIdenticalScope => "merge-identical-scope"@,
        RuleId::MergeIdenticalStartingStyle => "merge-identical-starting-style"@,
        RuleId::MergeAdjacentIdenticalSelector => "merge-adjacent-identical-selector"@,
        RuleId::MergeIdenticalRuleBodies => "merge-identical-rule-bodies"@,
        RuleId::FactorIdenticalStatesWithIs => "factor-identical-states-with-is"@,
        RuleId::GatherRelatedSelectorRules => "gather-related-selector-rules"@,
        RuleId::PruneOverriddenDeclarations => "prune-overridden-declarations"@,
    }
}

impl RuleId {
    pub const ALL: [RuleId; 26] = [
        RuleId::NestPseudoClass,
        RuleId::NestPseudoElement,
        RuleId::NestAttribute,
        RuleId::NestCompound,
        RuleId::NestDescendant,
        RuleId::NestCombinator,
        RuleId::NestMedia,
        RuleId::NestSupports,
        RuleId::NestContainer,
        RuleId::NestStartingStyle,
        RuleId::FactorSelectorList,
        RuleId::ConsolidateNot,
        RuleId::ModernizeIs,
        RuleId::ModernizeWhere,
        RuleId::ModernizeMediaRange,
        RuleId::MergeSameNamedLayer,
        RuleId::MergeAdjacentMedia,
        RuleId::MergeAdjacentSupports,
        RuleId::MergeAdjacentContainer,
        RuleId::MergeIdenticalScope,
        RuleId::MergeIdenticalStartingStyle,
        RuleId::MergeAdjacentIdenticalSelector,
        RuleId::MergeIdenticalRuleBodies,
        RuleId::FactorIdenticalStatesWithIs,
        RuleId::GatherRelatedSelectorRules,
        RuleId::PruneOverriddenDeclarations,
    ];

    /// Every rule, in catalogue order.
    pub fn all() -> (r: Vec<RuleId>)
        ensures
            r@ == all_rules(),
    {
        let r = vec![RuleId::NestPseudoClass, RuleId::NestPseudoElement, RuleId::NestAttribute, RuleId::NestCompound, RuleId::NestDescendant, RuleId::NestCombinator, RuleId::NestMedia, RuleId::NestSupports, RuleId::NestContainer, RuleId::NestStartingStyle, RuleId::FactorSelectorList, RuleId::ConsolidateNot, RuleId::ModernizeIs, RuleId::ModernizeWhere, RuleId::ModernizeMediaRange, RuleId::MergeSameNamedLayer, RuleId::MergeAdjacentMedia, RuleId::MergeAdjacentSupports, RuleId::MergeAdjacentContainer, RuleId::MergeIdenticalScope, RuleId::MergeIdenticalStartingStyle, RuleId::MergeAdjacentIdenticalSelector, RuleId::MergeIdenticalRuleBodies, RuleId::FactorIdenticalStatesWithIs, RuleId::GatherRelatedSelectorRules, RuleId::PruneOverriddenDeclarations];
        assert(r@ =~= all_rules());
        r
    }

    /// The kebab-case name of this rule.
    pub fn as_str(self) -> (r: &'static str)
        ensures
            r@ == rule_name(self),
    {
        match self {
            RuleId::NestPseudoClass => "nest-pseudo-class",
            RuleId::NestPseudoElement => "nest-pseudo-element",
            RuleId::NestAttribute => "nest-attribute",
            RuleId::NestCompound => "nest-compound",
            RuleId::NestDescendant => "nest-descendant",
            RuleId::NestCombinator => "nest-combinator",
            RuleId::NestMedia => "nest-media",
            RuleId::NestSupports => "nest-supports",
            RuleId::NestContainer => "nest-container",
            RuleId::NestStartingStyle => "nest-starting-style",
            RuleId::FactorSelectorList => "factor-selector-list",
            RuleId::ConsolidateNot => "consolidate-not",
            RuleId::ModernizeIs => "modernize-is",
            RuleId::ModernizeWhere => "modernize-where",
            RuleId::ModernizeMediaRange => "modernize-media-range-syntax",
            RuleId::MergeSameNamedLayer => "merge-same-named-layer",
            RuleId::MergeAdjacentMedia => "merge-adjacent-media",
            RuleId::MergeAdjacentSupports => "merge-adjacent-supports",
            RuleId::MergeAdjacentContainer => "merge-adjacent-container",
            RuleId::MergeIdenticalScope => "merge-identical-scope",
            RuleId::MergeIdenticalStartingStyle => "merge-identical-starting-style",
            RuleId::MergeAdjacentIdenticalSelector => "merge-adjacent-identical-selector",
            RuleId::MergeIdenticalRuleBodies => "merge-identical-rule-bodies",
            RuleId::FactorIdenticalStatesWithIs => "factor-identical-states-with-is",
            RuleId::GatherRelatedSelectorRules => "gather-related-selector-rules",
            RuleId::PruneOverriddenDeclarations => "prune-overridden-declarations",
        }
    }
}

/// The two sections of the rule catalogue.
#[derive(Debug, Clone, Copy, PartialEq, Eq, Hash, Structural)]
pub enum RuleSection {
    Modernize,
    Refactor,
}

pub open spec fn section_label(s: RuleSection) -> Seq<char> {
    match s {
        RuleSection::Modernize => "MODERNIZE (Native Nesting, Range Syntax & Selectors)"@,
        RuleSection::Refactor => "REFACTOR (Consolidation, Deduplication & Structural Cleanup)"@,
    }
}

impl RuleSection {
    pub const ALL: [RuleSection; 2] = [RuleSection::Modernize, RuleSection::Refactor];

    /// The heading of this section.
    pub fn label(self) -> (r: &'static str)
        ensures
            r@ == section_label(self),
    {
        match self {
            RuleSection::Modernize => "MODERNIZE (Native Nesting, Range Syntax & Selectors)",
            RuleSection::Refactor => "REFACTOR (Consolidation, Deduplication & Structural Cleanup)",
        }
    }
}

/// One entry of the rule catalogue.
#[derive(Debug, Clone)]
pub struct RuleDefinition {
    pub id: RuleId,
    pub section: RuleSection,
    pub title: &'static str,
    pub category: &'static str,
    pub safety_level: SafetyLevel,
    pub description: &'static str,
}

pub open spec fn rule_section(r: RuleId) -> RuleSection {
    match r {
        RuleId::NestPseudoClass => RuleSection::Modernize,
        RuleId::NestPseudoElement => RuleSection::Modernize,
        RuleId::NestAttribute => RuleSection::Modernize,
        RuleId::NestCompound => RuleSection::Modernize,
        RuleId::NestDescendant => RuleSection::Modernize,
        RuleId::NestCombinator => RuleSection::Modernize,
        RuleId::NestMedia => RuleSection::Modernize,
        RuleId::NestSupports => RuleSection::Modernize,
        RuleId::NestContainer => RuleSection::Modernize,
        RuleId::NestStartingStyle => RuleSection::Modernize,
        RuleId::FactorSelectorList => RuleSection::Modernize,
        RuleId::ConsolidateNot => RuleSection::Modernize,
        RuleId::ModernizeIs => RuleSection::Modernize,
        RuleId::ModernizeWhere => RuleSection::Modernize,
        RuleId::ModernizeMediaRange => RuleSection::Modernize,
        RuleId::MergeSameNamedLayer => RuleSection::Refactor,
        RuleId::MergeAdjacentMedia => RuleSection::Refactor,
        RuleId::MergeAdjacentSupports => RuleSection::Refactor,
        RuleId::MergeAdjacentContainer => RuleSection::Refactor,
        RuleId::MergeIdenticalScope => RuleSection::Refactor,
        RuleId::MergeIdenticalStartingStyle => RuleSection::Refactor,
        RuleId::MergeAdjacentIdenticalSelector => RuleSection::Refactor,
        RuleId::MergeIdenticalRuleBodies => RuleSection::Refactor,
        RuleId::FactorIdenticalStatesWithIs => RuleSection::Refactor,
        RuleId::GatherRelatedSelectorRules => RuleSection::Refactor,
        RuleId::PruneOverriddenDeclarations => RuleSection::Refactor,
    }
}

pub open spec fn rule_title(r: RuleId) -> Seq<char> {
    match r {
        RuleId::NestPseudoClass => "Nest pseudo-classes"@,
        RuleId::NestPseudoElement => "Nest pseudo-elements"@,
        RuleId::NestAttribute => "Nest attribute states"@,
        RuleId::NestCompound => "Nest compound states"@,
        RuleId::NestDescendant => "Nest descendants"@,
        RuleId::NestCombinator => "Nest combinators"@,
        RuleId::NestMedia => "Nest local @media"@,
        RuleId::NestSupports => "Nest local @supports"@,
        RuleId::NestContainer => "Nest local @container"@,
        RuleId::NestStartingStyle => "Nest @starting-style"@,
        RuleId::FactorSelectorList => "Factor selector lists"@,
        RuleId::ConsolidateNot => "Consolidate :not() selectors"@,
        RuleId::ModernizeIs => "Factor with :is()"@,
        RuleId::ModernizeWhere => "Modernize with :where()"@,
        RuleId::ModernizeMediaRange => "Modernize media range syntax"@,
        RuleId::MergeSameNamedLayer => "Merge same named @layer blocks"@,
        RuleId::MergeAdjacentMedia => "Merge adjacent @media queries"@,
        RuleId::MergeAdjacentSupports => "Merge adjacent @supports queries"@,
        RuleId::MergeAdjacentContainer => "Merge adjacent @container queries"@,
        RuleId::MergeIdenticalScope => "Merge adjacent @scope blocks"@,
        RuleId::MergeIdenticalStartingStyle => "Merge adjacent @starting-style blocks"@,
        RuleId::MergeAdjacentIdenticalSelector => "Merge adjacent identical selectors"@,
        RuleId::MergeIdenticalRuleBodies => "Merge identical rule bodies"@,
        RuleId::FactorIdenticalStatesWithIs => "Factor identical states with :is()"@,
        RuleId::GatherRelatedSelectorRules => "Gather related selector rules"@,
        RuleId::PruneOverriddenDeclarations => "Prune overridden declarations & rules"@,
    }
}

pub open spec fn rule_category(r: RuleId) -> Seq<char> {
    match r {
        RuleId::NestPseudoClass => "Nesting"@,
        RuleId::NestPseudoElement => "Nesting"@,
        RuleId::NestAttribute => "Nesting"@,
        RuleId::NestCompound => "Nesting"@,
        RuleId::NestDescendant => "Nesting"@,
        RuleId::NestCombinator => "Nesting"@,
        RuleId::NestMedia => "At-rules"@,
        RuleId::NestSupports => "At-rules"@,
        RuleId::NestContainer => "At-rules"@,
        RuleId::NestStartingStyle => "At-rules"@,
        RuleId::FactorSelectorList => "Nesting"@,
        RuleId::ConsolidateNot => "Selectors"@,
        RuleId::ModernizeIs => "Selectors"@,
        RuleId::ModernizeWhere => "Selectors"@,
        RuleId::ModernizeMediaRange => "At-rules"@,
        RuleId::MergeSameNamedLayer => "Structural Refactoring"@,
        RuleId::MergeAdjacentMedia => "Structural Refactoring"@,
        RuleId::MergeAdjacentSupports => "Structural Refactoring"@,
        RuleId::MergeAdjacentContainer => "Structural Refactoring"@,
        RuleId::MergeIdenticalScope => "Structural Refactoring"@,
        RuleId::MergeIdenticalStartingStyle => "Structural Refactoring"@,
        RuleId::MergeAdjacentIdenticalSelector => "Structural Refactoring"@,
        RuleId::MergeIdenticalRuleBodies => "Structural Refactoring"@,
        RuleId::FactorIdenticalStatesWithIs => "Structural Refactoring"@,
        RuleId::GatherRelatedSelectorRules => "Structural Refactoring"@,
        RuleId::PruneOverriddenDeclarations => "Structural Refactoring"@,
    }
}

pub open spec fn rule_level(r: RuleId) -> SafetyLevel {
    match r {
        RuleId::NestPseudoClass => SafetyLevel::ProvenLocalRefactor,
        RuleId::NestPseudoElement => SafetyLevel::ProvenLocalRefactor,
        RuleId::NestAttribute => SafetyLevel::ProvenLocalRefactor,
        RuleId::NestCompound => SafetyLevel::ProvenLocalRefactor,
        RuleId::NestDescendant => SafetyLevel::ProvenLocalRefactor,
        RuleId::NestCombinator => SafetyLevel::ProvenLocalRefactor,
        RuleId::NestMedia => SafetyLevel::ProvenLocalRefactor,
        RuleId::NestSupports => SafetyLevel::ProvenLocalRefactor,
        RuleId::NestContainer => SafetyLevel::SemanticReview,
        RuleId::NestStartingStyle => SafetyLevel::ProvenLocalRefactor,
        RuleId::FactorSelectorList => SafetyLevel::ProvenLocalRefactor,
        RuleId::ConsolidateNot => SafetyLevel::SemanticReview,
        RuleId::ModernizeIs => SafetyLevel::ProvenLocalRefactor,
        RuleId::ModernizeWhere => SafetyLevel::Architectural,
        RuleId::ModernizeMediaRange => SafetyLevel::FormattingOnly,
        RuleId::MergeSameNamedLayer => SafetyLevel::ProvenLocalRefactor,
        RuleId::MergeAdjacentMedia => SafetyLevel::ProvenLocalRefactor,
        RuleId::MergeAdjacentSupports => SafetyLevel::ProvenLocalRefactor,
        RuleId::MergeAdjacentContainer => SafetyLevel::ProvenLocalRefactor,
        RuleId::MergeIdenticalScope => SafetyLevel::ProvenLocalRefactor,
        RuleId::MergeIdenticalStartingStyle => SafetyLevel::ProvenLocalRefactor,
        RuleId::MergeAdjacentIdenticalSelector => SafetyLevel::ProvenLocalRefactor,
        RuleId::MergeIdenticalRuleBodies => SafetyLevel::ProvenLocalRefactor,
        RuleId::FactorIdenticalStatesWithIs => SafetyLevel::ProvenLocalRefactor,
        RuleId::GatherRelatedSelectorRules => SafetyLevel::SemanticReview,
        RuleId::PruneOverriddenDeclarations => SafetyLevel::ProvenLocalRefactor,
    }
}

pub open spec fn rule_description(r: RuleId) -> Seq<char> {
    match r {
        RuleId::NestPseudoClass => "Nest adjacent same-parent pseudo-class rules such as .button:hover -> &:hover."@,
        RuleId::NestPseudoElement => "Nest adjacent same-parent pseudo-elements such as .card::before -> &::before."@,
        RuleId::NestAttribute => "Nest adjacent attribute states such as .button[disabled] -> &[disabled]."@,
        RuleId::NestCompound => "Nest adjacent compound states such as .item.active -> &.active."@,
        RuleId::NestDescendant => "Nest adjacent descendant selectors (.card .title -> .title) with exact relationship proof."@,
        RuleId::NestCombinator => "Nest adjacent child and sibling combinators (> + ~) under their exact parent selector."@,
        RuleId::NestMedia => "Nest an immediately-following @media block containing matching selector rules."@,
        RuleId::NestSupports => "Nest an immediately-following @supports block containing matching selector rules."@,
        RuleId::NestContainer => "Nest an immediately-following @container block for matching selector rules."@,
        RuleId::NestStartingStyle => "Nest an immediately-following @starting-style block for the matching parent selector."@,
        RuleId::FactorSelectorList => "Factor comma-separated selectors sharing a common base (.marker, .marker::before -> .marker { &, &::before })."@,
        RuleId::ConsolidateNot => "Consolidate chained :not() selectors like :not(a):not(b) into :not(a, b) (review required for additive specificity change)."@,
        RuleId::ModernizeIs => "Factor selector-list alternatives with uniform specificity into :is(...) grouping."@,
        RuleId::ModernizeWhere => "Factor selector-list alternatives into :where(...) for zero-specificity defaults (review required)."@,
        RuleId::ModernizeMediaRange => "Convert min/max-width and min/max-height media features to CSS Range Syntax (e.g. (width >= 800px))."@,
        RuleId::MergeSameNamedLayer => "Consolidate separated blocks belonging to the same named @layer into their canonical first occurrence."@,
        RuleId::MergeAdjacentMedia => "Combine consecutive @media blocks having identical query conditions into a single block."@,
        RuleId::MergeAdjacentSupports => "Combine consecutive @supports blocks having identical feature conditions into a single block."@,
        RuleId::MergeAdjacentContainer => "Combine consecutive @container blocks having identical container name and query conditions."@,
        RuleId::MergeIdenticalScope => "Combine consecutive @scope blocks having identical root and limit parameters."@,
        RuleId::MergeIdenticalStartingStyle => "Combine consecutive top-level @starting-style blocks into a single block."@,
        RuleId::MergeAdjacentIdenticalSelector => "Combine consecutive style rules sharing the exact same selector when no intervening rules exist."@,
        RuleId::MergeIdenticalRuleBodies => "Combine selectors sharing identical declaration bodies into a unified comma-separated rule."@,
        RuleId::FactorIdenticalStatesWithIs => "Combine multiple states of the same element sharing identical bodies into &:is(:hover, :focus, ...) form."@,
        RuleId::GatherRelatedSelectorRules => "Gather scattered related rules into the strongest existing parent (specificity wins; prefix nest beats appended `&` on a tie). Busy @media/@supports blocks with mixed selectors stay grouped. Review required for cascade crossing."@,
        RuleId::PruneOverriddenDeclarations => "Remove dead declarations and entire rules overridden by later identical selectors in the cascade."@,
    }
}

/// Whether `d` is the catalogue entry of its rule.
pub open spec fn definition_of(d: RuleDefinition) -> bool {
    &&& d.section == rule_section(d.id)
    &&& d.title@ == rule_title(d.id)
    &&& d.category@ == rule_category(d.id)
    &&& d.safety_level == rule_level(d.id)
    &&& d.description@ == rule_description(d.id)
}

/// The catalogue entry of one rule.
pub fn rule_definition(id: RuleId) -> (d: RuleDefinition)
    ensures
        d.id == id,
        definition_of(d),
{
    match id {
        RuleId::NestPseudoClass => RuleDefinition {
            id,
            section: RuleSection::Modernize,
            title: "Nest pseudo-classes",
            category: "Nesting",
            safety_level: SafetyLevel::ProvenLocalRefactor,
            description: "Nest adjacent same-parent pseudo-class rules such as .button:hover -> &:hover.",
        },
        RuleId::NestPseudoElement => RuleDefinition {
            id,
            section: RuleSection::Modernize,
            title: "Nest pseudo-elements",
            category: "Nesting",
            safety_level: SafetyLevel::ProvenLocalRefactor,
            description: "Nest adjacent same-parent pseudo-elements such as .card::before -> &::before.",
        },
        RuleId::NestAttribute => RuleDefinition {
            id,
            section: RuleSection::Modernize,
            title: "Nest attribute states",
            category: "Nesting",
            safety_level: SafetyLevel::ProvenLocalRefactor,
            description: "Nest adjacent attribute states such as .button[disabled] -> &[disabled].",
        },
        RuleId::NestCompound => RuleDefinition {
            id,
            section: RuleSection::Modernize,
            title: "Nest compound states",
            category: "Nesting",
            safety_level: SafetyLevel::ProvenLocalRefactor,
            description: "Nest adjacent compound states such as .item.active -> &.active.",
        },
        RuleId::NestDescendant => RuleDefinition {
            id,
            section: RuleSection::Modernize,
            title: "Nest descendants",
            category: "Nesting",
            safety_level: SafetyLevel::ProvenLocalRefactor,
            description: "Nest adjacent descendant selectors (.card .title -> .title) with exact relationship proof.",
        },
        RuleId::NestCombinator => RuleDefinition {
            id,
            section: RuleSection::Modernize,
            title: "Nest combinators",
            category: "Nesting",
            safety_level: SafetyLevel::ProvenLocalRefactor,
            description: "Nest adjacent child and sibling combinators (> + ~) under their exact parent selector.",
        },
        RuleId::NestMedia => RuleDefinition {
            id,
            section: RuleSection::Modernize,
            title: "Nest local @media",
            category: "At-rules",
            safety_level: SafetyLevel::ProvenLocalRefactor,
            description: "Nest an immediately-following @media block containing matching selector rules.",
        },
        RuleId::NestSupports => RuleDefinition {
            id,
            section: RuleSection::Modernize,
            title: "Nest local @supports",
            category: "At-rules",
            safety_level: SafetyLevel::ProvenLocalRefactor,
            description: "Nest an immediately-following @supports block containing matching selector rules.",
        },
        RuleId::NestContainer => RuleDefinition {
            id,
            section: RuleSection::Modernize,
            title: "Nest local @container",
            category: "At-rules",
            safety_level: SafetyLevel::SemanticReview,
            description: "Nest an immediately-following @container block for matching selector rules.",
        },
        RuleId::NestStartingStyle => RuleDefinition {
            id,
            section: RuleSection::Modernize,
            title: "Nest @starting-style",
            category: "At-rules",
            safety_level: SafetyLevel::ProvenLocalRefactor,
            description: "Nest an immediately-following @starting-style block for the matching parent selector.",
        },
        RuleId::FactorSelectorList => RuleDefinition {
            id,
            section: RuleSection::Modernize,
            title: "Factor selector lists",
            category: "Nesting",
            safety_level: SafetyLevel::ProvenLocalRefactor,
            description: "Factor comma-separated selectors sharing a common base (.marker, .marker::before -> .marker { &, &::before }).",
        },
        RuleId::ConsolidateNot => RuleDefinition {
            id,
            section: RuleSection::Modernize,
            title: "Consolidate :not() selectors",
            category: "Selectors",
            safety_level: SafetyLevel::SemanticReview,
            description: "Consolidate chained :not() selectors like :not(a):not(b) into :not(a, b) (review required for additive specificity change).",
        },
        RuleId::ModernizeIs => RuleDefinition {
            id,
            section: RuleSection::Modernize,
            title: "Factor with :is()",
            category: "Selectors",
            safety_level: SafetyLevel::ProvenLocalRefactor,
            description: "Factor selector-list alternatives with uniform specificity into :is(...) grouping.",
        },
        RuleId::ModernizeWhere => RuleDefinition {
            id,
            section: RuleSection::Modernize,
            title: "Modernize with :where()",
            category: "Selectors",
            safety_level: SafetyLevel::Architectural,
            description: "Factor selector-list alternatives into :where(...) for zero-specificity defaults (review required).",
        },
        RuleId::ModernizeMediaRange => RuleDefinition {
            id,
            section: RuleSection::Modernize,
            title: "Modernize media range syntax",
            category: "At-rules",
            safety_level: SafetyLevel::FormattingOnly,
            description: "Convert min/max-width and min/max-height media features to CSS Range Syntax (e.g. (width >= 800px)).",
        },
        RuleId::MergeSameNamedLayer => RuleDefinition {
            id,
            section: RuleSection::Refactor,
            title: "Merge same named @layer blocks",
            category: "Structural Refactoring",
            safety_level: SafetyLevel::ProvenLocalRefactor,
            description: "Consolidate separated blocks belonging to the same named @layer into their canonical first occurrence.",
        },
        RuleId::MergeAdjacentMedia => RuleDefinition {
            id,
            section: RuleSection::Refactor,
            title: "Merge adjacent @media queries",
            category: "Structural Refactoring",
            safety_level: SafetyLevel::ProvenLocalRefactor,
            description: "Combine consecutive @media blocks having identical query conditions into a single block.",
        },
        RuleId::MergeAdjacentSupports => RuleDefinition {
            id,
            section: RuleSection::Refactor,
            title: "Merge adjacent @supports queries",
            category: "Structural Refactoring",
            safety_level: SafetyLevel::ProvenLocalRefactor,
            description: "Combine consecutive @supports blocks having identical feature conditions into a single block.",
        },
        RuleId::MergeAdjacentContainer => RuleDefinition {
            id,
            section: RuleSection::Refactor,
            title: "Merge adjacent @container queries",
            category: "Structural Refactoring",
            safety_level: SafetyLevel::ProvenLocalRefactor,
            description: "Combine consecutive @container blocks having identical container name and query conditions.",
        },
        RuleId::MergeIdenticalScope => RuleDefinition {
            id,
            section: RuleSection::Refactor,
            title: "Merge adjacent @scope blocks",
            category: "Structural Refactoring",
            safety_level: SafetyLevel::ProvenLocalRefactor,
            description: "Combine consecutive @scope blocks having identical root and limit parameters.",
        },
        RuleId::MergeIdenticalStartingStyle => RuleDefinition {
            id,
            section: RuleSection::Refactor,
            title: "Merge adjacent @starting-style blocks",
            category: "Structural Refactoring",
            safety_level: SafetyLevel::ProvenLocalRefactor,
            description: "Combine consecutive top-level @starting-style blocks into a single block.",
        },
        RuleId::MergeAdjacentIdenticalSelector => RuleDefinition {
            id,
            section: RuleSection::Refactor,
            title: "Merge adjacent identical selectors",
            category: "Structural Refactoring",
            safety_level: SafetyLevel::ProvenLocalRefactor,
            description: "Combine consecutive style rules sharing the exact same selector when no intervening rules exist.",
        },
        RuleId::MergeIdenticalRuleBodies => RuleDefinition {
            id,
            section: RuleSection::Refactor,
            title: "Merge identical rule bodies",
            category: "Structural Refactoring",
            safety_level: SafetyLevel::ProvenLocalRefactor,
            description: "Combine selectors sharing identical declaration bodies into a unified comma-separated rule.",
        },
        RuleId::FactorIdenticalStatesWithIs => RuleDefinition {
            id,
            section: RuleSection::Refactor,
            title: "Factor identical states with :is()",
            category: "Structural Refactoring",
            safety_level: SafetyLevel::ProvenLocalRefactor,
            description: "Combine multiple states of the same element sharing identical bodies into &:is(:hover, :focus, ...) form.",
        },
        RuleId::GatherRelatedSelectorRules => RuleDefinition {
            id,
            section: RuleSection::Refactor,
            title: "Gather related selector rules",
            category: "Structural Refactoring",
            safety_level: SafetyLevel::SemanticReview,
            description: "Gather scattered related rules into the strongest existing parent (specificity wins; prefix nest beats appended `&` on a tie). Busy @media/@supports blocks with mixed selectors stay grouped. Review required for cascade crossing.",
        },
        RuleId::PruneOverriddenDeclarations => RuleDefinition {
            id,
            section: RuleSection::Refactor,
            title: "Prune overridden declarations & rules",
            category: "Structural Refactoring",
            safety_level: SafetyLevel::ProvenLocalRefactor,
            description: "Remove dead declarations and entire rules overridden by later identical selectors in the cascade.",
        },
    }
}

/// The rule catalogue, one entry per rule in catalogue order.
pub fn rule_definitions() -> (r: Vec<RuleDefinition>)
    ensures
        r@.len() == all_rules().len(),
        forall|i: int| 0 <= i < r@.len() ==> (#[trigger] r@[i]).id == all_rules()[i] && definition_of(r@[i]),
{
    let ids = RuleId::all();
    let mut r: Vec<RuleDefinition> = Vec::new();
    let mut k: usize = 0;
    while k < ids.len()
        invariant
            ids@ == all_rules(),
            k <= ids@.len(),
            r@.len() == k,
            forall|i: int| 0 <= i < k ==> (#[trigger] r@[i]).id == all_rules()[i] && definition_of(r@[i]),
        decreases ids.len() - k,
    {
        r.push(rule_definition(ids[k]));
        k = k + 1;
    }
    r
}

/// A named selection of rules.
#[derive(Debug, Clone, Copy, PartialEq, Eq, Structural)]
pub enum Preset {
    Analysis,
    Conservative,
    Modern,
    Refactor,
    Aggressive,
    Custom,
}

pub open spec fn preset_label(p: Preset) -> Seq<char> {
    match p {
        Preset::Analysis => "Analysis"@,
        Preset::Conservative => "Conservative"@,
        Preset::Modern => "Modern"@,
        Preset::Refactor => "Refactor"@,
        Preset::Aggressive => "Aggressive"@,
        Preset::Custom => "Custom"@,
    }
}

/// The rules a preset enables, in order.
pub open spec fn preset_rules(p: Preset) -> Seq<RuleId> {
    match p {
        Preset::Analysis => seq![],
        Preset::Conservative => seq![RuleId::NestPseudoClass, RuleId::NestPseudoElement, RuleId::NestAttribute, RuleId::NestCompound, RuleId::NestDescendant, RuleId::NestCombinator, RuleId::NestMedia, RuleId::NestSupports, RuleId::NestStartingStyle, RuleId::FactorSelectorList, RuleId::ModernizeIs, RuleId::ModernizeMediaRange, RuleId::MergeSameNamedLayer, RuleId::MergeAdjacentMedia, RuleId::MergeAdjacentSupports, RuleId::MergeAdjacentIdenticalSelector, RuleId::MergeIdenticalRuleBodies, RuleId::FactorIdenticalStatesWithIs],
        Preset::Modern => seq![RuleId::NestPseudoClass, RuleId::NestPseudoElement, RuleId::NestAttribute, RuleId::NestCompound, RuleId::NestDescendant, RuleId::NestCombinator, RuleId::NestMedia, RuleId::NestSupports, RuleId::NestContainer, RuleId::NestStartingStyle, RuleId::FactorSelectorList, RuleId::ConsolidateNot, RuleId::ModernizeIs, RuleId::ModernizeMediaRange, RuleId::PruneOverriddenDeclarations],
        Preset::Refactor => seq![RuleId::NestPseudoClass, RuleId::NestPseudoElement, RuleId::NestAttribute, RuleId::NestCompound, RuleId::NestDescendant, RuleId::NestCombinator, RuleId::NestMedia, RuleId::NestSupports, RuleId::NestContainer, RuleId::NestStartingStyle, RuleId::FactorSelectorList, RuleId::ConsolidateNot, RuleId::ModernizeIs, RuleId::ModernizeMediaRange, RuleId::MergeSameNamedLayer, RuleId::MergeAdjacentMedia, RuleId::MergeAdjacentSupports, RuleId::MergeAdjacentContainer, RuleId::MergeIdenticalScope, RuleId::MergeIdenticalStartingStyle, RuleId::MergeAdjacentIdenticalSelector, RuleId::MergeIdenticalRuleBodies, RuleId::FactorIdenticalStatesWithIs, RuleId::GatherRelatedSelectorRules, RuleId::PruneOverriddenDeclarations],
        Preset::Aggressive => all_rules(),
        Preset::Custom => seq![],
    }
}

/// Every preset, in cycling order.
pub open spec fn all_presets() -> Seq<Preset> {
    seq![Preset::Analysis, Preset::Conservative, Preset::Modern, Preset::Refactor, Preset::Aggressive, Preset::Custom]
}

impl Preset {
    pub const ALL: [Preset; 6] = [
        Preset::Analysis,
        Preset::Conservative,
        Preset::Modern,
        Preset::Refactor,
        Preset::Aggressive,
        Preset::Custom,
    ];

    /// The display name of this preset.
    pub fn label(self) -> (r: &'static str)
        ensures
            r@ == preset_label(self),
    {
        match self {
            Preset::Analysis => "Analysis",
            Preset::Conservative => "Conservative",
            Preset::Modern => "Modern",
            Preset::Refactor => "Refactor",
            Preset::Aggressive => "Aggressive",
            Preset::Custom => "Custom",
        }
    }

    /// The rules this preset enables.
    pub fn enabled_rules(self) -> (r: Vec<RuleId>)
        ensures
            r@ == preset_rules(self),
    {
        match self {
            Preset::Analysis => {
                let r: Vec<RuleId> = Vec::new();
                assert(r@ =~= preset_rules(self));
                r
            },
            Preset::Conservative => {
                let r = vec![RuleId::NestPseudoClass, RuleId::NestPseudoElement, RuleId::NestAttribute, RuleId::NestCompound, RuleId::NestDescendant, RuleId::NestCombinator, RuleId::NestMedia, RuleId::NestSupports, RuleId::NestStartingStyle, RuleId::FactorSelectorList, RuleId::ModernizeIs, RuleId::ModernizeMediaRange, RuleId::MergeSameNamedLayer, RuleId::MergeAdjacentMedia, RuleId::MergeAdjacentSupports, RuleId::MergeAdjacentIdenticalSelector, RuleId::MergeIdenticalRuleBodies, RuleId::FactorIdenticalStatesWithIs];
                assert(r@ =~= preset_rules(self));
                r
            },
            Preset::Modern => {
                let r = vec![RuleId::NestPseudoClass, RuleId::NestPseudoElement, RuleId::NestAttribute, RuleId::NestCompound, RuleId::NestDescendant, RuleId::NestCombinator, RuleId::NestMedia, RuleId::NestSupports, RuleId::NestContainer, RuleId::NestStartingStyle, RuleId::FactorSelectorList, RuleId::ConsolidateNot, RuleId::ModernizeIs, RuleId::ModernizeMediaRange, RuleId::PruneOverriddenDeclarations];
                assert(r@ =~= preset_rules(self));
                r
            },
            Preset::Refactor => {
                let r = vec![RuleId::NestPseudoClass, RuleId::NestPseudoElement, RuleId::NestAttribute, RuleId::NestCompound, RuleId::NestDescendant, RuleId::NestCombinator, RuleId::NestMedia, RuleId::NestSupports, RuleId::NestContainer, RuleId::NestStartingStyle, RuleId::FactorSelectorList, RuleId::ConsolidateNot, RuleId::ModernizeIs, RuleId::ModernizeMediaRange, RuleId::MergeSameNamedLayer, RuleId::MergeAdjacentMedia, RuleId::MergeAdjacentSupports, RuleId::MergeAdjacentContainer, RuleId::MergeIdenticalScope, RuleId::MergeIdenticalStartingStyle, RuleId::MergeAdjacentIdenticalSelector, RuleId::MergeIdenticalRuleBodies, RuleId::FactorIdenticalStatesWithIs, RuleId::GatherRelatedSelectorRules, RuleId::PruneOverriddenDeclarations];
                assert(r@ =~= preset_rules(self));
                r
            },
            Preset::Aggressive => RuleId::all(),
            Preset::Custom => {
                let r: Vec<RuleId> = Vec::new();
                assert(r@ =~= preset_rules(self));
                r
            },
        }
    }
}

/// Where transformed CSS goes.
#[derive(Debug, Clone, Copy, PartialEq, Eq, Structural)]
pub enum OutputMode {
    DryRun,
    NewFile,
    OutDir,
    OverwriteWithBackup,
    Overwrite,
    Patch,
    Stdout,
}

pub open spec fn output_mode_label(m: OutputMode) -> Seq<char> {
    match m {
        OutputMode::DryRun => "Dry run"@,
        OutputMode::NewFile => "New file (*.modern.css)"@,
        OutputMode::OutDir => "Output directory"@,
        OutputMode::OverwriteWithBackup => "Overwrite + backup"@,
        OutputMode::Overwrite => "Overwrite"@,
        OutputMode::Patch => "Patch file"@,
        OutputMode::Stdout => "stdout"@,
    }
}

/// Every output mode, in menu order.
pub open spec fn all_output_modes() -> Seq<OutputMode> {
    seq![OutputMode::DryRun, OutputMode::NewFile, OutputMode::OutDir, OutputMode::OverwriteWithBackup, OutputMode::Overwrite, OutputMode::Patch, OutputMode::Stdout]
}

impl OutputMode {
    pub const ALL: [OutputMode; 7] = [
        OutputMode::DryRun,
        OutputMode::NewFile,
        OutputMode::OutDir,
        OutputMode::OverwriteWithBackup,
        OutputMode::Overwrite,
        OutputMode::Patch,
        OutputMode::Stdout,
    ];

    /// The menu label of this output mode.
    pub fn label(self) -> (r: &'static str)
        ensures
            r@ == output_mode_label(self),
    {
        match self {
            OutputMode::DryRun => "Dry run",
            OutputMode::NewFile => "New file (*.modern.css)",
            OutputMode::OutDir => "Output directory",
            OutputMode::OverwriteWithBackup => "Overwrite + backup",
            OutputMode::Overwrite => "Overwrite",
            OutputMode::Patch => "Patch file",
            OutputMode::Stdout => "stdout",
        }
    }
}

} // verus!

verus! {

/// A span of the source, in character positions.
#[derive(Debug, Clone, Copy, Default, PartialEq, Eq, Structural)]
pub struct SourceRange {
    pub start: usize,
    pub end: usize,
}

/// The equivalence obligations a transformation plan is checked against.
#[derive(Debug, Clone, Copy, Default, PartialEq, Eq, Structural)]
pub struct Proof {
    pub selector_set_equivalent: bool,
    pub specificity_equivalent: bool,
    pub cascade_context_equivalent: bool,
    pub source_order_equivalent: bool,
    pub layer_equivalent: bool,
    pub scope_equivalent: bool,
    pub declarations_exact: bool,
    pub important_exact: bool,
}

pub open spec fn proof_all_pass(p: Proof) -> bool {
    &&& p.selector_set_equivalent
    &&& p.specificity_equivalent
    &&& p.cascade_context_equivalent
    &&& p.source_order_equivalent
    &&& p.layer_equivalent
    &&& p.scope_equivalent
    &&& p.declarations_exact
    &&& p.important_exact
}

pub open spec fn safe_local_proof() -> Proof {
    Proof {
        selector_set_equivalent: true,
        specificity_equivalent: true,
        cascade_context_equivalent: true,
        source_order_equivalent: true,
        layer_equivalent: true,
        scope_equivalent: true,
        declarations_exact: true,
        important_exact: true,
    }
}

impl Proof {
    /// Every obligation met, as for a purely local rewrite.
    pub fn safe_local() -> (p: Self)
        ensures
            p == safe_local_proof(),
    {
        Proof {
            selector_set_equivalent: true,
            specificity_equivalent: true,
            cascade_context_equivalent: true,
            source_order_equivalent: true,
            layer_equivalent: true,
            scope_equivalent: true,
            declarations_exact: true,
            important_exact: true,
        }
    }

    /// Whether every obligation is met.
    pub fn all_pass(&self) -> (r: bool)
        ensures
            r == proof_all_pass(*self),
    {
        self.selector_set_equivalent && self.specificity_equivalent && self.cascade_context_equivalent
            && self.source_order_equivalent && self.layer_equivalent && self.scope_equivalent
            && self.declarations_exact && self.important_exact
    }
}

/// Law: a locally safe proof passes every obligation, and `all_pass` fails as soon as one
/// obligation fails.
pub proof fn law_safe_local_passes(p: Proof)
    ensures
        proof_all_pass(safe_local_proof()),
        !p.specificity_equivalent ==> !proof_all_pass(p),
        !p.cascade_context_equivalent ==> !proof_all_pass(p),
        !p.source_order_equivalent ==> !proof_all_pass(p),
{
}

/// One proposed rewrite of a span of a stylesheet.
#[derive(Debug)]
pub struct PlanEntry {
    pub id: String,
    pub file: String,
    pub rules: Vec<RuleId>,
    pub safety: Safety,
    pub source_range: SourceRange,
    pub original: String,
    pub proposed: String,
    pub proof: Proof,
    pub warnings: Vec<String>,
    pub reason: String,
    pub selected: bool,
}

/// Counts gathered over a stylesheet's top-level items.
#[derive(Debug, Clone, Default)]
pub struct AnalysisStats {
    pub bytes: usize,
    pub top_level_style_rules: usize,
    pub top_level_at_rules: usize,
    pub declarations: usize,
    pub important_declarations: usize,
    pub custom_properties: usize,
    pub duplicate_selectors: usize,
    pub media_rules: usize,
    pub supports_rules: usize,
    pub container_rules: usize,
    pub layer_rules: usize,
    pub scope_rules: usize,
    pub starting_style_rules: usize,
    pub parse_errors: usize,
}

/// An advisory observation about a stylesheet.
#[derive(Debug, Clone)]
pub struct Finding {
    pub safety: Safety,
    pub title: String,
    pub detail: String,
}

/// The analysis of one file.
#[derive(Debug, Clone)]
pub struct FileReport {
    pub path: String,
    pub parse_ok: bool,
    pub parse_error: Option<String>,
    pub stats: AnalysisStats,
    pub findings: Vec<Finding>,
    pub plans: Vec<PlanEntry>,
}

/// Totals over a workspace analysis.
#[derive(Debug, Clone, Default)]
pub struct WorkspaceSummary {
    pub files: usize,
    pub parse_errors: usize,
    pub rules_analyzed: usize,
    pub safe: usize,
    pub review: usize,
    pub unsafe_count: usize,
    pub unsupported: usize,
    pub no_op: usize,
    pub specificity_sensitive: usize,
    pub cascade_sensitive: usize,
    pub layer_sensitive: usize,
    pub scope_sensitive: usize,
}

/// The analysis of a set of files.
#[derive(Debug, Clone)]
pub struct WorkspaceReport {
    pub tool_version: String,
    pub spec_baseline: String,
    pub root: String,
    pub enabled_rules: Vec<RuleId>,
    pub files: Vec<FileReport>,
    pub summary: WorkspaceSummary,
}

} // verus!
