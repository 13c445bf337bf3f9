use crate::model::{all_output_modes, output_mode_label, OutputMode, RuleSection, SafetyLevel};
use crate::text::{chars_of, string_of};
use crate::wizard::{enabled_ids, screen_step, selected_paths, App, RuleItem, Screen};
use vstd::prelude::*;

verus! {

/// How a piece of text on a screen is shown.
#[derive(Debug, Clone, Copy, PartialEq, Eq, Structural)]
pub enum Tone {
    /// The terminal's own colours.
    Plain,
    /// A pane heading.
    Heading,
    /// Secondary text.
    Muted,
    /// Ordinary text on a list.
    Text,
    /// A list entry that is not chosen.
    Dim,
    /// The entry under the cursor.
    Cursor,
    /// The chosen entry, or a value to notice.
    Chosen,
    Good,
    GoodStrong,
    Warn,
    Bad,
    /// The call to action.
    Button,
    Tip,
    /// The heading of the modernizing rules.
    ModernizeSection,
    /// The heading of the refactoring rules.
    RefactorSection,
    /// Emphasised ordinary text.
    TextStrong,
    /// A banner on the accent colour.
    BannerInfo,
    /// A banner on the warning colour.
    BannerWarn,
    /// The step being taken.
    CurrentStep,
    /// An emphasised note on the tip colour.
    TipStrong,
    /// A plan that cannot be applied as is.
    BadSoft,
    /// The header lines of a diff.
    DiffHead,
}

/// A piece of a screen line and how it is shown.
pub struct Piece {
    pub text: String,
    pub tone: Tone,
}

pub open spec fn line_view(l: Vec<Piece>) -> Seq<(Seq<char>, Tone)> {
    l@.map_values(|p: Piece| (p.text@, p.tone))
}

pub open spec fn lines_view(ls: Seq<Vec<Piece>>) -> Seq<Seq<(Seq<char>, Tone)>> {
    ls.map_values(|l: Vec<Piece>| line_view(l))
}

/// A line of one piece.
pub open spec fn one(text: Seq<char>, tone: Tone) -> Seq<(Seq<char>, Tone)> {
    seq![(text, tone)]
}

/// An empty line.
pub open spec fn blank() -> Seq<(Seq<char>, Tone)> {
    seq![]
}

/// `d` right-aligned in `w` columns.
pub open spec fn pad_left(d: Seq<char>, w: nat) -> Seq<char> {
    if d.len() < w {
        Seq::new((w - d.len()) as nat, |i: int| ' ') + d
    } else {
        d
    }
}

/// `t` left-aligned in `w` columns.
pub open spec fn pad_right(t: Seq<char>, w: nat) -> Seq<char> {
    if t.len() < w {
        t + Seq::new((w - t.len()) as nat, |i: int| ' ')
    } else {
        t
    }
}

fn push_line(out: &mut Vec<Vec<Piece>>, l: Vec<Piece>)
    ensures
        lines_view(final(out)@) == lines_view(old(out)@).push(line_view(l)),
{
    let ghost before = out@;
    out.push(l);
    proof {
        assert(lines_view(out@) =~= lines_view(before).push(line_view(l)));
    }
}

/// Appends a line of one piece.
fn push_one(out: &mut Vec<Vec<Piece>>, text: Vec<char>, tone: Tone)
    ensures
        lines_view(final(out)@) == lines_view(old(out)@).push(one(text@, tone)),
{
    let mut l: Vec<Piece> = Vec::new();
    l.push(Piece { text: string_of(text.as_slice()), tone });
    proof {
        assert(line_view(l) =~= one(text@, tone));
    }
    push_line(out, l);
}

fn push_lit(out: &mut Vec<Vec<Piece>>, text: &str, tone: Tone)
    ensures
        lines_view(final(out)@) == lines_view(old(out)@).push(one(text@, tone)),
{
    push_one(out, chars_of(text), tone);
}

fn push_blank(out: &mut Vec<Vec<Piece>>)
    ensures
        lines_view(final(out)@) == lines_view(old(out)@).push(blank()),
{
    let l: Vec<Piece> = Vec::new();
    proof {
        assert(line_view(l) =~= blank());
    }
    push_line(out, l);
}

fn pad_left_exec(d: Vec<char>, w: usize) -> (r: Vec<char>)
    ensures
        r@ == pad_left(d@, w as nat),
{
    let mut r: Vec<char> = Vec::new();
    let mut k: usize = d.len();
    while k < w
        invariant
            d@.len() <= k <= w || (k == d@.len() && k >= w),
            r@ == Seq::new((k - d@.len()) as nat, |i: int| ' '),
        decreases w - k,
    {
        r.push(' ');
        proof {
            assert(r@ =~= Seq::new((k + 1 - d@.len()) as nat, |i: int| ' '));
        }
        k = k + 1;
    }
    r.extend_from_slice(d.as_slice());
    proof {
        if d@.len() >= w {
            assert(r@ =~= d@);
        }
    }
    r
}

// ---------------------------------------------------------------------------
// The output settings screen
// ---------------------------------------------------------------------------

/// What each output mode is good for, after its name.
pub open spec fn mode_tag(m: OutputMode) -> Seq<char> {
    match m {
        OutputMode::NewFile => " [Default - Safe]"@,
        OutputMode::OutDir => " [Separate folder]"@,
        OutputMode::OverwriteWithBackup => " [Safe in-place + backup]"@,
        OutputMode::Overwrite => " [Direct modify in place]"@,
        OutputMode::DryRun => " [Preview only]"@,
        OutputMode::Patch => " [Diff patch]"@,
        OutputMode::Stdout => " [Terminal print]"@,
    }
}

/// What an output mode does.
pub open spec fn mode_description(m: OutputMode) -> Seq<char> {
    match m {
        OutputMode::NewFile => "Creates parallel *.modern.css files alongside originals. Zero risk to source code."@,
        OutputMode::OutDir => "Writes modernized files into <root>/cssforge-out/ maintaining relative structure."@,
        OutputMode::OverwriteWithBackup => "Backs up originals to *.bak and updates CSS files in place."@,
        OutputMode::Overwrite => "Overwrites original CSS files directly in your worktree."@,
        OutputMode::DryRun => "Simulates transformations and reports statistics without writing any files."@,
        OutputMode::Patch => "Writes unified *.patch diff files suitable for review or git apply."@,
        OutputMode::Stdout => "Prints all transformed CSS code directly to standard output upon exit."@,
    }
}

/// The line of output mode `k` of the menu: a filled marker for the mode in use, the
/// highlight on the cursor.
pub open spec fn mode_line(app: App, k: int) -> Seq<(Seq<char>, Tone)> {
    let m = all_output_modes()[k];
    let chosen = m == app.output_mode;
    one(
        " "@ + (if chosen {
            "●"@
        } else {
            "○"@
        }) + " "@ + output_mode_label(m) + mode_tag(m),
        if k == app.output_cursor {
            Tone::Cursor
        } else if chosen {
            Tone::Chosen
        } else {
            Tone::Dim
        },
    )
}

/// The left pane of the output screen: the menu of output modes and what the chosen one does.
pub open spec fn output_menu(app: App) -> Seq<Seq<(Seq<char>, Tone)>> {
    seq![one(" Select how modernized CSS will be saved:"@, Tone::Heading), blank()] + Seq::new(
        7,
        |k: int| mode_line(app, k),
    ) + seq![
        blank(),
        one("Mode Description:"@, Tone::Muted),
        one(" "@ + mode_description(app.output_mode), Tone::Text),
    ]
}

/// The right pane of the output screen: the counts of the report, then the call to apply.
pub open spec fn output_summary(app: App) -> Seq<Seq<(Seq<char>, Tone)>> {
    seq![one(" Transformation Summary:"@, Tone::Heading), blank()] + match app.report {
        Some(r) => summary_counts(r.summary),
        None => seq![one(" Analysis pending. Press [a] to analyze."@, Tone::Warn)],
    } + seq![
        blank(),
        one(" ┌────────────────────────────────────────────────────────┐"@, Tone::Good),
        one(" │  ➔  Press [ENTER] to Apply Transformations & Finish!   │"@, Tone::Button),
        one(" └────────────────────────────────────────────────────────┘"@, Tone::Good),
        blank(),
        one(" Tip: Press [d] to inspect exact code diffs and safety proofs."@, Tone::Tip),
    ]
}

/// The counts of a workspace summary, then whether anything safe was found.
pub open spec fn summary_counts(s: crate::model::WorkspaceSummary) -> Seq<Seq<(Seq<char>, Tone)>> {
    seq![
        one("   Files to transform:        "@ + pad_left(crate::planner::decimal(s.files as nat), 5), Tone::Text),
        one("   ✓ SAFE transformations:    "@ + pad_left(crate::planner::decimal(s.safe as nat), 5), Tone::GoodStrong),
        one("   ⚠ REVIEW items:            "@ + pad_left(crate::planner::decimal(s.review as nat), 5), Tone::Warn),
        one(
            "   ✗ UNSAFE / Unsupported:    "@ + pad_left(
                crate::planner::decimal(crate::analysis::capped((s.unsafe_count + s.unsupported) as nat)),
                5,
            ),
            Tone::Bad,
        ),
        blank(),
        if s.safe > 0 {
            one(" Found "@ + crate::planner::decimal(s.safe as nat) + " safe transformation(s) ready to apply!"@, Tone::Good)
        } else {
            one(" No safe transformations found for selected rules."@, Tone::Warn)
        },
    ]
}

/// The two panes of the output settings screen.
pub fn output_screen(app: &App) -> (r: (Vec<Vec<Piece>>, Vec<Vec<Piece>>))
    ensures
        lines_view(r.0@) == output_menu(*app),
        lines_view(r.1@) == output_summary(*app),
{
    let mut left: Vec<Vec<Piece>> = Vec::new();
    push_lit(&mut left, " Select how modernized CSS will be saved:", Tone::Heading);
    push_blank(&mut left);
    let ghost head = lines_view(left@);
    let mut k: usize = 0;
    while k < 7
        invariant
            k <= 7,
            lines_view(left@) == head + Seq::new(k as nat, |q: int| mode_line(*app, q)),
        decreases 7 - k,
    {
        let m = crate::wizard::mode_at(k);
        let chosen = m == app.output_mode;
        let mut t = chars_of(" ");
        t.extend_from_slice(chars_of(if chosen { "●" } else { "○" }).as_slice());
        t.extend_from_slice(chars_of(" ").as_slice());
        t.extend_from_slice(chars_of(m.label()).as_slice());
        t.extend_from_slice(chars_of(mode_tag_exec(m)).as_slice());
        let tone = if k == app.output_cursor {
            Tone::Cursor
        } else if chosen {
            Tone::Chosen
        } else {
            Tone::Dim
        };
        assert(t@ == " "@ + (if chosen {
            "●"@
        } else {
            "○"@
        }) + " "@ + output_mode_label(m) + mode_tag(m));
        assert(one(t@, tone) == mode_line(*app, k as int));
        push_one(&mut left, t, tone);
        proof {
            assert(Seq::new((k + 1) as nat, |q: int| mode_line(*app, q)) =~= Seq::new(k as nat, |q: int| mode_line(*app, q)).push(
                mode_line(*app, k as int),
            ));
        }
        k = k + 1;
    }
    let ghost menu = lines_view(left@);
    push_blank(&mut left);
    assert(lines_view(left@) == menu.push(blank()));
    push_lit(&mut left, "Mode Description:", Tone::Muted);
    assert(lines_view(left@) == menu.push(blank()).push(one("Mode Description:"@, Tone::Muted)));
    let mut dsc = chars_of(" ");
    dsc.extend_from_slice(chars_of(mode_description_exec(app.output_mode)).as_slice());
    assert(dsc@ == " "@ + mode_description(app.output_mode));
    push_one(&mut left, dsc, Tone::Text);
    assert(lines_view(left@) == menu.push(blank()).push(one("Mode Description:"@, Tone::Muted)).push(one(" "@ + mode_description(app.output_mode), Tone::Text)));
    proof {
        let tail = seq![
            blank(),
            one("Mode Description:"@, Tone::Muted),
            one(" "@ + mode_description(app.output_mode), Tone::Text),
        ];
        assert(lines_view(left@) =~= menu + tail);
        assert(head =~= seq![one(" Select how modernized CSS will be saved:"@, Tone::Heading), blank()]);
        assert(menu + tail =~= output_menu(*app));
    }
    let mut right: Vec<Vec<Piece>> = Vec::new();
    push_lit(&mut right, " Transformation Summary:", Tone::Heading);
    push_blank(&mut right);
    let ghost top = lines_view(right@);
    assert(top =~= seq![one(" Transformation Summary:"@, Tone::Heading), blank()]);
    match &app.report {
        Some(r) => {
            push_counts(&mut right, &r.summary);
        },
        None => {
            push_lit(&mut right, " Analysis pending. Press [a] to analyze.", Tone::Warn);
        },
    }
    let ghost mid = lines_view(right@);
    assert(mid =~= top + match app.report {
        Some(r) => summary_counts(r.summary),
        None => seq![one(" Analysis pending. Press [a] to analyze."@, Tone::Warn)],
    });
    push_blank(&mut right);
    push_lit(&mut right, " ┌────────────────────────────────────────────────────────┐", Tone::Good);
    push_lit(&mut right, " │  ➔  Press [ENTER] to Apply Transformations & Finish!   │", Tone::Button);
    push_lit(&mut right, " └────────────────────────────────────────────────────────┘", Tone::Good);
    push_blank(&mut right);
    push_lit(&mut right, " Tip: Press [d] to inspect exact code diffs and safety proofs.", Tone::Tip);
    proof {
        assert(lines_view(right@) =~= output_summary(*app));
    }
    (left, right)
}

fn push_counts(out: &mut Vec<Vec<Piece>>, s: &crate::model::WorkspaceSummary)
    ensures
        lines_view(final(out)@) == lines_view(old(out)@) + summary_counts(*s),
{
    let ghost v0 = lines_view(out@);
    let ghost ss = summary_counts(*s);
    let mut l1 = chars_of("   Files to transform:        ");
    l1.extend_from_slice(pad_left_exec(crate::planner::decimal_exec(s.files), 5).as_slice());
    assert(one(l1@, Tone::Text) =~~= ss[0]);
    push_one(out, l1, Tone::Text);
    let mut l2 = chars_of("   ✓ SAFE transformations:    ");
    l2.extend_from_slice(pad_left_exec(crate::planner::decimal_exec(s.safe), 5).as_slice());
    assert(one(l2@, Tone::GoodStrong) =~~= ss[1]);
    push_one(out, l2, Tone::GoodStrong);
    let mut l3 = chars_of("   ⚠ REVIEW items:            ");
    l3.extend_from_slice(pad_left_exec(crate::planner::decimal_exec(s.review), 5).as_slice());
    assert(one(l3@, Tone::Warn) =~~= ss[2]);
    push_one(out, l3, Tone::Warn);
    let mut l4 = chars_of("   ✗ UNSAFE / Unsupported:    ");
    let bad = crate::analysis::sat_add(s.unsafe_count, s.unsupported);
    l4.extend_from_slice(pad_left_exec(crate::planner::decimal_exec(bad), 5).as_slice());
    assert(one(l4@, Tone::Bad) =~~= ss[3]);
    push_one(out, l4, Tone::Bad);
    push_blank(out);
    assert(blank() == ss[4]);
    if s.safe > 0 {
        let mut l5 = chars_of(" Found ");
        l5.extend_from_slice(crate::planner::decimal_exec(s.safe).as_slice());
        l5.extend_from_slice(chars_of(" safe transformation(s) ready to apply!").as_slice());
        assert(one(l5@, Tone::Good) =~~= ss[5]);
        push_one(out, l5, Tone::Good);
    } else {
        push_lit(out, " No safe transformations found for selected rules.", Tone::Warn);
    }
    assert(lines_view(out@) =~= v0 + ss);
}

fn mode_tag_exec(m: OutputMode) -> (r: &'static str)
    ensures
        r@ == mode_tag(m),
{
    match m {
        OutputMode::NewFile => " [Default - Safe]",
        OutputMode::OutDir => " [Separate folder]",
        OutputMode::OverwriteWithBackup => " [Safe in-place + backup]",
        OutputMode::Overwrite => " [Direct modify in place]",
        OutputMode::DryRun => " [Preview only]",
        OutputMode::Patch => " [Diff patch]",
        OutputMode::Stdout => " [Terminal print]",
    }
}

fn mode_description_exec(m: OutputMode) -> (r: &'static str)
    ensures
        r@ == mode_description(m),
{
    match m {
        OutputMode::NewFile => "Creates parallel *.modern.css files alongside originals. Zero risk to source code.",
        OutputMode::OutDir => "Writes modernized files into <root>/cssforge-out/ maintaining relative structure.",
        OutputMode::OverwriteWithBackup => "Backs up originals to *.bak and updates CSS files in place.",
        OutputMode::Overwrite => "Overwrites original CSS files directly in your worktree.",
        OutputMode::DryRun => "Simulates transformations and reports statistics without writing any files.",
        OutputMode::Patch => "Writes unified *.patch diff files suitable for review or git apply.",
        OutputMode::Stdout => "Prints all transformed CSS code directly to standard output upon exit.",
    }
}

// ---------------------------------------------------------------------------
// The rules screen
// ---------------------------------------------------------------------------

pub(crate) fn pad_right_exec(t: Vec<char>, w: usize) -> (r: Vec<char>)
    ensures
        r@ == pad_right(t@, w as nat),
{
    let mut r = t;
    let ghost t0 = r@;
    if r.len() >= w {
        return r;
    }
    while r.len() < w
        invariant
            t0.len() <= r@.len() <= w,
            r@ == t0 + Seq::new((r@.len() - t0.len()) as nat, |i: int| ' '),
        decreases w - r.len(),
    {
        let ghost n = r@.len();
        r.push(' ');
        proof {
            assert(r@ =~= t0 + Seq::new((n + 1 - t0.len()) as nat, |i: int| ' '));
        }
    }
    r
}

/// The first lines of the rules screen: the preset, and the notice that the engine only
/// goes forward.
pub open spec fn rules_head(app: App) -> Seq<Seq<(Seq<char>, Tone)>> {
    seq![
        seq![
            (" Active Preset: "@, Tone::Muted),
            ("["@ + crate::model::preset_label(app.preset) + "]"@, Tone::Chosen),
            ("   (Press "@, Tone::Muted),
            ("p"@, Tone::Chosen),
            (" to cycle presets: Conservative ➔ Modern ➔ Refactor ➔ Aggressive ➔ Custom)"@, Tone::Muted),
        ],
        one(" ⚠ DISCLAIMER: CSSForge is a strictly forward semantic modernization & refactoring engine."@, Tone::Warn),
        one(
            "   Backward / reverse demodernization is unsupported. Always maintain Git backups before applying changes."@,
            Tone::Muted,
        ),
        blank(),
    ]
}

pub open spec fn section_heading(s: RuleSection) -> Seq<(Seq<char>, Tone)> {
    match s {
        RuleSection::Modernize => one(
            " ── MODERNIZE (Native Nesting, Range Syntax & Modern Selectors) ──────────────────────"@,
            Tone::ModernizeSection,
        ),
        RuleSection::Refactor => one(
            " ── REFACTOR (Consolidation, Deduplication & Structural Cleanup) ─────────────────────"@,
            Tone::RefactorSection,
        ),
    }
}

pub open spec fn level_tag(l: SafetyLevel) -> Seq<char> {
    match l {
        SafetyLevel::AnalysisOnly => "L0"@,
        SafetyLevel::FormattingOnly => "L1"@,
        SafetyLevel::ProvenLocalRefactor => "L2"@,
        SafetyLevel::SemanticReview => "L3"@,
        SafetyLevel::Architectural => "L4"@,
    }
}

/// The lines before rule `k`: a heading where a new section starts (after a blank line unless
/// it is the first).
pub open spec fn section_break(rules: Seq<RuleItem>, k: int) -> Seq<Seq<(Seq<char>, Tone)>> {
    if k == 0 {
        seq![section_heading(rules[0].definition.section)]
    } else if rules[k - 1].definition.section != rules[k].definition.section {
        seq![blank(), section_heading(rules[k].definition.section)]
    } else {
        seq![]
    }
}

/// The line of rule `item`: its box, title, category, level and description.
pub open spec fn rule_line(item: RuleItem, under_cursor: bool) -> Seq<(Seq<char>, Tone)> {
    let d = item.definition;
    one(
        "  "@ + (if item.enabled {
            "[x]"@
        } else {
            "[ ]"@
        }) + " "@ + pad_right(d.title@, 34) + " ["@ + pad_right(d.category@, 21) + " · "@ + level_tag(d.safety_level) + "]  "@
            + d.description@,
        if under_cursor {
            Tone::Cursor
        } else if item.enabled {
            Tone::Text
        } else {
            Tone::Muted
        },
    )
}

/// The lines of the first `n` rules.
pub open spec fn rules_body(rules: Seq<RuleItem>, cursor: nat, n: int) -> Seq<Seq<(Seq<char>, Tone)>>
    decreases n,
{
    if n <= 0 {
        seq![]
    } else {
        rules_body(rules, cursor, n - 1) + section_break(rules, n - 1) + seq![rule_line(rules[n - 1], n - 1 == cursor)]
    }
}

pub open spec fn rules_foot(rules: Seq<RuleItem>) -> Seq<Seq<(Seq<char>, Tone)>> {
    let c = enabled_ids(rules).len();
    seq![
        blank(),
        one(
            " Enabled: "@ + crate::planner::decimal(c) + " of "@ + crate::planner::decimal(rules.len())
                + " rule(s)  ·  Press [ENTER] to confirm & choose Output Settings ➔"@,
            if c > 0 {
                Tone::Good
            } else {
                Tone::Warn
            },
        ),
    ]
}

/// The lines of the rules screen.
pub open spec fn rules_lines(app: App) -> Seq<Seq<(Seq<char>, Tone)>> {
    rules_head(app) + rules_body(app.rules@, app.rule_cursor as nat, app.rules@.len() as int) + rules_foot(app.rules@)
}

/// The line of the rule under the cursor, or 0 when the cursor is past the list.
pub open spec fn rules_cursor_line(app: App) -> int {
    let c = app.rule_cursor as int;
    if c < app.rules@.len() {
        (4 + rules_body(app.rules@, c as nat, c).len() + section_break(app.rules@, c).len()) as int
    } else {
        0
    }
}

fn level_tag_exec(l: SafetyLevel) -> (r: &'static str)
    ensures
        r@ == level_tag(l),
{
    match l {
        SafetyLevel::AnalysisOnly => "L0",
        SafetyLevel::FormattingOnly => "L1",
        SafetyLevel::ProvenLocalRefactor => "L2",
        SafetyLevel::SemanticReview => "L3",
        SafetyLevel::Architectural => "L4",
    }
}

fn push_heading(out: &mut Vec<Vec<Piece>>, s: RuleSection)
    ensures
        lines_view(final(out)@) == lines_view(old(out)@).push(section_heading(s)),
{
    match s {
        RuleSection::Modernize => push_lit(
            out,
            " ── MODERNIZE (Native Nesting, Range Syntax & Modern Selectors) ──────────────────────",
            Tone::ModernizeSection,
        ),
        RuleSection::Refactor => push_lit(
            out,
            " ── REFACTOR (Consolidation, Deduplication & Structural Cleanup) ─────────────────────",
            Tone::RefactorSection,
        ),
    }
}

fn push_piece(l: &mut Vec<Piece>, text: Vec<char>, tone: Tone)
    ensures
        line_view(*final(l)) == line_view(*old(l)).push((text@, tone)),
{
    let ghost before = *l;
    l.push(Piece { text: string_of(text.as_slice()), tone });
    proof {
        assert(line_view(*l) =~= line_view(before).push((text@, tone)));
    }
}

fn rule_line_exec(item: &RuleItem, under_cursor: bool) -> (r: Vec<Piece>)
    ensures
        line_view(r) == rule_line(*item, under_cursor),
{
    let d = &item.definition;
    let mut t = chars_of("  ");
    t.extend_from_slice(chars_of(if item.enabled { "[x]" } else { "[ ]" }).as_slice());
    t.extend_from_slice(chars_of(" ").as_slice());
    t.extend_from_slice(pad_right_exec(chars_of(d.title), 34).as_slice());
    t.extend_from_slice(chars_of(" [").as_slice());
    t.extend_from_slice(pad_right_exec(chars_of(d.category), 21).as_slice());
    t.extend_from_slice(chars_of(" · ").as_slice());
    t.extend_from_slice(chars_of(level_tag_exec(d.safety_level)).as_slice());
    t.extend_from_slice(chars_of("]  ").as_slice());
    t.extend_from_slice(chars_of(d.description).as_slice());
    let tone = if under_cursor {
        Tone::Cursor
    } else if item.enabled {
        Tone::Text
    } else {
        Tone::Muted
    };
    let mut l: Vec<Piece> = Vec::new();
    push_piece(&mut l, t, tone);
    proof {
        assert(line_view(l) =~~= rule_line(*item, under_cursor));
    }
    l
}

/// The lines of the rules screen, and the line of the rule under the cursor.
pub fn rules_screen(app: &App) -> (r: (Vec<Vec<Piece>>, usize))
    ensures
        lines_view(r.0@) == rules_lines(*app),
        r.1 == rules_cursor_line(*app),
{
    let mut out: Vec<Vec<Piece>> = Vec::new();
    let mut first: Vec<Piece> = Vec::new();
    push_piece(&mut first, chars_of(" Active Preset: "), Tone::Muted);
    let mut pl = chars_of("[");
    pl.extend_from_slice(chars_of(app.preset.label()).as_slice());
    pl.extend_from_slice(chars_of("]").as_slice());
    push_piece(&mut first, pl, Tone::Chosen);
    push_piece(&mut first, chars_of("   (Press "), Tone::Muted);
    push_piece(&mut first, chars_of("p"), Tone::Chosen);
    push_piece(
        &mut first,
        chars_of(" to cycle presets: Conservative ➔ Modern ➔ Refactor ➔ Aggressive ➔ Custom)"),
        Tone::Muted,
    );
    push_line(&mut out, first);
    push_lit(&mut out, " ⚠ DISCLAIMER: CSSForge is a strictly forward semantic modernization & refactoring engine.", Tone::Warn);
    push_lit(
        &mut out,
        "   Backward / reverse demodernization is unsupported. Always maintain Git backups before applying changes.",
        Tone::Muted,
    );
    push_blank(&mut out);
    proof {
        assert(lines_view(out@) =~~= rules_head(*app));
    }
    let ghost head = lines_view(out@);
    let ghost rs = app.rules@;
    let ghost cur = app.rule_cursor as nat;
    let mut cursor_line: usize = 0;
    let mut enabled: usize = 0;
    let mut k: usize = 0;
    while k < app.rules.len()
        invariant
            k <= rs.len(),
            rs == app.rules@,
            cur == app.rule_cursor as nat,
            head == rules_head(*app),
            lines_view(out@) == head + rules_body(rs, cur, k as int),
            enabled == enabled_ids(rs.take(k as int)).len(),
            enabled <= k,
            cursor_line == (if cur < k {
                (4 + rules_body(rs, cur, cur as int).len() + section_break(rs, cur as int).len()) as int
            } else {
                0int
            }),
            out@.len() == 4 + rules_body(rs, cur, k as int).len(),
        decreases app.rules.len() - k,
    {
        let item = &app.rules[k];
        let ghost before = lines_view(out@);
        if k == 0 {
            push_heading(&mut out, item.definition.section);
        } else if app.rules[k - 1].definition.section != item.definition.section {
            push_blank(&mut out);
            push_heading(&mut out, item.definition.section);
        }
        assert(lines_view(out@) =~= before + section_break(rs, k as int));
        if k == app.rule_cursor {
            cursor_line = out.len();
        }
        let l = rule_line_exec(item, k == app.rule_cursor);
        push_line(&mut out, l);
        proof {
            assert(lines_view(out@) =~= head + rules_body(rs, cur, k + 1));
            assert(rs.take(k + 1).drop_last() =~= rs.take(k as int));
        }
        if item.enabled {
            enabled = enabled + 1;
        }
        k = k + 1;
    }
    proof {
        assert(rs.take(rs.len() as int) =~= rs);
    }
    let ghost body = lines_view(out@);
    push_blank(&mut out);
    let mut foot = chars_of(" Enabled: ");
    foot.extend_from_slice(crate::planner::decimal_exec(enabled).as_slice());
    foot.extend_from_slice(chars_of(" of ").as_slice());
    foot.extend_from_slice(crate::planner::decimal_exec(app.rules.len()).as_slice());
    foot.extend_from_slice(chars_of(" rule(s)  ·  Press [ENTER] to confirm & choose Output Settings ➔").as_slice());
    push_one(&mut out, foot, if enabled > 0 { Tone::Good } else { Tone::Warn });
    proof {
        assert(lines_view(out@) =~~= body + rules_foot(rs));
        assert(lines_view(out@) =~~= rules_lines(*app));
    }
    (out, cursor_line)
}

/// How far to scroll so that line `cursor` is inside a window of `visible_rows` lines.
pub fn scroll_offset(cursor: usize, visible_rows: usize) -> (r: usize)
    ensures
        r == (if visible_rows == 0 || cursor < visible_rows {
            0
        } else {
            cursor + 1 - visible_rows
        }),
{
    if visible_rows == 0 || cursor < visible_rows {
        0
    } else {
        cursor - visible_rows + 1
    }
}

// ---------------------------------------------------------------------------
// The done screen
// ---------------------------------------------------------------------------

/// `path` as shown relative to `root`: what `Path::strip_prefix` leaves of it, or `path` itself
/// when `root` is not a prefix of it.
pub open spec fn compact_path_text(root: Seq<char>, path: Seq<char>) -> Seq<char> {
    match crate::output::strip_prefix_text(path, root) {
        Some(rest) => rest,
        None => path,
    }
}

/// `path` relative to `root` where `root` is one of its leading components, else `path`
/// unchanged.
fn compact_path(root: &str, path: &str) -> (r: String)
    ensures
        r@ == compact_path_text(root@, path@),
{
    match crate::output::strip_prefix_of(path, root) {
        Some(rest) => rest,
        None => String::from_str(path),
    }
}

/// The line for one write result: where the file went, or its backup, or what happened.
pub open spec fn result_line(root: Seq<char>, r: crate::output::WriteResult) -> Seq<(Seq<char>, Tone)> {
    let src = compact_path_text(root, r.source@);
    match r.written {
        Some(t) => one("   • "@ + src + "  ➔  "@ + compact_path_text(root, t@), Tone::Good),
        None => match r.backup {
            Some(b) => one("   • "@ + src + "  (backup: "@ + compact_path_text(root, b@) + ")"@, Tone::Good),
            None => one("   • "@ + src + " : "@ + r.message@, Tone::Text),
        },
    }
}

/// The lines of the done screen: how the run ended, where each file went, and the keys.
pub open spec fn done_lines(app: App) -> Seq<Seq<(Seq<char>, Tone)>> {
    let n = app.write_results@.len();
    let d = crate::planner::decimal(n);
    seq![
        blank(),
        if n > 0 {
            one("  ✓ SUCCESS: Modernization Complete! Transformed "@ + d + " file(s).  "@, Tone::Button)
        } else if app.output_mode == OutputMode::DryRun {
            one("  ✓ DRY RUN FINISHED: Simulation complete (no files written).  "@, Tone::BannerInfo)
        } else {
            one("  ✓ COMPLETE: 0 files needed transformation.  "@, Tone::BannerWarn)
        },
        blank(),
        one(" Output Mode: "@ + output_mode_label(app.output_mode) + "  ·  Files Processed: "@ + d, Tone::TextStrong),
        blank(),
    ] + (if n > 0 {
        seq![one(" Transformed Files:"@, Tone::Heading)] + Seq::new(
            n,
            |k: int| result_line(app.root@, app.write_results@[k]),
        )
    } else {
        seq![]
    }) + seq![
        blank(),
        one(" ┌────────────────────────────────────────────────────────┐"@, Tone::Heading),
        one(" │  [Enter] or [q] : Exit CSSForge                         │"@, Tone::Text),
        one(" │  [r]            : Start a new refactoring session       │"@, Tone::Text),
        one(" │  [Esc]          : Return to Output settings             │"@, Tone::Text),
        one(" └────────────────────────────────────────────────────────┘"@, Tone::Heading),
    ]
}

fn result_line_exec(root: &str, r: &crate::output::WriteResult) -> (l: Vec<Piece>)
    ensures
        line_view(l) == result_line(root@, *r),
{
    let src = compact_path(root, r.source.as_str());
    let mut t = chars_of("   • ");
    t.extend_from_slice(chars_of(src.as_str()).as_slice());
    let tone;
    match &r.written {
        Some(w) => {
            t.extend_from_slice(chars_of("  ➔  ").as_slice());
            t.extend_from_slice(chars_of(compact_path(root, w.as_str()).as_str()).as_slice());
            tone = Tone::Good;
        },
        None => match &r.backup {
            Some(b) => {
                t.extend_from_slice(chars_of("  (backup: ").as_slice());
                t.extend_from_slice(chars_of(compact_path(root, b.as_str()).as_str()).as_slice());
                t.extend_from_slice(chars_of(")").as_slice());
                tone = Tone::Good;
            },
            None => {
                t.extend_from_slice(chars_of(" : ").as_slice());
                t.extend_from_slice(chars_of(r.message.as_str()).as_slice());
                tone = Tone::Text;
            },
        },
    }
    let mut l: Vec<Piece> = Vec::new();
    push_piece(&mut l, t, tone);
    proof {
        assert(line_view(l) =~~= result_line(root@, *r));
    }
    l
}

/// The lines of the done screen.
pub fn done_screen(app: &App) -> (r: Vec<Vec<Piece>>)
    ensures
        lines_view(r@) == done_lines(*app),
{
    let n = app.write_results.len();
    let mut out: Vec<Vec<Piece>> = Vec::new();
    push_blank(&mut out);
    if n > 0 {
        let mut b = chars_of("  ✓ SUCCESS: Modernization Complete! Transformed ");
        b.extend_from_slice(crate::planner::decimal_exec(n).as_slice());
        b.extend_from_slice(chars_of(" file(s).  ").as_slice());
        push_one(&mut out, b, Tone::Button);
    } else if app.output_mode == OutputMode::DryRun {
        push_lit(&mut out, "  ✓ DRY RUN FINISHED: Simulation complete (no files written).  ", Tone::BannerInfo);
    } else {
        push_lit(&mut out, "  ✓ COMPLETE: 0 files needed transformation.  ", Tone::BannerWarn);
    }
    push_blank(&mut out);
    let mut m = chars_of(" Output Mode: ");
    m.extend_from_slice(chars_of(app.output_mode.label()).as_slice());
    m.extend_from_slice(chars_of("  ·  Files Processed: ").as_slice());
    m.extend_from_slice(crate::planner::decimal_exec(n).as_slice());
    push_one(&mut out, m, Tone::TextStrong);
    push_blank(&mut out);
    let ghost head = lines_view(out@);
    let ghost spec_all = done_lines(*app);
    assert(head =~~= spec_all.take(5));
    if n > 0 {
        push_lit(&mut out, " Transformed Files:", Tone::Heading);
        let ghost h2 = lines_view(out@);
        let mut k: usize = 0;
        while k < n
            invariant
                k <= n,
                n == app.write_results@.len(),
                lines_view(out@) == h2 + Seq::new(k as nat, |q: int| result_line(app.root@, app.write_results@[q])),
            decreases n - k,
        {
            let l = result_line_exec(app.root.as_str(), &app.write_results[k]);
            push_line(&mut out, l);
            proof {
                assert(Seq::new((k + 1) as nat, |q: int| result_line(app.root@, app.write_results@[q])) =~= Seq::new(
                    k as nat,
                    |q: int| result_line(app.root@, app.write_results@[q]),
                ).push(result_line(app.root@, app.write_results@[k as int])));
            }
            k = k + 1;
        }
    }
    let ghost mid = lines_view(out@);
    push_blank(&mut out);
    push_lit(&mut out, " ┌────────────────────────────────────────────────────────┐", Tone::Heading);
    push_lit(&mut out, " │  [Enter] or [q] : Exit CSSForge                         │", Tone::Text);
    push_lit(&mut out, " │  [r]            : Start a new refactoring session       │", Tone::Text);
    push_lit(&mut out, " │  [Esc]          : Return to Output settings             │", Tone::Text);
    push_lit(&mut out, " └────────────────────────────────────────────────────────┘", Tone::Heading);
    proof {
        assert(lines_view(out@) =~~= done_lines(*app));
    }
    out
}

// ---------------------------------------------------------------------------
// The files screen
// ---------------------------------------------------------------------------

/// The line of file `k`: its box and its path under the root.
pub open spec fn file_line(app: App, k: int) -> Seq<(Seq<char>, Tone)> {
    let f = app.files@[k];
    one(
        " "@ + (if f.selected {
            "[x]"@
        } else {
            "[ ]"@
        }) + " "@ + compact_path_text(app.root@, f.path@),
        if k == app.file_cursor {
            Tone::Cursor
        } else if f.selected {
            Tone::Text
        } else {
            Tone::Muted
        },
    )
}

/// The lines of the files screen.
pub open spec fn files_lines(app: App) -> Seq<Seq<(Seq<char>, Tone)>> {
    let n = app.files@.len();
    let c = selected_paths(app.files@).len();
    seq![
        one(
            " Choose the CSS files you want to modernize. Press [Space] to toggle, [a] for all, [Enter] to confirm."@,
            Tone::Heading,
        ),
        blank(),
    ] + (if n == 0 {
        seq![one(" No .css files found under the selected directory."@, Tone::Warn)]
    } else {
        Seq::new(n, |k: int| file_line(app, k))
    }) + seq![
        blank(),
        one(
            " Selected: "@ + crate::planner::decimal(c) + " of "@ + crate::planner::decimal(n)
                + " file(s)  ·  Press [ENTER] to proceed to Rules ➔"@,
            if c > 0 {
                Tone::Good
            } else {
                Tone::Warn
            },
        ),
    ]
}

fn count_selected(app: &App) -> (c: usize)
    ensures
        c == selected_paths(app.files@).len(),
{
    let ghost fs = app.files@;
    let mut c: usize = 0;
    let mut k: usize = 0;
    while k < app.files.len()
        invariant
            k <= fs.len(),
            fs == app.files@,
            c == selected_paths(fs.take(k as int)).len(),
            c <= k,
        decreases app.files.len() - k,
    {
        proof {
            assert(fs.take(k + 1).drop_last() =~= fs.take(k as int));
        }
        if app.files[k].selected {
            c = c + 1;
        }
        k = k + 1;
    }
    proof {
        assert(fs.take(fs.len() as int) =~= fs);
    }
    c
}

fn count_enabled(app: &App) -> (c: usize)
    ensures
        c == enabled_ids(app.rules@).len(),
{
    let ghost rs = app.rules@;
    let mut c: usize = 0;
    let mut k: usize = 0;
    while k < app.rules.len()
        invariant
            k <= rs.len(),
            rs == app.rules@,
            c == enabled_ids(rs.take(k as int)).len(),
            c <= k,
        decreases app.rules.len() - k,
    {
        proof {
            assert(rs.take(k + 1).drop_last() =~= rs.take(k as int));
        }
        if app.rules[k].enabled {
            c = c + 1;
        }
        k = k + 1;
    }
    proof {
        assert(rs.take(rs.len() as int) =~= rs);
    }
    c
}

/// The lines of the files screen.
pub fn files_screen(app: &App) -> (r: Vec<Vec<Piece>>)
    ensures
        lines_view(r@) == files_lines(*app),
{
    let n = app.files.len();
    let c = count_selected(app);
    let mut out: Vec<Vec<Piece>> = Vec::new();
    push_lit(
        &mut out,
        " Choose the CSS files you want to modernize. Press [Space] to toggle, [a] for all, [Enter] to confirm.",
        Tone::Heading,
    );
    push_blank(&mut out);
    let ghost head = lines_view(out@);
    if n == 0 {
        push_lit(&mut out, " No .css files found under the selected directory.", Tone::Warn);
    } else {
        let mut k: usize = 0;
        while k < n
            invariant
                k <= n,
                n == app.files@.len(),
                lines_view(out@) == head + Seq::new(k as nat, |q: int| file_line(*app, q)),
            decreases n - k,
        {
            let f = &app.files[k];
            let mut t = chars_of(" ");
            t.extend_from_slice(chars_of(if f.selected { "[x]" } else { "[ ]" }).as_slice());
            t.extend_from_slice(chars_of(" ").as_slice());
            t.extend_from_slice(chars_of(compact_path(app.root.as_str(), f.path.as_str()).as_str()).as_slice());
            let tone = if k == app.file_cursor {
                Tone::Cursor
            } else if f.selected {
                Tone::Text
            } else {
                Tone::Muted
            };
            let mut l: Vec<Piece> = Vec::new();
            push_piece(&mut l, t, tone);
            assert(line_view(l) =~~= file_line(*app, k as int));
            push_line(&mut out, l);
            proof {
                assert(Seq::new((k + 1) as nat, |q: int| file_line(*app, q)) =~= Seq::new(k as nat, |q: int| file_line(*app, q)).push(
                    file_line(*app, k as int),
                ));
            }
            k = k + 1;
        }
    }
    let ghost mid = lines_view(out@);
    push_blank(&mut out);
    let mut foot = chars_of(" Selected: ");
    foot.extend_from_slice(crate::planner::decimal_exec(c).as_slice());
    foot.extend_from_slice(chars_of(" of ").as_slice());
    foot.extend_from_slice(crate::planner::decimal_exec(n).as_slice());
    foot.extend_from_slice(chars_of(" file(s)  ·  Press [ENTER] to proceed to Rules ➔").as_slice());
    push_one(&mut out, foot, if c > 0 { Tone::Good } else { Tone::Warn });
    proof {
        assert(lines_view(out@) =~~= files_lines(*app));
    }
    out
}

// ---------------------------------------------------------------------------
// The header
// ---------------------------------------------------------------------------

pub open spec fn step_label(k: int) -> Seq<char> {
    if k == 0 {
        "1: Select Files"@
    } else if k == 1 {
        "2: Select Rules"@
    } else if k == 2 {
        "3: Output Settings"@
    } else {
        "4: Done"@
    }
}

/// Step `k` of the header, by where the wizard is: taken, being taken, or to come.
pub open spec fn step_piece(cur: Option<nat>, k: int) -> (Seq<char>, Tone) {
    match cur {
        Some(c) => if c == k {
            ("▶ "@ + step_label(k), Tone::CurrentStep)
        } else if c > k {
            ("✓ "@ + step_label(k), Tone::Good)
        } else {
            ("○ "@ + step_label(k), Tone::Muted)
        },
        None => ("○ "@ + step_label(k), Tone::Muted),
    }
}

/// The steps of the header from step `0` to step `n - 1`, arrows between them.
pub open spec fn steps_pieces(cur: Option<nat>, n: int) -> Seq<(Seq<char>, Tone)>
    decreases n,
{
    if n <= 0 {
        seq![]
    } else if n == 1 {
        seq![step_piece(cur, 0)]
    } else {
        steps_pieces(cur, n - 1) + seq![(" ➔ "@, Tone::Muted), step_piece(cur, n - 1)]
    }
}

/// The two lines of the header: the brand and the steps, then the root, the counts, the
/// preset and the output mode.
pub open spec fn header_lines(app: App) -> Seq<Seq<(Seq<char>, Tone)>> {
    let sel = selected_paths(app.files@).len();
    let en = enabled_ids(app.rules@).len();
    let d = |n: nat| crate::planner::decimal(n);
    seq![
        seq![(" CSSForge "@, Tone::BannerInfo), ("  "@, Tone::Plain)] + steps_pieces(screen_step(app.screen), 4) + (if app.screen
            == Screen::Diff {
            seq![("  [Diff Inspector]"@, Tone::TipStrong)]
        } else {
            seq![]
        }),
        seq![
            ("Root: "@, Tone::Muted),
            (app.root@, Tone::Plain),
            ("  │  "@, Tone::Plain),
            ("Files: "@, Tone::Muted),
            (
                d(sel) + "/"@ + d(app.files@.len()),
                if sel > 0 {
                    Tone::Good
                } else {
                    Tone::Bad
                },
            ),
            ("  │  "@, Tone::Plain),
            ("Rules: "@, Tone::Muted),
            (d(en) + "/"@ + d(app.rules@.len()) + " ("@ + crate::model::preset_label(app.preset) + ")"@, Tone::Heading),
            ("  │  "@, Tone::Plain),
            ("Output: "@, Tone::Muted),
            (output_mode_label(app.output_mode), Tone::Tip),
        ],
    ]
}

fn step_label_exec(k: usize) -> (r: &'static str)
    ensures
        r@ == step_label(k as int),
{
    if k == 0 {
        "1: Select Files"
    } else if k == 1 {
        "2: Select Rules"
    } else if k == 2 {
        "3: Output Settings"
    } else {
        "4: Done"
    }
}

/// The lines of the header.
pub fn header_screen(app: &App) -> (r: Vec<Vec<Piece>>)
    ensures
        lines_view(r@) == header_lines(*app),
{
    let cur = app.screen.step_index();
    let ghost gcur = screen_step(app.screen);
    let mut l1: Vec<Piece> = Vec::new();
    push_piece(&mut l1, chars_of(" CSSForge "), Tone::BannerInfo);
    push_piece(&mut l1, chars_of("  "), Tone::Plain);
    let ghost h = line_view(l1);
    let mut k: usize = 0;
    while k < 4
        invariant
            k <= 4,
            gcur == screen_step(app.screen),
            match gcur {
                Some(g) => cur == Some(g as usize),
                None => cur is None,
            },
            gcur matches Some(g) ==> g < 4,
            line_view(l1) == h + steps_pieces(gcur, k as int),
        decreases 4 - k,
    {
        if k > 0 {
            push_piece(&mut l1, chars_of(" ➔ "), Tone::Muted);
        }
        let (icon, tone) = match cur {
            Some(c) => if c == k {
                ("▶ ", Tone::CurrentStep)
            } else if c > k {
                ("✓ ", Tone::Good)
            } else {
                ("○ ", Tone::Muted)
            },
            None => ("○ ", Tone::Muted),
        };
        let mut t = chars_of(icon);
        t.extend_from_slice(chars_of(step_label_exec(k)).as_slice());
        assert((t@, tone) == step_piece(gcur, k as int));
        push_piece(&mut l1, t, tone);
        proof {
            assert(line_view(l1) =~= h + steps_pieces(gcur, k + 1));
        }
        k = k + 1;
    }
    if app.screen == Screen::Diff {
        push_piece(&mut l1, chars_of("  [Diff Inspector]"), Tone::TipStrong);
    }
    let sel = count_selected(app);
    let en = count_enabled(app);
    let mut l2: Vec<Piece> = Vec::new();
    push_piece(&mut l2, chars_of("Root: "), Tone::Muted);
    push_piece(&mut l2, chars_of(app.root.as_str()), Tone::Plain);
    push_piece(&mut l2, chars_of("  │  "), Tone::Plain);
    push_piece(&mut l2, chars_of("Files: "), Tone::Muted);
    let mut f = crate::planner::decimal_exec(sel);
    f.extend_from_slice(chars_of("/").as_slice());
    f.extend_from_slice(crate::planner::decimal_exec(app.files.len()).as_slice());
    push_piece(&mut l2, f, if sel > 0 { Tone::Good } else { Tone::Bad });
    push_piece(&mut l2, chars_of("  │  "), Tone::Plain);
    push_piece(&mut l2, chars_of("Rules: "), Tone::Muted);
    let mut r = crate::planner::decimal_exec(en);
    r.extend_from_slice(chars_of("/").as_slice());
    r.extend_from_slice(crate::planner::decimal_exec(app.rules.len()).as_slice());
    r.extend_from_slice(chars_of(" (").as_slice());
    r.extend_from_slice(chars_of(app.preset.label()).as_slice());
    r.extend_from_slice(chars_of(")").as_slice());
    push_piece(&mut l2, r, Tone::Heading);
    push_piece(&mut l2, chars_of("  │  "), Tone::Plain);
    push_piece(&mut l2, chars_of("Output: "), Tone::Muted);
    push_piece(&mut l2, chars_of(app.output_mode.label()), Tone::Tip);
    let mut out: Vec<Vec<Piece>> = Vec::new();
    push_line(&mut out, l1);
    push_line(&mut out, l2);
    proof {
        assert(lines_view(out@) =~~= header_lines(*app));
    }
    out
}

// ---------------------------------------------------------------------------
// The footer
// ---------------------------------------------------------------------------

/// A key and what it does.
pub open spec fn hint(key: Seq<char>, what: Seq<char>) -> Seq<(Seq<char>, Tone)> {
    seq![(key, Tone::Chosen), (what, Tone::Plain)]
}

/// The keys the footer names on screen `sc`.
pub open spec fn key_hints(sc: Screen) -> Seq<(Seq<char>, Tone)> {
    match sc {
        Screen::Files => hint("[Enter]"@, " Next: Rules ➔   "@) + hint("[Space]"@, " Toggle   "@) + hint("[a]"@, " Select All   "@)
            + hint("[↑↓/jk]"@, " Move   "@) + hint("[q]"@, " Quit"@),
        Screen::Rules => hint("[Enter]"@, " Next: Output ➔   "@) + hint("[Space]"@, " Toggle   "@) + hint("[p]"@, " Preset   "@)
            + hint("[Esc/b]"@, " Back   "@) + hint("[↑↓/jk]"@, " Move   "@) + hint("[q]"@, " Quit"@),
        Screen::Output => hint("[Enter]"@, " Apply & Finish ➔   "@) + hint("[↑↓/jk]"@, " Select Mode   "@) + hint(
            "[d]"@,
            " View Diff   "@,
        ) + hint("[Esc/b]"@, " Back   "@) + hint("[q]"@, " Quit"@),
        Screen::Done => hint("[Enter]/[q]"@, " Exit CSSForge   "@) + hint("[r]"@, " Start Over   "@) + hint(
            "[Esc/b]"@,
            " Back to Settings"@,
        ),
        Screen::Diff => hint("[Enter]/[Esc]"@, " Return to Output   "@) + hint("[Space]"@, " Toggle Plan   "@) + hint(
            "[↑↓/jk]"@,
            " Move   "@,
        ) + hint("[PgUp/Dn]"@, " Scroll"@),
    }
}

/// The footer: the keys of the screen, then the status line (`Ready.` when there is none).
pub open spec fn footer_lines(app: App) -> Seq<Seq<(Seq<char>, Tone)>> {
    seq![
        key_hints(app.screen),
        one(
            if app.status@.len() == 0 {
                "Ready."@
            } else {
                app.status@
            },
            Tone::Heading,
        ),
    ]
}

fn push_hint(l: &mut Vec<Piece>, key: &str, what: &str)
    ensures
        line_view(*final(l)) == line_view(*old(l)) + hint(key@, what@),
{
    push_piece(l, chars_of(key), Tone::Chosen);
    push_piece(l, chars_of(what), Tone::Plain);
    proof {
        assert(line_view(*l) =~= line_view(*old(l)) + hint(key@, what@));
    }
}

/// The lines of the footer.
pub fn footer_screen(app: &App) -> (r: Vec<Vec<Piece>>)
    ensures
        lines_view(r@) == footer_lines(*app),
{
    let mut l: Vec<Piece> = Vec::new();
    match app.screen {
        Screen::Files => {
            push_hint(&mut l, "[Enter]", " Next: Rules ➔   ");
            push_hint(&mut l, "[Space]", " Toggle   ");
            push_hint(&mut l, "[a]", " Select All   ");
            push_hint(&mut l, "[↑↓/jk]", " Move   ");
            push_hint(&mut l, "[q]", " Quit");
        },
        Screen::Rules => {
            push_hint(&mut l, "[Enter]", " Next: Output ➔   ");
            push_hint(&mut l, "[Space]", " Toggle   ");
            push_hint(&mut l, "[p]", " Preset   ");
            push_hint(&mut l, "[Esc/b]", " Back   ");
            push_hint(&mut l, "[↑↓/jk]", " Move   ");
            push_hint(&mut l, "[q]", " Quit");
        },
        Screen::Output => {
            push_hint(&mut l, "[Enter]", " Apply & Finish ➔   ");
            push_hint(&mut l, "[↑↓/jk]", " Select Mode   ");
            push_hint(&mut l, "[d]", " View Diff   ");
            push_hint(&mut l, "[Esc/b]", " Back   ");
            push_hint(&mut l, "[q]", " Quit");
        },
        Screen::Done => {
            push_hint(&mut l, "[Enter]/[q]", " Exit CSSForge   ");
            push_hint(&mut l, "[r]", " Start Over   ");
            push_hint(&mut l, "[Esc/b]", " Back to Settings");
        },
        Screen::Diff => {
            push_hint(&mut l, "[Enter]/[Esc]", " Return to Output   ");
            push_hint(&mut l, "[Space]", " Toggle Plan   ");
            push_hint(&mut l, "[↑↓/jk]", " Move   ");
            push_hint(&mut l, "[PgUp/Dn]", " Scroll");
        },
    }
    assert(line_view(l) =~= key_hints(app.screen));
    let mut out: Vec<Vec<Piece>> = Vec::new();
    push_line(&mut out, l);
    let st = chars_of(app.status.as_str());
    if st.len() == 0 {
        push_lit(&mut out, "Ready.", Tone::Heading);
    } else {
        push_one(&mut out, st, Tone::Heading);
    }
    proof {
        assert(lines_view(out@) =~~= footer_lines(*app));
    }
    out
}

// ---------------------------------------------------------------------------
// The diff inspector
// ---------------------------------------------------------------------------

pub open spec fn safety_tone(s: crate::model::Safety) -> Tone {
    match s {
        crate::model::Safety::Safe => Tone::Good,
        crate::model::Safety::Review => Tone::Warn,
        crate::model::Safety::Unsafe => Tone::Bad,
        crate::model::Safety::Unsupported => Tone::BadSoft,
        crate::model::Safety::NoOp => Tone::Muted,
    }
}

/// The names of the rules of a plan, comma-separated.
pub open spec fn rule_names(rs: Seq<crate::model::RuleId>) -> Seq<char> {
    crate::text::join(Seq::new(rs.len(), |i: int| crate::model::rule_name(rs[i])), seq![','])
}

/// The line of plan `k` of the list: its box, safety, file and rules.
pub open spec fn plan_line(app: App, k: int) -> Seq<(Seq<char>, Tone)> {
    let pos = crate::wizard::plan_positions_spec(app.report)[k];
    let p = app.report.unwrap().files@[pos.0 as int].plans@[pos.1 as int];
    one(
        " "@ + (if p.selected {
            "[x]"@
        } else {
            "[ ]"@
        }) + " "@ + pad_right(crate::model::safety_label(p.safety), 8) + " "@ + compact_path_text(app.root@, p.file@) + "  "@
            + rule_names(p.rules@),
        if k == app.plan_cursor {
            Tone::Cursor
        } else {
            safety_tone(p.safety)
        },
    )
}

/// The list of plans of the diff inspector.
pub open spec fn plan_list_lines(app: App) -> Seq<Seq<(Seq<char>, Tone)>> {
    let n = crate::wizard::plan_positions_spec(app.report).len();
    if n == 0 {
        seq![one("No transformation candidates found."@, Tone::Warn)]
    } else {
        Seq::new(n, |k: int| plan_line(app, k))
    }
}

/// How a line of a unified diff is shown: its headers, additions, removals, hunk marks, and
/// the rest.
pub open spec fn diff_tone(l: Seq<char>) -> Tone {
    if crate::text::starts_with(l, "+++"@) || crate::text::starts_with(l, "---"@) {
        Tone::DiffHead
    } else if crate::text::starts_with(l, "+"@) {
        Tone::Good
    } else if crate::text::starts_with(l, "-"@) {
        Tone::Bad
    } else if crate::text::starts_with(l, "@@"@) {
        Tone::Tip
    } else {
        Tone::Dim
    }
}

/// The lines of the diff text, each with its tone.
pub open spec fn diff_lines(app: App) -> Seq<Seq<(Seq<char>, Tone)>> {
    let ls = crate::text::lines(app.diff_text@);
    Seq::new(ls.len(), |k: int| one(ls[k], diff_tone(ls[k])))
}

/// The title of the diff pane.
pub open spec fn diff_title(app: App) -> Seq<char> {
    let n = crate::wizard::plan_positions_spec(app.report).len();
    if app.plan_cursor < n {
        let pos = crate::wizard::plan_positions_spec(app.report)[app.plan_cursor as int];
        let p = app.report.unwrap().files@[pos.0 as int].plans@[pos.1 as int];
        " Diff "@ + p.id@ + " · "@ + crate::model::safety_label(p.safety) + " · Press [Enter] or [Esc] to return "@
    } else {
        " Diff (Press [Enter] or [Esc] to return) "@
    }
}

fn rule_names_exec(rs: &Vec<crate::model::RuleId>) -> (r: Vec<char>)
    ensures
        r@ == rule_names(rs@),
{
    let ghost names = Seq::new(rs@.len(), |i: int| crate::model::rule_name(rs@[i]));
    let mut r: Vec<char> = Vec::new();
    let mut k: usize = 0;
    while k < rs.len()
        invariant
            k <= rs@.len(),
            names == Seq::new(rs@.len(), |i: int| crate::model::rule_name(rs@[i])),
            r@ == crate::text::join(names.take(k as int), seq![',']),
        decreases rs.len() - k,
    {
        proof {
            assert(names.take(k + 1).drop_last() =~= names.take(k as int));
        }
        if k > 0 {
            r.push(',');
        }
        r.extend_from_slice(chars_of(rs[k].as_str()).as_slice());
        proof {
            if k == 0 {
                assert(names.take(1) =~= seq![names[0]]);
            }
            assert(r@ =~= crate::text::join(names.take(k + 1), seq![',']));
        }
        k = k + 1;
    }
    proof {
        assert(names.take(rs@.len() as int) =~= names);
    }
    r
}

/// The list of plans of the diff inspector.
pub fn plan_list_screen(app: &App) -> (r: Vec<Vec<Piece>>)
    ensures
        lines_view(r@) == plan_list_lines(*app),
{
    let positions = app.plan_positions();
    let mut out: Vec<Vec<Piece>> = Vec::new();
    if positions.len() == 0 {
        push_lit(&mut out, "No transformation candidates found.", Tone::Warn);
        proof {
            assert(lines_view(out@) =~~= plan_list_lines(*app));
        }
        return out;
    }
    match &app.report {
        Some(rep) => {
            let mut k: usize = 0;
            while k < positions.len()
                invariant
                    k <= positions@.len(),
                    positions@ == crate::wizard::plan_positions_spec(app.report),
                    app.report == Some(*rep),
                    forall|q: int| 0 <= q < positions@.len() ==> (#[trigger] positions@[q]).0 < rep.files@.len()
                        && positions@[q].1 < rep.files@[positions@[q].0 as int].plans@.len(),
                    lines_view(out@) == Seq::new(k as nat, |q: int| plan_line(*app, q)),
                decreases positions.len() - k,
            {
                let (fi, pi) = positions[k];
                assert(positions@[k as int].0 < rep.files@.len());
                let p = &rep.files[fi].plans[pi];
                let mut t = chars_of(" ");
                t.extend_from_slice(chars_of(if p.selected { "[x]" } else { "[ ]" }).as_slice());
                t.extend_from_slice(chars_of(" ").as_slice());
                t.extend_from_slice(pad_right_exec(chars_of(p.safety.label()), 8).as_slice());
                t.extend_from_slice(chars_of(" ").as_slice());
                t.extend_from_slice(chars_of(compact_path(app.root.as_str(), p.file.as_str()).as_str()).as_slice());
                t.extend_from_slice(chars_of("  ").as_slice());
                t.extend_from_slice(rule_names_exec(&p.rules).as_slice());
                let tone = if k == app.plan_cursor {
                    Tone::Cursor
                } else {
                    match p.safety {
                        crate::model::Safety::Safe => Tone::Good,
                        crate::model::Safety::Review => Tone::Warn,
                        crate::model::Safety::Unsafe => Tone::Bad,
                        crate::model::Safety::Unsupported => Tone::BadSoft,
                        crate::model::Safety::NoOp => Tone::Muted,
                    }
                };
                let mut l: Vec<Piece> = Vec::new();
                push_piece(&mut l, t, tone);
                assert(line_view(l) =~~= plan_line(*app, k as int));
                push_line(&mut out, l);
                proof {
                    assert(Seq::new((k + 1) as nat, |q: int| plan_line(*app, q)) =~= Seq::new(k as nat, |q: int| plan_line(*app, q)).push(
                        plan_line(*app, k as int),
                    ));
                }
                k = k + 1;
            }
        },
        None => {},
    }
    proof {
        assert(lines_view(out@) =~~= plan_list_lines(*app));
    }
    out
}

fn diff_tone_exec(s: &[char], a: usize, b: usize) -> (t: Tone)
    requires
        a <= b <= s@.len(),
    ensures
        t == diff_tone(s@.subrange(a as int, b as int)),
{
    let p3 = chars_of("+++");
    let m3 = chars_of("---");
    let p1 = chars_of("+");
    let m1 = chars_of("-");
    let at = chars_of("@@");
    if crate::text::starts_with_at(s, a, b, p3.as_slice()) || crate::text::starts_with_at(s, a, b, m3.as_slice()) {
        Tone::DiffHead
    } else if crate::text::starts_with_at(s, a, b, p1.as_slice()) {
        Tone::Good
    } else if crate::text::starts_with_at(s, a, b, m1.as_slice()) {
        Tone::Bad
    } else if crate::text::starts_with_at(s, a, b, at.as_slice()) {
        Tone::Tip
    } else {
        Tone::Dim
    }
}

/// The lines of the diff text of the inspector, with the pane's title.
pub fn diff_screen(app: &App) -> (r: (Vec<Vec<Piece>>, Vec<char>))
    ensures
        lines_view(r.0@) == diff_lines(*app),
        r.1@ == diff_title(*app),
{
    let s = chars_of(app.diff_text.as_str());
    let rs = crate::text::line_ranges(s.as_slice(), 0, s.len());
    proof {
        assert(s@.subrange(0, s@.len() as int) =~= s@);
    }
    let ghost ls = crate::text::lines(app.diff_text@);
    let mut out: Vec<Vec<Piece>> = Vec::new();
    let mut k: usize = 0;
    while k < rs.len()
        invariant
            k <= rs@.len(),
            s@ == app.diff_text@,
            ls == crate::text::lines(app.diff_text@),
            crate::text::ranges_view(s@, rs@) == ls,
            forall|i: int| 0 <= i < rs@.len() ==> 0 <= #[trigger] rs@[i].0 <= rs@[i].1 <= s@.len(),
            lines_view(out@) == Seq::new(k as nat, |q: int| one(ls[q], diff_tone(ls[q]))),
        decreases rs.len() - k,
    {
        let (x, y) = rs[k];
        assert(ls[k as int] == s@.subrange(x as int, y as int));
        let tone = diff_tone_exec(s.as_slice(), x, y);
        push_one(&mut out, crate::selector::copy_range(s.as_slice(), x, y), tone);
        proof {
            assert(Seq::new((k + 1) as nat, |q: int| one(ls[q], diff_tone(ls[q]))) =~= Seq::new(
                k as nat,
                |q: int| one(ls[q], diff_tone(ls[q])),
            ).push(one(ls[k as int], diff_tone(ls[k as int]))));
        }
        k = k + 1;
    }
    proof {
        assert(lines_view(out@) =~= diff_lines(*app));
    }
    let title = match app.current_plan() {
        Some(p) => {
            let mut t = chars_of(" Diff ");
            t.extend_from_slice(chars_of(p.id.as_str()).as_slice());
            t.extend_from_slice(chars_of(" · ").as_slice());
            t.extend_from_slice(chars_of(p.safety.label()).as_slice());
            t.extend_from_slice(chars_of(" · Press [Enter] or [Esc] to return ").as_slice());
            t
        },
        None => chars_of(" Diff (Press [Enter] or [Esc] to return) "),
    };
    (out, title)
}

} // verus!
