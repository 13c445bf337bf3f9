use crate::analysis::{analyze_workspace, unified_diff};
use crate::model::{
    all_output_modes, all_presets, preset_rules, OutputMode, PlanEntry, Preset, RuleDefinition, RuleId, Safety,
    WorkspaceReport,
};
use crate::output::WriteResult;
use crate::plan::PlanView;
use crate::text::{chars_of, string_of};
use vstd::prelude::*;
use vstd::string::*;

verus! {

/// The screens of the wizard.
#[derive(Debug, Clone, Copy, PartialEq, Eq, Structural)]
pub enum Screen {
    Files,
    Rules,
    Output,
    Done,
    Diff,
}

pub open spec fn screen_step(s: Screen) -> Option<nat> {
    match s {
        Screen::Files => Some(0),
        Screen::Rules => Some(1),
        Screen::Output => Some(2),
        Screen::Done => Some(3),
        Screen::Diff => None,
    }
}

/// The numbered steps, in order.
pub open spec fn steps() -> Seq<Screen> {
    seq![Screen::Files, Screen::Rules, Screen::Output, Screen::Done]
}

impl Screen {
    /// The heading of this screen.
    pub fn label(self) -> (r: &'static str)
        ensures
            r@ == match self {
                Screen::Files => "1: Select Files"@,
                Screen::Rules => "2: Select Rules"@,
                Screen::Output => "3: Output Settings"@,
                Screen::Done => "4: Done"@,
                Screen::Diff => "Diff Inspector"@,
            },
    {
        match self {
            Screen::Files => "1: Select Files",
            Screen::Rules => "2: Select Rules",
            Screen::Output => "3: Output Settings",
            Screen::Done => "4: Done",
            Screen::Diff => "Diff Inspector",
        }
    }

    /// The position of this screen among the numbered steps; the diff inspector has none.
    pub fn step_index(self) -> (r: Option<usize>)
        ensures
            match screen_step(self) {
                Some(k) => r == Some(k as usize),
                None => r is None,
            },
    {
        match self {
            Screen::Files => Some(0),
            Screen::Rules => Some(1),
            Screen::Output => Some(2),
            Screen::Done => Some(3),
            Screen::Diff => None,
        }
    }
}

/// The step after `s`, cycling (the diff inspector counts as the first step).
pub open spec fn next_step_spec(s: Screen) -> Screen {
    match s {
        Screen::Files => Screen::Rules,
        Screen::Rules => Screen::Output,
        Screen::Output => Screen::Done,
        Screen::Done => Screen::Files,
        Screen::Diff => Screen::Rules,
    }
}

/// The step before `s`, cycling (the diff inspector counts as the first step).
pub open spec fn previous_step_spec(s: Screen) -> Screen {
    match s {
        Screen::Files => Screen::Done,
        Screen::Rules => Screen::Files,
        Screen::Output => Screen::Rules,
        Screen::Done => Screen::Output,
        Screen::Diff => Screen::Done,
    }
}

/// A stylesheet offered for modernization.
#[derive(Debug)]
pub struct FileItem {
    pub path: String,
    pub selected: bool,
}

/// A rule of the catalogue and whether it is enabled.
#[derive(Debug)]
pub struct RuleItem {
    pub definition: RuleDefinition,
    pub enabled: bool,
}

/// A key the wizard reacts to.
#[derive(Debug, Clone, Copy, PartialEq, Eq, Structural)]
pub enum Key {
    Char(char),
    Enter,
    Esc,
    Backspace,
    Left,
    Right,
    Up,
    Down,
    Tab,
    BackTab,
    PageUp,
    PageDown,
    Other,
}

/// Work the wizard asks of its runner after a key: reading the selected files and analyzing
/// them (`App::analyze`), discovering the files again (`App::refresh_files`, then an
/// analysis), or applying the plans (an analysis, then writing, then `App::finish_apply`).
#[derive(Debug, Clone, Copy, PartialEq, Eq, Structural)]
pub enum AppAction {
    Nothing,
    Analyze,
    RefreshFiles,
    Apply,
}

/// The state of the interactive wizard.
#[derive(Debug)]
pub struct App {
    pub root: String,
    pub files: Vec<FileItem>,
    pub rules: Vec<RuleItem>,
    pub preset: Preset,
    pub output_mode: OutputMode,
    pub output_cursor: usize,
    pub report: Option<WorkspaceReport>,
    pub screen: Screen,
    pub file_cursor: usize,
    pub rule_cursor: usize,
    pub plan_cursor: usize,
    pub diff_scroll: u16,
    pub diff_text: String,
    pub status: String,
    pub git_dirty: bool,
    pub should_quit: bool,
    pub stdout_after_exit: Vec<String>,
    pub write_results: Vec<WriteResult>,
}

pub open spec fn selected_paths(fs: Seq<FileItem>) -> Seq<Seq<char>>
    decreases fs.len(),
{
    if fs.len() == 0 {
        seq![]
    } else if fs.last().selected {
        selected_paths(fs.drop_last()).push(fs.last().path@)
    } else {
        selected_paths(fs.drop_last())
    }
}

pub open spec fn enabled_ids(rs: Seq<RuleItem>) -> Seq<RuleId>
    decreases rs.len(),
{
    if rs.len() == 0 {
        seq![]
    } else if rs.last().enabled {
        enabled_ids(rs.drop_last()).push(rs.last().definition.id)
    } else {
        enabled_ids(rs.drop_last())
    }
}

/// The rule ids of the catalogue, in order.
pub open spec fn rule_ids(rs: Seq<RuleItem>) -> Seq<RuleId> {
    rs.map_values(|r: RuleItem| r.definition.id)
}

/// Every rule is enabled exactly when `preset` lists it.
pub open spec fn matches_preset(rs: Seq<RuleItem>, preset: Preset) -> bool {
    forall|k: int| 0 <= k < rs.len() ==> (#[trigger] rs[k]).enabled == preset_rules(preset).contains(rs[k].definition.id)
}

pub open spec fn positions_of(rs: Seq<crate::model::FileReport>) -> Seq<(usize, usize)>
    decreases rs.len(),
{
    if rs.len() == 0 {
        seq![]
    } else {
        positions_of(rs.drop_last()) + Seq::new(
            rs.last().plans@.len(),
            |p: int| ((rs.len() - 1) as usize, p as usize),
        )
    }
}

pub open spec fn plan_positions_spec(report: Option<WorkspaceReport>) -> Seq<(usize, usize)> {
    match report {
        Some(r) => positions_of(r.files@),
        None => seq![],
    }
}

/// Whether the report has a plan at file `fi`, position `pi`.
pub open spec fn has_plan(r: Option<WorkspaceReport>, fi: int, pi: int) -> bool {
    &&& r is Some
    &&& 0 <= fi < r.unwrap().files@.len()
    &&& 0 <= pi < r.unwrap().files@[fi].plans@.len()
}

/// The plan of the report at file `fi`, position `pi`.
pub open spec fn report_plan(r: Option<WorkspaceReport>, fi: int, pi: int) -> PlanView {
    r.unwrap().files@[fi].plans@[pi]@
}

/// The plan with its selection flipped when it is `SAFE` or `REVIEW`.
pub open spec fn toggled(p: PlanView) -> PlanView {
    if p.safety == Safety::Safe || p.safety == Safety::Review {
        PlanView { selected: !p.selected, ..p }
    } else {
        p
    }
}

pub open spec fn sat_sub(a: nat, b: nat) -> nat {
    if a >= b {
        (a - b) as nat
    } else {
        0
    }
}

pub open spec fn min_nat(a: nat, b: nat) -> nat {
    if a <= b {
        a
    } else {
        b
    }
}

/// The output mode at a position of the menu.
pub fn mode_at(i: usize) -> (m: OutputMode)
    requires
        i < 7,
    ensures
        m == all_output_modes()[i as int],
{
    if i == 0 {
        OutputMode::DryRun
    } else if i == 1 {
        OutputMode::NewFile
    } else if i == 2 {
        OutputMode::OutDir
    } else if i == 3 {
        OutputMode::OverwriteWithBackup
    } else if i == 4 {
        OutputMode::Overwrite
    } else if i == 5 {
        OutputMode::Patch
    } else {
        OutputMode::Stdout
    }
}

pub open spec fn preset_position(p: Preset) -> int {
    match p {
        Preset::Analysis => 0,
        Preset::Conservative => 1,
        Preset::Modern => 2,
        Preset::Refactor => 3,
        Preset::Aggressive => 4,
        Preset::Custom => 5,
    }
}

fn preset_index(p: Preset) -> (i: usize)
    ensures
        i < 6,
        i == preset_position(p),
        all_presets()[i as int] == p,
{
    match p {
        Preset::Analysis => 0,
        Preset::Conservative => 1,
        Preset::Modern => 2,
        Preset::Refactor => 3,
        Preset::Aggressive => 4,
        Preset::Custom => 5,
    }
}

fn preset_at(i: usize) -> (p: Preset)
    requires
        i < 6,
    ensures
        p == all_presets()[i as int],
{
    if i == 0 {
        Preset::Analysis
    } else if i == 1 {
        Preset::Conservative
    } else if i == 2 {
        Preset::Modern
    } else if i == 3 {
        Preset::Refactor
    } else if i == 4 {
        Preset::Aggressive
    } else {
        Preset::Custom
    }
}

fn set_status(app: &mut App, text: &str)
    ensures
        final(app).diff_text == old(app).diff_text,
        final(app).status@ == text@,
        final(app).screen == old(app).screen,
        final(app).should_quit == old(app).should_quit,
        final(app).files@ == old(app).files@,
        final(app).rules@ == old(app).rules@,
        final(app).preset == old(app).preset,
        final(app).file_cursor == old(app).file_cursor,
        final(app).rule_cursor == old(app).rule_cursor,
        final(app).plan_cursor == old(app).plan_cursor,
        final(app).output_mode == old(app).output_mode,
        final(app).output_cursor == old(app).output_cursor,
        final(app).diff_scroll == old(app).diff_scroll,
        keeps_session(*old(app), *final(app)),
        final(app).report == old(app).report,
        final(app).write_results@ == old(app).write_results@,
{
    app.status = String::from_str(text);
}

/// The part of a path after its last `/`.
pub open spec fn shown_name_spec(p: Seq<char>) -> Seq<char> {
    match crate::text::rfind_char(p, '/') {
        Some(i) => p.skip(i + 1),
        None => p,
    }
}

/// The file name shown for a path (its last component).
fn shown_name(path: &str) -> (r: Vec<char>)
    ensures
        r@ == shown_name_spec(path@),
{
    let p = chars_of(path);
    let mut start: usize = 0;
    let mut k: usize = 0;
    while k < p.len()
        invariant
            k <= p@.len(),
            start <= k,
            start == (match crate::text::rfind_char(p@.take(k as int), '/') {
                Some(i) => i + 1,
                None => 0,
            }),
        decreases p.len() - k,
    {
        proof {
            assert(p@.take(k + 1).drop_last() =~= p@.take(k as int));
        }
        if p[k] == '/' {
            start = k + 1;
        }
        k = k + 1;
    }
    proof {
        assert(p@.take(p@.len() as int) =~= p@);
    }
    crate::selector::copy_range(p.as_slice(), start, p.len())
}

impl App {
    /// A wizard over the discovered files (all selected) with the `Modern` preset, writing new
    /// `*.modern.css` files, on the file screen.
    pub fn new(root: String, discovered: Vec<String>, git_dirty: bool) -> (app: App)
        ensures
            app.root@ == root@,
            app.files@.len() == discovered@.len(),
            forall|k: int| 0 <= k < discovered@.len() ==> (#[trigger] app.files@[k]).path@ == discovered@[k]@ && app.files@[k].selected,
            rule_ids(app.rules@) == crate::model::all_rules(),
            forall|k: int| 0 <= k < app.rules@.len() ==> crate::model::definition_of(#[trigger] app.rules@[k].definition),
            matches_preset(app.rules@, Preset::Modern),
            app.preset == Preset::Modern,
            app.output_mode == OutputMode::NewFile,
            app.output_cursor == 1,
            app.report is None,
            app.screen == Screen::Files,
            app.file_cursor == 0 && app.rule_cursor == 0 && app.plan_cursor == 0 && app.diff_scroll == 0,
            app.git_dirty == git_dirty,
            !app.should_quit,
            app.status@ == "Select CSS files to modernize, then press [Enter] to continue."@,
            app.diff_text@ == Seq::<char>::empty(),
            app.stdout_after_exit@.len() == 0 && app.write_results@.len() == 0,
    {
        let mut files: Vec<FileItem> = Vec::new();
        let mut k: usize = 0;
        while k < discovered.len()
            invariant
                k <= discovered@.len(),
                files@.len() == k,
                forall|j: int| 0 <= j < k ==> (#[trigger] files@[j]).path@ == discovered@[j]@ && files@[j].selected,
            decreases discovered.len() - k,
        {
            files.push(FileItem { path: discovered[k].clone(), selected: true });
            k = k + 1;
        }
        let enabled = Preset::Modern.enabled_rules();
        let defs = crate::model::rule_definitions();
        let mut rules: Vec<RuleItem> = Vec::new();
        let mut k: usize = 0;
        while k < defs.len()
            invariant
                k <= defs@.len(),
                defs@.len() == crate::model::all_rules().len(),
                forall|i: int| 0 <= i < defs@.len() ==> (#[trigger] defs@[i]).id == crate::model::all_rules()[i],
                enabled@ == preset_rules(Preset::Modern),
                rules@.len() == k,
                forall|j: int| 0 <= j < k ==> (#[trigger] rules@[j]).definition.id == crate::model::all_rules()[j]
                    && rules@[j].enabled == preset_rules(Preset::Modern).contains(rules@[j].definition.id)
                    && crate::model::definition_of(rules@[j].definition),
            decreases defs.len() - k,
        {
            let id = defs[k].id;
            let d = crate::model::rule_definition(id);
            let on = crate::layout::rule_enabled(enabled.as_slice(), id);
            rules.push(RuleItem { definition: d, enabled: on });
            k = k + 1;
        }
        proof {
            assert(rule_ids(rules@) =~= crate::model::all_rules());
        }
        App {
            root,
            files,
            rules,
            preset: Preset::Modern,
            output_mode: OutputMode::NewFile,
            output_cursor: 1,
            report: None,
            screen: Screen::Files,
            file_cursor: 0,
            rule_cursor: 0,
            plan_cursor: 0,
            diff_scroll: 0,
            diff_text: String::new(),
            status: String::from_str("Select CSS files to modernize, then press [Enter] to continue."),
            git_dirty,
            should_quit: false,
            stdout_after_exit: Vec::new(),
            write_results: Vec::new(),
        }
    }

    /// The ids of the enabled rules, in catalogue order.
    pub fn enabled_rules(&self) -> (r: Vec<RuleId>)
        ensures
            r@ == enabled_ids(self.rules@),
    {
        let mut r: Vec<RuleId> = Vec::new();
        let mut k: usize = 0;
        while k < self.rules.len()
            invariant
                k <= self.rules@.len(),
                r@ == enabled_ids(self.rules@.take(k as int)),
            decreases self.rules.len() - k,
        {
            proof {
                let t = self.rules@.take(k + 1);
                assert(t.drop_last() =~= self.rules@.take(k as int));
            }
            if self.rules[k].enabled {
                r.push(self.rules[k].definition.id);
            }
            k = k + 1;
        }
        proof {
            assert(self.rules@.take(self.rules@.len() as int) =~= self.rules@);
        }
        r
    }

    /// The paths of the selected files, in order.
    pub fn selected_files(&self) -> (r: Vec<String>)
        ensures
            crate::text::texts_of_strings(r@) == selected_paths(self.files@),
    {
        let mut r: Vec<String> = Vec::new();
        let mut k: usize = 0;
        while k < self.files.len()
            invariant
                k <= self.files@.len(),
                crate::text::texts_of_strings(r@) == selected_paths(self.files@.take(k as int)),
            decreases self.files.len() - k,
        {
            proof {
                let t = self.files@.take(k + 1);
                assert(t.drop_last() =~= self.files@.take(k as int));
            }
            if self.files[k].selected {
                let ghost before = r@;
                let p = self.files[k].path.clone();
                r.push(p);
                proof {
                    assert(crate::text::texts_of_strings(r@) =~= crate::text::texts_of_strings(before).push(p@));
                }
            }
            k = k + 1;
        }
        proof {
            assert(self.files@.take(self.files@.len() as int) =~= self.files@);
        }
        r
    }
}

/// `b` differs from `a` at most in its files, rules, preset and status.
pub open spec fn same_but_lists(a: App, b: App) -> bool {
    &&& a.root == b.root
    &&& a.output_mode == b.output_mode
    &&& a.output_cursor == b.output_cursor
    &&& a.report == b.report
    &&& a.screen == b.screen
    &&& a.file_cursor == b.file_cursor
    &&& a.rule_cursor == b.rule_cursor
    &&& a.plan_cursor == b.plan_cursor
    &&& a.diff_scroll == b.diff_scroll
    &&& a.git_dirty == b.git_dirty
    &&& a.should_quit == b.should_quit
    &&& a.write_results == b.write_results
    &&& a.diff_text == b.diff_text
}

pub open spec fn app_wf(app: App) -> bool {
    app.output_cursor < 7
}

/// `b` has the cursors and the diff scroll of `a`.
pub open spec fn keeps_positions(a: App, b: App) -> bool {
    &&& b.file_cursor == a.file_cursor
    &&& b.rule_cursor == a.rule_cursor
    &&& b.output_cursor == a.output_cursor
    &&& b.plan_cursor == a.plan_cursor
    &&& b.diff_scroll == a.diff_scroll
}

/// `b` has the lists, preset, cursors, output mode and scroll of `a`.
pub open spec fn keeps_but_report(a: App, b: App) -> bool {
    &&& b.files@ == a.files@
    &&& b.rules@ == a.rules@
    &&& b.preset == a.preset
    &&& b.output_mode == a.output_mode
    &&& keeps_positions(a, b)
}

/// `b` has the root, git state, write results and stdout texts of `a`.
pub open spec fn keeps_session(a: App, b: App) -> bool {
    &&& b.root@ == a.root@
    &&& b.git_dirty == a.git_dirty
    &&& b.write_results@ == a.write_results@
    &&& b.stdout_after_exit@ == a.stdout_after_exit@
}

/// `b` has the lists, preset, cursors, output mode, scroll and report of `a`.
pub open spec fn keeps_state(a: App, b: App) -> bool {
    &&& keeps_but_report(a, b)
    &&& b.report == a.report
}

/// Whether each file is selected, in list order.
pub open spec fn sel_flags(fs: Seq<FileItem>) -> Seq<bool> {
    fs.map_values(|f: FileItem| f.selected)
}

/// The paths of the files, in list order.
pub open spec fn file_paths(fs: Seq<FileItem>) -> Seq<Seq<char>> {
    fs.map_values(|f: FileItem| f.path@)
}

/// Whether each rule is enabled, in catalogue order.
pub open spec fn en_flags(rs: Seq<RuleItem>) -> Seq<bool> {
    rs.map_values(|r: RuleItem| r.enabled)
}

pub open spec fn all_selected(fs: Seq<FileItem>) -> bool {
    forall|j: int| 0 <= j < fs.len() ==> #[trigger] fs[j].selected
}

pub open spec fn all_enabled(rs: Seq<RuleItem>) -> bool {
    forall|j: int| 0 <= j < rs.len() ==> #[trigger] rs[j].enabled
}

/// The preset that follows `p` when cycling: Conservative, Modern, Refactor, Aggressive,
/// Custom and back to Conservative; from Analysis the cycle is entered at Conservative.
pub open spec fn next_preset(p: Preset) -> Preset {
    match p {
        Preset::Analysis => Preset::Conservative,
        Preset::Conservative => Preset::Modern,
        Preset::Modern => Preset::Refactor,
        Preset::Refactor => Preset::Aggressive,
        Preset::Aggressive => Preset::Custom,
        Preset::Custom => Preset::Conservative,
    }
}

pub open spec fn is_up(key: Key) -> bool {
    key == Key::Up || key == Key::Char('k')
}

pub open spec fn is_down(key: Key) -> bool {
    key == Key::Down || key == Key::Char('j')
}

/// A list cursor after `key`: one line or ten lines up or down, kept on the list.
pub open spec fn list_cursor_after(c: nat, len: nat, key: Key) -> nat {
    if is_up(key) {
        sat_sub(c, 1)
    } else if is_down(key) {
        min_nat(c + 1, sat_sub(len, 1))
    } else if key == Key::PageUp {
        sat_sub(c, 10)
    } else if key == Key::PageDown {
        min_nat(c + 10, sat_sub(len, 1))
    } else {
        c
    }
}

pub open spec fn file_cursor_after(app: App, key: Key) -> nat {
    if app.screen == Screen::Files {
        list_cursor_after(app.file_cursor as nat, app.files@.len(), key)
    } else {
        app.file_cursor as nat
    }
}

pub open spec fn rule_cursor_after(app: App, key: Key) -> nat {
    if app.screen == Screen::Rules {
        list_cursor_after(app.rule_cursor as nat, app.rules@.len(), key)
    } else {
        app.rule_cursor as nat
    }
}

pub open spec fn output_cursor_after(app: App, key: Key) -> nat {
    let c = app.output_cursor as nat;
    if app.screen != Screen::Output {
        c
    } else if is_up(key) {
        sat_sub(c, 1)
    } else if is_down(key) {
        min_nat(c + 1, 6)
    } else {
        c
    }
}

pub open spec fn output_mode_after(app: App, key: Key) -> OutputMode {
    if app.screen == Screen::Output && (is_up(key) || is_down(key) || key == Key::Char(' ')) {
        all_output_modes()[output_cursor_after(app, key) as int]
    } else {
        app.output_mode
    }
}

pub open spec fn plan_cursor_after(app: App, key: Key) -> nat {
    let c = app.plan_cursor as nat;
    if app.screen != Screen::Diff {
        c
    } else if is_up(key) {
        sat_sub(c, 1)
    } else if is_down(key) {
        min_nat(c + 1, sat_sub(plan_positions_spec(app.report).len(), 1))
    } else {
        c
    }
}

pub open spec fn diff_scroll_after(app: App, key: Key) -> nat {
    let d = app.diff_scroll as nat;
    if app.screen != Screen::Diff {
        d
    } else if is_up(key) || is_down(key) {
        0
    } else if key == Key::PageUp {
        sat_sub(d, 10)
    } else if key == Key::PageDown {
        min_nat(d + 10, u16::MAX as nat)
    } else {
        d
    }
}

/// `b` is `a` after the cursor movement `key`: the cursor of the current screen moves, the
/// output mode follows the output cursor, and the diff scroll restarts when the plan changes.
pub open spec fn moved_as(a: App, b: App, key: Key) -> bool {
    &&& b.files@ == a.files@
    &&& b.rules@ == a.rules@
    &&& b.preset == a.preset
    &&& b.report == a.report
    &&& b.file_cursor == file_cursor_after(a, key)
    &&& b.rule_cursor == rule_cursor_after(a, key)
    &&& b.output_cursor == output_cursor_after(a, key)
    &&& b.output_mode == output_mode_after(a, key)
    &&& b.plan_cursor == plan_cursor_after(a, key)
    &&& b.diff_scroll == diff_scroll_after(a, key)
}

/// The selection flags of the files after `key`: Space flips the file under the cursor, `a`
/// selects all files unless all are selected, which deselects them all.
pub open spec fn sel_flags_after(app: App, key: Key) -> Seq<bool> {
    let f = sel_flags(app.files@);
    if app.screen != Screen::Files {
        f
    } else if key == Key::Char(' ') && app.file_cursor < f.len() {
        f.update(app.file_cursor as int, !f[app.file_cursor as int])
    } else if key == Key::Char('a') {
        Seq::new(f.len(), |k: int| !all_selected(app.files@))
    } else {
        f
    }
}

/// The enabled flags of the rules after `key`: `p` moves to the next preset and, unless that
/// is `Custom`, enables exactly its rules; on the rule screen Space flips the rule under the
/// cursor and `a` enables all rules unless all are enabled, which disables them all.
pub open spec fn en_flags_after(app: App, key: Key) -> Seq<bool> {
    let f = en_flags(app.rules@);
    if key == Key::Char('p') {
        let next = next_preset(app.preset);
        if next == Preset::Custom {
            f
        } else {
            Seq::new(f.len(), |k: int| preset_rules(next).contains(app.rules@[k].definition.id))
        }
    } else if app.screen != Screen::Rules {
        f
    } else if key == Key::Char(' ') && app.rule_cursor < f.len() {
        f.update(app.rule_cursor as int, !f[app.rule_cursor as int])
    } else if key == Key::Char('a') {
        Seq::new(f.len(), |k: int| !all_enabled(app.rules@))
    } else {
        f
    }
}

/// The preset after `key`: the next one for `p`, `Custom` once a rule is changed by hand.
pub open spec fn preset_after(app: App, key: Key) -> Preset {
    if key == Key::Char('p') {
        next_preset(app.preset)
    } else if app.screen == Screen::Rules && (key == Key::Char('a') || (key == Key::Char(' ')
        && app.rule_cursor < app.rules@.len())) {
        Preset::Custom
    } else {
        app.preset
    }
}

/// The diff shown for plan `p`: from its original text to its proposed one, under the names
/// `<file>:before` and `<file>:after`.
pub open spec fn plan_diff_text(p: PlanView) -> Seq<char> {
    crate::analysis::unified_diff_text(p.original, p.proposed, p.file + ":before"@, p.file + ":after"@)
}

/// The diff of the plan at position `cursor` of the report, or a note that there is none.
pub open spec fn diff_for(report: Option<WorkspaceReport>, cursor: nat) -> Seq<char> {
    if cursor < plan_positions_spec(report).len() {
        let pos = plan_positions_spec(report)[cursor as int];
        plan_diff_text(report_plan(report, pos.0 as int, pos.1 as int))
    } else {
        "No transformation plan selected."@
    }
}

/// The diff of the plan under the plan cursor, or a note that there is none.
pub open spec fn current_diff(app: App) -> Seq<char> {
    diff_for(app.report, app.plan_cursor as nat)
}

impl App {
    /// The (file, plan) positions of every plan of the report, in order.
    pub fn plan_positions(&self) -> (r: Vec<(usize, usize)>)
        ensures
            r@ == plan_positions_spec(self.report),
            self.report matches Some(rep) ==> forall|k: int| 0 <= k < r@.len() ==> (#[trigger] r@[k]).0 < rep.files@.len()
                && r@[k].1 < rep.files@[r@[k].0 as int].plans@.len(),
    {
        let mut r: Vec<(usize, usize)> = Vec::new();
        match &self.report {
            Some(rep) => {
                let mut fi: usize = 0;
                while fi < rep.files.len()
                    invariant
                        fi <= rep.files@.len(),
                        r@ == positions_of(rep.files@.take(fi as int)),
                        forall|k: int| 0 <= k < r@.len() ==> (#[trigger] r@[k]).0 < rep.files@.len()
                            && r@[k].1 < rep.files@[r@[k].0 as int].plans@.len(),
                    decreases rep.files.len() - fi,
                {
                    let ghost before = r@;
                    let n = rep.files[fi].plans.len();
                    let mut pi: usize = 0;
                    while pi < n
                        invariant
                            pi <= n,
                            fi < rep.files@.len(),
                            n == rep.files@[fi as int].plans@.len(),
                            r@ == before + Seq::new(pi as nat, |p: int| (fi, p as usize)),
                            forall|k: int| 0 <= k < r@.len() ==> (#[trigger] r@[k]).0 < rep.files@.len()
                                && r@[k].1 < rep.files@[r@[k].0 as int].plans@.len(),
                        decreases n - pi,
                    {
                        r.push((fi, pi));
                        proof {
                            assert(r@ =~= before + Seq::new((pi + 1) as nat, |p: int| (fi, p as usize)));
                        }
                        pi = pi + 1;
                    }
                    proof {
                        let t = rep.files@.take(fi + 1);
                        assert(t.drop_last() =~= rep.files@.take(fi as int));
                        assert(t.last() == rep.files@[fi as int]);
                        assert(r@ =~= positions_of(t));
                    }
                    fi = fi + 1;
                }
                proof {
                    assert(rep.files@.take(rep.files@.len() as int) =~= rep.files@);
                }
            },
            None => {},
        }
        r
    }

    /// The plan under the plan cursor, if any.
    pub fn current_plan(&self) -> (r: Option<&PlanEntry>)
        ensures
            (r is Some) == (self.plan_cursor < plan_positions_spec(self.report).len()),
            r matches Some(p) ==> self.report matches Some(rep) && {
                let pos = plan_positions_spec(self.report)[self.plan_cursor as int];
                *p == rep.files@[pos.0 as int].plans@[pos.1 as int]
            },
    {
        let positions = self.plan_positions();
        if self.plan_cursor >= positions.len() {
            return None;
        }
        let (fi, pi) = positions[self.plan_cursor];
        match &self.report {
            Some(rep) => Some(&rep.files[fi].plans[pi]),
            None => None,
        }
    }

    /// Shows the diff of the current plan, or says that no plan is selected.
    pub fn refresh_diff(&mut self)
        ensures
            final(self).screen == old(self).screen,
            final(self).should_quit == old(self).should_quit,
            final(self).report == old(self).report,
            final(self).plan_cursor == old(self).plan_cursor,
            final(self).output_cursor == old(self).output_cursor,
            final(self).diff_scroll == old(self).diff_scroll,
            final(self).files@ == old(self).files@,
            final(self).rules@ == old(self).rules@,
            final(self).diff_text@ == current_diff(*old(self)),
            keeps_state(*old(self), *final(self)),
            keeps_session(*old(self), *final(self)),
            final(self).status == old(self).status,
    {
        let text = match self.current_plan() {
            Some(plan) => {
                let mut before = chars_of(plan.file.as_str());
                before.extend_from_slice(chars_of(":before").as_slice());
                let mut after = chars_of(plan.file.as_str());
                after.extend_from_slice(chars_of(":after").as_slice());
                let bs = string_of(before.as_slice());
                let as_ = string_of(after.as_slice());
                assert(bs@ == plan.file@ + ":before"@);
                assert(as_@ == plan.file@ + ":after"@);
                let d = unified_diff(plan.original.as_str(), plan.proposed.as_str(), bs.as_str(), as_.as_str());
                assert(d@ == plan_diff_text(plan@));
                d
            },
            None => String::from_str("No transformation plan selected."),
        };
        self.diff_text = text;
    }

    /// Flips whether the current plan is applied, when it is `SAFE` or `REVIEW`, and shows its
    /// diff again.
    pub fn toggle_current_plan(&mut self)
        ensures
            final(self).diff_text@ == current_diff(*old(self)),
            final(self).screen == old(self).screen,
            final(self).should_quit == old(self).should_quit,
            final(self).plan_cursor == old(self).plan_cursor,
            final(self).output_cursor == old(self).output_cursor,
            plan_positions_spec(final(self).report) == plan_positions_spec(old(self).report),
            keeps_but_report(*old(self), *final(self)),
            keeps_session(*old(self), *final(self)),
            final(self).status == old(self).status,
            (final(self).report is Some) == (old(self).report is Some),
            forall|fi: int, pi: int| #[trigger] has_plan(final(self).report, fi, pi) == has_plan(old(self).report, fi, pi),
            forall|fi: int, pi: int| has_plan(old(self).report, fi, pi) ==> #[trigger] report_plan(final(self).report, fi, pi)
                == if old(self).plan_cursor < plan_positions_spec(old(self).report).len()
                    && plan_positions_spec(old(self).report)[old(self).plan_cursor as int] == (fi as usize, pi as usize) {
                    toggled(report_plan(old(self).report, fi, pi))
                } else {
                    report_plan(old(self).report, fi, pi)
                },
    {
        let ghost start = *self;
        let positions = self.plan_positions();
        if self.plan_cursor < positions.len() {
            let (fi, pi) = positions[self.plan_cursor];
            let ghost old_report = self.report;
            match &mut self.report {
                Some(rep) => {
                    let ghost old_files = rep.files@;
                    let mut f = rep.files.remove(fi);
                    let mut p = f.plans.remove(pi);
                    if p.safety == Safety::Safe || p.safety == Safety::Review {
                        p.selected = !p.selected;
                    }
                    f.plans.insert(pi, p);
                    rep.files.insert(fi, f);
                    proof {
                        assert(rep.files@.len() == old_files.len());
                        assert forall|k: int| 0 <= k < old_files.len() implies (#[trigger] rep.files@[k]).plans@.len()
                            == old_files[k].plans@.len() by {
                            if k != fi {
                                if k < fi {
                                    assert(rep.files@[k] == old_files[k]);
                                } else {
                                    assert(rep.files@[k] == old_files[k]);
                                }
                            }
                        }
                        lemma_positions_same(old_files, rep.files@);
                        let tp = old_files[fi as int].plans@[pi as int]@;
                        assert(p@ == toggled(tp));
                        assert forall|a: int, b: int| 0 <= a < old_files.len() && 0 <= b < old_files[a].plans@.len()
                            implies (#[trigger] rep.files@[a].plans@[b])@ == if a == fi && b == pi {
                                toggled(old_files[a].plans@[b]@)
                            } else {
                                old_files[a].plans@[b]@
                            } by {
                            if a == fi {
                                if b < pi {
                                    assert(f.plans@[b] == old_files[a].plans@.remove(pi as int)[b]);
                                } else if b > pi {
                                    assert(f.plans@[b] == old_files[a].plans@.remove(pi as int)[b - 1]);
                                }
                            } else if a < fi {
                                assert(rep.files@[a] == old_files.remove(fi as int)[a]);
                            } else {
                                assert(rep.files@[a] == old_files.remove(fi as int)[a - 1]);
                            }
                        }
                    }
                },
                None => {},
            }
            proof {
                assert forall|a: int, b: int| has_plan(start.report, a, b) implies #[trigger] report_plan(self.report, a, b)
                    == if start.plan_cursor < plan_positions_spec(start.report).len()
                        && plan_positions_spec(start.report)[start.plan_cursor as int] == (a as usize, b as usize) {
                        toggled(report_plan(start.report, a, b))
                    } else {
                        report_plan(start.report, a, b)
                    } by {
                    assert(positions@[self.plan_cursor as int] == (fi, pi));
                    if a == fi && b == pi {
                    } else {
                        let rf = start.report.unwrap().files;
                        assert(rf.len() == rf@.len());
                        assert(rf@[a].plans.len() == rf@[a].plans@.len());
                        assert((a as usize, b as usize) != (fi, pi));
                    }
                }
            }
        }
        self.refresh_diff();
    }

    /// Takes in the files found again: a file stays selected if it was (all are when none
    /// was), and the cursor stays on the list.
    pub fn refresh_files(&mut self, discovered: Vec<String>, git_dirty: bool)
        ensures
            final(self).files@.len() == discovered@.len(),
            forall|k: int| 0 <= k < discovered@.len() ==> (#[trigger] final(self).files@[k]).path@ == discovered@[k]@
                && final(self).files@[k].selected == (selected_paths(old(self).files@).len() == 0 || selected_paths(
                old(self).files@,
            ).contains(discovered@[k]@)),
            final(self).file_cursor == min_nat(old(self).file_cursor as nat, sat_sub(discovered@.len(), 1)),
            final(self).git_dirty == git_dirty,
            final(self).screen == old(self).screen,
            final(self).should_quit == old(self).should_quit,
            final(self).output_cursor == old(self).output_cursor,
            final(self).rules@ == old(self).rules@,
            final(self).preset == old(self).preset,
            final(self).report == old(self).report,
            final(self).rule_cursor == old(self).rule_cursor,
            final(self).plan_cursor == old(self).plan_cursor,
            final(self).output_mode == old(self).output_mode,
            final(self).diff_scroll == old(self).diff_scroll,
            final(self).root@ == old(self).root@,
    {
        let old_sel = self.selected_files();
        let ghost ov = crate::text::texts_of_strings(old_sel@);
        let mut files: Vec<FileItem> = Vec::new();
        let mut k: usize = 0;
        while k < discovered.len()
            invariant
                k <= discovered@.len(),
                ov == crate::text::texts_of_strings(old_sel@),
                files@.len() == k,
                forall|j: int| 0 <= j < k ==> (#[trigger] files@[j]).path@ == discovered@[j]@ && files@[j].selected
                    == (ov.len() == 0 || ov.contains(discovered@[j]@)),
            decreases discovered.len() - k,
        {
            let mut found = false;
            let mut j: usize = 0;
            let dv = chars_of(discovered[k].as_str());
            while j < old_sel.len()
                invariant
                    j <= old_sel@.len(),
                    ov == crate::text::texts_of_strings(old_sel@),
                    dv@ == discovered@[k as int]@,
                    found == (exists|q: int| 0 <= q < j && ov[q] == discovered@[k as int]@),
                decreases old_sel.len() - j,
            {
                let ov_j = chars_of(old_sel[j].as_str());
                assert(ov[j as int] == old_sel@[j as int]@);
                if crate::text::chars_eq(ov_j.as_slice(), dv.as_slice()) {
                    found = true;
                }
                j = j + 1;
            }
            files.push(FileItem { path: discovered[k].clone(), selected: old_sel.len() == 0 || found });
            k = k + 1;
        }
        let n = files.len();
        let last = if n > 0 { n - 1 } else { 0 };
        self.files = files;
        if self.file_cursor > last {
            self.file_cursor = last;
        }
        self.git_dirty = git_dirty;
    }

    /// Analyzes the selected files with the enabled rules, given their contents
    /// (`sources[i]` for the `i`-th selected file); with no file or no rule there is no report.
    pub fn analyze(&mut self, sources: &[String])
        requires
            sources@.len() == selected_paths(old(self).files@).len(),
        ensures
            final(self).screen == old(self).screen,
            final(self).should_quit == old(self).should_quit,
            final(self).output_cursor == old(self).output_cursor,
            final(self).files@ == old(self).files@,
            final(self).rules@ == old(self).rules@,
            (selected_paths(old(self).files@).len() == 0 || enabled_ids(old(self).rules@).len() == 0) ==> (final(self).report is None),
            (selected_paths(old(self).files@).len() > 0 && enabled_ids(old(self).rules@).len() > 0) ==> {
                &&& final(self).report matches Some(r) && crate::analysis::workspace_ok(
                    r,
                    old(self).root@,
                    selected_paths(old(self).files@),
                    crate::text::texts_of_strings(sources@),
                    enabled_ids(old(self).rules@),
                )
                &&& final(self).plan_cursor == 0
                &&& final(self).diff_scroll == 0
            },
    {
        let files = self.selected_files();
        let rules = self.enabled_rules();
        if files.len() == 0 || rules.len() == 0 {
            self.report = None;
            return;
        }
        let rep = analyze_workspace(self.root.as_str(), files.as_slice(), sources, rules.as_slice());
        self.report = Some(rep);
        self.plan_cursor = 0;
        self.diff_scroll = 0;
        self.refresh_diff();
    }
}

proof fn lemma_positions_same(a: Seq<crate::model::FileReport>, b: Seq<crate::model::FileReport>)
    requires
        a.len() == b.len(),
        forall|k: int| 0 <= k < a.len() ==> (#[trigger] b[k]).plans@.len() == a[k].plans@.len(),
    ensures
        positions_of(a) == positions_of(b),
    decreases a.len(),
{
    if a.len() > 0 {
        assert forall|k: int| 0 <= k < a.len() - 1 implies (#[trigger] b.drop_last()[k]).plans@.len()
            == a.drop_last()[k].plans@.len() by {
            assert(b.drop_last()[k] == b[k]);
            assert(a.drop_last()[k] == a[k]);
        }
        lemma_positions_same(a.drop_last(), b.drop_last());
        assert(b.last().plans@.len() == a.last().plans@.len());
    }
}

/// The status going back from screen `sc` sets, if it sets one.
pub open spec fn back_status(sc: Screen) -> Option<Seq<char>> {
    match sc {
        Screen::Rules => Some("Select CSS files to modernize, then press [Enter]."@),
        Screen::Output => Some("Select rules or preset, then press [Enter]."@),
        Screen::Done => Some("Choose output setting and press [Enter] to apply."@),
        _ => None,
    }
}

/// The status Enter sets, if it sets one.
pub open spec fn enter_status(app: App) -> Option<Seq<char>> {
    match app.screen {
        Screen::Files => if selected_paths(app.files@).len() == 0 {
            Some("Please select at least one file before proceeding (Space to select)."@)
        } else {
            Some("Select rules or preset, then press [Enter] to choose output mode."@)
        },
        Screen::Rules => if enabled_ids(app.rules@).len() == 0 {
            Some("Please enable at least one rule before proceeding (Space to toggle or p for preset)."@)
        } else {
            Some("Select output setting and press [Enter] to apply transformations."@)
        },
        _ => None,
    }
}

/// The status Space sets, if it sets one: what was toggled or chosen.
pub open spec fn space_status(app: App) -> Option<Seq<char>> {
    match app.screen {
        Screen::Files => if app.file_cursor < app.files@.len() {
            let f = app.files@[app.file_cursor as int];
            Some(
                (if f.selected {
                    "Deselected "@
                } else {
                    "Selected "@
                }) + shown_name_spec(f.path@),
            )
        } else {
            None
        },
        Screen::Rules => if app.rule_cursor < app.rules@.len() {
            let r = app.rules@[app.rule_cursor as int];
            Some(
                (if r.enabled {
                    "Disabled rule: "@
                } else {
                    "Enabled rule: "@
                }) + r.definition.title@,
            )
        } else {
            None
        },
        Screen::Output => Some(
            "Selected output mode: "@ + crate::model::output_mode_label(all_output_modes()[app.output_cursor as int]),
        ),
        _ => None,
    }
}

/// The status `a` sets, if it sets one.
pub open spec fn a_status(app: App) -> Option<Seq<char>> {
    match app.screen {
        Screen::Files => Some(
            if all_selected(app.files@) {
                "Deselected all files."@
            } else {
                "Selected all files."@
            },
        ),
        Screen::Rules => Some(
            if all_enabled(app.rules@) {
                "Disabled all rules."@
            } else {
                "Enabled all rules."@
            },
        ),
        Screen::Output => Some("Refreshed workspace analysis."@),
        _ => None,
    }
}

/// The status a change to preset `p` sets.
pub open spec fn preset_status(p: Preset) -> Seq<char> {
    "Preset set to "@ + crate::model::preset_label(p) + "."@
}

/// The status `key` sets, if it sets one.
pub open spec fn status_change(app: App, key: Key) -> Option<Seq<char>> {
    match key {
        Key::Char(c) => if c == 'b' {
            back_status(app.screen)
        } else if c == 'l' {
            if app.screen == Screen::Done { None } else { enter_status(app) }
        } else if c == ' ' {
            space_status(app)
        } else if c == 'a' {
            a_status(app)
        } else if c == 'p' {
            Some(preset_status(next_preset(app.preset)))
        } else if c == 'r' {
            Some(
                if app.screen == Screen::Done {
                    "Started new refactoring session."@
                } else {
                    "Refreshed CSS files from disk."@
                },
            )
        } else {
            None
        },
        Key::Enter => enter_status(app),
        Key::Right => if app.screen == Screen::Done { None } else { enter_status(app) },
        Key::Esc | Key::Backspace | Key::Left => back_status(app.screen),
        _ => None,
    }
}

/// The diff text after `key`: the diff of the current plan is shown again when the diff view
/// opens, when a plan in it is toggled, and when the cursor moves in it.
pub open spec fn diff_after(app: App, key: Key) -> Seq<char> {
    if ((key == Key::Char('d') || key == Key::Char('v')) && app.screen == Screen::Output) || (key == Key::Char(' ')
        && app.screen == Screen::Diff) {
        current_diff(app)
    } else if app.screen == Screen::Diff && (key == Key::Up || key == Key::Down || key == Key::Char('k') || key
        == Key::Char('j')) {
        diff_for(app.report, plan_cursor_after(app, key))
    } else {
        app.diff_text@
    }
}

/// The status line after `key`.
pub open spec fn status_after(app: App, key: Key) -> Seq<char> {
    match status_change(app, key) {
        Some(t) => t,
        None => app.status@,
    }
}

/// The screen after `key`.
pub open spec fn screen_after(app: App, key: Key) -> Screen {
    let sc = app.screen;
    match key {
        Key::Char(c) => if c == 'q' || c == 'Q' {
            if sc == Screen::Diff { Screen::Output } else { sc }
        } else if c == 'b' {
            back_screen(sc)
        } else if c == '1' {
            Screen::Files
        } else if c == '2' {
            Screen::Rules
        } else if c == '3' {
            Screen::Output
        } else if c == '4' {
            if app.write_results@.len() > 0 { Screen::Done } else { sc }
        } else if c == 'l' {
            if sc == Screen::Done { sc } else { enter_screen(app) }
        } else if c == 'd' || c == 'v' {
            if sc == Screen::Output { Screen::Diff } else if sc == Screen::Diff { Screen::Output } else { sc }
        } else if c == 'r' {
            if sc == Screen::Done { Screen::Files } else { sc }
        } else {
            sc
        },
        Key::Enter => enter_screen(app),
        Key::Right => if sc == Screen::Done { sc } else { enter_screen(app) },
        Key::Esc | Key::Backspace | Key::Left => back_screen(sc),
        Key::Tab => next_step_spec(sc),
        Key::BackTab => previous_step_spec(sc),
        _ => sc,
    }
}

pub open spec fn enter_screen(app: App) -> Screen {
    match app.screen {
        Screen::Files => if selected_paths(app.files@).len() == 0 { Screen::Files } else { Screen::Rules },
        Screen::Rules => if enabled_ids(app.rules@).len() == 0 { Screen::Rules } else { Screen::Output },
        Screen::Output => Screen::Output,
        Screen::Done => Screen::Done,
        Screen::Diff => Screen::Output,
    }
}

pub open spec fn back_screen(sc: Screen) -> Screen {
    match sc {
        Screen::Files => Screen::Files,
        Screen::Rules => Screen::Files,
        Screen::Output => Screen::Rules,
        Screen::Done => Screen::Output,
        Screen::Diff => Screen::Output,
    }
}

pub open spec fn enter_action(app: App) -> AppAction {
    match app.screen {
        Screen::Rules => if enabled_ids(app.rules@).len() == 0 { AppAction::Nothing } else { AppAction::Analyze },
        Screen::Output => AppAction::Apply,
        _ => AppAction::Nothing,
    }
}

/// The work `key` asks of the runner.
pub open spec fn action_after(app: App, key: Key) -> AppAction {
    let sc = app.screen;
    match key {
        Key::Enter => enter_action(app),
        Key::Right => if sc == Screen::Done { AppAction::Nothing } else { enter_action(app) },
        Key::Char(c) => if c == 'l' {
            if sc == Screen::Done { AppAction::Nothing } else { enter_action(app) }
        } else if c == '3' {
            AppAction::Analyze
        } else if c == 'a' {
            if sc == Screen::Output { AppAction::Analyze } else { AppAction::Nothing }
        } else if c == 'r' {
            AppAction::RefreshFiles
        } else {
            AppAction::Nothing
        },
        Key::Tab => if next_step_spec(sc) == Screen::Output { AppAction::Analyze } else { AppAction::Nothing },
        _ => AppAction::Nothing,
    }
}

/// Whether `key` ends the wizard.
pub open spec fn quits_after(app: App, key: Key) -> bool {
    ||| app.should_quit
    ||| (key matches Key::Char(c) && (c == 'q' || c == 'Q') && app.screen != Screen::Diff)
    ||| (key == Key::Enter && app.screen == Screen::Done)
}

/// The status after applying the plans to `n` files with output mode `mode`.
pub open spec fn apply_status(mode: OutputMode, n: nat) -> Seq<char> {
    let d = crate::planner::decimal(n);
    match mode {
        OutputMode::DryRun => "Dry run complete: "@ + d + " file(s) would be modified; nothing written."@,
        OutputMode::Stdout => "Prepared "@ + d + " modernized file(s) for stdout; exiting TUI."@,
        _ => "Modernization complete: "@ + d + " file(s) successfully transformed!"@,
    }
}

impl App {
    /// Sets the preset; unless it is `Custom`, enables exactly the rules it lists.
    pub fn apply_preset(&mut self, preset: Preset)
        ensures
            final(self).diff_text == old(self).diff_text,
            final(self).preset == preset,
            preset != Preset::Custom ==> matches_preset(final(self).rules@, preset),
            preset == Preset::Custom ==> final(self).rules@ == old(self).rules@,
            rule_ids(final(self).rules@) == rule_ids(old(self).rules@),
            final(self).screen == old(self).screen,
            final(self).should_quit == old(self).should_quit,
            final(self).output_cursor == old(self).output_cursor,
            final(self).files@ == old(self).files@,
            final(self).rule_cursor == old(self).rule_cursor,
            final(self).file_cursor == old(self).file_cursor,
            final(self).write_results@ == old(self).write_results@,
            final(self).output_mode == old(self).output_mode,
            final(self).report == old(self).report,
            keeps_positions(*old(self), *final(self)),
            final(self).status@ == preset_status(preset),
    {
        self.preset = preset;
        if preset != Preset::Custom {
            let enabled = preset.enabled_rules();
            let ghost old_rules = self.rules@;
            let ghost start = *self;
            let mut k: usize = 0;
            while k < self.rules.len()
                invariant
                    k <= self.rules@.len(),
                    same_but_lists(start, *self),
                    self.files@ == start.files@,
                    self.preset == preset,
                    self.rules@.len() == old_rules.len(),
                    enabled@ == preset_rules(preset),
                    forall|j: int| 0 <= j < self.rules@.len() ==> (#[trigger] self.rules@[j]).definition.id == old_rules[j].definition.id,
                    forall|j: int| 0 <= j < k ==> (#[trigger] self.rules@[j]).enabled == preset_rules(preset).contains(self.rules@[j].definition.id),
                decreases self.rules.len() - k,
            {
                let mut item = self.rules.remove(k);
                item.enabled = crate::layout::rule_enabled(enabled.as_slice(), item.definition.id);
                self.rules.insert(k, item);
                k = k + 1;
            }
            proof {
                assert(rule_ids(self.rules@) =~= rule_ids(old_rules));
            }
        }
        let mut st = chars_of("Preset set to ");
        st.extend_from_slice(chars_of(preset.label()).as_slice());
        st.extend_from_slice(chars_of(".").as_slice());
        self.status = string_of(st.as_slice());
    }

    /// Moves to the next preset, cycling.
    pub fn cycle_preset(&mut self)
        ensures
            final(self).diff_text == old(self).diff_text,
            final(self).preset == next_preset(old(self).preset),
            final(self).preset != Preset::Custom ==> matches_preset(final(self).rules@, final(self).preset),
            final(self).screen == old(self).screen,
            final(self).should_quit == old(self).should_quit,
            final(self).files@ == old(self).files@,
            rule_ids(final(self).rules@) == rule_ids(old(self).rules@),
            en_flags(final(self).rules@) == en_flags_after(*old(self), Key::Char('p')),
            final(self).output_mode == old(self).output_mode,
            final(self).report == old(self).report,
            keeps_positions(*old(self), *final(self)),
            final(self).status@ == preset_status(next_preset(old(self).preset)),
    {
        let idx = preset_index(self.preset);
        let next = if idx == 5 {
            preset_at(1)
        } else {
            preset_at(idx + 1)
        };
        let ghost start = *self;
        self.apply_preset(next);
        proof {
            let n = start.rules@.len();
            assert(self.rules@.len() == n) by {
                assert(rule_ids(self.rules@).len() == rule_ids(start.rules@).len());
            }
            assert forall|k: int| 0 <= k < n implies (#[trigger] self.rules@[k]).definition.id == start.rules@[k].definition.id by {
                assert(rule_ids(self.rules@)[k] == rule_ids(start.rules@)[k]);
            }
            assert(en_flags(self.rules@) =~= en_flags_after(start, Key::Char('p')));
        }
    }

    /// Takes in what applying the plans did: `None` when there was no report, else how many
    /// files changed, the write results and the texts for stdout. Moves to the done screen,
    /// unless the output goes to stdout, which ends the wizard.
    pub fn finish_apply(&mut self, outcome: Option<(usize, Vec<WriteResult>, Vec<String>)>)
        ensures
            outcome is None ==> final(self).screen == old(self).screen && final(self).should_quit == old(self).should_quit,
            outcome is Some && old(self).output_mode == OutputMode::Stdout ==> final(self).should_quit
                && final(self).screen == old(self).screen,
            outcome is Some && old(self).output_mode != OutputMode::Stdout ==> final(self).screen == Screen::Done
                && final(self).should_quit == old(self).should_quit,
            final(self).output_cursor == old(self).output_cursor,
            match outcome {
                None => final(self).status@ == "Run analysis before applying transformations."@
                    && final(self).write_results == old(self).write_results
                    && final(self).stdout_after_exit == old(self).stdout_after_exit,
                Some((changed, results, stdout)) => final(self).status@ == apply_status(old(self).output_mode, changed as nat)
                    && final(self).write_results == results && final(self).stdout_after_exit == stdout,
            },
            final(self).files == old(self).files,
            final(self).rules == old(self).rules,
            final(self).report == old(self).report,
            final(self).output_mode == old(self).output_mode,
            final(self).preset == old(self).preset,
    {
        match outcome {
            None => {
                self.status = String::from_str("Run analysis before applying transformations.");
            },
            Some((changed, results, stdout)) => {
                self.stdout_after_exit = stdout;
                self.write_results = results;
                let n = crate::planner::decimal_exec(changed);
                let mut st: Vec<char>;
                match self.output_mode {
                    OutputMode::DryRun => {
                        st = chars_of("Dry run complete: ");
                        st.extend_from_slice(n.as_slice());
                        st.extend_from_slice(chars_of(" file(s) would be modified; nothing written.").as_slice());
                    },
                    OutputMode::Stdout => {
                        self.should_quit = true;
                        st = chars_of("Prepared ");
                        st.extend_from_slice(n.as_slice());
                        st.extend_from_slice(chars_of(" modernized file(s) for stdout; exiting TUI.").as_slice());
                    },
                    _ => {
                        st = chars_of("Modernization complete: ");
                        st.extend_from_slice(n.as_slice());
                        st.extend_from_slice(chars_of(" file(s) successfully transformed!").as_slice());
                    },
                }
                self.status = string_of(st.as_slice());
                if self.output_mode != OutputMode::Stdout || !self.should_quit {
                    self.screen = Screen::Done;
                }
            },
        }
    }

    fn handle_enter(&mut self) -> (a: AppAction)
        requires
            app_wf(*old(self)),
        ensures
            final(self).diff_text == old(self).diff_text,
            app_wf(*final(self)),
            final(self).screen == enter_screen(*old(self)),
            a == enter_action(*old(self)),
            final(self).should_quit == (old(self).should_quit || old(self).screen == Screen::Done),
            keeps_state(*old(self), *final(self)),
            final(self).status@ == (match enter_status(*old(self)) {
                Some(t) => t,
                None => old(self).status@,
            }),
    {
        match self.screen {
            Screen::Files => {
                let sel = self.selected_files();
                if sel.len() == 0 {
                    set_status(self, "Please select at least one file before proceeding (Space to select).");
                } else {
                    self.screen = Screen::Rules;
                    set_status(self, "Select rules or preset, then press [Enter] to choose output mode.");
                }
                AppAction::Nothing
            },
            Screen::Rules => {
                let en = self.enabled_rules();
                if en.len() == 0 {
                    set_status(self, "Please enable at least one rule before proceeding (Space to toggle or p for preset).");
                    AppAction::Nothing
                } else {
                    self.screen = Screen::Output;
                    set_status(self, "Select output setting and press [Enter] to apply transformations.");
                    AppAction::Analyze
                }
            },
            Screen::Output => AppAction::Apply,
            Screen::Done => {
                self.should_quit = true;
                AppAction::Nothing
            },
            Screen::Diff => {
                self.screen = Screen::Output;
                AppAction::Nothing
            },
        }
    }

    fn handle_back(&mut self)
        ensures
            final(self).diff_text == old(self).diff_text,
            final(self).screen == back_screen(old(self).screen),
            final(self).should_quit == old(self).should_quit,
            final(self).output_cursor == old(self).output_cursor,
            keeps_state(*old(self), *final(self)),
            keeps_session(*old(self), *final(self)),
            final(self).status@ == (match back_status(old(self).screen) {
                Some(t) => t,
                None => old(self).status@,
            }),
    {
        match self.screen {
            Screen::Files => {},
            Screen::Rules => {
                self.screen = Screen::Files;
                set_status(self, "Select CSS files to modernize, then press [Enter].");
            },
            Screen::Output => {
                self.screen = Screen::Rules;
                set_status(self, "Select rules or preset, then press [Enter].");
            },
            Screen::Done => {
                self.screen = Screen::Output;
                set_status(self, "Choose output setting and press [Enter] to apply.");
            },
            Screen::Diff => {
                self.screen = Screen::Output;
            },
        }
    }

    fn handle_a_key(&mut self) -> (a: AppAction)
        ensures
            final(self).diff_text == old(self).diff_text,
            final(self).screen == old(self).screen,
            final(self).should_quit == old(self).should_quit,
            a == (if old(self).screen == Screen::Output { AppAction::Analyze } else { AppAction::Nothing }),
            file_paths(final(self).files@) == file_paths(old(self).files@),
            sel_flags(final(self).files@) == sel_flags_after(*old(self), Key::Char('a')),
            rule_ids(final(self).rules@) == rule_ids(old(self).rules@),
            en_flags(final(self).rules@) == en_flags_after(*old(self), Key::Char('a')),
            final(self).preset == preset_after(*old(self), Key::Char('a')),
            final(self).output_mode == old(self).output_mode,
            final(self).report == old(self).report,
            keeps_positions(*old(self), *final(self)),
            final(self).status@ == (match a_status(*old(self)) {
                Some(t) => t,
                None => old(self).status@,
            }),
    {
        match self.screen {
            Screen::Files => {
                let mut all = true;
                let mut k: usize = 0;
                while k < self.files.len()
                    invariant
                        k <= self.files@.len(),
                        all == (forall|j: int| 0 <= j < k ==> self.files@[j].selected),
                    decreases self.files.len() - k,
                {
                    if !self.files[k].selected {
                        all = false;
                    }
                    k = k + 1;
                }
                let ghost n = self.files@.len();
                let ghost start = *self;
                assert(all == all_selected(start.files@));
                let mut k: usize = 0;
                while k < self.files.len()
                    invariant
                        k <= self.files@.len(),
                        same_but_lists(start, *self),
                        self.files@.len() == n,
                        n == start.files@.len(),
                        self.rules@ == start.rules@,
                        self.preset == start.preset,
                        forall|j: int| 0 <= j < n ==> (#[trigger] self.files@[j]).path == start.files@[j].path,
                        forall|j: int| k <= j < n ==> (#[trigger] self.files@[j]).selected == start.files@[j].selected,
                        forall|j: int| 0 <= j < k ==> (#[trigger] self.files@[j]).selected == !all,
                    decreases self.files.len() - k,
                {
                    let mut f = self.files.remove(k);
                    f.selected = !all;
                    self.files.insert(k, f);
                    k = k + 1;
                }
                proof {
                    assert(sel_flags(self.files@) =~= Seq::new(n, |q: int| !all_selected(start.files@)));
                    assert(file_paths(self.files@) =~= file_paths(start.files@));
                }
                if all {
                    self.status = String::from_str("Deselected all files.");
                } else {
                    self.status = String::from_str("Selected all files.");
                }
                AppAction::Nothing
            },
            Screen::Rules => {
                let mut all = true;
                let mut k: usize = 0;
                while k < self.rules.len()
                    invariant
                        k <= self.rules@.len(),
                        all == (forall|j: int| 0 <= j < k ==> self.rules@[j].enabled),
                    decreases self.rules.len() - k,
                {
                    if !self.rules[k].enabled {
                        all = false;
                    }
                    k = k + 1;
                }
                let ghost n = self.rules@.len();
                let ghost start = *self;
                assert(all == all_enabled(start.rules@));
                let mut k: usize = 0;
                while k < self.rules.len()
                    invariant
                        k <= self.rules@.len(),
                        same_but_lists(start, *self),
                        self.rules@.len() == n,
                        n == start.rules@.len(),
                        self.files@ == start.files@,
                        forall|j: int| 0 <= j < n ==> (#[trigger] self.rules@[j]).definition.id == start.rules@[j].definition.id,
                        forall|j: int| k <= j < n ==> (#[trigger] self.rules@[j]).enabled == start.rules@[j].enabled,
                        forall|j: int| 0 <= j < k ==> (#[trigger] self.rules@[j]).enabled == !all,
                    decreases self.rules.len() - k,
                {
                    let mut r = self.rules.remove(k);
                    r.enabled = !all;
                    self.rules.insert(k, r);
                    k = k + 1;
                }
                proof {
                    assert(en_flags(self.rules@) =~= Seq::new(n, |q: int| !all_enabled(start.rules@)));
                    assert(rule_ids(self.rules@) =~= rule_ids(start.rules@));
                }
                self.preset = Preset::Custom;
                if all {
                    self.status = String::from_str("Disabled all rules.");
                } else {
                    self.status = String::from_str("Enabled all rules.");
                }
                AppAction::Nothing
            },
            Screen::Output => {
                self.status = String::from_str("Refreshed workspace analysis.");
                AppAction::Analyze
            },
            _ => AppAction::Nothing,
        }
    }

    fn toggle_current(&mut self)
        requires
            app_wf(*old(self)),
        ensures
            old(self).screen == Screen::Diff ==> final(self).diff_text@ == current_diff(*old(self)),
            old(self).screen != Screen::Diff ==> final(self).diff_text == old(self).diff_text,
            app_wf(*final(self)),
            final(self).screen == old(self).screen,
            final(self).should_quit == old(self).should_quit,
            file_paths(final(self).files@) == file_paths(old(self).files@),
            sel_flags(final(self).files@) == sel_flags_after(*old(self), Key::Char(' ')),
            rule_ids(final(self).rules@) == rule_ids(old(self).rules@),
            en_flags(final(self).rules@) == en_flags_after(*old(self), Key::Char(' ')),
            final(self).preset == preset_after(*old(self), Key::Char(' ')),
            final(self).output_mode == output_mode_after(*old(self), Key::Char(' ')),
            old(self).screen != Screen::Diff ==> final(self).report == old(self).report,
            keeps_positions(*old(self), *final(self)),
            final(self).status@ == (match space_status(*old(self)) {
                Some(t) => t,
                None => old(self).status@,
            }),
    {
        let ghost start = *self;
        match self.screen {
            Screen::Files => {
                if self.file_cursor < self.files.len() {
                    let c = self.file_cursor;
                    let mut f = self.files.remove(c);
                    f.selected = !f.selected;
                    let name = shown_name(f.path.as_str());
                    let mut st = if f.selected { chars_of("Selected ") } else { chars_of("Deselected ") };
                    st.extend_from_slice(name.as_slice());
                    self.files.insert(c, f);
                    self.status = string_of(st.as_slice());
                    proof {
                        let fl = sel_flags(start.files@);
                        assert forall|j: int| 0 <= j < start.files@.len() implies (#[trigger] self.files@[j]).path
                            == start.files@[j].path && self.files@[j].selected == (if j == c { !fl[j] } else { fl[j] }) by {
                            if j < c {
                                assert(self.files@[j] == start.files@.remove(c as int)[j]);
                            } else if j > c {
                                assert(self.files@[j] == start.files@.remove(c as int)[j - 1]);
                            }
                        }
                        assert(sel_flags(self.files@) =~= fl.update(c as int, !fl[c as int]));
                        assert(file_paths(self.files@) =~= file_paths(start.files@));
                    }
                }
            },
            Screen::Rules => {
                if self.rule_cursor < self.rules.len() {
                    let c = self.rule_cursor;
                    let mut r = self.rules.remove(c);
                    r.enabled = !r.enabled;
                    let mut st = if r.enabled { chars_of("Enabled rule: ") } else { chars_of("Disabled rule: ") };
                    st.extend_from_slice(chars_of(r.definition.title).as_slice());
                    self.rules.insert(c, r);
                    self.preset = Preset::Custom;
                    self.status = string_of(st.as_slice());
                    proof {
                        let fl = en_flags(start.rules@);
                        assert forall|j: int| 0 <= j < start.rules@.len() implies (#[trigger] self.rules@[j]).definition.id
                            == start.rules@[j].definition.id && self.rules@[j].enabled == (if j == c { !fl[j] } else { fl[j] }) by {
                            if j < c {
                                assert(self.rules@[j] == start.rules@.remove(c as int)[j]);
                            } else if j > c {
                                assert(self.rules@[j] == start.rules@.remove(c as int)[j - 1]);
                            }
                        }
                        assert(en_flags(self.rules@) =~= fl.update(c as int, !fl[c as int]));
                        assert(rule_ids(self.rules@) =~= rule_ids(start.rules@));
                    }
                }
            },
            Screen::Output => {
                self.output_mode = mode_at(self.output_cursor);
                let mut st = chars_of("Selected output mode: ");
                st.extend_from_slice(chars_of(self.output_mode.label()).as_slice());
                self.status = string_of(st.as_slice());
            },
            Screen::Diff => {
                self.toggle_current_plan();
            },
            _ => {},
        }
    }

    fn move_up(&mut self)
        requires
            app_wf(*old(self)),
        ensures
            old(self).screen != Screen::Diff ==> final(self).diff_text == old(self).diff_text,
            app_wf(*final(self)),
            final(self).screen == old(self).screen,
            final(self).should_quit == old(self).should_quit,
            moved_as(*old(self), *final(self), Key::Up),
            final(self).status == old(self).status,
            old(self).screen == Screen::Diff ==> final(self).diff_text@ == diff_for(old(self).report, final(self).plan_cursor as nat),
    {
        match self.screen {
            Screen::Files => {
                if self.file_cursor > 0 {
                    self.file_cursor = self.file_cursor - 1;
                }
            },
            Screen::Rules => {
                if self.rule_cursor > 0 {
                    self.rule_cursor = self.rule_cursor - 1;
                }
            },
            Screen::Output => {
                if self.output_cursor > 0 {
                    self.output_cursor = self.output_cursor - 1;
                }
                self.output_mode = mode_at(self.output_cursor);
            },
            Screen::Diff => {
                if self.plan_cursor > 0 {
                    self.plan_cursor = self.plan_cursor - 1;
                }
                self.diff_scroll = 0;
                self.refresh_diff();
            },
            _ => {},
        }
    }

    fn move_down(&mut self)
        requires
            app_wf(*old(self)),
        ensures
            old(self).screen != Screen::Diff ==> final(self).diff_text == old(self).diff_text,
            app_wf(*final(self)),
            final(self).screen == old(self).screen,
            final(self).should_quit == old(self).should_quit,
            moved_as(*old(self), *final(self), Key::Down),
            final(self).status == old(self).status,
            old(self).screen == Screen::Diff ==> final(self).diff_text@ == diff_for(old(self).report, final(self).plan_cursor as nat),
    {
        match self.screen {
            Screen::Files => {
                let n = self.files.len();
                let last = if n > 0 { n - 1 } else { 0 };
                self.file_cursor = if self.file_cursor < last { self.file_cursor + 1 } else { last };
            },
            Screen::Rules => {
                let n = self.rules.len();
                let last = if n > 0 { n - 1 } else { 0 };
                self.rule_cursor = if self.rule_cursor < last { self.rule_cursor + 1 } else { last };
            },
            Screen::Output => {
                self.output_cursor = if self.output_cursor < 6 { self.output_cursor + 1 } else { 6 };
                self.output_mode = mode_at(self.output_cursor);
            },
            Screen::Diff => {
                let n = self.plan_positions().len();
                let last = if n > 0 { n - 1 } else { 0 };
                self.plan_cursor = if self.plan_cursor < last { self.plan_cursor + 1 } else { last };
                self.diff_scroll = 0;
                self.refresh_diff();
            },
            _ => {},
        }
    }

    fn page_up(&mut self)
        ensures
            final(self).diff_text == old(self).diff_text,
            final(self).screen == old(self).screen,
            final(self).should_quit == old(self).should_quit,
            moved_as(*old(self), *final(self), Key::PageUp),
            final(self).status == old(self).status,
    {
        match self.screen {
            Screen::Diff => {
                self.diff_scroll = if self.diff_scroll >= 10 { self.diff_scroll - 10 } else { 0 };
            },
            Screen::Files => {
                self.file_cursor = if self.file_cursor >= 10 { self.file_cursor - 10 } else { 0 };
            },
            Screen::Rules => {
                self.rule_cursor = if self.rule_cursor >= 10 { self.rule_cursor - 10 } else { 0 };
            },
            _ => {},
        }
    }

    fn page_down(&mut self)
        ensures
            final(self).diff_text == old(self).diff_text,
            final(self).screen == old(self).screen,
            final(self).should_quit == old(self).should_quit,
            moved_as(*old(self), *final(self), Key::PageDown),
            final(self).status == old(self).status,
    {
        match self.screen {
            Screen::Diff => {
                self.diff_scroll = if self.diff_scroll <= u16::MAX - 10 { self.diff_scroll + 10 } else { u16::MAX };
            },
            Screen::Files => {
                let n = self.files.len();
                let last = if n > 0 { n - 1 } else { 0 };
                self.file_cursor = if self.file_cursor < last && last - self.file_cursor > 10 {
                    self.file_cursor + 10
                } else {
                    last
                };
            },
            Screen::Rules => {
                let n = self.rules.len();
                let last = if n > 0 { n - 1 } else { 0 };
                self.rule_cursor = if self.rule_cursor < last && last - self.rule_cursor > 10 {
                    self.rule_cursor + 10
                } else {
                    last
                };
            },
            _ => {},
        }
    }

    /// Reacts to a key press: moves between screens and cursors, toggles and selects, and
    /// says what work the runner must do next.
    pub fn handle_key(&mut self, key: Key) -> (a: AppAction)
        requires
            app_wf(*old(self)),
        ensures
            app_wf(*final(self)),
            final(self).screen == screen_after(*old(self), key),
            final(self).should_quit == quits_after(*old(self), key),
            a == action_after(*old(self), key),
            file_paths(final(self).files@) == file_paths(old(self).files@),
            sel_flags(final(self).files@) == sel_flags_after(*old(self), key),
            rule_ids(final(self).rules@) == rule_ids(old(self).rules@),
            en_flags(final(self).rules@) == en_flags_after(*old(self), key),
            final(self).preset == preset_after(*old(self), key),
            final(self).file_cursor == file_cursor_after(*old(self), key),
            final(self).rule_cursor == rule_cursor_after(*old(self), key),
            final(self).output_cursor == output_cursor_after(*old(self), key),
            final(self).output_mode == output_mode_after(*old(self), key),
            final(self).plan_cursor == plan_cursor_after(*old(self), key),
            final(self).diff_scroll == diff_scroll_after(*old(self), key),
            !(old(self).screen == Screen::Diff && key == Key::Char(' ')) ==> final(self).report == old(self).report,
            final(self).status@ == status_after(*old(self), key),
            final(self).diff_text@ == diff_after(*old(self), key),
    {
        match key {
            Key::Char(c) => {
                if c == 'q' || c == 'Q' {
                    if self.screen == Screen::Diff {
                        self.screen = Screen::Output;
                    } else {
                        self.should_quit = true;
                    }
                    AppAction::Nothing
                } else if c == 'b' {
                    self.handle_back();
                    AppAction::Nothing
                } else if c == '1' {
                    self.screen = Screen::Files;
                    AppAction::Nothing
                } else if c == '2' {
                    self.screen = Screen::Rules;
                    AppAction::Nothing
                } else if c == '3' {
                    self.screen = Screen::Output;
                    AppAction::Analyze
                } else if c == '4' {
                    if self.write_results.len() > 0 {
                        self.screen = Screen::Done;
                    }
                    AppAction::Nothing
                } else if c == 'k' {
                    self.move_up();
                    AppAction::Nothing
                } else if c == 'j' {
                    self.move_down();
                    AppAction::Nothing
                } else if c == 'l' {
                    if self.screen != Screen::Done {
                        self.handle_enter()
                    } else {
                        AppAction::Nothing
                    }
                } else if c == ' ' {
                    self.toggle_current();
                    AppAction::Nothing
                } else if c == 'a' {
                    self.handle_a_key()
                } else if c == 'd' || c == 'v' {
                    if self.screen == Screen::Output {
                        self.refresh_diff();
                        self.screen = Screen::Diff;
                    } else if self.screen == Screen::Diff {
                        self.screen = Screen::Output;
                    }
                    AppAction::Nothing
                } else if c == 'p' {
                    self.cycle_preset();
                    AppAction::Nothing
                } else if c == 'r' {
                    if self.screen == Screen::Done {
                        self.screen = Screen::Files;
                        self.status = String::from_str("Started new refactoring session.");
                    } else {
                        self.status = String::from_str("Refreshed CSS files from disk.");
                    }
                    AppAction::RefreshFiles
                } else {
                    AppAction::Nothing
                }
            },
            Key::Enter => self.handle_enter(),
            Key::Esc | Key::Backspace | Key::Left => {
                self.handle_back();
                AppAction::Nothing
            },
            Key::Tab => {
                let next = match self.screen {
                    Screen::Files => Screen::Rules,
                    Screen::Rules => Screen::Output,
                    Screen::Output => Screen::Done,
                    Screen::Done => Screen::Files,
                    Screen::Diff => Screen::Rules,
                };
                self.screen = next;
                if next == Screen::Output {
                    AppAction::Analyze
                } else {
                    AppAction::Nothing
                }
            },
            Key::BackTab => {
                self.screen = match self.screen {
                    Screen::Files => Screen::Done,
                    Screen::Rules => Screen::Files,
                    Screen::Output => Screen::Rules,
                    Screen::Done => Screen::Output,
                    Screen::Diff => Screen::Done,
                };
                AppAction::Nothing
            },
            Key::Up => {
                self.move_up();
                AppAction::Nothing
            },
            Key::Down => {
                self.move_down();
                AppAction::Nothing
            },
            Key::Right => {
                if self.screen != Screen::Done {
                    self.handle_enter()
                } else {
                    AppAction::Nothing
                }
            },
            Key::PageUp => {
                self.page_up();
                AppAction::Nothing
            },
            Key::PageDown => {
                self.page_down();
                AppAction::Nothing
            },
            Key::Other => AppAction::Nothing,
        }
    }
}

/// What the wizard leaves for the terminal once it has closed: the texts for stdout.
#[derive(Debug)]
pub struct TuiOutcome {
    pub stdout: Vec<String>,
}

impl Default for TuiOutcome {
    fn default() -> (r: Self)
        ensures
            r.stdout@.len() == 0,
    {
        TuiOutcome { stdout: Vec::new() }
    }
}

// ---------------------------------------------------------------------------
// Laws of the wizard
// ---------------------------------------------------------------------------

/// Going back from a step reached by advancing one step (Enter from the files or the rules,
/// or an apply from the output settings) returns to the step one came from.
pub proof fn law_back_undoes_advance(before: App, after: App, key: Key)
    requires
        before.screen == Screen::Files || before.screen == Screen::Rules || before.screen == Screen::Output,
        after.screen == next_step_spec(before.screen),
        key == Key::Esc || key == Key::Backspace || key == Key::Left || key == Key::Char('b'),
    ensures
        screen_after(after, key) == before.screen,
{
}

/// Enter never skips a step: on a wizard step it stays or moves to the next step.
pub proof fn law_enter_never_skips(app: App)
    requires
        app.screen != Screen::Diff,
    ensures
        screen_after(app, Key::Enter) == app.screen || screen_after(app, Key::Enter) == next_step_spec(app.screen),
{
}

/// Enter leaves the file list only when a file is selected, and the rule list only when a
/// rule is enabled.
pub proof fn law_enter_needs_a_choice(app: App)
    ensures
        app.screen == Screen::Files && screen_after(app, Key::Enter) != Screen::Files ==> selected_paths(app.files@).len() > 0,
        app.screen == Screen::Rules && screen_after(app, Key::Enter) != Screen::Rules ==> enabled_ids(app.rules@).len() > 0,
{
}

/// Shift+Tab undoes Tab on the four wizard steps, and Tab undoes Shift+Tab.
pub proof fn law_tab_and_backtab_undo_each_other(a: App, b: App)
    requires
        a.screen != Screen::Diff,
    ensures
        b.screen == screen_after(a, Key::Tab) ==> screen_after(b, Key::BackTab) == a.screen,
        b.screen == screen_after(a, Key::BackTab) ==> screen_after(b, Key::Tab) == a.screen,
{
}

/// Four Tabs come back to the step one started from.
pub proof fn law_four_tabs_cycle(s: Screen)
    requires
        s != Screen::Diff,
    ensures
        next_step_spec(next_step_spec(next_step_spec(next_step_spec(s)))) == s,
{
}

/// The presets cycle in the order Conservative, Modern, Refactor, Aggressive, Custom and back
/// to Conservative; five presses of `p` bring back any preset of the cycle, and Analysis is
/// left for Conservative.
pub proof fn law_preset_cycle(p: Preset)
    requires
        p != Preset::Analysis,
    ensures
        next_preset(Preset::Analysis) == Preset::Conservative,
        next_preset(Preset::Conservative) == Preset::Modern,
        next_preset(Preset::Modern) == Preset::Refactor,
        next_preset(Preset::Refactor) == Preset::Aggressive,
        next_preset(Preset::Aggressive) == Preset::Custom,
        next_preset(Preset::Custom) == Preset::Conservative,
        next_preset(next_preset(next_preset(next_preset(next_preset(p))))) == p,
{
}

/// Every rule id is in the catalogue.
proof fn lemma_all_rules_has(r: RuleId)
    ensures
        crate::model::all_rules().contains(r),
{
    let a = crate::model::all_rules();
    let k: int = match r {
        RuleId::NestPseudoClass => 0,
        RuleId::NestPseudoElement => 1,
        RuleId::NestAttribute => 2,
        RuleId::NestCompound => 3,
        RuleId::NestDescendant => 4,
        RuleId::NestCombinator => 5,
        RuleId::NestMedia => 6,
        RuleId::NestSupports => 7,
        RuleId::NestContainer => 8,
        RuleId::NestStartingStyle => 9,
        RuleId::FactorSelectorList => 10,
        RuleId::ConsolidateNot => 11,
        RuleId::ModernizeIs => 12,
        RuleId::ModernizeWhere => 13,
        RuleId::ModernizeMediaRange => 14,
        RuleId::MergeSameNamedLayer => 15,
        RuleId::MergeAdjacentMedia => 16,
        RuleId::MergeAdjacentSupports => 17,
        RuleId::MergeAdjacentContainer => 18,
        RuleId::MergeIdenticalScope => 19,
        RuleId::MergeIdenticalStartingStyle => 20,
        RuleId::MergeAdjacentIdenticalSelector => 21,
        RuleId::MergeIdenticalRuleBodies => 22,
        RuleId::FactorIdenticalStatesWithIs => 23,
        RuleId::GatherRelatedSelectorRules => 24,
        RuleId::PruneOverriddenDeclarations => 25,
    };
    assert(a[k] == r);
}

/// Under the aggressive preset every rule is enabled; under the analysis preset none is.
pub proof fn law_aggressive_all_analysis_none(rs: Seq<RuleItem>)
    ensures
        matches_preset(rs, Preset::Aggressive) ==> all_enabled(rs),
        matches_preset(rs, Preset::Analysis) ==> forall|k: int| 0 <= k < rs.len() ==> !(#[trigger] rs[k]).enabled,
{
    assert forall|k: int| 0 <= k < rs.len() && matches_preset(rs, Preset::Aggressive) implies (#[trigger] rs[k]).enabled by {
        lemma_all_rules_has(rs[k].definition.id);
    }
}

/// Space pressed twice on the same file, or on the same rule, restores the selection.
pub proof fn law_space_twice_restores(a: App, b: App)
    requires
        b.screen == a.screen,
        b.file_cursor == a.file_cursor,
        b.rule_cursor == a.rule_cursor,
        b.files@.len() == a.files@.len(),
        b.rules@.len() == a.rules@.len(),
        sel_flags(b.files@) == sel_flags_after(a, Key::Char(' ')),
        en_flags(b.rules@) == en_flags_after(a, Key::Char(' ')),
    ensures
        sel_flags_after(b, Key::Char(' ')) == sel_flags(a.files@),
        en_flags_after(b, Key::Char(' ')) == en_flags(a.rules@),
{
    assert(sel_flags_after(b, Key::Char(' ')) =~= sel_flags(a.files@));
    assert(en_flags_after(b, Key::Char(' ')) =~= en_flags(a.rules@));
}

/// The file, rule and output cursors stay on their lists, whatever key is pressed.
pub proof fn law_cursors_stay_on_lists(app: App, key: Key)
    ensures
        app.file_cursor < app.files@.len() ==> file_cursor_after(app, key) < app.files@.len(),
        app.rule_cursor < app.rules@.len() ==> rule_cursor_after(app, key) < app.rules@.len(),
        app.output_cursor < 7 ==> output_cursor_after(app, key) < 7,
{
}


} // verus!
