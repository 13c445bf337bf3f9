use cssforge::model::{OutputMode, Preset};
use cssforge::output::{written, WriteResult};
use cssforge::wizard::{App, AppAction, Key, Screen};

fn new_app(css: &str) -> (App, Vec<String>) {
    let mut app = App::new("root".to_string(), vec!["root/test.css".to_string()], false);
    let sources = vec![css.to_string()];
    app.analyze(&sources);
    (app, sources)
}

fn one_result() -> WriteResult {
    written(OutputMode::OutDir, "root/test.css", "root/cssforge-out/test.css".to_string(), None, "file written to output directory")
}

#[test]
fn test_wizard_step_flow() {
    let (mut app, sources) = new_app(".btn { color: red; } .btn:hover { color: blue; }");
    assert_eq!(app.screen, Screen::Files);
    assert!(!app.files.is_empty());
    assert_eq!(app.handle_key(Key::Enter), AppAction::Nothing);
    assert_eq!(app.screen, Screen::Rules);
    assert_eq!(app.handle_key(Key::Enter), AppAction::Analyze);
    app.analyze(&sources);
    assert_eq!(app.screen, Screen::Output);
    assert!(app.report.is_some());
    app.handle_key(Key::Down);
    assert_eq!(app.output_mode, OutputMode::OutDir);
    assert_eq!(app.handle_key(Key::Enter), AppAction::Apply);
    app.finish_apply(Some((1, vec![one_result()], Vec::new())));
    assert_eq!(app.screen, Screen::Done);
    assert!(!app.write_results.is_empty());
    assert_eq!(app.status, "Modernization complete: 1 file(s) successfully transformed!");
    app.handle_key(Key::Enter);
    assert!(app.should_quit);
}

#[test]
fn test_navigation_back() {
    let (mut app, _) = new_app("body { margin: 0; }");
    app.handle_key(Key::Enter);
    assert_eq!(app.screen, Screen::Rules);
    app.handle_key(Key::Esc);
    assert_eq!(app.screen, Screen::Files);
    app.handle_key(Key::Enter);
    app.handle_key(Key::Enter);
    assert_eq!(app.screen, Screen::Output);
    app.handle_key(Key::Backspace);
    assert_eq!(app.screen, Screen::Rules);
    app.handle_key(Key::Char('b'));
    assert_eq!(app.screen, Screen::Files);
}

#[test]
fn test_rules_select_all_and_page_scroll() {
    let (mut app, _) = new_app("body { margin: 0; }");
    app.handle_key(Key::Enter);
    assert_eq!(app.screen, Screen::Rules);
    app.handle_key(Key::Char('a'));
    let enabled = app.rules.iter().filter(|r| r.enabled).count();
    assert!(enabled == 0 || enabled == app.rules.len());
    if enabled == 0 {
        app.handle_key(Key::Char('a'));
    }
    assert!(app.rules.iter().all(|r| r.enabled));
    assert_eq!(app.preset, Preset::Custom);
    app.handle_key(Key::Char('a'));
    assert!(app.rules.iter().all(|r| !r.enabled));
    app.handle_key(Key::Char('a'));
    assert!(app.rules.iter().all(|r| r.enabled));
    app.rule_cursor = 0;
    app.handle_key(Key::PageDown);
    assert_eq!(app.rule_cursor, 10.min(app.rules.len() - 1));
    app.handle_key(Key::PageUp);
    assert_eq!(app.rule_cursor, 0);
}

#[test]
fn entering_rules_needs_a_selected_file() {
    let (mut app, _) = new_app("body { margin: 0; }");
    app.handle_key(Key::Char(' '));
    assert!(!app.files[0].selected);
    assert_eq!(app.status, "Deselected test.css");
    assert_eq!(app.handle_key(Key::Enter), AppAction::Nothing);
    assert_eq!(app.screen, Screen::Files);
    assert_eq!(app.status, "Please select at least one file before proceeding (Space to select).");
}

#[test]
fn presets_cycle_in_order_and_set_rules() {
    let (mut app, _) = new_app("body { margin: 0; }");
    assert_eq!(app.preset, Preset::Modern);
    app.handle_key(Key::Char('p'));
    assert_eq!(app.preset, Preset::Refactor);
    app.handle_key(Key::Char('p'));
    assert_eq!(app.preset, Preset::Aggressive);
    assert!(app.rules.iter().all(|r| r.enabled));
    app.handle_key(Key::Char('p'));
    assert_eq!(app.preset, Preset::Custom);
    assert!(app.rules.iter().all(|r| r.enabled));
    app.handle_key(Key::Char('p'));
    assert_eq!(app.preset, Preset::Conservative);
    assert!(app.rules.iter().any(|r| r.enabled));
    assert!(app.rules.iter().any(|r| !r.enabled));
    assert_eq!(app.status, "Preset set to Conservative.");
    app.handle_key(Key::Char('p'));
    assert_eq!(app.preset, Preset::Modern);
}

#[test]
fn tab_cycles_steps_and_asks_for_analysis_on_output() {
    let (mut app, _) = new_app("body { margin: 0; }");
    assert_eq!(app.handle_key(Key::Tab), AppAction::Nothing);
    assert_eq!(app.screen, Screen::Rules);
    assert_eq!(app.handle_key(Key::Tab), AppAction::Analyze);
    assert_eq!(app.screen, Screen::Output);
    app.handle_key(Key::Tab);
    assert_eq!(app.screen, Screen::Done);
    app.handle_key(Key::Tab);
    assert_eq!(app.screen, Screen::Files);
    app.handle_key(Key::BackTab);
    assert_eq!(app.screen, Screen::Done);
}

#[test]
fn diff_inspector_toggles_plans() {
    let (mut app, _) = new_app(".btn {\n  color: red;\n}\n.btn:hover {\n  color: blue;\n}\n");
    app.handle_key(Key::Char('3'));
    assert_eq!(app.screen, Screen::Output);
    assert_eq!(app.plan_positions(), vec![(0, 0)]);
    app.handle_key(Key::Char('d'));
    assert_eq!(app.screen, Screen::Diff);
    assert!(app.diff_text.contains("root/test.css:before"));
    assert!(app.current_plan().unwrap().selected);
    app.handle_key(Key::Char(' '));
    assert!(!app.current_plan().unwrap().selected);
    app.handle_key(Key::Char('q'));
    assert_eq!(app.screen, Screen::Output);
    assert!(!app.should_quit);
}

#[test]
fn stdout_mode_ends_the_wizard() {
    let (mut app, _) = new_app("body { margin: 0; }");
    app.output_cursor = 6;
    app.screen = Screen::Output;
    app.handle_key(Key::Char(' '));
    assert_eq!(app.output_mode, OutputMode::Stdout);
    assert_eq!(app.handle_key(Key::Enter), AppAction::Apply);
    app.finish_apply(Some((0, Vec::new(), Vec::new())));
    assert!(app.should_quit);
    assert_eq!(app.screen, Screen::Output);
}

#[test]
fn refresh_keeps_selection() {
    let mut app = App::new("root".to_string(), vec!["a.css".to_string(), "b.css".to_string()], false);
    app.handle_key(Key::Down);
    app.handle_key(Key::Char(' '));
    assert!(!app.files[1].selected);
    app.refresh_files(vec!["a.css".to_string(), "b.css".to_string(), "c.css".to_string()], true);
    let sel: Vec<bool> = app.files.iter().map(|f| f.selected).collect();
    assert_eq!(sel, vec![true, false, false]);
    assert!(app.git_dirty);
    assert_eq!(app.file_cursor, 1);
}

#[test]
fn space_twice_restores_and_cursors_stay_on_lists() {
    let mut app = App::new("root".to_string(), vec!["a.css".to_string(), "b.css".to_string()], false);
    app.handle_key(Key::Char(' '));
    assert!(!app.files[0].selected);
    app.handle_key(Key::Char(' '));
    assert!(app.files[0].selected);
    for _ in 0..5 {
        app.handle_key(Key::Down);
    }
    assert_eq!(app.file_cursor, 1);
    app.handle_key(Key::PageDown);
    assert_eq!(app.file_cursor, 1);
    app.handle_key(Key::PageUp);
    assert_eq!(app.file_cursor, 0);
    app.handle_key(Key::Up);
    assert_eq!(app.file_cursor, 0);
}

#[test]
fn five_preset_presses_come_back_and_back_undoes_enter() {
    let (mut app, _) = new_app("body { margin: 0; }");
    let start = app.preset;
    for _ in 0..5 {
        app.handle_key(Key::Char('p'));
    }
    assert_eq!(app.preset, start);
    app.handle_key(Key::Enter);
    assert_eq!(app.screen, Screen::Rules);
    app.handle_key(Key::Left);
    assert_eq!(app.screen, Screen::Files);
    for _ in 0..4 {
        app.handle_key(Key::Tab);
    }
    assert_eq!(app.screen, Screen::Files);
}

#[test]
fn status_line_follows_the_keys() {
    let (mut app, _) = new_app(".a { color: red; }");
    app.handle_key(Key::Char(' '));
    assert_eq!(app.status, "Deselected test.css");
    app.handle_key(Key::Enter);
    assert_eq!(app.screen, Screen::Files);
    assert_eq!(app.status, "Please select at least one file before proceeding (Space to select).");
    app.handle_key(Key::Char('a'));
    assert_eq!(app.status, "Selected all files.");
    app.handle_key(Key::Enter);
    assert_eq!(app.status, "Select rules or preset, then press [Enter] to choose output mode.");
    app.handle_key(Key::Char('p'));
    assert_eq!(app.status, "Preset set to Refactor.");
    app.handle_key(Key::Esc);
    assert_eq!(app.status, "Select CSS files to modernize, then press [Enter].");
    app.handle_key(Key::Char('r'));
    assert_eq!(app.status, "Refreshed CSS files from disk.");
}

#[test]
fn diff_view_shows_the_current_plan() {
    let (mut app, sources) = new_app(".btn { color: red; }\n.btn:hover { color: blue; }\n");
    app.handle_key(Key::Char('3'));
    app.analyze(&sources);
    assert_eq!(app.screen, Screen::Output);
    app.handle_key(Key::Char('d'));
    assert_eq!(app.screen, Screen::Diff);
    let plan = app.current_plan().expect("a plan");
    let expected = cssforge::analysis::unified_diff(
        &plan.original,
        &plan.proposed,
        &format!("{}:before", plan.file),
        &format!("{}:after", plan.file),
    );
    assert_eq!(app.diff_text, expected);
    assert!(app.diff_text.contains("+"));
}

#[test]
fn output_screen_lists_modes_and_counts() {
    let (app, _) = new_app(".btn { color: red; }\n.btn:hover { color: blue; }\n");
    let (left, right) = cssforge::screens::output_screen(&app);
    let text = |l: &Vec<cssforge::screens::Piece>| l.iter().map(|p| p.text.clone()).collect::<String>();
    assert_eq!(left.len(), 12);
    assert_eq!(text(&left[0]), " Select how modernized CSS will be saved:");
    assert!(text(&left[3]).starts_with(" ● "));
    assert!(text(&left[3]).ends_with(" [Default - Safe]"));
    assert!(text(&left[2]).starts_with(" ○ "));
    assert_eq!(text(&left[11]), " Creates parallel *.modern.css files alongside originals. Zero risk to source code.");
    assert_eq!(text(&right[2]), "   Files to transform:            1");
    assert_eq!(text(&right[right.len() - 1]), " Tip: Press [d] to inspect exact code diffs and safety proofs.");
}

#[test]
fn rules_screen_lists_the_catalogue_by_section() {
    let (app, _) = new_app(".a { color: red; }");
    let (lines, cursor_line) = cssforge::screens::rules_screen(&app);
    let text = |l: &Vec<cssforge::screens::Piece>| l.iter().map(|p| p.text.clone()).collect::<String>();
    assert_eq!(text(&lines[0]), " Active Preset: [Modern]   (Press p to cycle presets: Conservative ➔ Modern ➔ Refactor ➔ Aggressive ➔ Custom)");
    assert!(text(&lines[4]).starts_with(" ── MODERNIZE"));
    assert_eq!(cursor_line, 5);
    assert!(text(&lines[5]).starts_with("  [x] ") || text(&lines[5]).starts_with("  [ ] "));
    let last = text(&lines[lines.len() - 1]);
    assert!(last.starts_with(" Enabled: "));
    assert!(last.contains(&format!(" of {} rule(s)", app.rules.len())));
    assert_eq!(cssforge::screens::scroll_offset(5, 10), 0);
    assert_eq!(cssforge::screens::scroll_offset(12, 10), 3);
    assert_eq!(cssforge::screens::scroll_offset(3, 0), 0);
}

#[test]
fn done_screen_reports_where_files_went() {
    let (mut app, _) = new_app(".a { color: red; }");
    app.finish_apply(Some((1, vec![one_result()], Vec::new())));
    let lines = cssforge::screens::done_screen(&app);
    let text = |l: &Vec<cssforge::screens::Piece>| l.iter().map(|p| p.text.clone()).collect::<String>();
    assert_eq!(text(&lines[1]), "  ✓ SUCCESS: Modernization Complete! Transformed 1 file(s).  ");
    assert_eq!(text(&lines[3]), format!(" Output Mode: {}  ·  Files Processed: 1", app.output_mode.label()));
    assert_eq!(text(&lines[5]), " Transformed Files:");
    assert_eq!(text(&lines[6]), "   • test.css  ➔  cssforge-out/test.css");
}

#[test]
fn header_footer_and_files_screens() {
    let (mut app, sources) = new_app(".btn { color: red; }\n.btn:hover { color: blue; }\n");
    let text = |l: &Vec<cssforge::screens::Piece>| l.iter().map(|p| p.text.clone()).collect::<String>();
    let header = cssforge::screens::header_screen(&app);
    assert_eq!(
        text(&header[0]),
        " CSSForge   ▶ 1: Select Files ➔ ○ 2: Select Rules ➔ ○ 3: Output Settings ➔ ○ 4: Done"
    );
    assert!(text(&header[1]).starts_with("Root: root  │  Files: 1/1  │  Rules: "));
    let footer = cssforge::screens::footer_screen(&app);
    assert_eq!(
        text(&footer[0]),
        "[Enter] Next: Rules ➔   [Space] Toggle   [a] Select All   [↑↓/jk] Move   [q] Quit"
    );
    assert_eq!(text(&footer[1]), "Select CSS files to modernize, then press [Enter] to continue.");
    let files = cssforge::screens::files_screen(&app);
    assert_eq!(text(&files[2]), " [x] test.css");
    assert_eq!(text(&files[4]), " Selected: 1 of 1 file(s)  ·  Press [ENTER] to proceed to Rules ➔");
    app.handle_key(Key::Char('3'));
    app.analyze(&sources);
    app.handle_key(Key::Char('d'));
    let list = cssforge::screens::plan_list_screen(&app);
    assert!(text(&list[0]).starts_with(" [x] SAFE     test.css  "));
    let (diff, title) = cssforge::screens::diff_screen(&app);
    assert!(!diff.is_empty());
    let title: String = title.into_iter().collect();
    assert!(title.starts_with(" Diff T-000001 · SAFE · "));
}
