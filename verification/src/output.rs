use crate::model::OutputMode;
use vstd::prelude::*;
use vstd::string::*;

verus! {

/// Where and how results are written.
#[derive(Debug)]
pub struct OutputOptions {
    pub mode: OutputMode,
    pub root: String,
    pub out_dir: Option<String>,
    pub suffix: String,
}

impl Default for OutputOptions {
    /// A dry run from the current directory, naming new files `*.modern.css`.
    fn default() -> (r: Self)
        ensures
            r.mode == OutputMode::DryRun,
            r.root@ == "."@,
            r.out_dir is None,
            r.suffix@ == ".modern.css"@,
    {
        OutputOptions {
            mode: OutputMode::DryRun,
            root: String::from_str("."),
            out_dir: None,
            suffix: String::from_str(".modern.css"),
        }
    }
}

/// Whether writing in mode `mode` overwrites the source files, which a headless run does only
/// when told so explicitly.
pub fn is_destructive(mode: OutputMode) -> (r: bool)
    ensures
        r == (mode == OutputMode::Overwrite || mode == OutputMode::OverwriteWithBackup),
{
    match mode {
        OutputMode::Overwrite | OutputMode::OverwriteWithBackup => true,
        _ => false,
    }
}

/// What writing one transformed file did.
#[derive(Debug)]
pub struct WriteResult {
    pub mode: OutputMode,
    pub source: String,
    pub written: Option<String>,
    pub backup: Option<String>,
    pub stdout: Option<String>,
    pub message: String,
}

/// The result of a write that produced `target`.
pub fn written(mode: OutputMode, source: &str, target: String, backup: Option<String>, message: &str) -> (r: WriteResult)
    ensures
        r.mode == mode,
        r.source@ == source@,
        r.written matches Some(t) && t@ == target@,
        r.backup == backup,
        r.stdout is None,
        r.message@ == message@,
{
    WriteResult {
        mode,
        source: String::from_str(source),
        written: Some(target),
        backup,
        stdout: None,
        message: String::from_str(message),
    }
}

// ---------------------------------------------------------------------------
// Paths, as `std::path::Path` takes them apart and puts them together
// ---------------------------------------------------------------------------

/// What `Path::strip_prefix` leaves of `path` after the leading components `root`, shown with
/// `Path::display`; none where `root` is not a prefix of `path`.
pub uninterp spec fn strip_prefix_text(path: Seq<char>, root: Seq<char>) -> Option<Seq<char>>;

/// `path` relative to `root` (`Path::strip_prefix`), or none where `root` is not one of its
/// leading components. Only the name of the result is stated: std's rules for comparing path
/// components are not restated here.
#[verifier::external_body]
pub(crate) fn strip_prefix_of(path: &str, root: &str) -> (r: Option<String>)
    ensures
        match r {
            Some(t) => strip_prefix_text(path@, root@) == Some(t@),
            None => strip_prefix_text(path@, root@) is None,
        },
{
    match std::path::Path::new(path).strip_prefix(root) {
        Ok(rest) => Some(rest.display().to_string()),
        Err(_) => None,
    }
}

/// What `Path::file_stem` gives of `path` (its last component without the extension), where
/// there is one and it is valid text.
pub uninterp spec fn file_stem_text(path: Seq<char>) -> Option<Seq<char>>;

/// The stem of the last component of `path` (`Path::file_stem`). Only the name of the result
/// is stated.
#[verifier::external_body]
fn file_stem_of(path: &str) -> (r: Option<String>)
    ensures
        match r {
            Some(t) => file_stem_text(path@) == Some(t@),
            None => file_stem_text(path@) is None,
        },
{
    match std::path::Path::new(path).file_stem() {
        Some(stem) => match stem.to_str() {
            Some(text) => Some(text.to_string()),
            None => None,
        },
        None => None,
    }
}

/// What `Path::file_name` gives of `path` (its last component), where there is one and it is
/// valid text.
pub uninterp spec fn file_name_text(path: Seq<char>) -> Option<Seq<char>>;

/// The last component of `path` (`Path::file_name`). Only the name of the result is stated.
#[verifier::external_body]
fn file_name_of(path: &str) -> (r: Option<String>)
    ensures
        match r {
            Some(t) => file_name_text(path@) == Some(t@),
            None => file_name_text(path@) is None,
        },
{
    match std::path::Path::new(path).file_name() {
        Some(name) => match name.to_str() {
            Some(text) => Some(text.to_string()),
            None => None,
        },
        None => None,
    }
}

/// What `Path::with_file_name` makes of `path` with its last component replaced by `name`,
/// shown with `Path::display`.
pub uninterp spec fn with_file_name_text(path: Seq<char>, name: Seq<char>) -> Seq<char>;

/// `path` with its last component replaced by `name` (`Path::with_file_name`). Only the name of
/// the result is stated.
#[verifier::external_body]
fn with_file_name(path: &str, name: &str) -> (r: String)
    ensures
        r@ == with_file_name_text(path@, name@),
{
    std::path::Path::new(path).with_file_name(name).display().to_string()
}

/// What `Path::join` makes of `base` followed by `rest`, shown with `Path::display`.
pub uninterp spec fn join_text(base: Seq<char>, rest: Seq<char>) -> Seq<char>;

/// `rest` joined onto `base` (`Path::join`). Only the name of the result is stated.
#[verifier::external_body]
fn join_path(base: &str, rest: &str) -> (r: String)
    ensures
        r@ == join_text(base@, rest@),
{
    std::path::Path::new(base).join(rest).display().to_string()
}

// ---------------------------------------------------------------------------
// Where each output mode writes
// ---------------------------------------------------------------------------

/// The sibling that a new file goes to: the source's stem (`styles` where it has none) followed
/// by `suffix`.
pub open spec fn modern_path_text(path: Seq<char>, suffix: Seq<char>) -> Seq<char> {
    let stem = match file_stem_text(path) {
        Some(st) => st,
        None => "styles"@,
    };
    with_file_name_text(path, stem + suffix)
}

/// The source's file name (`styles.css` where it has none).
pub open spec fn file_name_or_default(path: Seq<char>) -> Seq<char> {
    match file_name_text(path) {
        Some(n) => n,
        None => "styles.css"@,
    }
}

/// The sibling that the backup of the source goes to: its file name followed by `.bak`.
pub open spec fn backup_path_text(path: Seq<char>) -> Seq<char> {
    with_file_name_text(path, file_name_or_default(path) + ".bak"@)
}

/// The sibling that the patch goes to: the source's file name followed by `.patch`.
pub open spec fn patch_path_text(path: Seq<char>) -> Seq<char> {
    with_file_name_text(path, file_name_or_default(path) + ".patch"@)
}

/// Where a file goes in the output directory: under `out_dir` (`cssforge-out` under the root
/// where none is given), at its place relative to the root, or by its file name where it lies
/// outside the root.
pub open spec fn out_dir_target(root: Seq<char>, out_dir: Option<Seq<char>>, path: Seq<char>) -> Seq<char> {
    let base = match out_dir {
        Some(d) => d,
        None => join_text(root, "cssforge-out"@),
    };
    let rel = match strip_prefix_text(path, root) {
        Some(r) => r,
        None => file_name_or_default(path),
    };
    join_text(base, rel)
}

pub open spec fn opt_view(o: Option<String>) -> Option<Seq<char>> {
    match o {
        Some(t) => Some(t@),
        None => None,
    }
}

fn copy_opt(o: &Option<String>) -> (r: Option<String>)
    ensures
        opt_view(r) == opt_view(*o),
{
    match o {
        Some(t) => Some(t.clone()),
        None => None,
    }
}

/// What writing `transformed` for the source `path` (whose text was `original`) amounts to,
/// without touching any file: the file to write and its contents, the file to copy the source
/// to first, and the result to report.
///
/// A dry run writes nothing; stdout mode hands the text back; a new file goes next to the
/// source under the suffix; the output directory mirrors the source's place under the root;
/// overwriting writes the source itself, after a `.bak` copy where asked; a patch is the
/// unified diff from the source to `<path>.modern`, next to the source as `.patch`.
pub fn write_plan(path: &str, original: &str, transformed: &str, options: &OutputOptions) -> (r: (
    Option<(String, String)>,
    Option<String>,
    WriteResult,
))
    ensures
        r.2.mode == options.mode,
        r.2.source@ == path@,
        r.2.written is Some <==> r.0 is Some,
        r.0 matches Some((t, _)) ==> r.2.written matches Some(w) && w@ == t@,
        opt_view(r.2.backup) == opt_view(r.1),
        options.mode == OutputMode::DryRun ==> r.0 is None && r.1 is None && r.2.stdout is None && r.2.message@
            == "dry run: no file written"@,
        options.mode == OutputMode::Stdout ==> r.0 is None && r.1 is None && (r.2.stdout matches Some(t) && t@
            == transformed@) && r.2.message@ == "transformed CSS returned for stdout"@,
        options.mode == OutputMode::NewFile ==> r.1 is None && r.2.stdout is None && (r.0 matches Some((t, c)) && t@
            == modern_path_text(path@, options.suffix@) && c@ == transformed@) && r.2.message@ == "modernized file written"@,
        options.mode == OutputMode::OutDir ==> r.1 is None && r.2.stdout is None && (r.0 matches Some((t, c)) && t@
            == out_dir_target(options.root@, opt_view(options.out_dir), path@) && c@ == transformed@) && r.2.message@
            == "file written to output directory"@,
        options.mode == OutputMode::Overwrite ==> r.1 is None && r.2.stdout is None && (r.0 matches Some((t, c)) && t@
            == path@ && c@ == transformed@) && r.2.message@ == "source overwritten"@,
        options.mode == OutputMode::OverwriteWithBackup ==> r.2.stdout is None && (r.1 matches Some(b) && b@
            == backup_path_text(path@)) && (r.0 matches Some((t, c)) && t@ == path@ && c@ == transformed@)
            && r.2.message@ == "source overwritten after backup"@,
        options.mode == OutputMode::Patch ==> r.1 is None && r.2.stdout is None && (r.0 matches Some((t, c)) && t@
            == patch_path_text(path@) && c@ == crate::analysis::unified_diff_text(
            original@,
            transformed@,
            path@,
            path@ + ".modern"@,
        )) && r.2.message@ == "unified patch written"@,
{
    let mode = options.mode;
    match mode {
        OutputMode::DryRun => (None, None, WriteResult {
            mode,
            source: String::from_str(path),
            written: None,
            backup: None,
            stdout: None,
            message: String::from_str("dry run: no file written"),
        }),
        OutputMode::Stdout => (None, None, WriteResult {
            mode,
            source: String::from_str(path),
            written: None,
            backup: None,
            stdout: Some(String::from_str(transformed)),
            message: String::from_str("transformed CSS returned for stdout"),
        }),
        OutputMode::NewFile => {
            let stem = match file_stem_of(path) {
                Some(st) => st,
                None => String::from_str("styles"),
            };
            let mut name = crate::text::chars_of(stem.as_str());
            let tail = crate::text::chars_of(options.suffix.as_str());
            name.extend_from_slice(tail.as_slice());
            let name_s = crate::text::string_of(name.as_slice());
            assert(name_s@ == (match file_stem_text(path@) {
                Some(st) => st,
                None => "styles"@,
            }) + options.suffix@);
            let target = with_file_name(path, name_s.as_str());
            let res = written(mode, path, target.clone(), None, "modernized file written");
            (Some((target, String::from_str(transformed))), None, res)
        },
        OutputMode::OutDir => {
            let base = match &options.out_dir {
                Some(d) => d.clone(),
                None => join_path(options.root.as_str(), "cssforge-out"),
            };
            let rel = match strip_prefix_of(path, options.root.as_str()) {
                Some(r) => r,
                None => file_name_or_styles(path),
            };
            let target = join_path(base.as_str(), rel.as_str());
            let res = written(mode, path, target.clone(), None, "file written to output directory");
            (Some((target, String::from_str(transformed))), None, res)
        },
        OutputMode::Overwrite => {
            let target = String::from_str(path);
            let res = written(mode, path, target.clone(), None, "source overwritten");
            (Some((target, String::from_str(transformed))), None, res)
        },
        OutputMode::OverwriteWithBackup => {
            let backup = sibling_with(path, ".bak");
            let target = String::from_str(path);
            let res = written(mode, path, target.clone(), Some(backup.clone()), "source overwritten after backup");
            (Some((target, String::from_str(transformed))), Some(backup), res)
        },
        OutputMode::Patch => {
            let target = sibling_with(path, ".patch");
            assert(target@ == patch_path_text(path@));
            let mut new_name = crate::text::chars_of(path);
            let tail = crate::text::chars_of(".modern");
            new_name.extend_from_slice(tail.as_slice());
            let new_s = crate::text::string_of(new_name.as_slice());
            assert(new_s@ == path@ + ".modern"@);
            let diff = crate::analysis::unified_diff(original, transformed, path, new_s.as_str());
            let res = written(mode, path, target.clone(), None, "unified patch written");
            (Some((target, diff)), None, res)
        },
    }
}

/// The file name of `path`, or `styles.css` where it has none.
fn file_name_or_styles(path: &str) -> (r: String)
    ensures
        r@ == file_name_or_default(path@),
{
    match file_name_of(path) {
        Some(n) => n,
        None => String::from_str("styles.css"),
    }
}

/// `path` with its file name followed by `ext` in place of its file name.
fn sibling_with(path: &str, ext: &str) -> (r: String)
    ensures
        r@ == with_file_name_text(path@, file_name_or_default(path@) + ext@),
{
    let name = file_name_or_styles(path);
    let mut full = crate::text::chars_of(name.as_str());
    let tail = crate::text::chars_of(ext);
    full.extend_from_slice(tail.as_slice());
    let full_s = crate::text::string_of(full.as_slice());
    assert(full_s@ == file_name_or_default(path@) + ext@);
    with_file_name(path, full_s.as_str())
}

/// What applying the selected plans `plans` (review plans too where `include_review` holds)
/// makes of `original`, where that differs from `original`: a file whose text does not change
/// is not written.
pub fn changed_text(original: &str, plans: &[crate::model::PlanEntry], include_review: bool) -> (r: Option<String>)
    ensures
        match r {
            Some(t) => t@ == crate::plan::applied(original@, crate::plan::plans_view(plans@), include_review) && t@
                != original@,
            None => crate::plan::applied(original@, crate::plan::plans_view(plans@), include_review) == original@,
        },
{
    match crate::plan::apply_selected_plans(original, plans, include_review) {
        Ok(t) => {
            let a = crate::text::chars_of(t.as_str());
            let b = crate::text::chars_of(original);
            if crate::text::chars_eq(a.as_slice(), b.as_slice()) {
                None
            } else {
                Some(t)
            }
        },
        Err(_) => None,
    }
}

/// The text that goes to stdout for a written file: its transformed CSS under a `/* path */`
/// comment, where the write handed the text back.
pub fn stdout_entry(path: &str, result: &WriteResult) -> (r: Option<String>)
    ensures
        match result.stdout {
            Some(text) => r matches Some(t) && t@ == "/* "@ + path@ + " */\n"@ + text@,
            None => r is None,
        },
{
    match &result.stdout {
        Some(text) => {
            let mut v = crate::text::chars_of("/* ");
            v.extend_from_slice(crate::text::chars_of(path).as_slice());
            v.extend_from_slice(crate::text::chars_of(" */\n").as_slice());
            v.extend_from_slice(crate::text::chars_of(text.as_str()).as_slice());
            Some(crate::text::string_of(v.as_slice()))
        },
        None => None,
    }
}

} // verus!
