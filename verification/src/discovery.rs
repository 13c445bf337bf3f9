use crate::text::{chars_of, ends_with, lower, lower_range};
use vstd::prelude::*;

verus! {

/// Directory names that discovery never descends into (compared ASCII case-insensitively).
pub open spec fn ignored_dirs() -> Seq<Seq<char>> {
    seq![
        "node_modules"@,
        "target"@,
        "dist"@,
        "build"@,
        "out"@,
        ".next"@,
        ".nuxt"@,
        ".turbo"@,
        ".svelte-kit"@,
        "vendor"@,
        ".git"@,
        ".hg"@,
        ".svn"@,
        ".cache"@,
    ]
}

/// File-name endings of generated or backup stylesheets.
pub open spec fn ignored_suffixes() -> Seq<Seq<char>> {
    seq![
        ".modern.css"@,
        ".min.css"@,
        ".bak.css"@,
        ".backup.css"@,
        ".bundle.css"@,
        ".chunk.css"@,
        ".map.css"@,
    ]
}

fn ignored_dir_list() -> (r: Vec<&'static str>)
    ensures
        r@.len() == ignored_dirs().len(),
        forall|k: int| 0 <= k < r@.len() ==> (#[trigger] r@[k])@ == ignored_dirs()[k],
{
    let v: Vec<&'static str> = vec![
        "node_modules",
        "target",
        "dist",
        "build",
        "out",
        ".next",
        ".nuxt",
        ".turbo",
        ".svelte-kit",
        "vendor",
        ".git",
        ".hg",
        ".svn",
        ".cache",
    ];
    v
}

fn ignored_suffix_list() -> (r: Vec<&'static str>)
    ensures
        r@.len() == ignored_suffixes().len(),
        forall|k: int| 0 <= k < r@.len() ==> (#[trigger] r@[k])@ == ignored_suffixes()[k],
{
    let v: Vec<&'static str> = vec![
        ".modern.css",
        ".min.css",
        ".bak.css",
        ".backup.css",
        ".bundle.css",
        ".chunk.css",
        ".map.css",
    ];
    v
}

/// Whether `name` is one of the ignored directory names, ignoring ASCII case.
pub open spec fn is_ignored_dir_spec(name: Seq<char>) -> bool {
    exists|k: int| 0 <= k < ignored_dirs().len() && lower(name) == lower(#[trigger] ignored_dirs()[k])
}

/// Whether a directory named `name` is skipped by discovery.
pub fn is_ignored_dir(name: &str) -> (r: bool)
    ensures
        r == is_ignored_dir_spec(name@),
{
    let dirs = ignored_dir_list();
    let nc = chars_of(name);
    let nl = lower_range(nc.as_slice(), 0, nc.len());
    proof {
        assert(nc@.subrange(0, nc@.len() as int) =~= nc@);
    }
    let mut k: usize = 0;
    while k < dirs.len()
        invariant
            k <= dirs@.len(),
            dirs@.len() == ignored_dirs().len(),
            forall|j: int| 0 <= j < dirs@.len() ==> (#[trigger] dirs@[j])@ == ignored_dirs()[j],
            nl@ == lower(name@),
            forall|j: int| 0 <= j < k ==> lower(name@) != lower(#[trigger] ignored_dirs()[j]),
        decreases dirs.len() - k,
    {
        let d = chars_of(dirs[k]);
        let dl = lower_range(d.as_slice(), 0, d.len());
        proof {
            assert(d@.subrange(0, d@.len() as int) =~= d@);
        }
        if crate::text::chars_eq(nl.as_slice(), dl.as_slice()) {
            assert(lower(name@) == lower(ignored_dirs()[k as int]));
            return true;
        }
        k = k + 1;
    }
    false
}

/// The parts of a path between `/` separators, without empty parts and `.`.
pub open spec fn components(p: Seq<char>) -> Seq<Seq<char>>
    decreases p.len(),
{
    match crate::text::find(p, seq!['/']) {
        Some(k) => {
            proof {
                crate::text::lemma_find_sound(p, seq!['/']);
            }
            keep_component(p.take(k)) + components(p.skip(k + 1))
        },
        None => keep_component(p),
    }
}

pub open spec fn keep_component(c: Seq<char>) -> Seq<Seq<char>> {
    if c.len() == 0 || c == seq!['.'] {
        seq![]
    } else {
        seq![c]
    }
}

/// The last component, unless it is `..`.
pub open spec fn file_name(p: Seq<char>) -> Option<Seq<char>> {
    let cs = components(p);
    if cs.len() == 0 || cs.last() == seq!['.', '.'] {
        None
    } else {
        Some(cs.last())
    }
}

/// The extension of a file name: what follows its last `.`, unless that dot opens the name.
pub open spec fn extension(name: Seq<char>) -> Option<Seq<char>> {
    match crate::text::rfind_char(name, '.') {
        Some(k) => if k == 0 {
            None
        } else {
            Some(name.skip(k + 1))
        },
        None => None,
    }
}

/// What `str::to_lowercase` gives for `s`.
pub uninterp spec fn to_lowercase_text(s: Seq<char>) -> Seq<char>;

/// `str::to_lowercase`: the Unicode lower-case mapping of each character. Only the name of
/// the result is stated; std's mapping tables are not restated here.
#[verifier::external_body]
fn to_lowercase(s: &str) -> (r: String)
    ensures
        r@ == to_lowercase_text(s@),
{
    s.to_lowercase()
}

/// Whether discovery keeps a file: a `.css` extension (any ASCII case), a lower-cased name
/// that does not end in one of the generated suffixes, and no component that is an ignored
/// directory.
pub open spec fn eligible_spec(p: Seq<char>) -> bool {
    match file_name(p) {
        Some(name) => match extension(name) {
            Some(ext) => lower(ext) == "css"@ && (forall|k: int| 0 <= k < ignored_suffixes().len() ==> !ends_with(
                to_lowercase_text(name),
                #[trigger] ignored_suffixes()[k],
            )) && (forall|c: int| 0 <= c < components(p).len() ==> !is_ignored_dir_spec(#[trigger] components(p)[c])),
            None => false,
        },
        None => false,
    }
}

/// The components of `p`, as character vectors.
fn components_exec(p: &[char]) -> (r: Vec<Vec<char>>)
    ensures
        crate::text::texts(r@) == components(p@),
{
    let mut out: Vec<Vec<char>> = Vec::new();
    let mut start: usize = 0;
    let ghost want = components(p@);
    proof {
        assert(p@.skip(0) =~= p@);
    }
    loop
        invariant
            start <= p@.len(),
            want == components(p@),
            want == crate::text::texts(out@) + components(p@.skip(start as int)),
        decreases p@.len() - start,
    {
        let slash = ['/'];
        assert(slash@ == seq!['/']);
        let ghost rest = p@.skip(start as int);
        proof {
            assert(p@.subrange(start as int, p@.len() as int) =~= rest);
            crate::text::lemma_find_sound(rest, seq!['/']);
        }
        let f = crate::text::find_in(p, start, p.len(), &slash);
        let end = match f {
            Some(k) => k,
            None => p.len(),
        };
        let c = crate::selector::copy_range(p, start, end);
        let keep = !(c.len() == 0 || (c.len() == 1 && c[0] == '.'));
        proof {
            if c@.len() == 1 && c@[0] == '.' {
                assert(c@ =~= seq!['.']);
            }
            if c@ == seq!['.'] {
                assert(c@.len() == 1);
            }
        }
        let ghost before = out@;
        if keep {
            out.push(c);
            proof {
                assert(crate::text::texts(out@) =~= crate::text::texts(before) + seq![c@]);
            }
        } else {
            proof {
                assert(crate::text::texts(out@) =~= crate::text::texts(before) + seq![]);
            }
        }
        match f {
            Some(k) => {
                proof {
                    assert(rest.take(k - start) =~= c@);
                    assert(rest.skip(k - start + 1) =~= p@.skip(k + 1));
                    assert(crate::text::texts(out@) + components(p@.skip(k + 1)) =~= crate::text::texts(before)
                        + keep_component(c@) + components(p@.skip(k + 1)));
                }
                start = k + 1;
            },
            None => {
                proof {
                    assert(rest =~= c@);
                    assert(crate::text::texts(out@) =~= crate::text::texts(before) + keep_component(c@));
                }
                return out;
            },
        }
    }
}

/// Whether discovery keeps the file at `path`.
pub fn is_eligible_css_file(path: &str) -> (r: bool)
    ensures
        r == eligible_spec(path@),
{
    let p = chars_of(path);
    let comps = components_exec(p.as_slice());
    let ghost cs = components(p@);
    if comps.len() == 0 {
        return false;
    }
    let last = &comps[comps.len() - 1];
    assert(cs.last() == last@);
    let dd = ['.', '.'];
    if crate::text::chars_eq(last.as_slice(), &dd) {
        assert(dd@ == seq!['.', '.']);
        return false;
    }
    assert(dd@ == seq!['.', '.']);
    proof {
        assert(last@.subrange(0, last@.len() as int) =~= last@);
        crate::text::lemma_rfind_char_sound(last@, '.');
    }
    let dot = match crate::text::rfind_char_in(last.as_slice(), 0, last.len(), '.') {
        Some(k) => k,
        None => {
            return false;
        },
    };
    if dot == 0 {
        return false;
    }
    let ext = crate::selector::copy_range(last.as_slice(), dot + 1, last.len());
    let ext_l = lower_range(ext.as_slice(), 0, ext.len());
    let css = chars_of("css");
    proof {
        assert(ext@ =~= last@.skip(dot + 1));
        assert(ext@.subrange(0, ext@.len() as int) =~= ext@);
    }
    if !crate::text::chars_eq(ext_l.as_slice(), css.as_slice()) {
        return false;
    }
    let name_s = crate::text::string_of(last.as_slice());
    let lowered = to_lowercase(name_s.as_str());
    let lc = chars_of(lowered.as_str());
    let sufs = ignored_suffix_list();
    assert(file_name(p@) == Some(last@));
    assert(extension(last@) == Some(ext@));
    assert(lower(ext@) == "css"@);
    let mut k: usize = 0;
    while k < sufs.len()
        invariant
            k <= sufs@.len(),
            sufs@.len() == ignored_suffixes().len(),
            forall|j: int| 0 <= j < sufs@.len() ==> (#[trigger] sufs@[j])@ == ignored_suffixes()[j],
            lc@ == to_lowercase_text(last@),
            p@ == path@,
            file_name(p@) == Some(last@),
            extension(last@) == Some(ext@),
            lower(ext@) == "css"@,
            forall|j: int| 0 <= j < k ==> !ends_with(to_lowercase_text(last@), #[trigger] ignored_suffixes()[j]),
        decreases sufs.len() - k,
    {
        let sc = chars_of(sufs[k]);
        let e = crate::text::ends_with_at(lc.as_slice(), 0, lc.len(), sc.as_slice());
        proof {
            assert(lc@.subrange(0, lc@.len() as int) =~= lc@);
        }
        if e {
            assert(ends_with(to_lowercase_text(last@), ignored_suffixes()[k as int]));
            return false;
        }
        k = k + 1;
    }
    let mut c: usize = 0;
    while c < comps.len()
        invariant
            c <= comps@.len(),
            cs == crate::text::texts(comps@),
            cs == components(p@),
            p@ == path@,
            file_name(p@) == Some(last@),
            extension(last@) == Some(ext@),
            lower(ext@) == "css"@,
            forall|j: int| 0 <= j < ignored_suffixes().len() ==> !ends_with(to_lowercase_text(last@), #[trigger] ignored_suffixes()[j]),
            forall|j: int| 0 <= j < c ==> !is_ignored_dir_spec(#[trigger] cs[j]),
        decreases comps.len() - c,
    {
        let cstr = crate::text::string_of(comps[c].as_slice());
        assert(cs[c as int] == comps@[c as int]@);
        if is_ignored_dir(cstr.as_str()) {
            assert(is_ignored_dir_spec(cs[c as int]));
            return false;
        }
        c = c + 1;
    }
    true
}

} // verus!
