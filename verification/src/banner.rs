use vstd::prelude::*;

verus! {

/// Which wordmark fits a viewport of a given width.
#[derive(Debug, Clone, Copy, PartialEq, Eq, Structural)]
pub enum BannerArt {
    Wide,
    Compact,
    Mini,
}

pub open spec fn art_spec(width: u16) -> Option<BannerArt> {
    if width >= 82 {
        Some(BannerArt::Wide)
    } else if width >= 54 {
        Some(BannerArt::Compact)
    } else if width >= 42 {
        Some(BannerArt::Mini)
    } else {
        None
    }
}

/// The rows of each wordmark.
pub open spec fn art_text(a: BannerArt) -> Seq<&'static str> {
    match a {
        BannerArt::Wide => seq![
            "  ██████╗  ███████╗  ███████╗   ███████╗   ██████╗   ██████╗   ██████╗  ███████╗",
            " ██╔════╝  ██╔════╝  ██╔════╝   ██╔════╝  ██╔═══██╗ ██╔═══██╗ ██╔════╝  ██╔════╝",
            " ██║       ███████╗  ███████╗   █████╗    ██║   ██║ ██████╔╝  ██║  ███╗ █████╗  ",
            " ██║       ╚════██║  ╚════██║   ██╔══╝    ██║   ██║ ██╔══██╗  ██║   ██║ ██╔══╝  ",
            " ╚██████╗  ███████║  ███████║   ██║       ╚██████╔╝ ██║  ╚██╗ ╚██████╔╝ ███████╗",
            "  ╚═════╝  ╚══════╝  ╚══════╝   ╚═╝        ╚═════╝   ╚═╝  ╚═╝  ╚═════╝  ╚══════╝",
        ],
        BannerArt::Compact => seq![
            "   ________________ __________  ____  ____________",
            "  / ____/ ___/ ___// ____/ __ \\/ __ \\/ ____/ ____/",
            " / /    \\__ \\\\__ \\/ /_  / / / / /_/ / / __/ __/   ",
            "/ /___ ___/ /__/ / __/ / /_/ / _, _/ /_/ / /___   ",
            "\\____//____/____/_/    \\____/_/ |_|\\____/_____/   ",
        ],
        BannerArt::Mini => seq![
            "  _____________________  ___  _________",
            " / ___/ __/ __/ __/ __ \\/ _ \\/ ___/ __/",
            "/ /___\\ \\_\\ \\/ _// /_/ / , _/ (_ / _/  ",
            "\\___/___/___/_/  \\____/_/|_|\\___/___/  ",
        ],
    }
}

/// The wide wordmark (about 79 columns).
pub fn banner_wide() -> (r: Vec<&'static str>)
    ensures
        r@ == art_text(BannerArt::Wide),
{
    let mut v: Vec<&'static str> = Vec::new();
    v.push("  ██████╗  ███████╗  ███████╗   ███████╗   ██████╗   ██████╗   ██████╗  ███████╗");
    v.push(" ██╔════╝  ██╔════╝  ██╔════╝   ██╔════╝  ██╔═══██╗ ██╔═══██╗ ██╔════╝  ██╔════╝");
    v.push(" ██║       ███████╗  ███████╗   █████╗    ██║   ██║ ██████╔╝  ██║  ███╗ █████╗  ");
    v.push(" ██║       ╚════██║  ╚════██║   ██╔══╝    ██║   ██║ ██╔══██╗  ██║   ██║ ██╔══╝  ");
    v.push(" ╚██████╗  ███████║  ███████║   ██║       ╚██████╔╝ ██║  ╚██╗ ╚██████╔╝ ███████╗");
    v.push("  ╚═════╝  ╚══════╝  ╚══════╝   ╚═╝        ╚═════╝   ╚═╝  ╚═╝  ╚═════╝  ╚══════╝");
    v
}

/// The compact wordmark (about 50 columns).
pub fn banner_compact() -> (r: Vec<&'static str>)
    ensures
        r@ == art_text(BannerArt::Compact),
{
    let mut v: Vec<&'static str> = Vec::new();
    v.push("   ________________ __________  ____  ____________");
    v.push("  / ____/ ___/ ___// ____/ __ \\/ __ \\/ ____/ ____/");
    v.push(" / /    \\__ \\\\__ \\/ /_  / / / / /_/ / / __/ __/   ");
    v.push("/ /___ ___/ /__/ / __/ / /_/ / _, _/ /_/ / /___   ");
    v.push("\\____//____/____/_/    \\____/_/ |_|\\____/_____/   ");
    v
}

/// The small wordmark (about 39 columns).
pub fn banner_mini() -> (r: Vec<&'static str>)
    ensures
        r@ == art_text(BannerArt::Mini),
{
    let mut v: Vec<&'static str> = Vec::new();
    v.push("  _____________________  ___  _________");
    v.push(" / ___/ __/ __/ __/ __ \\/ _ \\/ ___/ __/");
    v.push("/ /___\\ \\_\\ \\/ _// /_/ / , _/ (_ / _/  ");
    v.push("\\___/___/___/_/  \\____/_/|_|\\___/___/  ");
    v
}

/// The line under the wordmark.
pub fn tagline() -> (r: &'static str)
    ensures
        r == "  Forward semantic CSS modernization  ·  nest  ·  refactor  ·  review",
{
    "  Forward semantic CSS modernization  ·  nest  ·  refactor  ·  review"
}

/// Which wordmark fits a width: wide from 82 columns, compact from 54, small from 42,
/// none below.
pub fn art_kind(width: u16) -> (r: Option<BannerArt>)
    ensures
        r == art_spec(width),
{
    if width >= 82 {
        Some(BannerArt::Wide)
    } else if width >= 54 {
        Some(BannerArt::Compact)
    } else if width >= 42 {
        Some(BannerArt::Mini)
    } else {
        None
    }
}

/// The rows of the wordmark that fits `width`, if one does.
pub fn art_for_width(width: u16) -> (r: Option<Vec<&'static str>>)
    ensures
        match art_spec(width) {
            Some(a) => r matches Some(v) && v@ == art_text(a),
            None => r is None,
        },
{
    match art_kind(width) {
        Some(BannerArt::Wide) => Some(banner_wide()),
        Some(BannerArt::Compact) => Some(banner_compact()),
        Some(BannerArt::Mini) => Some(banner_mini()),
        None => None,
    }
}

/// Rows the banner takes (art, tagline, a blank line); one row of art when no wordmark fits.
pub open spec fn needed_rows(width: u16) -> nat {
    match art_spec(width) {
        Some(a) => art_text(a).len() + 2,
        None => 3,
    }
}

/// Rows used by the banner block, or 0 when fewer than six rows would be left under it.
pub fn reserved_height(width: u16, available: u16) -> (r: u16)
    ensures
        r == (if available < needed_rows(width) + 6 {
            0
        } else {
            needed_rows(width)
        }),
{
    let art_rows: u16 = match art_kind(width) {
        Some(BannerArt::Wide) => 6,
        Some(BannerArt::Compact) => 5,
        Some(BannerArt::Mini) => 4,
        None => 1,
    };
    let needed = art_rows + 2;
    if available < needed + 6 {
        0
    } else {
        needed
    }
}

} // verus!
