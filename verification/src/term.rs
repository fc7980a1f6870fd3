//! Decisions the terminal front end makes: whether the terminal shows true
//! color, and which entries the file pickers list.

use vstd::prelude::*;
use crate::path::{components, components_spec, file_name_spec, starts_with_spec, text_eq};
use crate::walk::{WalkEntry, WalkEntryView};

verus! {

/// The extended capabilities of a terminfo entry that tell of 24-bit color.
#[derive(Debug, Clone, Copy, PartialEq, Eq, Structural)]
pub struct TermCaps {
    /// `RGB` is listed.
    pub rgb: bool,
    /// `Tc` is listed.
    pub tc: bool,
    /// `setrgbf` is listed.
    pub setrgbf: bool,
    /// `setrgbb` is listed.
    pub setrgbb: bool,
}

pub open spec fn true_color_spec(
    colorterm: Option<Seq<char>>,
    wsl: bool,
    terminfo: Option<TermCaps>,
) -> bool {
    if (colorterm matches Some(v) && (v == "truecolor"@ || v == "24bit"@)) || wsl {
        true
    } else {
        match terminfo {
            Some(t) => t.rgb || t.tc || (t.setrgbf && t.setrgbb),
            None => false,
        }
    }
}

/// Whether the terminal shows 24-bit color: `colorterm` is the value of
/// `COLORTERM` if it is set, `wsl` tells whether `WSL_DISTRO_NAME` is set,
/// and `terminfo` gives the terminal's capabilities when its terminfo entry
/// could be read.
pub fn true_color(colorterm: Option<&str>, wsl: bool, terminfo: Option<TermCaps>) -> (r: bool)
    ensures
        r == true_color_spec(
            match colorterm {
                Some(v) => Some(v@),
                None => None,
            },
            wsl,
            terminfo,
        ),
{
    let named = match colorterm {
        Some(v) => text_eq(v, "truecolor") || text_eq(v, "24bit"),
        None => false,
    };
    if named || wsl {
        return true;
    }
    match terminfo {
        Some(t) => t.rgb || t.tc || (t.setrgbf && t.setrgbb),
        None => false,
    }
}

/// The directories of version control systems, which the pickers never list.
pub open spec fn is_vcs_dir(name: Seq<char>) -> bool {
    name == ".git"@ || name == ".pijul"@ || name == ".jj"@ || name == ".hg"@ || name == ".svn"@
}

/// The name of a walked entry, as [`WalkEntry::file_name`] gives it.
pub open spec fn entry_name(e: WalkEntryView) -> Seq<char> {
    match file_name_spec(components_spec(e.path)) {
        Some(n) => n,
        None => Seq::<char>::empty(),
    }
}

pub open spec fn filter_picker_entry_spec(
    e: WalkEntryView,
    root: Seq<char>,
    dedup_symlinks: bool,
    canonical: Option<Seq<char>>,
) -> bool {
    if is_vcs_dir(entry_name(e)) {
        false
    } else if dedup_symlinks && e.is_symlink {
        canonical matches Some(c) && !starts_with_spec(components_spec(c), components_spec(root))
    } else {
        true
    }
}

/// Whether a file picker lists `entry`, found under `root`.  Version
/// control directories are never listed.  With `dedup_symlinks`, a symlink
/// is listed only when it resolves outside `root`: `canonical` is its
/// resolved path, or `None` when it could not be resolved.
pub fn filter_picker_entry(
    entry: &WalkEntry,
    root: &str,
    dedup_symlinks: bool,
    canonical: Option<&str>,
) -> (r: bool)
    ensures
        r == filter_picker_entry_spec(
            entry@,
            root@,
            dedup_symlinks,
            match canonical {
                Some(c) => Some(c@),
                None => None,
            },
        ),
{
    let name = entry.file_name();
    let n = name.as_str();
    if text_eq(n, ".git") || text_eq(n, ".pijul") || text_eq(n, ".jj") || text_eq(n, ".hg")
        || text_eq(n, ".svn") {
        return false;
    }
    if dedup_symlinks && entry.path_is_symlink() {
        return match canonical {
            Some(c) => !components(c).starts_with(&components(root)),
            None => false,
        };
    }
    true
}

} // verus!
