//! Resolution of predefined directory aliases (`_home`, `_etc`, `_desktop`,
//! `_documents`, `_downloads`, `_config`) to concrete directory paths. The
//! table is built once; a platform directory that cannot be determined is
//! recorded as the empty path rather than failing.

use vstd::prelude::*;
use crate::text::str_eq;

verus! {

/// Relies on dirs::home_dir: the user's home directory, when the platform
/// reports one; the result depends on the process environment.
#[verifier::external_body]
fn home_dir_string() -> (r: Option<String>) {
    match dirs::home_dir() {
        Some(p) => Some(p.to_string_lossy().into_owned()),
        None => None,
    }
}

/// Relies on dirs::desktop_dir: the user's desktop directory, when the
/// platform reports one; the result depends on the process environment.
#[verifier::external_body]
fn desktop_dir_string() -> (r: Option<String>) {
    match dirs::desktop_dir() {
        Some(p) => Some(p.to_string_lossy().into_owned()),
        None => None,
    }
}

/// Relies on dirs::document_dir: the user's documents directory, when the
/// platform reports one; the result depends on the process environment.
#[verifier::external_body]
fn document_dir_string() -> (r: Option<String>) {
    match dirs::document_dir() {
        Some(p) => Some(p.to_string_lossy().into_owned()),
        None => None,
    }
}

/// Relies on dirs::download_dir: the user's downloads directory, when the
/// platform reports one; the result depends on the process environment.
#[verifier::external_body]
fn download_dir_string() -> (r: Option<String>) {
    match dirs::download_dir() {
        Some(p) => Some(p.to_string_lossy().into_owned()),
        None => None,
    }
}

/// Relies on dirs::config_dir: the user's configuration directory, when the
/// platform reports one; the result depends on the process environment.
#[verifier::external_body]
fn config_dir_string() -> (r: Option<String>) {
    match dirs::config_dir() {
        Some(p) => Some(p.to_string_lossy().into_owned()),
        None => None,
    }
}

/// Joining a relative component onto a base path: the component follows a
/// separator, except after an empty base or one that already ends in one.
pub open spec fn spec_join(base: Seq<char>, child: Seq<char>) -> Seq<char> {
    if base.len() == 0 {
        child
    } else if base.last() == '/' {
        base + child
    } else {
        base + seq!['/'] + child
    }
}

/// Appends a relative path component onto a base path.
pub fn join_path(base: &str, child: &str) -> (r: String)
    ensures
        r@ == spec_join(base@, child@),
{
    let blen = base.unicode_len();
    if blen == 0 {
        return String::from_str(child);
    }
    let mut out = String::from_str(base);
    if base.get_char(blen - 1) != '/' {
        proof {
            reveal_strlit("/");
            assert("/"@ =~= seq!['/']);
        }
        out.append("/");
    }
    out.append(child);
    proof {
        if base@.last() != '/' {
            assert(out@ =~= base@ + seq!['/'] + child@);
        }
    }
    out
}

/// The table of predefined directory aliases, resolved once at startup.
/// A field holds the empty path when the platform could not supply the
/// corresponding directory.
#[derive(Clone, Debug)]
pub struct PredefinedPaths {
    pub home_config: String,
    pub etc_dir: String,
    pub desktop: String,
    pub documents: String,
    pub downloads: String,
    pub config: String,
}

/// The looked-up directory when the platform supplied one, and the empty
/// path otherwise.
pub open spec fn opt_or_empty(o: Option<String>) -> Seq<char> {
    match o {
        Some(s) => s@,
        None => Seq::empty(),
    }
}

impl PredefinedPaths {
    /// Exact-key alias lookup: the six reserved keys map to their resolved
    /// directories, every other string to nothing.
    pub open spec fn spec_resolve(self, key: Seq<char>) -> Option<Seq<char>> {
        if key == "_home"@ {
            Some(self.home_config@)
        } else if key == "_etc"@ {
            Some(self.etc_dir@)
        } else if key == "_desktop"@ {
            Some(self.desktop@)
        } else if key == "_documents"@ {
            Some(self.documents@)
        } else if key == "_downloads"@ {
            Some(self.downloads@)
        } else if key == "_config"@ {
            Some(self.config@)
        } else {
            None
        }
    }

    /// Assembles the alias table from the five platform lookup results:
    /// `_home` is the home directory (empty when missing) joined with
    /// `.config`, `_etc` is always `/etc`, and each remaining alias is its
    /// looked-up directory when present and the empty path otherwise.
    pub fn from_lookups(
        home: Option<String>,
        desktop: Option<String>,
        documents: Option<String>,
        downloads: Option<String>,
        config: Option<String>,
    ) -> (r: PredefinedPaths)
        ensures
            r.home_config@ == spec_join(opt_or_empty(home), ".config"@),
            r.etc_dir@ == "/etc"@,
            r.desktop@ == opt_or_empty(desktop),
            r.documents@ == opt_or_empty(documents),
            r.downloads@ == opt_or_empty(downloads),
            r.config@ == opt_or_empty(config),
    {
        let home_base = match home {
            Some(h) => h,
            None => String::new(),
        };
        let home_config = join_path(home_base.as_str(), ".config");
        let desktop = match desktop {
            Some(d) => d,
            None => String::new(),
        };
        let documents = match documents {
            Some(d) => d,
            None => String::new(),
        };
        let downloads = match downloads {
            Some(d) => d,
            None => String::new(),
        };
        let config = match config {
            Some(d) => d,
            None => String::new(),
        };
        PredefinedPaths {
            home_config,
            etc_dir: String::from_str("/etc"),
            desktop,
            documents,
            downloads,
            config,
        }
    }

    /// Builds the alias table from the platform's directories: `_home` maps
    /// to the home directory's `.config` subdirectory, `_etc` always to
    /// `/etc`, and a directory the platform cannot supply becomes the empty
    /// path (see `from_lookups` for the exact assembly).
    pub fn new() -> (r: PredefinedPaths)
        ensures
            r.etc_dir@ == "/etc"@,
            exists|h: Seq<char>| r.home_config@ == spec_join(h, ".config"@),
    {
        PredefinedPaths::from_lookups(
            home_dir_string(),
            desktop_dir_string(),
            document_dir_string(),
            download_dir_string(),
            config_dir_string(),
        )
    }

    /// Looks the key up in the alias table; an unknown key yields nothing,
    /// which callers take as the cue to use the key as a literal path.
    /// A returned empty path means the platform could not supply the
    /// directory, so callers can detect an unresolved alias.
    pub fn resolve_path(&self, key: &str) -> (r: Option<String>)
        ensures
            match r {
                Some(p) => self.spec_resolve(key@) == Some(p@),
                None => self.spec_resolve(key@) is None,
            },
    {
        if str_eq(key, "_home") {
            Some(self.home_config.clone())
        } else if str_eq(key, "_etc") {
            Some(self.etc_dir.clone())
        } else if str_eq(key, "_desktop") {
            Some(self.desktop.clone())
        } else if str_eq(key, "_documents") {
            Some(self.documents.clone())
        } else if str_eq(key, "_downloads") {
            Some(self.downloads.clone())
        } else if str_eq(key, "_config") {
            Some(self.config.clone())
        } else {
            None
        }
    }
}

} // verus!
