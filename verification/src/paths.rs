//! On-disk layout of the Codex home and of this app's account library.
//!
//! Paths are held as strings. Joining a base directory with one plain
//! component is delegated to `std::path::Path::join`.

use vstd::prelude::*;
use crate::text::{chars_of, has_prefix, string_from_chars};

verus! {

pub const APP_DIR_NAME: &'static str = ".codex-runway";
pub const ACCOUNTS_DIR_NAME: &'static str = "accounts";
pub const INDEX_FILE_NAME: &'static str = "index.json";
pub const AUTH_FILE_NAME: &'static str = "auth.json";
pub const SESSIONS_DIR_NAME: &'static str = "sessions";

/// A single relative path component: non-empty, with no separator (`/`,
/// `\`) and no drive colon.
pub open spec fn is_plain_component(c: Seq<char>) -> bool {
    &&& c.len() > 0
    &&& forall|i: int| 0 <= i < c.len() ==> c[i] != '/' && c[i] != '\\' && c[i] != ':'
}

/// A Windows verbatim path (`\\?\...`), on which `Path::join` normalises.
pub open spec fn is_verbatim(base: Seq<char>) -> bool {
    has_prefix(base, seq!['\\', '\\', '?', '\\'])
}

/// `s` ends with a path separator (`/` or `\`).
pub open spec fn ends_with_separator(s: Seq<char>) -> bool {
    s.len() > 0 && (s.last() == '/' || s.last() == '\\')
}

/// `s` is a bare Windows drive such as `C:`.
pub open spec fn is_bare_drive(s: Seq<char>) -> bool {
    &&& s.len() == 2
    &&& (('a' <= s[0] && s[0] <= 'z') || ('A' <= s[0] && s[0] <= 'Z'))
    &&& s[1] == ':'
}

/// `r` is `name` directly inside `dir`: `dir`, one separator, `name`.
pub open spec fn child_of(dir: Seq<char>, name: Seq<char>, r: Seq<char>) -> bool {
    ||| r == dir + seq!['/'] + name
    ||| r == dir + seq!['\\'] + name
}

/// What `Path::join` gives for a base that is not verbatim and one plain
/// component: the component alone under an empty base; the two
/// concatenated under a base that ends with `/`; under a base that ends
/// with `\` or is a bare drive, the two concatenated (Windows) or joined by
/// `/` (elsewhere); under any other base, the two joined by one separator
/// (`\` on Windows, `/` elsewhere).
pub open spec fn joined(base: Seq<char>, comp: Seq<char>, r: Seq<char>) -> bool {
    if base.len() == 0 {
        r == comp
    } else if base.last() == '/' {
        r == base + comp
    } else if base.last() == '\\' || is_bare_drive(base) {
        r == base + comp || r == base + seq!['/'] + comp
    } else {
        child_of(base, comp, r)
    }
}

/// The last character of a path that ends with a plain component: not a
/// separator and not a drive colon.
pub open spec fn ends_plain(r: Seq<char>) -> bool {
    r.len() > 0 && r.last() != '/' && r.last() != '\\' && r.last() != ':'
}

/// A path that ends with a plain component takes a further component
/// directly inside it, behind one separator.
pub proof fn lemma_join_inside(dir: Seq<char>, name: Seq<char>, r: Seq<char>)
    requires
        ends_plain(dir),
        joined(dir, name, r),
    ensures
        child_of(dir, name, r),
{
    if dir.len() == 2 {
        assert(dir.last() == dir[1]);
    }
}

/// Joining a plain component, by `Path::join` or directly, gives a path
/// that ends with it.
pub proof fn lemma_ends_with_component(base: Seq<char>, comp: Seq<char>, r: Seq<char>)
    requires
        is_plain_component(comp),
        joined(base, comp, r) || child_of(base, comp, r),
    ensures
        ends_plain(r),
        r.len() >= comp.len(),
{
    assert(comp.last() == comp[comp.len() - 1]);
    if base.len() == 0 && joined(base, comp, r) && !child_of(base, comp, r) {
        assert(r == comp);
    } else {
        assert(r[r.len() - 1] == comp[comp.len() - 1]);
    }
}

/// Calls `std::path::Path::new(base).join(comp)` and turns the result back
/// into a `String`. `join` pushes a relative component onto the base: a
/// separator (`\` on Windows, `/` elsewhere) is added unless the base is
/// empty or already ends with one (`/` or `\` on Windows, `/` elsewhere) or
/// is a bare Windows drive; nothing is replaced, since a plain component has
/// no root and no prefix. Under a verbatim base (`\\?\`) Windows also
/// normalises the path; nothing is stated there.
#[verifier::external_body]
fn join_component(base: &str, comp: &str) -> (r: String)
    requires
        is_plain_component(comp@),
    ensures
        !is_verbatim(base@) ==> joined(base@, comp@, r@),
{
    std::path::Path::new(base).join(comp).to_string_lossy().into_owned()
}

/// `c` is kept by `sanitize` as it is.
pub open spec fn is_safe_id_char(c: char) -> bool {
    ||| ('a' <= c && c <= 'z')
    ||| ('A' <= c && c <= 'Z')
    ||| ('0' <= c && c <= '9')
    ||| c == '-'
    ||| c == '_'
    ||| c == '.'
}

/// Every character of `s` is a dot.
pub open spec fn only_dots(s: Seq<char>) -> bool {
    forall|i: int| 0 <= i < s.len() ==> s[i] == '.'
}

/// A free-form id made into one path component: every character other than
/// ASCII letters, digits, `-`, `_` and `.` becomes `_`; an empty id becomes
/// `default`; an id made only of dots (such as `.` or `..`, which would name
/// the accounts directory or its parent) becomes as many `_`.
pub open spec fn spec_sanitize(id: Seq<char>) -> Seq<char> {
    if id.len() == 0 {
        "default"@
    } else if only_dots(id) {
        Seq::new(id.len(), |i: int| '_')
    } else {
        id.map_values(|c: char| if is_safe_id_char(c) { c } else { '_' })
    }
}

fn is_safe_id_char_exec(c: char) -> (r: bool)
    ensures
        r == is_safe_id_char(c),
{
    ('a' <= c && c <= 'z') || ('A' <= c && c <= 'Z') || ('0' <= c && c <= '9') || c == '-'
        || c == '_' || c == '.'
}

/// Sanitize a free-form id into a single path component, so that opaque
/// account ids cannot escape the accounts directory.
pub fn sanitize(id: &str) -> (r: String)
    ensures
        r@ == spec_sanitize(id@),
        is_plain_component(r@),
        r@ != "."@,
        r@ != ".."@,
{
    proof {
        lemma_sanitize_is_plain(id@);
    }
    let cs = chars_of(id);
    if cs.len() == 0 {
        let r = string_from_chars(&chars_of("default"));
        return r;
    }
    let mut k: usize = 0;
    while k < cs.len() && cs[k] == '.'
        invariant
            k <= cs.len(),
            forall|j: int| 0 <= j < k ==> cs@[j] == '.',
        decreases cs.len() - k,
    {
        k = k + 1;
    }
    if k == cs.len() {
        let mut u: Vec<char> = Vec::new();
        while u.len() < cs.len()
            invariant
                u@.len() <= cs@.len(),
                forall|j: int| 0 <= j < u@.len() ==> u@[j] == '_',
            decreases cs.len() - u.len(),
        {
            u.push('_');
        }
        assert(u@ =~= Seq::new(cs@.len(), |i: int| '_'));
        assert(only_dots(id@));
        return string_from_chars(&u);
    }
    assert(!only_dots(id@)) by {
        assert(cs@[k as int] != '.');
    }
    let mut out: Vec<char> = Vec::new();
    let mut i: usize = 0;
    while i < cs.len()
        invariant
            i <= cs.len(),
            cs@ == id@,
            out@ == cs@.take(i as int).map_values(
                |c: char| if is_safe_id_char(c) { c } else { '_' },
            ),
        decreases cs.len() - i,
    {
        let c = cs[i];
        out.push(if is_safe_id_char_exec(c) { c } else { '_' });
        i = i + 1;
        assert(out@ =~= cs@.take(i as int).map_values(
            |c: char| if is_safe_id_char(c) { c } else { '_' },
        ));
    }
    assert(cs@.take(cs.len() as int) =~= cs@);
    string_from_chars(&out)
}

/// Every sanitized id is a plain path component other than `.` and `..`,
/// so it names an entry inside the directory it is joined to.
pub proof fn lemma_sanitize_is_plain(id: Seq<char>)
    ensures
        is_plain_component(spec_sanitize(id)),
        spec_sanitize(id) != "."@,
        spec_sanitize(id) != ".."@,
{
    reveal_strlit("default");
    reveal_strlit(".");
    reveal_strlit("..");
    let r = spec_sanitize(id);
    if id.len() > 0 && only_dots(id) {
        assert(r[0] == '_');
    } else if id.len() > 0 {
        let k = choose|k: int| 0 <= k < id.len() && id[k] != '.';
        if is_safe_id_char(id[k]) {
            assert(r[k] == id[k]);
        } else {
            assert(r[k] == '_');
        }
        assert(r[k] != '.');
    } else {
        assert(r[0] == 'd');
    }
}

#[derive(Debug, Clone)]
pub struct Paths {
    /// `%USERPROFILE%` on Windows, `~` elsewhere.
    pub home: String,
    /// `%USERPROFILE%\.codex` on Windows.
    pub codex_home: String,
    /// `%USERPROFILE%\.codex-runway`.
    pub app_home: String,
}

/// `dir/name` for a directory that is not verbatim.
pub open spec fn is_child(dir: Seq<char>, name: Seq<char>, r: Seq<char>) -> bool {
    !is_verbatim(dir) ==> joined(dir, name, r)
}

impl Paths {
    /// The official Codex credential file, `<codex_home>/auth.json`.
    pub fn official_auth(&self) -> (r: String)
        ensures
            is_child(self.codex_home@, AUTH_FILE_NAME@, r@),
    {
        proof { reveal_strlit("auth.json"); }
        join_component(self.codex_home.as_str(), AUTH_FILE_NAME)
    }

    /// The account library directory, `<app_home>/accounts`.
    pub fn app_accounts(&self) -> (r: String)
        ensures
            is_child(self.app_home@, ACCOUNTS_DIR_NAME@, r@),
    {
        proof { reveal_strlit("accounts"); }
        join_component(self.app_home.as_str(), ACCOUNTS_DIR_NAME)
    }

    /// The account index, `<app_home>/accounts/index.json`: unless a base
    /// is verbatim, `index.json` directly inside the accounts directory.
    pub fn account_index(&self) -> (r: String)
        ensures
            exists|dir: Seq<char>|
                {
                    &&& #[trigger] is_child(self.app_home@, ACCOUNTS_DIR_NAME@, dir)
                    &&& is_child(dir, INDEX_FILE_NAME@, r@)
                    &&& !is_verbatim(self.app_home@) && !is_verbatim(dir) ==> child_of(
                        dir,
                        INDEX_FILE_NAME@,
                        r@,
                    )
                },
    {
        let dir = self.app_accounts();
        proof {
            reveal_strlit("index.json");
            reveal_strlit("accounts");
        }
        let r = join_component(dir.as_str(), INDEX_FILE_NAME);
        proof {
            if !is_verbatim(self.app_home@) && !is_verbatim(dir@) {
                lemma_ends_with_component(self.app_home@, ACCOUNTS_DIR_NAME@, dir@);
                lemma_join_inside(dir@, INDEX_FILE_NAME@, r@);
            }
        }
        r
    }

    /// The directory of one account, `<app_home>/accounts/<sanitized id>`:
    /// unless a base is verbatim, the sanitized id directly inside the
    /// accounts directory.
    pub fn account_dir(&self, id: &str) -> (r: String)
        ensures
            exists|dir: Seq<char>|
                {
                    &&& #[trigger] is_child(self.app_home@, ACCOUNTS_DIR_NAME@, dir)
                    &&& is_child(dir, spec_sanitize(id@), r@)
                    &&& !is_verbatim(self.app_home@) && !is_verbatim(dir) ==> child_of(
                        dir,
                        spec_sanitize(id@),
                        r@,
                    )
                },
    {
        let dir = self.app_accounts();
        let name = sanitize(id);
        proof {
            lemma_sanitize_is_plain(id@);
            reveal_strlit("accounts");
        }
        let r = join_component(dir.as_str(), name.as_str());
        proof {
            if !is_verbatim(self.app_home@) && !is_verbatim(dir@) {
                lemma_ends_with_component(self.app_home@, ACCOUNTS_DIR_NAME@, dir@);
                lemma_join_inside(dir@, name@, r@);
            }
        }
        r
    }

    /// The credential file of one account, `<account_dir(id)>/auth.json`:
    /// unless a base is verbatim, `auth.json` directly inside the account
    /// directory, which is directly inside the accounts directory.
    pub fn account_auth(&self, id: &str) -> (r: String)
        ensures
            exists|dir: Seq<char>, acc: Seq<char>|
                {
                    &&& #[trigger] is_child(self.app_home@, ACCOUNTS_DIR_NAME@, dir)
                    &&& #[trigger] is_child(dir, spec_sanitize(id@), acc)
                    &&& is_child(acc, AUTH_FILE_NAME@, r@)
                    &&& !is_verbatim(self.app_home@) && !is_verbatim(dir) ==> {
                        &&& child_of(dir, spec_sanitize(id@), acc)
                        &&& child_of(acc, AUTH_FILE_NAME@, r@)
                    }
                },
    {
        let acc = self.account_dir(id);
        proof {
            reveal_strlit("auth.json");
            reveal_strlit("accounts");
            lemma_sanitize_is_plain(id@);
        }
        let r = join_component(acc.as_str(), AUTH_FILE_NAME);
        let ghost dir = choose|dir: Seq<char>|
            {
                &&& #[trigger] is_child(self.app_home@, ACCOUNTS_DIR_NAME@, dir)
                &&& is_child(dir, spec_sanitize(id@), acc@)
                &&& !is_verbatim(self.app_home@) && !is_verbatim(dir) ==> child_of(
                    dir,
                    spec_sanitize(id@),
                    acc@,
                )
            };
        proof {
            if !is_verbatim(self.app_home@) && !is_verbatim(dir) {
                lemma_ends_with_component(self.app_home@, ACCOUNTS_DIR_NAME@, dir);
                lemma_ends_with_component(dir, spec_sanitize(id@), acc@);
                assert(acc@.take(4) =~= dir.take(4));
                lemma_join_inside(acc@, AUTH_FILE_NAME@, r@);
            }
        }
        r
    }

    /// The Codex session logs, `<codex_home>/sessions`.
    pub fn sessions_dir(&self) -> (r: String)
        ensures
            is_child(self.codex_home@, SESSIONS_DIR_NAME@, r@),
    {
        proof { reveal_strlit("sessions"); }
        join_component(self.codex_home.as_str(), SESSIONS_DIR_NAME)
    }
}

/// The home directory named by the environment: `USERPROFILE`, else
/// `HOME`; a `Config` error when neither is set.
pub fn pick_home(userprofile: Option<String>, home: Option<String>) -> (r: Result<String, crate::error::AppError>)
    ensures
        match (userprofile, home) {
            (Some(u), _) => r matches Ok(h) && h@ == u@,
            (None, Some(h0)) => r matches Ok(h) && h@ == h0@,
            (None, None) => r matches Err(crate::error::AppError::Config(m)) && m@ == "USERPROFILE / HOME is not set"@,
        },
{
    proof {
        reveal_strlit("USERPROFILE / HOME is not set");
    }
    match userprofile {
        Some(u) => Ok(u),
        None => match home {
            Some(h) => Ok(h),
            None => Err(crate::error::AppError::Config("USERPROFILE / HOME is not set".to_owned())),
        },
    }
}

/// The name of the official Codex directory under the home directory.
pub const CODEX_DIR_NAME: &'static str = ".codex";

impl Paths {
    /// The layout under an existing home directory: `<home>/.codex` and
    /// `<home>/.codex-runway`.
    pub fn under_home(home: String) -> (r: Paths)
        ensures
            r.home@ == home@,
            is_child(home@, CODEX_DIR_NAME@, r.codex_home@),
            is_child(home@, APP_DIR_NAME@, r.app_home@),
    {
        proof {
            reveal_strlit(".codex");
            reveal_strlit(".codex-runway");
        }
        let codex_home = join_component(home.as_str(), CODEX_DIR_NAME);
        let app_home = join_component(home.as_str(), APP_DIR_NAME);
        Paths { home, codex_home, app_home }
    }
}

/// Where the app keeps its files, as the frontend shows them.
#[derive(Debug, Clone)]
pub struct AppInfo {
    pub home_dir: String,
    pub codex_home: String,
    pub app_home: String,
    pub official_auth_exists: bool,
}

impl AppInfo {
    /// The directories of a layout, and whether its official credential
    /// file exists.
    pub fn of_paths(p: &Paths, official_auth_exists: bool) -> (r: AppInfo)
        ensures
            r.home_dir@ == p.home@,
            r.codex_home@ == p.codex_home@,
            r.app_home@ == p.app_home@,
            r.official_auth_exists == official_auth_exists,
    {
        AppInfo {
            home_dir: p.home.clone(),
            codex_home: p.codex_home.clone(),
            app_home: p.app_home.clone(),
            official_auth_exists,
        }
    }
}

} // verus!
