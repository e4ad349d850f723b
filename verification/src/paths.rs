//! Where Thoth keeps its files: everything lives under `~/.thoth`.
use vstd::prelude::*;
use vstd::string::StringExecFns;

verus! {

broadcast use vstd::string::group_string_axioms;

/// The current user's home directory, if one can be determined.
///
/// Wraps `dirs::home_dir`, which reads the environment and the user
/// database; the path is converted to text lossily. Which directory comes
/// back depends on the environment, so it is not named. On Unix targets the
/// crate takes `$HOME` only when it is non-empty and the user database's
/// entry only when it is non-empty, so a directory that is returned is never
/// empty text (lossy conversion keeps a non-empty path non-empty).
#[verifier::external_body]
pub(crate) fn home_dir() -> (r: Option<String>)
    ensures
        r matches Some(h) ==> h@.len() > 0,
{
    dirs::home_dir().map(|p| p.to_string_lossy().into_owned())
}

/// `base` joined with the component `comp`, as `Path::join` does: an
/// absolute `comp` replaces `base`; otherwise a separator is inserted unless
/// `base` is empty or already ends in one.
pub open spec fn join(base: Seq<char>, comp: Seq<char>) -> Seq<char> {
    if comp.len() > 0 && comp[0] == '/' {
        comp
    } else if base.len() == 0 {
        comp
    } else if base.last() == '/' {
        base + comp
    } else {
        base + seq!['/'] + comp
    }
}

/// Join a component onto a path.
pub fn path_join(base: &str, comp: &str) -> (r: String)
    ensures
        r@ == join(base@, comp@),
{
    let c = crate::text::str_chars(comp);
    if c.len() > 0 && c[0] == '/' {
        return String::from_str(comp);
    }
    let b = crate::text::str_chars(base);
    let mut r = String::from_str(base);
    if b.len() == 0 {
        return String::from_str(comp);
    }
    if b[b.len() - 1] != '/' {
        proof {
            reveal_strlit("/");
        }
        r.append("/");
    }
    r.append(comp);
    r
}

/// The home directory, or `fallback` when it cannot be determined. Which
/// directory that is depends on the environment; what holds whatever it is:
/// the result is the fallback, or a non-empty home directory.
pub fn home_dir_or(fallback: &str) -> (r: String)
    ensures
        r@ == fallback@ || r@.len() > 0,
{
    match home_dir() {
        Some(h) => h,
        None => String::from_str(fallback),
    }
}

/// The Thoth directory under `home`.
pub open spec fn thoth_dir(home: Seq<char>) -> Seq<char> {
    join(home, ".thoth"@)
}

/// The Thoth directory for a home directory.
pub fn thoth_dir_in(home: &str) -> (r: String)
    ensures
        r@ == thoth_dir(home@),
{
    path_join(home, ".thoth")
}

/// The config file under `home`.
pub fn config_path_in(home: &str) -> (r: String)
    ensures
        r@ == join(thoth_dir(home@), "config.json"@),
{
    let dir = thoth_dir_in(home);
    path_join(dir.as_str(), "config.json")
}

/// The config directory (`~/.thoth`), falling back to `/tmp` when there is no
/// home directory.
pub fn get_config_dir() -> (r: String)
    ensures
        exists|home: Seq<char>| r@ == thoth_dir(home),
{
    let home = home_dir_or("/tmp");
    thoth_dir_in(home.as_str())
}

/// The config file (`~/.thoth/config.json`), falling back to `/tmp` when there
/// is no home directory.
pub fn get_config_path() -> (r: String)
    ensures
        exists|home: Seq<char>| r@ == join(thoth_dir(home), "config.json"@),
{
    let home = home_dir_or("/tmp");
    config_path_in(home.as_str())
}

/// The database file (`~/.thoth/thoth.db`), or `None` when there is no home
/// directory.
pub fn get_database_path() -> (r: Option<String>)
    ensures
        r matches Some(p) ==> exists|home: Seq<char>| p@ == join(thoth_dir(home), "thoth.db"@),
{
    match home_dir() {
        None => None,
        Some(h) => {
            let dir = thoth_dir_in(h.as_str());
            Some(path_join(dir.as_str(), "thoth.db"))
        },
    }
}

/// The control-API token store (`~/.thoth/control_api_token`).
pub fn token_path() -> (r: String)
    ensures
        exists|home: Seq<char>| r@ == join(thoth_dir(home), "control_api_token"@),
{
    let dir = get_config_dir();
    path_join(dir.as_str(), "control_api_token")
}

/// The custom prompts file under `home`.
pub fn prompts_path_in(home: &str) -> (r: String)
    ensures
        r@ == join(thoth_dir(home@), "prompts.json"@),
{
    let dir = thoth_dir_in(home);
    path_join(dir.as_str(), "prompts.json")
}

/// The custom prompts file (`~/.thoth/prompts.json`), relative to the
/// current directory when there is no home directory.
pub fn get_custom_prompts_path() -> (r: String)
    ensures
        exists|home: Seq<char>| r@ == join(thoth_dir(home), "prompts.json"@),
{
    let home = home_dir_or(".");
    prompts_path_in(home.as_str())
}

/// The dictionary file: `dictionary.json` in the data directory override
/// when one is set and non-empty, otherwise under `~/.thoth` (relative to the
/// current directory when there is no home directory).
pub fn get_dictionary_path(data_dir: Option<&str>) -> (r: String)
    ensures
        (data_dir matches Some(d) && d@.len() > 0) ==> r@ == join(data_dir->0@, "dictionary.json"@),
        !(data_dir matches Some(d) && d@.len() > 0) ==> exists|home: Seq<char>| r@ == join(
            thoth_dir(home),
            "dictionary.json"@,
        ),
{
    match data_dir {
        Some(d) => {
            if d.unicode_len() > 0 {
                return path_join(d, "dictionary.json");
            }
        },
        None => {},
    }
    let home = home_dir_or(".");
    let dir = thoth_dir_in(home.as_str());
    path_join(dir.as_str(), "dictionary.json")
}

} // verus!

verus! {

/// The final component of a path, as `std::path::Path::file_name` gives
/// it; `None` when there is none, as for a path ending in `..`.
pub uninterp spec fn spec_file_name(path: Seq<char>) -> Option<Seq<char>>;

/// The extension of a path's file name, as `std::path::Path::extension`
/// gives it.
pub uninterp spec fn spec_extension(path: Seq<char>) -> Option<Seq<char>>;

/// An optional string by its text.
pub open spec fn opt_text(o: Option<String>) -> Option<Seq<char>> {
    match o {
        Some(s) => Some(s@),
        None => None,
    }
}

/// The final component of `path`.
///
/// Wraps `std::path::Path::file_name`; the component of a `&str` path is
/// always valid text. The crate is built for Unix targets (macOS and Linux),
/// where `/` is the only separator, the same rule `join` follows; there the
/// result depends on the path alone, which the contract names.
#[verifier::external_body]
pub(crate) fn file_name(path: &str) -> (r: Option<String>)
    ensures
        opt_text(r) == spec_file_name(path@),
{
    std::path::Path::new(path).file_name().map(|n| n.to_string_lossy().into_owned())
}

/// The extension of the file name of `path`.
///
/// Wraps `std::path::Path::extension`; as for [`file_name`], under the Unix
/// path rules the crate is built with, the result depends on the path
/// alone, which the contract names.
#[verifier::external_body]
pub(crate) fn extension(path: &str) -> (r: Option<String>)
    ensures
        opt_text(r) == spec_extension(path@),
{
    std::path::Path::new(path).extension().map(|n| n.to_string_lossy().into_owned())
}

} // verus!
