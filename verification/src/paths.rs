//! Where the switcher keeps its files: a directory under the user's home directory.
use vstd::prelude::*;
use crate::types::StorageError;

verus! {

/// The configuration directory's name under the home directory.
pub const CONFIG_DIR_NAME: &'static str = ".codex-switcher";
/// The accounts file's name in the configuration directory.
pub const ACCOUNTS_FILE_NAME: &'static str = "accounts.json";
/// The settings file's name in the configuration directory.
pub const SETTINGS_FILE_NAME: &'static str = "settings.json";

/// A single relative path component: not empty, not `.` or `..`, and free of separators
/// and drive marks.
pub open spec fn is_plain_name(name: Seq<char>) -> bool {
    &&& name.len() > 0
    &&& name != seq!['.']
    &&& name != seq!['.', '.']
    &&& forall|i: int| 0 <= i < name.len() ==> #[trigger] name[i] != '/' && name[i] != '\\' && name[i] != ':'
}

/// `base` begins with a Windows verbatim prefix (`\\?\`).
pub open spec fn is_verbatim(base: Seq<char>) -> bool {
    base.len() >= 4 && base[0] == '\\' && base[1] == '\\' && base[2] == '?' && base[3] == '\\'
}

/// `path` extends `base` by `name`: it ends with `name`, and, unless `base` is a Windows
/// verbatim path (which joining normalizes), begins with `base`.
pub open spec fn joins(base: Seq<char>, name: Seq<char>, path: Seq<char>) -> bool {
    &&& !is_verbatim(base) ==> base.is_prefix_of(path)
    &&& name.is_suffix_of(path)
}

/// A path separator: `/`, or `\\` as well on Windows.
pub open spec fn is_separator(c: char) -> bool {
    c == '/' || c == '\\'
}

/// `base` ends in a path component that a separator must follow before another is added:
/// it is not empty and does not end in a separator or in a drive mark (`C:`).
pub open spec fn needs_separator(base: Seq<char>) -> bool {
    base.len() > 0 && !is_separator(base.last()) && base.last() != ':'
}

/// `path` is `base`, then one path separator, then `name`.
pub open spec fn adjoined(base: Seq<char>, name: Seq<char>, path: Seq<char>) -> bool {
    exists|sep: char| is_separator(sep) && path == base + seq![sep] + name
}

/// `std::path::Path::join`, the joined path read back with `to_string_lossy`, which keeps it
/// as it is since both parts are UTF-8. Joining a relative name extends the base path: the
/// result ends with `name` and, except where `base` has a Windows verbatim prefix (then the
/// documentation says the joined path is normalized, removing `.` and `..`), begins with
/// `base`. Where `base` ends in a component (neither a separator nor a bare drive) and is
/// not verbatim, the documentation's "extends self with path" adds the platform's separator
/// (`std::path::MAIN_SEPARATOR`, `/` or `\\`) between them.
#[verifier::external_body]
fn join_path(base: &str, name: &str) -> (path: String)
    requires
        is_plain_name(name@),
    ensures
        joins(base@, name@, path@),
        needs_separator(base@) && !is_verbatim(base@) ==> adjoined(base@, name@, path@),
{
    std::path::Path::new(base).join(name).to_string_lossy().into_owned()
}

proof fn lemma_file_names_plain()
    ensures
        is_plain_name(CONFIG_DIR_NAME@),
        is_plain_name(ACCOUNTS_FILE_NAME@),
        is_plain_name(SETTINGS_FILE_NAME@),
{
    reveal_strlit(".codex-switcher");
    reveal_strlit("accounts.json");
    reveal_strlit("settings.json");
    assert(CONFIG_DIR_NAME@.len() != 1 && CONFIG_DIR_NAME@.len() != 2);
    assert(ACCOUNTS_FILE_NAME@.len() != 1 && ACCOUNTS_FILE_NAME@.len() != 2);
    assert(SETTINGS_FILE_NAME@.len() != 1 && SETTINGS_FILE_NAME@.len() != 2);
}

/// A path that ends with the configuration directory's name ends in a component.
proof fn lemma_dir_needs_separator(dir: Seq<char>)
    requires
        CONFIG_DIR_NAME@.is_suffix_of(dir),
    ensures
        needs_separator(dir),
{
    reveal_strlit(".codex-switcher");
    let n = CONFIG_DIR_NAME@.len() as int;
    assert(dir.last() == dir[dir.len() - 1]);
    assert(dir.subrange(dir.len() - n, dir.len() as int) == CONFIG_DIR_NAME@);
    assert(dir[dir.len() - 1] == dir.subrange(dir.len() - n, dir.len() as int)[n - 1]);
}

/// The text after the last separator of `path` (all of it where there is none).
pub open spec fn file_name_of(path: Seq<char>) -> Seq<char>
    decreases path.len(),
{
    if path.len() == 0 {
        Seq::empty()
    } else if is_separator(path.last()) {
        Seq::empty()
    } else {
        file_name_of(path.drop_last()).push(path.last())
    }
}

/// The text before the last separator of `path` (nothing where there is none).
pub open spec fn parent_of(path: Seq<char>) -> Seq<char>
    decreases path.len(),
{
    if path.len() == 0 {
        Seq::empty()
    } else if is_separator(path.last()) {
        path.drop_last()
    } else {
        parent_of(path.drop_last())
    }
}

proof fn lemma_split_after_separator(base: Seq<char>, sep: char, name: Seq<char>)
    requires
        is_separator(sep),
        forall|i: int| 0 <= i < name.len() ==> !is_separator(#[trigger] name[i]),
    ensures
        parent_of(base + seq![sep] + name) == base,
        file_name_of(base + seq![sep] + name) == name,
    decreases name.len(),
{
    let p = base + seq![sep] + name;
    if name.len() == 0 {
        assert(p.drop_last() =~= base);
        assert(p.last() == sep);
    } else {
        let shorter = name.drop_last();
        lemma_split_after_separator(base, sep, shorter);
        assert(p.drop_last() =~= base + seq![sep] + shorter);
        assert(p.last() == name.last());
        assert(!is_separator(name[name.len() - 1]));
        assert(shorter.push(name.last()) =~= name);
    }
}

/// A path made by adjoining a plain name to a directory lies in that directory: the text
/// before its last separator is the directory, and the text after it is the name.
pub proof fn law_adjoined_name_is_in_directory(dir: Seq<char>, name: Seq<char>, path: Seq<char>)
    requires
        is_plain_name(name),
        adjoined(dir, name, path),
    ensures
        parent_of(path) == dir,
        file_name_of(path) == name,
{
    let sep = choose|sep: char| is_separator(sep) && path == dir + seq![sep] + name;
    lemma_split_after_separator(dir, sep, name);
}

/// The switcher's configuration directory inside the home directory `home`; fails where
/// no home directory is known.
pub fn get_config_dir(home: Option<String>) -> (r: Result<String, StorageError>)
    ensures
        home is None ==> r matches Err(StorageError::HomeDirectoryMissing),
        home matches Some(h) ==> (r matches Ok(dir) && joins(h@, CONFIG_DIR_NAME@, dir@)),
{
    proof { lemma_file_names_plain(); }
    match home {
        Some(h) => Ok(join_path(h.as_str(), CONFIG_DIR_NAME)),
        None => Err(StorageError::HomeDirectoryMissing),
    }
}

/// The path of the accounts file, `accounts.json` in the configuration directory.
pub fn get_accounts_file(home: Option<String>) -> (r: Result<String, StorageError>)
    ensures
        home is None ==> r matches Err(StorageError::HomeDirectoryMissing),
        home is Some ==> r is Ok,
        r matches Ok(file) ==> exists|dir: Seq<char>| joins(home->0@, CONFIG_DIR_NAME@, dir)
            && #[trigger] joins(dir, ACCOUNTS_FILE_NAME@, file@)
            && (!is_verbatim(dir) ==> adjoined(dir, ACCOUNTS_FILE_NAME@, file@)),
{
    proof { lemma_file_names_plain(); }
    let dir = match get_config_dir(home) {
        Ok(dir) => dir,
        Err(e) => { return Err(e); },
    };
    proof { lemma_dir_needs_separator(dir@); }
    let r: Result<String, StorageError> = Ok(join_path(dir.as_str(), ACCOUNTS_FILE_NAME));
    assert(r matches Ok(file) ==> joins(dir@, ACCOUNTS_FILE_NAME@, file@)
        && (!is_verbatim(dir@) ==> adjoined(dir@, ACCOUNTS_FILE_NAME@, file@)));
    r
}

/// The path of the settings file, `settings.json` in the configuration directory.
pub fn get_settings_file(home: Option<String>) -> (r: Result<String, StorageError>)
    ensures
        home is None ==> r matches Err(StorageError::HomeDirectoryMissing),
        home is Some ==> r is Ok,
        r matches Ok(file) ==> exists|dir: Seq<char>| joins(home->0@, CONFIG_DIR_NAME@, dir)
            && #[trigger] joins(dir, SETTINGS_FILE_NAME@, file@)
            && (!is_verbatim(dir) ==> adjoined(dir, SETTINGS_FILE_NAME@, file@)),
{
    proof { lemma_file_names_plain(); }
    let dir = match get_config_dir(home) {
        Ok(dir) => dir,
        Err(e) => { return Err(e); },
    };
    proof { lemma_dir_needs_separator(dir@); }
    let r: Result<String, StorageError> = Ok(join_path(dir.as_str(), SETTINGS_FILE_NAME));
    assert(r matches Ok(file) ==> joins(dir@, SETTINGS_FILE_NAME@, file@)
        && (!is_verbatim(dir@) ==> adjoined(dir@, SETTINGS_FILE_NAME@, file@)));
    r
}

} // verus!
