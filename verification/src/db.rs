//! Where the database lives: the app data directory, set once at start-up,
//! and the database file inside it.
use vstd::prelude::*;
use crate::text::{join_path, joined_path};

verus! {

/// The database file's name inside the app data directory.
pub const DB_FILE_NAME: &'static str = "yaad.db";

/// The app data directory, which can be set once and never changed after.
pub struct AppDataDir {
    dir: Option<String>,
}

impl View for AppDataDir {
    type V = Option<Seq<char>>;

    closed spec fn view(&self) -> Option<Seq<char>> {
        match self.dir {
            Some(d) => Some(d@),
            None => None,
        }
    }
}

/// The directory after an attempt to set it to `dir`: the first one set stays.
pub open spec fn after_set(current: Option<Seq<char>>, dir: Seq<char>) -> Option<Seq<char>> {
    match current {
        Some(d) => Some(d),
        None => Some(dir),
    }
}

impl AppDataDir {
    /// No directory set yet.
    pub fn new() -> (s: Self)
        ensures
            s@ is None,
    {
        AppDataDir { dir: None }
    }
}

/// The app data directory, once it has been set.
pub fn get_app_data_dir(dirs: &AppDataDir) -> (r: Option<&String>)
    ensures
        match r {
            Some(d) => dirs@ == Some(d@),
            None => dirs@ is None,
        },
{
    match &dirs.dir {
        Some(d) => Some(d),
        None => None,
    }
}

/// Sets the app data directory; refused with "App data directory already set",
/// and nothing changed, when one is set already.
pub fn set_app_data_dir(dirs: &mut AppDataDir, app_data_dir: String) -> (r: Result<(), String>)
    ensures
        final(dirs)@ == after_set(old(dirs)@, app_data_dir@),
        old(dirs)@ is None ==> r is Ok,
        old(dirs)@ is Some ==> (r matches Err(e) && e@ == "App data directory already set"@),
{
    if dirs.dir.is_some() {
        return Err("App data directory already set".to_owned());
    }
    dirs.dir = Some(app_data_dir);
    Ok(())
}

/// The database file's path, inside the app data directory; refused while no
/// directory is set.
pub fn get_db_path(dirs: &AppDataDir) -> (r: Result<String, String>)
    ensures
        match dirs@ {
            Some(d) => r matches Ok(p) && p@ == joined_path(d, DB_FILE_NAME@),
            None => r matches Err(e) && e@
                == "App data directory not initialized. Call set_app_data_dir() first."@,
        },
{
    match &dirs.dir {
        Some(d) => Ok(join_path(d.as_str(), DB_FILE_NAME)),
        None => Err("App data directory not initialized. Call set_app_data_dir() first.".to_owned()),
    }
}

/// The app data directory is written once: after any attempt to set it, one is
/// set, and every later attempt leaves it as it was.
pub proof fn lemma_app_data_dir_write_once(current: Option<Seq<char>>, first: Seq<char>, later: Seq<char>)
    ensures
        after_set(current, first) is Some,
        after_set(after_set(current, first), later) == after_set(current, first),
        current is None ==> after_set(current, first) == Some(first),
{
}

} // verus!
