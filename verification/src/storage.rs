//! Where the save files live, and how a save is read and written. The reading, writing and the
//! environment lookups themselves are the caller's: this module decides the path (as its list
//! of components), what to create before writing, and what a failed read means.

use vstd::prelude::*;

use crate::text::push_str;

verus! {

/// The operating-system families whose save locations differ.
#[derive(Clone, Copy, PartialEq, Eq, Debug, Structural)]
pub enum Platform {
    Android,
    Windows,
    MacOs,
    /// Linux and the other Unix-like systems.
    OtherUnix,
}

/// What the save location depends on: the platform and the environment values it reads
/// (`None` for a variable that is not set).
pub struct SaveEnv {
    pub platform: Platform,
    /// `APPDATA` (Windows).
    pub appdata: Option<String>,
    /// `HOME`.
    pub home: Option<String>,
    /// `XDG_DATA_HOME`.
    pub xdg_data_home: Option<String>,
    /// The working directory, if it can be read.
    pub current_dir: Option<String>,
}

/// The Android app's private files directory.
pub open spec fn android_files_dir() -> Seq<char> {
    "/data/data/com.uneven3.lightcore/files"@
}

/// The path used when no platform location is known: `lightcore_<file>` in the working
/// directory (or `.`).
pub open spec fn fallback_path_spec(file: Seq<char>, current_dir: Option<Seq<char>>) -> Seq<Seq<char>> {
    seq![
        match current_dir {
            Some(d) => d,
            None => "."@,
        },
        "lightcore_"@ + file,
    ]
}

/// The view of an optional text.
pub open spec fn opt_view(o: Option<String>) -> Option<Seq<char>> {
    match o {
        Some(s) => Some(s@),
        None => None,
    }
}

/// The components of the save path of `file`: on Android the app's files directory; on
/// Windows `APPDATA\Lightcore`; on macOS `~/Library/Application Support/Lightcore`; elsewhere
/// `$XDG_DATA_HOME/lightcore`, else `~/.local/share/lightcore`; when the variable a platform
/// needs is unset, the fallback path.
pub open spec fn save_path_spec(file: Seq<char>, env: SaveEnv) -> Seq<Seq<char>> {
    match env.platform {
        Platform::Android => seq![android_files_dir(), file],
        Platform::Windows => match opt_view(env.appdata) {
            Some(a) => seq![a, "Lightcore"@, file],
            None => fallback_path_spec(file, opt_view(env.current_dir)),
        },
        Platform::MacOs => match opt_view(env.home) {
            Some(h) => seq![h, "Library"@, "Application Support"@, "Lightcore"@, file],
            None => fallback_path_spec(file, opt_view(env.current_dir)),
        },
        Platform::OtherUnix => match opt_view(env.xdg_data_home) {
            Some(x) => seq![x, "lightcore"@, file],
            None => match opt_view(env.home) {
                Some(h) => seq![h, ".local"@, "share"@, "lightcore"@, file],
                None => fallback_path_spec(file, opt_view(env.current_dir)),
            },
        },
    }
}

/// A copy of `s`.
fn copy_str(s: &str) -> (r: String)
    ensures
        r@ == s@,
{
    let mut r = String::new();
    push_str(&mut r, s);
    assert(r@ =~= s@);
    r
}

/// A copy of the optional text `o`.
fn opt_text(o: &Option<String>) -> (r: Option<String>)
    ensures
        opt_view(r) == opt_view(*o),
{
    match o {
        Some(s) => Some(copy_str(s.as_str())),
        None => None,
    }
}

/// The components of `lightcore_<file>` in the working directory (or `.`).
fn fallback_save_file_path(file_name: &str, current_dir: &Option<String>) -> (r: Vec<String>)
    ensures
        r@.map_values(|s: String| s@) == fallback_path_spec(file_name@, opt_view(*current_dir)),
{
    let dir = match opt_text(current_dir) {
        Some(d) => d,
        None => copy_str("."),
    };
    let mut name = copy_str("lightcore_");
    push_str(&mut name, file_name);
    let r = vec![dir, name];
    assert(r@.map_values(|s: String| s@) =~= fallback_path_spec(file_name@, opt_view(*current_dir)));
    r
}

/// The components of the path of the save file `file_name`, from the directory the platform
/// keeps application data in down to the file itself.
pub fn save_file_path(file_name: &str, env: &SaveEnv) -> (r: Vec<String>)
    ensures
        r@.map_values(|s: String| s@) == save_path_spec(file_name@, *env),
{
    let file = copy_str(file_name);
    let r = match env.platform {
        Platform::Android => vec![copy_str("/data/data/com.uneven3.lightcore/files"), file],
        Platform::Windows => match opt_text(&env.appdata) {
            Some(a) => vec![a, copy_str("Lightcore"), file],
            None => fallback_save_file_path(file_name, &env.current_dir),
        },
        Platform::MacOs => match opt_text(&env.home) {
            Some(h) => vec![
                h,
                copy_str("Library"),
                copy_str("Application Support"),
                copy_str("Lightcore"),
                file,
            ],
            None => fallback_save_file_path(file_name, &env.current_dir),
        },
        Platform::OtherUnix => match opt_text(&env.xdg_data_home) {
            Some(x) => vec![x, copy_str("lightcore"), file],
            None => match opt_text(&env.home) {
                Some(h) => vec![h, copy_str(".local"), copy_str("share"), copy_str("lightcore"), file],
                None => fallback_save_file_path(file_name, &env.current_dir),
            },
        },
    };
    assert(r@.map_values(|s: String| s@) =~= save_path_spec(file_name@, *env));
    r
}

/// A save to perform: create the directory (its components), then write `contents` to the file
/// at `path` (its components).
pub struct SaveWrite {
    pub dir: Vec<String>,
    pub path: Vec<String>,
    pub contents: String,
}

/// The save of `contents` as the save file `file_name`: the file's path, the directory that
/// holds it (the path without its last component), and the text.
pub fn write_save_file(file_name: &str, contents: &str, env: &SaveEnv) -> (r: SaveWrite)
    ensures
        r.path@.map_values(|s: String| s@) == save_path_spec(file_name@, *env),
        r.dir@.map_values(|s: String| s@) == save_path_spec(file_name@, *env).drop_last(),
        r.contents@ == contents@,
{
    let path = save_file_path(file_name, env);
    let mut dir: Vec<String> = Vec::new();
    let mut i: usize = 0;
    let ghost p = save_path_spec(file_name@, *env);
    assert(p.len() >= 2);
    while i + 1 < path.len()
        invariant
            path@.map_values(|s: String| s@) == p,
            p.len() >= 2,
            i + 1 <= path.len(),
            dir@.map_values(|s: String| s@) == p.take(i as int),
        decreases path.len() - i,
    {
        let c = copy_str(path[i].as_str());
        proof {
            assert(path@.map_values(|s: String| s@)[i as int] == path@[i as int]@);
            assert(c@ == p[i as int]);
        }
        let ghost old_dir = dir@;
        dir.push(c);
        proof {
            assert(dir@.map_values(|s: String| s@) =~= old_dir.map_values(|s: String| s@).push(c@));
            assert(p.take(i + 1) =~= p.take(i as int).push(p[i as int]));
        }
        i = i + 1;
    }
    assert(p.take(i as int) =~= p.drop_last());
    SaveWrite { dir, path, contents: copy_str(contents) }
}

/// The text of a save file from the outcome of reading it: a failed read (the file does not
/// exist yet, or cannot be read) is no save.
pub fn load_save_file(read: Result<String, String>) -> (r: Option<String>)
    ensures
        r == match read {
            Ok(s) => Some(s),
            Err(_) => None::<String>,
        },
{
    match read {
        Ok(s) => Some(s),
        Err(_) => None,
    }
}

} // verus!
