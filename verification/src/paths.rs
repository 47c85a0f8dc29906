//! Where catalogue, state and runs live: the XDG base directories.

use vstd::prelude::*;
use vstd::slice::*;
use vstd::string::*;
use vstd::utf8::*;

use crate::bytes::{
    bytes_of, is_absolute_path, path_join, same_bytes, starts_with_bytes, utf8_lossy, PathBytes,
};
use crate::clock::{compact_form, date_of, utc_timestamp, Date};
use crate::number::{decimal, push_decimal};

verus! {

/// The environment variables that decide where things live.
#[derive(Debug)]
pub struct BaseEnv {
    pub home: Option<Vec<u8>>,
    pub data_home: Option<Vec<u8>>,
    pub config_home: Option<Vec<u8>>,
    pub state_home: Option<Vec<u8>>,
}

/// `value` with a leading `~` or `$HOME` expanded, where a home is set.
pub open spec fn arg_expanded(value: Seq<u8>, home: Option<Vec<u8>>) -> Seq<u8> {
    if home is None || home->0@.len() == 0 {
        value
    } else if value == encode_utf8("~"@) || value == encode_utf8("$HOME"@) {
        home->0@
    } else if encode_utf8("~/"@).is_prefix_of(value) {
        below(home->0@, value.skip(encode_utf8("~/"@).len() as int))
    } else if encode_utf8("$HOME/"@).is_prefix_of(value) {
        below(home->0@, value.skip(encode_utf8("$HOME/"@).len() as int))
    } else {
        value
    }
}

/// `rest` below `home`, or `home` itself.
pub open spec fn below(home: Seq<u8>, rest: Seq<u8>) -> Seq<u8> {
    if rest.len() == 0 {
        home
    } else {
        path_join(home, rest)
    }
}

fn strip_bytes<'a>(value: &'a [u8], prefix: &str) -> (r: Option<&'a [u8]>)
    ensures
        r is Some <==> encode_utf8(prefix@).is_prefix_of(value@),
        r matches Some(rest) ==> rest@ == value@.skip(encode_utf8(prefix@).len() as int),
{
    let p = bytes_of(prefix);
    if starts_with_bytes(value, p.as_slice()) {
        let rest = slice_subrange(value, p.len(), value.len());
        assert(rest@ =~= value@.skip(p@.len() as int));
        Some(rest)
    } else {
        None
    }
}

fn home_below(home: &[u8], rest: &[u8]) -> (r: PathBytes)
    ensures
        r@ == below(home@, rest@),
{
    let base = PathBytes::from_bytes(home);
    if rest.len() == 0 {
        base
    } else {
        base.join_bytes(rest)
    }
}

/// Expands a leading `~` or `$HOME` in a path given by the user.
pub fn expand_home(value: &[u8], home: &Option<Vec<u8>>) -> (r: PathBytes)
    ensures
        r@ == arg_expanded(value@, *home),
{
    let base = match home {
        Some(h) => h.as_slice(),
        None => return PathBytes::from_bytes(value),
    };
    if base.len() == 0 {
        return PathBytes::from_bytes(value);
    }
    if same_bytes(value, bytes_of("~").as_slice()) || same_bytes(
        value,
        bytes_of("$HOME").as_slice(),
    ) {
        return PathBytes::from_bytes(base);
    }
    if let Some(rest) = strip_bytes(value, "~/") {
        return home_below(base, rest);
    }
    if let Some(rest) = strip_bytes(value, "$HOME/") {
        return home_below(base, rest);
    }
    PathBytes::from_bytes(value)
}

/// A variable that holds an absolute path.
pub open spec fn absolute_var(value: Option<Vec<u8>>) -> bool {
    value is Some && is_absolute_path(value->0@)
}

fn absolute(value: &Option<Vec<u8>>) -> (r: Option<PathBytes>)
    ensures
        r is Some <==> absolute_var(*value),
        r matches Some(p) ==> p@ == value->0@,
{
    match value {
        Some(v) => {
            let p = PathBytes::from_bytes(v.as_slice());
            if p.is_absolute() {
                Some(p)
            } else {
                None
            }
        },
        None => None,
    }
}

/// The home directory, which must be an absolute path.
pub fn home_dir(home: &Option<Vec<u8>>) -> (r: Result<PathBytes, String>)
    ensures
        r is Ok <==> absolute_var(*home),
        r matches Ok(p) ==> p@ == home->0@,
        r matches Err(e) ==> e@ == "HOME is not set to an absolute path"@,
{
    match absolute(home) {
        Some(p) => Ok(p),
        None => Err("HOME is not set to an absolute path".to_owned()),
    }
}

/// A base directory: that of the variable, or the default below the home
/// directory. Nothing when neither is an absolute path.
pub open spec fn base_dir(
    var: Option<Vec<u8>>,
    fallback: Seq<char>,
    home: Option<Vec<u8>>,
) -> Option<Seq<u8>> {
    if absolute_var(var) {
        Some(var->0@)
    } else if absolute_var(home) {
        Some(path_join(home->0@, encode_utf8(fallback)))
    } else {
        None
    }
}

/// Base directory lookup: a variable that is empty or relative counts as
/// unset.
pub fn xdg_dir(var: &Option<Vec<u8>>, fallback: &str, home: &Option<Vec<u8>>) -> (r: Result<
    PathBytes,
    String,
>)
    ensures
        match base_dir(*var, fallback@, *home) {
            Some(dir) => r matches Ok(p) && p@ == dir,
            None => r matches Err(e) && e@ == "HOME is not set to an absolute path"@,
        },
{
    if let Some(p) = absolute(var) {
        return Ok(p);
    }
    match home_dir(home) {
        Ok(h) => Ok(h.join(fallback)),
        Err(e) => Err(e),
    }
}

/// A directory of descriptors below a base directory.
pub open spec fn agents_dir(base: Seq<u8>) -> Seq<u8> {
    path_join(path_join(base, encode_utf8("update-agents"@)), encode_utf8("agents.d"@))
}

/// The directory of the built-in descriptors.
pub fn builtin_dir(env: &BaseEnv) -> (r: Result<PathBytes, String>)
    ensures
        match base_dir(env.data_home, ".local/share"@, env.home) {
            Some(dir) => r matches Ok(p) && p@ == agents_dir(dir),
            None => r matches Err(e) && e@ == "HOME is not set to an absolute path"@,
        },
{
    match xdg_dir(&env.data_home, ".local/share", &env.home) {
        Ok(dir) => Ok(dir.join("update-agents").join("agents.d")),
        Err(e) => Err(e),
    }
}

/// The directory of the user's descriptors.
pub fn user_dir(env: &BaseEnv) -> (r: Result<PathBytes, String>)
    ensures
        match base_dir(env.config_home, ".config"@, env.home) {
            Some(dir) => r matches Ok(p) && p@ == agents_dir(dir),
            None => r matches Err(e) && e@ == "HOME is not set to an absolute path"@,
        },
{
    match xdg_dir(&env.config_home, ".config", &env.home) {
        Ok(dir) => Ok(dir.join("update-agents").join("agents.d")),
        Err(e) => Err(e),
    }
}

/// The directories of the catalogue: exactly the given one, or the built-in
/// and the user directory.
pub fn catalogue_dirs(custom: &Option<PathBytes>, env: &BaseEnv) -> (r: Result<
    (PathBytes, Option<PathBytes>),
    String,
>)
    ensures
        match *custom {
            Some(dir) => r matches Ok(p) && p.0@ == dir@ && p.1 is None,
            None => match (
                base_dir(env.data_home, ".local/share"@, env.home),
                base_dir(env.config_home, ".config"@, env.home),
            ) {
                (Some(b), Some(u)) => r matches Ok(p) && {
                    &&& p.0@ == agents_dir(b)
                    &&& p.1 matches Some(q) && q@ == agents_dir(u)
                },
                _ => r matches Err(e) && e@ == "HOME is not set to an absolute path"@,
            },
        },
{
    if let Some(dir) = custom {
        return Ok((dir.clone(), None));
    }
    let builtin = match builtin_dir(env) {
        Ok(dir) => dir,
        Err(e) => return Err(e),
    };
    match user_dir(env) {
        Ok(dir) => Ok((builtin, Some(dir))),
        Err(e) => Err(e),
    }
}

/// The directory that holds the lock and the runs, nothing without a home.
pub open spec fn state_path(env: BaseEnv) -> Option<Seq<u8>> {
    match base_dir(env.state_home, ".local/state"@, env.home) {
        Some(dir) => Some(path_join(dir, encode_utf8("update-agents"@))),
        None => None,
    }
}

/// The directory that holds the lock and the runs.
pub fn state_dir(env: &BaseEnv) -> (r: Result<PathBytes, String>)
    ensures
        match state_path(*env) {
            Some(dir) => r matches Ok(p) && p@ == dir,
            None => r matches Err(e) && e@ == "HOME is not set to an absolute path"@,
        },
{
    match xdg_dir(&env.state_home, ".local/state", &env.home) {
        Ok(dir) => Ok(dir.join("update-agents")),
        Err(e) => Err(e),
    }
}

/// `name` is the name of a run that starts at `unix_secs` as process `pid`.
pub open spec fn names_run(unix_secs: u64, pid: u32, name: Seq<char>) -> bool {
    exists|date: Date| #[trigger]
        date_of(unix_secs, date) && name == compact_form(date, unix_secs as int % 86_400) + "-"@
            + decimal(pid as nat)
}

/// The directory of a run below the directory of all runs.
pub fn run_dir_path(runs: &PathBytes, unix_secs: u64, pid: u32) -> (r: PathBytes)
    ensures
        exists|name: Seq<char>| #[trigger]
            names_run(unix_secs, pid, name) && r@ == path_join(runs@, encode_utf8(name)),
{
    let mut name = utc_timestamp(unix_secs);
    name.append("-");
    push_decimal(&mut name, pid as u64);
    assert(names_run(unix_secs, pid, name@));
    runs.join(name.as_str())
}

/// The line that says where the catalogue comes from.
pub open spec fn source_line(custom: Option<PathBytes>, env: BaseEnv) -> Seq<char> {
    match custom {
        Some(dir) => "catalogue: "@ + utf8_lossy(dir@),
        None => match (
            base_dir(env.data_home, ".local/share"@, env.home),
            base_dir(env.config_home, ".config"@, env.home),
        ) {
            (Some(b), Some(u)) => "catalogue: "@ + utf8_lossy(agents_dir(b)) + " (builtin) + "@
                + utf8_lossy(agents_dir(u)) + " (user)"@,
            _ => "catalogue: builtin + user agents.d directories"@,
        },
    }
}

/// The line that says where the catalogue comes from.
pub fn catalogue_source_desc(custom: &Option<PathBytes>, env: &BaseEnv) -> (r: String)
    ensures
        r@ == source_line(*custom, *env),
{
    if let Some(dir) = custom {
        let mut s = "catalogue: ".to_owned();
        s.append(dir.display().as_str());
        return s;
    }
    match (builtin_dir(env), user_dir(env)) {
        (Ok(b), Ok(u)) => {
            let mut s = "catalogue: ".to_owned();
            s.append(b.display().as_str());
            s.append(" (builtin) + ");
            s.append(u.display().as_str());
            s.append(" (user)");
            s
        },
        _ => "catalogue: builtin + user agents.d directories".to_owned(),
    }
}

/// An empty or relative variable counts as unset.
pub proof fn relative_variables_count_as_unset(
    var: Option<Vec<u8>>,
    fallback: Seq<char>,
    home: Option<Vec<u8>>,
)
    requires
        var matches Some(v) && !is_absolute_path(v@),
    ensures
        base_dir(var, fallback, home) == base_dir(None, fallback, home),
{
}

/// A tilde or the variable in front of a path stands for the home directory;
/// any other path, and every path without a home, stays as it is.
pub proof fn home_stands_in_front(rest: Seq<u8>, value: Seq<u8>, home: Vec<u8>)
    requires
        home@.len() > 0,
    ensures
        arg_expanded(encode_utf8("~"@), Some(home)) == home@,
        arg_expanded(encode_utf8("$HOME"@), Some(home)) == home@,
        rest.len() > 0 ==> arg_expanded(encode_utf8("~/"@) + rest, Some(home)) == path_join(
            home@,
            rest,
        ),
        rest.len() > 0 ==> arg_expanded(encode_utf8("$HOME/"@) + rest, Some(home)) == path_join(
            home@,
            rest,
        ),
        value.len() > 0 && value[0] != 0x7e && value[0] != 0x24 ==> arg_expanded(value, Some(home))
            == value,
        arg_expanded(value, None) == value,
{
    reveal_strlit("~");
    reveal_strlit("$HOME");
    reveal_strlit("~/");
    reveal_strlit("$HOME/");
    is_ascii_chars_encode_utf8("~"@);
    is_ascii_chars_encode_utf8("$HOME"@);
    is_ascii_chars_encode_utf8("~/"@);
    is_ascii_chars_encode_utf8("$HOME/"@);
    let a = encode_utf8("~"@);
    let b = encode_utf8("$HOME"@);
    let c = encode_utf8("~/"@);
    let d = encode_utf8("$HOME/"@);
    assert(a[0] == 0x7e && b[0] == 0x24 && c[0] == 0x7e && d[0] == 0x24);
    let x = c + rest;
    let y = d + rest;
    assert(x.skip(c.len() as int) =~= rest);
    assert(y.skip(d.len() as int) =~= rest);
    assert(x.take(c.len() as int) =~= c);
    assert(y.take(d.len() as int) =~= d);
    assert(x[0] == 0x7e && y[0] == 0x24);
    if rest.len() > 0 {
        assert(x.len() > 1 && x != a && x != b);
        assert(y.len() > 5 && y != a && y != b);
        assert(!c.is_prefix_of(y));
    }
    if value.len() > 0 && value[0] != 0x7e && value[0] != 0x24 {
        assert(!c.is_prefix_of(value)) by {
            if c.is_prefix_of(value) {
                assert(value[0] == c[0]);
            }
        }
        assert(!d.is_prefix_of(value)) by {
            if d.is_prefix_of(value) {
                assert(value[0] == d[0]);
            }
        }
    }
}

/// Runs and the lock live below the state directory of the user, which is the
/// one of the variable where that is an absolute path, else the usual one
/// below the home directory.
pub proof fn state_lives_below_the_state_directory(env: BaseEnv)
    ensures
        env.state_home matches Some(dir) ==> dir@.len() > 0 && dir@[0] == 0x2f ==> state_path(env)
            == Some(path_join(dir@, encode_utf8("update-agents"@))),
        env.state_home is None ==> match env.home {
            Some(home) => if home@.len() > 0 && home@[0] == 0x2f {
                state_path(env) == Some(
                    path_join(
                        path_join(home@, encode_utf8(".local/state"@)),
                        encode_utf8("update-agents"@),
                    ),
                )
            } else {
                state_path(env) is None
            },
            None => state_path(env) is None,
        },
{
}

/// A base directory is that of the variable where it is an absolute path, else
/// the default below an absolute home directory, else there is none.
pub proof fn base_directories_are_absolute(
    var: Option<Vec<u8>>,
    fallback: Seq<char>,
    home: Option<Vec<u8>>,
)
    ensures
        var matches Some(v) ==> v@.len() > 0 && v@[0] == 0x2f ==> base_dir(var, fallback, home)
            == Some(v@),
        !(var matches Some(v) && v@.len() > 0 && v@[0] == 0x2f) && (home matches Some(h) && h@.len()
            > 0 && h@[0] == 0x2f) ==> base_dir(var, fallback, home) == Some(
            path_join(home->0@, encode_utf8(fallback)),
        ),
        !(var matches Some(v) && v@.len() > 0 && v@[0] == 0x2f) && !(home matches Some(h)
            && h@.len() > 0 && h@[0] == 0x2f) ==> base_dir(var, fallback, home) is None,
{
}

/// Descriptors lie in a directory of their own below that of the program, and
/// the catalogue says where it comes from.
pub proof fn catalogues_say_where_they_come_from(
    dir: PathBytes,
    base: Seq<u8>,
    builtin: Seq<u8>,
    user: Seq<u8>,
    env: BaseEnv,
)
    requires
        base_dir(env.data_home, ".local/share"@, env.home) == Some(builtin),
        base_dir(env.config_home, ".config"@, env.home) == Some(user),
    ensures
        agents_dir(base) == path_join(
            path_join(base, encode_utf8("update-agents"@)),
            encode_utf8("agents.d"@),
        ),
        source_line(Some(dir), env) == "catalogue: "@ + utf8_lossy(dir@),
        source_line(None, env) == "catalogue: "@ + utf8_lossy(agents_dir(builtin))
            + " (builtin) + "@ + utf8_lossy(agents_dir(user)) + " (user)"@,
{
}

/// A run is named after the second it starts in and its process.
pub proof fn runs_are_named_by_time_and_process(unix_secs: u64, pid: u32, name: Seq<char>)
    requires
        names_run(unix_secs, pid, name),
    ensures
        exists|date: Date| #[trigger]
            date_of(unix_secs, date) && name == compact_form(date, unix_secs as int % 86_400)
                + seq!['-'] + decimal(pid as nat),
{
    reveal_strlit("-");
    assert("-"@ =~= seq!['-']);
}

} // verus!
