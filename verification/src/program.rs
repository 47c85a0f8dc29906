//! Finding executables, and the home directory in configured paths.

use vstd::prelude::*;
use vstd::slice::*;
use vstd::string::*;
use vstd::utf8::*;

use crate::bytes::{
    byte_texts, decode_lossy, is_absolute_path, nonempty, path_join, pieces, split_nonempty,
    utf8_lossy, PathBytes,
};
use crate::text::{chars_of, has_char, has_prefix, same_text, text_of};

verus! {

/// What programs are looked up by.
#[derive(Debug)]
pub struct SearchEnv {
    /// The home directory, where it is set.
    pub home: Option<Vec<u8>>,
    /// The search path, where it is set.
    pub path: Option<Vec<u8>>,
}

/// The home directory, where it is set and not empty.
pub open spec fn home_of(env: SearchEnv) -> Option<Seq<u8>> {
    match env.home {
        Some(h) => if h@.len() > 0 {
            Some(h@)
        } else {
            None
        },
        None => None,
    }
}

fn home_path(env: &SearchEnv) -> (r: Option<PathBytes>)
    ensures
        r is Some <==> home_of(*env) is Some,
        r matches Some(p) ==> home_of(*env) == Some(p@),
{
    match &env.home {
        Some(h) => {
            if h.len() > 0 {
                Some(PathBytes::from_bytes(h.as_slice()))
            } else {
                None
            }
        },
        None => None,
    }
}

/// `value` with a leading `~`, `~/`, `$HOME` or `$HOME/` expanded, nothing
/// when it has none.
pub open spec fn home_expanded(value: Seq<char>, env: SearchEnv) -> Option<Seq<u8>> {
    match home_of(env) {
        None => None,
        Some(home) => if value == "~"@ || value == "$HOME"@ {
            Some(home)
        } else if "~/"@.is_prefix_of(value) {
            Some(path_join(home, encode_utf8(value.skip("~/"@.len() as int))))
        } else if "$HOME/"@.is_prefix_of(value) {
            Some(path_join(home, encode_utf8(value.skip("$HOME/"@.len() as int))))
        } else {
            None
        },
    }
}

fn below_home(home: &PathBytes, value: &str, prefix: &str) -> (r: Option<PathBytes>)
    ensures
        r is Some <==> prefix@.is_prefix_of(value@),
        r matches Some(p) ==> p@ == path_join(
            home@,
            encode_utf8(value@.skip(prefix@.len() as int)),
        ),
{
    let v = chars_of(value);
    let p = chars_of(prefix);
    if !has_prefix(v.as_slice(), p.as_slice()) {
        return None;
    }
    let rest = slice_subrange(v.as_slice(), p.len(), v.len());
    assert(rest@ =~= value@.skip(prefix@.len() as int));
    Some(home.join(text_of(rest).as_str()))
}

/// Expands a leading `~`, `~/`, `$HOME` or `$HOME/`. Nothing else is
/// expanded: configured values never get shell-style substitution.
pub fn expand_home(value: &str, env: &SearchEnv) -> (r: Option<PathBytes>)
    ensures
        r is Some <==> home_expanded(value@, *env) is Some,
        r matches Some(p) ==> home_expanded(value@, *env) == Some(p@),
{
    let home = match home_path(env) {
        Some(home) => home,
        None => return None,
    };
    if same_text(value, "~") || same_text(value, "$HOME") {
        return Some(home);
    }
    if let Some(p) = below_home(&home, value, "~/") {
        return Some(p);
    }
    below_home(&home, value, "$HOME/")
}

/// The path that a configured value stands for.
pub open spec fn path_of_value(value: Seq<char>, env: SearchEnv) -> Seq<u8> {
    match home_expanded(value, env) {
        Some(p) => p,
        None => encode_utf8(value),
    }
}

/// The path that a configured value stands for: expanded, or as written.
pub fn value_path(value: &str, env: &SearchEnv) -> (r: PathBytes)
    ensures
        r@ == path_of_value(value@, *env),
{
    match expand_home(value, env) {
        Some(p) => p,
        None => PathBytes::from_text(value),
    }
}

/// The paths held by a list.
pub open spec fn paths(v: Seq<PathBytes>) -> Seq<Seq<u8>> {
    v.map_values(|p: PathBytes| p@)
}

/// The directories of the search path.
pub open spec fn path_dirs(env: SearchEnv) -> Seq<Seq<u8>> {
    match env.path {
        Some(p) => nonempty(pieces(p@, 0x3a)),
        None => Seq::empty(),
    }
}

/// The known version-manager directories below the home directory.
pub open spec fn home_dirs(env: SearchEnv) -> Seq<Seq<u8>> {
    match home_of(env) {
        Some(home) => seq![
            path_join(home, encode_utf8(".local/bin"@)),
            path_join(home, encode_utf8(".grok/bin"@)),
            path_join(home, encode_utf8(".bun/bin"@)),
        ],
        None => Seq::empty(),
    }
}

/// The absolute paths among `list`.
pub open spec fn absolute_only(list: Seq<Seq<u8>>) -> Seq<Seq<u8>>
    decreases list.len(),
{
    if list.len() == 0 {
        Seq::empty()
    } else {
        let rest = absolute_only(list.drop_last());
        if is_absolute_path(list.last()) {
            rest.push(list.last())
        } else {
            rest
        }
    }
}

proof fn lemma_absolute_only(list: Seq<Seq<u8>>, i: int)
    requires
        0 <= i < absolute_only(list).len(),
    ensures
        is_absolute_path(absolute_only(list)[i]),
    decreases list.len(),
{
    let rest = absolute_only(list.drop_last());
    if i < rest.len() {
        lemma_absolute_only(list.drop_last(), i);
    }
}

/// The directories in which bare program names are looked up.
pub open spec fn search_dirs(env: SearchEnv) -> Seq<Seq<u8>> {
    absolute_only(path_dirs(env) + home_dirs(env))
}

/// Directories searched for bare program names: the search path first, then
/// the known version-manager directories that are commonly absent from it.
/// Relative directories are left out: a program resolves to an absolute path.
pub fn program_search_dirs(env: &SearchEnv) -> (r: Vec<PathBytes>)
    ensures
        paths(r@) == search_dirs(*env),
{
    let mut dirs: Vec<PathBytes> = Vec::new();
    assert(paths(dirs@) =~= Seq::<Seq<u8>>::empty());
    if let Some(path) = &env.path {
        let parts = split_nonempty(path.as_slice(), 0x3a);
        for i in 0..parts.len()
            invariant
                paths(dirs@) == byte_texts(parts@).take(i as int),
        {
            let ghost all = byte_texts(parts@);
            let ghost before = paths(dirs@);
            dirs.push(PathBytes::from_bytes(parts[i].as_slice()));
            assert(paths(dirs@) =~= before.push(all[i as int]));
            assert(all.take(i + 1) =~= all.take(i as int).push(all[i as int]));
        }
        assert(byte_texts(parts@).take(parts@.len() as int) =~= byte_texts(parts@));
    }
    let ghost head = paths(dirs@);
    assert(head =~= path_dirs(*env));
    if let Some(home) = home_path(env) {
        dirs.push(home.join(".local/bin"));
        dirs.push(home.join(".grok/bin"));
        dirs.push(home.join(".bun/bin"));
    }
    assert(paths(dirs@) =~= head + home_dirs(*env));
    keep_absolute(&dirs)
}

fn keep_absolute(dirs: &Vec<PathBytes>) -> (r: Vec<PathBytes>)
    ensures
        paths(r@) == absolute_only(paths(dirs@)),
{
    let mut out: Vec<PathBytes> = Vec::new();
    let ghost all = paths(dirs@);
    assert(paths(out@) =~= Seq::<Seq<u8>>::empty());
    for i in 0..dirs.len()
        invariant
            all == paths(dirs@),
            paths(out@) == absolute_only(all.take(i as int)),
    {
        assert(all.take(i + 1).drop_last() =~= all.take(i as int));
        assert(all[i as int] == dirs@[i as int]@);
        if dirs[i].is_absolute() {
            let ghost before = paths(out@);
            out.push(dirs[i].clone());
            assert(paths(out@) =~= before.push(all[i as int]));
        }
    }
    assert(all.take(dirs@.len() as int) =~= all);
    out
}

/// The paths at which `value` may be found, in the order in which they are
/// tried.
pub open spec fn candidates(value: Seq<char>, env: SearchEnv) -> Seq<Seq<u8>> {
    if value.contains('/') {
        seq![path_of_value(value, env)]
    } else {
        search_dirs(env).map_values(|d: Seq<u8>| path_join(d, encode_utf8(value)))
    }
}

/// A value that looks like a path must stand for an absolute one.
pub open spec fn well_named(value: Seq<char>, env: SearchEnv) -> bool {
    value.contains('/') ==> is_absolute_path(path_of_value(value, env))
}

/// What is said of a value that looks like a path and is not absolute.
pub open spec fn relative_reason(value: Seq<char>) -> Seq<char> {
    "program '"@ + value
        + "' looks like a path but is not absolute; use ~, $HOME or an absolute path"@
}

/// The paths at which a program may be found, in the order in which they are
/// tried. Path-like values are used as authored, bare names are looked up.
pub fn program_candidates(value: &str, env: &SearchEnv) -> (r: Result<Vec<PathBytes>, String>)
    ensures
        r is Ok <==> well_named(value@, *env),
        r matches Ok(list) ==> paths(list@) == candidates(value@, *env),
        r matches Err(e) ==> e@ == relative_reason(value@),
{
    let mut out: Vec<PathBytes> = Vec::new();
    if has_char(value, '/') {
        let p = value_path(value, env);
        if !p.is_absolute() {
            let mut e = "program '".to_owned();
            e.append(value);
            e.append("' looks like a path but is not absolute; use ~, $HOME or an absolute path");
            return Err(e);
        }
        out.push(p);
        assert(paths(out@) =~= candidates(value@, *env));
        return Ok(out);
    }
    let dirs = program_search_dirs(env);
    for i in 0..dirs.len()
        invariant
            !value@.contains('/'),
            paths(dirs@) == search_dirs(*env),
            paths(out@) == candidates(value@, *env).take(i as int),
    {
        let ghost all = candidates(value@, *env);
        let ghost before = paths(out@);
        out.push(dirs[i].join(value));
        assert(paths(dirs@)[i as int] == dirs@[i as int]@);
        assert(paths(out@) =~= before.push(all[i as int]));
        assert(all.take(i + 1) =~= all.take(i as int).push(all[i as int]));
    }
    assert(paths(dirs@).len() == dirs@.len());
    assert(candidates(value@, *env).take(dirs@.len() as int) =~= candidates(value@, *env));
    Ok(out)
}

/// A regular file that anybody may execute counts as a program.
pub fn is_executable(is_file: bool, mode: u32) -> (r: bool)
    ensures
        r == (is_file && mode & 0o111 != 0),
{
    is_file && mode & 0o111 != 0
}

/// The first of `list` that is among `found`.
pub open spec fn first_found(list: Seq<Seq<u8>>, found: Seq<Seq<u8>>) -> Option<Seq<u8>>
    decreases list.len(),
{
    if list.len() == 0 {
        None
    } else if found.contains(list[0]) {
        Some(list[0])
    } else {
        first_found(list.skip(1), found)
    }
}

/// The path to which `value` resolves, when `found` are the executables.
pub open spec fn resolved(value: Seq<char>, env: SearchEnv, found: Seq<Seq<u8>>) -> Option<
    Seq<u8>,
> {
    first_found(candidates(value, env), found)
}

fn is_found(path: &PathBytes, found: &Vec<PathBytes>) -> (r: bool)
    ensures
        r == paths(found@).contains(path@),
{
    for i in 0..found.len()
        invariant
            forall|k: int| 0 <= k < i ==> (#[trigger] found@[k])@ != path@,
    {
        if found[i].same_as(path) {
            assert(paths(found@)[i as int] == path@);
            return true;
        }
    }
    assert(!paths(found@).contains(path@)) by {
        if paths(found@).contains(path@) {
            let k = paths(found@).index_of(path@);
            assert(found@[k]@ == path@);
        }
    }
    false
}

proof fn lemma_candidates_are_absolute(value: Seq<char>, env: SearchEnv, i: int)
    requires
        well_named(value, env),
        0 <= i < candidates(value, env).len(),
    ensures
        is_absolute_path(candidates(value, env)[i]),
{
    if !value.contains('/') {
        lemma_absolute_only(path_dirs(env) + home_dirs(env), i);
    }
}

/// Resolves a program reference to an absolute path, symlinks kept as they are
/// so that in-place upgrades keep working. `found` are the executables among the
/// candidates. Nothing means "not found"; an error marks the reference itself
/// invalid.
pub fn resolve_program(value: &str, env: &SearchEnv, found: &Vec<PathBytes>) -> (r: Result<
    Option<PathBytes>,
    String,
>)
    ensures
        r is Ok <==> well_named(value@, *env),
        r matches Err(e) ==> e@ == relative_reason(value@),
        r matches Ok(p) ==> match resolved(value@, *env, paths(found@)) {
            Some(path) => p matches Some(q) && q@ == path,
            None => p is None,
        },
        r matches Ok(Some(p)) ==> is_absolute_path(p@) && paths(found@).contains(p@),
{
    let list = match program_candidates(value, env) {
        Ok(list) => list,
        Err(e) => return Err(e),
    };
    let ghost all = paths(list@);
    assert(all.skip(0) =~= all);
    for i in 0..list.len()
        invariant
            well_named(value@, *env),
            all == paths(list@),
            all == candidates(value@, *env),
            resolved(value@, *env, paths(found@)) == first_found(
                all.skip(i as int),
                paths(found@),
            ),
    {
        assert(all.skip(i as int)[0] == list@[i as int]@);
        assert(all.skip(i as int).skip(1) =~= all.skip(i + 1));
        if is_found(&list[i], found) {
            proof {
                lemma_candidates_are_absolute(value@, *env, i as int);
            }
            return Ok(Some(list[i].clone()));
        }
    }
    Ok(None)
}

/// The program as it is started: the resolved path, or the value as written.
pub open spec fn program_form(path: Option<Seq<u8>>, value: Seq<char>) -> Seq<char> {
    match path {
        Some(p) => utf8_lossy(p),
        None => value,
    }
}

/// The program as it is started: the resolved path, or the value as written.
pub fn program_string(path: &Option<PathBytes>, value: &str) -> (r: String)
    ensures
        r@ == program_form(
            match *path {
                Some(p) => Some(p@),
                None => None,
            },
            value@,
        ),
{
    match path {
        Some(p) => decode_lossy(p.bytes.as_slice()),
        None => value.to_owned(),
    }
}

/// A program that resolves does so to one of the executables, the first of
/// its candidates that is one; a reference that does not resolve has no
/// executable candidate.
pub proof fn resolution_finds_the_first_executable(
    value: Seq<char>,
    env: SearchEnv,
    found: Seq<Seq<u8>>,
)
    ensures
        match resolved(value, env, found) {
            Some(p) => exists|k: int|
                0 <= k < candidates(value, env).len() && #[trigger] candidates(value, env)[k] == p
                    && found.contains(p) && forall|j: int|
                    0 <= j < k ==> !found.contains(#[trigger] candidates(value, env)[j]),
            None => forall|k: int|
                0 <= k < candidates(value, env).len() ==> !found.contains(
                    #[trigger] candidates(value, env)[k],
                ),
        },
{
    lemma_first_found(candidates(value, env), found);
}

proof fn lemma_first_found(list: Seq<Seq<u8>>, found: Seq<Seq<u8>>)
    ensures
        match first_found(list, found) {
            Some(p) => exists|k: int|
                0 <= k < list.len() && #[trigger] list[k] == p && found.contains(p) && forall|j: int|
                    0 <= j < k ==> !found.contains(#[trigger] list[j]),
            None => forall|k: int| 0 <= k < list.len() ==> !found.contains(#[trigger] list[k]),
        },
    decreases list.len(),
{
    if list.len() > 0 {
        let rest = list.skip(1);
        lemma_first_found(rest, found);
        if found.contains(list[0]) {
            assert(list[0] == list[0]);
        } else {
            match first_found(rest, found) {
                Some(p) => {
                    let k = choose|k: int|
                        0 <= k < rest.len() && #[trigger] rest[k] == p && found.contains(p)
                            && forall|j: int|
                            0 <= j < k ==> !found.contains(#[trigger] rest[j]);
                    assert(list[k + 1] == p);
                    assert forall|j: int| 0 <= j < k + 1 implies !found.contains(
                        #[trigger] list[j],
                    ) by {
                        if j > 0 {
                            assert(list[j] == rest[j - 1]);
                        }
                    }
                },
                None => {
                    assert forall|k: int| 0 <= k < list.len() implies !found.contains(
                        #[trigger] list[k],
                    ) by {
                        if k > 0 {
                            assert(list[k] == rest[k - 1]);
                        }
                    }
                },
            }
        }
    }
}

/// A tilde or the variable in front of a configured value stands for the home
/// directory; nothing else is expanded.
pub proof fn home_is_expanded_in_front(rest: Seq<char>, value: Seq<char>, env: SearchEnv, home: Vec<u8>)
    requires
        env.home == Some(home),
        home@.len() > 0,
    ensures
        path_of_value("~"@, env) == home@,
        path_of_value("$HOME"@, env) == home@,
        path_of_value("~/"@ + rest, env) == path_join(home@, encode_utf8(rest)),
        path_of_value("$HOME/"@ + rest, env) == path_join(home@, encode_utf8(rest)),
        value.len() > 0 && value[0] != '~' && value[0] != '$' ==> path_of_value(value, env)
            == encode_utf8(value),
{
    reveal_strlit("~");
    reveal_strlit("$HOME");
    reveal_strlit("~/");
    reveal_strlit("$HOME/");
    let x = "~/"@ + rest;
    let y = "$HOME/"@ + rest;
    assert(x.skip(2) =~= rest);
    assert(y.skip(6) =~= rest);
    assert(x.take(2) =~= "~/"@);
    assert(y.take(6) =~= "$HOME/"@);
    assert(x[0] == '~' && y[0] == '$');
    assert(x != "$HOME"@) by {
        assert("$HOME"@[0] == '$');
    }
    assert(y != "~"@ && y.len() > 5);
    assert(!"~/"@.is_prefix_of(y)) by {
        if "~/"@.is_prefix_of(y) {
            assert(y[0] == "~/"@[0]);
        }
    }
    if value.len() > 0 && value[0] != '~' && value[0] != '$' {
        assert(!"~/"@.is_prefix_of(value)) by {
            if "~/"@.is_prefix_of(value) {
                assert(value[0] == "~/"@[0]);
            }
        }
        assert(!"$HOME/"@.is_prefix_of(value)) by {
            if "$HOME/"@.is_prefix_of(value) {
                assert(value[0] == "$HOME/"@[0]);
            }
        }
    }
}

/// Programs are looked up in the directories of the search path, then in the
/// known ones below the home directory, and only in absolute ones.
pub proof fn the_search_path_comes_first(env: SearchEnv, path: Vec<u8>, home: Vec<u8>)
    requires
        env.path == Some(path),
        env.home == Some(home),
        home@.len() > 0,
    ensures
        search_dirs(env) == (nonempty(pieces(path@, 0x3a)) + seq![
            path_join(home@, encode_utf8(".local/bin"@)),
            path_join(home@, encode_utf8(".grok/bin"@)),
            path_join(home@, encode_utf8(".bun/bin"@)),
        ]).filter(|d: Seq<u8>| d.len() > 0 && d[0] == 0x2f),
{
    lemma_absolute_filter(path_dirs(env) + home_dirs(env));
}

/// Without a home directory only the search path counts, and without a search
/// path only the home directory.
pub proof fn missing_variables_add_no_directories(env: SearchEnv)
    ensures
        env.home is None || env.home->0@.len() == 0 ==> search_dirs(env) == path_dirs(env).filter(
            |d: Seq<u8>| d.len() > 0 && d[0] == 0x2f,
        ),
        env.path is None ==> path_dirs(env).len() == 0,
{
    lemma_absolute_filter(path_dirs(env) + home_dirs(env));
    if env.home is None || env.home->0@.len() == 0 {
        assert(path_dirs(env) + home_dirs(env) =~= path_dirs(env));
    }
}

proof fn lemma_absolute_filter(list: Seq<Seq<u8>>)
    ensures
        absolute_only(list) == list.filter(|d: Seq<u8>| d.len() > 0 && d[0] == 0x2f),
    decreases list.len(),
{
    reveal(Seq::filter);
    if list.len() > 0 {
        lemma_absolute_filter(list.drop_last());
    }
}

/// A value with a slash is used as it is; a bare name is looked for in every
/// directory, in their order.
pub proof fn bare_names_are_looked_up(value: Seq<char>, env: SearchEnv, i: int)
    ensures
        value.contains('/') ==> candidates(value, env) == seq![path_of_value(value, env)],
        !value.contains('/') ==> candidates(value, env).len() == search_dirs(env).len(),
        !value.contains('/') && 0 <= i < search_dirs(env).len() ==> candidates(value, env)[i]
            == path_join(search_dirs(env)[i], encode_utf8(value)),
{
}

/// A program that was found is started by its path, else by its name; a name
/// with a slash must be that of an absolute path, and is refused in words.
pub proof fn found_programs_are_started_by_path(
    path: Seq<u8>,
    value: Seq<char>,
    env: SearchEnv,
    list: Vec<PathBytes>,
    i: int,
)
    requires
        0 <= i < list@.len(),
    ensures
        program_form(Some(path), value) == utf8_lossy(path),
        program_form(None, value) == value,
        well_named(value, env) <==> (value.contains('/') ==> path_of_value(value, env).len() > 0
            && path_of_value(value, env)[0] == 0x2f),
        relative_reason(value) == "program '"@ + value
            + "' looks like a path but is not absolute; use ~, $HOME or an absolute path"@,
        paths(list@).len() == list@.len(),
        paths(list@)[i] == list@[i]@,
{
}

} // verus!
