//! Command line options.

use vstd::prelude::*;
use vstd::slice::*;
use vstd::string::*;
use vstd::utf8::*;

use crate::bytes::{
    byte_texts, bytes_of, decode_lossy, same_bytes, starts_with_bytes, utf8_lossy, PathBytes,
};
use crate::number::{decimal, decimal_reads_back, parse_unsigned, unsigned_value};
use crate::paths::{arg_expanded, expand_home};
use crate::text::{
    chars_of, index_of_byte, is_blank, lemma_position_unique, position_of, same_text, text_of,
    texts, trim, trimmed,
};

verus! {

/// The options of a run.
#[derive(Debug)]
pub struct Options {
    pub help: bool,
    pub version: bool,
    pub list: bool,
    pub plain: bool,
    pub bg: bool,
    pub jobs: Option<usize>,
    pub timeout: Option<u64>,
    pub agents_dir: Option<PathBytes>,
    pub ids: Vec<String>,
}

pub struct OptionsView {
    pub help: bool,
    pub version: bool,
    pub list: bool,
    pub plain: bool,
    pub bg: bool,
    pub jobs: Option<usize>,
    pub timeout: Option<u64>,
    pub agents_dir: Option<Seq<u8>>,
    pub ids: Seq<Seq<char>>,
}

impl View for Options {
    type V = OptionsView;

    open spec fn view(&self) -> OptionsView {
        OptionsView {
            help: self.help,
            version: self.version,
            list: self.list,
            plain: self.plain,
            bg: self.bg,
            jobs: self.jobs,
            timeout: self.timeout,
            agents_dir: match self.agents_dir {
                Some(p) => Some(p@),
                None => None,
            },
            ids: texts(self.ids@),
        }
    }
}

/// The options before anything was given.
pub open spec fn no_options() -> OptionsView {
    OptionsView {
        help: false,
        version: false,
        list: false,
        plain: false,
        bg: false,
        jobs: None,
        timeout: None,
        agents_dir: None,
        ids: Seq::empty(),
    }
}

// ---------------------------------------------------------------------------
// Values
// ---------------------------------------------------------------------------

/// The positive whole number that `v` denotes, or what is wrong with it.
pub open spec fn positive(v: Seq<char>, opt: Seq<char>, expects: Seq<char>, max: nat) -> Result<
    nat,
    Seq<char>,
> {
    match unsigned_value(trimmed(v), max) {
        None => Err(opt + expects + v + "'"@),
        Some(n) => if n == 0 {
            Err(opt + " must be at least 1"@)
        } else {
            Ok(n)
        },
    }
}

fn parse_positive(v: &str, opt: &str, expects: &str, max: u64) -> (r: Result<u64, String>)
    ensures
        match positive(v@, opt@, expects@, max as nat) {
            Ok(n) => r matches Ok(m) && m == n,
            Err(text) => r matches Err(e) && e@ == text,
        },
{
    let chars = chars_of(v);
    let n: u64 = match parse_unsigned(trim(chars.as_slice()), max) {
        Some(n) => n,
        None => {
            let mut e = opt.to_owned();
            e.append(expects);
            e.append(v);
            e.append("'");
            return Err(e);
        },
    };
    if n == 0 {
        let mut e = opt.to_owned();
        e.append(" must be at least 1");
        return Err(e);
    }
    Ok(n)
}

/// The count that `v` denotes, or what is wrong with it.
pub open spec fn count_of(v: Seq<char>, opt: Seq<char>) -> Result<nat, Seq<char>> {
    positive(v, opt, " expects a whole number, got '"@, usize::MAX as nat)
}

/// Parses a count of at least one.
pub fn parse_count(v: &str, opt: &str) -> (r: Result<usize, String>)
    ensures
        match count_of(v@, opt@) {
            Ok(n) => r matches Ok(m) && m == n,
            Err(text) => r matches Err(e) && e@ == text,
        },
{
    match parse_positive(v, opt, " expects a whole number, got '", usize::MAX as u64) {
        Ok(n) => Ok(n as usize),
        Err(e) => Err(e),
    }
}

/// The seconds that `v` denotes, or what is wrong with it.
pub open spec fn secs_of(v: Seq<char>, opt: Seq<char>) -> Result<nat, Seq<char>> {
    positive(v, opt, " expects a whole number of seconds, got '"@, u64::MAX as nat)
}

/// Parses a time of at least one second.
pub fn parse_secs(v: &str, opt: &str) -> (r: Result<u64, String>)
    ensures
        match secs_of(v@, opt@) {
            Ok(n) => r matches Ok(m) && m == n,
            Err(text) => r matches Err(e) && e@ == text,
        },
{
    parse_positive(v, opt, " expects a whole number of seconds, got '", u64::MAX)
}

/// Checks and expands a directory given by the user.
pub fn dir_value(v: &[u8], home: &Option<Vec<u8>>) -> (r: Result<PathBytes, String>)
    ensures
        r is Ok <==> v@.len() > 0,
        r matches Ok(p) ==> p@ == arg_expanded(v@, *home),
        r matches Err(e) ==> e@ == "--agents-dir needs a directory path"@,
{
    if v.len() == 0 {
        return Err("--agents-dir needs a directory path".to_owned());
    }
    Ok(expand_home(v, home))
}

/// The options with one more tool id, repetitions dropped.
pub open spec fn with_id(o: OptionsView, id: Seq<char>) -> Result<OptionsView, Seq<char>> {
    let id = trimmed(id);
    if id.len() == 0 {
        Err("empty tool id"@)
    } else if o.ids.contains(id) {
        Ok(o)
    } else {
        Ok(OptionsView { ids: o.ids.push(id), ..o })
    }
}

/// `r` is what `want` says, with the options left as they are on an error.
pub open spec fn took(
    before: OptionsView,
    after: OptionsView,
    r: Result<(), String>,
    want: Result<OptionsView, Seq<char>>,
) -> bool {
    match want {
        Ok(o) => r is Ok && after == o,
        Err(text) => (r matches Err(e) && e@ == text) && after == before,
    }
}

/// Adds a tool id; one that is there already is not added again.
pub fn push_id(o: &mut Options, id: &str) -> (r: Result<(), String>)
    ensures
        took(old(o)@, final(o)@, r, with_id(old(o)@, id@)),
{
    let chars = chars_of(id);
    let name = text_of(trim(chars.as_slice()));
    if is_blank(name.as_str()) {
        return Err("empty tool id".to_owned());
    }
    for i in 0..o.ids.len()
        invariant
            *o == *old(o),
            name@.len() > 0,
            name@ == trimmed(id@),
            forall|k: int| 0 <= k < i ==> (#[trigger] o.ids@[k])@ != name@,
    {
        if same_text(o.ids[i].as_str(), name.as_str()) {
            assert(texts(o.ids@)[i as int] == name@);
            return Ok(());
        }
    }
    proof {
        if texts(o.ids@).contains(name@) {
            let k = texts(o.ids@).index_of(name@);
            assert(o.ids@[k]@ == name@);
        }
    }
    o.ids.push(name);
    assert(texts(o.ids@) =~= texts(old(o).ids@).push(name@));
    Ok(())
}

// ---------------------------------------------------------------------------
// Arguments
// ---------------------------------------------------------------------------

/// A long option with its value in the same argument.
#[derive(Debug)]
pub struct Assignment {
    pub name: Vec<u8>,
    /// The name as text.
    pub name_text: String,
    pub value: Vec<u8>,
    /// The value as text.
    pub text: String,
}

/// An argument, with its text.
#[derive(Debug)]
pub struct Argument {
    pub bytes: Vec<u8>,
    pub text: String,
    /// It starts with two dashes.
    pub long: bool,
    /// The parts around the first equals sign of a long option.
    pub assignment: Option<Assignment>,
}

pub struct AssignmentView {
    pub name: Seq<u8>,
    pub name_text: Seq<char>,
    pub value: Seq<u8>,
    pub text: Seq<char>,
}

pub struct ArgumentView {
    pub bytes: Seq<u8>,
    pub text: Seq<char>,
    pub long: bool,
    pub assignment: Option<AssignmentView>,
}

impl View for Argument {
    type V = ArgumentView;

    open spec fn view(&self) -> ArgumentView {
        ArgumentView {
            bytes: self.bytes@,
            text: self.text@,
            long: self.long,
            assignment: match self.assignment {
                Some(a) => Some(
                    AssignmentView {
                        name: a.name@,
                        name_text: a.name_text@,
                        value: a.value@,
                        text: a.text@,
                    },
                ),
                None => None,
            },
        }
    }
}

/// The arguments held by a list.
pub open spec fn arguments(v: Seq<Argument>) -> Seq<ArgumentView> {
    v.map_values(|a: Argument| a@)
}

/// An argument as it is read.
pub open spec fn argument_of(bytes: Seq<u8>) -> ArgumentView {
    let long = encode_utf8("--"@).is_prefix_of(bytes);
    let eq = position_of(bytes, 0x3d);
    ArgumentView {
        bytes,
        text: utf8_lossy(bytes),
        long,
        assignment: if long && eq < bytes.len() {
            Some(
                AssignmentView {
                    name: bytes.take(eq),
                    name_text: utf8_lossy(bytes.take(eq)),
                    value: bytes.skip(eq + 1),
                    text: utf8_lossy(bytes.skip(eq + 1)),
                },
            )
        } else {
            None
        },
    }
}

/// Reads one argument.
pub fn read_argument(bytes: &[u8]) -> (r: Argument)
    ensures
        r@ == argument_of(bytes@),
{
    let long = starts_with_bytes(bytes, bytes_of("--").as_slice());
    let mut assignment: Option<Assignment> = None;
    let eq: usize = index_of_byte(bytes, 0x3d);
    if long && eq < bytes.len() {
        let name = slice_subrange(bytes, 0, eq);
        let value = slice_subrange(bytes, eq + 1, bytes.len());
        assert(name@ =~= bytes@.take(eq as int));
        assert(value@ =~= bytes@.skip(eq + 1));
        assignment = Some(
            Assignment {
                name: slice_to_vec(name),
                name_text: decode_lossy(name),
                value: slice_to_vec(value),
                text: decode_lossy(value),
            },
        );
    }
    Argument { bytes: slice_to_vec(bytes), text: decode_lossy(bytes), long, assignment }
}

/// What an unknown option is answered.
pub open spec fn unknown_option(name: Seq<char>) -> Seq<char> {
    "unknown option '"@ + name + "' (try --help)"@
}

fn unknown_text(name: &str) -> (r: String)
    ensures
        r@ == unknown_option(name@),
{
    let mut e = "unknown option '".to_owned();
    e.append(name);
    e.append("' (try --help)");
    e
}

/// An option that stands for itself.
#[derive(Clone, Copy, Debug, PartialEq, Eq, Structural)]
pub enum Flag {
    Help,
    Version,
    List,
    Plain,
    Bg,
}

/// The flag with the given name.
pub open spec fn flag_of(name: Seq<u8>) -> Option<Flag> {
    if name == encode_utf8("--help"@) {
        Some(Flag::Help)
    } else if name == encode_utf8("--version"@) {
        Some(Flag::Version)
    } else if name == encode_utf8("--list"@) || name == encode_utf8("--dry-run"@) {
        Some(Flag::List)
    } else if name == encode_utf8("--plain"@) {
        Some(Flag::Plain)
    } else if name == encode_utf8("--bg"@) {
        Some(Flag::Bg)
    } else {
        None
    }
}

fn is_named(name: &[u8], text: &str) -> (r: bool)
    ensures
        r == (name@ == encode_utf8(text@)),
{
    same_bytes(name, bytes_of(text).as_slice())
}

/// The flag with the given name.
pub fn find_flag(name: &[u8]) -> (r: Option<Flag>)
    ensures
        r == flag_of(name@),
{
    if is_named(name, "--help") {
        Some(Flag::Help)
    } else if is_named(name, "--version") {
        Some(Flag::Version)
    } else if is_named(name, "--list") || is_named(name, "--dry-run") {
        Some(Flag::List)
    } else if is_named(name, "--plain") {
        Some(Flag::Plain)
    } else if is_named(name, "--bg") {
        Some(Flag::Bg)
    } else {
        None
    }
}

/// The options after a flag.
pub open spec fn with_flag(o: OptionsView, flag: Flag) -> OptionsView {
    match flag {
        Flag::Help => OptionsView { help: true, ..o },
        Flag::Version => OptionsView { version: true, ..o },
        Flag::List => OptionsView { list: true, ..o },
        Flag::Plain => OptionsView { plain: true, ..o },
        Flag::Bg => OptionsView { bg: true, ..o },
    }
}

fn set_flag(o: &mut Options, flag: Flag)
    ensures
        final(o)@ == with_flag(old(o)@, flag),
{
    match flag {
        Flag::Help => o.help = true,
        Flag::Version => o.version = true,
        Flag::List => o.list = true,
        Flag::Plain => o.plain = true,
        Flag::Bg => o.bg = true,
    }
}

/// An option that takes a value.
#[derive(Clone, Copy, Debug, PartialEq, Eq, Structural)]
pub enum Valued {
    Jobs,
    Timeout,
    AgentsDir,
}

/// The name of an option that takes a value.
pub open spec fn valued_name(opt: Valued) -> Seq<char> {
    match opt {
        Valued::Jobs => "--jobs"@,
        Valued::Timeout => "--timeout"@,
        Valued::AgentsDir => "--agents-dir"@,
    }
}

fn valued_text(opt: Valued) -> (r: &'static str)
    ensures
        r@ == valued_name(opt),
{
    match opt {
        Valued::Jobs => "--jobs",
        Valued::Timeout => "--timeout",
        Valued::AgentsDir => "--agents-dir",
    }
}

/// The option with the given name that takes a value.
pub open spec fn valued_of(name: Seq<u8>) -> Option<Valued> {
    if name == encode_utf8("--jobs"@) {
        Some(Valued::Jobs)
    } else if name == encode_utf8("--timeout"@) {
        Some(Valued::Timeout)
    } else if name == encode_utf8("--agents-dir"@) {
        Some(Valued::AgentsDir)
    } else {
        None
    }
}

/// The option with the given name that takes a value.
pub fn find_valued(name: &[u8]) -> (r: Option<Valued>)
    ensures
        r == valued_of(name@),
{
    if is_named(name, "--jobs") {
        Some(Valued::Jobs)
    } else if is_named(name, "--timeout") {
        Some(Valued::Timeout)
    } else if is_named(name, "--agents-dir") {
        Some(Valued::AgentsDir)
    } else {
        None
    }
}

/// The options after an option with its value.
pub open spec fn with_value(
    o: OptionsView,
    opt: Valued,
    value: Seq<u8>,
    text: Seq<char>,
    home: Option<Vec<u8>>,
) -> Result<OptionsView, Seq<char>> {
    match opt {
        Valued::Jobs => match count_of(text, "--jobs"@) {
            Ok(n) => Ok(OptionsView { jobs: Some(n as usize), ..o }),
            Err(e) => Err(e),
        },
        Valued::Timeout => match secs_of(text, "--timeout"@) {
            Ok(n) => Ok(OptionsView { timeout: Some(n as u64), ..o }),
            Err(e) => Err(e),
        },
        Valued::AgentsDir => if value.len() == 0 {
            Err("--agents-dir needs a directory path"@)
        } else {
            Ok(OptionsView { agents_dir: Some(arg_expanded(value, home)), ..o })
        },
    }
}

fn set_value(
    o: &mut Options,
    opt: Valued,
    value: &[u8],
    text: &str,
    home: &Option<Vec<u8>>,
) -> (r: Result<(), String>)
    ensures
        took(old(o)@, final(o)@, r, with_value(old(o)@, opt, value@, text@, *home)),
{
    match opt {
        Valued::Jobs => match parse_count(text, "--jobs") {
            Ok(n) => {
                o.jobs = Some(n);
                Ok(())
            },
            Err(e) => Err(e),
        },
        Valued::Timeout => match parse_secs(text, "--timeout") {
            Ok(n) => {
                o.timeout = Some(n);
                Ok(())
            },
            Err(e) => Err(e),
        },
        Valued::AgentsDir => match dir_value(value, home) {
            Ok(p) => {
                o.agents_dir = Some(p);
                Ok(())
            },
            Err(e) => Err(e),
        },
    }
}

/// What is said when an option has no value.
pub open spec fn missing_value(opt: Seq<char>) -> Seq<char> {
    opt + " needs a value"@
}

/// The argument at `i`, which is the value of `opt`.
pub fn arg_value<'a>(args: &'a Vec<Argument>, i: usize, opt: &str) -> (r: Result<
    &'a Argument,
    String,
>)
    ensures
        r is Ok <==> i < args@.len(),
        r matches Ok(a) ==> *a == args@[i as int],
        r matches Err(e) ==> e@ == missing_value(opt@),
{
    if i < args.len() {
        Ok(&args[i])
    } else {
        let mut e = opt.to_owned();
        e.append(" needs a value");
        Err(e)
    }
}

/// An argument that looks like a short option.
pub open spec fn is_short(text: Seq<char>) -> bool {
    text.len() > 1 && text[0] == '-'
}

/// The argument behind which every argument is a tool id.
pub open spec fn is_terminator(bytes: Seq<u8>) -> bool {
    bytes == encode_utf8("--"@)
}

/// The options that the arguments make of `o`. Behind the terminator every
/// argument is a tool id.
pub open spec fn parsed(
    args: Seq<ArgumentView>,
    ids_only: bool,
    o: OptionsView,
    home: Option<Vec<u8>>,
) -> Result<OptionsView, Seq<char>>
    decreases args.len(),
{
    if args.len() == 0 {
        Ok(o)
    } else {
        let a = args[0];
        let rest = args.skip(1);
        if ids_only || (!a.long && !is_short(a.text)) {
            match with_id(o, a.text) {
                Ok(next) => parsed(rest, ids_only, next, home),
                Err(e) => Err(e),
            }
        } else if !a.long {
            Err(unknown_option(a.text))
        } else {
            match a.assignment {
                Some(v) => match valued_of(v.name) {
                    Some(opt) => match with_value(o, opt, v.value, v.text, home) {
                        Ok(next) => parsed(rest, false, next, home),
                        Err(e) => Err(e),
                    },
                    None => if flag_of(v.name) is Some {
                        Err(v.name_text + " does not take a value"@)
                    } else {
                        Err(unknown_option(v.name_text))
                    },
                },
                None => if is_terminator(a.bytes) {
                    parsed(rest, true, o, home)
                } else {
                    match (flag_of(a.bytes), valued_of(a.bytes)) {
                        (Some(flag), _) => parsed(rest, false, with_flag(o, flag), home),
                        (None, Some(opt)) => if rest.len() > 0 {
                            match with_value(o, opt, rest[0].bytes, rest[0].text, home) {
                                Ok(next) => parsed(rest.skip(1), false, next, home),
                                Err(e) => Err(e),
                            }
                        } else {
                            Err(missing_value(valued_name(opt)))
                        },
                        (None, None) => Err(unknown_option(a.text)),
                    }
                },
            }
        }
    }
}

fn looks_short(text: &str) -> (r: bool)
    ensures
        r == is_short(text@),
{
    let v = chars_of(text);
    v.len() > 1 && v[0] == '-'
}

/// `r` is what `want` says.
pub open spec fn parse_agrees(
    r: Result<Options, String>,
    want: Result<OptionsView, Seq<char>>,
) -> bool {
    match want {
        Ok(o) => r matches Ok(got) && got@ == o,
        Err(text) => r matches Err(e) && e@ == text,
    }
}

/// Parses the arguments that have been read.
pub fn parse_arguments(args: &Vec<Argument>, home: &Option<Vec<u8>>) -> (r: Result<Options, String>)
    ensures
        parse_agrees(r, parsed(arguments(args@), false, no_options(), *home)),
{
    let mut o = Options {
        help: false,
        version: false,
        list: false,
        plain: false,
        bg: false,
        jobs: None,
        timeout: None,
        agents_dir: None,
        ids: Vec::new(),
    };
    assert(texts(o.ids@) =~= Seq::<Seq<char>>::empty());
    let ghost list = arguments(args@);
    let ghost want = parsed(list, false, no_options(), *home);
    let mut ids_only = false;
    let mut i: usize = 0;
    assert(list.skip(0) =~= list);
    while i < args.len()
        invariant
            i <= args@.len(),
            list == arguments(args@),
            want == parsed(list.skip(i as int), ids_only, o@, *home),
            want == parsed(list, false, no_options(), *home),
        decreases args@.len() - i,
    {
        let a = &args[i];
        assert(list.skip(i as int)[0] == a@);
        assert(list.skip(i as int).skip(1) =~= list.skip(i + 1));
        if ids_only || (!a.long && !looks_short(a.text.as_str())) {
            if let Err(e) = push_id(&mut o, a.text.as_str()) {
                return Err(e);
            }
        } else if !a.long {
            return Err(unknown_text(a.text.as_str()));
        } else if let Some(v) = &a.assignment {
            match find_valued(v.name.as_slice()) {
                Some(opt) => {
                    if let Err(e) = set_value(
                        &mut o,
                        opt,
                        v.value.as_slice(),
                        v.text.as_str(),
                        home,
                    ) {
                        return Err(e);
                    }
                },
                None => {
                    if find_flag(v.name.as_slice()).is_some() {
                        let mut e = v.name_text.clone();
                        e.append(" does not take a value");
                        return Err(e);
                    }
                    return Err(unknown_text(v.name_text.as_str()));
                },
            }
        } else if is_named(a.bytes.as_slice(), "--") {
            ids_only = true;
        } else if let Some(flag) = find_flag(a.bytes.as_slice()) {
            set_flag(&mut o, flag);
        } else if let Some(opt) = find_valued(a.bytes.as_slice()) {
            i = i + 1;
            let v = match arg_value(args, i, valued_text(opt)) {
                Ok(v) => v,
                Err(e) => return Err(e),
            };
            assert(list.skip(i as int)[0] == v@);
            assert(list.skip(i as int).skip(1) =~= list.skip(i + 1));
            if let Err(e) = set_value(&mut o, opt, v.bytes.as_slice(), v.text.as_str(), home) {
                return Err(e);
            }
        } else {
            return Err(unknown_text(a.text.as_str()));
        }
        i = i + 1;
    }
    Ok(o)
}

/// The arguments as they are read.
pub open spec fn arguments_of(args: Seq<Seq<u8>>) -> Seq<ArgumentView> {
    args.map_values(|a: Seq<u8>| argument_of(a))
}

/// The options that a command line stands for, or what is wrong with it.
pub open spec fn parsed_args(args: Seq<Seq<u8>>, home: Option<Vec<u8>>) -> Result<
    OptionsView,
    Seq<char>,
> {
    parsed(arguments_of(args), false, no_options(), home)
}

/// Parses the command line. Unknown options, missing or malformed values and
/// empty ids are errors.
pub fn parse_args(args: &Vec<Vec<u8>>, home: &Option<Vec<u8>>) -> (r: Result<Options, String>)
    ensures
        parse_agrees(r, parsed_args(byte_texts(args@), *home)),
{
    let mut list: Vec<Argument> = Vec::new();
    let ghost all = arguments_of(byte_texts(args@));
    assert(arguments(list@) =~= Seq::<ArgumentView>::empty());
    for i in 0..args.len()
        invariant
            all == arguments_of(byte_texts(args@)),
            arguments(list@) == all.take(i as int),
    {
        let ghost before = arguments(list@);
        list.push(read_argument(args[i].as_slice()));
        assert(all[i as int] == argument_of(args@[i as int]@));
        assert(arguments(list@) =~= before.push(all[i as int]));
        assert(all.take(i + 1) =~= all.take(i as int).push(all[i as int]));
    }
    assert(all.take(args@.len() as int) =~= all);
    parse_arguments(&list, home)
}

// ---------------------------------------------------------------------------
// Laws
// ---------------------------------------------------------------------------

/// The ids are not empty, none occurs twice, and the numbers are at least one.
pub open spec fn sane_options(o: OptionsView) -> bool {
    &&& forall|i: int| 0 <= i < o.ids.len() ==> (#[trigger] o.ids[i]).len() > 0
    &&& forall|i: int, j: int| 0 <= i < j < o.ids.len() ==> #[trigger] o.ids[i] != #[trigger] o.ids[j]
    &&& o.jobs matches Some(n) ==> n >= 1
    &&& o.timeout matches Some(n) ==> n >= 1
}

/// Whatever the arguments: the ids that come out are distinct and not empty,
/// and a number of jobs or a timeout is at least one.
pub proof fn parsed_options_are_sane(
    args: Seq<ArgumentView>,
    ids_only: bool,
    o: OptionsView,
    home: Option<Vec<u8>>,
)
    requires
        sane_options(o),
    ensures
        parsed(args, ids_only, o, home) matches Ok(r) ==> sane_options(r),
    decreases args.len(),
{
    if args.len() > 0 {
        let a = args[0];
        let rest = args.skip(1);
        if ids_only || (!a.long && !is_short(a.text)) {
            if let Ok(next) = with_id(o, a.text) {
                assert(sane_options(next)) by {
                    if !o.ids.contains(trimmed(a.text)) {
                        assert forall|x: int, y: int| 0 <= x < y < next.ids.len() implies
                            #[trigger] next.ids[x] != #[trigger] next.ids[y] by {
                            assert(next.ids[x] == o.ids[x]);
                        }
                    }
                }
                parsed_options_are_sane(rest, ids_only, next, home);
            }
        } else if a.long {
            if let Some(v) = a.assignment {
                if let Some(opt) = valued_of(v.name) {
                    if let Ok(next) = with_value(o, opt, v.value, v.text, home) {
                        parsed_options_are_sane(rest, false, next, home);
                    }
                }
            } else {
                parsed_options_are_sane(rest, true, o, home);
                if let Some(flag) = flag_of(a.bytes) {
                    parsed_options_are_sane(rest, false, with_flag(o, flag), home);
                }
                if let Some(opt) = valued_of(a.bytes) {
                    if rest.len() > 0 {
                        if let Ok(next) = with_value(o, opt, rest[0].bytes, rest[0].text, home) {
                            parsed_options_are_sane(rest.skip(1), false, next, home);
                        }
                    }
                }
            }
        }
    }
}

/// Arguments that parse, and that do not hold the terminator, leave what
/// follows them to be parsed on its own.
proof fn lemma_parsed_in_front(
    args: Seq<Seq<u8>>,
    rest: Seq<Seq<u8>>,
    o: OptionsView,
    home: Option<Vec<u8>>,
)
    requires
        parsed(arguments_of(args), false, o, home) is Ok,
        forall|i: int| 0 <= i < args.len() ==> !is_terminator(#[trigger] args[i]),
    ensures
        parsed(arguments_of(args + rest), false, o, home) == parsed(
            arguments_of(rest),
            false,
            parsed(arguments_of(args), false, o, home)->Ok_0,
            home,
        ),
    decreases args.len(),
{
    let list = arguments_of(args);
    let whole = arguments_of(args + rest);
    if args.len() == 0 {
        assert(args + rest =~= rest);
    } else {
        let a = list[0];
        assert(whole[0] == a);
        assert(!is_terminator(args[0]));
        assert(list.skip(1) =~= arguments_of(args.skip(1)));
        assert(whole.skip(1) =~= arguments_of(args.skip(1) + rest));
        let next: Option<OptionsView> = if !a.long {
            match with_id(o, a.text) {
                Ok(next) => Some(next),
                Err(_) => None,
            }
        } else if let Some(v) = a.assignment {
            match with_value(o, valued_of(v.name)->0, v.value, v.text, home) {
                Ok(next) => Some(next),
                Err(_) => None,
            }
        } else if let Some(flag) = flag_of(a.bytes) {
            Some(with_flag(o, flag))
        } else {
            None
        };
        if let Some(next) = next {
            lemma_parsed_in_front(args.skip(1), rest, next, home);
        } else {
            let v = list[1];
            assert(list.skip(1)[0] == v && whole.skip(1)[0] == v);
            assert(list.skip(1).skip(1) =~= arguments_of(args.skip(2)));
            assert(whole.skip(1).skip(1) =~= arguments_of(args.skip(2) + rest));
            assert forall|i: int| 0 <= i < args.skip(2).len() implies !is_terminator(
                #[trigger] args.skip(2)[i],
            ) by {
                assert(args.skip(2)[i] == args[i + 2]);
            }
            match with_value(o, valued_of(a.bytes)->0, v.bytes, v.text, home) {
                Ok(next) => {
                    lemma_parsed_in_front(args.skip(2), rest, next, home);
                },
                Err(_) => {},
            }
        }
    }
}

/// The bytes of an option name are those of its characters.
proof fn lemma_option_bytes(opt: Valued)
    ensures
        ({
            let name = encode_utf8(valued_name(opt));
            &&& valued_of(name) == Some(opt)
            &&& flag_of(name) is None
            &&& !is_terminator(name)
            &&& encode_utf8("--"@).is_prefix_of(name)
            &&& !name.contains(0x3d)
        }),
{
    reveal_strlit("--");
    reveal_strlit("--jobs");
    reveal_strlit("--timeout");
    reveal_strlit("--agents-dir");
    reveal_strlit("--help");
    reveal_strlit("--version");
    reveal_strlit("--list");
    reveal_strlit("--dry-run");
    reveal_strlit("--plain");
    reveal_strlit("--bg");
    is_ascii_chars_encode_utf8("--"@);
    is_ascii_chars_encode_utf8("--jobs"@);
    is_ascii_chars_encode_utf8("--timeout"@);
    is_ascii_chars_encode_utf8("--agents-dir"@);
    is_ascii_chars_encode_utf8("--help"@);
    is_ascii_chars_encode_utf8("--version"@);
    is_ascii_chars_encode_utf8("--list"@);
    is_ascii_chars_encode_utf8("--dry-run"@);
    is_ascii_chars_encode_utf8("--plain"@);
    is_ascii_chars_encode_utf8("--bg"@);
    let name = encode_utf8(valued_name(opt));
    assert(name[2] == valued_name(opt)[2] as u8);
    assert(encode_utf8("--help"@)[2] == 'h' as u8);
    assert(encode_utf8("--version"@)[2] == 'v' as u8);
    assert(encode_utf8("--list"@)[2] == 'l' as u8);
    assert(encode_utf8("--dry-run"@)[2] == 'd' as u8);
    assert(encode_utf8("--plain"@)[2] == 'p' as u8);
    assert(encode_utf8("--bg"@)[2] == 'b' as u8);
    assert(encode_utf8("--jobs"@)[2] == 'j' as u8);
    assert(encode_utf8("--timeout"@)[2] == 't' as u8);
    assert(encode_utf8("--agents-dir"@)[2] == 'a' as u8);
}

/// A value may stand in the same argument or in the next: `opt=value` and
/// `opt value` parse alike, to the same options or to the same error.
pub proof fn values_may_stand_in_the_next_argument(
    before: Seq<Seq<u8>>,
    opt: Valued,
    value: Seq<u8>,
    after: Seq<Seq<u8>>,
    home: Option<Vec<u8>>,
)
    requires
        parsed_args(before, home) is Ok,
        forall|i: int| 0 <= i < before.len() ==> !is_terminator(#[trigger] before[i]),
    ensures
        ({
            let name = encode_utf8(valued_name(opt));
            parsed_args(before + (seq![name, value] + after), home) == parsed_args(
                before + (seq![name.push(0x3d) + value] + after),
                home,
            )
        }),
{
    let name = encode_utf8(valued_name(opt));
    let joined = name.push(0x3d) + value;
    let apart = seq![name, value] + after;
    let together = seq![joined] + after;
    lemma_option_bytes(opt);
    lemma_parsed_in_front(before, apart, no_options(), home);
    lemma_parsed_in_front(before, together, no_options(), home);
    let o = parsed_args(before, home)->Ok_0;
    assert forall|k: int| 0 <= k < name.len() implies name[k] != 0x3d by {
        assert(name.contains(name[k]));
    }
    lemma_position_unique(name, 0x3du8, name.len() as int);
    lemma_position_unique(joined, 0x3du8, name.len() as int);
    assert(joined.take(name.len() as int) =~= name);
    assert(joined.skip(name.len() as int + 1) =~= value);
    assert(encode_utf8("--"@).is_prefix_of(joined)) by {
        let dashes = encode_utf8("--"@);
        assert forall|k: int| 0 <= k < dashes.len() implies dashes[k] == joined[k] by {
            assert(dashes[k] == name[k]);
        }
        assert(joined.take(dashes.len() as int) =~= dashes);
    }
    let x = arguments_of(apart);
    let y = arguments_of(together);
    assert(x[0] == argument_of(name) && x.skip(1)[0] == argument_of(value));
    assert(x.skip(1).skip(1) =~= arguments_of(after));
    assert(y[0] == argument_of(joined));
    assert(y.skip(1) =~= arguments_of(after));
}

/// The bytes of a flag are those of its characters.
proof fn lemma_flag_bytes(text: Seq<char>)
    requires
        text == "--help"@ || text == "--version"@ || text == "--list"@ || text == "--dry-run"@
            || text == "--plain"@ || text == "--bg"@,
    ensures
        ({
            let name = encode_utf8(text);
            &&& flag_of(name) == Some(
                if text == "--help"@ {
                    Flag::Help
                } else if text == "--version"@ {
                    Flag::Version
                } else if text == "--list"@ || text == "--dry-run"@ {
                    Flag::List
                } else if text == "--plain"@ {
                    Flag::Plain
                } else {
                    Flag::Bg
                },
            )
            &&& !is_terminator(name)
            &&& encode_utf8("--"@).is_prefix_of(name)
            &&& !name.contains(0x3d)
            &&& "--help"@ != "--version"@ && "--help"@ != "--list"@ && "--help"@ != "--dry-run"@
            &&& "--help"@ != "--plain"@ && "--help"@ != "--bg"@ && "--version"@ != "--list"@
            &&& "--version"@ != "--dry-run"@ && "--version"@ != "--plain"@ && "--version"@ != "--bg"@
            &&& "--list"@ != "--plain"@ && "--list"@ != "--bg"@ && "--dry-run"@ != "--plain"@
            &&& "--dry-run"@ != "--bg"@ && "--plain"@ != "--bg"@
        }),
{
    reveal_strlit("--help");
    reveal_strlit("--version");
    reveal_strlit("--list");
    reveal_strlit("--dry-run");
    reveal_strlit("--plain");
    reveal_strlit("--bg");
    reveal_strlit("--");
    reveal_strlit("--jobs");
    reveal_strlit("--timeout");
    reveal_strlit("--agents-dir");
    is_ascii_chars_encode_utf8("--help"@);
    is_ascii_chars_encode_utf8("--version"@);
    is_ascii_chars_encode_utf8("--list"@);
    is_ascii_chars_encode_utf8("--dry-run"@);
    is_ascii_chars_encode_utf8("--plain"@);
    is_ascii_chars_encode_utf8("--bg"@);
    is_ascii_chars_encode_utf8("--"@);
    is_ascii_chars_encode_utf8("--jobs"@);
    is_ascii_chars_encode_utf8("--timeout"@);
    is_ascii_chars_encode_utf8("--agents-dir"@);
    assert(encode_utf8("--help"@)[2] == 'h' as u8);
    assert(encode_utf8("--version"@)[2] == 'v' as u8);
    assert(encode_utf8("--list"@)[2] == 'l' as u8);
    assert(encode_utf8("--dry-run"@)[2] == 'd' as u8);
    assert(encode_utf8("--plain"@)[2] == 'p' as u8);
    assert(encode_utf8("--bg"@)[2] == 'b' as u8);
    assert(encode_utf8("--jobs"@)[2] == 'j' as u8);
    assert(encode_utf8("--timeout"@)[2] == 't' as u8);
    assert(encode_utf8("--agents-dir"@)[2] == 'a' as u8);
    assert("--help"@[2] == 'h' && "--version"@[2] == 'v' && "--list"@[2] == 'l' && "--dry-run"@[2]
        == 'd' && "--plain"@[2] == 'p' && "--bg"@[2] == 'b');
    let name = encode_utf8(text);
    assert(name[2] == text[2] as u8);
}

/// A flag sets its own option and changes no other.
pub proof fn flags_set_only_their_own_option(
    before: Seq<Seq<u8>>,
    text: Seq<char>,
    home: Option<Vec<u8>>,
)
    requires
        parsed_args(before, home) is Ok,
        forall|i: int| 0 <= i < before.len() ==> !is_terminator(#[trigger] before[i]),
        text == "--help"@ || text == "--version"@ || text == "--list"@ || text == "--dry-run"@
            || text == "--plain"@ || text == "--bg"@,
    ensures
        ({
            let o = parsed_args(before, home)->Ok_0;
            parsed_args(before.push(encode_utf8(text)), home) matches Ok(r) && {
                &&& r.help == (o.help || text == "--help"@)
                &&& r.version == (o.version || text == "--version"@)
                &&& r.list == (o.list || text == "--list"@ || text == "--dry-run"@)
                &&& r.plain == (o.plain || text == "--plain"@)
                &&& r.bg == (o.bg || text == "--bg"@)
                &&& r.jobs == o.jobs
                &&& r.timeout == o.timeout
                &&& r.agents_dir == o.agents_dir
                &&& r.ids == o.ids
            }
        }),
{
    reveal_with_fuel(parsed, 3);
    let name = encode_utf8(text);
    lemma_flag_bytes(text);
    lemma_parsed_in_front(before, seq![name], no_options(), home);
    assert(before + seq![name] =~= before.push(name));
    lemma_no_assignment(name);
    let list = arguments_of(seq![name]);
    assert(list[0] == argument_of(name));
    assert(list.skip(1).len() == 0);
}

proof fn lemma_no_assignment(name: Seq<u8>)
    requires
        !name.contains(0x3d),
    ensures
        argument_of(name).assignment is None,
{
    assert forall|k: int| 0 <= k < name.len() implies name[k] != 0x3d by {
        assert(name.contains(name[k]));
    }
    lemma_position_unique(name, 0x3du8, name.len() as int);
}

/// Without arguments nothing is set.
pub proof fn nothing_is_set_by_default(home: Option<Vec<u8>>)
    ensures
        parsed_args(Seq::empty(), home) matches Ok(r) && !r.help && !r.version && !r.list
            && !r.plain && !r.bg && r.jobs is None && r.timeout is None && r.agents_dir is None
            && r.ids.len() == 0,
{
}

/// A number behind `--jobs` or `--timeout` becomes that option, whatever it was
/// before, and changes no other; zero and what is no number are errors. A
/// directory behind `--agents-dir` becomes that option, an empty one is an
/// error.
pub proof fn values_set_only_their_own_option(
    before: Seq<Seq<u8>>,
    opt: Valued,
    value: Seq<u8>,
    home: Option<Vec<u8>>,
)
    requires
        parsed_args(before, home) is Ok,
        forall|i: int| 0 <= i < before.len() ==> !is_terminator(#[trigger] before[i]),
    ensures
        ({
            let o = parsed_args(before, home)->Ok_0;
            let name = match opt {
                Valued::Jobs => "--jobs"@,
                Valued::Timeout => "--timeout"@,
                Valued::AgentsDir => "--agents-dir"@,
            };
            let r = parsed_args(before + seq![encode_utf8(name), value], home);
            let number = unsigned_value(
                trimmed(utf8_lossy(value)),
                if opt is Jobs {
                    usize::MAX as nat
                } else {
                    u64::MAX as nat
                },
            );
            &&& opt is Jobs || opt is Timeout ==> (r is Ok <==> (number matches Some(n) && n >= 1))
            &&& opt is AgentsDir ==> (r is Ok <==> value.len() > 0)
            &&& r matches Ok(x) ==> {
                &&& x.help == o.help && x.version == o.version && x.list == o.list && x.plain
                    == o.plain && x.bg == o.bg
                &&& x.ids == o.ids
                &&& opt is Jobs ==> (x.jobs matches Some(n) && Some(n as nat) == number)
                &&& !(opt is Jobs) ==> x.jobs == o.jobs
                &&& opt is Timeout ==> (x.timeout matches Some(n) && Some(n as nat) == number)
                &&& !(opt is Timeout) ==> x.timeout == o.timeout
                &&& opt is AgentsDir ==> x.agents_dir == Some(arg_expanded(value, home))
                &&& !(opt is AgentsDir) ==> x.agents_dir == o.agents_dir
            }
        }),
        parsed_args(before.push(encode_utf8(valued_name(opt))), home) is Err,
{
    reveal_with_fuel(parsed, 3);
    let name = encode_utf8(valued_name(opt));
    lemma_option_bytes(opt);
    lemma_no_assignment(name);
    lemma_parsed_in_front(before, seq![name, value], no_options(), home);
    let list = arguments_of(seq![name, value]);
    assert(list[0] == argument_of(name) && list.skip(1)[0] == argument_of(value));
    assert(list.skip(1).skip(1).len() == 0);
    lemma_parsed_in_front(before, seq![name], no_options(), home);
    assert(before + seq![name] =~= before.push(name));
    let short = arguments_of(seq![name]);
    assert(short[0] == argument_of(name));
    assert(short.skip(1).len() == 0);
}

/// An argument without a dash in front is a tool id: it is added behind those
/// there are, without the white space around it, unless it is there already.
/// Behind the terminator every argument is one. A blank id is an error.
pub proof fn other_arguments_are_ids(
    before: Seq<Seq<u8>>,
    arg: Seq<u8>,
    behind_terminator: bool,
    home: Option<Vec<u8>>,
)
    requires
        parsed_args(before, home) is Ok,
        forall|i: int| 0 <= i < before.len() ==> !is_terminator(#[trigger] before[i]),
        !behind_terminator ==> !encode_utf8("--"@).is_prefix_of(arg) && (utf8_lossy(arg).len() > 1
            ==> utf8_lossy(arg)[0] != '-'),
    ensures
        ({
            let o = parsed_args(before, home)->Ok_0;
            let id = trimmed(utf8_lossy(arg));
            let r = if behind_terminator {
                parsed_args(before + seq![encode_utf8("--"@), arg], home)
            } else {
                parsed_args(before.push(arg), home)
            };
            &&& r is Ok <==> id.len() > 0
            &&& r matches Ok(x) ==> {
                &&& o.ids.contains(id) ==> x.ids == o.ids
                &&& !o.ids.contains(id) ==> x.ids == o.ids.push(id)
                &&& x.help == o.help && x.version == o.version && x.list == o.list && x.plain
                    == o.plain && x.bg == o.bg
                &&& x.jobs == o.jobs && x.timeout == o.timeout && x.agents_dir == o.agents_dir
            }
        }),
{
    reveal_with_fuel(parsed, 3);
    if behind_terminator {
        let end = encode_utf8("--"@);
        reveal_strlit("--");
        is_ascii_chars_encode_utf8("--"@);
        assert(!end.contains(0x3d));
        lemma_no_assignment(end);
        assert(end.take(end.len() as int) =~= end);
        lemma_parsed_in_front(before, seq![end, arg], no_options(), home);
        let list = arguments_of(seq![end, arg]);
        assert(list[0] == argument_of(end) && list.skip(1)[0] == argument_of(arg));
        assert(list.skip(1).skip(1).len() == 0);
    } else {
        lemma_parsed_in_front(before, seq![arg], no_options(), home);
        assert(before + seq![arg] =~= before.push(arg));
        let list = arguments_of(seq![arg]);
        assert(list[0] == argument_of(arg));
        assert(list.skip(1).len() == 0);
    }
}

/// An argument with two dashes in front that names no option is an error, and
/// so is one with a single dash and something behind it.
pub proof fn unknown_options_are_errors(
    before: Seq<Seq<u8>>,
    arg: Seq<u8>,
    after: Seq<Seq<u8>>,
    home: Option<Vec<u8>>,
)
    requires
        parsed_args(before, home) is Ok,
        forall|i: int| 0 <= i < before.len() ==> !is_terminator(#[trigger] before[i]),
        !arg.contains(0x3d),
        arg != encode_utf8("--"@),
        arg != encode_utf8("--help"@) && arg != encode_utf8("--version"@),
        arg != encode_utf8("--list"@) && arg != encode_utf8("--dry-run"@),
        arg != encode_utf8("--plain"@) && arg != encode_utf8("--bg"@),
        arg != encode_utf8("--jobs"@) && arg != encode_utf8("--timeout"@),
        arg != encode_utf8("--agents-dir"@),
        encode_utf8("--"@).is_prefix_of(arg) || (utf8_lossy(arg).len() > 1 && utf8_lossy(arg)[0]
            == '-'),
    ensures
        parsed_args(before + (seq![arg] + after), home) == Err::<OptionsView, Seq<char>>(
            "unknown option '"@ + utf8_lossy(arg) + "' (try --help)"@,
        ),
{
    lemma_parsed_in_front(before, seq![arg] + after, no_options(), home);
    let list = arguments_of(seq![arg] + after);
    assert(list[0] == argument_of(arg));
    lemma_no_assignment(arg);
}

/// Parsed options hold what the parsing says, option by option; an error is
/// told in its words.
pub proof fn parsed_options_hold_what_was_said(
    r: Result<Options, String>,
    want: Result<OptionsView, Seq<char>>,
)
    requires
        parse_agrees(r, want),
    ensures
        r is Ok <==> want is Ok,
        want matches Err(text) ==> r->Err_0@ == text,
        want matches Ok(o) ==> {
            let got = r->Ok_0;
            &&& got.help == o.help && got.version == o.version && got.list == o.list
            &&& got.plain == o.plain && got.bg == o.bg
            &&& got.jobs == o.jobs && got.timeout == o.timeout
            &&& got.agents_dir is Some == o.agents_dir is Some
            &&& got.agents_dir matches Some(dir) ==> o.agents_dir == Some(dir@)
            &&& got.ids@.len() == o.ids.len()
            &&& forall|i: int| 0 <= i < o.ids.len() ==> (#[trigger] got.ids@[i])@ == o.ids[i]
        },
{
    if let Ok(o) = want {
        let got = r->Ok_0;
        assert(got@.ids.len() == got.ids@.len());
        assert forall|i: int| 0 <= i < o.ids.len() implies (#[trigger] got.ids@[i])@
            == o.ids[i] by {
            assert(got@.ids[i] == got.ids@[i]@);
        }
    }
}

/// A count or a number of seconds is the number itself, white space around it
/// aside; zero and anything that is no number are refused in words.
pub proof fn numbers_must_be_positive(n: nat, v: Seq<char>, opt: Seq<char>)
    ensures
        1 <= n <= usize::MAX ==> (trimmed(v) == decimal(n) ==> count_of(v, opt) == Ok::<
            nat,
            Seq<char>,
        >(n)),
        1 <= n <= u64::MAX ==> (trimmed(v) == decimal(n) ==> secs_of(v, opt) == Ok::<
            nat,
            Seq<char>,
        >(n)),
        trimmed(v) == decimal(0) ==> count_of(v, opt) == Err::<nat, Seq<char>>(
            opt + " must be at least 1"@,
        ) && secs_of(v, opt) == Err::<nat, Seq<char>>(opt + " must be at least 1"@),
        trimmed(v).len() == 0 ==> count_of(v, opt) == Err::<nat, Seq<char>>(
            opt + " expects a whole number, got '"@ + v + "'"@,
        ) && secs_of(v, opt) == Err::<nat, Seq<char>>(
            opt + " expects a whole number of seconds, got '"@ + v + "'"@,
        ),
{
    if 1 <= n <= usize::MAX {
        decimal_reads_back(n, usize::MAX as nat);
    }
    if 1 <= n <= u64::MAX {
        decimal_reads_back(n, u64::MAX as nat);
    }
    decimal_reads_back(0, usize::MAX as nat);
    decimal_reads_back(0, u64::MAX as nat);
}

/// An argument is read as it is: its value stands behind its first equals
/// sign.
pub proof fn values_stand_behind_the_equals_sign(name: Seq<u8>, value: Seq<u8>, arg: Argument)
    requires
        encode_utf8("--"@).is_prefix_of(name),
        !name.contains(0x3d),
        arg@ == argument_of(name + seq![0x3du8] + value),
    ensures
        arg.bytes@ == name + seq![0x3du8] + value,
        arg.text@ == utf8_lossy(name + seq![0x3du8] + value),
        arg.long,
        arg.assignment matches Some(a) && a.name@ == name && a.value@ == value && a.name_text@
            == utf8_lossy(name) && a.text@ == utf8_lossy(value),
        missing_value(valued_name(Valued::Jobs)) == "--jobs"@ + " needs a value"@,
{
    let s = name + seq![0x3du8] + value;
    assert forall|k: int| 0 <= k < name.len() implies s[k] != 0x3d by {
        assert(s[k] == name[k]);
        assert(name.contains(name[k]));
    }
    assert(s[name.len() as int] == 0x3d);
    lemma_position_unique(s, 0x3du8, name.len() as int);
    assert(s.take(name.len() as int) =~= name);
    assert(s.skip(name.len() as int + 1) =~= value);
    let dashes = encode_utf8("--"@);
    assert(s.take(dashes.len() as int) =~= dashes) by {
        assert forall|k: int| 0 <= k < dashes.len() implies s[k] == dashes[k] by {
            assert(name[k] == dashes[k]);
        }
    }
}

} // verus!
