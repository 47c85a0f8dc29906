//! Background runs: the launcher starts a detached child and waits for its
//! one-line acknowledgement.

use vstd::prelude::*;
use vstd::slice::*;
use vstd::string::*;
use vstd::utf8::*;

use crate::bytes::{byte_texts, bytes_of, decode_lossy, same_bytes, utf8_lossy};
use crate::number::{decimal, parse_signed, push_decimal, signed_value};
use crate::options::{
    argument_of, arguments_of, find_flag, find_valued, flag_of, is_terminator, no_options, parsed,
    parsed_args, read_argument, valued_of, with_flag, with_id, with_value, ArgumentView, Flag,
    OptionsView, Valued,
};
use crate::plain::{EX_FAILURE, EX_OK};
use crate::text::{
    chars_of, has_prefix, join, joined, joined_parts_stand_in_order, lemma_position_unique, lines,
    split_lines, text_of, texts, trim, trim_end, trimmed, trimmed_end, trimmed_start,
    white, without_cr,
};

verus! {

/// How long the launcher waits for the acknowledgement, in seconds.
pub const ACK_TIMEOUT_SECS: u64 = 60;

/// Reply margin: the child stops admitting work that much earlier, so that
/// its refusal can still reach the launcher.
pub const STARTUP_MARGIN_SECS: u64 = 5;

/// Most bytes of an acknowledgement that are taken in before reading stops.
pub const ACK_BYTES: usize = 8192;

// ---------------------------------------------------------------------------
// The launcher
// ---------------------------------------------------------------------------

/// What is added where the user did not ask for plain lines.
pub open spec fn plain_flag(asked: bool) -> Seq<Seq<u8>> {
    if asked {
        Seq::empty()
    } else {
        seq![encode_utf8("--plain"@)]
    }
}

/// The arguments without the flag `--bg`, in their order, and `--plain` behind
/// the options, in front of the terminator where there is one, unless it was
/// asked for already. A value of another option is kept whatever it is, and
/// so is everything from the terminator on.
pub open spec fn forwarded(args: Seq<Seq<u8>>, asked: bool) -> Seq<Seq<u8>>
    decreases args.len(),
{
    if args.len() == 0 {
        plain_flag(asked)
    } else {
        let a = argument_of(args[0]);
        let rest = args.skip(1);
        if !a.long || a.assignment is Some {
            seq![args[0]] + forwarded(rest, asked)
        } else if is_terminator(args[0]) {
            plain_flag(asked) + args
        } else {
            match (flag_of(args[0]), valued_of(args[0])) {
                (Some(Flag::Bg), _) => forwarded(rest, asked),
                (Some(Flag::Plain), _) => seq![args[0]] + forwarded(rest, true),
                (None, Some(_)) => if rest.len() > 0 {
                    seq![args[0], rest[0]] + forwarded(rest.skip(1), asked)
                } else {
                    seq![args[0]] + forwarded(rest, asked)
                },
                _ => seq![args[0]] + forwarded(rest, asked),
            }
        }
    }
}

/// The arguments of the child.
pub open spec fn child_args_of(args: Seq<Seq<u8>>) -> Seq<Seq<u8>> {
    forwarded(args, false)
}

fn push_arg(out: &mut Vec<Vec<u8>>, arg: &[u8])
    ensures
        byte_texts(final(out)@) == byte_texts(old(out)@).push(arg@),
{
    out.push(slice_to_vec(arg));
    assert(byte_texts(out@) =~= byte_texts(old(out)@).push(arg@));
}

/// The arguments that are forwarded to the child: the user's, in their order,
/// but for `--bg`, and always `--plain`.
pub fn child_args(args: &Vec<Vec<u8>>) -> (r: Vec<Vec<u8>>)
    ensures
        byte_texts(r@) == child_args_of(byte_texts(args@)),
{
    let mut out: Vec<Vec<u8>> = Vec::new();
    let plain = bytes_of("--plain");
    let ghost all = byte_texts(args@);
    let mut i: usize = 0;
    let mut asked = false;
    assert(all.skip(0) =~= all);
    assert(byte_texts(out@) + forwarded(all, false) =~= forwarded(all, false));
    while i < args.len()
        invariant
            i <= args@.len(),
            all == byte_texts(args@),
            plain@ == encode_utf8("--plain"@),
            byte_texts(out@) + forwarded(all.skip(i as int), asked) == child_args_of(all),
        decreases args@.len() - i,
    {
        let ghost list = all.skip(i as int);
        let ghost before = byte_texts(out@);
        let name = args[i].as_slice();
        assert(list[0] == name@);
        assert(list.skip(1) =~= all.skip(i + 1));
        let a = read_argument(name);
        let option = a.long && a.assignment.is_none();
        if option && same_bytes(name, bytes_of("--").as_slice()) {
            if !asked {
                push_arg(&mut out, plain.as_slice());
            }
            assert(byte_texts(out@) =~= before + plain_flag(asked));
            push_rest(&mut out, args, i);
            assert(before + (plain_flag(asked) + list) =~= byte_texts(out@));
            return out;
        }
        let flag = if option {
            find_flag(name)
        } else {
            None
        };
        let valued = option && flag.is_none() && find_valued(name).is_some();
        if flag != Some(Flag::Bg) {
            push_arg(&mut out, name);
        }
        if flag == Some(Flag::Plain) {
            asked = true;
        }
        i = i + 1;
        proof {
            let more = forwarded(all.skip(i as int), asked);
            assert(before.push(list[0]) + more =~= before + (seq![list[0]] + more));
        }
        if valued && i < args.len() {
            let ghost rest = all.skip(i as int);
            assert(rest[0] == args@[i as int]@);
            assert(rest.skip(1) =~= all.skip(i + 1));
            push_arg(&mut out, args[i].as_slice());
            i = i + 1;
            proof {
                let more = forwarded(all.skip(i as int), asked);
                assert(before.push(list[0]).push(rest[0]) + more =~= before + (seq![
                    list[0],
                    rest[0],
                ] + more));
            }
        }
    }
    if !asked {
        push_arg(&mut out, plain.as_slice());
    }
    proof {
        let done = byte_texts(out@);
        assert(all.skip(i as int).len() == 0);
        assert(done =~= child_args_of(all));
    }
    out
}

fn push_rest(out: &mut Vec<Vec<u8>>, args: &Vec<Vec<u8>>, from: usize)
    requires
        from <= args@.len(),
    ensures
        byte_texts(final(out)@) == byte_texts(old(out)@) + byte_texts(args@).skip(from as int),
{
    let ghost all = byte_texts(args@);
    let ghost head = byte_texts(out@);
    let mut i: usize = from;
    assert(head =~= head + all.subrange(from as int, from as int));
    while i < args.len()
        invariant
            from <= i <= args@.len(),
            all == byte_texts(args@),
            byte_texts(out@) == head + all.subrange(from as int, i as int),
        decreases args@.len() - i,
    {
        push_arg(out, args[i].as_slice());
        assert(head + all.subrange(from as int, i + 1) =~= (head + all.subrange(
            from as int,
            i as int,
        )).push(args@[i as int]@));
        i = i + 1;
    }
    assert(all.subrange(from as int, i as int) =~= all.skip(from as int));
}

/// The first line of an acknowledgement, without trailing white space.
pub open spec fn ack_line(text: Seq<char>) -> Option<Seq<char>> {
    if lines(text).len() == 0 {
        None
    } else {
        Some(trimmed_end(lines(text)[0]))
    }
}

/// The first line of an acknowledgement that has been decoded.
pub fn first_line(text: &str) -> (r: Option<String>)
    ensures
        match ack_line(text@) {
            Some(line) => r matches Some(s) && s@ == line,
            None => r is None,
        },
{
    let all = split_lines(chars_of(text).as_slice());
    assert(texts(all@).len() == all@.len());
    if all.len() == 0 {
        return None;
    }
    assert(texts(all@)[0] == all@[0]@);
    let line = chars_of(all[0].as_str());
    Some(text_of(trim_end(line.as_slice())))
}

/// The first line of the acknowledgement that was read, nothing when none
/// was.
pub fn read_ack(bytes: &[u8]) -> (r: Option<String>)
    ensures
        match ack_line(utf8_lossy(bytes@)) {
            Some(line) => r matches Some(s) && s@ == line,
            None => r is None,
        },
{
    first_line(decode_lossy(bytes).as_str())
}

/// What the launcher makes of the acknowledgement.
pub enum LaunchView {
    /// The run has started, with its directory.
    Started(Seq<char>),
    /// The child refused to start, with its reason.
    Refused(Seq<char>),
    Unexpected(Seq<char>),
    Silent,
}

/// What the launcher makes of the first line of the acknowledgement.
pub open spec fn launch_outcome(ack: Option<Seq<char>>) -> LaunchView {
    match ack {
        None => LaunchView::Silent,
        Some(line) => if "READY "@.is_prefix_of(line) {
            LaunchView::Started(trimmed(line.skip("READY "@.len() as int)))
        } else if "FAIL "@.is_prefix_of(line) {
            LaunchView::Refused(line.skip("FAIL "@.len() as int))
        } else {
            LaunchView::Unexpected(line)
        },
    }
}

/// What the launcher prints and returns.
#[derive(Debug)]
pub struct LaunchReport {
    pub code: i32,
    /// For the standard output.
    pub out: String,
    /// For the error output.
    pub err: String,
}

/// What the launcher prints on its standard output.
pub open spec fn launch_out(outcome: LaunchView, pid: int) -> Seq<char> {
    match outcome {
        LaunchView::Started(dir) => "background update started (pid "@ + decimal(pid as nat)
            + ")\n"@ + "report: "@ + dir + "/report.json\n"@ + "log:    "@ + dir
            + "/session.log\n"@,
        _ => Seq::empty(),
    }
}

/// What the launcher prints on its error output.
pub open spec fn launch_err(outcome: LaunchView, pid: int) -> Seq<char> {
    match outcome {
        LaunchView::Started(_) => Seq::empty(),
        LaunchView::Refused(reason) => "update-agents: background run failed to start: "@ + reason
            + "\n"@,
        LaunchView::Unexpected(line) => "update-agents: unexpected background acknowledgement: "@
            + line + "\n"@,
        LaunchView::Silent => "update-agents: background process (pid "@ + decimal(pid as nat)
            + ") did not acknowledge startup (it exited early or took too long)\n"@,
    }
}

fn after_prefix(line: &Vec<char>, prefix: &str) -> (r: Option<Vec<char>>)
    ensures
        r is Some <==> prefix@.is_prefix_of(line@),
        r matches Some(rest) ==> rest@ == line@.skip(prefix@.len() as int),
{
    let p = chars_of(prefix);
    if has_prefix(line.as_slice(), p.as_slice()) {
        let rest = slice_to_vec(slice_subrange(line.as_slice(), p.len(), line.len()));
        assert(rest@ =~= line@.skip(p@.len() as int));
        Some(rest)
    } else {
        None
    }
}

/// What the launcher prints and returns for the acknowledgement `ack` of the
/// child `pid`: a real start is told by the child, never guessed.
pub fn bg_launch(ack: &Option<String>, pid: u32) -> (r: LaunchReport)
    ensures
        ({
            let outcome = launch_outcome(
                match *ack {
                    Some(s) => Some(s@),
                    None => None,
                },
            );
            &&& r.code == (if outcome is Started {
                EX_OK
            } else {
                EX_FAILURE
            })
            &&& r.out@ == launch_out(outcome, pid as int)
            &&& r.err@ == launch_err(outcome, pid as int)
        }),
{
    let line = match ack {
        None => {
            let mut err = "update-agents: background process (pid ".to_owned();
            push_decimal(&mut err, pid as u64);
            err.append(") did not acknowledge startup (it exited early or took too long)\n");
            return LaunchReport { code: EX_FAILURE, out: String::new(), err };
        },
        Some(line) => line,
    };
    let chars = chars_of(line.as_str());
    if let Some(rest) = after_prefix(&chars, "READY ") {
        let dir = text_of(trim(rest.as_slice()));
        let mut out = "background update started (pid ".to_owned();
        push_decimal(&mut out, pid as u64);
        out.append(")\n");
        out.append("report: ");
        out.append(dir.as_str());
        out.append("/report.json\n");
        out.append("log:    ");
        out.append(dir.as_str());
        out.append("/session.log\n");
        return LaunchReport { code: EX_OK, out, err: String::new() };
    }
    if let Some(rest) = after_prefix(&chars, "FAIL ") {
        let mut err = "update-agents: background run failed to start: ".to_owned();
        err.append(text_of(rest.as_slice()).as_str());
        err.append("\n");
        return LaunchReport { code: EX_FAILURE, out: String::new(), err };
    }
    let mut err = "update-agents: unexpected background acknowledgement: ".to_owned();
    err.append(line.as_str());
    err.append("\n");
    LaunchReport { code: EX_FAILURE, out: String::new(), err }
}

// ---------------------------------------------------------------------------
// The child
// ---------------------------------------------------------------------------

/// The acknowledgement of a started run, as it is written.
pub open spec fn ready_message(dir: Seq<char>) -> Seq<char> {
    "READY "@ + dir + "\n"@
}

/// The acknowledgement of a started run.
pub fn ready_ack(dir: &str) -> (r: String)
    ensures
        r@ == ready_message(dir@),
{
    let mut s = "READY ".to_owned();
    s.append(dir);
    s.append("\n");
    s
}

/// The acknowledgement of a refused run, as it is written.
pub open spec fn refusal_message(reason: Seq<char>) -> Seq<char> {
    "FAIL "@ + reason + "\n"@
}

/// The acknowledgement of a refused run.
pub fn refusal_ack(reason: &str) -> (r: String)
    ensures
        r@ == refusal_message(reason@),
{
    let mut s = "FAIL ".to_owned();
    s.append(reason);
    s.append("\n");
    s
}

/// The descriptor handed over by a launcher.
pub fn parse_ack_fd(value: &str) -> (r: Option<i32>)
    ensures
        r is Some <==> signed_value(trimmed(value@)) is Some,
        r matches Some(fd) ==> signed_value(trimmed(value@)) == Some(fd as int),
{
    let chars = chars_of(value);
    parse_signed(trim(chars.as_slice()))
}

/// The invocation as one text.
pub open spec fn invocation_of(args: Seq<Seq<u8>>) -> Seq<char> {
    joined(args.map_values(|a: Seq<u8>| utf8_lossy(a)), " "@)
}

/// The notification that a run has finished: the invocation only.
pub fn tmux_text(args: &Vec<Vec<u8>>) -> (r: String)
    ensures
        r@ == "update-agents finished: "@ + invocation_of(byte_texts(args@)),
{
    let mut list: Vec<String> = Vec::new();
    let ghost all = byte_texts(args@).map_values(|a: Seq<u8>| utf8_lossy(a));
    assert(texts(list@) =~= Seq::<Seq<char>>::empty());
    for i in 0..args.len()
        invariant
            all == byte_texts(args@).map_values(|a: Seq<u8>| utf8_lossy(a)),
            texts(list@) == all.take(i as int),
    {
        let ghost before = texts(list@);
        list.push(decode_lossy(args[i].as_slice()));
        assert(all[i as int] == utf8_lossy(args@[i as int]@));
        assert(texts(list@) =~= before.push(all[i as int]));
        assert(all.take(i + 1) =~= all.take(i as int).push(all[i as int]));
    }
    assert(all.take(args@.len() as int) =~= all);
    let mut s = "update-agents finished: ".to_owned();
    s.append(join(&list, " ").as_str());
    s
}

// ---------------------------------------------------------------------------
// Laws
// ---------------------------------------------------------------------------

/// A text on one line, without white space at its ends.
pub open spec fn plain_line(s: Seq<char>) -> bool {
    &&& s.len() > 0
    &&& !white(s[0])
    &&& !white(s.last())
    &&& !s.contains('\n')
}

proof fn lemma_trimmed_end_keeps(s: Seq<char>)
    requires
        s.len() == 0 || !white(s.last()),
    ensures
        trimmed_end(s) == s,
{
}

/// The first line of a text that ends with its only line break.
proof fn lemma_line_of(s: Seq<char>)
    requires
        s.len() > 0,
        !white(s.last()),
        !s.contains('\n'),
    ensures
        ack_line(s + "\n"@) == Some(s),
{
    reveal_strlit("\n");
    let text = s + "\n"@;
    assert forall|k: int| 0 <= k < s.len() implies text[k] != '\n' by {
        assert(text[k] == s[k]);
        assert(s.contains(s[k]));
    }
    assert(text[s.len() as int] == '\n');
    lemma_position_unique(text, '\n', s.len() as int);
    assert(text.take(s.len() as int) =~= s);
    assert(s.last() != '\r');
    assert(without_cr(s) == s);
    assert(lines(text)[0] == s);
    lemma_trimmed_end_keeps(s);
}

/// What the child acknowledges is what the launcher reports: the directory of
/// a started run, and the reason of a refused one.
pub proof fn the_launcher_reads_what_the_child_sent(s: Seq<char>)
    requires
        plain_line(s),
    ensures
        launch_outcome(ack_line(ready_message(s))) == LaunchView::Started(s),
        launch_outcome(ack_line(refusal_message(s))) == LaunchView::Refused(s),
{
    reveal_strlit("READY ");
    reveal_strlit("FAIL ");
    let ready = "READY "@ + s;
    let refused = "FAIL "@ + s;
    assert(!ready.contains('\n')) by {
        if ready.contains('\n') {
            let k = ready.index_of('\n');
            if k >= 6 {
                assert(s[k - 6] == '\n');
                assert(s.contains(s[k - 6]));
            }
        }
    }
    assert(!refused.contains('\n')) by {
        if refused.contains('\n') {
            let k = refused.index_of('\n');
            if k >= 5 {
                assert(s[k - 5] == '\n');
                assert(s.contains(s[k - 5]));
            }
        }
    }
    assert(ready.last() == s.last());
    assert(refused.last() == s.last());
    lemma_line_of(ready);
    lemma_line_of(refused);
    assert("READY "@.is_prefix_of(ready)) by {
        assert(ready.take(6) =~= "READY "@);
    }
    assert(ready.skip(6) =~= s);
    assert(!"READY "@.is_prefix_of(refused)) by {
        assert(refused[0] == 'F');
    }
    assert("FAIL "@.is_prefix_of(refused)) by {
        assert(refused.take(5) =~= "FAIL "@);
    }
    assert(refused.skip(5) =~= s);
    assert(trimmed_start(s) == s);
    lemma_trimmed_end_keeps(s);
    assert(trimmed(s) == s);
}

/// The options of a run in the foreground.
pub open spec fn in_foreground(o: OptionsView) -> OptionsView {
    OptionsView { bg: false, ..o }
}

/// The options of a run that is shown in plain lines, in the foreground.
pub open spec fn in_plain(o: OptionsView) -> OptionsView {
    OptionsView { bg: false, plain: true, ..o }
}

/// Ids are read the same way, however the run is shown.
proof fn lemma_ids_in_plain(args: Seq<ArgumentView>, o: OptionsView, home: Option<Vec<u8>>)
    requires
        parsed(args, true, o, home) is Ok,
    ensures
        parsed(args, true, in_plain(o), home) == Ok::<OptionsView, Seq<char>>(
            in_plain(parsed(args, true, o, home)->Ok_0),
        ),
    decreases args.len(),
{
    if args.len() > 0 {
        let next = with_id(o, args[0].text)->Ok_0;
        assert(with_id(in_plain(o), args[0].text) == Ok::<OptionsView, Seq<char>>(in_plain(next)));
        lemma_ids_in_plain(args.skip(1), next, home);
    }
}

/// `--plain` in front of further arguments.
proof fn lemma_plain_in_front(rest: Seq<Seq<u8>>, o: OptionsView, home: Option<Vec<u8>>)
    ensures
        parsed(arguments_of(plain_flag(false) + rest), false, o, home) == parsed(
            arguments_of(rest),
            false,
            with_flag(o, Flag::Plain),
            home,
        ),
{
    let plain = encode_utf8("--plain"@);
    reveal_strlit("--");
    reveal_strlit("--plain");
    reveal_strlit("--help");
    reveal_strlit("--version");
    reveal_strlit("--list");
    reveal_strlit("--dry-run");
    is_ascii_chars_encode_utf8("--"@);
    is_ascii_chars_encode_utf8("--plain"@);
    is_ascii_chars_encode_utf8("--help"@);
    is_ascii_chars_encode_utf8("--version"@);
    is_ascii_chars_encode_utf8("--list"@);
    is_ascii_chars_encode_utf8("--dry-run"@);
    assert(plain[2] == 'p' as u8);
    assert(encode_utf8("--help"@)[2] == 'h' as u8);
    assert(encode_utf8("--version"@)[2] == 'v' as u8);
    assert(encode_utf8("--list"@)[2] == 'l' as u8);
    assert(encode_utf8("--dry-run"@)[2] == 'd' as u8);
    assert(flag_of(plain) == Some(Flag::Plain));
    assert(encode_utf8("--"@).is_prefix_of(plain)) by {
        assert(plain.take(2) =~= encode_utf8("--"@));
    }
    lemma_position_unique(plain, 0x3du8, plain.len() as int);
    let list = arguments_of(plain_flag(false) + rest);
    assert(list[0] == argument_of(plain));
    assert(list.skip(1) =~= arguments_of(rest));
}

proof fn lemma_value_in_foreground(
    o: OptionsView,
    opt: Valued,
    value: Seq<u8>,
    text: Seq<char>,
    home: Option<Vec<u8>>,
)
    requires
        with_value(o, opt, value, text, home) is Ok,
    ensures
        with_value(in_foreground(o), opt, value, text, home) == Ok::<OptionsView, Seq<char>>(
            in_foreground(with_value(o, opt, value, text, home)->Ok_0),
        ),
        with_value(o, opt, value, text, home)->Ok_0.plain == o.plain,
{
}

proof fn lemma_forwarded(
    args: Seq<Seq<u8>>,
    asked: bool,
    o: OptionsView,
    home: Option<Vec<u8>>,
)
    requires
        parsed(arguments_of(args), false, o, home) is Ok,
        asked ==> o.plain,
    ensures
        parsed(arguments_of(forwarded(args, asked)), false, in_foreground(o), home) == Ok::<
            OptionsView,
            Seq<char>,
        >(in_plain(parsed(arguments_of(args), false, o, home)->Ok_0)),
    decreases args.len(),
{
    let list = arguments_of(args);
    let sent = forwarded(args, asked);
    if args.len() == 0 {
        assert(plain_flag(asked) + args =~= plain_flag(asked));
        if !asked {
            lemma_plain_in_front(args, in_foreground(o), home);
        } else {
            assert(arguments_of(sent) =~= list);
        }
    } else {
        let a = list[0];
        let rest = args.skip(1);
        let now_asked = asked || (a.long && a.assignment is None && flag_of(args[0]) == Some(
            Flag::Plain,
        ));
        let one = seq![args[0]] + forwarded(rest, now_asked);
        assert(list.skip(1) =~= arguments_of(rest));
        assert(arguments_of(one)[0] == a);
        assert(arguments_of(one).skip(1) =~= arguments_of(forwarded(rest, now_asked)));
        if !a.long {
            let next = with_id(o, a.text)->Ok_0;
            assert(with_id(in_foreground(o), a.text) == Ok::<OptionsView, Seq<char>>(
                in_foreground(next),
            ));
            lemma_forwarded(rest, asked, next, home);
        } else if let Some(v) = a.assignment {
            let opt = valued_of(v.name)->0;
            lemma_value_in_foreground(o, opt, v.value, v.text, home);
            let next = with_value(o, opt, v.value, v.text, home)->Ok_0;
            lemma_forwarded(rest, asked, next, home);
        } else if is_terminator(args[0]) {
            lemma_ids_in_plain(list.skip(1), o, home);
            if asked {
                assert(sent =~= args);
                assert(in_foreground(o) == in_plain(o));
            } else {
                lemma_plain_in_front(args, in_foreground(o), home);
                assert(with_flag(in_foreground(o), Flag::Plain) == in_plain(o));
            }
        } else if let Some(flag) = flag_of(args[0]) {
            lemma_forwarded(rest, now_asked, with_flag(o, flag), home);
            if flag == Flag::Bg {
                assert(in_foreground(with_flag(o, flag)) == in_foreground(o));
            } else {
                assert(in_foreground(with_flag(o, flag)) == with_flag(in_foreground(o), flag));
            }
        } else {
            let opt = valued_of(args[0])->0;
            let v = argument_of(rest[0]);
            let two = seq![args[0], rest[0]] + forwarded(rest.skip(1), asked);
            assert(list.skip(1)[0] == v);
            assert(list.skip(1).skip(1) =~= arguments_of(rest.skip(1)));
            assert(arguments_of(two)[0] == a && arguments_of(two).skip(1)[0] == v);
            assert(arguments_of(two).skip(1).skip(1) =~= arguments_of(
                forwarded(rest.skip(1), asked),
            ));
            lemma_value_in_foreground(o, opt, v.bytes, v.text, home);
            let next = with_value(o, opt, v.bytes, v.text, home)->Ok_0;
            lemma_forwarded(rest.skip(1), asked, next, home);
        }
    }
}

/// The child is started with the options of the launcher, except that it
/// stays in the foreground and shows plain lines.
pub proof fn children_run_with_the_same_options(args: Seq<Seq<u8>>, home: Option<Vec<u8>>)
    requires
        parsed_args(args, home) is Ok,
    ensures
        parsed_args(child_args_of(args), home) == Ok::<OptionsView, Seq<char>>(
            in_plain(parsed_args(args, home)->Ok_0),
        ),
{
    lemma_forwarded(args, false, no_options(), home);
    assert(in_foreground(no_options()) == no_options());
}

/// The child has every option of its launcher but the background, and plain
/// lines.
pub proof fn children_keep_every_other_option(args: Seq<Seq<u8>>, home: Option<Vec<u8>>)
    requires
        parsed_args(args, home) is Ok,
    ensures
        ({
            let o = parsed_args(args, home)->Ok_0;
            parsed_args(child_args_of(args), home) matches Ok(c) && {
                &&& !c.bg
                &&& c.plain
                &&& c.help == o.help && c.version == o.version && c.list == o.list
                &&& c.jobs == o.jobs && c.timeout == o.timeout
                &&& c.agents_dir == o.agents_dir
                &&& c.ids == o.ids
            }
        }),
{
    children_run_with_the_same_options(args, home);
}

/// What the launcher says: on a start where the report and the log are, else
/// why there was none; never both.
pub proof fn launchers_tell_what_became_of_the_child(dir: Seq<char>, text: Seq<char>, pid: nat)
    ensures
        launch_out(LaunchView::Started(dir), pid as int) == "background update started (pid "@
            + decimal(pid) + ")\n"@ + "report: "@ + dir + "/report.json\n"@ + "log:    "@ + dir
            + "/session.log\n"@,
        launch_err(LaunchView::Started(dir), pid as int).len() == 0,
        launch_out(LaunchView::Refused(text), pid as int).len() == 0,
        launch_err(LaunchView::Refused(text), pid as int)
            == "update-agents: background run failed to start: "@ + text + "\n"@,
        launch_out(LaunchView::Unexpected(text), pid as int).len() == 0,
        launch_err(LaunchView::Unexpected(text), pid as int)
            == "update-agents: unexpected background acknowledgement: "@ + text + "\n"@,
        launch_out(LaunchView::Silent, pid as int).len() == 0,
        launch_err(LaunchView::Silent, pid as int) == "update-agents: background process (pid "@
            + decimal(pid) + ") did not acknowledge startup (it exited early or took too long)\n"@,
{
}

/// A start is believed only when the child says so: its line must begin with
/// the word for it, and no line at all is no start.
pub proof fn starts_are_never_guessed(line: Seq<char>)
    ensures
        launch_outcome(Some(line)) is Started <==> line.len() >= 6 && line.take(6) == seq![
            'R',
            'E',
            'A',
            'D',
            'Y',
            ' ',
        ],
        launch_outcome(Some(line)) is Refused <==> line.len() >= 5 && line.take(5) == seq![
            'F',
            'A',
            'I',
            'L',
            ' ',
        ],
        launch_outcome(Some(line)) matches LaunchView::Unexpected(text) ==> text == line,
        launch_outcome(None) is Silent,
        ack_line(Seq::empty()) is None,
{
    reveal_strlit("READY ");
    reveal_strlit("FAIL ");
    assert("READY "@ =~= seq!['R', 'E', 'A', 'D', 'Y', ' ']);
    assert("FAIL "@ =~= seq!['F', 'A', 'I', 'L', ' ']);
    if line.len() >= 6 {
        assert("READY "@.is_prefix_of(line) <==> line.take(6) =~= "READY "@);
    }
    if line.len() >= 5 {
        assert("FAIL "@.is_prefix_of(line) <==> line.take(5) =~= "FAIL "@);
        if "FAIL "@.is_prefix_of(line) {
            assert(line[0] == line.take(5)[0]);
            if "READY "@.is_prefix_of(line) {
                assert(line[0] == line.take(6)[0]);
            }
        }
    }
}

/// The arguments of a finished run are told in their order, with spaces
/// between.
pub proof fn invocations_are_arguments_and_spaces(args: Seq<Seq<u8>>, last: Seq<u8>)
    ensures
        invocation_of(seq![last]) == utf8_lossy(last),
        args.len() > 0 ==> invocation_of(args.push(last)) == invocation_of(args) + seq![' ']
            + utf8_lossy(last),
{
    reveal_strlit(" ");
    assert(" "@ =~= seq![' ']);
    let show = |a: Seq<u8>| utf8_lossy(a);
    assert(args.push(last).map_values(show) =~= args.map_values(show).push(utf8_lossy(last)));
    assert(seq![last].map_values(show) =~= seq![utf8_lossy(last)]);
    joined_parts_stand_in_order(args.map_values(show), utf8_lossy(last), " "@);
}

} // verus!
