//! Command lines of flags: a table of known flags, each a switch or taking a
//! value, read left to right; the last value of a flag wins.
use vstd::prelude::*;
use crate::cli::{i32_text, opt_str, parse_i32, parse_u64, u64_text, ArgError, ArgErrorKind};
use crate::intent::{first_from, lemma_first_from};
use crate::text::{copy_string, str_eq, str_to_string, views};

verus! {

// ---------------------------------------------------------------------------
// Number syntax checks handed in by the caller
// ---------------------------------------------------------------------------

/// The check accepts the text.
pub open spec fn check_accepts<F: Fn(String) -> bool>(f: F, s: Seq<char>) -> bool {
    exists|a: String| #![trigger call_ensures(f, (a,), true)] a@ == s && call_ensures(f, (a,), true)
}

/// A syntax check: it takes every text and answers the same for the same
/// text.
pub open spec fn check_rule<F: Fn(String) -> bool>(f: F) -> bool {
    &&& forall|a: String| #[trigger] call_requires(f, (a,))
    &&& forall|a1: String, a2: String, b1: bool, b2: bool|
        #![trigger call_ensures(f, (a1,), b1), call_ensures(f, (a2,), b2)]
        call_ensures(f, (a1,), b1) && call_ensures(f, (a2,), b2) && a1@ == a2@ ==> b1 == b2
}

/// Asks a syntax check about a text.
fn ask_check<F: Fn(String) -> bool>(f: &F, s: &str) -> (b: bool)
    requires
        check_rule(*f),
    ensures
        b == check_accepts(*f, s@),
{
    let a = str_to_string(s);
    let ghost ga = a;
    let b = f(a);
    proof {
        if b {
            assert(call_ensures(*f, (ga,), true));
        } else if check_accepts(*f, s@) {
            let a2 = choose|a2: String| a2@ == s@ && call_ensures(*f, (a2,), true);
            assert(call_ensures(*f, (ga,), false));
            assert(call_ensures(*f, (a2,), true));
        }
    }
    b
}

// ---------------------------------------------------------------------------
// Flag tables
// ---------------------------------------------------------------------------

/// What a flag takes.
#[derive(Clone, Copy, PartialEq, Eq, Structural)]
pub enum FlagKind {
    /// Nothing.
    Switch,
    /// Any text.
    Text,
    /// A number the caller's check accepts.
    Number,
    /// An `i32`.
    Int32,
    /// A `u64`.
    Unsigned64,
}

/// A flag table as plain values.
pub open spec fn table_view(t: Seq<(String, FlagKind)>) -> Seq<(Seq<char>, FlagKind)> {
    t.map_values(|e: (String, FlagKind)| (e.0@, e.1))
}

/// The position of a flag in a table.
pub open spec fn flag_pos(t: Seq<(Seq<char>, FlagKind)>, name: Seq<char>) -> Option<int> {
    first_from(t.len() as int, |k: int| t[k].0 == name, 0)
}

/// Whether a value suits a flag.
pub open spec fn value_ok(kind: FlagKind, v: Seq<char>, num: spec_fn(Seq<char>) -> bool) -> bool {
    match kind {
        FlagKind::Number => num(v),
        FlagKind::Int32 => i32_text(v) is Some,
        FlagKind::Unsigned64 => u64_text(v) is Some,
        _ => true,
    }
}

/// A flag as given, with its value.
pub type Assign = (Seq<char>, Option<Seq<char>>);

/// Reads flags from position `i` on after `acc`: an unknown argument, a
/// missing value or an unsuitable one stops the reading with an error.
pub open spec fn scan_from(
    args: Seq<Seq<char>>,
    t: Seq<(Seq<char>, FlagKind)>,
    num: spec_fn(Seq<char>) -> bool,
    i: int,
    acc: Seq<Assign>,
) -> Result<Seq<Assign>, (ArgErrorKind, Seq<char>)>
    decreases args.len() - i,
{
    if i < 0 || i >= args.len() {
        Ok(acc)
    } else {
        let a = args[i];
        match flag_pos(t, a) {
            None => Err((ArgErrorKind::Unknown, a)),
            Some(k) => if t[k].1 == FlagKind::Switch {
                scan_from(args, t, num, i + 1, acc.push((a, None)))
            } else if i + 1 >= args.len() {
                Err((ArgErrorKind::MissingValue, a))
            } else if !value_ok(t[k].1, args[i + 1], num) {
                Err((ArgErrorKind::Invalid, a))
            } else {
                scan_from(args, t, num, i + 2, acc.push((a, Some(args[i + 1]))))
            },
        }
    }
}

/// The view of given flags.
pub open spec fn assigns_view(v: Seq<(String, Option<String>)>) -> Seq<Assign> {
    v.map_values(|e: (String, Option<String>)| (e.0@, opt_str(e.1)))
}

/// The numbers a check accepts.
pub open spec fn accepted_by<F: Fn(String) -> bool>(f: F) -> spec_fn(Seq<char>) -> bool {
    |s: Seq<char>| check_accepts(f, s)
}

/// Finds a flag in a table.
fn find_flag(t: &Vec<(String, FlagKind)>, name: &str) -> (r: Option<usize>)
    ensures
        match r {
            Some(k) => flag_pos(table_view(t@), name@) == Some(k as int) && k < t@.len(),
            None => flag_pos(table_view(t@), name@) is None,
        },
{
    let ghost tv = table_view(t@);
    let ghost p = |k: int| tv[k].0 == name@;
    let mut i: usize = 0;
    while i < t.len()
        invariant
            0 <= i <= t@.len(),
            tv == table_view(t@),
            p == (|k: int| tv[k].0 == name@),
            flag_pos(tv, name@) == first_from(tv.len() as int, p, i as int),
        decreases t@.len() - i,
    {
        assert(tv[i as int].0 == t@[i as int].0@);
        if str_eq(t[i].0.as_str(), name) {
            return Some(i);
        }
        i = i + 1;
    }
    None
}

/// Reads a command line (without the program name) against a table of
/// flags; `num` checks the values of number flags.
pub fn scan_flags<F: Fn(String) -> bool>(args: &Vec<String>, t: &Vec<(String, FlagKind)>, num: &F) -> (r: Result<
    Vec<(String, Option<String>)>,
    ArgError,
>)
    requires
        check_rule(*num),
    ensures
        match r {
            Ok(v) => scan_from(views(args@), table_view(t@), accepted_by(*num), 0, seq![]) == Ok::<
                Seq<Assign>,
                (ArgErrorKind, Seq<char>),
            >(assigns_view(v@)),
            Err(e) => scan_from(views(args@), table_view(t@), accepted_by(*num), 0, seq![]) == Err::<
                Seq<Assign>,
                (ArgErrorKind, Seq<char>),
            >((e.kind, e.subject@)),
        },
{
    let ghost a = views(args@);
    let ghost tv = table_view(t@);
    let ghost num_s = accepted_by(*num);
    let mut out: Vec<(String, Option<String>)> = Vec::new();
    let mut i: usize = 0;
    assert(assigns_view(out@) =~= seq![]);
    while i < args.len()
        invariant
            0 <= i <= args@.len(),
            a == views(args@),
            tv == table_view(t@),
            num_s == accepted_by(*num),
            check_rule(*num),
            scan_from(a, tv, num_s, 0, seq![]) == scan_from(a, tv, num_s, i as int, assigns_view(out@)),
        decreases args@.len() - i,
    {
        let arg = args[i].as_str();
        assert(a[i as int] == arg@);
        let k = match find_flag(t, arg) {
            Some(k) => k,
            None => return Err(ArgError { kind: ArgErrorKind::Unknown, subject: str_to_string(arg) }),
        };
        assert(tv[k as int].1 == t@[k as int].1);
        let kind = t[k].1;
        let ghost before = assigns_view(out@);
        match kind {
            FlagKind::Switch => {
                out.push((str_to_string(arg), None));
                assert(assigns_view(out@) =~= before.push((arg@, None)));
                i = i + 1;
            },
            _ => {
                if i + 1 >= args.len() {
                    return Err(ArgError { kind: ArgErrorKind::MissingValue, subject: str_to_string(arg) });
                }
                let v = args[i + 1].as_str();
                assert(a[i + 1] == v@);
                let ok = match kind {
                    FlagKind::Number => ask_check(num, v),
                    FlagKind::Int32 => parse_i32(v).is_some(),
                    FlagKind::Unsigned64 => parse_u64(v).is_some(),
                    _ => true,
                };
                if !ok {
                    return Err(ArgError { kind: ArgErrorKind::Invalid, subject: str_to_string(arg) });
                }
                out.push((str_to_string(arg), Some(str_to_string(v))));
                assert(assigns_view(out@) =~= before.push((arg@, Some(v@))));
                i = i + 2;
            },
        }
    }
    Ok(out)
}

// ---------------------------------------------------------------------------
// The values given
// ---------------------------------------------------------------------------

/// The last value given for a flag (`None` inside for a switch), if it was
/// given.
pub open spec fn last_value(v: Seq<Assign>, name: Seq<char>) -> Option<Option<Seq<char>>>
    decreases v.len(),
{
    if v.len() == 0 {
        None
    } else if v.last().0 == name {
        Some(v.last().1)
    } else {
        last_value(v.drop_last(), name)
    }
}

/// The last text given for a flag, or the default.
pub open spec fn text_or(v: Seq<Assign>, name: Seq<char>, dflt: Seq<char>) -> Seq<char> {
    match last_value(v, name) {
        Some(Some(s)) => s,
        _ => dflt,
    }
}

/// The last text given for a flag, if any.
pub open spec fn text_opt(v: Seq<Assign>, name: Seq<char>) -> Option<Seq<char>> {
    match last_value(v, name) {
        Some(Some(s)) => Some(s),
        _ => None,
    }
}

/// The last `i32` given for a flag, or the default.
pub open spec fn i32_or(v: Seq<Assign>, name: Seq<char>, dflt: i32) -> i32 {
    match text_opt(v, name) {
        Some(s) => match i32_text(s) {
            Some(n) => n,
            None => dflt,
        },
        None => dflt,
    }
}

/// The last `u64` given for a flag, or the default.
pub open spec fn u64_or(v: Seq<Assign>, name: Seq<char>, dflt: u64) -> u64 {
    match text_opt(v, name) {
        Some(s) => match u64_text(s) {
            Some(n) => n,
            None => dflt,
        },
        None => dflt,
    }
}

/// The last value given for a flag.
fn last_given(v: &Vec<(String, Option<String>)>, name: &str) -> (r: Option<Option<String>>)
    ensures
        match r {
            Some(o) => last_value(assigns_view(v@), name@) == Some(opt_str(o)),
            None => last_value(assigns_view(v@), name@) is None,
        },
{
    let ghost av = assigns_view(v@);
    let mut i: usize = v.len();
    assert(av.take(i as int) =~= av);
    while i > 0
        invariant
            0 <= i <= v@.len(),
            av == assigns_view(v@),
            last_value(av, name@) == last_value(av.take(i as int), name@),
        decreases i,
    {
        let ghost t = av.take(i as int);
        assert(t.drop_last() =~= av.take(i - 1));
        assert(t.last() == av[i - 1]);
        if str_eq(v[i - 1].0.as_str(), name) {
            return match &v[i - 1].1 {
                Some(s) => Some(Some(copy_string(s))),
                None => Some(None),
            };
        }
        i = i - 1;
    }
    None
}

/// The last text given for a flag, if any.
fn given_text(v: &Vec<(String, Option<String>)>, name: &str) -> (r: Option<String>)
    ensures
        opt_str(r) == text_opt(assigns_view(v@), name@),
{
    match last_given(v, name) {
        Some(Some(s)) => Some(s),
        _ => None,
    }
}

/// The last text given for a flag, or the default.
fn given_text_or(v: &Vec<(String, Option<String>)>, name: &str, dflt: &str) -> (r: String)
    ensures
        r@ == text_or(assigns_view(v@), name@, dflt@),
{
    match last_given(v, name) {
        Some(Some(s)) => s,
        _ => str_to_string(dflt),
    }
}

/// Whether a flag was given.
fn given(v: &Vec<(String, Option<String>)>, name: &str) -> (b: bool)
    ensures
        b == (last_value(assigns_view(v@), name@) is Some),
{
    last_given(v, name).is_some()
}

/// The last `i32` given for a flag, or the default.
fn given_i32_or(v: &Vec<(String, Option<String>)>, name: &str, dflt: i32) -> (r: i32)
    ensures
        r == i32_or(assigns_view(v@), name@, dflt),
{
    match given_text(v, name) {
        Some(s) => match parse_i32(s.as_str()) {
            Some(n) => n,
            None => dflt,
        },
        None => dflt,
    }
}

/// The last `u64` given for a flag, or the default.
fn given_u64_or(v: &Vec<(String, Option<String>)>, name: &str, dflt: u64) -> (r: u64)
    ensures
        r == u64_or(assigns_view(v@), name@, dflt),
{
    match given_text(v, name) {
        Some(s) => match parse_u64(s.as_str()) {
            Some(n) => n,
            None => dflt,
        },
        None => dflt,
    }
}

/// A table entry.
fn entry(name: &str, kind: FlagKind) -> (r: (String, FlagKind))
    ensures
        r.0@ == name@,
        r.1 == kind,
{
    (str_to_string(name), kind)
}

// ---------------------------------------------------------------------------
// The speech server
// ---------------------------------------------------------------------------

/// The flags of the speech server.
pub open spec fn server_table() -> Seq<(Seq<char>, FlagKind)> {
    seq![
        ("--host"@, FlagKind::Text),
        ("--translate-to-shell"@, FlagKind::Switch),
        ("--awake-sound"@, FlagKind::Text),
        ("--done-sound"@, FlagKind::Text),
        ("--fail-sound"@, FlagKind::Text),
        ("--beam-size"@, FlagKind::Int32),
        ("--wake-word"@, FlagKind::Text),
        ("--threshold"@, FlagKind::Number),
        ("--model"@, FlagKind::Text),
        ("--cooldown"@, FlagKind::Unsigned64),
        ("--temperature"@, FlagKind::Number),
        ("--language"@, FlagKind::Text),
        ("--threads"@, FlagKind::Int32),
        ("--exec-command"@, FlagKind::Text),
        ("--tts-model"@, FlagKind::Text),
        ("--debug"@, FlagKind::Switch),
    ]
}

/// The settings of the speech server.
pub struct ServerArgs {
    /// Only the usage is to be shown.
    pub help: bool,
    pub host: String,
    pub translate_to_shell: bool,
    pub sound_path: Option<String>,
    pub done_sound_path: Option<String>,
    pub fail_sound_path: Option<String>,
    pub wake_word_path: String,
    pub custom_wake_word: bool,
    /// The detection threshold as given (checked to be a number).
    pub threshold: Option<String>,
    pub model: String,
    pub cooldown_secs: u64,
    pub debug: bool,
    pub beam_size: i32,
    /// The transcription temperature as given (checked to be a number).
    pub temperature: Option<String>,
    /// The language, or none for automatic detection.
    pub language: Option<String>,
    pub threads: i32,
    pub exec_command: Option<String>,
    pub tts_model: String,
}

/// The server's settings from the given flags: the last value of each,
/// else its default; `--language auto` asks for automatic detection.
pub open spec fn server_fields(a: ServerArgs, v: Seq<Assign>) -> bool {
    &&& a.host@ == text_or(v, "--host"@, "0.0.0.0:12345"@)
    &&& a.translate_to_shell == last_value(v, "--translate-to-shell"@) is Some
    &&& opt_str(a.sound_path) == text_opt(v, "--awake-sound"@)
    &&& opt_str(a.done_sound_path) == text_opt(v, "--done-sound"@)
    &&& opt_str(a.fail_sound_path) == text_opt(v, "--fail-sound"@)
    &&& a.wake_word_path@ == text_or(v, "--wake-word"@, ""@)
    &&& a.custom_wake_word == last_value(v, "--wake-word"@) is Some
    &&& opt_str(a.threshold) == text_opt(v, "--threshold"@)
    &&& a.model@ == text_or(v, "--model"@, "./models/stt/ggml-tiny.bin"@)
    &&& a.cooldown_secs == u64_or(v, "--cooldown"@, 10)
    &&& a.debug == last_value(v, "--debug"@) is Some
    &&& a.beam_size == i32_or(v, "--beam-size"@, 5)
    &&& opt_str(a.temperature) == text_opt(v, "--temperature"@)
    &&& opt_str(a.language) == match text_opt(v, "--language"@) {
        Some(l) => if l == "auto"@ {
            None
        } else {
            Some(l)
        },
        None => Some("sv"@),
    }
    &&& a.threads == i32_or(v, "--threads"@, 4)
    &&& opt_str(a.exec_command) == text_opt(v, "--exec-command"@)
    &&& a.tts_model@ == text_or(v, "--tts-model"@, "./../models/tts/en_US-amy-medium.onnx"@)
}

/// The first argument asks for the usage.
pub open spec fn help_first(args: Seq<Seq<char>>) -> bool {
    args.len() > 0 && (args[0] == "--help"@ || args[0] == "-h"@)
}

/// The server's settings from given flags.
fn server_from(v: &Vec<(String, Option<String>)>, help: bool) -> (a: ServerArgs)
    ensures
        a.help == help,
        server_fields(a, assigns_view(v@)),
{
    let language = match given_text(v, "--language") {
        Some(l) => {
            if str_eq(l.as_str(), "auto") {
                None
            } else {
                Some(l)
            }
        },
        None => Some(str_to_string("sv")),
    };
    ServerArgs {
        help,
        host: given_text_or(v, "--host", "0.0.0.0:12345"),
        translate_to_shell: given(v, "--translate-to-shell"),
        sound_path: given_text(v, "--awake-sound"),
        done_sound_path: given_text(v, "--done-sound"),
        fail_sound_path: given_text(v, "--fail-sound"),
        wake_word_path: given_text_or(v, "--wake-word", ""),
        custom_wake_word: given(v, "--wake-word"),
        threshold: given_text(v, "--threshold"),
        model: given_text_or(v, "--model", "./models/stt/ggml-tiny.bin"),
        cooldown_secs: given_u64_or(v, "--cooldown", 10),
        debug: given(v, "--debug"),
        beam_size: given_i32_or(v, "--beam-size", 5),
        temperature: given_text(v, "--temperature"),
        language,
        threads: given_i32_or(v, "--threads", 4),
        exec_command: given_text(v, "--exec-command"),
        tts_model: given_text_or(v, "--tts-model", "./../models/tts/en_US-amy-medium.onnx"),
    }
}

/// Reads the speech server's command line (without the program name):
/// a first `--help` or `-h` asks for the usage; otherwise the flags of
/// `server_table`, `is_number` checking the threshold and temperature.
pub fn parse_server_args<F: Fn(String) -> bool>(args: &Vec<String>, is_number: &F) -> (r: Result<ServerArgs, ArgError>)
    requires
        check_rule(*is_number),
    ensures
        match r {
            Ok(a) => if help_first(views(args@)) {
                a.help && server_fields(a, seq![])
            } else {
                &&& !a.help
                &&& scan_from(views(args@), server_table(), accepted_by(*is_number), 0, seq![]) matches Ok(v)
                &&& server_fields(a, v)
            },
            Err(e) => !help_first(views(args@)) && scan_from(
                views(args@),
                server_table(),
                accepted_by(*is_number),
                0,
                seq![],
            ) == Err::<Seq<Assign>, (ArgErrorKind, Seq<char>)>((e.kind, e.subject@)),
        },
{
    if args.len() > 0 && (str_eq(args[0].as_str(), "--help") || str_eq(args[0].as_str(), "-h")) {
        assert(views(args@)[0] == args@[0]@);
        let none: Vec<(String, Option<String>)> = Vec::new();
        assert(assigns_view(none@) =~= seq![]);
        return Ok(server_from(&none, true));
    }
    proof {
        if args@.len() > 0 {
            assert(views(args@)[0] == args@[0]@);
        }
    }
    let mut t: Vec<(String, FlagKind)> = Vec::new();
    t.push(entry("--host", FlagKind::Text));
    t.push(entry("--translate-to-shell", FlagKind::Switch));
    t.push(entry("--awake-sound", FlagKind::Text));
    t.push(entry("--done-sound", FlagKind::Text));
    t.push(entry("--fail-sound", FlagKind::Text));
    t.push(entry("--beam-size", FlagKind::Int32));
    t.push(entry("--wake-word", FlagKind::Text));
    t.push(entry("--threshold", FlagKind::Number));
    t.push(entry("--model", FlagKind::Text));
    t.push(entry("--cooldown", FlagKind::Unsigned64));
    t.push(entry("--temperature", FlagKind::Number));
    t.push(entry("--language", FlagKind::Text));
    t.push(entry("--threads", FlagKind::Int32));
    t.push(entry("--exec-command", FlagKind::Text));
    t.push(entry("--tts-model", FlagKind::Text));
    t.push(entry("--debug", FlagKind::Switch));
    assert(table_view(t@) =~= server_table());
    let v = scan_flags(args, &t, is_number)?;
    Ok(server_from(&v, false))
}

// ---------------------------------------------------------------------------
// The microphone client
// ---------------------------------------------------------------------------

/// The flags of the microphone client.
pub open spec fn client_table() -> Seq<(Seq<char>, FlagKind)> {
    seq![
        ("--uri"@, FlagKind::Text),
        ("--room"@, FlagKind::Text),
        ("--awake-sound"@, FlagKind::Text),
        ("--done-sound"@, FlagKind::Text),
        ("--fail-sound"@, FlagKind::Text),
        ("--awake-cmd"@, FlagKind::Text),
        ("--done-cmd"@, FlagKind::Text),
        ("--debug"@, FlagKind::Switch),
        ("--silence-threshold"@, FlagKind::Number),
        ("--silence-timeout"@, FlagKind::Number),
        ("--max-duration"@, FlagKind::Number),
    ]
}

/// The settings of the microphone client.
pub struct ClientArgs {
    /// Only the usage is to be shown.
    pub help: bool,
    pub debug: bool,
    pub server_addr: String,
    pub room: Option<String>,
    pub awake_sound_path: Option<String>,
    pub done_sound_path: Option<String>,
    pub fail_sound_path: Option<String>,
    pub awake_cmd: Option<String>,
    pub done_cmd: Option<String>,
    /// The silence threshold as given (checked to be a number).
    pub silence_threshold: Option<String>,
    /// The silence timeout in seconds as given (checked to be a number).
    pub silence_timeout: Option<String>,
    /// The longest recording in seconds as given (checked to be a number).
    pub max_duration: Option<String>,
}

/// The client's settings from the given flags.
pub open spec fn client_fields(a: ClientArgs, v: Seq<Assign>) -> bool {
    &&& a.debug == last_value(v, "--debug"@) is Some
    &&& a.server_addr@ == text_or(v, "--uri"@, "127.0.0.1:12345"@)
    &&& opt_str(a.room) == text_opt(v, "--room"@)
    &&& opt_str(a.awake_sound_path) == text_opt(v, "--awake-sound"@)
    &&& opt_str(a.done_sound_path) == text_opt(v, "--done-sound"@)
    &&& opt_str(a.fail_sound_path) == text_opt(v, "--fail-sound"@)
    &&& opt_str(a.awake_cmd) == text_opt(v, "--awake-cmd"@)
    &&& opt_str(a.done_cmd) == text_opt(v, "--done-cmd"@)
    &&& opt_str(a.silence_threshold) == text_opt(v, "--silence-threshold"@)
    &&& opt_str(a.silence_timeout) == text_opt(v, "--silence-timeout"@)
    &&& opt_str(a.max_duration) == text_opt(v, "--max-duration"@)
}

/// Some argument asks for the usage.
pub open spec fn help_anywhere(args: Seq<Seq<char>>) -> bool {
    exists|i: int| 0 <= i < args.len() && (#[trigger] args[i] == "--help"@ || args[i] == "-h"@)
}

/// The client's settings from given flags.
fn client_from(v: &Vec<(String, Option<String>)>, help: bool) -> (a: ClientArgs)
    ensures
        a.help == help,
        client_fields(a, assigns_view(v@)),
{
    ClientArgs {
        help,
        debug: given(v, "--debug"),
        server_addr: given_text_or(v, "--uri", "127.0.0.1:12345"),
        room: given_text(v, "--room"),
        awake_sound_path: given_text(v, "--awake-sound"),
        done_sound_path: given_text(v, "--done-sound"),
        fail_sound_path: given_text(v, "--fail-sound"),
        awake_cmd: given_text(v, "--awake-cmd"),
        done_cmd: given_text(v, "--done-cmd"),
        silence_threshold: given_text(v, "--silence-threshold"),
        silence_timeout: given_text(v, "--silence-timeout"),
        max_duration: given_text(v, "--max-duration"),
    }
}

/// Reads the microphone client's command line (without the program name):
/// any `--help` or `-h` asks for the usage; otherwise the flags of
/// `client_table`, `is_number` checking the three numbers.
pub fn parse_client_args<F: Fn(String) -> bool>(args: &Vec<String>, is_number: &F) -> (r: Result<ClientArgs, ArgError>)
    requires
        check_rule(*is_number),
    ensures
        match r {
            Ok(a) => if help_anywhere(views(args@)) {
                a.help && client_fields(a, seq![])
            } else {
                &&& !a.help
                &&& scan_from(views(args@), client_table(), accepted_by(*is_number), 0, seq![]) matches Ok(v)
                &&& client_fields(a, v)
            },
            Err(e) => !help_anywhere(views(args@)) && scan_from(
                views(args@),
                client_table(),
                accepted_by(*is_number),
                0,
                seq![],
            ) == Err::<Seq<Assign>, (ArgErrorKind, Seq<char>)>((e.kind, e.subject@)),
        },
{
    let mut k: usize = 0;
    while k < args.len()
        invariant
            0 <= k <= args@.len(),
            forall|m: int| 0 <= m < k ==> !(args@[m]@ == "--help"@ || args@[m]@ == "-h"@),
        decreases args@.len() - k,
    {
        if str_eq(args[k].as_str(), "--help") || str_eq(args[k].as_str(), "-h") {
            assert(views(args@)[k as int] == args@[k as int]@);
            let none: Vec<(String, Option<String>)> = Vec::new();
            assert(assigns_view(none@) =~= seq![]);
            return Ok(client_from(&none, true));
        }
        k = k + 1;
    }
    proof {
        if help_anywhere(views(args@)) {
            let i = choose|i: int| 0 <= i < views(args@).len() && (#[trigger] views(args@)[i] == "--help"@ || views(args@)[i] == "-h"@);
            assert(views(args@)[i] == args@[i]@);
        }
    }
    let mut t: Vec<(String, FlagKind)> = Vec::new();
    t.push(entry("--uri", FlagKind::Text));
    t.push(entry("--room", FlagKind::Text));
    t.push(entry("--awake-sound", FlagKind::Text));
    t.push(entry("--done-sound", FlagKind::Text));
    t.push(entry("--fail-sound", FlagKind::Text));
    t.push(entry("--awake-cmd", FlagKind::Text));
    t.push(entry("--done-cmd", FlagKind::Text));
    t.push(entry("--debug", FlagKind::Switch));
    t.push(entry("--silence-threshold", FlagKind::Number));
    t.push(entry("--silence-timeout", FlagKind::Number));
    t.push(entry("--max-duration", FlagKind::Number));
    assert(table_view(t@) =~= client_table());
    let v = scan_flags(args, &t, is_number)?;
    Ok(client_from(&v, false))
}

// ---------------------------------------------------------------------------
// The self-test
// ---------------------------------------------------------------------------

/// The settings of the self-test.
pub struct TestsArgs {
    /// Show statistics instead of testing.
    pub stats: bool,
    /// Test this one input.
    pub input: Option<String>,
    /// Test this script only.
    pub script: Option<String>,
    pub max_variants: usize,
}

/// The self-test's settings as plain values.
pub type TestsState = (bool, Option<Seq<char>>, Option<Seq<char>>, usize);

/// Reads the self-test's flags from position `i` on: `--stats`, and
/// `--input`, `--script`, `--max-variants` when a value follows (a
/// maximum that is not a number counts as 1000); anything else is
/// skipped.
pub open spec fn tests_from(args: Seq<Seq<char>>, i: int, st: TestsState) -> TestsState
    decreases args.len() - i,
{
    if i < 0 || i >= args.len() {
        st
    } else {
        let a = args[i];
        let has_value = i + 1 < args.len();
        if a == "--stats"@ {
            tests_from(args, i + 1, (true, st.1, st.2, st.3))
        } else if a == "--input"@ && has_value {
            tests_from(args, i + 2, (st.0, Some(args[i + 1]), st.2, st.3))
        } else if a == "--script"@ && has_value {
            tests_from(args, i + 2, (st.0, st.1, Some(args[i + 1]), st.3))
        } else if a == "--max-variants"@ && has_value {
            let n = match crate::cli::usize_text(args[i + 1]) {
                Some(n) => n,
                None => 1000,
            };
            tests_from(args, i + 2, (st.0, st.1, st.2, n))
        } else {
            tests_from(args, i + 1, st)
        }
    }
}

/// Reads the self-test's command line (without the program name); by
/// default all scripts are tested with up to 1000 phrases per sentence.
pub fn parse_tests_args(args: &Vec<String>) -> (r: TestsArgs)
    ensures
        tests_from(views(args@), 0, (false, None, None, 1000)) == (r.stats, opt_str(r.input), opt_str(r.script), r.max_variants),
{
    let ghost a = views(args@);
    let mut stats = false;
    let mut input: Option<String> = None;
    let mut script: Option<String> = None;
    let mut max_variants: usize = 1000;
    let mut i: usize = 0;
    while i < args.len()
        invariant
            0 <= i <= args@.len(),
            a == views(args@),
            tests_from(a, 0, (false, None, None, 1000)) == tests_from(
                a,
                i as int,
                (stats, opt_str(input), opt_str(script), max_variants),
            ),
        decreases args@.len() - i,
    {
        let arg = args[i].as_str();
        assert(a[i as int] == arg@);
        let has_value = i + 1 < args.len();
        if has_value {
            assert(a[i + 1] == args@[i + 1]@);
        }
        if str_eq(arg, "--stats") {
            stats = true;
            i = i + 1;
        } else if str_eq(arg, "--input") && has_value {
            input = Some(copy_string(&args[i + 1]));
            i = i + 2;
        } else if str_eq(arg, "--script") && has_value {
            script = Some(copy_string(&args[i + 1]));
            i = i + 2;
        } else if str_eq(arg, "--max-variants") && has_value {
            max_variants = match crate::cli::parse_usize(args[i + 1].as_str()) {
                Some(n) => n,
                None => 1000,
            };
            i = i + 2;
        } else {
            i = i + 1;
        }
    }
    TestsArgs { stats, input, script, max_variants }
}

// ---------------------------------------------------------------------------
// The intent compiler
// ---------------------------------------------------------------------------

/// The position of the first argument equal to a flag.
pub open spec fn first_arg(args: Seq<Seq<char>>, flag: Seq<char>) -> Option<int> {
    first_from(args.len() as int, |k: int| args[k] == flag, 0)
}

/// The value after a flag's first occurrence: nothing when the flag is
/// absent, an error when it is last.
pub open spec fn flag_value(args: Seq<Seq<char>>, flag: Seq<char>) -> Result<Option<Seq<char>>, (ArgErrorKind, Seq<char>)> {
    match first_arg(args, flag) {
        Some(p) => if p + 1 >= args.len() {
            Err((ArgErrorKind::MissingValue, flag))
        } else {
            Ok(Some(args[p + 1]))
        },
        None => Ok(None),
    }
}

/// The settings of the intent compiler.
pub struct CompileArgs {
    /// A directory of configuration files.
    pub config_dir: Option<String>,
    /// One configuration file.
    pub config: Option<String>,
    pub output: String,
}

/// Reads the compiler's flags: `--config-dir`, then `--config` (refused
/// beside `--config-dir`), then `--output` (default `/etc/yo`), each by its
/// first occurrence.
pub open spec fn compile_args_spec(args: Seq<Seq<char>>) -> Result<(Option<Seq<char>>, Option<Seq<char>>, Seq<char>), (ArgErrorKind, Seq<char>)> {
    match flag_value(args, "--config-dir"@) {
        Err(e) => Err(e),
        Ok(dir) => if first_arg(args, "--config"@) is Some && dir is Some {
            Err((ArgErrorKind::Conflict, "--config"@))
        } else {
            match flag_value(args, "--config"@) {
                Err(e) => Err(e),
                Ok(cfg) => match flag_value(args, "--output"@) {
                    Err(e) => Err(e),
                    Ok(out) => Ok(
                        (
                            dir,
                            cfg,
                            match out {
                                Some(o) => o,
                                None => "/etc/yo"@,
                            },
                        ),
                    ),
                },
            }
        },
    }
}

/// The value after a flag's first occurrence.
fn value_after(args: &Vec<String>, flag: &str) -> (r: Result<Option<String>, ArgError>)
    ensures
        match r {
            Ok(o) => flag_value(views(args@), flag@) == Ok::<Option<Seq<char>>, (ArgErrorKind, Seq<char>)>(opt_str(o)),
            Err(e) => flag_value(views(args@), flag@) == Err::<Option<Seq<char>>, (ArgErrorKind, Seq<char>)>(
                (e.kind, e.subject@),
            ),
        },
{
    let ghost a = views(args@);
    let ghost p = |k: int| a[k] == flag@;
    let mut k: usize = 0;
    while k < args.len()
        invariant
            0 <= k <= args@.len(),
            a == views(args@),
            p == (|k: int| a[k] == flag@),
            first_arg(a, flag@) == first_from(a.len() as int, p, k as int),
        decreases args@.len() - k,
    {
        assert(a[k as int] == args@[k as int]@);
        if str_eq(args[k].as_str(), flag) {
            if k + 1 >= args.len() {
                return Err(ArgError { kind: ArgErrorKind::MissingValue, subject: str_to_string(flag) });
            }
            assert(a[k + 1] == args@[k + 1]@);
            return Ok(Some(copy_string(&args[k + 1])));
        }
        k = k + 1;
    }
    Ok(None)
}

/// Reads the intent compiler's command line (without the program name).
pub fn parse_compile_args(args: &Vec<String>) -> (r: Result<CompileArgs, ArgError>)
    ensures
        match r {
            Ok(c) => compile_args_spec(views(args@)) == Ok::<
                (Option<Seq<char>>, Option<Seq<char>>, Seq<char>),
                (ArgErrorKind, Seq<char>),
            >((opt_str(c.config_dir), opt_str(c.config), c.output@)),
            Err(e) => compile_args_spec(views(args@)) == Err::<
                (Option<Seq<char>>, Option<Seq<char>>, Seq<char>),
                (ArgErrorKind, Seq<char>),
            >((e.kind, e.subject@)),
        },
{
    let config_dir = value_after(args, "--config-dir")?;
    let has_config = match value_after(args, "--config") {
        Ok(Some(_)) => true,
        Err(_) => true,
        Ok(None) => false,
    };
    if has_config && config_dir.is_some() {
        return Err(ArgError { kind: ArgErrorKind::Conflict, subject: str_to_string("--config") });
    }
    let config = value_after(args, "--config")?;
    let output = match value_after(args, "--output")? {
        Some(o) => o,
        None => str_to_string("/etc/yo"),
    };
    Ok(CompileArgs { config_dir, config, output })
}

// ---------------------------------------------------------------------------
// The script generator
// ---------------------------------------------------------------------------

/// The settings of the script generator.
pub struct GenerateArgs {
    pub config_dir: String,
    pub output_dir: String,
}

/// Reads the script generator's command line (without the program name):
/// the configuration directory, required, then the output directory,
/// `yo-scripts` by default; more arguments are ignored.
pub fn parse_generate_args(args: &Vec<String>) -> (r: Result<GenerateArgs, ArgError>)
    ensures
        match r {
            Ok(g) => args@.len() > 0 && g.config_dir@ == args@[0]@ && g.output_dir@ == (if args@.len() > 1 {
                args@[1]@
            } else {
                "yo-scripts"@
            }),
            Err(e) => args@.len() == 0 && e.kind == ArgErrorKind::MissingRequired && e.subject@ == "<config-dir>"@,
        },
{
    if args.len() == 0 {
        return Err(ArgError { kind: ArgErrorKind::MissingRequired, subject: str_to_string("<config-dir>") });
    }
    let output_dir = if args.len() > 1 {
        copy_string(&args[1])
    } else {
        str_to_string("yo-scripts")
    };
    Ok(GenerateArgs { config_dir: copy_string(&args[0]), output_dir })
}

// ---------------------------------------------------------------------------
// The speech synthesizer
// ---------------------------------------------------------------------------

/// The settings of the speech synthesizer.
pub struct SayArgs {
    pub text: String,
    pub model: String,
    /// Wait for playback to finish.
    pub blocking: bool,
    /// Where to keep the audio.
    pub path: Option<String>,
    /// The length scale as given (checked to be a number).
    pub length_scale: Option<String>,
}

/// The synthesizer's settings while reading: text, model, blocking, path,
/// length scale.
pub type SayState = (Option<Seq<char>>, Option<Seq<char>>, bool, Option<Seq<char>>, Option<Seq<char>>);

/// Reads the synthesizer's flags from position `i` on. `--text`,
/// `--model` and `--path` take a value once each; `--length-scale` takes a
/// number; `--blocking` takes `true` or `false` when the next argument does
/// not start with `-`, else stands alone for `true`. An invalid value is
/// reported with the value itself.
pub open spec fn say_from(args: Seq<Seq<char>>, i: int, st: SayState, num: spec_fn(Seq<char>) -> bool) -> Result<SayState, (ArgErrorKind, Seq<char>)>
    decreases args.len() - i,
{
    if i < 0 || i >= args.len() {
        Ok(st)
    } else {
        let a = args[i];
        if a == "--blocking"@ {
            if i + 1 < args.len() && !(args[i + 1].len() > 0 && args[i + 1][0] == '-') {
                let v = args[i + 1];
                if v == "true"@ {
                    say_from(args, i + 2, (st.0, st.1, true, st.3, st.4), num)
                } else if v == "false"@ {
                    say_from(args, i + 2, (st.0, st.1, false, st.3, st.4), num)
                } else {
                    Err((ArgErrorKind::Invalid, v))
                }
            } else {
                say_from(args, i + 1, (st.0, st.1, true, st.3, st.4), num)
            }
        } else if a == "--text"@ || a == "--model"@ || a == "--path"@ || a == "--length-scale"@ {
            if i + 1 >= args.len() {
                Err((ArgErrorKind::MissingValue, a))
            } else {
                let v = args[i + 1];
                if a == "--text"@ {
                    if st.0 is Some {
                        Err((ArgErrorKind::Duplicate, a))
                    } else {
                        say_from(args, i + 2, (Some(v), st.1, st.2, st.3, st.4), num)
                    }
                } else if a == "--model"@ {
                    if st.1 is Some {
                        Err((ArgErrorKind::Duplicate, a))
                    } else {
                        say_from(args, i + 2, (st.0, Some(v), st.2, st.3, st.4), num)
                    }
                } else if a == "--path"@ {
                    if st.3 is Some {
                        Err((ArgErrorKind::Duplicate, a))
                    } else {
                        say_from(args, i + 2, (st.0, st.1, st.2, Some(v), st.4), num)
                    }
                } else {
                    if num(v) {
                        say_from(args, i + 2, (st.0, st.1, st.2, st.3, Some(v)), num)
                    } else {
                        Err((ArgErrorKind::Invalid, v))
                    }
                }
            }
        } else {
            Err((ArgErrorKind::Unknown, a))
        }
    }
}

/// The synthesizer's settings, once read: text and model are required.
pub open spec fn say_spec(args: Seq<Seq<char>>, num: spec_fn(Seq<char>) -> bool) -> Result<SayState, (ArgErrorKind, Seq<char>)> {
    match say_from(args, 0, (None, None, false, None, None), num) {
        Err(e) => Err(e),
        Ok(st) => if st.0 is None {
            Err((ArgErrorKind::MissingRequired, "--text"@))
        } else if st.1 is None {
            Err((ArgErrorKind::MissingRequired, "--model"@))
        } else {
            Ok(st)
        },
    }
}

/// Reads the speech synthesizer's command line (without the program
/// name); `is_number` checks the length scale.
pub fn parse_say_args<F: Fn(String) -> bool>(args: &Vec<String>, is_number: &F) -> (r: Result<SayArgs, ArgError>)
    requires
        check_rule(*is_number),
    ensures
        match r {
            Ok(s) => say_spec(views(args@), accepted_by(*is_number)) == Ok::<SayState, (ArgErrorKind, Seq<char>)>(
                (Some(s.text@), Some(s.model@), s.blocking, opt_str(s.path), opt_str(s.length_scale)),
            ),
            Err(e) => say_spec(views(args@), accepted_by(*is_number)) == Err::<SayState, (ArgErrorKind, Seq<char>)>(
                (e.kind, e.subject@),
            ),
        },
{
    let ghost a = views(args@);
    let ghost num = accepted_by(*is_number);
    let mut text: Option<String> = None;
    let mut model: Option<String> = None;
    let mut blocking = false;
    let mut path: Option<String> = None;
    let mut length_scale: Option<String> = None;
    let mut i: usize = 0;
    while i < args.len()
        invariant
            0 <= i <= args@.len(),
            a == views(args@),
            num == accepted_by(*is_number),
            check_rule(*is_number),
            say_from(a, 0, (None, None, false, None, None), num) == say_from(
                a,
                i as int,
                (opt_str(text), opt_str(model), blocking, opt_str(path), opt_str(length_scale)),
                num,
            ),
        decreases args@.len() - i,
    {
        let arg = args[i].as_str();
        assert(a[i as int] == arg@);
        if i + 1 < args.len() {
            assert(a[i + 1] == args@[i + 1]@);
        }
        if str_eq(arg, "--blocking") {
            let takes_value = i + 1 < args.len() && !first_is_dash(&args[i + 1]);
            if takes_value {
                let v = args[i + 1].as_str();
                match crate::cli::parse_bool(v) {
                    Some(b) => blocking = b,
                    None => return Err(ArgError { kind: ArgErrorKind::Invalid, subject: str_to_string(v) }),
                }
                i = i + 2;
            } else {
                blocking = true;
                i = i + 1;
            }
        } else if str_eq(arg, "--text") || str_eq(arg, "--model") || str_eq(arg, "--path") || str_eq(
            arg,
            "--length-scale",
        ) {
            if i + 1 >= args.len() {
                return Err(ArgError { kind: ArgErrorKind::MissingValue, subject: str_to_string(arg) });
            }
            let v = args[i + 1].as_str();
            if str_eq(arg, "--text") {
                if text.is_some() {
                    return Err(ArgError { kind: ArgErrorKind::Duplicate, subject: str_to_string(arg) });
                }
                text = Some(str_to_string(v));
            } else if str_eq(arg, "--model") {
                if model.is_some() {
                    return Err(ArgError { kind: ArgErrorKind::Duplicate, subject: str_to_string(arg) });
                }
                model = Some(str_to_string(v));
            } else if str_eq(arg, "--path") {
                if path.is_some() {
                    return Err(ArgError { kind: ArgErrorKind::Duplicate, subject: str_to_string(arg) });
                }
                path = Some(str_to_string(v));
            } else {
                if !ask_check(is_number, v) {
                    return Err(ArgError { kind: ArgErrorKind::Invalid, subject: str_to_string(v) });
                }
                length_scale = Some(str_to_string(v));
            }
            i = i + 2;
        } else {
            return Err(ArgError { kind: ArgErrorKind::Unknown, subject: str_to_string(arg) });
        }
    }
    let text = match text {
        Some(t) => t,
        None => return Err(ArgError { kind: ArgErrorKind::MissingRequired, subject: str_to_string("--text") }),
    };
    let model = match model {
        Some(m) => m,
        None => return Err(ArgError { kind: ArgErrorKind::MissingRequired, subject: str_to_string("--model") }),
    };
    Ok(SayArgs { text, model, blocking, path, length_scale })
}

/// Whether a text starts with `-`.
fn first_is_dash(s: &String) -> (b: bool)
    ensures
        b == (s@.len() > 0 && s@[0] == '-'),
{
    let cs = crate::text::chars_of(s.as_str());
    cs.len() > 0 && cs[0] == '-'
}

} // verus!
