//! Turning a transcription into a command: normalizing the text, cutting
//! it at the first sentence end, and choosing the program that runs it.
use vstd::prelude::*;
use crate::text::{
    alphanumeric, chars_of, decimal, is_alphanumeric, is_whitespace, is_ws, join, join_strings, lowercase,
    push_str, split_whitespace, str_to_string, string_from_chars, sub_chars, to_lowercase, trim, trim_str,
    u64_decimal, views, words,
};

verus! {

/// The characters a normalized transcription keeps.
pub open spec fn kept_char(c: char) -> bool {
    alphanumeric(c) || is_ws(c) || c == '-' || c == '_'
}

/// The kept characters of a text, in order.
pub open spec fn keep_chars(s: Seq<char>) -> Seq<char>
    decreases s.len(),
{
    if s.len() == 0 {
        seq![]
    } else {
        keep_chars(s.drop_last()) + if kept_char(s.last()) {
            seq![s.last()]
        } else {
            seq![]
        }
    }
}

/// A transcription as commands are matched against it: trimmed,
/// lowercased, only letters, digits, whitespace, `-` and `_` kept, words
/// separated by single spaces.
pub open spec fn normalized_transcription(text: Seq<char>) -> Seq<char> {
    join(words(keep_chars(lowercase(trim(text)))), seq![' '])
}

/// Normalizes a transcription (see `normalized_transcription`).
pub fn normalize_transcription(text: &str) -> (r: String)
    ensures
        r@ == normalized_transcription(text@),
{
    let t = trim_str(text);
    let l = to_lowercase(t.as_str());
    let cs = chars_of(l.as_str());
    let mut kept: Vec<char> = Vec::new();
    let mut i: usize = 0;
    while i < cs.len()
        invariant
            0 <= i <= cs@.len(),
            kept@ == keep_chars(cs@.take(i as int)),
        decreases cs@.len() - i,
    {
        let c = cs[i];
        assert(cs@.take(i + 1).drop_last() =~= cs@.take(i as int));
        assert(cs@.take(i + 1).last() == c);
        let ghost before = kept@;
        if is_alphanumeric(c) || is_whitespace(c) || c == '-' || c == '_' {
            kept.push(c);
            assert(kept@ =~= before + seq![c]);
        } else {
            assert(kept@ =~= before + seq![]);
        }
        i = i + 1;
    }
    assert(cs@.take(cs@.len() as int) =~= cs@);
    let ks = string_from_chars(kept.as_slice());
    let ws = split_whitespace(ks.as_str());
    proof {
        reveal_strlit(" ");
        assert(" "@ =~= seq![' ']);
    }
    join_strings(&ws, " ")
}

/// The first position of a sentence end (`?`, `!` or `.`), or -1.
pub open spec fn first_stop(s: Seq<char>) -> int
    decreases s.len(),
{
    if s.len() == 0 {
        -1
    } else if s[0] == '?' || s[0] == '!' || s[0] == '.' {
        0
    } else {
        let r = first_stop(s.drop_first());
        if r < 0 {
            -1
        } else {
            r + 1
        }
    }
}

proof fn lemma_first_stop(s: Seq<char>, i: int)
    requires
        0 <= i <= s.len(),
        forall|k: int| 0 <= k < i ==> s[k] != '?' && s[k] != '!' && s[k] != '.',
    ensures
        i < s.len() && (s[i] == '?' || s[i] == '!' || s[i] == '.') ==> first_stop(s) == i,
        i == s.len() ==> first_stop(s) == -1,
    decreases i,
{
    if i > 0 {
        let t = s.drop_first();
        assert forall|k: int| 0 <= k < i - 1 implies t[k] != '?' && t[k] != '!' && t[k] != '.' by {
            assert(t[k] == s[k + 1]);
        }
        lemma_first_stop(t, i - 1);
    }
}

/// A transcription cut before its first `?`, `!` or `.`.
pub fn cut_at_punctuation(text: &str) -> (r: String)
    ensures
        r@ == (if first_stop(text@) < 0 {
            text@
        } else {
            text@.take(first_stop(text@))
        }),
{
    let cs = chars_of(text);
    let mut i: usize = 0;
    while i < cs.len()
        invariant
            0 <= i <= cs@.len(),
            cs@ == text@,
            forall|k: int| 0 <= k < i ==> cs@[k] != '?' && cs@[k] != '!' && cs@[k] != '.',
        decreases cs@.len() - i,
    {
        if cs[i] == '?' || cs[i] == '!' || cs[i] == '.' {
            proof {
                lemma_first_stop(cs@, i as int);
            }
            let head = sub_chars(cs.as_slice(), 0, i);
            assert(head@ =~= text@.take(i as int));
            return string_from_chars(head.as_slice());
        }
        i = i + 1;
    }
    proof {
        lemma_first_stop(cs@, cs@.len() as int);
    }
    str_to_string(text)
}

/// A program and its arguments.
pub struct CommandPlan {
    pub program: String,
    pub args: Vec<String>,
}

/// The command a transcription runs: nothing for an empty text; `yo do`
/// (with the room when there is one) when transcriptions go to the shell;
/// otherwise the configured command, split at whitespace, with the text
/// as its last argument; nothing without a command.
pub open spec fn command_spec(
    text: Seq<char>,
    translate_to_shell: bool,
    room: Seq<char>,
    exec_command: Option<Seq<char>>,
) -> Option<(Seq<char>, Seq<Seq<char>>)> {
    if text.len() == 0 {
        None
    } else if translate_to_shell {
        Some(
            (
                "yo"@,
                seq!["do"@] + (if room.len() > 0 {
                    seq!["--room"@, room]
                } else {
                    seq![]
                }) + seq![text],
            ),
        )
    } else {
        match exec_command {
            Some(cmd) => {
                let parts = words(cmd);
                if parts.len() == 0 {
                    None
                } else {
                    Some((parts[0], parts.drop_first() + seq![text]))
                }
            },
            None => None,
        }
    }
}

/// Chooses the command a normalized transcription runs (see
/// `command_spec`); the caller runs it with `VOICE_MODE=1` and reports
/// whether it succeeded.
pub fn command_for(text: &str, translate_to_shell: bool, room: &str, exec_command: &Option<String>) -> (r: Option<
    CommandPlan,
>)
    ensures
        match r {
            Some(p) => command_spec(
                text@,
                translate_to_shell,
                room@,
                match exec_command {
                    Some(c) => Some(c@),
                    None => None,
                },
            ) == Some((p.program@, views(p.args@))),
            None => command_spec(
                text@,
                translate_to_shell,
                room@,
                match exec_command {
                    Some(c) => Some(c@),
                    None => None,
                },
            ) is None,
        },
{
    let tc = chars_of(text);
    if tc.len() == 0 {
        return None;
    }
    if translate_to_shell {
        let mut args: Vec<String> = Vec::new();
        args.push(str_to_string("do"));
        let rc = chars_of(room);
        if rc.len() > 0 {
            args.push(str_to_string("--room"));
            args.push(str_to_string(room));
        }
        args.push(str_to_string(text));
        let ghost expected = seq!["do"@] + (if room@.len() > 0 {
            seq!["--room"@, room@]
        } else {
            Seq::<Seq<char>>::empty()
        }) + seq![text@];
        assert(views(args@) =~= expected);
        return Some(CommandPlan { program: str_to_string("yo"), args });
    }
    match exec_command {
        Some(cmd) => {
            let parts = split_whitespace(cmd.as_str());
            if parts.len() == 0 {
                return None;
            }
            let program = crate::text::copy_string(&parts[0]);
            let mut args: Vec<String> = Vec::new();
            let mut k: usize = 1;
            while k < parts.len()
                invariant
                    1 <= k <= parts@.len(),
                    views(args@) == views(parts@).subrange(1, k as int),
                decreases parts@.len() - k,
            {
                let ghost before = views(args@);
                args.push(crate::text::copy_string(&parts[k]));
                assert(views(args@) =~= before.push(parts@[k as int]@));
                assert(views(parts@).subrange(1, k + 1) =~= views(parts@).subrange(1, k as int).push(
                    parts@[k as int]@,
                ));
                k = k + 1;
            }
            let ghost before = views(args@);
            args.push(str_to_string(text));
            assert(views(args@) =~= views(parts@).drop_first() + seq![text@]);
            Some(CommandPlan { program, args })
        },
        None => None,
    }
}

/// A client name usable in a file name: letters and digits kept, every
/// other character replaced by `_`.
pub open spec fn safe_name(s: Seq<char>) -> Seq<char>
    decreases s.len(),
{
    if s.len() == 0 {
        seq![]
    } else {
        safe_name(s.drop_last()) + if alphanumeric(s.last()) {
            seq![s.last()]
        } else {
            seq!['_']
        }
    }
}

/// Makes a client name usable in a file name.
pub fn safe_client_id(client_id: &str) -> (r: String)
    ensures
        r@ == safe_name(client_id@),
{
    let cs = chars_of(client_id);
    let mut out: Vec<char> = Vec::new();
    let mut i: usize = 0;
    while i < cs.len()
        invariant
            0 <= i <= cs@.len(),
            out@ == safe_name(cs@.take(i as int)),
        decreases cs@.len() - i,
    {
        let c = cs[i];
        assert(cs@.take(i + 1).drop_last() =~= cs@.take(i as int));
        assert(cs@.take(i + 1).last() == c);
        let ghost before = out@;
        if is_alphanumeric(c) {
            out.push(c);
            assert(out@ =~= before + seq![c]);
        } else {
            out.push('_');
            assert(out@ =~= before + seq!['_']);
        }
        i = i + 1;
    }
    assert(cs@.take(cs@.len() as int) =~= cs@);
    string_from_chars(out.as_slice())
}

/// The file a recording of a device is saved to.
pub fn recording_file_name(client_id: &str, timestamp: u64) -> (r: String)
    ensures
        r@ == "recordings/esp_"@ + safe_name(client_id@) + "_"@ + decimal(timestamp as nat) + ".raw"@,
{
    let safe = safe_client_id(client_id);
    let ts = u64_decimal(timestamp);
    let mut out: Vec<char> = Vec::new();
    push_str(&mut out, "recordings/esp_");
    push_str(&mut out, safe.as_str());
    push_str(&mut out, "_");
    crate::text::push_all(&mut out, ts.as_slice());
    push_str(&mut out, ".raw");
    string_from_chars(out.as_slice())
}

} // verus!
