//! What the assistant remembers between commands: the last action, the
//! servers in use, recent commands and confirmed matches.
use vstd::prelude::*;
use crate::text::{chars_of, contains_chars, contains_sub, copy_string, str_eq, str_to_string, views};

verus! {

/// A command that was run recently.
pub struct RecentCommand {
    pub script: String,
    pub args: String,
    pub matched_sentence: String,
    pub match_type: String,
    pub timestamp: String,
    pub confirmed: bool,
}

/// How often a `script:pattern` match was confirmed.
pub struct ConfirmedMatch {
    pub key: String,
    pub count: u32,
}

/// A user preference.
pub struct Preference {
    pub key: String,
    pub value: String,
}

/// The current context of the conversation.
pub struct MemoryContext {
    pub last_action: String,
    pub active_servers: Vec<String>,
    pub environment: String,
    pub user_preferences: Vec<Preference>,
}

/// The commands run so far.
pub struct CommandHistory {
    pub recent_commands: Vec<RecentCommand>,
    pub confirmed_matches: Vec<ConfirmedMatch>,
}

/// Context and history together.
pub struct MemoryData {
    pub context: MemoryContext,
    pub history: CommandHistory,
}

/// The keys and values of a list of preferences.
pub open spec fn pref_views(p: Seq<Preference>) -> Seq<(Seq<char>, Seq<char>)> {
    p.map_values(|e: Preference| (e.key@, e.value@))
}

fn copy_preferences(p: &Vec<Preference>) -> (r: Vec<Preference>)
    ensures
        pref_views(r@) == pref_views(p@),
{
    let mut r: Vec<Preference> = Vec::new();
    let mut i: usize = 0;
    while i < p.len()
        invariant
            0 <= i <= p@.len(),
            pref_views(r@) == pref_views(p@).take(i as int),
        decreases p@.len() - i,
    {
        let e = Preference { key: copy_string(&p[i].key), value: copy_string(&p[i].value) };
        let ghost prev = r@;
        r.push(e);
        assert(pref_views(r@) =~= pref_views(prev).push((p@[i as int].key@, p@[i as int].value@)));
        assert(pref_views(p@).take(i + 1) =~= pref_views(p@).take(i as int).push(
            (p@[i as int].key@, p@[i as int].value@),
        ));
        i = i + 1;
    }
    assert(pref_views(p@).take(p@.len() as int) =~= pref_views(p@));
    r
}

fn copy_strings(v: &Vec<String>) -> (r: Vec<String>)
    ensures
        views(r@) == views(v@),
{
    let mut r: Vec<String> = Vec::new();
    let mut i: usize = 0;
    while i < v.len()
        invariant
            0 <= i <= v@.len(),
            views(r@) == views(v@).take(i as int),
        decreases v@.len() - i,
    {
        let ghost prev = r@;
        r.push(copy_string(&v[i]));
        assert(views(r@) =~= views(prev).push(v@[i as int]@));
        assert(views(v@).take(i + 1) =~= views(v@).take(i as int).push(v@[i as int]@));
        i = i + 1;
    }
    assert(views(v@).take(v@.len() as int) =~= views(v@));
    r
}

impl MemoryData {
    /// The memory of a first start: no last action, no active servers, the
    /// `default` environment and an empty history.
    pub fn empty() -> (m: MemoryData)
        ensures
            m.context.last_action@ == Seq::<char>::empty(),
            m.context.active_servers@.len() == 0,
            m.context.environment@ == "default"@,
            m.context.user_preferences@.len() == 0,
            m.history.recent_commands@.len() == 0,
            m.history.confirmed_matches@.len() == 0,
    {
        MemoryData {
            context: MemoryContext {
                last_action: String::new(),
                active_servers: Vec::new(),
                environment: str_to_string("default"),
                user_preferences: Vec::new(),
            },
            history: CommandHistory { recent_commands: Vec::new(), confirmed_matches: Vec::new() },
        }
    }
}

/// An argument that names the given server: it contains the server's name,
/// or it is `--server` and some argument is exactly the name.
pub open spec fn names_server(arg: Seq<char>, args: Seq<Seq<char>>, server: Seq<char>) -> bool {
    contains_sub(arg, server) || (arg == "--server"@ && args.contains(server))
}

/// The servers a list of arguments activates, one entry per naming argument,
/// in order.
pub open spec fn servers_named(args: Seq<Seq<char>>, upto: int) -> Seq<Seq<char>>
    decreases upto,
{
    if upto <= 0 {
        seq![]
    } else {
        let a = args[upto - 1];
        servers_named(args, upto - 1) + (if names_server(a, args, "dads"@) {
            seq!["dads_media_server"@]
        } else {
            seq![]
        }) + (if names_server(a, args, "moms"@) {
            seq!["moms_media_server"@]
        } else {
            seq![]
        })
    }
}

/// The environment a script puts the assistant in.
pub open spec fn environment_after(script: Seq<char>) -> Seq<char> {
    if script == "deploy"@ {
        "deployment"@
    } else {
        "default"@
    }
}

fn any_equals(args: &[String], s: &str) -> (b: bool)
    ensures
        b == views(args@).contains(s@),
{
    let mut i: usize = 0;
    while i < args.len()
        invariant
            0 <= i <= args@.len(),
            forall|k: int| 0 <= k < i ==> args@[k]@ != s@,
        decreases args@.len() - i,
    {
        if str_eq(args[i].as_str(), s) {
            assert(views(args@)[i as int] == s@);
            return true;
        }
        i = i + 1;
    }
    proof {
        if views(args@).contains(s@) {
            let k = choose|k: int| 0 <= k < views(args@).len() && views(args@)[k] == s@;
            assert(args@[k]@ == s@);
        }
    }
    false
}

/// The context after a script ran with the given arguments: the script is
/// the last action; the servers its arguments name become the active ones
/// (the old ones stay when none is named); `deploy` switches to the
/// `deployment` environment and every other script to `default`.
pub fn updated_context(ctx: &MemoryContext, script_name: &str, args: &[String]) -> (r: MemoryContext)
    ensures
        r.last_action@ == script_name@,
        r.environment@ == environment_after(script_name@),
        views(r.active_servers@) == (if servers_named(views(args@), args@.len() as int).len() > 0 {
            servers_named(views(args@), args@.len() as int)
        } else {
            views(ctx.active_servers@)
        }),
        pref_views(r.user_preferences@) == pref_views(ctx.user_preferences@),
{
    let dads = chars_of("dads");
    let moms = chars_of("moms");
    let has_dads = any_equals(args, "dads");
    let has_moms = any_equals(args, "moms");
    let ghost a = views(args@);
    let mut servers: Vec<String> = Vec::new();
    let mut i: usize = 0;
    while i < args.len()
        invariant
            0 <= i <= args@.len(),
            a == views(args@),
            dads@ == "dads"@,
            moms@ == "moms"@,
            has_dads == a.contains("dads"@),
            has_moms == a.contains("moms"@),
            views(servers@) == servers_named(a, i as int),
        decreases args@.len() - i,
    {
        let ac = chars_of(args[i].as_str());
        let is_server = str_eq(args[i].as_str(), "--server");
        let ghost prev = views(servers@);
        if contains_chars(ac.as_slice(), dads.as_slice()) || (is_server && has_dads) {
            servers.push(str_to_string("dads_media_server"));
        }
        let ghost mid = views(servers@);
        if contains_chars(ac.as_slice(), moms.as_slice()) || (is_server && has_moms) {
            servers.push(str_to_string("moms_media_server"));
        }
        proof {
            assert(a[i as int] == args@[i as int]@);
            if names_server(a[i as int], a, "dads"@) {
                assert(mid =~= prev + seq!["dads_media_server"@]);
            } else {
                assert(mid =~= prev + seq![]);
            }
            if names_server(a[i as int], a, "moms"@) {
                assert(views(servers@) =~= mid + seq!["moms_media_server"@]);
            } else {
                assert(views(servers@) =~= mid + seq![]);
            }
        }
        i = i + 1;
    }
    let active = if servers.len() > 0 {
        servers
    } else {
        copy_strings(&ctx.active_servers)
    };
    let environment = if str_eq(script_name, "deploy") {
        str_to_string("deployment")
    } else {
        str_to_string("default")
    };
    MemoryContext {
        last_action: str_to_string(script_name),
        active_servers: active,
        environment,
        user_preferences: copy_preferences(&ctx.user_preferences),
    }
}

} // verus!
