//! The shell scripts generated for each configured script: environment
//! defaults, argument parsing, help text, validation and execution, and
//! the `yo` wrapper that dispatches to them.
use vstd::prelude::*;
use crate::config::{escape_md, md_escaped, DefaultValue, NamedScript, Parameter, Script};
use crate::text::{
    chars_of, copy_string, decimal, join, join_strings, push_all, push_str, replace_char,
    replace_char_str, str_eq, str_to_string, string_from_chars, usize_to_string, views,
};

verus! {

/// A parameter's name as a shell variable: dashes become underscores.
pub open spec fn var_of(name: Seq<char>) -> Seq<char> {
    replace_char(name, '-', "_"@)
}

/// A name usable as a shell variable: dashes turned into underscores.
pub fn sanitize_var_name(name: &str) -> (r: String)
    ensures
        r@ == var_of(name@),
{
    replace_char_str(name, '-', "_")
}

/// `true` or `false`.
pub open spec fn bool_text(b: bool) -> Seq<char> {
    if b {
        "true"@
    } else {
        "false"@
    }
}

/// The text of an optional string, empty when missing.
pub open spec fn text_or_empty(t: Option<String>) -> Seq<char> {
    match t {
        Some(s) => s@,
        None => seq![],
    }
}

/// A parameter's type is the given one.
pub open spec fn type_is(ty: Option<String>, name: Seq<char>) -> bool {
    match ty {
        Some(t) => t@ == name,
        None => false,
    }
}

/// A parameter's type, `string` when missing, is `string`.
pub open spec fn string_typed(ty: Option<String>) -> bool {
    match ty {
        Some(t) => t@ == "string"@,
        None => true,
    }
}

/// How a default value is written in shell code: quoted text for string
/// and path parameters, `true`/`false` for booleans, the JSON rendering
/// otherwise.
pub open spec fn default_text(ty: Option<String>, d: DefaultValue) -> Seq<char> {
    if type_is(ty, "string"@) || type_is(ty, "path"@) {
        "'"@ + text_or_empty(d.text) + "'"@
    } else if type_is(ty, "int"@) {
        d.json@
    } else if type_is(ty, "bool"@) {
        bool_text(
            match d.flag {
                Some(b) => b,
                None => false,
            },
        )
    } else {
        d.json@
    }
}

fn is_type(ty: &Option<String>, name: &str) -> (b: bool)
    ensures
        b == type_is(*ty, name@),
{
    match ty {
        Some(t) => str_eq(t.as_str(), name),
        None => false,
    }
}

fn bool_str(b: bool) -> (r: String)
    ensures
        r@ == bool_text(b),
{
    if b {
        str_to_string("true")
    } else {
        str_to_string("false")
    }
}

/// Writes a default value as shell code.
fn default_value_text(ty: &Option<String>, d: &DefaultValue) -> (r: String)
    ensures
        r@ == default_text(*ty, *d),
{
    if is_type(ty, "string") || is_type(ty, "path") {
        let mut out: Vec<char> = Vec::new();
        push_str(&mut out, "'");
        match &d.text {
            Some(t) => push_str(&mut out, t.as_str()),
            None => {},
        }
        push_str(&mut out, "'");
        assert(out@ =~= "'"@ + text_or_empty(d.text) + "'"@);
        string_from_chars(out.as_slice())
    } else if is_type(ty, "int") {
        copy_string(&d.json)
    } else if is_type(ty, "bool") {
        bool_str(
            match d.flag {
                Some(b) => b,
                None => false,
            },
        )
    } else {
        copy_string(&d.json)
    }
}

/// The export lines of the parameters with defaults, first `n` parameters.
pub open spec fn export_lines(ps: Seq<Parameter>, n: int) -> Seq<Seq<char>>
    decreases n,
{
    if n <= 0 {
        seq![]
    } else {
        let p = ps[n - 1];
        export_lines(ps, n - 1) + match p.default {
            Some(d) => seq!["export "@ + var_of(p.name@) + "=\""@ + default_text(p.param_type, d) + "\""@],
            None => seq![],
        }
    }
}

/// The environment exports of a script's parameter defaults, one per line.
pub open spec fn env_exports(script: Script) -> Seq<char> {
    join(export_lines(script.parameters@, script.parameters@.len() as int), "\n"@)
}

/// Exports the parameter defaults of a script as environment variables.
pub fn generate_env_exports(script: &Script) -> (r: String)
    ensures
        r@ == env_exports(*script),
{
    let ps = &script.parameters;
    let mut lines: Vec<String> = Vec::new();
    let mut i: usize = 0;
    while i < ps.len()
        invariant
            0 <= i <= ps@.len(),
            ps@ == script.parameters@,
            views(lines@) == export_lines(ps@, i as int),
        decreases ps@.len() - i,
    {
        let ghost before = views(lines@);
        match &ps[i].default {
            Some(d) => {
                let value = default_value_text(&ps[i].param_type, d);
                let var = sanitize_var_name(ps[i].name.as_str());
                let mut out: Vec<char> = Vec::new();
                push_str(&mut out, "export ");
                push_str(&mut out, var.as_str());
                push_str(&mut out, "=\"");
                push_str(&mut out, value.as_str());
                push_str(&mut out, "\"");
                let line = string_from_chars(out.as_slice());
                lines.push(line);
                assert(views(lines@) =~= before + seq![line@]);
            },
            None => {
                assert(views(lines@) =~= before + seq![]);
            },
        }
        i = i + 1;
    }
    join_strings(&lines, "\n")
}

// ---------------------------------------------------------------------------
// Help text
// ---------------------------------------------------------------------------

/// The help text of one parameter.
pub open spec fn param_help(p: Parameter) -> Seq<char> {
    "**`--"@ + p.name@ + "`**  \n"@ + text_or_empty(p.description) + "  \n"@ + help_optional_part(p)
        + help_default_part(p) + help_values_part(p) + "\n\n"@
}

/// The optional marker of a parameter's help.
pub open spec fn help_optional_part(p: Parameter) -> Seq<char> {
    if match p.optional {
        Some(b) => b,
        None => false,
    } {
        "*(optional)* "@
    } else {
        seq![]
    }
}

/// The default of a parameter's help.
pub open spec fn help_default_part(p: Parameter) -> Seq<char> {
    match p.default {
        Some(d) => "*(default: "@ + default_text(p.param_type, d) + ")* "@,
        None => seq![],
    }
}

/// The allowed values of a parameter's help.
pub open spec fn help_values_part(p: Parameter) -> Seq<char> {
    match p.values {
        Some(vs) => if string_typed(p.param_type) {
            "*(allowed: "@ + join(views(vs@), ", "@) + ")* "@
        } else {
            seq![]
        },
        None => seq![],
    }
}

/// The help text of the first `n` parameters.
pub open spec fn params_help(ps: Seq<Parameter>, n: int) -> Seq<char>
    decreases n,
{
    if n <= 0 {
        seq![]
    } else {
        params_help(ps, n - 1) + param_help(ps[n - 1])
    }
}

/// The voice command lines of the first `n` sentences.
pub open spec fn sentence_lines(ss: Seq<String>, n: int) -> Seq<char>
    decreases n,
{
    if n <= 0 {
        seq![]
    } else {
        sentence_lines(ss, n - 1) + "- \""@ + ss[n - 1]@ + "\"\n"@
    }
}

/// The help section of a generated script: a Markdown page with the
/// usage, the parameters and the voice commands, shown with `glow`.
pub open spec fn help_section(name: Seq<char>, script: Script) -> Seq<char> {
    help_head(script) + help_title(name, script) + help_params(script) + help_voice(script)
        + "\n$help_footer\n"@ + "EOF\n"@ + "      exit 0\n"@
}

/// The shell lines that prepare the help page.
pub open spec fn help_head(script: Script) -> Seq<char> {
    "      width=$(tput cols 2>/dev/null || echo 100)\n"@ + (match script.help_footer {
        Some(f) => "      help_footer=$("@ + f@ + ")\n"@,
        None => "      help_footer=\"\"\n"@,
    }) + "      usage_suffix=\"\"\n"@ + (if script.parameters@.len() > 0 {
        "      usage_suffix=\" [OPTIONS]\"\n"@
    } else {
        seq![]
    })
}

/// The title, description and usage of the help page.
pub open spec fn help_title(name: Seq<char>, script: Script) -> Seq<char> {
    "      cat <<'EOF' | glow --width \"$width\" -\n"@ + "# 🚀🦆 yo "@ + md_escaped(name) + "\n"@
        + script.description@ + "\n"@ + "**Usage:** `yo "@ + md_escaped(name) + "`${usage_suffix}\n"@
}

/// The parameters of the help page.
pub open spec fn help_params(script: Script) -> Seq<char> {
    if script.parameters@.len() > 0 {
        "\n## Parameters\n"@ + params_help(script.parameters@, script.parameters@.len() as int)
    } else {
        seq![]
    }
}

/// The voice commands of the help page.
pub open spec fn help_voice(script: Script) -> Seq<char> {
    match script.voice {
        Some(v) => if match v.enabled {
            Some(b) => b,
            None => true,
        } {
            "## Voice Commands\n\n"@ + "Patterns: 0  \n"@ + "Phrases: 0  \n\n"@ + sentence_lines(
                v.sentences@,
                v.sentences@.len() as int,
            )
        } else {
            seq![]
        },
        None => seq![],
    }
}

fn push_help_default(out: &mut Vec<char>, p: &Parameter)
    ensures
        final(out)@ == old(out)@ + help_default_part(*p),
{
    match &p.default {
        Some(d) => {
            let t = default_value_text(&p.param_type, d);
            let ghost start = out@;
            push_str(out, "*(default: ");
            push_str(out, t.as_str());
            push_str(out, ")* ");
            assert(out@ =~= start + help_default_part(*p));
        },
        None => {
            assert(out@ =~= out@ + help_default_part(*p));
        },
    }
}

fn push_help_values(out: &mut Vec<char>, p: &Parameter)
    ensures
        final(out)@ == old(out)@ + help_values_part(*p),
{
    let ghost start = out@;
    match &p.values {
        Some(vs) => {
            let st = match &p.param_type {
                Some(t) => str_eq(t.as_str(), "string"),
                None => true,
            };
            if st {
                let joined = join_strings(vs, ", ");
                push_str(out, "*(allowed: ");
                push_str(out, joined.as_str());
                push_str(out, ")* ");
            }
        },
        None => {},
    }
    assert(out@ =~= start + help_values_part(*p));
}

fn push_param_help(out: &mut Vec<char>, p: &Parameter)
    ensures
        final(out)@ == old(out)@ + param_help(*p),
{
    let ghost start = out@;
    push_str(out, "**`--");
    push_str(out, p.name.as_str());
    push_str(out, "`**  \n");
    match &p.description {
        Some(d) => push_str(out, d.as_str()),
        None => {},
    }
    push_str(out, "  \n");
    let ghost s1 = out@;
    assert(s1 =~= start + ("**`--"@ + p.name@ + "`**  \n"@ + text_or_empty(p.description) + "  \n"@));
    let optional = match p.optional {
        Some(b) => b,
        None => false,
    };
    if optional {
        push_str(out, "*(optional)* ");
    }
    assert(out@ =~= s1 + help_optional_part(*p));
    push_help_default(out, p);
    push_help_values(out, p);
    let ghost s4 = out@;
    push_str(out, "\n\n");
    assert(out@ =~= start + param_help(*p));
}

/// The help section of a generated script.
pub fn generate_help_section(name: &str, script: &Script) -> (r: String)
    ensures
        r@ == help_section(name@, *script),
{
    let mut out: Vec<char> = Vec::new();
    let has_params = script.parameters.len() > 0;
    push_str(&mut out, "      width=$(tput cols 2>/dev/null || echo 100)\n");
    match &script.help_footer {
        Some(f) => {
            push_str(&mut out, "      help_footer=$(");
            push_str(&mut out, f.as_str());
            push_str(&mut out, ")\n");
        },
        None => push_str(&mut out, "      help_footer=\"\"\n"),
    }
    push_str(&mut out, "      usage_suffix=\"\"\n");
    if has_params {
        push_str(&mut out, "      usage_suffix=\" [OPTIONS]\"\n");
    }
    let ghost a = out@;
    let en = escape_md(name);
    push_str(&mut out, "      cat <<'EOF' | glow --width \"$width\" -\n");
    push_str(&mut out, "# 🚀🦆 yo ");
    push_str(&mut out, en.as_str());
    push_str(&mut out, "\n");
    push_str(&mut out, script.description.as_str());
    push_str(&mut out, "\n");
    push_str(&mut out, "**Usage:** `yo ");
    push_str(&mut out, en.as_str());
    push_str(&mut out, "`${usage_suffix}\n");
    let ghost b = out@;
    if has_params {
        push_str(&mut out, "\n## Parameters\n");
        let ps = &script.parameters;
        let mut i: usize = 0;
        let ghost base = out@;
        while i < ps.len()
            invariant
                0 <= i <= ps@.len(),
                out@ == base + params_help(ps@, i as int),
            decreases ps@.len() - i,
        {
            push_param_help(&mut out, &ps[i]);
            i = i + 1;
        }
    }
    let ghost c = out@;
    match &script.voice {
        Some(v) => {
            let enabled = match v.enabled {
                Some(e) => e,
                None => true,
            };
            if enabled {
                push_str(&mut out, "## Voice Commands\n\n");
                push_str(&mut out, "Patterns: 0  \n");
                push_str(&mut out, "Phrases: 0  \n\n");
                let mut j: usize = 0;
                let ghost base = out@;
                while j < v.sentences.len()
                    invariant
                        0 <= j <= v.sentences@.len(),
                        out@ == base + sentence_lines(v.sentences@, j as int),
                    decreases v.sentences@.len() - j,
                {
                    let ghost before = out@;
                    push_str(&mut out, "- \"");
                    push_str(&mut out, v.sentences[j].as_str());
                    push_str(&mut out, "\"\n");
                    assert(out@ =~= base + sentence_lines(v.sentences@, j + 1));
                    j = j + 1;
                }
            }
        },
        None => {},
    }
    let ghost d = out@;
    push_str(&mut out, "\n$help_footer\n");
    push_str(&mut out, "EOF\n");
    push_str(&mut out, "      exit 0\n");
    proof {
        assert(a =~= help_head(*script));
        assert(b =~= a + help_title(name@, *script));
        assert(c =~= b + help_params(*script));
        assert(d =~= c + help_voice(*script));
        assert(out@ =~= help_section(name@, *script));
    }
    string_from_chars(out.as_slice())
}

// ---------------------------------------------------------------------------
// Script content
// ---------------------------------------------------------------------------

/// The loop that takes the verbosity and dry-run flags off the arguments.
pub open spec fn flags_block() -> Seq<char> {
    "VERBOSE=0\n"@ + "DRY_RUN=false\n"@ + "FILTERED_ARGS=()\n"@ + "while [[ $# -gt 0 ]]; do\n"@ + "  case \"$1\" in\n"@ + "    \\?) ((VERBOSE++)); shift ;;\n"@ + "    '!') DRY_RUN=true; shift ;;\n"@ + "    *) FILTERED_ARGS+=(\"$1\"); shift ;;\n"@ + "  esac\n"@ + "done\n"@ + "export VERBOSE DRY_RUN\n"@ + "set -- \"${FILTERED_ARGS[@]}\"\n"@ + "if [ \"$VERBOSE\" -ge 1 ]; then DT_LOG_LEVEL=\"DEBUG\"; fi\n\n"@
}

fn push_flags_block(out: &mut Vec<char>)
    ensures
        final(out)@ == old(out)@ + flags_block(),
{
    let ghost start = out@;
    push_str(out, "VERBOSE=0\n");
    push_str(out, "DRY_RUN=false\n");
    push_str(out, "FILTERED_ARGS=()\n");
    push_str(out, "while [[ $# -gt 0 ]]; do\n");
    push_str(out, "  case \"$1\" in\n");
    push_str(out, "    \\?) ((VERBOSE++)); shift ;;\n");
    push_str(out, "    '!') DRY_RUN=true; shift ;;\n");
    push_str(out, "    *) FILTERED_ARGS+=(\"$1\"); shift ;;\n");
    push_str(out, "  esac\n");
    push_str(out, "done\n");
    push_str(out, "export VERBOSE DRY_RUN\n");
    push_str(out, "set -- \"${FILTERED_ARGS[@]}\"\n");
    push_str(out, "if [ \"$VERBOSE\" -ge 1 ]; then DT_LOG_LEVEL=\"DEBUG\"; fi\n\n");
    assert(out@ =~= start + flags_block());
}


/// The start of the argument loop, up to the help option.
pub open spec fn parse_open() -> Seq<char> {
    "declare -A PARAMS=()\n"@ + "POSITIONAL=()\n"@ + "while [[ $# -gt 0 ]]; do\n"@ + "  case \"$1\" in\n"@ + "    --help|-h)\n"@
}

fn push_parse_open(out: &mut Vec<char>)
    ensures
        final(out)@ == old(out)@ + parse_open(),
{
    let ghost start = out@;
    push_str(out, "declare -A PARAMS=()\n");
    push_str(out, "POSITIONAL=()\n");
    push_str(out, "while [[ $# -gt 0 ]]; do\n");
    push_str(out, "  case \"$1\" in\n");
    push_str(out, "    --help|-h)\n");
    assert(out@ =~= start + parse_open());
}


/// The start of the named-option branch.
pub open spec fn parse_named_open() -> Seq<char> {
    "      ;;\n"@ + "    --*)\n"@ + "      param_name=\"${1##--}\"\n"@
}

fn push_parse_named_open(out: &mut Vec<char>)
    ensures
        final(out)@ == old(out)@ + parse_named_open(),
{
    let ghost start = out@;
    push_str(out, "      ;;\n");
    push_str(out, "    --*)\n");
    push_str(out, "      param_name=\"${1##--}\"\n");
    assert(out@ =~= start + parse_named_open());
}


/// How a boolean option takes an optional `true`/`false`.
pub open spec fn bool_branch() -> Seq<char> {
    "        if [[ $# -gt 1 && ( \"$2\" == \"true\" || \"$2\" == \"false\" ) ]]; then\n"@ + "          PARAMS[\"$param_name\"]=\"$2\"\n"@ + "          shift 2\n"@ + "        else\n"@ + "          PARAMS[\"$param_name\"]=\"true\"\n"@ + "          shift 1\n"@ + "        fi\n"@ + "      else\n"@
}

fn push_bool_branch(out: &mut Vec<char>)
    ensures
        final(out)@ == old(out)@ + bool_branch(),
{
    let ghost start = out@;
    push_str(out, "        if [[ $# -gt 1 && ( \"$2\" == \"true\" || \"$2\" == \"false\" ) ]]; then\n");
    push_str(out, "          PARAMS[\"$param_name\"]=\"$2\"\n");
    push_str(out, "          shift 2\n");
    push_str(out, "        else\n");
    push_str(out, "          PARAMS[\"$param_name\"]=\"true\"\n");
    push_str(out, "          shift 1\n");
    push_str(out, "        fi\n");
    push_str(out, "      else\n");
    assert(out@ =~= start + bool_branch());
}


/// How another option takes its value or is refused.
pub open spec fn regular_branch() -> Seq<char> {
    "        if [[ \" ${params} \" =~ \" $param_name \" ]]; then\n"@ + "          PARAMS[\"$param_name\"]=\"$2\"\n"@ + "          shift 2\n"@ + "        else\n"@ + "          echo -e \"\\033[1;31m 🦆 duck say ⮞ fuck ❌ $1\\033[0m Unknown parameter: $1\"\n"@ + "          exit 1\n"@ + "        fi\n"@
}

fn push_regular_branch(out: &mut Vec<char>)
    ensures
        final(out)@ == old(out)@ + regular_branch(),
{
    let ghost start = out@;
    push_str(out, "        if [[ \" ${params} \" =~ \" $param_name \" ]]; then\n");
    push_str(out, "          PARAMS[\"$param_name\"]=\"$2\"\n");
    push_str(out, "          shift 2\n");
    push_str(out, "        else\n");
    push_str(out, "          echo -e \"\\033[1;31m 🦆 duck say ⮞ fuck ❌ $1\\033[0m Unknown parameter: $1\"\n");
    push_str(out, "          exit 1\n");
    push_str(out, "        fi\n");
    assert(out@ =~= start + regular_branch());
}


/// The end of the argument loop.
pub open spec fn parse_close() -> Seq<char> {
    "      ;;\n"@ + "    *)\n"@ + "      POSITIONAL+=(\"$1\")\n"@ + "      shift\n"@ + "      ;;\n"@ + "  esac\n"@ + "done\n\n"@
}

fn push_parse_close(out: &mut Vec<char>)
    ensures
        final(out)@ == old(out)@ + parse_close(),
{
    let ghost start = out@;
    push_str(out, "      ;;\n");
    push_str(out, "    *)\n");
    push_str(out, "      POSITIONAL+=(\"$1\")\n");
    push_str(out, "      shift\n");
    push_str(out, "      ;;\n");
    push_str(out, "  esac\n");
    push_str(out, "done\n\n");
    assert(out@ =~= start + parse_close());
}


/// The start of the loop over the allowed values.
pub open spec fn values_loop() -> Seq<char> {
    "  value_found=false\n"@ + "  for allowed in \"${allowed_values[@]}\"; do\n"@
}

fn push_values_loop(out: &mut Vec<char>)
    ensures
        final(out)@ == old(out)@ + values_loop(),
{
    let ghost start = out@;
    push_str(out, "  value_found=false\n");
    push_str(out, "  for allowed in \"${allowed_values[@]}\"; do\n");
    assert(out@ =~= start + values_loop());
}

/// The end of the loop over the allowed values and the failure test.
pub open spec fn values_found() -> Seq<char> {
    "      value_found=true\n"@ + "      break\n"@ + "    fi\n"@ + "  done\n"@ + "  if [[ \"$value_found\" == \"false\" ]]; then\n"@
}

fn push_values_found(out: &mut Vec<char>)
    ensures
        final(out)@ == old(out)@ + values_found(),
{
    let ghost start = out@;
    push_str(out, "      value_found=true\n");
    push_str(out, "      break\n");
    push_str(out, "    fi\n");
    push_str(out, "  done\n");
    push_str(out, "  if [[ \"$value_found\" == \"false\" ]]; then\n");
    assert(out@ =~= start + values_found());
}

/// The names of the boolean parameters among the first `n`.
pub open spec fn bool_names(ps: Seq<Parameter>, n: int) -> Seq<Seq<char>>
    decreases n,
{
    if n <= 0 {
        seq![]
    } else {
        bool_names(ps, n - 1) + if type_is(ps[n - 1].param_type, "bool"@) {
            seq![ps[n - 1].name@]
        } else {
            seq![]
        }
    }
}

/// The argument loop of a generated script: help, boolean and valued
/// options, positional arguments.
pub open spec fn parse_section(name: Seq<char>, script: Script) -> Seq<char> {
    let bn = bool_names(script.parameters@, script.parameters@.len() as int);
    parse_open() + help_section(name, script) + parse_named_open() + (if bn.len() > 0 {
        "      if [[ \" "@ + join(bn, " "@) + " \" =~ \" $param_name \" ]]; then\n"@ + bool_branch()
    } else {
        seq![]
    }) + regular_branch() + (if bn.len() > 0 {
        "      fi\n"@
    } else {
        seq![]
    }) + parse_close()
}

#[verifier::rlimit(40)]
fn push_parse_section(out: &mut Vec<char>, name: &str, script: &Script)
    ensures
        final(out)@ == old(out)@ + parse_section(name@, *script),
{
    let ghost start = out@;
    let ps = &script.parameters;
    let mut bools: Vec<String> = Vec::new();
    let mut i: usize = 0;
    while i < ps.len()
        invariant
            0 <= i <= ps@.len(),
            ps@ == script.parameters@,
            views(bools@) == bool_names(ps@, i as int),
        decreases ps@.len() - i,
    {
        let ghost before = views(bools@);
        if is_type(&ps[i].param_type, "bool") {
            bools.push(copy_string(&ps[i].name));
            assert(views(bools@) =~= before + seq![ps@[i as int].name@]);
        } else {
            assert(views(bools@) =~= before + seq![]);
        }
        i = i + 1;
    }
    push_parse_open(out);
    let help = generate_help_section(name, script);
    push_str(out, help.as_str());
    push_parse_named_open(out);
    let ghost a = out@;
    if bools.len() > 0 {
        let joined = join_strings(&bools, " ");
        push_str(out, "      if [[ \" ");
        push_str(out, joined.as_str());
        push_str(out, " \" =~ \" $param_name \" ]]; then\n");
        push_bool_branch(out);
    }
    let ghost b = out@;
    push_regular_branch(out);
    let ghost c = out@;
    if bools.len() > 0 {
        push_str(out, "      fi\n");
    }
    let ghost d = out@;
    push_parse_close(out);
    proof {
        let bn = bool_names(script.parameters@, script.parameters@.len() as int);
        assert(a =~= start + parse_open() + help_section(name@, *script) + parse_named_open());
        if bn.len() > 0 {
            assert(b =~= a + ("      if [[ \" "@ + join(bn, " "@) + " \" =~ \" $param_name \" ]]; then\n"@
                + bool_branch()));
            assert(d =~= c + "      fi\n"@);
        } else {
            assert(b =~= a);
            assert(d =~= c);
        }
        assert(out@ =~= start + parse_section(name@, *script));
    }
}

/// The positional assignment of the first `n` parameters.
pub open spec fn positional_lines(ps: Seq<Parameter>, n: int) -> Seq<char>
    decreases n,
{
    if n <= 0 {
        seq![]
    } else {
        let idx = decimal((n - 1) as nat);
        positional_lines(ps, n - 1) + "if (( "@ + idx + " < ${#POSITIONAL[@]} )); then\n"@ + "  "@
            + var_of(ps[n - 1].name@) + "=\"${POSITIONAL["@ + idx + "]}\"\n"@ + "fi\n"@
    }
}

/// The named assignment of the first `n` parameters.
pub open spec fn named_lines(ps: Seq<Parameter>, n: int) -> Seq<char>
    decreases n,
{
    if n <= 0 {
        seq![]
    } else {
        let p = ps[n - 1].name@;
        named_lines(ps, n - 1) + "if [[ -n \"${PARAMS["@ + p + "]:-}\" ]]; then\n"@ + "  "@ + var_of(p)
            + "=\"${PARAMS["@ + p + "]}\"\n"@ + "fi\n"@
    }
}

fn push_assignments(out: &mut Vec<char>, ps: &Vec<Parameter>)
    ensures
        final(out)@ == old(out)@ + positional_lines(ps@, ps@.len() as int) + named_lines(
            ps@,
            ps@.len() as int,
        ),
{
    let ghost start = out@;
    let mut i: usize = 0;
    while i < ps.len()
        invariant
            0 <= i <= ps@.len(),
            out@ == start + positional_lines(ps@, i as int),
        decreases ps@.len() - i,
    {
        let idx = usize_to_string(i);
        let var = sanitize_var_name(ps[i].name.as_str());
        let ghost before = out@;
        push_str(out, "if (( ");
        push_str(out, idx.as_str());
        push_str(out, " < ${#POSITIONAL[@]} )); then\n");
        push_str(out, "  ");
        push_str(out, var.as_str());
        push_str(out, "=\"${POSITIONAL[");
        push_str(out, idx.as_str());
        push_str(out, "]}\"\n");
        push_str(out, "fi\n");
        assert(out@ =~= start + positional_lines(ps@, i + 1));
        i = i + 1;
    }
    let ghost mid = out@;
    let mut j: usize = 0;
    while j < ps.len()
        invariant
            0 <= j <= ps@.len(),
            out@ == mid + named_lines(ps@, j as int),
        decreases ps@.len() - j,
    {
        let var = sanitize_var_name(ps[j].name.as_str());
        push_str(out, "if [[ -n \"${PARAMS[");
        push_str(out, ps[j].name.as_str());
        push_str(out, "]:-}\" ]]; then\n");
        push_str(out, "  ");
        push_str(out, var.as_str());
        push_str(out, "=\"${PARAMS[");
        push_str(out, ps[j].name.as_str());
        push_str(out, "]}\"\n");
        push_str(out, "fi\n");
        assert(out@ =~= mid + named_lines(ps@, j + 1));
        j = j + 1;
    }
}

/// The check that no more positional arguments than parameters are given.
pub open spec fn count_check(ps: Seq<Parameter>) -> Seq<char> {
    if ps.len() > 0 {
        "if [ ${#POSITIONAL[@]} -gt "@ + decimal(ps.len()) + " ]; then\n"@
            + "  echo -e \"\\033[1;31m 🦆 duck say ⮞ fuck ❌ Too many arguments\\033[0m\" >&2\n"@
            + "  exit 1\n"@ + "fi\n\n"@
    } else {
        seq![]
    }
}

fn push_count_check(out: &mut Vec<char>, ps: &Vec<Parameter>)
    ensures
        final(out)@ == old(out)@ + count_check(ps@),
{
    let ghost start = out@;
    if ps.len() > 0 {
        let n = usize_to_string(ps.len());
        push_str(out, "if [ ${#POSITIONAL[@]} -gt ");
        push_str(out, n.as_str());
        push_str(out, " ]; then\n");
        push_str(out, "  echo -e \"\\033[1;31m 🦆 duck say ⮞ fuck ❌ Too many arguments\\033[0m\" >&2\n");
        push_str(out, "  exit 1\n");
        push_str(out, "fi\n\n");
    }
    assert(out@ =~= start + count_check(ps@));
}

/// The type check of one parameter: integers, booleans and existing paths;
/// nothing for strings and untyped parameters, an empty check for other
/// types.
pub open spec fn type_check(script_name: Seq<char>, p: Parameter) -> Seq<char> {
    match p.param_type {
        Some(t) => if t@ != "string"@ {
            let var = var_of(p.name@);
            "if [ -n \"${"@ + var + "}\" ]; then\n"@ + (if t@ == "int"@ {
                "  if ! [[ \"${"@ + var + "}\" =~ ^[0-9]+$ ]]; then\n"@
                    + "    echo -e \"\\033[1;31m 🦆 duck say ⮞ fuck ❌ "@ + script_name + " --"@ + p.name@
                    + " must be integer\\033[0m\" >&2\n"@ + "    exit 1\n"@ + "  fi\n"@
            } else if t@ == "bool"@ {
                "  if ! [[ \"${"@ + var + "}\" =~ ^(true|false)$ ]]; then\n"@
                    + "    echo -e \"\\033[1;31m 🦆 duck say ⮞ fuck ❌ "@ + script_name + " --"@ + p.name@
                    + " must be true or false\\033[0m\" >&2\n"@ + "    exit 1\n"@ + "  fi\n"@
            } else if t@ == "path"@ {
                "  if ! [ -e \"${"@ + var + "}\" ]; then\n"@
                    + "    echo -e \"\\033[1;31m 🦆 duck say ⮞ fuck ❌ "@ + script_name + " Path not found: ${"@
                    + var + "}\\033[0m\" >&2\n"@ + "    exit 1\n"@ + "  fi\n"@
            } else {
                seq![]
            }) + "fi\n"@
        } else {
            seq![]
        },
        None => seq![],
    }
}

/// The type checks of the first `n` parameters.
pub open spec fn type_checks(script_name: Seq<char>, ps: Seq<Parameter>, n: int) -> Seq<char>
    decreases n,
{
    if n <= 0 {
        seq![]
    } else {
        type_checks(script_name, ps, n - 1) + type_check(script_name, ps[n - 1])
    }
}

#[verifier::rlimit(40)]
fn push_type_check(out: &mut Vec<char>, script_name: &str, p: &Parameter)
    ensures
        final(out)@ == old(out)@ + type_check(script_name@, *p),
{
    let ghost start = out@;
    match &p.param_type {
        Some(t) => {
            if !str_eq(t.as_str(), "string") {
                let var = sanitize_var_name(p.name.as_str());
                push_str(out, "if [ -n \"${");
                push_str(out, var.as_str());
                push_str(out, "}\" ]; then\n");
                let ghost a = out@;
                if str_eq(t.as_str(), "int") {
                    push_str(out, "  if ! [[ \"${");
                    push_str(out, var.as_str());
                    push_str(out, "}\" =~ ^[0-9]+$ ]]; then\n");
                    push_str(out, "    echo -e \"\\033[1;31m 🦆 duck say ⮞ fuck ❌ ");
                    push_str(out, script_name);
                    push_str(out, " --");
                    push_str(out, p.name.as_str());
                    push_str(out, " must be integer\\033[0m\" >&2\n");
                    push_str(out, "    exit 1\n");
                    push_str(out, "  fi\n");
                } else if str_eq(t.as_str(), "bool") {
                    push_str(out, "  if ! [[ \"${");
                    push_str(out, var.as_str());
                    push_str(out, "}\" =~ ^(true|false)$ ]]; then\n");
                    push_str(out, "    echo -e \"\\033[1;31m 🦆 duck say ⮞ fuck ❌ ");
                    push_str(out, script_name);
                    push_str(out, " --");
                    push_str(out, p.name.as_str());
                    push_str(out, " must be true or false\\033[0m\" >&2\n");
                    push_str(out, "    exit 1\n");
                    push_str(out, "  fi\n");
                } else if str_eq(t.as_str(), "path") {
                    push_str(out, "  if ! [ -e \"${");
                    push_str(out, var.as_str());
                    push_str(out, "}\" ]; then\n");
                    push_str(out, "    echo -e \"\\033[1;31m 🦆 duck say ⮞ fuck ❌ ");
                    push_str(out, script_name);
                    push_str(out, " Path not found: ${");
                    push_str(out, var.as_str());
                    push_str(out, "}\\033[0m\" >&2\n");
                    push_str(out, "    exit 1\n");
                    push_str(out, "  fi\n");
                }
                let ghost b = out@;
                push_str(out, "fi\n");
                proof {
                    let var = var_of(p.name@);
                    if t@ == "int"@ {
                        assert(b =~= a + ("  if ! [[ \"${"@ + var + "}\" =~ ^[0-9]+$ ]]; then\n"@
                            + "    echo -e \"\\033[1;31m 🦆 duck say ⮞ fuck ❌ "@ + script_name@ + " --"@
                            + p.name@ + " must be integer\\033[0m\" >&2\n"@ + "    exit 1\n"@ + "  fi\n"@));
                    } else if t@ == "bool"@ {
                        assert(b =~= a + ("  if ! [[ \"${"@ + var + "}\" =~ ^(true|false)$ ]]; then\n"@
                            + "    echo -e \"\\033[1;31m 🦆 duck say ⮞ fuck ❌ "@ + script_name@ + " --"@
                            + p.name@ + " must be true or false\\033[0m\" >&2\n"@ + "    exit 1\n"@
                            + "  fi\n"@));
                    } else if t@ == "path"@ {
                        assert(b =~= a + ("  if ! [ -e \"${"@ + var + "}\" ]; then\n"@
                            + "    echo -e \"\\033[1;31m 🦆 duck say ⮞ fuck ❌ "@ + script_name@
                            + " Path not found: ${"@ + var + "}\\033[0m\" >&2\n"@ + "    exit 1\n"@
                            + "  fi\n"@));
                    } else {
                        assert(b =~= a);
                    }
                    assert(out@ =~= start + type_check(script_name@, *p));
                }
            } else {
                assert(out@ =~= start + type_check(script_name@, *p));
            }
        },
        None => {
            assert(out@ =~= start + type_check(script_name@, *p));
        },
    }
}

/// An allowed value quoted for the shell.
pub open spec fn quoted(v: Seq<char>) -> Seq<char> {
    "'"@ + replace_char(v, '\'', "'\\''"@) + "'"@
}

/// The value check of one parameter with allowed values and a string type.
pub open spec fn value_check(script_name: Seq<char>, p: Parameter) -> Seq<char> {
    match p.values {
        Some(vs) => if string_typed(p.param_type) {
            let var = var_of(p.name@);
            "if [ -n \"${"@ + var + "}\" ]; then\n"@ + "  allowed_values=("@ + join(
                views(vs@).map_values(|v: Seq<char>| quoted(v)),
                " "@,
            ) + ")\n"@ + values_loop() + "    if [[ \"${"@ + var + "}\" == \"$allowed\" ]]; then\n"@
                + values_found() + "    echo -e \"\\033[1;31m 🦆 duck say ⮞ fuck ❌ "@ + script_name + " --"@
                + p.name@ + " must be one of: "@ + join(views(vs@), ", "@) + "\\033[0m\" >&2\n"@
                + "    exit 1\n"@ + "  fi\n"@ + "fi\n"@
        } else {
            seq![]
        },
        None => seq![],
    }
}

/// The value checks of the first `n` parameters.
pub open spec fn value_checks(script_name: Seq<char>, ps: Seq<Parameter>, n: int) -> Seq<char>
    decreases n,
{
    if n <= 0 {
        seq![]
    } else {
        value_checks(script_name, ps, n - 1) + value_check(script_name, ps[n - 1])
    }
}

fn quoted_values(vs: &Vec<String>) -> (r: Vec<String>)
    ensures
        views(r@) == views(vs@).map_values(|v: Seq<char>| quoted(v)),
{
    let mut out: Vec<String> = Vec::new();
    let mut i: usize = 0;
    while i < vs.len()
        invariant
            0 <= i <= vs@.len(),
            views(out@) == views(vs@).take(i as int).map_values(|v: Seq<char>| quoted(v)),
        decreases vs@.len() - i,
    {
        let esc = replace_char_str(vs[i].as_str(), '\'', "'\\''");
        let mut q: Vec<char> = Vec::new();
        push_str(&mut q, "'");
        push_str(&mut q, esc.as_str());
        push_str(&mut q, "'");
        let qs = string_from_chars(q.as_slice());
        let ghost before = views(out@);
        out.push(qs);
        assert(views(out@) =~= before.push(quoted(vs@[i as int]@)));
        assert(views(vs@).take(i + 1).map_values(|v: Seq<char>| quoted(v)) =~= views(vs@).take(
            i as int,
        ).map_values(|v: Seq<char>| quoted(v)).push(quoted(vs@[i as int]@)));
        i = i + 1;
    }
    assert(views(vs@).take(vs@.len() as int) =~= views(vs@));
    out
}

#[verifier::rlimit(40)]
fn push_value_check(out: &mut Vec<char>, script_name: &str, p: &Parameter)
    ensures
        final(out)@ == old(out)@ + value_check(script_name@, *p),
{
    let ghost start = out@;
    match &p.values {
        Some(vs) => {
            let st = match &p.param_type {
                Some(t) => str_eq(t.as_str(), "string"),
                None => true,
            };
            if st {
                let var = sanitize_var_name(p.name.as_str());
                let qv = quoted_values(vs);
                let allowed = join_strings(&qv, " ");
                let listed = join_strings(vs, ", ");
                push_str(out, "if [ -n \"${");
                push_str(out, var.as_str());
                push_str(out, "}\" ]; then\n");
                push_str(out, "  allowed_values=(");
                push_str(out, allowed.as_str());
                push_str(out, ")\n");
                push_values_loop(out);
                push_str(out, "    if [[ \"${");
                push_str(out, var.as_str());
                push_str(out, "}\" == \"$allowed\" ]]; then\n");
                push_values_found(out);
                push_str(out, "    echo -e \"\\033[1;31m 🦆 duck say ⮞ fuck ❌ ");
                push_str(out, script_name);
                push_str(out, " --");
                push_str(out, p.name.as_str());
                push_str(out, " must be one of: ");
                push_str(out, listed.as_str());
                push_str(out, "\\033[0m\" >&2\n");
                push_str(out, "    exit 1\n");
                push_str(out, "  fi\n");
                push_str(out, "fi\n");
            }
        },
        None => {},
    }
    assert(out@ =~= start + value_check(script_name@, *p));
}

/// The default assignment of one parameter with a default.
pub open spec fn default_line(p: Parameter) -> Seq<char> {
    match p.default {
        Some(d) => {
            let var = var_of(p.name@);
            if type_is(p.param_type, "bool"@) {
                "if [[ -z \"${"@ + var + "}\" ]]; then "@ + var + "=\""@ + bool_text(
                    match d.flag {
                        Some(b) => b,
                        None => false,
                    },
                ) + "\"; fi\n"@
            } else {
                "if [[ -z \"${"@ + var + "}\" ]]; then "@ + var + "="@ + default_text(p.param_type, d)
                    + "; fi\n"@
            }
        },
        None => seq![],
    }
}

/// The check that a required parameter is given.
pub open spec fn required_check(script_name: Seq<char>, p: Parameter) -> Seq<char> {
    if !match p.optional {
        Some(b) => b,
        None => false,
    } && p.default is None {
        "if [[ -z \"${"@ + var_of(p.name@) + "}\" ]]; then\n"@
            + "  echo -e \"\\033[1;31m 🦆 duck say ⮞ fuck ❌ "@ + script_name
            + " Missing required parameter: "@ + p.name@ + "\\033[0m\" >&2\n"@ + "  exit 1\n"@ + "fi\n"@
    } else {
        seq![]
    }
}

/// The line that passes one parameter to a binary.
pub open spec fn binary_arg_line(p: Parameter) -> Seq<char> {
    let var = var_of(p.name@);
    "if [[ -n \"${"@ + var + "}\" ]]; then args+=(--"@ + p.name@ + " \"${"@ + var + "}\"); fi\n"@
}

/// The default assignments of the first `n` parameters.
pub open spec fn default_lines(ps: Seq<Parameter>, n: int) -> Seq<char>
    decreases n,
{
    if n <= 0 {
        seq![]
    } else {
        default_lines(ps, n - 1) + default_line(ps[n - 1])
    }
}

/// The required checks of the first `n` parameters.
pub open spec fn required_checks(script_name: Seq<char>, ps: Seq<Parameter>, n: int) -> Seq<char>
    decreases n,
{
    if n <= 0 {
        seq![]
    } else {
        required_checks(script_name, ps, n - 1) + required_check(script_name, ps[n - 1])
    }
}

/// The argument lines of the first `n` parameters for a binary.
pub open spec fn binary_arg_lines(ps: Seq<Parameter>, n: int) -> Seq<char>
    decreases n,
{
    if n <= 0 {
        seq![]
    } else {
        binary_arg_lines(ps, n - 1) + binary_arg_line(ps[n - 1])
    }
}

/// How the script runs: the binary with the given parameters, or the
/// inline code.
pub open spec fn exec_section(script: Script) -> Seq<char> {
    match script.binary {
        Some(b) => "args=()\n"@ + binary_arg_lines(script.parameters@, script.parameters@.len() as int)
            + "exec "@ + b@ + " \"${args[@]}\"\n"@,
        None => match script.code {
            Some(c) => c@ + "\n"@,
            None => seq![],
        },
    }
}

fn push_default_line(out: &mut Vec<char>, p: &Parameter)
    ensures
        final(out)@ == old(out)@ + default_line(*p),
{
    let ghost start = out@;
    match &p.default {
        Some(d) => {
            let var = sanitize_var_name(p.name.as_str());
            push_str(out, "if [[ -z \"${");
            push_str(out, var.as_str());
            push_str(out, "}\" ]]; then ");
            push_str(out, var.as_str());
            if is_type(&p.param_type, "bool") {
                let b = bool_str(
                    match d.flag {
                        Some(b) => b,
                        None => false,
                    },
                );
                push_str(out, "=\"");
                push_str(out, b.as_str());
                push_str(out, "\"; fi\n");
            } else {
                let t = default_value_text(&p.param_type, d);
                push_str(out, "=");
                push_str(out, t.as_str());
                push_str(out, "; fi\n");
            }
        },
        None => {},
    }
    assert(out@ =~= start + default_line(*p));
}

fn push_required_check(out: &mut Vec<char>, script_name: &str, p: &Parameter)
    ensures
        final(out)@ == old(out)@ + required_check(script_name@, *p),
{
    let ghost start = out@;
    let optional = match p.optional {
        Some(b) => b,
        None => false,
    };
    if !optional && p.default.is_none() {
        let var = sanitize_var_name(p.name.as_str());
        push_str(out, "if [[ -z \"${");
        push_str(out, var.as_str());
        push_str(out, "}\" ]]; then\n");
        push_str(out, "  echo -e \"\\033[1;31m 🦆 duck say ⮞ fuck ❌ ");
        push_str(out, script_name);
        push_str(out, " Missing required parameter: ");
        push_str(out, p.name.as_str());
        push_str(out, "\\033[0m\" >&2\n");
        push_str(out, "  exit 1\n");
        push_str(out, "fi\n");
    }
    assert(out@ =~= start + required_check(script_name@, *p));
}

fn push_exec_section(out: &mut Vec<char>, script: &Script)
    ensures
        final(out)@ == old(out)@ + exec_section(*script),
{
    let ghost start = out@;
    match &script.binary {
        Some(b) => {
            push_str(out, "args=()\n");
            let ps = &script.parameters;
            let ghost base = out@;
            let mut i: usize = 0;
            while i < ps.len()
                invariant
                    0 <= i <= ps@.len(),
                    out@ == base + binary_arg_lines(ps@, i as int),
                decreases ps@.len() - i,
            {
                let var = sanitize_var_name(ps[i].name.as_str());
                push_str(out, "if [[ -n \"${");
                push_str(out, var.as_str());
                push_str(out, "}\" ]]; then args+=(--");
                push_str(out, ps[i].name.as_str());
                push_str(out, " \"${");
                push_str(out, var.as_str());
                push_str(out, "}\"); fi\n");
                assert(out@ =~= base + binary_arg_lines(ps@, i + 1));
                i = i + 1;
            }
            push_str(out, "exec ");
            push_str(out, b.as_str());
            push_str(out, " \"${args[@]}\"\n");
        },
        None => match &script.code {
            Some(c) => {
                push_str(out, c.as_str());
                push_str(out, "\n");
            },
            None => {},
        },
    }
    assert(out@ =~= start + exec_section(*script));
}

fn push_param_checks(out: &mut Vec<char>, script_name: &str, ps: &Vec<Parameter>)
    ensures
        final(out)@ == old(out)@ + type_checks(script_name@, ps@, ps@.len() as int) + value_checks(
            script_name@,
            ps@,
            ps@.len() as int,
        ) + default_lines(ps@, ps@.len() as int) + required_checks(
            script_name@,
            ps@,
            ps@.len() as int,
        ),
{
    let ghost start = out@;
    let mut i: usize = 0;
    while i < ps.len()
        invariant
            0 <= i <= ps@.len(),
            out@ == start + type_checks(script_name@, ps@, i as int),
        decreases ps@.len() - i,
    {
        push_type_check(out, script_name, &ps[i]);
        i = i + 1;
    }
    let ghost s1 = out@;
    let mut i: usize = 0;
    while i < ps.len()
        invariant
            0 <= i <= ps@.len(),
            out@ == s1 + value_checks(script_name@, ps@, i as int),
        decreases ps@.len() - i,
    {
        push_value_check(out, script_name, &ps[i]);
        i = i + 1;
    }
    let ghost s2 = out@;
    let mut i: usize = 0;
    while i < ps.len()
        invariant
            0 <= i <= ps@.len(),
            out@ == s2 + default_lines(ps@, i as int),
        decreases ps@.len() - i,
    {
        push_default_line(out, &ps[i]);
        i = i + 1;
    }
    let ghost s3 = out@;
    let mut i: usize = 0;
    while i < ps.len()
        invariant
            0 <= i <= ps@.len(),
            out@ == s3 + required_checks(script_name@, ps@, i as int),
        decreases ps@.len() - i,
    {
        push_required_check(out, script_name, &ps[i]);
        i = i + 1;
    }
    assert(out@ =~= start + type_checks(script_name@, ps@, ps@.len() as int) + value_checks(
        script_name@,
        ps@,
        ps@.len() as int,
    ) + default_lines(ps@, ps@.len() as int) + required_checks(script_name@, ps@, ps@.len() as int));
}

/// The logging setup of a generated script.
pub open spec fn logging_section(name: Seq<char>, script: Script) -> Seq<char> {
    "export DT_LOG_PATH=\"$HOME/.config/duckTrace/\"\n"@ + "mkdir -p \"$DT_LOG_PATH\"\n"@
        + "export DT_LOG_FILE=\""@ + name + ".log\"\n"@ + "touch \"$DT_LOG_PATH/$DT_LOG_FILE\"\n"@
        + "export DT_LOG_LEVEL=\""@ + script.log_level@ + "\"\n"@ + "\n"@
}

/// The whole executable of a configured script: shebang, environment
/// defaults, logging, flag handling, argument parsing with help, parameter
/// assignment and checks, defaults, and execution.
pub open spec fn script_content(name: Seq<char>, script: Script) -> Seq<char> {
    let ps = script.parameters@;
    let n = ps.len() as int;
    "#!/usr/bin/env bash\n"@ + "set -o noglob\n\n"@ + env_exports(script) + "\n\n"@ + logging_section(
        name,
        script,
    ) + flags_block() + parse_section(name, script) + positional_lines(ps, n) + named_lines(ps, n) + "\n"@
        + count_check(ps) + type_checks(name, ps, n) + value_checks(name, ps, n) + default_lines(ps, n)
        + required_checks(name, ps, n) + exec_section(script)
}

/// Generates the executable of a configured script (see
/// `script_content`).
pub fn generate_script_content(name: &str, script: &Script) -> (r: String)
    ensures
        r@ == script_content(name@, *script),
{
    let mut out: Vec<char> = Vec::new();
    push_str(&mut out, "#!/usr/bin/env bash\n");
    push_str(&mut out, "set -o noglob\n\n");
    let exports = generate_env_exports(script);
    push_str(&mut out, exports.as_str());
    push_str(&mut out, "\n\n");
    let ghost a = out@;
    push_str(&mut out, "export DT_LOG_PATH=\"$HOME/.config/duckTrace/\"\n");
    push_str(&mut out, "mkdir -p \"$DT_LOG_PATH\"\n");
    push_str(&mut out, "export DT_LOG_FILE=\"");
    push_str(&mut out, name);
    push_str(&mut out, ".log\"\n");
    push_str(&mut out, "touch \"$DT_LOG_PATH/$DT_LOG_FILE\"\n");
    push_str(&mut out, "export DT_LOG_LEVEL=\"");
    push_str(&mut out, script.log_level.as_str());
    push_str(&mut out, "\"\n");
    push_str(&mut out, "\n");
    assert(out@ =~= a + logging_section(name@, *script));
    let ghost b = out@;
    push_flags_block(&mut out);
    push_parse_section(&mut out, name, script);
    push_assignments(&mut out, &script.parameters);
    push_str(&mut out, "\n");
    push_count_check(&mut out, &script.parameters);
    let ghost c = out@;
    push_param_checks(&mut out, name, &script.parameters);
    let ghost d = out@;
    push_exec_section(&mut out, script);
    proof {
        let ps = script.parameters@;
        let n = ps.len() as int;
        assert(a =~= "#!/usr/bin/env bash\n"@ + "set -o noglob\n\n"@ + env_exports(*script) + "\n\n"@);
        assert(c =~= b + flags_block() + parse_section(name@, *script) + positional_lines(ps, n)
            + named_lines(ps, n) + "\n"@ + count_check(ps));
        assert(out@ =~= script_content(name@, *script));
    }
    string_from_chars(out.as_slice())
}

/// The start of the `yo` wrapper, up to the command table header.
pub open spec fn wrapper_head() -> Seq<char> {
    "#!/usr/bin/env bash\n"@ + "set -o noglob\n\n"@ + "script_dir=\"$(cd \"$(dirname \"${BASH_SOURCE[0]}\")\" && pwd)\"\n"@ + "show_help() {\n"@ + "  cat <<'EOF'\n"@ + "### ──────⋆⋅☆☆☆⋅⋆────── ##\n"@ + "**Usage:** `yo <command> [arguments]`\n"@ + "### ──────⋆⋅☆☆☆⋅⋆────── ##\n"@ + "### 🦆✨ Available Commands\n"@ + "Parameters inside brackets are [optional]\n"@ + "| Command Syntax               | Aliases    | Description |\n"@ + "|------------------------------|------------|-------------|\n"@
}

fn push_wrapper_head(out: &mut Vec<char>)
    ensures
        final(out)@ == old(out)@ + wrapper_head(),
{
    let ghost start = out@;
    push_str(out, "#!/usr/bin/env bash\n");
    push_str(out, "set -o noglob\n\n");
    push_str(out, "script_dir=\"$(cd \"$(dirname \"${BASH_SOURCE[0]}\")\" && pwd)\"\n");
    push_str(out, "show_help() {\n");
    push_str(out, "  cat <<'EOF'\n");
    push_str(out, "### ──────⋆⋅☆☆☆⋅⋆────── ##\n");
    push_str(out, "**Usage:** `yo <command> [arguments]`\n");
    push_str(out, "### ──────⋆⋅☆☆☆⋅⋆────── ##\n");
    push_str(out, "### 🦆✨ Available Commands\n");
    push_str(out, "Parameters inside brackets are [optional]\n");
    push_str(out, "| Command Syntax               | Aliases    | Description |\n");
    push_str(out, "|------------------------------|------------|-------------|\n");
    assert(out@ =~= start + wrapper_head());
}

/// The end of the `yo` wrapper: the dispatch to `yo-<command>`.
pub open spec fn wrapper_tail() -> Seq<char> {
    "EOF\n"@ + "  exit 0\n"@ + "}\n\n"@ + "if [[ $# -eq 0 ]]; then\n"@ + "  show_help\n"@ + "  exit 1\n"@ + "fi\n"@ + "case \"$1\" in\n"@ + "  -h|--help) show_help; exit 0 ;;\n"@ + "  *) command=\"$1\"; shift ;;\n"@ + "esac\n"@ + "script_path=\"$script_dir/yo-$command\"\n"@ + "if [[ -x \"$script_path\" ]]; then\n"@ + "  exec \"$script_path\" \"$@\"\n"@ + "else\n"@ + "  echo -e \"\\033[1;31m 🦆 duck say ⮞ fuck ❌ $1\\033[0m Error: Unknown command '$command'\" >&2\n"@ + "  show_help\n"@ + "  exit 1\n"@ + "fi\n"@
}

fn push_wrapper_tail(out: &mut Vec<char>)
    ensures
        final(out)@ == old(out)@ + wrapper_tail(),
{
    let ghost start = out@;
    push_str(out, "EOF\n");
    push_str(out, "  exit 0\n");
    push_str(out, "}\n\n");
    push_str(out, "if [[ $# -eq 0 ]]; then\n");
    push_str(out, "  show_help\n");
    push_str(out, "  exit 1\n");
    push_str(out, "fi\n");
    push_str(out, "case \"$1\" in\n");
    push_str(out, "  -h|--help) show_help; exit 0 ;;\n");
    push_str(out, "  *) command=\"$1\"; shift ;;\n");
    push_str(out, "esac\n");
    push_str(out, "script_path=\"$script_dir/yo-$command\"\n");
    push_str(out, "if [[ -x \"$script_path\" ]]; then\n");
    push_str(out, "  exec \"$script_path\" \"$@\"\n");
    push_str(out, "else\n");
    push_str(out, "  echo -e \"\\033[1;31m 🦆 duck say ⮞ fuck ❌ $1\\033[0m Error: Unknown command '$command'\" >&2\n");
    push_str(out, "  show_help\n");
    push_str(out, "  exit 1\n");
    push_str(out, "fi\n");
    assert(out@ =~= start + wrapper_tail());
}

/// The parameter hint of the command table: optional parameters in
/// brackets.
pub open spec fn param_hint(p: Parameter) -> Seq<char> {
    if match p.optional {
        Some(b) => b,
        None => false,
    } || p.default is Some {
        "[--"@ + p.name@ + "]"@
    } else {
        "--"@ + p.name@
    }
}

/// The row of a script in the command table.
pub open spec fn wrapper_row(name: Seq<char>, script: Script) -> Seq<char> {
    "| "@ + "`yo "@ + name + " "@ + join(
        script.parameters@.map_values(|p: Parameter| param_hint(p)),
        " "@,
    ) + "`"@ + " | "@ + join(views(script.aliases@), ", "@) + " | "@ + script.description@ + " |\n"@
}

/// The rows of the first `n` scripts that are visible in the readme.
pub open spec fn wrapper_rows(scripts: Seq<NamedScript>, n: int) -> Seq<char>
    decreases n,
{
    if n <= 0 {
        seq![]
    } else {
        wrapper_rows(scripts, n - 1) + if scripts[n - 1].script.visible_in_readme {
            wrapper_row(scripts[n - 1].name@, scripts[n - 1].script)
        } else {
            seq![]
        }
    }
}

/// The `yo` wrapper: a help table of the visible scripts and the dispatch
/// to `yo-<command>`.
pub open spec fn yo_wrapper(scripts: Seq<NamedScript>) -> Seq<char> {
    wrapper_head() + wrapper_rows(scripts, scripts.len() as int) + wrapper_tail()
}

fn param_hints(ps: &Vec<Parameter>) -> (r: Vec<String>)
    ensures
        views(r@) == ps@.map_values(|p: Parameter| param_hint(p)),
{
    let mut out: Vec<String> = Vec::new();
    let mut i: usize = 0;
    while i < ps.len()
        invariant
            0 <= i <= ps@.len(),
            views(out@) == ps@.take(i as int).map_values(|p: Parameter| param_hint(p)),
        decreases ps@.len() - i,
    {
        let optional = match ps[i].optional {
            Some(b) => b,
            None => false,
        };
        let mut h: Vec<char> = Vec::new();
        if optional || ps[i].default.is_some() {
            push_str(&mut h, "[--");
            push_str(&mut h, ps[i].name.as_str());
            push_str(&mut h, "]");
        } else {
            push_str(&mut h, "--");
            push_str(&mut h, ps[i].name.as_str());
        }
        let hs = string_from_chars(h.as_slice());
        let ghost before = views(out@);
        out.push(hs);
        assert(views(out@) =~= before.push(param_hint(ps@[i as int])));
        assert(ps@.take(i + 1).map_values(|p: Parameter| param_hint(p)) =~= ps@.take(i as int).map_values(
            |p: Parameter| param_hint(p),
        ).push(param_hint(ps@[i as int])));
        i = i + 1;
    }
    assert(ps@.take(ps@.len() as int) =~= ps@);
    out
}

fn push_wrapper_row(out: &mut Vec<char>, name: &str, script: &Script)
    ensures
        final(out)@ == old(out)@ + wrapper_row(name@, *script),
{
    let ghost start = out@;
    let hints = param_hints(&script.parameters);
    let joined = join_strings(&hints, " ");
    let aliases = join_strings(&script.aliases, ", ");
    push_str(out, "| ");
    push_str(out, "`yo ");
    push_str(out, name);
    push_str(out, " ");
    push_str(out, joined.as_str());
    push_str(out, "`");
    push_str(out, " | ");
    push_str(out, aliases.as_str());
    push_str(out, " | ");
    push_str(out, script.description.as_str());
    push_str(out, " |\n");
    assert(out@ =~= start + wrapper_row(name@, *script));
}

/// Generates the `yo` wrapper script (see `yo_wrapper`); the directory of
/// the scripts is found at run time, so `bin_dir` is not written into it.
pub fn generate_yo_wrapper(bin_dir: &str, scripts: &Vec<NamedScript>) -> (r: String)
    ensures
        r@ == yo_wrapper(scripts@),
{
    let mut out: Vec<char> = Vec::new();
    push_wrapper_head(&mut out);
    let ghost base = out@;
    let mut i: usize = 0;
    while i < scripts.len()
        invariant
            0 <= i <= scripts@.len(),
            out@ == base + wrapper_rows(scripts@, i as int),
        decreases scripts@.len() - i,
    {
        let ghost before = out@;
        if scripts[i].script.visible_in_readme {
            push_wrapper_row(&mut out, scripts[i].name.as_str(), &scripts[i].script);
        }
        assert(out@ =~= base + wrapper_rows(scripts@, i + 1));
        i = i + 1;
    }
    push_wrapper_tail(&mut out);
    string_from_chars(out.as_slice())
}

} // verus!
