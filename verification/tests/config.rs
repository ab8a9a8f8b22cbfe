use yo_rs::compile::{
    build_substitutions, compile_counts, count_generated_patterns, phrases_fit_check, count_understood_phrases, generate_fuzzy_index,
    generate_intent_data, make_entity_resolver, signature_of,
};
use yo_rs::config::{
    collect_scripts, convert_script_config, escape_md, extract_param_names, make_timer_name, merge_configs,
    sanitize_bash_var, Config, ListSpec, NamedListSpec, NamedScript, ScriptConfig, ValueMapping, VoiceConfig,
};
use yo_rs::template::{expand_to_regex, matcher_files, scripts_compile_check, sentence_finishes, voice_compiles_check};

fn s(x: &str) -> String {
    x.to_string()
}

fn script(name: &str, voice: Option<VoiceConfig>) -> ScriptConfig {
    ScriptConfig {
        name: s(name),
        description: s("does things"),
        category: None,
        parameters: None,
        code: Some(s("echo hi")),
        binary: None,
        aliases: None,
        log_level: None,
        auto_start: None,
        run_every: None,
        run_at: None,
        voice,
        visible_in_readme: None,
        help_footer: None,
    }
}

fn voice(sentences: &[&str], lists: Vec<NamedListSpec>) -> VoiceConfig {
    VoiceConfig {
        enabled: None,
        priority: None,
        sentences: sentences.iter().map(|x| s(x)).collect(),
        lists: if lists.is_empty() { None } else { Some(lists) },
        fuzzy: None,
    }
}

fn values_list(name: &str, values: &[(&str, &str)]) -> NamedListSpec {
    NamedListSpec {
        name: s(name),
        list: ListSpec {
            wildcard: None,
            values: Some(values.iter().map(|(i, o)| ValueMapping { input: s(i), out: s(o) }).collect()),
            range: None,
        },
    }
}

fn config(words: Option<&[&str]>, phrases: Option<&[&str]>, scripts: Vec<ScriptConfig>) -> Config {
    Config {
        split_words: words.map(|w| w.iter().map(|x| s(x)).collect()),
        sorry_phrases: phrases.map(|w| w.iter().map(|x| s(x)).collect()),
        scripts,
    }
}

fn named(c: ScriptConfig) -> NamedScript {
    let (name, script) = convert_script_config(c);
    NamedScript { name, script }
}

#[test]
fn merge_keeps_first_words_and_all_scripts() {
    let c1 = config(Some(&["and", "then"]), Some(&["oops"]), vec![script("a", None), script("b", None)]);
    let c2 = config(Some(&["then", "also"]), None, vec![script("c", None)]);
    let merged = merge_configs(vec![c1, c2]).ok().unwrap();
    assert_eq!(merged.split_words, Some(vec![s("and"), s("then"), s("also")]));
    assert_eq!(merged.sorry_phrases, Some(vec![s("oops")]));
    let names: Vec<&str> = merged.scripts.iter().map(|x| x.name.as_str()).collect();
    assert_eq!(names, vec!["a", "b", "c"]);
}

#[test]
fn merge_refuses_duplicate_script() {
    let c1 = config(None, None, vec![script("a", None)]);
    let c2 = config(None, None, vec![script("b", None), script("a", None)]);
    let d = merge_configs(vec![c1, c2]).err().unwrap();
    assert_eq!(d.name, "a");
    assert_eq!(d.source, 1);
}

#[test]
fn merge_of_nothing_has_no_words() {
    let merged = merge_configs(vec![config(Some(&[]), None, vec![])]).ok().unwrap();
    assert!(merged.split_words.is_none());
    assert!(merged.sorry_phrases.is_none());
    assert!(merged.scripts.is_empty());
}

#[test]
fn collect_fills_defaults_and_refuses_duplicates() {
    let ok = collect_scripts(vec![config(None, None, vec![script("a", None)]), config(None, None, vec![script("b", None)])])
        .ok()
        .unwrap();
    assert_eq!(ok.len(), 2);
    assert_eq!(ok[0].name, "a");
    assert_eq!(ok[0].script.log_level, "INFO");
    assert!(ok[0].script.visible_in_readme);
    assert!(!ok[0].script.auto_start);
    assert!(ok[1].script.aliases.is_empty());
    let e = collect_scripts(vec![config(None, None, vec![script("a", None), script("a", None)])]).err().unwrap();
    assert_eq!(e, "a");
}

#[test]
fn text_rules() {
    assert_eq!(escape_md("a_b*c[d]`e\\"), "a\\_b\\*c\\[d\\]\\`e\\\\");
    assert_eq!(sanitize_bash_var("my-var-name"), "my_var_name");
    assert_eq!(extract_param_names("set {a} and {b} then {c"), vec![s("a"), s("b")]);
    assert_eq!(make_timer_name("timer", "10:30"), "yo-timer-at-10-30");
}

#[test]
fn intent_data_and_index() {
    let v = voice(&["turn (on|off) the {device}", "[please] lights"], vec![values_list("device", &[("lamp", "light.lamp"), ("[big|small] fan", "fan")])]);
    let scripts = vec![named(script("lights", Some(v))), named(script("quiet", None))];
    let data = generate_intent_data(&scripts);
    assert_eq!(data.len(), 1);
    assert_eq!(data[0].name, "lights");
    assert_eq!(data[0].sentences, vec![s("lights"), s("please lights"), s("turn off the {device}"), s("turn on the {device}")]);
    let subs: Vec<(String, String)> = data[0].substitutions.iter().map(|x| (x.pattern.clone(), x.value.clone())).collect();
    assert_eq!(subs, vec![(s("(lamp)"), s("light.lamp")), (s("big fan"), s("fan")), (s("small fan"), s("fan"))]);
    let index = generate_fuzzy_index(&scripts);
    assert_eq!(index.len(), 4);
    assert_eq!(index[0].script, "lights");
    assert_eq!(index[0].sentence, "turn off the {device}");
    assert_eq!(index[0].signature, "off|the|turn|{device}");
    assert_eq!(signature_of("Play The Music"), "music|play|the");
}

#[test]
fn substitutions_and_counts() {
    let v = voice(&["turn (on|off) the {device}"], vec![values_list("device", &[("lamp", "light.lamp"), ("[big|small] fan", "fan")])]);
    assert_eq!(build_substitutions(&v), vec![(s("lamp"), s("light.lamp")), (s("big fan"), s("fan")), (s("small fan"), s("fan"))]);
    let n = named(script("lights", Some(v)));
    assert_eq!(count_generated_patterns(&n.script), 2);
    assert_eq!(count_understood_phrases(&n.script), 4);
    let quiet = named(script("quiet", None));
    assert_eq!(count_generated_patterns(&quiet.script), 0);
    assert!(phrases_fit_check(&n.script));
    let v2 = voice(&["dim the {device} [please]"], vec![values_list("device", &[("lamp", "light.lamp")])]);
    let dim = named(script("dim", Some(v2)));
    assert_eq!(compile_counts(&vec![n, quiet, dim]), Some((4, 6)));
}

#[test]
fn entity_resolver_lists_values() {
    let lists = vec![values_list("device", &[("lamp", "light.lamp")])];
    let code = make_entity_resolver(Some(&lists), "device");
    assert_eq!(code, "    \"lamp\") echo \"light.lamp\";;\n");
    assert_eq!(make_entity_resolver(None, "device"), make_entity_resolver(Some(&vec![]), "device"));
}

#[test]
fn shell_regexes() {
    let lists = vec![NamedListSpec {
        name: s("what"),
        list: ListSpec { wildcard: Some(true), values: None, range: None },
    }];
    assert_eq!(expand_to_regex("say {what}", Some(&lists)), "^say (.*)$");
    assert_eq!(expand_to_regex("play {song}", None), "^play \\b([^ ]+)\\b$");
    assert!(sentence_finishes("a {b}"));
    assert!(!sentence_finishes("a {b"));
}

#[test]
fn matcher_files_for_voice_scripts() {
    let v = voice(&["hello {name}"], vec![]);
    assert!(voice_compiles_check(&v));
    let scripts = vec![named(script("greet", Some(v))), named(script("quiet", None))];
    assert!(scripts_compile_check(&scripts));
    let files = matcher_files(&scripts);
    assert_eq!(files.len(), 1);
    assert_eq!(files[0].0, "greet");
    assert!(files[0].1.starts_with("match_greet() {\n"));
    let broken = vec![named(script("bad", Some(voice(&["x {y"], vec![]))))];
    assert!(!scripts_compile_check(&broken));
}
