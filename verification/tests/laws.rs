use yo_rs::compile::signature_of;
use yo_rs::intent::{FuzzyIndexEntry, IntentData, NamedIntent};
use yo_rs::matcher::YoDo;
use yo_rs::session::{keep_parts, request_ok};
use yo_rs::config::{convert_script_config, DefaultValue, NamedScript, Parameter, ScriptConfig};
use yo_rs::expand::{cartesian_product_of_lists, expand_list_input_variants, expand_optional_words};
use yo_rs::levenshtein::levenshtein_distance;
use yo_rs::scoring::{similarity_chars, trigram_check};
use yo_rs::scripts::{generate_env_exports, generate_yo_wrapper, sanitize_var_name};

fn s(x: &str) -> String {
    x.to_string()
}

fn chars(x: &str) -> Vec<char> {
    x.chars().collect()
}

#[test]
fn levenshtein_is_symmetric_and_zero_only_for_equal() {
    assert_eq!(levenshtein_distance("flaw", "lawn"), 2);
    assert_eq!(levenshtein_distance("lawn", "flaw"), 2);
    assert_eq!(levenshtein_distance("abc", "abc"), 0);
    assert_ne!(levenshtein_distance("abc", "abd"), 0);
    assert_eq!(levenshtein_distance("", "four"), 4);
    assert_eq!(levenshtein_distance("kitten", "kit"), 3);
    assert!(levenshtein_distance("short", "a much longer text") <= 18);
}

#[test]
fn similarity_laws_on_examples() {
    assert_eq!(similarity_chars(&chars("play music"), &chars("play music")), Some(100));
    let a = similarity_chars(&chars("set a timer"), &chars("set the timer"));
    let b = similarity_chars(&chars("set the timer"), &chars("set a timer"));
    assert_eq!(a, b);
    assert_eq!(a, Some(100 - (3 * 100 / 13)));
    assert_eq!(similarity_chars(&chars(""), &chars("")), None);
    assert_eq!(similarity_chars(&chars("abc"), &chars("xyz")), Some(0));
}

#[test]
fn compiled_variants_are_sorted_and_unique() {
    assert_eq!(
        expand_optional_words("turn (on|off) [the] light"),
        vec![s("turn off light"), s("turn off the light"), s("turn on light"), s("turn on the light")]
    );
    assert_eq!(expand_optional_words("(a|a) b"), vec![s("a b")]);
    assert_eq!(expand_optional_words("{x}"), vec![s("{x}")]);
    assert_eq!(expand_optional_words("{{"), Vec::<String>::new());
    assert_eq!(expand_optional_words("   "), Vec::<String>::new());
}

#[test]
fn list_value_variants() {
    assert_eq!(
        expand_list_input_variants("[big|small] [red|blue] fan"),
        vec![s("big blue fan"), s("big red fan"), s("small blue fan"), s("small red fan")]
    );
    assert_eq!(expand_list_input_variants("lamp"), vec![s("lamp")]);
}

#[test]
fn cartesian_product_order() {
    let lists = vec![vec![1u8, 2], vec![3u8], vec![4u8, 5]];
    assert_eq!(
        cartesian_product_of_lists(&lists),
        vec![vec![1, 3, 4], vec![1, 3, 5], vec![2, 3, 4], vec![2, 3, 5]]
    );
    let empty: Vec<Vec<u8>> = vec![];
    assert_eq!(cartesian_product_of_lists(&empty), vec![Vec::<u8>::new()]);
}

fn param(name: &str, ty: &str, default: Option<DefaultValue>, optional: Option<bool>) -> Parameter {
    Parameter {
        name: s(name),
        param_type: Some(s(ty)),
        description: None,
        optional,
        default,
        values: None,
    }
}

fn script(name: &str, description: &str, parameters: Vec<Parameter>) -> NamedScript {
    let (name, script) = convert_script_config(ScriptConfig {
        name: s(name),
        description: s(description),
        category: None,
        parameters: Some(parameters),
        code: None,
        binary: None,
        aliases: None,
        log_level: None,
        auto_start: None,
        run_every: None,
        run_at: None,
        voice: None,
        visible_in_readme: None,
        help_footer: None,
    });
    NamedScript { name, script }
}

#[test]
fn env_exports_of_defaults() {
    let n = script(
        "greet",
        "says hello",
        vec![
            param("my-name", "string", Some(DefaultValue { text: Some(s("duck")), flag: None, json: s("\"duck\"") }), None),
            param("count", "int", Some(DefaultValue { text: None, flag: None, json: s("5") }), None),
            param("loud", "bool", Some(DefaultValue { text: None, flag: Some(true), json: s("true") }), None),
            param("other", "string", None, None),
        ],
    );
    assert_eq!(
        generate_env_exports(&n.script),
        "export my_name=\"'duck'\"\nexport count=\"5\"\nexport loud=\"true\""
    );
    assert_eq!(sanitize_var_name("a-b-c"), "a_b_c");
}

#[test]
fn wrapper_lists_visible_scripts() {
    let scripts = vec![
        script("greet", "says hello", vec![param("name", "string", None, None), param("times", "int", None, Some(true))]),
        script("quiet", "does nothing", vec![]),
    ];
    let w = generate_yo_wrapper("/bin", &scripts);
    assert!(w.starts_with("#!/usr/bin/env bash\nset -o noglob\n\n"));
    assert!(w.contains("| `yo greet --name [--times]` |  | says hello |\n"));
    assert!(w.contains("| `yo quiet ` |  | does nothing |\n"));
    assert!(w.ends_with("  show_help\n  exit 1\nfi\n"));
}

#[test]
fn signature_ignores_word_order() {
    assert_eq!(signature_of("Play The Music"), signature_of("music the play"));
    assert_eq!(signature_of("turn  on the   LIGHT"), signature_of("the light turn on"));
    assert_ne!(signature_of("turn on the light"), signature_of("turn off the light"));
}

#[test]
fn optional_and_alternative_parts_inside_words() {
    assert_eq!(expand_optional_words("turn on the light[s]"), vec![s("turn on the light"), s("turn on the lights")]);
    assert_eq!(expand_optional_words("turn(s|ed) left"), vec![s("turned left"), s("turns left")]);
    let yodo = YoDo::new();
    let runtime = yodo.expand_optional_words("dim the light[s]");
    assert!(runtime.contains(&s("dim the light")));
    assert!(runtime.contains(&s("dim the lights")));
}

#[test]
fn score_of_hundred_only_for_identical_texts() {
    let long: String = "a".repeat(101);
    let other: String = "a".repeat(100) + "b";
    assert_eq!(similarity_chars(&chars(&long), &chars(&other)), Some(99));
    assert_eq!(similarity_chars(&chars(&long), &chars(&long)), Some(100));
}

fn prio_intent(name: &str, priority: i32) -> NamedIntent {
    NamedIntent {
        name: s(name),
        intent: IntentData {
            substitutions: Vec::new(),
            sentences: vec![s("hello")],
            lists: Vec::new(),
            speak: false,
            priority,
        },
    }
}

#[test]
fn configured_priority_sets_the_order() {
    let mut yodo = YoDo::new();
    yodo.intent_data = vec![prio_intent("alpha", 5), prio_intent("beta", 1), prio_intent("gamma", 3)];
    yodo.calculate_processing_order();
    let names: Vec<&str> = yodo.processing_order.iter().map(|p| p.name.as_str()).collect();
    assert_eq!(names, vec!["beta", "gamma", "alpha"]);
    assert_eq!(yodo.processing_order[0].priority, 1);
}

#[test]
fn trigram_check_skips_clearly_different_sentences() {
    assert!(trigram_check(&chars("hello there"), &chars("hello there")));
    assert!(!trigram_check(&chars("abcd"), &chars("abxd")));
    assert!(trigram_check(&chars("ab"), &chars("xy")));
    assert!(trigram_check(&chars("set a timr for 5 minuts"), &chars("set a timer for 5 minutes")));
    let mut yodo = YoDo::new();
    yodo.fuzzy_index = vec![FuzzyIndexEntry {
        script: s("short"),
        sentence: s("abcd"),
        signature: s("abcd"),
        threshold_pct: 70,
        fuzzy_enabled: true,
    }];
    assert_eq!(similarity_chars(&chars("abxd"), &chars("abcd")), Some(75));
    assert_eq!(yodo.find_best_fuzzy_match("abxd"), None);
    assert_eq!(yodo.find_best_fuzzy_match("abcd"), Some((s("short"), s("abcd"), 100)));
}

fn no_range(_script: String, _param: String, _value: String) -> Option<String> {
    None
}

#[test]
fn request_parts_and_outcome() {
    assert_eq!(keep_parts(&vec![s(" turn on "), s("   "), s("play music")]), vec![s("turn on"), s("play music")]);
    assert!(request_ok(&vec![false, true, false]));
    assert!(!request_ok(&vec![false, false]));
    assert!(!request_ok(&Vec::new()));
}

#[test]
fn normalized_input_is_single_spaced() {
    assert_eq!(YoDo::normalize_input("  Turn   ON, the\tlight!  "), "turn on the light");
    assert_eq!(YoDo::normalize_input(" ?! "), "");
}

#[test]
fn arguments_from_captured_groups() {
    let yodo = YoDo::new();
    let groups = vec![Some(s("set 5 minutes")), Some(s("5"))];
    let r = yodo.args_for_groups("timer", &vec![s("minutes")], &groups, &Vec::new(), &no_range);
    assert_eq!(r, Some(vec![s("--minutes"), s("5")]));
}
