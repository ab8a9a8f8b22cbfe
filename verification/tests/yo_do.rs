use yo_rs::exact::substitution_for;
use yo_rs::intent::{
    EntityDictEntry, EntityMapping, EntityValue, FuzzyIndexEntry, IntentData, ListConfig,
    NamedIntent, NamedList, Substitution,
};
use yo_rs::matcher::YoDo;
use yo_rs::memory::updated_context;

fn s(x: &str) -> String {
    x.to_string()
}

fn no_range(_script: String, _param: String, _value: String) -> Option<String> {
    None
}

fn list(name: &str, wildcard: bool, values: &[(&str, &str)]) -> NamedList {
    NamedList {
        name: s(name),
        list: ListConfig {
            wildcard,
            values: values.iter().map(|(i, o)| EntityValue { input: s(i), out: s(o) }).collect(),
        },
    }
}

fn intent(name: &str, sentences: &[&str], lists: Vec<NamedList>, subs: &[(&str, &str)]) -> NamedIntent {
    NamedIntent {
        name: s(name),
        intent: IntentData {
            substitutions: subs.iter().map(|(p, v)| Substitution { pattern: s(p), value: s(v) }).collect(),
            sentences: sentences.iter().map(|x| s(x)).collect(),
            lists,
            speak: false,
            priority: 3,
        },
    }
}

fn entry(script: &str, sentence: &str, signature: &str, threshold: f32) -> FuzzyIndexEntry {
    FuzzyIndexEntry {
        script: s(script),
        sentence: s(sentence),
        signature: s(signature),
        threshold_pct: (threshold * 100.0) as i32,
        fuzzy_enabled: true,
    }
}

fn create_test_yodo() -> YoDo {
    let mut yodo = YoDo::new();
    yodo.intent_data = vec![
        intent(
            "timer",
            &["set a timer for {minutes} minutes and {seconds} seconds", "start timer {minutes} minutes"],
            vec![
                list("minutes", false, &[("5", "5"), ("10", "10")]),
                list("seconds", false, &[("30", "30"), ("45", "45")]),
            ],
            &[],
        ),
        intent(
            "reminder",
            &["set a reminder for {time} to {task}"],
            vec![list("time", false, &[("8am", "08:00")]), list("task", true, &[])],
            &[],
        ),
        intent(
            "play",
            &["play [some] music by {artist}", "play {song} by {artist}"],
            vec![list("artist", false, &[]), list("song", true, &[])],
            &[("beatles", "beatles_band"), ("queen", "queen")],
        ),
    ];
    yodo.fuzzy_index = vec![
        entry("timer", "set a timer for 5 minutes and 30 seconds", "timer_5_30", 0.8),
        entry("reminder", "set a reminder for 8am to buy milk", "reminder_8am_buy milk", 0.8),
        entry("play", "play some music by the beatles", "play_beatles", 0.75),
    ];
    yodo.precompile_patterns();
    yodo.calculate_processing_order();
    yodo
}

#[test]
fn test_levenshtein_distance() {
    let yodo = YoDo::new();
    assert_eq!(yodo.levenshtein_distance("kitten", "sitting"), 3);
    assert_eq!(yodo.levenshtein_distance("", "abc"), 3);
    assert_eq!(yodo.levenshtein_distance("abc", "abc"), 0);
    assert_eq!(yodo.levenshtein_distance("flaw", "lawn"), 2);
}

#[test]
fn test_normalize_input() {
    assert_eq!(YoDo::normalize_input("Hello, World!"), "hello world");
    assert_eq!(YoDo::normalize_input("What's up?"), "whats up");
    assert_eq!(YoDo::normalize_input("  Multiple   Spaces  "), "multiple spaces");
    assert_eq!(YoDo::normalize_input("UPPER lower MiXeD"), "upper lower mixed");
    assert_eq!(YoDo::normalize_input("Punctuation! & symbols/"), "punctuation symbols");
}

#[test]
fn test_expand_optional_words() {
    let yodo = YoDo::new();
    let variants = yodo.expand_optional_words("turn [on|off] the light");
    assert!(variants.contains(&"turn on the light".to_string()));
    assert!(variants.contains(&"turn off the light".to_string()));
    assert!(variants.contains(&"turn the light".to_string()));
    let variants2 = yodo.expand_optional_words("play [some] music");
    assert!(variants2.contains(&"play some music".to_string()));
    assert!(variants2.contains(&"play music".to_string()));
    let variants3 = yodo.expand_optional_words("set (high|low) volume");
    assert!(variants3.contains(&"set high volume".to_string()));
    assert!(variants3.contains(&"set low volume".to_string()));
    assert!(!variants3.contains(&"set volume".to_string()));
}

#[test]
fn test_build_pattern_matcher_simple() {
    let yodo = create_test_yodo();
    let (regex, params) = yodo.build_pattern_matcher("timer", "set a timer for {minutes} minutes").unwrap();
    assert_eq!(params, vec!["minutes".to_string()]);
    let regex = regex::Regex::new(&regex).unwrap();
    assert!(regex.is_match("set a timer for 5 minutes"));
    assert!(!regex.is_match("set a timer for minutes"));
}

#[test]
fn test_build_pattern_matcher_wildcard() {
    let yodo = create_test_yodo();
    let (regex, params) = yodo.build_pattern_matcher("reminder", "set a reminder for {time} to {task}").unwrap();
    assert_eq!(params, vec!["time".to_string(), "task".to_string()]);
    let regex = regex::Regex::new(&regex).unwrap();
    assert!(regex.is_match("set a reminder for 8am to buy milk"));
    assert!(regex.is_match("set a reminder for 8am to anything with spaces"));
    assert!(!regex.is_match("set a reminder for to buy milk"));
}

#[test]
fn test_align_words_exact() {
    let yodo = YoDo::new();
    let pattern = vec!["set".to_string(), "{param}".to_string(), "timer".to_string()];
    let text = vec!["set".to_string(), "a".to_string(), "timer".to_string()];
    let alignment = yodo.align_words(&pattern, &text);
    assert_eq!(alignment, vec![Some(0), Some(1), Some(2)]);
}

#[test]
fn test_align_words_with_extra_words() {
    let yodo = YoDo::new();
    let pattern = vec!["play".to_string(), "{song}".to_string()];
    let text = vec!["play".to_string(), "the".to_string(), "beatles".to_string()];
    let alignment = yodo.align_words(&pattern, &text);
    assert!(alignment[1].is_some());
}

#[test]
fn test_exact_match_timer() {
    let yodo = create_test_yodo();
    let result = yodo.exact_match("set a timer for 10 minutes and 45 seconds", &no_range).unwrap();
    assert_eq!(result.script_name, "timer");
    assert_eq!(result.args, vec!["--minutes", "10", "--seconds", "45"]);
    assert_eq!(result.match_type, "exact");
}

#[test]
fn test_exact_match_reminder_wildcard() {
    let yodo = create_test_yodo();
    let result = yodo.exact_match("set a reminder for 8am to buy milk and eggs", &no_range).unwrap();
    assert_eq!(result.script_name, "reminder");
    assert_eq!(result.args, vec!["--time", "08:00", "--task", "buy milk and eggs"]);
}

#[test]
fn test_exact_match_with_substitution() {
    let yodo = create_test_yodo();
    let result = yodo.exact_match("play some music by beatles", &no_range).unwrap();
    assert_eq!(result.script_name, "play");
    assert!(result.args.contains(&"--artist".to_string()));
    assert!(result.args.contains(&"beatles_band".to_string()));
}

#[test]
fn test_exact_match_optional_variant() {
    let yodo = create_test_yodo();
    let result = yodo.exact_match("play music by queen", &no_range).unwrap();
    assert_eq!(result.script_name, "play");
    assert_eq!(result.args, vec!["--artist", "queen"]);
}

#[test]
fn test_exact_match_no_match() {
    let yodo = create_test_yodo();
    assert!(yodo.exact_match("this does not match anything", &no_range).is_none());
}

#[test]
fn test_fuzzy_match_typo() {
    let yodo = create_test_yodo();
    let result = yodo.fuzzy_match("set a timr for 5 minuts and 30 secnds", &no_range).unwrap();
    assert_eq!(result.script_name, "timer");
    assert!(result.args.contains(&"--minutes".to_string()));
    assert!(result.args.contains(&"--seconds".to_string()));
}

#[test]
fn test_fuzzy_match_distinguishes_timer_reminder() {
    let yodo = create_test_yodo();
    let result = yodo.fuzzy_match("set a remindr for 8am to buy milk", &no_range).unwrap();
    assert_eq!(result.script_name, "reminder");
}

#[test]
fn test_fuzzy_match_threshold() {
    let mut yodo = create_test_yodo();
    yodo.fuzzy_index[0].threshold_pct = (0.99f32 * 100.0) as i32;
    assert!(yodo.fuzzy_match("completely unrelated sentence", &no_range).is_none());
}

#[test]
fn test_find_best_fuzzy_match() {
    let yodo = create_test_yodo();
    let best = yodo.find_best_fuzzy_match("set a timr for 5 minuts and 30 secnds");
    assert!(best.is_some());
    let (script, _sentence, score) = best.unwrap();
    assert_eq!(script, "timer");
    assert!(score >= 70);
}

#[test]
fn test_resolve_entity_list_exact() {
    let yodo = create_test_yodo();
    assert_eq!(yodo.resolve_entity("timer", "minutes", "5", &no_range), "5");
    assert_eq!(yodo.resolve_entity("timer", "minutes", "10", &no_range), "10");
    assert_eq!(yodo.resolve_entity("timer", "minutes", "15", &no_range), "15");
}

#[test]
fn test_resolve_entity_wildcard() {
    let yodo = create_test_yodo();
    assert_eq!(yodo.resolve_entity("reminder", "task", "buy milk", &no_range), "buy milk");
}

#[test]
fn test_resolve_entity_substitution() {
    let yodo = create_test_yodo();
    assert_eq!(yodo.resolve_entity("play", "artist", "beatles", &no_range), "beatles_band");
    assert_eq!(yodo.resolve_entity("play", "artist", "queen", &no_range), "queen");
}

#[test]
fn test_is_wildcard_param() {
    let yodo = create_test_yodo();
    assert!(!yodo.is_wildcard_param("timer", "minutes"));
    assert!(yodo.is_wildcard_param("reminder", "task"));
    assert!(!yodo.is_wildcard_param("play", "artist"));
    assert!(yodo.is_wildcard_param("play", "song"));
}

#[test]
fn test_is_valid_param_value() {
    let yodo = create_test_yodo();
    assert!(yodo.is_valid_param_value("timer", "minutes", "5"));
    assert!(yodo.is_valid_param_value("timer", "minutes", "10"));
    assert!(!yodo.is_valid_param_value("timer", "minutes", "15"));
    assert!(yodo.is_valid_param_value("reminder", "task", "anything"));
    assert!(yodo.is_valid_param_value("play", "artist", "the beatles"));
}

#[test]
fn test_fuzzy_resolve_entity() {
    let mut yodo = create_test_yodo();
    yodo.fuzzy_entity_dict.push(EntityDictEntry {
        script: s("play"),
        param: s("artist"),
        mappings: vec![
            EntityMapping { input: "the beatles".to_string(), output: "the beatles".to_string() },
            EntityMapping { input: "beetles".to_string(), output: "the beatles".to_string() },
        ],
    });
    assert_eq!(yodo.fuzzy_resolve_entity("play", "artist", "beetles", 80), Some("the beatles".to_string()));
    assert_eq!(yodo.fuzzy_resolve_entity("play", "artist", "rolling stones", 80), None);
}

#[test]
fn test_apply_real_time_substitutions() {
    let yodo = create_test_yodo();
    let (resolved, subs) = yodo.apply_real_time_substitutions("play", "play music by beatles");
    assert_eq!(resolved, "play music by beatles_band");
    assert_eq!(substitution_for(&subs, "beatles"), Some("beatles_band".to_string()));
}

#[test]
fn test_update_memory_context() {
    let yodo = create_test_yodo();
    let script = "timer";
    let args = vec!["--minutes".to_string(), "5".to_string()];
    let context = updated_context(&yodo.memory_data.context, script, &args);
    assert_eq!(context.environment, "default");
    assert_eq!(context.last_action, script);
}

#[test]
fn test_empty_input_exact_match() {
    let yodo = create_test_yodo();
    assert!(yodo.exact_match("", &no_range).is_none());
}

#[test]
fn test_empty_input_fuzzy_match() {
    let yodo = create_test_yodo();
    assert!(yodo.fuzzy_match("", &no_range).is_none());
}

#[test]
fn test_no_patterns_compiled() {
    let mut yodo = YoDo::new();
    yodo.intent_data = Vec::new();
    yodo.precompile_patterns();
    yodo.calculate_processing_order();
    assert!(yodo.exact_match("anything", &no_range).is_none());
    assert!(yodo.fuzzy_match("anything", &no_range).is_none());
}
