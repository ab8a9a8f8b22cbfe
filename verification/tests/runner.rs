use yo_rs::intent::{EntityValue, FuzzyIndexEntry, IntentData, ListConfig, NamedIntent, NamedList, Substitution};
use yo_rs::pattern::intents_compile;
use yo_rs::runner::{
    final_report, report_grade, report_percent, LogKind, ReportGrade, SingleOutcome, StatsStatus, TestResult,
    TestRunner,
};

fn s(x: &str) -> String {
    x.to_string()
}

fn list(name: &str, wildcard: bool, values: &[(&str, &str)]) -> NamedList {
    NamedList {
        name: s(name),
        list: ListConfig {
            wildcard,
            values: values.iter().map(|(i, o)| EntityValue { input: s(i), out: s(o) }).collect(),
        },
    }
}

fn intent(name: &str, sentences: &[&str], lists: Vec<NamedList>, subs: &[(&str, &str)]) -> NamedIntent {
    NamedIntent {
        name: s(name),
        intent: IntentData {
            substitutions: subs.iter().map(|(p, v)| Substitution { pattern: s(p), value: s(v) }).collect(),
            sentences: sentences.iter().map(|x| s(x)).collect(),
            lists,
            speak: false,
            priority: 3,
        },
    }
}

fn index_entry(script: &str, sentence: &str) -> FuzzyIndexEntry {
    FuzzyIndexEntry {
        script: s(script),
        sentence: s(sentence),
        signature: s(""),
        threshold_pct: 80,
        fuzzy_enabled: true,
    }
}

fn runner() -> TestRunner {
    let mut r = TestRunner::new(false);
    r.intent_data = vec![
        intent(
            "timer",
            &["set timer for {minutes} minutes"],
            vec![list("minutes", false, &[("5", "5"), ("ten|10", "10")])],
            &[],
        ),
        intent("note", &["note {text}"], vec![list("text", true, &[])], &[]),
    ];
    r.fuzzy_index = vec![index_entry("timer", "set timer for 5 minutes"), index_entry("note", "note buy milk")];
    r
}

fn pairs(v: &[(&str, &str)]) -> Vec<(String, String)> {
    v.iter().map(|(a, b)| (s(a), s(b))).collect()
}

#[test]
fn new_runner_defaults() {
    let r = TestRunner::new(true);
    assert!(r.debug);
    assert!(!r.stats_mode);
    assert_eq!(r.max_variants, 1000);
    assert!(r.intent_data.is_empty());
    assert!(r.single_input.is_none());
}

#[test]
fn runner_normalize_input_strips_marks_and_lowercases() {
    let r = runner();
    assert_eq!(r.normalize_input("What's up, Doc?!"), "what's up doc");
    assert_eq!(r.normalize_input("A/B & C."), "ab  c");
}

#[test]
fn expand_list_entry_forms() {
    assert_eq!(TestRunner::new(false).intent_data.len(), 0);
    assert_eq!(yo_rs::runner::expand_list_entry("[a | b|]"), vec![s("a"), s("b")]);
    assert_eq!(yo_rs::runner::expand_list_entry(" x|y "), vec![s("x"), s("y")]);
    assert_eq!(yo_rs::runner::expand_list_entry("plain"), vec![s("plain")]);
    assert!(yo_rs::runner::expand_list_entry("[]").is_empty());
}

#[test]
fn runner_resolve_entity_list_and_substitution() {
    let mut r = runner();
    assert_eq!(r.resolve_entity("timer", "minutes", "Ten"), "10");
    assert_eq!(r.resolve_entity("timer", "minutes", "7"), "7");
    assert_eq!(r.resolve_entity("note", "text", "anything"), "anything");
    assert_eq!(r.resolve_entity("nobody", "x", "v"), "v");
    r.intent_data.push(intent("tv", &["turn on the {device}"], vec![], &[("(tv|telly)", "television")]));
    assert_eq!(r.resolve_entity("tv", "device", "Telly"), "television");
}

#[test]
fn runner_build_test_regex() {
    let r = runner();
    assert_eq!(
        r.build_test_regex("timer", "set timer for {minutes} minutes"),
        "^set timer for (?P<minutes>\\b[^ ]+\\b) minutes$"
    );
    assert_eq!(r.build_test_regex("note", "note {text}"), "^note (?P<text>.*)$");
    assert_eq!(r.build_test_regex("note", "a.b"), "^a\\.b$");
}

#[test]
fn runner_exact_match() {
    let r = runner();
    assert!(intents_compile(&r.intent_data));
    assert!(r.test_exact_match("timer", "Set Timer For 5 Minutes"));
    assert!(!r.test_exact_match("timer", "launch the rockets"));
    assert!(!r.test_exact_match("missing", "note x"));
    assert!(r.test_exact_match("note", "note buy milk"));
}

#[test]
fn generated_cases_are_sorted_and_unique() {
    let r = runner();
    let cases = r.generate_param_test_cases("timer", "set timer for {minutes} minutes");
    let inputs: Vec<&str> = cases.iter().map(|c| c.0.as_str()).collect();
    assert_eq!(inputs, vec!["set timer for 10 minutes", "set timer for 5 minutes", "set timer for ten minutes"]);
    assert_eq!(cases[0].1, pairs(&[("minutes", "10")]));
    assert_eq!(cases[2].1, pairs(&[("minutes", "10")]));
    let notes = r.generate_param_test_cases("note", "note {text}");
    let inputs: Vec<&str> = notes.iter().map(|c| c.0.as_str()).collect();
    assert_eq!(inputs, vec!["note 123", "note star wars", "note test"]);
}

#[test]
fn generated_cases_keep_first_duplicate_and_respect_limit() {
    let mut r = runner();
    r.intent_data.push(intent("dup", &["go {a}"], vec![list("a", false, &[("x", "1"), ("x", "2")])], &[]));
    let cases = r.generate_param_test_cases("dup", "go {a}");
    assert_eq!(cases.len(), 1);
    assert_eq!(cases[0].0, "go x");
    assert_eq!(cases[0].1, pairs(&[("a", "1")]));
    r.max_variants = 0;
    assert!(r.generate_param_test_cases("timer", "set timer for {minutes} minutes").is_empty());
    let unknown = runner().generate_param_test_cases("nobody", "say {thing}");
    assert_eq!(unknown.len(), 1);
    assert_eq!(unknown[0].0, "say <thing>");
    assert_eq!(unknown[0].1, pairs(&[("thing", "<thing>")]));
}

#[test]
fn runner_param_extraction() {
    let r = runner();
    assert!(r.test_param_extraction("timer", "set timer for ten minutes", &pairs(&[("minutes", "10")])));
    assert!(!r.test_param_extraction("timer", "set timer for ten minutes", &pairs(&[("minutes", "ten")])));
    assert!(r.test_param_extraction("note", "note star wars", &pairs(&[("text", "star wars")])));
    assert!(!r.test_param_extraction("nobody", "note x", &pairs(&[])));
}

#[test]
fn extract_params_from_regex_named_groups() {
    let got = TestRunner::extract_params_from_regex("^(?P<a>\\w+) (?P<b>\\w+)?$", "hello ");
    assert_eq!(got, Some(pairs(&[("a", "hello")])));
    assert_eq!(TestRunner::extract_params_from_regex("^x$", "y"), None);
    assert_eq!(TestRunner::extract_params_from_regex("(", "y"), None);
}

#[test]
fn runner_resolve_sentence() {
    let r = runner();
    assert_eq!(
        r.resolve_sentence("x", "set a timer for {hours} hours in the {room} [please]"),
        "set a timer for 1 hours in the livingroom please"
    );
    assert_eq!(r.resolve_sentence("x", "turn (on|off) the {device}"), "turn on the livingroom");
    assert_eq!(r.resolve_sentence("x", "say {thing}"), "say test");
}

#[test]
fn runner_fuzzy_match() {
    let r = runner();
    assert_eq!(r.find_best_fuzzy_match("set timer for 5 minute"), Some((s("timer"), 96)));
    assert_eq!(r.find_best_fuzzy_match("zzzz"), None);
    assert_eq!(r.levenshtein_distance("kitten", "sitting"), 3);
}

#[test]
fn suite_all_pass() {
    let r = runner();
    let result = r.run_test_suite();
    assert_eq!((result.passed_positive, result.total_positive), (6, 6));
    assert_eq!((result.passed_negative, result.total_negative), (5, 5));
    assert_eq!((result.passed_boundary, result.total_boundary), (4, 4));
    assert!(result.failures.is_empty());
    assert_eq!(result.events.len(), 17);
    assert!(result.events[0].kind == LogKind::ScriptStart);
    assert_eq!(result.events[0].script, "timer");
    assert_eq!(result.events[1].input, "set timer for 10 minutes");
    let report = final_report(&result);
    assert_eq!((report.passed, report.total, report.percent), (15, 15, 100));
    assert!(report.grade == ReportGrade::Good);
    assert!(!report.show_failures);
}

#[test]
fn suite_reports_failures() {
    let mut r = runner();
    r.intent_data.push(intent("greet", &["say {word}"], vec![list("word", false, &[("hi", "HI")])], &[("hi", "bye")]));
    r.intent_data.push(intent("chef", &["make me a sandwich"], vec![], &[]));
    let result = r.run_test_suite();
    assert!(result.failures.contains(&s("POSITIVE: greet | input='say hi' expected={\"word\": \"HI\"}")));
    assert!(result.failures.contains(&s("NEGATIVE: chef | make me a sandwich")));
    assert_eq!(result.total_negative, 5);
    assert_eq!(result.passed_negative, 4);
    let report = final_report(&result);
    assert!(report.show_failures);
    assert!(report.passed < report.total);
}

#[test]
fn suite_filter_limits_scripts() {
    let mut r = runner();
    r.script_filter = Some(s("note"));
    let result = r.run_test_suite();
    assert_eq!(result.total_positive, 3);
    assert_eq!(result.events[0].script, "note");
}

#[test]
fn boundary_phase_alone() {
    let mut r = runner();
    r.intent_data.push(intent("anything", &["{all}"], vec![list("all", true, &[])], &[]));
    let mut result = TestResult::new();
    r.test_boundary_cases(&mut result, None);
    assert_eq!(result.total_boundary, 4);
    assert_eq!(result.passed_boundary, 0);
    assert!(result.failures.contains(&s("BOUNDARY: anything | ''")));
    assert!(result.failures.contains(&s("BOUNDARY: anything | '   '")));
}

#[test]
fn single_input_outcomes() {
    let r = runner();
    match r.test_single_input("set timer for 5 minutes") {
        SingleOutcome::Match(name) => assert_eq!(name, "timer"),
        _ => panic!("expected an exact match"),
    }
    match r.test_single_input("set timer for 5 minute") {
        SingleOutcome::Fuzzy(name, score) => {
            assert_eq!(name, "timer");
            assert_eq!(score, 96);
        },
        _ => panic!("expected a fuzzy match"),
    }
    assert!(matches!(r.test_single_input("qqqq"), SingleOutcome::NoMatch));
}

#[test]
fn stats_sorted_by_ratio() {
    let mut r = TestRunner::new(false);
    r.intent_data = vec![
        intent("one", &["plain words"], vec![], &[]),
        intent("empty", &[], vec![], &[]),
        intent("many", &["(a|b|c|d|e|f|g|h) (1|2|3|4|5|6|7)"], vec![], &[]),
        intent("blank", &["", ""], vec![], &[]),
        intent("four", &["a [b|c|d]"], vec![], &[]),
    ];
    assert!(r.phrase_counts_fit());
    let stats = r.script_stats();
    let names: Vec<&str> = stats.iter().map(|x| x.name.as_str()).collect();
    assert_eq!(&names[..3], &["many", "four", "one"]);
    assert!(stats[0].status == StatsStatus::HighRatio);
    assert_eq!((stats[0].patterns, stats[0].phrases), (1, 56));
    assert!(stats[1].status == StatsStatus::Fine);
    let blank = stats.iter().find(|x| x.name == "blank").unwrap();
    assert!(blank.status == StatsStatus::NeedsPhrases);
    let empty = stats.iter().find(|x| x.name == "empty").unwrap();
    assert!(empty.status == StatsStatus::Empty);
}

#[test]
fn report_percent_and_grade() {
    assert_eq!(report_percent(3, 4), 75);
    assert_eq!(report_percent(0, 0), 0);
    assert_eq!(report_percent(2, 3), 66);
    assert!(report_grade(80) == ReportGrade::Good);
    assert!(report_grade(75) == ReportGrade::Fair);
    assert!(report_grade(59) == ReportGrade::Poor);
}
