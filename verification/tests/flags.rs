use yo_rs::cli::{parse_do_args, ArgErrorKind};
use yo_rs::flags::{
    parse_client_args, parse_compile_args, parse_generate_args, parse_say_args, parse_server_args, parse_tests_args,
};

fn args(v: &[&str]) -> Vec<String> {
    v.iter().map(|x| x.to_string()).collect()
}

fn is_number(s: String) -> bool {
    s.parse::<f64>().is_ok()
}

#[test]
fn server_defaults() {
    let a = parse_server_args(&args(&[]), &is_number).ok().unwrap();
    assert!(!a.help);
    assert_eq!(a.host, "0.0.0.0:12345");
    assert_eq!(a.language, Some("sv".to_string()));
    assert_eq!(a.beam_size, 5);
    assert_eq!(a.threads, 4);
    assert_eq!(a.cooldown_secs, 10);
    assert_eq!(a.model, "./models/stt/ggml-tiny.bin");
    assert_eq!(a.tts_model, "./../models/tts/en_US-amy-medium.onnx");
    assert_eq!(a.wake_word_path, "");
    assert!(!a.custom_wake_word);
    assert!(a.threshold.is_none());
    assert!(!a.debug);
}

#[test]
fn server_values_last_wins() {
    let a = parse_server_args(
        &args(&[
            "--language", "auto", "--beam-size", "3", "--host", "h:1", "--host", "h:2", "--wake-word", "w.onnx",
            "--threshold", "0.7", "--debug", "--cooldown", "20",
        ]),
        &is_number,
    )
    .ok()
    .unwrap();
    assert_eq!(a.language, None);
    assert_eq!(a.beam_size, 3);
    assert_eq!(a.host, "h:2");
    assert_eq!(a.wake_word_path, "w.onnx");
    assert!(a.custom_wake_word);
    assert_eq!(a.threshold, Some("0.7".to_string()));
    assert!(a.debug);
    assert_eq!(a.cooldown_secs, 20);
}

#[test]
fn server_help_and_errors() {
    assert!(parse_server_args(&args(&["-h"]), &is_number).ok().unwrap().help);
    let e = parse_server_args(&args(&["--debug", "--help"]), &is_number).err().unwrap();
    assert!(matches!(e.kind, ArgErrorKind::Unknown));
    assert_eq!(e.subject, "--help");
    let e = parse_server_args(&args(&["--threshold", "abc", "--bogus"]), &is_number).err().unwrap();
    assert!(matches!(e.kind, ArgErrorKind::Invalid));
    assert_eq!(e.subject, "--threshold");
    let e = parse_server_args(&args(&["--beam-size", "x"]), &is_number).err().unwrap();
    assert!(matches!(e.kind, ArgErrorKind::Invalid));
    let e = parse_server_args(&args(&["--model"]), &is_number).err().unwrap();
    assert!(matches!(e.kind, ArgErrorKind::MissingValue));
    assert_eq!(e.subject, "--model");
}

#[test]
fn client_args() {
    assert!(parse_client_args(&args(&["--room", "kitchen", "-h"]), &is_number).ok().unwrap().help);
    let a = parse_client_args(&args(&["--room", "kitchen", "--silence-threshold", "0.01"]), &is_number).ok().unwrap();
    assert_eq!(a.room, Some("kitchen".to_string()));
    assert_eq!(a.silence_threshold, Some("0.01".to_string()));
    assert_eq!(a.server_addr, "127.0.0.1:12345");
    let e = parse_client_args(&args(&["--uri"]), &is_number).err().unwrap();
    assert!(matches!(e.kind, ArgErrorKind::MissingValue));
    let e = parse_client_args(&args(&["--max-duration", "long"]), &is_number).err().unwrap();
    assert!(matches!(e.kind, ArgErrorKind::Invalid));
    assert_eq!(e.subject, "--max-duration");
}

#[test]
fn tests_args_lenient() {
    let a = parse_tests_args(&args(&["--stats", "--input", "hello", "--script", "timer", "--max-variants", "zz", "--bogus"]));
    assert!(a.stats);
    assert_eq!(a.input, Some("hello".to_string()));
    assert_eq!(a.script, Some("timer".to_string()));
    assert_eq!(a.max_variants, 1000);
    let b = parse_tests_args(&args(&["--max-variants", "5", "--input"]));
    assert_eq!(b.max_variants, 5);
    assert_eq!(b.input, None);
}

#[test]
fn compile_args() {
    let e = parse_compile_args(&args(&["--config-dir", "d", "--config", "c"])).err().unwrap();
    assert!(matches!(e.kind, ArgErrorKind::Conflict));
    assert_eq!(e.subject, "--config");
    let e = parse_compile_args(&args(&["--config"])).err().unwrap();
    assert!(matches!(e.kind, ArgErrorKind::MissingValue));
    let e = parse_compile_args(&args(&["--config-dir"])).err().unwrap();
    assert_eq!(e.subject, "--config-dir");
    let a = parse_compile_args(&args(&["--output", "o", "--config", "c.toml"])).ok().unwrap();
    assert_eq!(a.config, Some("c.toml".to_string()));
    assert_eq!(a.output, "o");
    assert!(a.config_dir.is_none());
    let d = parse_compile_args(&args(&[])).ok().unwrap();
    assert_eq!(d.output, "/etc/yo");
}

#[test]
fn generate_args() {
    let e = parse_generate_args(&args(&[])).err().unwrap();
    assert!(matches!(e.kind, ArgErrorKind::MissingRequired));
    let a = parse_generate_args(&args(&["cfg"])).ok().unwrap();
    assert_eq!(a.output_dir, "yo-scripts");
    let b = parse_generate_args(&args(&["cfg", "out", "extra"])).ok().unwrap();
    assert_eq!((b.config_dir.as_str(), b.output_dir.as_str()), ("cfg", "out"));
}

#[test]
fn say_args() {
    let a = parse_say_args(&args(&["--text", "hi", "--model", "m"]), &is_number).ok().unwrap();
    assert!(!a.blocking);
    assert_eq!(a.text, "hi");
    assert!(a.length_scale.is_none());
    let b = parse_say_args(&args(&["--text", "hi", "--model", "m", "--blocking"]), &is_number).ok().unwrap();
    assert!(b.blocking);
    let c = parse_say_args(&args(&["--blocking", "false", "--text", "hi", "--model", "m", "--length-scale", "1.5"]), &is_number)
        .ok()
        .unwrap();
    assert!(!c.blocking);
    assert_eq!(c.length_scale, Some("1.5".to_string()));
    let e = parse_say_args(&args(&["--blocking", "maybe"]), &is_number).err().unwrap();
    assert!(matches!(e.kind, ArgErrorKind::Invalid));
    assert_eq!(e.subject, "maybe");
    let e = parse_say_args(&args(&["--blocking", "-x"]), &is_number).err().unwrap();
    assert!(matches!(e.kind, ArgErrorKind::Unknown));
    assert_eq!(e.subject, "-x");
    let e = parse_say_args(&args(&["--text", "a", "--text", "b"]), &is_number).err().unwrap();
    assert!(matches!(e.kind, ArgErrorKind::Duplicate));
    let e = parse_say_args(&args(&["--model", "m"]), &is_number).err().unwrap();
    assert!(matches!(e.kind, ArgErrorKind::MissingRequired));
    assert_eq!(e.subject, "--text");
    let e = parse_say_args(&args(&["--text", "t"]), &is_number).err().unwrap();
    assert_eq!(e.subject, "--model");
    let e = parse_say_args(&args(&["--text"]), &is_number).err().unwrap();
    assert!(matches!(e.kind, ArgErrorKind::MissingValue));
    let e = parse_say_args(&args(&["--text", "t", "--model", "m", "--length-scale", "x"]), &is_number).err().unwrap();
    assert!(matches!(e.kind, ArgErrorKind::Invalid));
}

#[test]
fn do_args() {
    let a = parse_do_args(&args(&["--input", "turn on the lights", "--fuzzy", "40"])).ok().unwrap();
    assert_eq!(a.input, Some("turn on the lights".to_string()));
    assert_eq!(a.fuzzy, 40);
    let d = parse_do_args(&args(&[])).ok().unwrap();
    assert_eq!(d.fuzzy, 25);
    let e = parse_do_args(&args(&["--fuzzy", "lots"])).err().unwrap();
    assert!(matches!(e.kind, ArgErrorKind::Invalid));
    let e = parse_do_args(&args(&["--room", "a", "--room", "b"])).err().unwrap();
    assert!(matches!(e.kind, ArgErrorKind::Duplicate));
    let e = parse_do_args(&args(&["--what"])).err().unwrap();
    assert!(matches!(e.kind, ArgErrorKind::Unknown));
}
