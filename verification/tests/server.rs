use yo_rs::server::{
    display_id, is_recording_message, peer_ip, plan_connection, result_byte, ClientKind, ClientRegistry, EspAction,
    EspChunk, EspSession, EspState, PttAction, PttSession, WakeAction, WakeSession,
};
use yo_rs::voice::{command_for, cut_at_punctuation, normalize_transcription, recording_file_name, safe_client_id};

#[test]
fn registry_add_then_remove_restores() {
    let mut reg = ClientRegistry::new();
    reg.add_connection("kitchen", "10.0.0.2", 100);
    assert_eq!(reg.connections("kitchen", "10.0.0.2"), 1);
    reg.add_connection("office", "10.0.0.3", 120);
    reg.add_connection("office", "10.0.0.3", 130);
    assert_eq!(reg.connections("office", "10.0.0.3"), 2);
    assert!(reg.remove_connection("office", "10.0.0.3"));
    assert_eq!(reg.connections("office", "10.0.0.3"), 1);
    assert!(reg.remove_connection("office", "10.0.0.3"));
    assert_eq!(reg.connections("office", "10.0.0.3"), 0);
    assert_eq!(reg.connections("kitchen", "10.0.0.2"), 1);
    assert!(!reg.remove_connection("garage", "10.0.0.9"));
}

#[test]
fn registry_keeps_first_connection_time() {
    let mut reg = ClientRegistry::new();
    reg.add_connection("hall", "1.2.3.4", 50);
    reg.add_connection("hall", "1.2.3.4", 90);
    let slot = reg.entries.iter().find(|e| e.room == "hall").unwrap();
    assert_eq!(slot.connected_at, 50);
    assert_eq!(slot.count, 2);
}

#[test]
fn connection_plans() {
    let p = plan_connection("intercom");
    assert!(matches!(p.kind, ClientKind::Intercom));
    assert_eq!(p.register, None);
    assert_eq!(p.unregister, Some("intercom".to_string()));
    let p = plan_connection("oneshot");
    assert!(matches!(p.kind, ClientKind::PushToTalk));
    assert_eq!(p.register, Some("esp".to_string()));
    let p = plan_connection("esp");
    assert!(matches!(p.kind, ClientKind::Esp));
    assert_eq!(p.register, Some("esp".to_string()));
    let p = plan_connection("");
    assert!(matches!(p.kind, ClientKind::WakeWord));
    assert_eq!(p.register, None);
    let p = plan_connection("bedroom");
    assert!(matches!(p.kind, ClientKind::WakeWord));
    assert_eq!(p.unregister, Some("bedroom".to_string()));
}

#[test]
fn client_names_and_bytes() {
    assert_eq!(display_id("", "10.0.0.5:4000"), "client @ 10.0.0.5:4000");
    assert_eq!(display_id("kitchen", "10.0.0.5:4000"), "room 'kitchen'");
    assert_eq!(peer_ip("10.0.0.5:4000"), "10.0.0.5");
    assert_eq!(peer_ip("localhost"), "localhost");
    assert_eq!(result_byte(true), 3);
    assert_eq!(result_byte(false), 4);
    assert!(is_recording_message(2));
    assert!(!is_recording_message(1));
}

#[test]
fn wake_session_debounces() {
    let mut w = WakeSession::new();
    assert!(matches!(w.on_chunk(false, 10), WakeAction::Ignore));
    assert!(matches!(w.on_chunk(true, 10), WakeAction::Respond));
    w.finished(10);
    assert!(matches!(w.on_chunk(true, 500), WakeAction::Debounce));
    assert!(matches!(w.on_chunk(true, 1010), WakeAction::Respond));
}

fn chunk(samples: usize, detected: bool, speech: bool) -> EspChunk {
    EspChunk { samples, detected, speech }
}

#[test]
fn esp_session_records_until_silence() {
    let mut e = EspSession::new();
    assert!(e.listening());
    assert!(matches!(e.step(&chunk(1280, false, false), 0), EspAction::Idle));
    assert!(matches!(e.step(&chunk(1280, true, false), 100), EspAction::StartRecording));
    assert_eq!(e.recorded(), Some(1280));
    assert!(matches!(e.step(&chunk(8000, false, true), 600), EspAction::KeepRecording));
    assert_eq!(e.recorded(), Some(9280));
    assert!(matches!(e.step(&chunk(1000, false, false), 1200), EspAction::KeepRecording));
    match e.step(&chunk(1000, false, false), 1700) {
        EspAction::FinishRecording { keep } => assert_eq!(keep, 11280),
        _ => panic!("the recording should end after a second of silence"),
    }
    assert!(matches!(e.state, EspState::Transcribing));
    assert!(matches!(e.step(&chunk(1000, true, true), 1800), EspAction::Idle));
    e.transcription_finished(2000);
    assert!(matches!(e.step(&chunk(1000, true, true), 3000), EspAction::Idle));
    assert!(matches!(e.step(&chunk(1000, false, false), 7000), EspAction::Resume));
    assert!(e.listening());
    assert!(matches!(e.step(&chunk(1000, true, false), 7100), EspAction::StartRecording));
}

#[test]
fn esp_session_trims_long_recordings() {
    let mut e = EspSession::new();
    e.step(&chunk(16000, true, false), 0);
    match e.step(&chunk(16000, false, true), 5000) {
        EspAction::FinishRecording { keep } => assert_eq!(keep, 8000),
        _ => panic!("the recording should end at five seconds"),
    }
}

#[test]
fn ptt_session_messages() {
    let mut p = PttSession::new();
    assert!(matches!(p.on_message(0x12), PttAction::RejectEmpty));
    assert!(matches!(p.on_message(0x10), PttAction::StartRecording));
    assert!(matches!(p.on_message(0x11), PttAction::ReadSamples));
    p.on_samples(512);
    assert_eq!(p.buffered, 512);
    assert!(matches!(p.on_message(0x12), PttAction::Transcribe));
    assert_eq!(p.buffered, 0);
    assert!(matches!(p.on_message(0x42), PttAction::Disconnect));
}

#[test]
fn transcription_cleanup() {
    assert_eq!(normalize_transcription("  Turn ON the lights!!  "), "turn on the lights");
    assert_eq!(normalize_transcription("set-timer  for_5 minutes."), "set-timer for_5 minutes");
    assert_eq!(cut_at_punctuation("hello there. how are you?"), "hello there");
    assert_eq!(cut_at_punctuation("no stop"), "no stop");
}

#[test]
fn commands_for_transcriptions() {
    let p = command_for("lights on", true, "kitchen", &None).unwrap();
    assert_eq!(p.program, "yo");
    assert_eq!(p.args, vec!["do", "--room", "kitchen", "lights on"]);
    let p = command_for("lights on", true, "", &None).unwrap();
    assert_eq!(p.args, vec!["do", "lights on"]);
    let p = command_for("lights on", false, "", &Some("notify-send  -u low".to_string())).unwrap();
    assert_eq!(p.program, "notify-send");
    assert_eq!(p.args, vec!["-u", "low", "lights on"]);
    assert!(command_for("", true, "kitchen", &None).is_none());
    assert!(command_for("x", false, "", &None).is_none());
    assert!(command_for("x", false, "", &Some("   ".to_string())).is_none());
}

#[test]
fn recording_names() {
    assert_eq!(safe_client_id("room 'kitchen'"), "room__kitchen_");
    assert_eq!(recording_file_name("esp-1", 1700000000), "recordings/esp_esp_1_1700000000.raw");
}
