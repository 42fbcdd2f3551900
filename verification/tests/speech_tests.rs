use cortana::speech::{estimate_speech_duration_ms, is_emphatic, spoken_words, TtsEngine, TtsProvider};
use cortana::presence::PresenceMode;

#[test]
fn provider_names_map_to_providers() {
    assert_eq!(TtsProvider::from_str("elevenlabs"), TtsProvider::ElevenLabs);
    assert_eq!(TtsProvider::from_str("eleven_labs"), TtsProvider::ElevenLabs);
    assert_eq!(TtsProvider::from_str("silent"), TtsProvider::Silent);
    assert_eq!(TtsProvider::from_str("none"), TtsProvider::Silent);
    assert_eq!(TtsProvider::from_str("system"), TtsProvider::System);
    assert_eq!(TtsProvider::from_str("other"), TtsProvider::System);
}

#[test]
fn silent_engine_does_not_speak() {
    assert!(!TtsEngine::new(TtsProvider::Silent).speaks(true));
    assert!(TtsEngine::new(TtsProvider::System).speaks(true));
    assert!(TtsEngine::new(TtsProvider::ElevenLabs).speaks(true));
}

#[test]
fn no_speech_when_the_voice_cannot_start() {
    assert!(!TtsEngine::new(TtsProvider::System).speaks(false));
    assert!(!TtsEngine::new(TtsProvider::ElevenLabs).speaks(false));
    assert!(!TtsEngine::new(TtsProvider::Silent).speaks(false));
}

#[test]
fn speech_duration_counts_words_and_pauses() {
    assert_eq!(estimate_speech_duration_ms("Hello world, again."), 3 * 285 + 2 * 90);
}

#[test]
fn speech_duration_is_clamped() {
    assert_eq!(estimate_speech_duration_ms(""), 650);
    assert_eq!(estimate_speech_duration_ms("Hi"), 650);
    let long = "word ".repeat(50);
    assert_eq!(estimate_speech_duration_ms(&long), 12_000);
}

#[test]
fn speaking_is_not_interrupted() {
    assert_eq!(PresenceMode::Speaking.after_request(PresenceMode::Idle), PresenceMode::Speaking);
    assert_eq!(PresenceMode::Idle.after_request(PresenceMode::Thinking), PresenceMode::Thinking);
    assert_eq!(PresenceMode::Thinking.after_request(PresenceMode::Speaking), PresenceMode::Speaking);
}

#[test]
fn emphasis_on_exclamations_questions_and_capitals() {
    assert!(is_emphatic("now!"));
    assert!(is_emphatic("really?"));
    assert!(is_emphatic("NASA"));
    assert!(!is_emphatic("Hello"));
    assert!(!is_emphatic(""));
}

#[test]
fn words_split_on_whitespace() {
    assert_eq!(spoken_words("  Build\tcompleted\n now! "), vec!["Build", "completed", "now!"]);
}
