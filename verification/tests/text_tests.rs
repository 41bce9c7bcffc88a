use typezero_core::history::BackendError;
use typezero_core::text::{decimal_string, is_blank, is_english_tag, join_with_spaces, wav_file_name};
use typezero_core::translation::{TranslationManager, TranslationRoute};

#[test]
fn decimal_rendering_matches_standard_formatting() {
    assert_eq!(decimal_string(0), "0");
    assert_eq!(decimal_string(7), "7");
    assert_eq!(decimal_string(42), "42");
    assert_eq!(decimal_string(1700000000), "1700000000");
    assert_eq!(decimal_string(-1), "-1");
    assert_eq!(decimal_string(-9870), "-9870");
    assert_eq!(decimal_string(i64::MAX), "9223372036854775807");
    assert_eq!(decimal_string(i64::MIN), "-9223372036854775808");
}

#[test]
fn wav_file_names_carry_prefix_and_timestamp() {
    assert_eq!(wav_file_name("meeting-", 123), "meeting-123.wav");
    assert_eq!(wav_file_name("typezero-", 1700000000), "typezero-1700000000.wav");
    assert_eq!(wav_file_name("tts-", -5), "tts--5.wav");
}

#[test]
fn blankness_matches_trimmed_emptiness() {
    assert!(is_blank(""));
    assert!(is_blank("   "));
    assert!(is_blank(" \t\r\n"));
    assert!(is_blank("\u{00A0}\u{2003}"));
    assert!(!is_blank(" a "));
    assert!(!is_blank("word"));
}

#[test]
fn joining_matches_space_separated_concatenation() {
    assert_eq!(join_with_spaces(&vec![]), "");
    assert_eq!(join_with_spaces(&vec!["solo".to_string()]), "solo");
    assert_eq!(
        join_with_spaces(&vec!["hello".to_string(), "world".to_string()]),
        "hello world"
    );
    assert_eq!(
        join_with_spaces(&vec!["a".to_string(), "".to_string(), "c".to_string()]),
        "a  c"
    );
}

#[test]
fn english_tags_route_to_native_translation() {
    assert!(is_english_tag("en"));
    assert!(is_english_tag("EN"));
    assert!(is_english_tag("eN"));
    assert!(is_english_tag("english"));
    assert!(is_english_tag("English"));
    assert!(is_english_tag("ENGLISH"));
    assert!(!is_english_tag("fr"));
    assert!(!is_english_tag("german"));
    assert!(!is_english_tag("eng"));

    let t = TranslationManager::new();
    assert_eq!(t.translation_route("English"), TranslationRoute::WhisperTranslate);
    assert_eq!(t.translation_route("ja"), TranslationRoute::ExternalModel);
}

#[test]
fn capture_checks_reject_missing_or_empty_buffers() {
    let t = TranslationManager::new();
    assert_eq!(t.check_captured_samples(None), Err(BackendError::CaptureUnavailable));
    assert_eq!(t.check_captured_samples(Some(0)), Err(BackendError::CaptureUnavailable));
    assert_eq!(t.check_captured_samples(Some(8000)), Ok(8000));

    assert!(t.start_capture(true).is_ok());
    assert_eq!(t.start_capture(false), Err(BackendError::CaptureUnavailable));
}

#[test]
fn prompts_match_the_request_shapes() {
    let t = TranslationManager::new();
    assert_eq!(
        t.build_translation_prompt("fr", "good morning"),
        "Translate to fr. Return ONLY translation: good morning"
    );
    assert_eq!(
        t.build_translate_text_prompt("en", "de", "hello"),
        "Translate the following from en to de. Return ONLY the translation.\n\nText: hello"
    );
}

#[test]
fn translation_falls_back_to_the_original_text() {
    let t = TranslationManager::new();
    assert_eq!(
        t.select_translation(Ok(Some("bonjour".to_string())), "hello"),
        "bonjour"
    );
    assert_eq!(t.select_translation(Ok(None), "hello"), "hello");
    assert_eq!(
        t.select_translation(Err("connection refused".to_string()), "hello"),
        "hello"
    );
}
