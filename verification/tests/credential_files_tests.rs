use gemini_srt::credential::api_key_preview;
use gemini_srt::credential::credential_or_empty;
use gemini_srt::credential::validate_api_key;
use gemini_srt::files::dictionary_file_name;
use gemini_srt::files::sanitize_file_name;
use gemini_srt::files::srt_file_name;
use gemini_srt::files::strip_suffix_repeated;
use gemini_srt::files::u64_to_decimal;

#[test]
fn blank_credentials_are_invalid() {
    assert!(!validate_api_key(""));
    assert!(!validate_api_key("   \t\n"));
    assert!(validate_api_key("k"));
    assert!(validate_api_key("  k  "));
}

#[test]
fn preview_masks_all_but_last_four() {
    assert_eq!(api_key_preview(""), "");
    assert_eq!(api_key_preview("   "), "");
    assert_eq!(api_key_preview("abcd"), "****");
    assert_eq!(api_key_preview("ab"), "****");
    assert_eq!(api_key_preview("abcde"), "****bcde");
    assert_eq!(api_key_preview("example-key-1234"), "****1234");
}

#[test]
fn missing_store_entry_is_the_empty_credential() {
    assert_eq!(credential_or_empty(None), "");
    assert_eq!(credential_or_empty(Some("stored".to_string())), "stored");
}

#[test]
fn sanitize_replaces_path_hostile_characters() {
    assert_eq!(sanitize_file_name("a/b\\c:d*e?f\"g<h>i|j"), "a_b_c_d_e_f_g_h_i_j");
    assert_eq!(sanitize_file_name("plain name.txt"), "plain name.txt");
    assert_eq!(sanitize_file_name(""), "");
}

#[test]
fn strip_suffix_removes_every_repetition() {
    assert_eq!(strip_suffix_repeated("notes.csv", ".csv"), "notes");
    assert_eq!(strip_suffix_repeated("notes.csv.csv", ".csv"), "notes");
    assert_eq!(strip_suffix_repeated("notes", ".csv"), "notes");
    assert_eq!(strip_suffix_repeated(".csv", ".csv"), "");
    assert_eq!(strip_suffix_repeated("notes.srt", ".csv"), "notes.srt");
}

#[test]
fn decimal_rendering_is_exact() {
    assert_eq!(u64_to_decimal(0), "0");
    assert_eq!(u64_to_decimal(7), "7");
    assert_eq!(u64_to_decimal(1234567890), "1234567890");
    assert_eq!(u64_to_decimal(u64::MAX), "18446744073709551615");
}

#[test]
fn dictionary_name_is_stripped_sanitized_and_timestamped() {
    assert_eq!(
        dictionary_file_name("terms.csv", 1700000000),
        "terms_dictionary_1700000000.csv"
    );
    assert_eq!(
        dictionary_file_name("a/b.csv", 5),
        "a_b_dictionary_5.csv"
    );
}

#[test]
fn srt_name_is_stripped_sanitized_and_timestamped() {
    assert_eq!(srt_file_name("talk.srt", 1700000000), "talk_1700000000.srt");
    assert_eq!(srt_file_name("a:b", 9), "a_b_9.srt");
}
