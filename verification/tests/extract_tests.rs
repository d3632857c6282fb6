use gemini_srt::extract::extract_srt_content;

#[test]
fn test_extract_srt_no_code_block() {
    let input = "1\n00:00:00,000 --> 00:00:05,000\nHello World\n\n2\n00:00:05,000 --> 00:00:10,000\nThis is a test";
    let result = extract_srt_content(input);
    assert_eq!(result, input);
}

#[test]
fn test_extract_srt_with_srt_code_block() {
    let input = "Here is the SRT content:\n\n```srt\n1\n00:00:00,000 --> 00:00:05,000\nHello World\n\n2\n00:00:05,000 --> 00:00:10,000\nThis is a test\n```\n\nThat's all!";
    let expected = "1\n00:00:00,000 --> 00:00:05,000\nHello World\n\n2\n00:00:05,000 --> 00:00:10,000\nThis is a test";
    let result = extract_srt_content(input);
    assert_eq!(result, expected);
}

#[test]
fn test_extract_srt_with_generic_code_block() {
    let input = "```\n1\n00:00:00,000 --> 00:00:05,000\nHello World\n```";
    let expected = "1\n00:00:00,000 --> 00:00:05,000\nHello World";
    let result = extract_srt_content(input);
    assert_eq!(result, expected);
}

#[test]
fn test_extract_srt_with_multiple_code_blocks() {
    let input = "First block:\n```srt\n1\n00:00:00,000 --> 00:00:05,000\nFirst\n```\n\nSecond block:\n```\n2\n00:00:05,000 --> 00:00:10,000\nSecond\n```";
    // Should extract only the first SRT block
    let expected = "1\n00:00:00,000 --> 00:00:05,000\nFirst";
    let result = extract_srt_content(input);
    assert_eq!(result, expected);
}

#[test]
fn test_extract_srt_with_surrounding_text() {
    let input = "I've generated the following SRT file for you:\n\n```srt\n1\n00:00:00,000 --> 00:00:05,000\nHello\n```\n\nPlease review it.";
    let expected = "1\n00:00:00,000 --> 00:00:05,000\nHello";
    let result = extract_srt_content(input);
    assert_eq!(result, expected);
}

#[test]
fn test_extract_srt_empty_code_block() {
    let input = "```srt\n```";
    // When code block is empty, it falls back to returning the original
    let expected = "```srt\n```";
    let result = extract_srt_content(input);
    assert_eq!(result, expected);
}

#[test]
fn test_extract_srt_with_whitespace() {
    let input = "  Here is the content:  \n\n```srt\n1\n00:00:00,000 --> 00:00:05,000\nHello\n```  \n  ";
    let expected = "1\n00:00:00,000 --> 00:00:05,000\nHello";
    let result = extract_srt_content(input);
    assert_eq!(result, expected);
}

#[test]
fn test_extract_srt_with_explanation_after() {
    let input = "```srt\n1\n00:00:00,000 --> 00:00:05,000\nHello World\n```\n\nThis SRT file contains a simple greeting.";
    let expected = "1\n00:00:00,000 --> 00:00:05,000\nHello World";
    let result = extract_srt_content(input);
    assert_eq!(result, expected);
}

#[test]
fn test_extract_srt_with_backticks_in_content() {
    // Test case where SRT content might contain backticks as part of dialogue
    let input = "```srt\n1\n00:00:00,000 --> 00:00:05,000\nHe said `hello` to me\n```";
    let expected = "1\n00:00:00,000 --> 00:00:05,000\nHe said `hello` to me";
    let result = extract_srt_content(input);
    assert_eq!(result, expected);
}

#[test]
fn test_extract_srt_real_world_example() {
    let input = r#"I've generated the SRT subtitles for your audio file:

```srt
1
00:00:00,520 --> 00:00:03,910
これは最初の字幕です

2
00:00:04,150 --> 00:00:07,300
そして、これが2番目の字幕です
```

The subtitles have been properly timed and formatted."#;
    let expected = "1\n00:00:00,520 --> 00:00:03,910\nこれは最初の字幕です\n\n2\n00:00:04,150 --> 00:00:07,300\nそして、これが2番目の字幕です";
    let result = extract_srt_content(input);
    assert_eq!(result, expected);
}

#[test]
fn extract_single_caption_exact() {
    let result = extract_srt_content("```srt\n1\n00:00:00,000 --> 00:00:05,000\nHello world\n```");
    assert_eq!(result, "1\n00:00:00,000 --> 00:00:05,000\nHello world");
}

#[test]
fn extract_plain_text_unchanged() {
    let input = "just a plain sentence\nover two lines";
    assert_eq!(extract_srt_content(input), input);
}

#[test]
fn extract_is_idempotent_on_samples() {
    let samples = [
        "Here is it:\n```srt\nA\n```\ntrailing",
        "```\nB\n```",
        "no fences at all",
        "   padded   ",
        "```srt\n```",
        "```srt\nopener without closer",
        "",
        "First block:\n```srt\nFirst\n```\n```\nSecond\n```",
    ];
    for input in samples {
        let once = extract_srt_content(input);
        let twice = extract_srt_content(&once);
        assert_eq!(twice, once);
    }
}

#[test]
fn extract_opener_without_closer_returns_trimmed_input() {
    let input = "  ```srt\nno closer here  ";
    assert_eq!(extract_srt_content(input), "```srt\nno closer here");
}

#[test]
fn extract_prefers_tagged_block_after_generic() {
    let input = "```\ngeneric\n```\n```srt\ntagged\n```";
    assert_eq!(extract_srt_content(input), "tagged");
}

#[test]
fn extract_trims_blank_lines_inside_capture() {
    let input = "```srt\n\n  \npayload line\n   \n```";
    assert_eq!(extract_srt_content(input), "payload line");
}
