use nd_lyrics::format::lrc::format_timestamp;
use nd_lyrics::providers::yrc::to_enhanced_lrc;

fn check(yrc: &str, expected: &str) {
    assert_eq!(to_enhanced_lrc(yrc), expected);
}

#[test]
fn yrc_test_format_timestamp() {
    assert_eq!(format_timestamp(0), "00:00.00");
    assert_eq!(format_timestamp(736), "00:00.74");
    assert_eq!(format_timestamp(65_000), "01:05.00");
}

#[test]
fn test_convert_word_timing_absolute() {
    let yrc = "[0,2210](0,736,0)foo(736,736,0)bar(1472,736,0)baz";
    assert_eq!(
        to_enhanced_lrc(yrc),
        "[00:00.00]<00:00.00>foo<00:00.74>bar<00:01.47>baz<00:02.21>"
    );
}

#[test]
fn test_convert_multiple_lines() {
    let yrc = "[4890,6250](4890,270,0)foo(5160,270,0)：\n[11140,3260](11140,270,0)bar";
    assert_eq!(
        to_enhanced_lrc(yrc),
        "[00:04.89]<00:04.89>foo<00:05.16>：<00:05.43>\n[00:11.14]<00:11.14>bar<00:11.41>"
    );
}

#[test]
fn yrc_test_convert_closes_last_word() {
    let yrc = "[0,1000](0,500,0)hi";
    assert_eq!(to_enhanced_lrc(yrc), "[00:00.00]<00:00.00>hi<00:00.50>");
}

#[test]
fn test_skips_json_metadata_lines() {
    let yrc = "{\"t\":0,\"c\":[{\"tx\":\"foo: \"}]}\n[0,1000](0,500,0)hi";
    assert_eq!(to_enhanced_lrc(yrc), "[00:00.00]<00:00.00>hi<00:00.50>");
}

#[test]
fn test_keeps_fullwidth_parens_in_text() {
    let yrc = "[0,1000](0,500,0)（foo）";
    assert_eq!(
        to_enhanced_lrc(yrc),
        "[00:00.00]<00:00.00>（foo）<00:00.50>"
    );
}

#[test]
fn yrc_test_convert_empty() {
    assert_eq!(to_enhanced_lrc(""), "");
}

#[test]
fn yrc_line_to_elrc() {
    check(
        "[0,2210](0,736,0)foo(736,736,0)bar(1472,736,0)baz",
        "[00:00.00]<00:00.00>foo<00:00.74>bar<00:01.47>baz<00:02.21>",
    );
}

#[test]
fn yrc_multiple_lines_to_elrc() {
    check(
        "[4890,6250](4890,270,0)foo(5160,270,0)：\n[11140,3260](11140,270,0)bar",
        "[00:04.89]<00:04.89>foo<00:05.16>：<00:05.43>\n[00:11.14]<00:11.14>bar<00:11.41>",
    );
}

#[test]
fn yrc_last_word_is_closed() {
    check("[0,1000](0,500,0)hi", "[00:00.00]<00:00.00>hi<00:00.50>");
}

#[test]
fn skips_json_metadata_lines() {
    check(
        "{\"t\":0,\"c\":[{\"tx\":\"foo: \"}]}\n[0,1000](0,500,0)hi",
        "[00:00.00]<00:00.00>hi<00:00.50>",
    );
}

#[test]
fn keeps_parens_in_text() {
    check(
        "[0,1000](0,500,0)（foo）",
        "[00:00.00]<00:00.00>（foo）<00:00.50>",
    );
}

#[test]
fn yrc_empty_check() {
    check("", "");
}

#[test]
fn word_times_past_i64_are_read_as_u64() {
    check(
        "[5000000000000000000,1](5000000000000000000,5000000000000000000,0)hi",
        "[83333333333333:20.00]<83333333333333:20.00>hi<166666666666666:40.00>",
    );
}

#[test]
fn a_word_end_past_u64_is_refused() {
    assert!(nd_lyrics::providers::yrc::to_enhanced_lrc_checked(
        "[0,1](18446744073709551615,1,0)hi"
    )
    .is_none());
}
