use img4schemaorg::text::{chars_of, split_spans, split_terminated_spans, trim_end_in};
use img4schemaorg::{
    div, div_creator, format_i32, gen_srcset, parse_arguments, parse_i32, render_schema,
    try_div_creator, ArgsError, RpcParams, RpcValue,
};

const SETTINGS: &str = "https://test.domain/assets/upload|test_div_all|test_div_all thumb description|test_div_all alt|test_div_all meta name|test_div_all meta description|1:1_320x320,640x640,1280x1280,1920x1920;4:3_320x240,640x480,1280x960,1920x1440;16:9_320x180,640x360,854x480,1280x720,1920x1080";

fn pieces(s: &str, sep: char) -> Vec<String> {
    let chars = chars_of(s);
    split_spans(&chars, 0, chars.len(), sep)
        .iter()
        .map(|&(a, b)| chars[a..b].iter().collect())
        .collect()
}

fn terminated_pieces(s: &str, sep: char) -> Vec<String> {
    let chars = chars_of(s);
    split_terminated_spans(&chars, 0, chars.len(), sep)
        .iter()
        .map(|&(a, b)| chars[a..b].iter().collect())
        .collect()
}

fn head(props: &str, path: &str, width: &str, height: &str) -> String {
    format!(
        "<div itemprop=\"image\" itemscope=\"\" itemtype=\"http://schema.org/ImageObject\" class=\"ImageObject_cont\">\n<img decoding=\"async\" itemprop=\"contentUrl\" sizes=\"(max-width: 1280px) 320px, 640px, 1280px\" {}\nsrc=\"{}/{}_1.jpg\"\nalt=\"{}\">\n<meta itemprop=\"name\" content=\"{}\">\n<meta itemprop=\"description\" content=\"{}\">\n<meta itemprop=\"width\" content=\"{}px\">\n<meta itemprop=\"height\" content=\"{}px\">\n",
        gen_srcset(path, pieces(props, '|')[1].as_str()),
        path,
        pieces(props, '|')[1],
        pieces(props, '|')[3],
        pieces(props, '|')[4],
        pieces(props, '|')[5],
        width,
        height
    )
}

#[test]
fn format_i32_spells_like_display() {
    for n in [0, 7, -7, 10, 1920, -305, i32::MAX, i32::MIN] {
        assert_eq!(format_i32(n), n.to_string());
    }
    assert_eq!(format_i32(-2147483648), "-2147483648");
    assert_eq!(format_i32(854), "854");
}

#[test]
fn parse_i32_accepts_what_str_parse_accepts() {
    assert_eq!(parse_i32("640"), Some(640));
    assert_eq!(parse_i32("+5"), Some(5));
    assert_eq!(parse_i32("-12"), Some(-12));
    assert_eq!(parse_i32("00012"), Some(12));
    assert_eq!(parse_i32("2147483647"), Some(i32::MAX));
    assert_eq!(parse_i32("-2147483648"), Some(i32::MIN));
}

#[test]
fn parse_i32_refuses_what_str_parse_refuses() {
    for s in ["", "-", "+", "12a", " 1", "1 ", "2147483648", "-2147483649", "99999999999999999999", "--1", "+-1", "1_0"] {
        assert_eq!(parse_i32(s), None, "{:?}", s);
        assert!(s.parse::<i32>().is_err());
    }
}

#[test]
fn format_then_parse_gives_the_number_back() {
    for n in [0, 1, -1, 9, 10, 99, 100, 12345, -98765, i32::MAX, i32::MIN] {
        assert_eq!(parse_i32(&format_i32(n)), Some(n));
    }
}

#[test]
fn parse_then_format_gives_canonical_text_back() {
    for s in ["0", "5", "-5", "320", "1080", "-2147483648", "2147483647"] {
        assert_eq!(format_i32(parse_i32(s).unwrap()), s);
    }
    // Not canonical: the spelling changes.
    assert_eq!(format_i32(parse_i32("+5").unwrap()), "5");
    assert_eq!(format_i32(parse_i32("007").unwrap()), "7");
}

#[test]
fn split_keeps_empty_pieces() {
    assert_eq!(pieces("a|b||c", '|'), vec!["a", "b", "", "c"]);
    assert_eq!(pieces("", '|'), vec![""]);
    assert_eq!(pieces("|", '|'), vec!["", ""]);
    assert_eq!(pieces("abc", '|'), vec!["abc"]);
}

#[test]
fn split_then_join_gives_the_text_back() {
    for s in ["a|b||c", "", "|", "||x|", "no separator"] {
        assert_eq!(pieces(s, '|').join("|"), s);
        let expected: Vec<&str> = s.split('|').collect();
        assert_eq!(pieces(s, '|'), expected);
    }
}

#[test]
fn split_terminated_drops_only_a_trailing_empty_piece() {
    assert_eq!(terminated_pieces("1:1_320x320;", ';'), vec!["1:1_320x320"]);
    assert_eq!(terminated_pieces("a;;", ';'), vec!["a", ""]);
    assert!(terminated_pieces("", ';').is_empty());
    for s in ["a;b", "a;b;", ";", ";;", "x"] {
        let expected: Vec<&str> = s.split_terminator(';').collect();
        assert_eq!(terminated_pieces(s, ';'), expected);
    }
}

#[test]
fn trim_end_drops_every_trailing_copy() {
    let chars = chars_of("https://a.b/c///");
    let e = trim_end_in(&chars, 0, chars.len(), '/');
    assert_eq!(chars[..e].iter().collect::<String>(), "https://a.b/c");
    let chars = chars_of("////");
    assert_eq!(trim_end_in(&chars, 0, chars.len(), '/'), 0);
}

#[test]
fn div_for_a_negative_and_a_large_number() {
    let d = div(-1, 2147483647, 0, -2147483648, "u", "f", "d");
    assert!(d.contains("href=\"u/f_-1_2147483647_0_1.jpg\""));
    assert!(d.contains("content=\"-2147483648px\""));
    assert!(d.ends_with("отношение сторон -1:2147483647.\">\n  </div>\n  "));
}

#[test]
fn gen_srcset_with_empty_parts() {
    assert_eq!(
        gen_srcset("", ""),
        "srcset=\"/_o_320_1.jpg 320w,\n/_o_640_1.jpg 640w,\n/_o_1280_1.jpg 1280w,\n/_o_1920_1.jpg 1920w\""
    );
}

#[test]
fn render_schema_with_the_path_given() {
    let out = render_schema(SETTINGS, "/assets/upload", "2048", "1536").unwrap();
    assert_eq!(out, div_creator(SETTINGS, "2048", "1536"));
    let other = render_schema(SETTINGS, "/elsewhere", "1", "2").unwrap();
    assert!(other.starts_with(&head(SETTINGS, "/elsewhere", "1", "2")));
    assert!(other.contains("href=\"https://test.domain/assets/upload/test_div_all_16_9_854_1.jpg\""));
}

#[test]
fn render_schema_refuses_too_few_fields() {
    assert_eq!(render_schema("a|b|c|d|e|f", "/", "1", "1"), None);
    assert_eq!(render_schema("", "/", "1", "1"), None);
}

#[test]
fn render_schema_ignores_fields_after_the_seventh() {
    let with_extra = format!("{}|extra|fields", SETTINGS);
    assert_eq!(
        render_schema(&with_extra, "/p", "1", "1"),
        render_schema(SETTINGS, "/p", "1", "1")
    );
}

#[test]
fn render_schema_refuses_malformed_ratio_lists() {
    let base = "https://test.domain/x|f|d|a|n|m|";
    for ratios in ["1:1", "1_320x320", "1:1_320", "1:1_320x", "a:1_320x320", "1:1_320xz", "1:1_99999999999x1"] {
        let props = format!("{}{}", base, ratios);
        assert_eq!(render_schema(&props, "/x", "1", "1"), None, "{:?}", ratios);
    }
}

#[test]
fn ratio_without_resolutions_is_not_read() {
    // The ratio numbers are read only for each resolution; with none, nothing fails.
    let props = "https://test.domain/x|f|d|a|n|m|bad:ratio__";
    let out = render_schema(props, "/x", "1", "1").unwrap();
    assert_eq!(out, format!("{}\n</div>", head(props, "/x", "1", "1")));
}

#[test]
fn empty_ratio_list_gives_no_thumbnails() {
    let props = "https://test.domain/x|f|d|a|n|m|";
    let out = render_schema(props, "/x", "10", "20").unwrap();
    assert_eq!(out, format!("{}\n</div>", head(props, "/x", "10", "20")));
    let with_terminator = "https://test.domain/x|f|d|a|n|m|1:1_5x5,;";
    let out = render_schema(with_terminator, "/x", "10", "20").unwrap();
    assert_eq!(out.matches("itemprop=\"thumbnail\"").count(), 1);
}

#[test]
fn short_first_field_falls_back_to_the_default_url() {
    let props = "http://x|f|d|a|n|m|1:1_5x5";
    let out = render_schema(props, "/p", "1", "1").unwrap();
    assert!(out.contains("href=\"https://test.domain/upload/images/f_1_1_5_1.jpg\""));
}

#[test]
fn first_field_length_is_counted_in_bytes() {
    // Five characters, ten bytes: long enough to be used.
    let props = "ééééé/|f|d|a|n|m|1:1_5x5";
    let out = render_schema(props, "/p", "1", "1").unwrap();
    assert!(out.contains("href=\"ééééé/f_1_1_5_1.jpg\""));
}

#[test]
fn trailing_slashes_of_the_url_are_dropped() {
    let props = "https://test.domain/up///|f|d|a|n|m|4:3_8x6";
    let out = render_schema(props, "/p", "1", "1").unwrap();
    assert!(out.contains("href=\"https://test.domain/up/f_4_3_8_1.jpg\""));
    assert!(out.contains("Размер фото 8x6, отношение сторон 4:3."));
}

#[test]
fn try_div_creator_agrees_with_div_creator() {
    assert_eq!(
        try_div_creator(SETTINGS, "2048", "1536"),
        Some(div_creator(SETTINGS, "2048", "1536"))
    );
}

#[test]
fn try_div_creator_refuses_an_unparsable_url() {
    let props = "not a url at all|f|d|a|n|m|1:1_5x5";
    assert_eq!(try_div_creator(props, "1", "1"), None);
}

#[test]
fn try_div_creator_refuses_malformed_settings() {
    assert_eq!(try_div_creator("https://test.domain/x|f", "1", "1"), None);
    assert_eq!(try_div_creator("https://test.domain/x|f|d|a|n|m|1:1_5", "1", "1"), None);
}

#[test]
fn url_path_comes_from_the_url_crate() {
    // The path is percent-encoded by the url crate; the thumbnail links keep the raw URL.
    let props = "https://Example.com/my pics|f|d|a|n|m|1:1_5x5";
    let out = try_div_creator(props, "1", "1").unwrap();
    assert!(out.contains("src=\"/my%20pics/f_1.jpg\""));
    assert!(out.contains("href=\"https://Example.com/my pics/f_1_1_5_1.jpg\""));
    let root = try_div_creator("https://example.com|f|d|a|n|m|", "1", "1").unwrap();
    assert!(root.contains("src=\"//f_1.jpg\""));
}

#[test]
fn parse_arguments_hands_back_all_strings() {
    let p = RpcParams::Array(vec![
        RpcValue::Str("key".to_string()),
        RpcValue::Str("img.jpg".to_string()),
    ]);
    assert_eq!(parse_arguments(p), Ok(vec!["key".to_string(), "img.jpg".to_string()]));
}

#[test]
fn parse_arguments_refusals() {
    assert_eq!(
        parse_arguments(RpcParams::Array(vec![RpcValue::Str("k".to_string()), RpcValue::Other])),
        Err(ArgsError::NotAString)
    );
    assert_eq!(parse_arguments(RpcParams::Array(vec![])), Err(ArgsError::MissingApiKey));
    assert_eq!(parse_arguments(RpcParams::Absent), Err(ArgsError::NotAnArray));
    assert_eq!(parse_arguments(RpcParams::Named), Err(ArgsError::NotAnArray));
}

#[test]
fn refusal_messages() {
    assert_eq!(ArgsError::NotAString.message(), "expecting strings");
    assert_eq!(ArgsError::NotAnArray.message(), "expecting an array of strings");
    assert_eq!(ArgsError::MissingApiKey.message(), "missing api key");
}

#[test]
fn thumbnails_repeat_canonical_numbers_as_written() {
    let props = "https://test.domain/x|f|d|a|n|m|16:9_854x480";
    let out = render_schema(props, "/x", "1", "1").unwrap();
    assert!(out.contains("href=\"https://test.domain/x/f_16_9_854_1.jpg\""));
    assert!(out.contains("Размер фото 854x480, отношение сторон 16:9."));
    // Leading zeros and plus signs are not canonical: the numbers are respelled.
    let props = "https://test.domain/x|f|d|a|n|m|+16:09_0854x480";
    let out = render_schema(props, "/x", "1", "1").unwrap();
    assert!(out.contains("href=\"https://test.domain/x/f_16_9_854_1.jpg\""));
}
