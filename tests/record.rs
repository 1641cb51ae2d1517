use cedict::record::{parse_ce_record, MalformedEntry};

#[test]
fn should_lowercase_pinyin() {
    let line = "万俟 万俟 [Mo4 qi2] /polysyllabic surname Moqi/";
    let result = parse_ce_record(&line, 1).unwrap();
    assert_eq!(result.wade_giles_pinyin, "mo4 qi2");
}

#[test]
fn parse_ce_record_should_return_struct() {
    let line = "如泣如訴 如泣如诉 [ru2 qi4 ru2 su4] /lit. as if weeping and complaining (idiom)/fig. mournful (music or singing)/";
    let result = parse_ce_record(&line, 1).unwrap();
    assert_eq!(result.simplified, "如泣如诉");
    assert_eq!(result.traditional, "如泣如訴");
    assert_eq!(result.wade_giles_pinyin, "ru2 qi4 ru2 su4");
    assert_eq!(result.meanings[0], "lit. as if weeping and complaining (idiom)");
    assert_eq!(result.meanings[1], "fig. mournful (music or singing)");
    assert_eq!(result.line_number, 1);
}

#[test]
fn test_should_return_struct() {
    let line = "如泣如訴 如泣如诉 [ru2 qi4 ru2 su4] /lit. as if weeping and complaining (idiom)/fig. mournful (music or singing)/";
    let result = parse_ce_record(&line, 1).unwrap();
    assert_eq!(result.simplified, "如泣如诉");
    assert_eq!(result.traditional, "如泣如訴");
    assert_eq!(result.wade_giles_pinyin, "ru2 qi4 ru2 su4");
    assert_eq!(result.meanings[0], "lit. as if weeping and complaining (idiom)");
    assert_eq!(result.meanings[1], "fig. mournful (music or singing)");
    assert_eq!(result.line_number, 1);
}

#[test]
fn gloss_count_matches_slashes() {
    let line = "好 好 [hao3] /good/well/proper/";
    let result = parse_ce_record(line, 7).unwrap();
    assert_eq!(result.meanings, vec!["good", "well", "proper"]);
    assert_eq!(result.line, line);
    assert_eq!(result.line_number, 7);
}

#[test]
fn irregular_syllables_are_respelled() {
    let result = parse_ce_record("綠 绿 [lu:4] /green/", 2).unwrap();
    assert_eq!(result.wade_giles_pinyin, "lv4");
    let result = parse_ce_record("略 略 [lu:e4] /brief/", 3).unwrap();
    assert_eq!(result.wade_giles_pinyin, "lve4");
}

#[test]
fn malformed_line_is_reported() {
    assert_eq!(
        parse_ce_record("not a dictionary line", 5),
        Err(MalformedEntry { line_number: 5 })
    );
    assert_eq!(
        parse_ce_record("好 好 [hao3] good", 6),
        Err(MalformedEntry { line_number: 6 })
    );
    assert_eq!(
        parse_ce_record("好 好 [hao3] /", 8),
        Err(MalformedEntry { line_number: 8 })
    );
}

#[test]
fn empty_gloss_between_slashes_is_kept() {
    let result = parse_ce_record("好 好 [hao3] /a//b/", 1).unwrap();
    assert_eq!(result.meanings, vec!["a", "", "b"]);
}

#[test]
fn comments_are_skipped_and_malformed_lines_reported() {
    let lines: Vec<String> = vec![
        "# CC-CEDICT".to_string(),
        "好 好 [hao3] /good/".to_string(),
        "broken".to_string(),
        "跑 跑 [pao3] /to run/".to_string(),
    ];
    let (records, malformed) = cedict::record::try_get_ce_dict_records(&lines);
    assert_eq!(records.len(), 2);
    assert_eq!(records[0].line_number, 1);
    assert_eq!(records[1].line_number, 3);
    assert_eq!(records[1].simplified, "跑");
    assert_eq!(malformed, vec![MalformedEntry { line_number: 2 }]);
}

#[test]
fn transcription_is_lowered_in_unicode() {
    let result = parse_ce_record("a b [Ü] /x/", 1).unwrap();
    assert_eq!(result.wade_giles_pinyin, "ü");
}
