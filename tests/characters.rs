use cedict::characters::{get_single_characters, is_cjk, parse_decomposition};
use cedict::models::{CERecord, Radical};
use cedict::StringHashMap;

#[test]
fn test_should_return_true() {
    let char = "半".chars().next().unwrap();
    let result = is_cjk(&char);
    assert!(result == true)
}

#[test]
fn test_should_return_false() {
    let char = "a".chars().next().unwrap();
    let result = is_cjk(&char);
    assert!(result == false)
}

#[test]
fn is_cjk_should_return_true() {
    let char = "半".chars().next().unwrap();
    let result = is_cjk(&char);
    assert!(result == true)
}

#[test]
fn is_cjk_should_return_false() {
    let char = "a".chars().next().unwrap();
    let result = is_cjk(&char);
    assert!(result == false)
}

#[test]
fn cjk_block_edges() {
    assert!(is_cjk(&'\u{4E00}'));
    assert!(is_cjk(&'\u{9FFF}'));
    assert!(!is_cjk(&'\u{A000}'));
    assert!(is_cjk(&'\u{2F800}'));
    assert!(!is_cjk(&'\u{2FA20}'));
}

fn radical(value: &str, meaning: &str) -> Radical {
    Radical {
        stroke_count: 1,
        meaning: meaning.to_string(),
        value: value.to_string(),
        pinyin: "".to_string(),
    }
}

#[test]
fn should_handle_empty() {
    let lookup: StringHashMap<Radical> = StringHashMap::new();
    let line = "𬬸";
    let result = parse_decomposition(&line, &lookup);
    assert!(result.is_none());
}

#[test]
fn should_create_decomposition() {
    let mut lookup: StringHashMap<Radical> = StringHashMap::new();
    lookup.insert("女".to_string(), radical("女", "woman"));
    lookup.insert("耳".to_string(), radical("耳", "ear"));
    lookup.insert("又".to_string(), radical("又", "right hand"));

    let line = "娵;女, 取;女 (woman), 耳 (ear), 又 (right hand);㇛, 一, 丿, 二, 丨, 二, ㇇, ㇏";
    let result = parse_decomposition(&line, &lookup).unwrap();
    let expected_radicals = vec![
        radical("女", "woman"),
        radical("耳", "ear"),
        radical("又", "right hand"),
    ];

    assert_eq!(result.radical, expected_radicals);
    assert_eq!(
        result.graphical,
        vec!["㇛", "一", "丿", "二", "丨", "二", "㇇", "㇏"]
    );
}

#[test]
fn unknown_radical_gives_no_decomposition() {
    let lookup: StringHashMap<Radical> = StringHashMap::new();
    let line = "娵;女, 取;女 (woman);㇛";
    assert!(parse_decomposition(line, &lookup).is_none());
}

fn record(simplified: &str, traditional: &str) -> CERecord {
    CERecord {
        line_number: 1,
        line: String::new(),
        simplified: simplified.to_string(),
        traditional: traditional.to_string(),
        wade_giles_pinyin: String::new(),
        meanings: Vec::new(),
    }
}

#[test]
fn single_characters_are_distinct_and_ordered() {
    let records = vec![
        record("学", "學"),
        record("学习", "學習"),
        record("a", "a"),
        record("学", "学"),
        record("马", "馬"),
    ];
    assert_eq!(get_single_characters(&records), vec!['学', '學', '马', '馬']);
}
