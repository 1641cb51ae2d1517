use cedict::models::PinyinMap;
use cedict::pinyin::{syllable_of_lowered, to_pinyin};
use cedict::StringHashMap;

fn table() -> StringHashMap<PinyinMap> {
    let mut pinyin_map: StringHashMap<PinyinMap> = StringHashMap::new();
    pinyin_map.insert(
        "ren2".to_string(),
        PinyinMap {
            pinyin: "rén".to_string(),
            wade_giles: "ren2".to_string(),
        },
    );
    pinyin_map.insert(
        "gong1".to_string(),
        PinyinMap {
            pinyin: "gōng".to_string(),
            wade_giles: "gong1".to_string(),
        },
    );
    pinyin_map.insert(
        "lv4".to_string(),
        PinyinMap {
            pinyin: "lǜ".to_string(),
            wade_giles: "lv4".to_string(),
        },
    );
    pinyin_map
}

#[test]
fn should_convert() {
    let wade_giles_pinyin = "ren2 gong1";
    let pinyin_map = table();
    let result = to_pinyin(wade_giles_pinyin, &pinyin_map);
    assert_eq!(result, "rén gōng");
}

#[test]
fn missing_syllable_passes_through() {
    let result = to_pinyin("ren2 xyz9", &table());
    assert_eq!(result, "rén xyz9");
}

#[test]
fn letters_and_punctuation_pass_through() {
    let result = to_pinyin("K ge1 · ren2 ,", &table());
    assert_eq!(result, "k ge1 · rén ,");
}

#[test]
fn irregular_syllable_is_respelled_before_lookup() {
    assert_eq!(to_pinyin("Lu:4", &table()), "lǜ");
}

#[test]
fn capitals_are_lowered_and_spaces_collapsed() {
    assert_eq!(to_pinyin("  REN2   Gong1 ", &table()), "rén gōng");
}

#[test]
fn empty_transcription_gives_empty_pronunciation() {
    assert_eq!(to_pinyin("", &table()), "");
}

#[test]
fn non_ascii_letters_are_lowered() {
    let empty: StringHashMap<PinyinMap> = StringHashMap::new();
    assert_eq!(to_pinyin("É", &empty), "é");
    assert_eq!(to_pinyin("Ü", &empty), "ü");
    assert_eq!(to_pinyin("LÜ4 Ren2", &table()), "lü4 rén");
}

#[test]
fn lowered_syllable_is_looked_up() {
    assert_eq!(syllable_of_lowered("lu:4", false, &table()), "lǜ");
    assert_eq!(syllable_of_lowered("ren2", false, &table()), "rén");
    assert_eq!(syllable_of_lowered("x", true, &table()), "x");
    assert_eq!(syllable_of_lowered("·", false, &table()), "·");
    assert_eq!(syllable_of_lowered("zzz", false, &table()), "zzz");
}
