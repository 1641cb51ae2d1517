use cedict::models::{CERecord, Descriptor, Detail, PinyinMap};
use cedict::refine::{build_detail, refine_gloss, refine_records, Lookups};
use cedict::tables::get_abbreviations_from_file;

fn record(simplified: &str, traditional: &str, pinyin: &str, meanings: &[&str]) -> CERecord {
    CERecord {
        line: "".to_owned(),
        line_number: 1,
        meanings: meanings.iter().map(|m| m.to_string()).collect(),
        simplified: simplified.to_string(),
        traditional: traditional.to_string(),
        wade_giles_pinyin: pinyin.to_string(),
    }
}

fn lookups() -> Lookups {
    let mut lookups = Lookups::new();
    lookups.abbreviations = get_abbreviations_from_file(&vec![
        "交通大学;Shanghai Jiao Tong University;上海交通大學;上海交通大学;Shang4 hai3 Jiao1 tong1 Da4 xue2".to_string(),
        "交通大学;Xi'an Jiaotong University;西安交通大學;西安交通大学;Xi1 an1 Jiao1 tong1 Da4 xue2".to_string(),
    ]);
    lookups.pinyins.insert(
        "hao3".to_string(),
        PinyinMap { pinyin: "hǎo".to_string(), wade_giles: "hao3".to_string() },
    );
    lookups.pinyins.insert(
        "ge4".to_string(),
        PinyinMap { pinyin: "gè".to_string(), wade_giles: "ge4".to_string() },
    );
    lookups.strokes.insert("好".to_string(), 6);
    lookups.descriptors.insert(
        "好good".to_string(),
        Descriptor {
            simplified: "好".to_string(),
            pinyin: "hao3".to_string(),
            meaning: "good".to_string(),
            lexical_item: Some("adjective".to_string()),
            tags: Some(vec!["hsk-2-1".to_string(), "common".to_string()]),
        },
    );
    lookups.descriptors.insert(
        "好well".to_string(),
        Descriptor {
            simplified: "好".to_string(),
            pinyin: "hao3".to_string(),
            meaning: "well".to_string(),
            lexical_item: None,
            tags: Some(vec!["common".to_string(), "adverb".to_string()]),
        },
    );
    lookups
}

#[test]
fn should_refine_records() {
    let key = "交通大学".to_string();
    let expected = record(
        &key,
        "交通大學",
        "jiao1 tong1 da4 xue2",
        &["abbr. for 上海交通大學|上海交通大学 Shanghai Jiao Tong University, 西安交通大學|西安交通大学 Xia'an Jiaotong University, 國立交通大學|国立交通大学 National Chiao Tung University (Taiwan) etc"],
    );
    let groups = refine_records(&vec![expected.clone()], &lookups());
    let actual = &groups[0];
    let details = &actual.details[0];
    assert_eq!(groups.len(), 1);
    assert_eq!(actual.simplified, expected.simplified);
    assert_eq!(details.traditional, expected.traditional);
    let meanings = &details.meanings[0];
    assert_eq!(meanings.context.as_ref().unwrap().first().unwrap(), "abbreviation");
    assert_eq!(meanings.simplified.as_ref().unwrap(), "上海交通大学");
    assert_eq!(meanings.traditional.as_ref().unwrap(), "上海交通大學");
    assert_eq!(details.meanings.len(), 2);
}

#[test]
fn missing_abbreviation_target_drops_the_gloss() {
    let groups = refine_records(&vec![record("北大", "北大", "bei3 da4", &["abbr. for 北京大學|北京大学"])], &lookups());
    assert_eq!(groups[0].details[0].meanings.len(), 0);
}

#[test]
fn groups_keep_first_seen_order() {
    let records = vec![
        record("好", "好", "hao3", &["good"]),
        record("个", "個", "ge4", &["individual"]),
        record("好", "好", "hao4", &["to be fond of"]),
    ];
    let groups = refine_records(&records, &lookups());
    assert_eq!(groups.len(), 2);
    assert_eq!(groups[0].simplified, "好");
    assert_eq!(groups[0].simplified_stroke_count, Some(6));
    assert_eq!(groups[0].details.len(), 2);
    assert_eq!(groups[0].details[0].pronunciation[0].pinyin, "hǎo");
    assert_eq!(groups[0].details[1].pronunciation[0].wade_giles_pinyin, "hao4");
    assert_eq!(groups[1].simplified, "个");
    assert_eq!(groups[1].simplified_stroke_count, None);
}

#[test]
fn running_twice_gives_the_same_tree() {
    let records = vec![
        record("好", "好", "hao3", &["good", "well", "CL:個|个[ge4]"]),
        record("个", "個", "ge4", &["individual", "also pr. [ge3]"]),
    ];
    assert_eq!(refine_records(&records, &lookups()), refine_records(&records, &lookups()));
}

#[test]
fn descriptor_tags_are_merged_without_duplicates() {
    let detail = build_detail(&record("好", "好", "hao3", &["good", "well"]), &lookups());
    assert_eq!(detail.tags.unwrap(), vec!["hsk-2-1", "common", "adverb"]);
    assert_eq!(detail.meanings[0].lexical_item.as_deref(), Some("adjective"));
    assert_eq!(detail.meanings[1].lexical_item, None);
    assert_eq!(detail.simplified_stroke_count, Some(6));
    assert_eq!(detail.traditional_stroke_count, Some(6));
}

fn empty_detail() -> Detail {
    build_detail(&record("好", "好", "hao3", &[]), &lookups())
}

#[test]
fn classifiers_are_collected() {
    let mut detail = empty_detail();
    refine_gloss(&mut detail, &"好".to_string(), &"CL:個|个[ge4], 位[wei4]".to_string(), &lookups());
    let classifiers = detail.classifiers.unwrap();
    assert_eq!(classifiers.len(), 2);
    assert_eq!(classifiers[0].simplified, "個");
    assert_eq!(classifiers[0].traditional, "个");
    assert_eq!(classifiers[0].wade_giles_pinyin, "ge4");
    assert_eq!(classifiers[1].simplified, "位");
    assert_eq!(classifiers[1].traditional, "");
    assert_eq!(classifiers[1].wade_giles_pinyin, "wei4");
    assert_eq!(detail.meanings.len(), 0);
}

#[test]
fn also_pronounced_adds_a_reading() {
    let mut detail = empty_detail();
    refine_gloss(&mut detail, &"好".to_string(), &"also pr. [ge4]".to_string(), &lookups());
    assert_eq!(detail.pronunciation.len(), 2);
    assert_eq!(detail.pronunciation[1].pinyin, "gè");
    assert_eq!(detail.pronunciation[1].wade_giles_pinyin, "ge4");
    refine_gloss(&mut detail, &"好".to_string(), &"also pr. hou in Taiwan".to_string(), &lookups());
    assert_eq!(detail.pronunciation[2].other.as_deref(), Some("hou in Taiwan"));
    assert_eq!(detail.pronunciation[2].pinyin, "");
    assert_eq!(detail.meanings.len(), 0);
}

#[test]
fn also_written_sets_the_variant() {
    let mut detail = empty_detail();
    refine_gloss(&mut detail, &"好".to_string(), &"also written 擡|抬[tai2]".to_string(), &lookups());
    let variant = detail.variant.unwrap();
    assert_eq!(variant.simplified, "擡");
    assert_eq!(variant.traditional.as_deref(), Some("抬"));
    assert_eq!(variant.wade_giles_pinyin.as_deref(), Some("tai2"));
    assert_eq!(detail.meanings.len(), 0);
}

#[test]
fn also_written_without_reading() {
    let mut detail = empty_detail();
    refine_gloss(&mut detail, &"好".to_string(), &"also written 台".to_string(), &lookups());
    let variant = detail.variant.unwrap();
    assert_eq!(variant.simplified, "台");
    assert_eq!(variant.traditional, None);
    assert_eq!(variant.wade_giles_pinyin, None);
}

#[test]
fn plain_gloss_adds_one_sense() {
    let mut detail = empty_detail();
    refine_gloss(&mut detail, &"好".to_string(), &"nice".to_string(), &lookups());
    assert_eq!(detail.meanings.len(), 1);
    assert_eq!(detail.meanings[0].value.as_deref(), Some("nice"));
    assert_eq!(detail.tags, None);
}

#[test]
fn classifier_marker_must_lead_the_gloss() {
    let mut detail = empty_detail();
    refine_gloss(&mut detail, &"好".to_string(), &"used as in CL:個|个[ge4]".to_string(), &lookups());
    assert_eq!(detail.classifiers, None);
    assert_eq!(detail.meanings.len(), 1);
}
