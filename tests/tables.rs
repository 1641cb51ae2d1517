use cedict::models::Descriptor;
use cedict::tables::{
    get1_lines_from_file, get_abbreviations_from_file, get_descriptors_from_file,
    get_lines_from_file, get_pinyins_map, get_radicals_from_file, get_row_from_file,
    get_stroke_order_map, parse_descriptor_line, update_descriptor, TableError, TagList,
};

fn lines(v: &[&str]) -> Vec<String> {
    v.iter().map(|s| s.to_string()).collect()
}

#[test]
fn should_get_abbreviations() {
    let result = get_abbreviations_from_file(&lines(&[
        "交通大学;Shanghai Jiao Tong University;上海交通大學;上海交通大学;Shang4 hai3",
        "北大;;北京大學;北京大学;",
        "交通大学;Xi'an Jiaotong University;西安交通大學;西安交通大学",
    ]));
    let abbreviations = result.get("交通大学").unwrap();
    assert_eq!(abbreviations[0].value.as_ref().unwrap(), "Shanghai Jiao Tong University");
    assert_eq!(abbreviations[0].simplified.as_ref().unwrap(), "上海交通大学");
    assert_eq!(abbreviations[0].traditional.as_ref().unwrap(), "上海交通大學");
    assert_eq!(abbreviations.len(), 2);
    assert_eq!(abbreviations[1].wade_giles_pinyin, None);
    let other = result.get("北大").unwrap();
    assert_eq!(other[0].value, None);
    assert_eq!(other[0].wade_giles_pinyin, None);
}

#[test]
fn stroke_counts_are_read() {
    let table = get_stroke_order_map(&lines(&["好 6", "一 1 ", "鬱 +29"])).unwrap();
    assert_eq!(table.get("好"), Some(&6));
    assert_eq!(table.get("一"), Some(&1));
    assert_eq!(table.get("鬱"), Some(&29));
}

#[test]
fn bad_stroke_count_is_an_error() {
    assert_eq!(get_stroke_order_map(&lines(&["好 6", "坏 x"])).err(), Some(TableError { line: 1 }));
    assert_eq!(get_stroke_order_map(&lines(&["好 256"])).err(), Some(TableError { line: 0 }));
    assert_eq!(get_stroke_order_map(&lines(&["好"])).err(), Some(TableError { line: 0 }));
}

#[test]
fn syllable_table_is_keyed_by_transcription() {
    let table = get_pinyins_map(&lines(&["rén ren2", "gōng gong1"])).unwrap();
    assert_eq!(table.get("ren2").unwrap().pinyin, "rén");
    assert_eq!(table.get("gong1").unwrap().wade_giles, "gong1");
    assert_eq!(get_pinyins_map(&lines(&["rén"])).err(), Some(TableError { line: 0 }));
}

#[test]
fn pairs_are_read() {
    let table = get1_lines_from_file(&lines(&["a, b", " c ,d "])).unwrap();
    assert_eq!(table.get("a").unwrap(), "b");
    assert_eq!(table.get("c").unwrap(), "d");
    assert_eq!(get1_lines_from_file(&lines(&["a"])).err(), Some(TableError { line: 0 }));
}

#[test]
fn descriptors_are_keyed_by_headword_and_gloss() {
    let table = get_descriptors_from_file(&lines(&[
        "好, hao3, good, adjective, hsk-2-1//common",
        "跑, pao3, to run",
    ]))
    .unwrap();
    let good = table.get("好good").unwrap();
    assert_eq!(good.lexical_item.as_deref(), Some("adjective"));
    assert_eq!(good.tags.as_ref().unwrap(), &vec!["hsk-2-1".to_string(), "common".to_string()]);
    let run = table.get("跑to run").unwrap();
    assert_eq!(run.lexical_item, None);
    assert_eq!(run.tags, None);
    assert_eq!(
        get_descriptors_from_file(&lines(&["好, hao3"])).err(),
        Some(TableError { line: 0 })
    );
}

#[test]
fn radicals_are_read() {
    let table = get_radicals_from_file(&lines(&["女;woman;3;nü3", "耳;ear;6;er3"])).unwrap();
    assert_eq!(table.get("女").unwrap().stroke_count, 3);
    assert_eq!(table.get("耳").unwrap().meaning, "ear");
    assert_eq!(get_radicals_from_file(&lines(&["女;woman;3"])).err(), Some(TableError { line: 0 }));
    assert_eq!(get_radicals_from_file(&lines(&["女;woman; 3;nü3"])).err(), Some(TableError { line: 0 }));
}

#[test]
fn word_lists_are_read() {
    let set = get_lines_from_file(&lines(&[" 好 ", "跑"]));
    assert!(set.contains("好"));
    assert!(set.contains("跑"));
    assert!(!set.contains(" 好 "));
}

#[test]
fn columns_are_read() {
    let set = get_row_from_file(&lines(&["1\t好\tx", "2\t跑", "3"]), 1, "\t");
    assert!(set.contains("好"));
    assert!(set.contains("跑"));
    assert_eq!(set.len(), 2);
    let set = get_row_from_file(&lines(&["a::b", "c::d"]), 1, "::");
    assert!(set.contains("b"));
    assert!(set.contains("d"));
}

#[test]
fn descriptor_gets_level_tags() {
    let mut descriptor: Descriptor = parse_descriptor_line("好, hao3, good, adjective, common").unwrap();
    let level1 = TagList { tag: "hsk-2-1".to_string(), words: get_lines_from_file(&lines(&["好"])) };
    let level2 = TagList { tag: "hsk-2-2".to_string(), words: get_lines_from_file(&lines(&["跑"])) };
    update_descriptor(&mut descriptor, &vec![level1, level2]);
    assert_eq!(descriptor.tags.unwrap(), vec!["common", "hsk-2-1"]);

    let mut bare: Descriptor = parse_descriptor_line("跳, tiao4, to jump").unwrap();
    update_descriptor(&mut bare, &vec![]);
    assert_eq!(bare.tags, None);
}

#[test]
fn syllable_list_is_ordered_and_distinct() {
    let list = cedict::tables::get_pinyins(&lines(&["rén ren2", "gōng gong1", "rén ren5", "ā a1"])).unwrap();
    let pinyins: Vec<&str> = list.iter().map(|p| p.pinyin.as_str()).collect();
    assert_eq!(pinyins, vec!["gōng", "rén", "ā"]);
    assert_eq!(list[1].wade_giles, "ren2");
    assert_eq!(
        cedict::tables::get_pinyins(&lines(&["rén ren2", "x"])).err(),
        Some(TableError { line: 1 })
    );
}

#[test]
fn descriptor_is_written_back() {
    let d = parse_descriptor_line("好, hao3, good, adjective, hsk-2-1/common").unwrap();
    assert_eq!(
        cedict::tables::format_descriptor(&d),
        "好, hao3, good, adjective, hsk-2-1/common"
    );
    let bare = parse_descriptor_line("跑, pao3, to run").unwrap();
    assert_eq!(cedict::tables::format_descriptor(&bare), "跑, pao3, to run, , ");
}

#[test]
fn empty_separator_splits_between_characters() {
    let set = get_row_from_file(&lines(&["ab"]), 1, "");
    assert!(set.contains("a"));
    assert_eq!(set.len(), 1);
    let set = get_row_from_file(&lines(&["ab"]), 3, "");
    assert!(set.contains(""));
}
