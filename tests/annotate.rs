use cedict::annotate::refine_meaning_record;

#[test]
fn should_handle_text() {
    let line = "to enjoy offered food and drink";
    let result = refine_meaning_record(&line).unwrap();
    assert_eq!(result.value.unwrap(), "to enjoy offered food and drink");
    assert_eq!(result.context, None);
}

#[test]
fn should_handle_text_with_variant() {
    let line = "variant of 邱吉爾|邱吉尔[Qiu1 ji2 er3]";
    let result = refine_meaning_record(&line).unwrap();
    assert_eq!(result.value, None);
    assert_eq!(result.context.unwrap()[0], "variant");
    assert_eq!(result.simplified.unwrap(), "邱吉爾");
    assert_eq!(result.traditional.unwrap(), "邱吉尔");
    assert_eq!(result.wade_giles_pinyin.unwrap(), "qiu1 ji2 er3");
}

#[test]
fn should_handle_text_with_idiom() {
    let line = "lit. family shames must not be spread abroad (idiom); fig. don't wash your dirty linen in public";
    let result = refine_meaning_record(&line).unwrap();
    assert_eq!(result.context.unwrap()[0], "literature");
    assert_eq!(result.lexical_item.unwrap(), "idiom");
    assert_eq!(result.value.unwrap(), "don't wash your dirty linen in public");
    assert_eq!(
        result.literal_meaning.unwrap(),
        "family shames must not be spread abroad"
    );
}

#[test]
fn should_handle_text_with_old_variant() {
    let line = "old variant of 陰|阴[yin1]";
    let result = refine_meaning_record(&line).unwrap();
    assert_eq!(result.context.unwrap(), vec!["old variant"]);
    assert_eq!(result.value, None);
    assert_eq!(result.simplified.unwrap(), "陰");
    assert_eq!(result.traditional.unwrap(), "阴");
    assert_eq!(result.wade_giles_pinyin.unwrap(), "yin1");
}

#[test]
fn should_handle_text_with_variant_no_trad() {
    let line = "variant of 款[kuan3]";
    let result = refine_meaning_record(&line).unwrap();
    assert_eq!(result.context.unwrap(), vec!["variant"]);
    assert_eq!(result.value, None);
    assert_eq!(result.simplified.unwrap(), "款");
    assert_eq!(result.wade_giles_pinyin.unwrap(), "kuan3");
}

#[test]
fn should_handle_text_with_variant_and_description_curly_braces() {
    let line = "(variant of 閒|闲[xian2]) idle";
    let result = refine_meaning_record(&line).unwrap();
    assert_eq!(result.context.unwrap(), vec!["variant"]);
    assert_eq!(result.value.unwrap(), "idle");
    assert_eq!(result.simplified.unwrap(), "閒");
    assert_eq!(result.traditional.unwrap(), "闲");
    assert_eq!(result.wade_giles_pinyin.unwrap(), "xian2");
}

#[test]
fn should_handle_text_with_variant_and_description() {
    let line = "variant of 開國元勳|开国元勋, founding figure (of country or dynasty)";
    let result = refine_meaning_record(&line).unwrap();
    assert_eq!(result.context.unwrap(), vec!["variant"]);
    assert_eq!(
        result.value.unwrap(),
        "founding figure (of country or dynasty)"
    );
    assert_eq!(result.simplified.unwrap(), "開國元勳");
    assert_eq!(result.traditional.unwrap(), "开国元勋");
}

#[test]
fn should_handle_text_with_japanese_and_variant() {
    let line = "Japanese variant of 劍|剑";
    let result = refine_meaning_record(&line).unwrap();
    assert_eq!(result.context.unwrap(), vec!["Japanese", "variant"]);
    assert_eq!(result.value, None);
    assert_eq!(result.simplified.unwrap(), "劍");
    assert_eq!(result.traditional.unwrap(), "剑");
}

#[test]
fn should_handle_text_with_two_contexts() {
    let line = "(coll.) (Tw) don't mention it";
    let result = refine_meaning_record(&line).unwrap();
    assert_eq!(result.context.unwrap(), vec!["colloquial", "taiwan"]);
    assert_eq!(result.value.unwrap(), "don't mention it");
}

#[test]
fn should_handle_text_with_variant_and_context() {
    let result = refine_meaning_record("(Internet slang) variant of 辱華|辱华[ru3 hua2], to insult China").unwrap();
    assert_eq!(result.context.unwrap(), vec!["Internet slang"]);
    assert_eq!(
        result.value.unwrap(),
        "variant of 辱華|辱华[ru3 hua2], to insult China"
    );
    assert_eq!(result.simplified, None);
}

#[test]
fn japanese_variant_has_no_transcription() {
    let result = refine_meaning_record("Japanese variant of 劍|剑").unwrap();
    assert_eq!(result.wade_giles_pinyin, None);
}

#[test]
fn idiom_elaboration_splits_literal_meaning() {
    let result =
        refine_meaning_record("to draw a snake and add feet (idiom, from Warring States); to ruin it by adding something superfluous")
            .unwrap();
    assert_eq!(result.context, None);
    assert_eq!(result.literal_meaning.unwrap(), "to draw a snake and add feet");
    assert_eq!(
        result.value.unwrap(),
        "to ruin it by adding something superfluous"
    );
}

#[test]
fn bare_idiom_without_semicolon() {
    let result = refine_meaning_record("lit. as if weeping and complaining (idiom)").unwrap();
    assert_eq!(result.lexical_item.unwrap(), "idiom");
    assert_eq!(result.context.unwrap(), vec!["literature"]);
    assert_eq!(result.value.unwrap(), "as if weeping and complaining");
    assert_eq!(result.literal_meaning, None);
}

#[test]
fn bare_literal_marker() {
    let result = refine_meaning_record("lit. white horse").unwrap();
    assert_eq!(result.context.unwrap(), vec!["literature"]);
    assert_eq!(result.value.unwrap(), "white horse");
}

#[test]
fn see_reference_is_parsed() {
    let result = refine_meaning_record("see 烏魯木齊|乌鲁木齐[Wu1 lu3 mu4 qi2]").unwrap();
    assert_eq!(result.context.unwrap(), vec!["see"]);
    assert_eq!(result.value, None);
    assert_eq!(result.simplified.unwrap(), "烏魯木齊");
    assert_eq!(result.traditional.unwrap(), "乌鲁木齐");
    assert_eq!(result.wade_giles_pinyin.unwrap(), "wu1 lu3 mu4 qi2");
}

#[test]
fn see_also_reference_is_parsed() {
    let result = refine_meaning_record("see also 好[hao3]").unwrap();
    assert_eq!(result.context.unwrap(), vec!["see also"]);
    assert_eq!(result.simplified.unwrap(), "好");
    assert_eq!(result.traditional, None);
    assert_eq!(result.wade_giles_pinyin.unwrap(), "hao3");
}

#[test]
fn unparseable_see_degrades_to_text() {
    let result = refine_meaning_record("see below").unwrap();
    assert_eq!(result.context, None);
    assert_eq!(result.value.unwrap(), "below");
    assert_eq!(result.simplified, None);
}

#[test]
fn unparseable_variant_degrades_to_text() {
    let result = refine_meaning_record("variant of something else").unwrap();
    assert_eq!(result.context, None);
    assert_eq!(result.value.unwrap(), "something else");
}

#[test]
fn single_abbreviation_with_reference() {
    let result = refine_meaning_record("abbr. 北京大學|北京大学[Bei3 jing1 Da4 xue2], Peking University").unwrap();
    assert_eq!(result.context.unwrap(), vec!["abbreviation"]);
    assert_eq!(result.simplified.unwrap(), "北京大學");
    assert_eq!(result.traditional.unwrap(), "北京大学");
    assert_eq!(result.wade_giles_pinyin.unwrap(), "bei3 jing1 da4 xue2");
    assert_eq!(result.value.unwrap(), "Peking University");
}

#[test]
fn single_abbreviation_without_reference() {
    let result = refine_meaning_record("abbr. of a longer name").unwrap();
    assert_eq!(result.context.unwrap(), vec!["abbreviation"]);
    assert_eq!(result.value.unwrap(), "of a longer name");
}

#[test]
fn empty_gloss_gives_one_plain_sense() {
    let result = refine_meaning_record("").unwrap();
    assert_eq!(result.value.unwrap(), "");
    assert_eq!(result.context, None);
}

#[test]
fn plain_text_is_trimmed() {
    let result = refine_meaning_record("  to run  ").unwrap();
    assert_eq!(result.value.unwrap(), "to run");
}

#[test]
fn later_idiom_elaboration_is_found() {
    let result = refine_meaning_record("(idiom) a (idiom, fig.) b; c").unwrap();
    assert_eq!(result.lexical_item, None);
    assert_eq!(result.literal_meaning.unwrap(), "(idiom) a  b");
    assert_eq!(result.value.unwrap(), "c");
}

#[test]
fn reference_transcription_is_lowered_in_unicode() {
    let result = refine_meaning_record("see 綠|绿[LÜ4]").unwrap();
    assert_eq!(result.wade_giles_pinyin.unwrap(), "lü4");
}
