//! The phonetic normalizer: transcription syllables to accented pronunciation.

use crate::models::{PinyinMap, PinyinMapView};
use crate::text::{
    alphabetic_of, chars_of, is_alphabetic, join, join_exec, lower_exec, lower_of, same_text,
    string_of, views, words, words_exec,
};
use vstd::hash_map::StringHashMap;
use vstd::prelude::*;

verus! {

/// The canonical spelling of an irregular syllable (`u:` written as `v`).
pub open spec fn respell(t: Seq<char>) -> Seq<char> {
    if t == "lu:4"@ {
        "lv4"@
    } else if t == "lu:3"@ {
        "lv3"@
    } else if t == "lu:2"@ {
        "lv2"@
    } else if t == "lu:e4"@ {
        "lve4"@
    } else if t == "nu:e4"@ {
        "nve4"@
    } else {
        t
    }
}

pub fn respell_exec(t: Vec<char>) -> (r: Vec<char>)
    ensures
        r@ == respell(t@),
{
    if same_text(&t, "lu:4") {
        chars_of("lv4")
    } else if same_text(&t, "lu:3") {
        chars_of("lv3")
    } else if same_text(&t, "lu:2") {
        chars_of("lv2")
    } else if same_text(&t, "lu:e4") {
        chars_of("lve4")
    } else if same_text(&t, "nu:e4") {
        chars_of("nve4")
    } else {
        t
    }
}

/// The syllable table seen through the views of its entries.
pub open spec fn table_view(m: Map<Seq<char>, PinyinMap>) -> Map<Seq<char>, PinyinMapView> {
    m.map_values(|p: PinyinMap| p@)
}

/// The accented form of a token already in small letters: a single letter
/// (`single_letter`), the interpunct and the comma pass through; other tokens
/// are respelled and looked up, and pass through when the table lacks them.
pub open spec fn syllable_lowered(
    l: Seq<char>,
    single_letter: bool,
    table: Map<Seq<char>, PinyinMapView>,
) -> Seq<char> {
    if single_letter {
        l
    } else if l == "·"@ || l == ","@ {
        l
    } else if table.contains_key(respell(l)) {
        table[respell(l)].pinyin
    } else {
        respell(l)
    }
}

/// The accented form of one transcription token: its small-letter form,
/// passed through when that is one alphabetic character.
pub open spec fn syllable(t: Seq<char>, table: Map<Seq<char>, PinyinMapView>) -> Seq<char> {
    let l = lower_of(t);
    syllable_lowered(l, l.len() == 1 && alphabetic_of(l[0]), table)
}

/// The accented pronunciation of a whole transcription, token by token,
/// joined with single spaces.
pub open spec fn pinyin_of(s: Seq<char>, table: Map<Seq<char>, PinyinMapView>) -> Seq<char> {
    join(words(s).map_values(|w: Seq<char>| syllable(w, table)), ' ')
}

/// The accented form of a token already in small letters; `single_letter`
/// tells whether it is one alphabetic character.
pub fn syllable_of_lowered(l: &str, single_letter: bool, table: &StringHashMap<PinyinMap>) -> (r:
    String)
    ensures
        r@ == syllable_lowered(l@, single_letter, table_view(table@)),
{
    let v = chars_of(l);
    if single_letter || same_text(&v, "·") || same_text(&v, ",") {
        return string_of(&v);
    }
    let r = string_of(&respell_exec(v));
    match table.get(r.as_str()) {
        Some(p) => p.pinyin.clone(),
        None => r,
    }
}

fn syllable_exec(t: &Vec<char>, table: &StringHashMap<PinyinMap>) -> (r: Vec<char>)
    ensures
        r@ == syllable(t@, table_view(table@)),
{
    let l = lower_exec(t);
    let single_letter = l.len() == 1 && is_alphabetic(l[0]);
    let s = syllable_of_lowered(string_of(&l).as_str(), single_letter, table);
    chars_of(s.as_str())
}

/// Converts a space-separated transcription into accented pronunciation using
/// the syllable table. Never fails: a token the table lacks is kept as it is.
pub fn to_pinyin(wade_giles_pinyin: &str, pinyin_map: &StringHashMap<PinyinMap>) -> (r: String)
    ensures
        r@ == pinyin_of(wade_giles_pinyin@, table_view(pinyin_map@)),
{
    let s = chars_of(wade_giles_pinyin);
    let ws = words_exec(&s);
    let mut out: Vec<Vec<char>> = Vec::new();
    let mut i: usize = 0;
    while i < ws.len()
        invariant
            i <= ws.len(),
            views(ws@) == words(s@),
            views(out@) == views(ws@).take(i as int).map_values(|w: Seq<char>| syllable(w, table_view(pinyin_map@))),
        decreases ws.len() - i,
    {
        let y = syllable_exec(&ws[i], pinyin_map);
        let ghost old_out = out@;
        out.push(y);
        assert(views(out@) =~= views(old_out).push(y@));
        assert(views(ws@).take(i + 1).map_values(|w: Seq<char>| syllable(w, table_view(pinyin_map@))) =~= views(ws@).take(i as int).map_values(|w: Seq<char>| syllable(w, table_view(pinyin_map@))).push(
            syllable(ws@[i as int]@, table_view(pinyin_map@)),
        ));
        i += 1;
    }
    assert(views(ws@).take(ws.len() as int) =~= views(ws@));
    string_of(&join_exec(&out, ' '))
}

} // verus!
