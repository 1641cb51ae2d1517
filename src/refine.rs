//! The gloss-stream preprocessor and the headword grouper: what each raw
//! gloss adds to a detail, and how records are gathered into headword groups.

use crate::annotate::{annotate, annotate_gloss, lemma_find_char_bounds, opt_chars, split_pipe};
use crate::models::{
    copy_opt_string, copy_string, strings_view, Abbreviation, AbbreviationView, CERecord,
    Classifier, ClassifierView, Descriptor, DescriptorView, Detail, DetailView, Group, GroupView,
    Meaning, PinyinMap, PinyinMapView, Pronunciation, PronunciationView, RecordView, SenseView,
    Variant, VariantView,
};
use crate::pinyin::{pinyin_of, table_view, to_pinyin};
use crate::text::{
    chars_of, contains, contains_exec, extend, find_char_exec, find_char_from, remove_all,
    remove_all_exec, slice_of, split, split_exec, starts_with, starts_with_exec, string_of, trim,
    trim_exec, views,
};
use vstd::hash_map::StringHashMap;
use vstd::prelude::*;

verus! {

/// The curated lookup tables the grouper reads: syllable table, stroke
/// counts, descriptors keyed by headword and gloss, and abbreviation targets.
pub struct Lookups {
    pub pinyins: StringHashMap<PinyinMap>,
    pub strokes: StringHashMap<u8>,
    pub descriptors: StringHashMap<Descriptor>,
    pub abbreviations: StringHashMap<Vec<Abbreviation>>,
}

impl Lookups {
    /// Lookup tables with no entries.
    pub fn new() -> (r: Lookups)
        ensures
            r.pinyins@ == Map::<Seq<char>, PinyinMap>::empty(),
            r.strokes@ == Map::<Seq<char>, u8>::empty(),
            r.descriptors@ == Map::<Seq<char>, Descriptor>::empty(),
            r.abbreviations@ == Map::<Seq<char>, Vec<Abbreviation>>::empty(),
    {
        Lookups {
            pinyins: StringHashMap::new(),
            strokes: StringHashMap::new(),
            descriptors: StringHashMap::new(),
            abbreviations: StringHashMap::new(),
        }
    }
}

/// The tables seen through the views of their entries.
pub struct LookupsView {
    pub pinyins: Map<Seq<char>, PinyinMapView>,
    pub strokes: Map<Seq<char>, u8>,
    pub descriptors: Map<Seq<char>, DescriptorView>,
    pub abbreviations: Map<Seq<char>, Seq<AbbreviationView>>,
}

impl View for Lookups {
    type V = LookupsView;

    open spec fn view(&self) -> LookupsView {
        LookupsView {
            pinyins: table_view(self.pinyins@),
            strokes: self.strokes@,
            descriptors: self.descriptors@.map_values(|d: Descriptor| d@),
            abbreviations: self.abbreviations@.map_values(
                |v: Vec<Abbreviation>| v@.map_values(|a: Abbreviation| a@),
            ),
        }
    }
}

pub open spec fn stroke_of(lk: LookupsView, key: Seq<char>) -> Option<u8> {
    if lk.strokes.contains_key(key) {
        Some(lk.strokes[key])
    } else {
        None
    }
}

pub open spec fn seq_or_empty<T>(o: Option<Seq<T>>) -> Seq<T> {
    match o {
        Some(s) => s,
        None => Seq::empty(),
    }
}

/// An abbreviation gloss that points at several targets: `abbr. for|of|to`.
pub open spec fn is_multi_abbreviation(g: Seq<char>) -> bool {
    contains(g, "abbr. for"@) || contains(g, "abbr. of"@) || contains(g, "abbr. to"@)
}

/// The cross-reference sense of one curated abbreviation target.
pub open spec fn target_sense(a: AbbreviationView) -> SenseView {
    SenseView {
        context: Some(seq!["abbreviation"@]),
        lexical_item: None,
        value: a.value,
        literal_meaning: None,
        simplified: a.simplified,
        traditional: a.traditional,
        wade_giles_pinyin: a.wade_giles_pinyin,
        pinyin: None,
    }
}

/// One sense per curated target of `simplified`; none when the table lacks it.
pub open spec fn target_senses(lk: LookupsView, simplified: Seq<char>) -> Seq<SenseView> {
    if lk.abbreviations.contains_key(simplified) {
        lk.abbreviations[simplified].map_values(|a: AbbreviationView| target_sense(a))
    } else {
        Seq::empty()
    }
}

/// The first index at or after `k` that holds `a`, `b` or `c` (or the length).
pub open spec fn stop_at(t: Seq<char>, k: int, a: char, b: char, c: char) -> int
    decreases t.len() - k,
{
    if 0 <= k < t.len() && t[k] != a && t[k] != b && t[k] != c {
        stop_at(t, k + 1, a, b, c)
    } else {
        k
    }
}

/// Parses `also written simplified[|traditional][[transcription]]`.
pub open spec fn parse_also_written(g: Seq<char>) -> Option<VariantView> {
    let p = "also written "@;
    if !starts_with(g, p) {
        None
    } else {
        let t = g.subrange(p.len() as int, g.len() as int);
        let e1 = stop_at(t, 0, '|', '[', '[');
        if e1 <= 0 {
            None
        } else {
            let e = stop_at(t, e1 + 1, '[', ']', '|');
            let has_trad = e1 < t.len() && t[e1] == '|' && e > e1 + 1;
            let e2 = if has_trad {
                e
            } else {
                e1
            };
            let f = stop_at(t, e2 + 1, '[', ']', ']');
            let has_pin = e2 < t.len() && t[e2] == '[' && f > e2 + 1 && f < t.len() && t[f] == ']';
            Some(
                VariantView {
                    simplified: t.subrange(0, e1),
                    traditional: if has_trad {
                        Some(t.subrange(e1 + 1, e))
                    } else {
                        None
                    },
                    wade_giles_pinyin: if has_pin {
                        Some(t.subrange(e2 + 1, f))
                    } else {
                        None
                    },
                },
            )
        }
    }
}

/// The text between the first `[` of `g` and the first `]` after it.
pub open spec fn bracket_inner(g: Seq<char>) -> Option<Seq<char>> {
    match find_char_from(g, '[', 0) {
        None => None,
        Some(i) => match find_char_from(g, ']', i + 1) {
            None => None,
            Some(j) => Some(g.subrange(i + 1, j)),
        },
    }
}

/// The reading that an `also pr.` gloss adds: its bracketed transcription, or
/// else the rest of the gloss as a note.
pub open spec fn extra_pronunciation(g: Seq<char>, lk: LookupsView) -> PronunciationView {
    match bracket_inner(g) {
        Some(t) => PronunciationView {
            pinyin: pinyin_of(t, lk.pinyins),
            wade_giles_pinyin: t,
            other: None,
        },
        None => PronunciationView {
            pinyin: Seq::empty(),
            wade_giles_pinyin: Seq::empty(),
            other: Some(trim(remove_all(g, "also pr. "@))),
        },
    }
}

/// Parses one classifier `simplified[|traditional][transcription]`.
pub open spec fn parse_classifier(t: Seq<char>) -> Option<ClassifierView> {
    match find_char_from(t, '[', 0) {
        None => None,
        Some(b) => match find_char_from(t, ']', b + 1) {
            None => None,
            Some(e) => {
                let (simp, trad) = split_pipe(t.subrange(0, b));
                Some(
                    ClassifierView {
                        simplified: simp,
                        traditional: seq_or_empty(trad),
                        wade_giles_pinyin: t.subrange(b + 1, e),
                    },
                )
            },
        },
    }
}

/// The classifiers of the comma-separated items that parse.
pub open spec fn classifiers_in(items: Seq<Seq<char>>) -> Seq<ClassifierView>
    decreases items.len(),
{
    if items.len() == 0 {
        Seq::empty()
    } else {
        let prev = classifiers_in(items.drop_last());
        match parse_classifier(trim(items.last())) {
            Some(c) => prev.push(c),
            None => prev,
        }
    }
}

/// `existing` followed by the tags of `new` it does not hold yet, in order.
pub open spec fn merge_tags(existing: Seq<Seq<char>>, new: Seq<Seq<char>>) -> Seq<Seq<char>>
    decreases new.len(),
{
    if new.len() == 0 {
        existing
    } else {
        let e = merge_tags(existing, new.drop_last());
        if e.contains(new.last()) {
            e
        } else {
            e.push(new.last())
        }
    }
}

/// A gloss that no preprocessing form claims: its sense, with the curated
/// lexical category and tags of (headword, gloss) merged in.
pub open spec fn described(d: DetailView, simplified: Seq<char>, g: Seq<char>, lk: LookupsView) -> DetailView {
    let m = annotate(g);
    let key = simplified + g;
    if lk.descriptors.contains_key(key) {
        let desc = lk.descriptors[key];
        DetailView {
            meanings: d.meanings.push(SenseView { lexical_item: desc.lexical_item, ..m }),
            tags: Some(merge_tags(seq_or_empty(d.tags), seq_or_empty(desc.tags))),
            ..d
        }
    } else {
        DetailView { meanings: d.meanings.push(m), ..d }
    }
}

/// What one raw gloss does to the detail being built, forms tried in order:
/// multi-target abbreviation, `also written`, `also pr.`, a `CL:` list, then a sense.
pub open spec fn gloss_step(d: DetailView, simplified: Seq<char>, g: Seq<char>, lk: LookupsView) -> DetailView {
    if is_multi_abbreviation(g) {
        DetailView { meanings: d.meanings + target_senses(lk, simplified), ..d }
    } else if starts_with(g, "also written"@) {
        match parse_also_written(g) {
            Some(v) => DetailView { variant: Some(v), ..d },
            None => d,
        }
    } else if contains(g, "also pr."@) {
        DetailView { pronunciation: d.pronunciation.push(extra_pronunciation(g, lk)), ..d }
    } else if starts_with(g, "CL:"@) {
        let cs = classifiers_in(split(trim(g.subrange("CL:"@.len() as int, g.len() as int)), ','));
        if cs.len() > 0 {
            DetailView { classifiers: Some(seq_or_empty(d.classifiers) + cs), ..d }
        } else {
            d
        }
    } else {
        described(d, simplified, g, lk)
    }
}

pub open spec fn glosses_from(
    d: DetailView,
    simplified: Seq<char>,
    gs: Seq<Seq<char>>,
    lk: LookupsView,
) -> DetailView
    decreases gs.len(),
{
    if gs.len() == 0 {
        d
    } else {
        gloss_step(glosses_from(d, simplified, gs.drop_last(), lk), simplified, gs.last(), lk)
    }
}

/// The detail of a record before its glosses: the primary reading and the stroke counts.
pub open spec fn new_detail(r: RecordView, lk: LookupsView) -> DetailView {
    DetailView {
        pronunciation: seq![
            PronunciationView {
                pinyin: pinyin_of(r.wade_giles_pinyin, lk.pinyins),
                wade_giles_pinyin: r.wade_giles_pinyin,
                other: None,
            },
        ],
        simplified: r.simplified,
        simplified_stroke_count: stroke_of(lk, r.simplified),
        traditional: r.traditional,
        traditional_stroke_count: stroke_of(lk, r.traditional),
        variant: None,
        meanings: Seq::empty(),
        classifiers: None,
        decomposition: None,
        tags: None,
    }
}

pub open spec fn detail_of(r: RecordView, lk: LookupsView) -> DetailView {
    glosses_from(new_detail(r, lk), r.simplified, r.meanings, lk)
}

fn stop_at_exec(t: &Vec<char>, k: usize, a: char, b: char, c: char) -> (r: usize)
    requires
        k <= t.len(),
    ensures
        r as int == stop_at(t@, k as int, a, b, c),
        k <= r <= t.len(),
{
    let mut i = k;
    while i < t.len() && t[i] != a && t[i] != b && t[i] != c
        invariant
            k <= i <= t.len(),
            stop_at(t@, k as int, a, b, c) == stop_at(t@, i as int, a, b, c),
        decreases t.len() - i,
    {
        i += 1;
    }
    i
}

fn parse_also_written_exec(g: &Vec<char>) -> (r: Option<Variant>)
    ensures
        match r {
            Some(v) => parse_also_written(g@) == Some(v@),
            None => parse_also_written(g@) is None,
        },
{
    let p = chars_of("also written ");
    if !starts_with_exec(g, &p) {
        return None;
    }
    let t = slice_of(g, p.len(), g.len());
    let e1 = stop_at_exec(&t, 0, '|', '[', '[');
    if e1 == 0 {
        return None;
    }
    let e = if e1 < t.len() {
        stop_at_exec(&t, e1 + 1, '[', ']', '|')
    } else {
        e1
    };
    let has_trad = e1 < t.len() && t[e1] == '|' && e > e1 + 1;
    let e2 = if has_trad {
        e
    } else {
        e1
    };
    let f = if e2 < t.len() {
        stop_at_exec(&t, e2 + 1, '[', ']', ']')
    } else {
        e2
    };
    let has_pin = e2 < t.len() && t[e2] == '[' && f > e2 + 1 && f < t.len() && t[f] == ']';
    let traditional = if has_trad {
        Some(string_of(&slice_of(&t, e1 + 1, e)))
    } else {
        None
    };
    let wade_giles_pinyin = if has_pin {
        Some(string_of(&slice_of(&t, e2 + 1, f)))
    } else {
        None
    };
    Some(Variant { simplified: string_of(&slice_of(&t, 0, e1)), traditional, wade_giles_pinyin })
}

fn bracket_inner_exec(g: &Vec<char>) -> (r: Option<Vec<char>>)
    ensures
        opt_chars(r) == bracket_inner(g@),
{
    match find_char_exec(g, '[', 0) {
        None => None,
        Some(i) => {
            proof {
                lemma_find_char_bounds(g@, '[', 0);
            }
            assert(i < g.len());
            match find_char_exec(g, ']', i + 1) {
                None => None,
                Some(j) => {
                    proof {
                        lemma_find_char_bounds(g@, ']', i + 1);
                    }
                    assert(i + 1 <= j < g.len());
                    Some(slice_of(g, i + 1, j))
                },
            }
        },
    }
}

fn extra_pronunciation_exec(g: &Vec<char>, lk: &Lookups) -> (r: Pronunciation)
    ensures
        r@ == extra_pronunciation(g@, lk@),
{
    match bracket_inner_exec(g) {
        Some(t) => {
            let wg = string_of(&t);
            let pinyin = to_pinyin(wg.as_str(), &lk.pinyins);
            Pronunciation { pinyin, wade_giles_pinyin: wg, other: None }
        },
        None => {
            let note = trim_exec(&remove_all_exec(g, &chars_of("also pr. ")));
            Pronunciation {
                pinyin: String::new(),
                wade_giles_pinyin: String::new(),
                other: Some(string_of(&note)),
            }
        },
    }
}

fn parse_classifier_exec(t: &Vec<char>) -> (r: Option<Classifier>)
    ensures
        match r {
            Some(c) => parse_classifier(t@) == Some(c@),
            None => parse_classifier(t@) is None,
        },
{
    let b = match find_char_exec(t, '[', 0) {
        Some(b) => b,
        None => return None,
    };
    proof {
        lemma_find_char_bounds(t@, '[', 0);
    }
    assert(b < t.len());
    let e = match find_char_exec(t, ']', b + 1) {
        Some(e) => e,
        None => return None,
    };
    proof {
        lemma_find_char_bounds(t@, ']', b + 1);
    }
    assert(b + 1 <= e < t.len());
    let head = slice_of(t, 0, b);
    let (simp, trad) = match find_char_exec(&head, '|', 0) {
        Some(p) => {
            proof {
                lemma_find_char_bounds(head@, '|', 0);
            }
            assert(p < head.len());
            (slice_of(&head, 0, p), slice_of(&head, p + 1, head.len()))
        },
        None => {
            assert(head@.subrange(0, head.len() as int) =~= head@);
            (slice_of(&head, 0, head.len()), Vec::new())
        },
    };
    assert(seq_or_empty(split_pipe(head@).1) == trad@);
    Some(
        Classifier {
            simplified: string_of(&simp),
            traditional: string_of(&trad),
            wade_giles_pinyin: string_of(&slice_of(t, b + 1, e)),
        },
    )
}

fn classifiers_exec(items: &Vec<Vec<char>>) -> (r: Vec<Classifier>)
    ensures
        r@.map_values(|c: Classifier| c@) == classifiers_in(views(items@)),
{
    let mut r: Vec<Classifier> = Vec::new();
    let mut i: usize = 0;
    while i < items.len()
        invariant
            i <= items.len(),
            r@.map_values(|c: Classifier| c@) == classifiers_in(views(items@).take(i as int)),
        decreases items.len() - i,
    {
        let ghost prev = views(items@).take(i as int);
        let ghost next = views(items@).take(i + 1);
        assert(next.drop_last() =~= prev);
        assert(next.last() == items@[i as int]@);
        let item = trim_exec(&items[i]);
        match parse_classifier_exec(&item) {
            Some(c) => {
                let ghost old_r = r@;
                r.push(c);
                assert(r@.map_values(|c: Classifier| c@) =~= old_r.map_values(|c: Classifier| c@).push(
                    c@,
                ));
            },
            None => {},
        }
        i += 1;
    }
    assert(views(items@).take(items.len() as int) =~= views(items@));
    r
}

fn contains_string(v: &Vec<String>, s: &String) -> (r: bool)
    ensures
        r == strings_view(*v).contains(s@),
{
    let mut i: usize = 0;
    while i < v.len()
        invariant
            i <= v.len(),
            forall|t: int| 0 <= t < i ==> strings_view(*v)[t] != s@,
        decreases v.len() - i,
    {
        if v[i] == *s {
            assert(strings_view(*v)[i as int] == s@);
            return true;
        }
        i += 1;
    }
    false
}

fn merge_tags_exec(existing: &mut Vec<String>, new: &Vec<String>)
    ensures
        strings_view(*final(existing)) == merge_tags(strings_view(*old(existing)), strings_view(*new)),
{
    let ghost e0 = strings_view(*existing);
    let mut i: usize = 0;
    while i < new.len()
        invariant
            i <= new.len(),
            strings_view(*existing) == merge_tags(e0, strings_view(*new).take(i as int)),
        decreases new.len() - i,
    {
        let ghost prev = strings_view(*new).take(i as int);
        let ghost next = strings_view(*new).take(i + 1);
        assert(next.drop_last() =~= prev);
        assert(next.last() == new@[i as int]@);
        if !contains_string(existing, &new[i]) {
            let t = copy_string(&new[i]);
            let ghost old_e = existing@;
            existing.push(t);
            assert(strings_view(*existing) =~= old_e.map_values(|s: String| s@).push(t@));
        }
        i += 1;
    }
    assert(strings_view(*new).take(new.len() as int) =~= strings_view(*new));
}

fn copy_abbreviation_sense(a: &Abbreviation) -> (m: Meaning)
    ensures
        m@ == target_sense(a@),
{
    let mut context: Vec<String> = Vec::new();
    context.push("abbreviation".to_owned());
    assert(strings_view(context) =~= seq!["abbreviation"@]);
    Meaning {
        context: Some(context),
        lexical_item: None,
        value: copy_opt_string(&a.value),
        literal_meaning: None,
        simplified: copy_opt_string(&a.simplified),
        traditional: copy_opt_string(&a.traditional),
        wade_giles_pinyin: copy_opt_string(&a.wade_giles_pinyin),
        pinyin: None,
    }
}

/// Applies one raw gloss to the detail being built: a multi-target
/// abbreviation adds one sense per curated target (none when the headword is
/// not in the table); `also written` sets the variant form; `also pr.` adds a
/// reading; `CL:` adds classifiers; any other gloss adds exactly one sense.
pub fn refine_gloss(detail: &mut Detail, simplified: &String, gloss: &String, lookups: &Lookups)
    ensures
        final(detail)@ == gloss_step(old(detail)@, simplified@, gloss@, lookups@),
{
    let g = chars_of(gloss.as_str());
    let ghost d0 = detail@;
    if contains_exec(&g, &chars_of("abbr. for")) || contains_exec(&g, &chars_of("abbr. of"))
        || contains_exec(&g, &chars_of("abbr. to")) {
        match lookups.abbreviations.get(simplified.as_str()) {
            Some(list) => {
                let mut i: usize = 0;
                while i < list.len()
                    invariant
                        i <= list.len(),
                        lookups.abbreviations@.contains_key(simplified@),
                        *list == lookups.abbreviations@[simplified@],
                        detail@ == (DetailView {
                            meanings: d0.meanings + list@.take(i as int).map_values(
                                |a: Abbreviation| target_sense(a@),
                            ),
                            ..d0
                        }),
                    decreases list.len() - i,
                {
                    let m = copy_abbreviation_sense(&list[i]);
                    let ghost old_m = detail.meanings@;
                    detail.meanings.push(m);
                    assert(detail.meanings@.map_values(|m: Meaning| m@) =~= old_m.map_values(
                        |m: Meaning| m@,
                    ).push(m@));
                    assert(list@.take(i + 1).map_values(|a: Abbreviation| target_sense(a@))
                        =~= list@.take(i as int).map_values(|a: Abbreviation| target_sense(a@)).push(
                        target_sense(list@[i as int]@),
                    ));
                    assert(detail@ =~= (DetailView {
                        meanings: d0.meanings + list@.take(i + 1).map_values(
                            |a: Abbreviation| target_sense(a@),
                        ),
                        ..d0
                    }));
                    i += 1;
                }
                assert(list@.take(list.len() as int) =~= list@);
                assert(lookups@.abbreviations[simplified@] == list@.map_values(|a: Abbreviation| a@));
                assert(list@.map_values(|a: Abbreviation| a@).map_values(
                    |a: AbbreviationView| target_sense(a),
                ) =~= list@.map_values(|a: Abbreviation| target_sense(a@)));
            },
            None => {
                assert(d0.meanings + target_senses(lookups@, simplified@) =~= d0.meanings);
                assert(detail@ =~= gloss_step(d0, simplified@, gloss@, lookups@));
            },
        }
        return ;
    }
    if starts_with_exec(&g, &chars_of("also written")) {
        match parse_also_written_exec(&g) {
            Some(v) => {
                detail.variant = Some(v);
            },
            None => {},
        }
        return ;
    }
    if contains_exec(&g, &chars_of("also pr.")) {
        let p = extra_pronunciation_exec(&g, lookups);
        let ghost old_p = detail.pronunciation@;
        detail.pronunciation.push(p);
        assert(detail.pronunciation@.map_values(|p: Pronunciation| p@) =~= old_p.map_values(
            |p: Pronunciation| p@,
        ).push(p@));
        return ;
    }
    let cl = chars_of("CL:");
    if starts_with_exec(&g, &cl) {
        let items = split_exec(&trim_exec(&slice_of(&g, cl.len(), g.len())), ',');
        let found = classifiers_exec(&items);
        if found.len() > 0 {
            let mut old: Option<Vec<Classifier>> = None;
            std::mem::swap(&mut detail.classifiers, &mut old);
            let mut all = match old {
                Some(v) => v,
                None => Vec::new(),
            };
            let ghost a0 = all@;
            let mut found = found;
            let ghost fv = found@;
            all.append(&mut found);
            assert(all@.map_values(|c: Classifier| c@) =~= a0.map_values(|c: Classifier| c@)
                + fv.map_values(|c: Classifier| c@));
            detail.classifiers = Some(all);
            assert(detail@ =~= gloss_step(d0, simplified@, gloss@, lookups@));
        }
        return ;
    }
    let m = annotate_gloss(&g);
    let mut key = chars_of(simplified.as_str());
    extend(&mut key, &g);
    let key = string_of(&key);
    match lookups.descriptors.get(key.as_str()) {
        Some(desc) => {
            let mut m = m;
            m.lexical_item = copy_opt_string(&desc.lexical_item);
            let mut old: Option<Vec<String>> = None;
            std::mem::swap(&mut detail.tags, &mut old);
            let mut tags = match old {
                Some(v) => v,
                None => Vec::new(),
            };
            assert(strings_view(tags) == seq_or_empty(d0.tags));
            match &desc.tags {
                Some(new) => merge_tags_exec(&mut tags, new),
                None => {
                    assert(seq_or_empty(desc@.tags) =~= Seq::<Seq<char>>::empty());
                },
            }
            detail.tags = Some(tags);
            let ghost old_m = detail.meanings@;
            detail.meanings.push(m);
            assert(detail.meanings@.map_values(|m: Meaning| m@) =~= old_m.map_values(|m: Meaning| m@).push(
                m@,
            ));
            assert(detail@ =~= gloss_step(d0, simplified@, gloss@, lookups@));
        },
        None => {
            let ghost old_m = detail.meanings@;
            detail.meanings.push(m);
            assert(detail.meanings@.map_values(|m: Meaning| m@) =~= old_m.map_values(|m: Meaning| m@).push(
                m@,
            ));
        },
    }
}

fn stroke_exec(lookups: &Lookups, key: &String) -> (r: Option<u8>)
    ensures
        r == stroke_of(lookups@, key@),
{
    match lookups.strokes.get(key.as_str()) {
        Some(n) => Some(*n),
        None => None,
    }
}

/// Builds the detail of one record: its primary reading, stroke counts, and
/// what each of its glosses adds, in order.
pub fn build_detail(record: &CERecord, lookups: &Lookups) -> (r: Detail)
    ensures
        r@ == detail_of(record@, lookups@),
{
    let mut pronunciation: Vec<Pronunciation> = Vec::new();
    pronunciation.push(
        Pronunciation {
            pinyin: to_pinyin(record.wade_giles_pinyin.as_str(), &lookups.pinyins),
            wade_giles_pinyin: copy_string(&record.wade_giles_pinyin),
            other: None,
        },
    );
    let mut detail = Detail {
        pronunciation,
        simplified: copy_string(&record.simplified),
        simplified_stroke_count: stroke_exec(lookups, &record.simplified),
        traditional: copy_string(&record.traditional),
        traditional_stroke_count: stroke_exec(lookups, &record.traditional),
        variant: None,
        meanings: Vec::new(),
        classifiers: None,
        decomposition: None,
        tags: None,
    };
    assert(detail@.pronunciation =~= new_detail(record@, lookups@).pronunciation);
    assert(detail@.meanings =~= Seq::<SenseView>::empty());
    assert(detail@ == new_detail(record@, lookups@));
    let ghost gs = record@.meanings;
    let mut i: usize = 0;
    while i < record.meanings.len()
        invariant
            i <= record.meanings.len(),
            gs == strings_view(record.meanings),
            detail@ == glosses_from(new_detail(record@, lookups@), record@.simplified, gs.take(i as int), lookups@),
        decreases record.meanings.len() - i,
    {
        assert(gs.take(i + 1).drop_last() =~= gs.take(i as int));
        refine_gloss(&mut detail, &record.simplified, &record.meanings[i], lookups);
        i += 1;
    }
    assert(gs.take(record.meanings.len() as int) =~= gs);
    detail
}

/// The index of the first group with headword `key`.
pub open spec fn find_group(gs: Seq<GroupView>, key: Seq<char>) -> Option<int>
    decreases gs.len(),
{
    if gs.len() == 0 {
        None
    } else {
        match find_group(gs.drop_last(), key) {
            Some(k) => Some(k),
            None => if gs.last().simplified == key {
                Some(gs.len() - 1)
            } else {
                None
            },
        }
    }
}

/// The groups built from `rs`, in the order their headwords first appear: a
/// record joins the group of its simplified headword, or opens a new one that
/// takes the headword's stroke count.
pub open spec fn refine_all(rs: Seq<RecordView>, lk: LookupsView) -> Seq<GroupView>
    decreases rs.len(),
{
    if rs.len() == 0 {
        Seq::empty()
    } else {
        let gs = refine_all(rs.drop_last(), lk);
        let r = rs.last();
        let d = detail_of(r, lk);
        match find_group(gs, r.simplified) {
            Some(k) => gs.update(k, GroupView { details: gs[k].details.push(d), ..gs[k] }),
            None => gs.push(
                GroupView {
                    simplified: r.simplified,
                    simplified_stroke_count: stroke_of(lk, r.simplified),
                    details: seq![d],
                },
            ),
        }
    }
}

pub proof fn lemma_find_group_bounds(gs: Seq<GroupView>, key: Seq<char>)
    ensures
        match find_group(gs, key) {
            Some(k) => 0 <= k < gs.len() && gs[k].simplified == key,
            None => forall|i: int| 0 <= i < gs.len() ==> gs[i].simplified != key,
        },
    decreases gs.len(),
{
    if gs.len() > 0 {
        lemma_find_group_bounds(gs.drop_last(), key);
        if find_group(gs.drop_last(), key) is None {
            assert forall|i: int| 0 <= i < gs.len() - 1 implies gs[i].simplified != key by {
                assert(gs.drop_last()[i] == gs[i]);
            }
        }
    }
}

/// Groups with the same headwords at the same places are found alike.
pub proof fn lemma_find_group_same_keys(a: Seq<GroupView>, b: Seq<GroupView>, key: Seq<char>)
    requires
        a.len() == b.len(),
        forall|i: int| 0 <= i < a.len() ==> a[i].simplified == b[i].simplified,
    ensures
        find_group(a, key) == find_group(b, key),
    decreases a.len(),
{
    if a.len() > 0 {
        lemma_find_group_same_keys(a.drop_last(), b.drop_last(), key);
    }
}

pub open spec fn groups_view(v: Seq<Group>) -> Seq<GroupView> {
    v.map_values(|g: Group| g@)
}

pub open spec fn records_view(v: Seq<CERecord>) -> Seq<RecordView> {
    v.map_values(|r: CERecord| r@)
}

/// Groups the records by simplified headword, in first-seen order, and builds
/// each record's detail from its glosses and the lookup tables.
pub fn refine_records(records: &Vec<CERecord>, lookups: &Lookups) -> (r: Vec<Group>)
    ensures
        groups_view(r@) == refine_all(records_view(records@), lookups@),
{
    let ghost rv = records_view(records@);
    let mut groups: Vec<Group> = Vec::new();
    let mut index: StringHashMap<usize> = StringHashMap::new();
    let mut i: usize = 0;
    while i < records.len()
        invariant
            i <= records.len(),
            rv == records_view(records@),
            groups_view(groups@) == refine_all(rv.take(i as int), lookups@),
            forall|key: Seq<char>| #[trigger]
                index@.contains_key(key) <==> find_group(groups_view(groups@), key) is Some,
            forall|key: Seq<char>| #[trigger]
                index@.contains_key(key) ==> find_group(groups_view(groups@), key) == Some(
                    index@[key] as int,
                ),
        decreases records.len() - i,
    {
        let record = &records[i];
        let detail = build_detail(record, lookups);
        let ghost gv = groups_view(groups@);
        assert(rv.take(i + 1).drop_last() =~= rv.take(i as int));
        assert(rv.take(i + 1).last() == record@);
        proof {
            lemma_find_group_bounds(gv, record@.simplified);
        }
        match index.get(record.simplified.as_str()) {
            Some(k) => {
                let k = *k;
                assert(find_group(gv, record@.simplified) == Some(k as int));
                let ghost old_details = groups@[k as int].details@;
                groups[k].details.push(detail);
                proof {
                    let nv = groups_view(groups@);
                    assert(groups@[k as int].details@ == old_details.push(detail));
                    assert(groups@[k as int]@.details =~= gv[k as int].details.push(detail@));
                    assert(nv =~= gv.update(
                        k as int,
                        GroupView { details: gv[k as int].details.push(detail@), ..gv[k as int] },
                    ));
                    assert forall|key: Seq<char>| #[trigger]
                        find_group(nv, key) == find_group(gv, key) by {
                        lemma_find_group_same_keys(nv, gv, key);
                    }
                }
            },
            None => {
                assert(find_group(gv, record@.simplified) is None);
                let n = groups.len();
                let key = copy_string(&record.simplified);
                index.insert(key, n);
                let mut details: Vec<Detail> = Vec::new();
                details.push(detail);
                let g = Group {
                    simplified: copy_string(&record.simplified),
                    simplified_stroke_count: stroke_exec(lookups, &record.simplified),
                    details,
                };
                groups.push(g);
                proof {
                    let nv = groups_view(groups@);
                    assert(g@.details =~= seq![detail@]);
                    assert(nv =~= gv.push(g@));
                    assert(nv.drop_last() =~= gv);
                    assert forall|key2: Seq<char>| #[trigger] index@.contains_key(key2) <==> find_group(nv, key2) is Some by {
                        lemma_find_group_bounds(gv, key2);
                    }
                    assert forall|key2: Seq<char>| #[trigger] index@.contains_key(key2) implies find_group(nv, key2) == Some(
                        index@[key2] as int) by {
                        lemma_find_group_bounds(gv, key2);
                    }
                }
            },
        }
        i += 1;
    }
    assert(rv.take(records.len() as int) =~= rv);
    groups
}

/// Grouping is a function of its inputs: the same records with the same
/// lookup tables give the same headword groups, field for field.
pub proof fn lemma_refine_deterministic(
    r1: Seq<RecordView>,
    r2: Seq<RecordView>,
    l1: LookupsView,
    l2: LookupsView,
)
    requires
        r1 == r2,
        l1 == l2,
    ensures
        refine_all(r1, l1) == refine_all(r2, l2),
{
}

/// A gloss that is none of the preprocessing forms yields exactly one sense,
/// appended after the senses already there; a multi-target abbreviation
/// yields one sense per curated target of the headword, in table order, and
/// none when the table lacks the headword; the other preprocessing forms
/// yield none.
pub proof fn lemma_sense_count(d: DetailView, simplified: Seq<char>, g: Seq<char>, lk: LookupsView)
    ensures
        !is_multi_abbreviation(g) && !starts_with(g, "also written"@) && !contains(g, "also pr."@)
            && !starts_with(g, "CL:"@) ==> gloss_step(d, simplified, g, lk).meanings.len()
            == d.meanings.len() + 1 && gloss_step(d, simplified, g, lk).meanings.drop_last()
            == d.meanings,
        is_multi_abbreviation(g) ==> gloss_step(d, simplified, g, lk).meanings == d.meanings
            + target_senses(lk, simplified),
        !is_multi_abbreviation(g) && (starts_with(g, "also written"@) || contains(g, "also pr."@)
            || starts_with(g, "CL:"@)) ==> gloss_step(d, simplified, g, lk).meanings == d.meanings,
        is_multi_abbreviation(g) ==> gloss_step(d, simplified, g, lk).meanings.len()
            == d.meanings.len() + if lk.abbreviations.contains_key(simplified) {
            lk.abbreviations[simplified].len()
        } else {
            0
        },
{
    let m = annotate(g);
    assert(d.meanings.push(m).drop_last() =~= d.meanings);
    let key = simplified + g;
    if lk.descriptors.contains_key(key) {
        let desc = lk.descriptors[key];
        assert(d.meanings.push(SenseView { lexical_item: desc.lexical_item, ..m }).drop_last()
            =~= d.meanings);
    }
}

} // verus!
