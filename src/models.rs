//! The data types of the dictionary and of the refined tree, each with a view
//! over character sequences that the contracts speak of.

use vstd::prelude::*;

verus! {

/// The characters of an optional string.
pub open spec fn opt_view(o: Option<String>) -> Option<Seq<char>> {
    match o {
        Some(s) => Some(s@),
        None => None,
    }
}

/// The characters of each string of a vector.
pub open spec fn strings_view(v: Vec<String>) -> Seq<Seq<char>> {
    v@.map_values(|s: String| s@)
}

pub open spec fn opt_strings_view(o: Option<Vec<String>>) -> Option<Seq<Seq<char>>> {
    match o {
        Some(v) => Some(strings_view(v)),
        None => None,
    }
}

/// One sense of a gloss: plain text, literal meaning, lexical category, context
/// tags and an optional cross-reference (simplified, traditional, transcription).
#[derive(Clone, Debug, PartialEq, Eq)]
pub struct Meaning {
    pub context: Option<Vec<String>>,
    pub lexical_item: Option<String>,
    pub value: Option<String>,
    pub literal_meaning: Option<String>,
    pub simplified: Option<String>,
    pub traditional: Option<String>,
    pub wade_giles_pinyin: Option<String>,
    pub pinyin: Option<String>,
}

pub struct SenseView {
    pub context: Option<Seq<Seq<char>>>,
    pub lexical_item: Option<Seq<char>>,
    pub value: Option<Seq<char>>,
    pub literal_meaning: Option<Seq<char>>,
    pub simplified: Option<Seq<char>>,
    pub traditional: Option<Seq<char>>,
    pub wade_giles_pinyin: Option<Seq<char>>,
    pub pinyin: Option<Seq<char>>,
}

impl View for Meaning {
    type V = SenseView;

    open spec fn view(&self) -> SenseView {
        SenseView {
            context: opt_strings_view(self.context),
            lexical_item: opt_view(self.lexical_item),
            value: opt_view(self.value),
            literal_meaning: opt_view(self.literal_meaning),
            simplified: opt_view(self.simplified),
            traditional: opt_view(self.traditional),
            wade_giles_pinyin: opt_view(self.wade_giles_pinyin),
            pinyin: opt_view(self.pinyin),
        }
    }
}

/// A measure word named by a `CL:` gloss.
#[derive(Clone, Debug, PartialEq, Eq)]
pub struct Classifier {
    pub simplified: String,
    pub traditional: String,
    pub wade_giles_pinyin: String,
}

pub struct ClassifierView {
    pub simplified: Seq<char>,
    pub traditional: Seq<char>,
    pub wade_giles_pinyin: Seq<char>,
}

impl View for Classifier {
    type V = ClassifierView;

    open spec fn view(&self) -> ClassifierView {
        ClassifierView {
            simplified: self.simplified@,
            traditional: self.traditional@,
            wade_giles_pinyin: self.wade_giles_pinyin@,
        }
    }
}

/// One target of a curated abbreviation, keyed by the abbreviated headword.
#[derive(Clone, Debug, PartialEq, Eq)]
pub struct Abbreviation {
    pub key: String,
    pub value: Option<String>,
    pub simplified: Option<String>,
    pub traditional: Option<String>,
    pub wade_giles_pinyin: Option<String>,
}

pub struct AbbreviationView {
    pub key: Seq<char>,
    pub value: Option<Seq<char>>,
    pub simplified: Option<Seq<char>>,
    pub traditional: Option<Seq<char>>,
    pub wade_giles_pinyin: Option<Seq<char>>,
}

impl View for Abbreviation {
    type V = AbbreviationView;

    open spec fn view(&self) -> AbbreviationView {
        AbbreviationView {
            key: self.key@,
            value: opt_view(self.value),
            simplified: opt_view(self.simplified),
            traditional: opt_view(self.traditional),
            wade_giles_pinyin: opt_view(self.wade_giles_pinyin),
        }
    }
}

/// A reading: accented form, raw transcription, and a free-text note.
#[derive(Clone, Debug, PartialEq, Eq)]
pub struct Pronunciation {
    pub pinyin: String,
    pub wade_giles_pinyin: String,
    pub other: Option<String>,
}

pub struct PronunciationView {
    pub pinyin: Seq<char>,
    pub wade_giles_pinyin: Seq<char>,
    pub other: Option<Seq<char>>,
}

impl View for Pronunciation {
    type V = PronunciationView;

    open spec fn view(&self) -> PronunciationView {
        PronunciationView {
            pinyin: self.pinyin@,
            wade_giles_pinyin: self.wade_giles_pinyin@,
            other: opt_view(self.other),
        }
    }
}

/// A character radical with its stroke count, meaning and reading.
#[derive(Clone, Debug, PartialEq, Eq)]
pub struct Radical {
    pub value: String,
    pub stroke_count: u8,
    pub meaning: String,
    pub pinyin: String,
}

pub struct RadicalView {
    pub value: Seq<char>,
    pub stroke_count: u8,
    pub meaning: Seq<char>,
    pub pinyin: Seq<char>,
}

impl View for Radical {
    type V = RadicalView;

    open spec fn view(&self) -> RadicalView {
        RadicalView {
            value: self.value@,
            stroke_count: self.stroke_count,
            meaning: self.meaning@,
            pinyin: self.pinyin@,
        }
    }
}

/// The radicals and graphical components of a character.
#[derive(Clone, Debug, PartialEq, Eq)]
pub struct Decomposition {
    pub radical: Vec<Radical>,
    pub graphical: Vec<String>,
}

pub struct DecompositionView {
    pub radical: Seq<RadicalView>,
    pub graphical: Seq<Seq<char>>,
}

impl View for Decomposition {
    type V = DecompositionView;

    open spec fn view(&self) -> DecompositionView {
        DecompositionView {
            radical: self.radical@.map_values(|r: Radical| r@),
            graphical: strings_view(self.graphical),
        }
    }
}

/// An alternate written form named by an "also written" gloss.
#[derive(Clone, Debug, PartialEq, Eq)]
pub struct Variant {
    pub simplified: String,
    pub traditional: Option<String>,
    pub wade_giles_pinyin: Option<String>,
}

pub struct VariantView {
    pub simplified: Seq<char>,
    pub traditional: Option<Seq<char>>,
    pub wade_giles_pinyin: Option<Seq<char>>,
}

impl View for Variant {
    type V = VariantView;

    open spec fn view(&self) -> VariantView {
        VariantView {
            simplified: self.simplified@,
            traditional: opt_view(self.traditional),
            wade_giles_pinyin: opt_view(self.wade_giles_pinyin),
        }
    }
}

pub open spec fn opt_variant_view(o: Option<Variant>) -> Option<VariantView> {
    match o {
        Some(v) => Some(v@),
        None => None,
    }
}

pub open spec fn opt_classifiers_view(o: Option<Vec<Classifier>>) -> Option<Seq<ClassifierView>> {
    match o {
        Some(v) => Some(v@.map_values(|c: Classifier| c@)),
        None => None,
    }
}

pub open spec fn opt_decomposition_view(o: Option<Decomposition>) -> Option<DecompositionView> {
    match o {
        Some(d) => Some(d@),
        None => None,
    }
}

/// One (simplified, traditional, transcription) entry of a headword group.
#[derive(Clone, Debug, PartialEq, Eq)]
pub struct Detail {
    pub pronunciation: Vec<Pronunciation>,
    pub simplified: String,
    pub simplified_stroke_count: Option<u8>,
    pub traditional: String,
    pub traditional_stroke_count: Option<u8>,
    pub variant: Option<Variant>,
    pub meanings: Vec<Meaning>,
    pub classifiers: Option<Vec<Classifier>>,
    pub decomposition: Option<Decomposition>,
    pub tags: Option<Vec<String>>,
}

pub struct DetailView {
    pub pronunciation: Seq<PronunciationView>,
    pub simplified: Seq<char>,
    pub simplified_stroke_count: Option<u8>,
    pub traditional: Seq<char>,
    pub traditional_stroke_count: Option<u8>,
    pub variant: Option<VariantView>,
    pub meanings: Seq<SenseView>,
    pub classifiers: Option<Seq<ClassifierView>>,
    pub decomposition: Option<DecompositionView>,
    pub tags: Option<Seq<Seq<char>>>,
}

impl View for Detail {
    type V = DetailView;

    open spec fn view(&self) -> DetailView {
        DetailView {
            pronunciation: self.pronunciation@.map_values(|p: Pronunciation| p@),
            simplified: self.simplified@,
            simplified_stroke_count: self.simplified_stroke_count,
            traditional: self.traditional@,
            traditional_stroke_count: self.traditional_stroke_count,
            variant: opt_variant_view(self.variant),
            meanings: self.meanings@.map_values(|m: Meaning| m@),
            classifiers: opt_classifiers_view(self.classifiers),
            decomposition: opt_decomposition_view(self.decomposition),
            tags: opt_strings_view(self.tags),
        }
    }
}

/// All entries that share one simplified headword, in the order they were seen.
#[derive(Clone, Debug, PartialEq, Eq)]
pub struct Group {
    pub simplified: String,
    pub simplified_stroke_count: Option<u8>,
    pub details: Vec<Detail>,
}

pub struct GroupView {
    pub simplified: Seq<char>,
    pub simplified_stroke_count: Option<u8>,
    pub details: Seq<DetailView>,
}

impl View for Group {
    type V = GroupView;

    open spec fn view(&self) -> GroupView {
        GroupView {
            simplified: self.simplified@,
            simplified_stroke_count: self.simplified_stroke_count,
            details: self.details@.map_values(|d: Detail| d@),
        }
    }
}

/// One parsed dictionary line.
#[derive(Clone, Debug, PartialEq, Eq)]
pub struct CERecord {
    pub line_number: u32,
    pub line: String,
    pub simplified: String,
    pub traditional: String,
    pub wade_giles_pinyin: String,
    pub meanings: Vec<String>,
}

pub struct RecordView {
    pub line_number: u32,
    pub line: Seq<char>,
    pub simplified: Seq<char>,
    pub traditional: Seq<char>,
    pub wade_giles_pinyin: Seq<char>,
    pub meanings: Seq<Seq<char>>,
}

impl View for CERecord {
    type V = RecordView;

    open spec fn view(&self) -> RecordView {
        RecordView {
            line_number: self.line_number,
            line: self.line@,
            simplified: self.simplified@,
            traditional: self.traditional@,
            wade_giles_pinyin: self.wade_giles_pinyin@,
            meanings: strings_view(self.meanings),
        }
    }
}

/// Curated lexical category and tags for one (headword, gloss) pair.
#[derive(Clone, Debug, PartialEq, Eq)]
pub struct Descriptor {
    pub simplified: String,
    pub pinyin: String,
    pub meaning: String,
    pub lexical_item: Option<String>,
    pub tags: Option<Vec<String>>,
}

pub struct DescriptorView {
    pub simplified: Seq<char>,
    pub pinyin: Seq<char>,
    pub meaning: Seq<char>,
    pub lexical_item: Option<Seq<char>>,
    pub tags: Option<Seq<Seq<char>>>,
}

impl View for Descriptor {
    type V = DescriptorView;

    open spec fn view(&self) -> DescriptorView {
        DescriptorView {
            simplified: self.simplified@,
            pinyin: self.pinyin@,
            meaning: self.meaning@,
            lexical_item: opt_view(self.lexical_item),
            tags: opt_strings_view(self.tags),
        }
    }
}

/// One syllable of the syllable table: accented form and raw transcription.
#[derive(Clone, Debug, PartialEq, Eq)]
pub struct PinyinMap {
    pub pinyin: String,
    pub wade_giles: String,
}

pub struct PinyinMapView {
    pub pinyin: Seq<char>,
    pub wade_giles: Seq<char>,
}

impl View for PinyinMap {
    type V = PinyinMapView;

    open spec fn view(&self) -> PinyinMapView {
        PinyinMapView { pinyin: self.pinyin@, wade_giles: self.wade_giles@ }
    }
}

/// A copy of `s` with the same characters.
pub fn copy_string(s: &String) -> (r: String)
    ensures
        r@ == s@,
{
    s.clone()
}

pub fn copy_opt_string(o: &Option<String>) -> (r: Option<String>)
    ensures
        opt_view(r) == opt_view(*o),
{
    match o {
        Some(s) => Some(s.clone()),
        None => None,
    }
}

pub fn copy_strings(v: &Vec<String>) -> (r: Vec<String>)
    ensures
        strings_view(r) == strings_view(*v),
{
    let mut r: Vec<String> = Vec::new();
    let mut i: usize = 0;
    while i < v.len()
        invariant
            i <= v.len(),
            strings_view(r) == strings_view(*v).take(i as int),
        decreases v.len() - i,
    {
        let c = copy_string(&v[i]);
        let ghost old_r = r@;
        r.push(c);
        assert(r@ == old_r.push(c));
        assert(strings_view(r) =~= old_r.map_values(|s: String| s@).push(c@));
        assert(strings_view(*v).take(i + 1) =~= strings_view(*v).take(i as int).push(v@[i as int]@));
        i += 1;
    }
    assert(strings_view(*v).take(v.len() as int) =~= strings_view(*v));
    r
}

} // verus!
