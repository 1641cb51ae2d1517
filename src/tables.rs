//! Readers for the curated lookup tables, given their lines.

use crate::annotate::nonempty;
use crate::refine::seq_or_empty;
use crate::models::{
    copy_opt_string, copy_string, copy_strings, opt_view, strings_view, Abbreviation,
    AbbreviationView, Descriptor, DescriptorView, PinyinMap, PinyinMapView, Radical, RadicalView,
};
use crate::text::{
    chars_of, extend, join, join_exec, slice_of, split, split_exec, split_str, split_str_exec,
    string_of, trim, trim_exec, views,
};
use vstd::hash_map::StringHashMap;
use vstd::hash_set::StringHashSet;
use vstd::prelude::*;

verus! {

/// A table line that does not have the table's shape; `line` is its index.
#[derive(Clone, Copy, Debug, PartialEq, Eq)]
pub struct TableError {
    pub line: usize,
}

/// The value of a string of decimal digits.
pub open spec fn digits_value(s: Seq<char>) -> int
    decreases s.len(),
{
    if s.len() == 0 {
        0
    } else {
        digits_value(s.drop_last()) * 10 + (s.last() as int - '0' as int)
    }
}

pub open spec fn all_digits(s: Seq<char>) -> bool {
    forall|i: int| 0 <= i < s.len() ==> '0' <= #[trigger] s[i] && s[i] <= '9'
}

/// The `u8` that `s` writes, as `str::parse::<u8>` reads it: an optional `+`
/// and at least one digit, with a value of at most 255.
pub open spec fn parse_u8(s: Seq<char>) -> Option<u8> {
    let d = if s.len() > 0 && s[0] == '+' {
        s.subrange(1, s.len() as int)
    } else {
        s
    };
    if d.len() > 0 && all_digits(d) && digits_value(d) <= 255 {
        Some(digits_value(d) as u8)
    } else {
        None
    }
}

proof fn lemma_digits_nonneg(s: Seq<char>)
    requires
        all_digits(s),
    ensures
        digits_value(s) >= 0,
    decreases s.len(),
{
    if s.len() > 0 {
        assert(all_digits(s.drop_last())) by {
            assert forall|i: int| 0 <= i < s.len() - 1 implies '0' <= #[trigger] s.drop_last()[i]
                && s.drop_last()[i] <= '9' by {
                assert(s.drop_last()[i] == s[i]);
            }
        }
        lemma_digits_nonneg(s.drop_last());
        assert('0' <= s[s.len() - 1]);
    }
}

proof fn lemma_digits_grow(s: Seq<char>, i: int)
    requires
        all_digits(s),
        0 <= i <= s.len(),
    ensures
        digits_value(s.take(i)) <= digits_value(s),
    decreases s.len() - i,
{
    if i < s.len() {
        lemma_digits_grow(s, i + 1);
        assert(s.take(i + 1).drop_last() =~= s.take(i));
        assert(all_digits(s.take(i))) by {
            assert forall|j: int| 0 <= j < i implies '0' <= #[trigger] s.take(i)[j] && s.take(i)[j]
                <= '9' by {
                assert(s.take(i)[j] == s[j]);
            }
        }
        lemma_digits_nonneg(s.take(i));
        assert('0' <= s[i]);
        assert(s.take(i + 1).last() == s[i]);
    } else {
        assert(s.take(i) =~= s);
    }
}

pub fn parse_u8_exec(s: &Vec<char>) -> (r: Option<u8>)
    ensures
        r == parse_u8(s@),
{
    let start: usize = if s.len() > 0 && s[0] == '+' {
        1
    } else {
        0
    };
    let d = slice_of(s, start, s.len());
    assert(start == 0 ==> d@ =~= s@);
    if d.len() == 0 {
        return None;
    }
    let mut v: u32 = 0;
    let mut i: usize = 0;
    while i < d.len()
        invariant
            i <= d.len(),
            d@ == (if s@.len() > 0 && s@[0] == '+' {
                s@.subrange(1, s@.len() as int)
            } else {
                s@
            }),
            d.len() > 0,
            all_digits(d@.take(i as int)),
            v as int == digits_value(d@.take(i as int)),
            v <= 255,
        decreases d.len() - i,
    {
        let c = d[i];
        assert(d@.take(i + 1).drop_last() =~= d@.take(i as int));
        if !('0' <= c && c <= '9') {
            assert(!all_digits(d@)) by {
                assert(d@[i as int] == c);
            }
            return None;
        }
        v = v * 10 + (c as u32 - '0' as u32);
        assert(d@.take(i + 1).last() == c);
        assert(all_digits(d@.take(i + 1))) by {
            assert forall|j: int| 0 <= j < i + 1 implies '0' <= #[trigger] d@.take(i + 1)[j] && d@.take(
                i + 1,
            )[j] <= '9' by {
                if j < i {
                    assert(d@.take(i + 1)[j] == d@.take(i as int)[j]);
                }
            }
        }
        if v > 255 {
            proof {
                if all_digits(d@) {
                    lemma_digits_grow(d@, i + 1);
                }
            }
            return None;
        }
        i += 1;
    }
    assert(d@.take(d.len() as int) =~= d@);
    assert(digits_value(d@) <= 255);
    Some(v as u8)
}

/// The pieces of `s` between `sep`, trimmed when `trimmed` holds.
pub open spec fn fields(s: Seq<char>, sep: char, trimmed: bool) -> Seq<Seq<char>> {
    if trimmed {
        split(s, sep).map_values(|p: Seq<char>| trim(p))
    } else {
        split(s, sep)
    }
}

fn fields_exec(s: &Vec<char>, sep: char, trimmed: bool) -> (r: Vec<Vec<char>>)
    ensures
        views(r@) == fields(s@, sep, trimmed),
{
    let parts = split_exec(s, sep);
    if !trimmed {
        return parts;
    }
    let mut r: Vec<Vec<char>> = Vec::new();
    let mut i: usize = 0;
    while i < parts.len()
        invariant
            i <= parts.len(),
            views(r@) == views(parts@).take(i as int).map_values(|p: Seq<char>| trim(p)),
        decreases parts.len() - i,
    {
        let t = trim_exec(&parts[i]);
        let ghost old_r = r@;
        r.push(t);
        assert(views(r@) =~= views(old_r).push(t@));
        assert(views(parts@).take(i + 1).map_values(|p: Seq<char>| trim(p)) =~= views(parts@).take(
            i as int,
        ).map_values(|p: Seq<char>| trim(p)).push(trim(parts@[i as int]@)));
        i += 1;
    }
    assert(views(parts@).take(parts.len() as int) =~= views(parts@));
    r
}

/// A stroke-count line `character count`.
pub open spec fn stroke_line(l: Seq<char>) -> Option<(Seq<char>, u8)> {
    let p = fields(l, ' ', true);
    if p.len() < 2 {
        None
    } else {
        match parse_u8(p[1]) {
            Some(n) => Some((p[0], n)),
            None => None,
        }
    }
}

/// The stroke-count table of well-formed lines, a later line winning.
pub open spec fn stroke_table(ls: Seq<Seq<char>>) -> Map<Seq<char>, u8>
    decreases ls.len(),
{
    if ls.len() == 0 {
        Map::empty()
    } else {
        let m = stroke_table(ls.drop_last());
        match stroke_line(ls.last()) {
            Some((k, v)) => m.insert(k, v),
            None => m,
        }
    }
}

/// Reads the stroke-count table, one `character count` line each. The first
/// line of another shape is an error.
pub fn get_stroke_order_map(lines: &Vec<String>) -> (r: Result<StringHashMap<u8>, TableError>)
    ensures
        match r {
            Ok(m) => (forall|i: int|
                0 <= i < lines.len() ==> (#[trigger] stroke_line(lines@[i]@)) is Some) && m@
                == stroke_table(strings_view(*lines)),
            Err(e) => e.line < lines.len() && stroke_line(lines@[e.line as int]@) is None && forall|
                i: int,
            | 0 <= i < e.line ==> (#[trigger] stroke_line(lines@[i]@)) is Some,
        },
{
    let ghost lv = strings_view(*lines);
    let mut m: StringHashMap<u8> = StringHashMap::new();
    let mut i: usize = 0;
    while i < lines.len()
        invariant
            i <= lines.len(),
            lv == strings_view(*lines),
            forall|t: int| 0 <= t < i ==> (#[trigger] stroke_line(lines@[t]@)) is Some,
            m@ == stroke_table(lv.take(i as int)),
        decreases lines.len() - i,
    {
        assert(lv.take(i + 1).drop_last() =~= lv.take(i as int));
        assert(lv.take(i + 1).last() == lines@[i as int]@);
        let p = fields_exec(&chars_of(lines[i].as_str()), ' ', true);
        if p.len() < 2 {
            return Err(TableError { line: i });
        }
        assert(views(p@)[1] == p@[1]@ && views(p@)[0] == p@[0]@);
        match parse_u8_exec(&p[1]) {
            Some(n) => {
                m.insert(string_of(&p[0]), n);
            },
            None => {
                return Err(TableError { line: i });
            },
        }
        i += 1;
    }
    assert(lv.take(lines.len() as int) =~= lv);
    Ok(m)
}

/// A syllable-table line `accented transcription`, keyed by the transcription.
pub open spec fn pinyin_line(l: Seq<char>) -> Option<PinyinMapView> {
    let p = fields(l, ' ', true);
    if p.len() < 2 {
        None
    } else {
        Some(PinyinMapView { pinyin: p[0], wade_giles: p[1] })
    }
}

pub open spec fn pinyin_table(ls: Seq<Seq<char>>) -> Map<Seq<char>, PinyinMapView>
    decreases ls.len(),
{
    if ls.len() == 0 {
        Map::empty()
    } else {
        let m = pinyin_table(ls.drop_last());
        match pinyin_line(ls.last()) {
            Some(p) => m.insert(p.wade_giles, p),
            None => m,
        }
    }
}

/// Reads the syllable table, one `accented transcription` line each, keyed by
/// transcription. The first line with fewer than two fields is an error.
pub fn get_pinyins_map(lines: &Vec<String>) -> (r: Result<StringHashMap<PinyinMap>, TableError>)
    ensures
        match r {
            Ok(m) => (forall|i: int|
                0 <= i < lines.len() ==> (#[trigger] pinyin_line(lines@[i]@)) is Some) && m@.map_values(
                |p: PinyinMap| p@,
            ) == pinyin_table(strings_view(*lines)),
            Err(e) => e.line < lines.len() && pinyin_line(lines@[e.line as int]@) is None && forall|
                i: int,
            | 0 <= i < e.line ==> (#[trigger] pinyin_line(lines@[i]@)) is Some,
        },
{
    let ghost lv = strings_view(*lines);
    let mut m: StringHashMap<PinyinMap> = StringHashMap::new();
    assert(m@.map_values(|p: PinyinMap| p@) =~= Map::<Seq<char>, PinyinMapView>::empty());
    let mut i: usize = 0;
    while i < lines.len()
        invariant
            i <= lines.len(),
            lv == strings_view(*lines),
            forall|t: int| 0 <= t < i ==> (#[trigger] pinyin_line(lines@[t]@)) is Some,
            m@.map_values(|p: PinyinMap| p@) == pinyin_table(lv.take(i as int)),
        decreases lines.len() - i,
    {
        assert(lv.take(i + 1).drop_last() =~= lv.take(i as int));
        assert(lv.take(i + 1).last() == lines@[i as int]@);
        let p = fields_exec(&chars_of(lines[i].as_str()), ' ', true);
        if p.len() < 2 {
            return Err(TableError { line: i });
        }
        assert(views(p@)[1] == p@[1]@ && views(p@)[0] == p@[0]@);
        let entry = PinyinMap { pinyin: string_of(&p[0]), wade_giles: string_of(&p[1]) };
        let ghost old_m = m@;
        m.insert(string_of(&p[1]), entry);
        assert(m@.map_values(|p: PinyinMap| p@) =~= old_m.map_values(|p: PinyinMap| p@).insert(
            p@[1]@,
            entry@,
        ));
        i += 1;
    }
    assert(lv.take(lines.len() as int) =~= lv);
    Ok(m)
}

/// A `key, value` line.
pub open spec fn pair_line(l: Seq<char>) -> Option<(Seq<char>, Seq<char>)> {
    let p = fields(l, ',', true);
    if p.len() < 2 {
        None
    } else {
        Some((p[0], p[1]))
    }
}

pub open spec fn pair_table(ls: Seq<Seq<char>>) -> Map<Seq<char>, Seq<char>>
    decreases ls.len(),
{
    if ls.len() == 0 {
        Map::empty()
    } else {
        let m = pair_table(ls.drop_last());
        match pair_line(ls.last()) {
            Some((k, v)) => m.insert(k, v),
            None => m,
        }
    }
}

/// Reads a two-column table, one `key, value` line each. The first line with
/// fewer than two fields is an error.
pub fn get1_lines_from_file(lines: &Vec<String>) -> (r: Result<StringHashMap<String>, TableError>)
    ensures
        match r {
            Ok(m) => (forall|i: int|
                0 <= i < lines.len() ==> (#[trigger] pair_line(lines@[i]@)) is Some) && m@.map_values(
                |s: String| s@,
            ) == pair_table(strings_view(*lines)),
            Err(e) => e.line < lines.len() && pair_line(lines@[e.line as int]@) is None && forall|
                i: int,
            | 0 <= i < e.line ==> (#[trigger] pair_line(lines@[i]@)) is Some,
        },
{
    let ghost lv = strings_view(*lines);
    let mut m: StringHashMap<String> = StringHashMap::new();
    assert(m@.map_values(|s: String| s@) =~= Map::<Seq<char>, Seq<char>>::empty());
    let mut i: usize = 0;
    while i < lines.len()
        invariant
            i <= lines.len(),
            lv == strings_view(*lines),
            forall|t: int| 0 <= t < i ==> (#[trigger] pair_line(lines@[t]@)) is Some,
            m@.map_values(|s: String| s@) == pair_table(lv.take(i as int)),
        decreases lines.len() - i,
    {
        assert(lv.take(i + 1).drop_last() =~= lv.take(i as int));
        assert(lv.take(i + 1).last() == lines@[i as int]@);
        let p = fields_exec(&chars_of(lines[i].as_str()), ',', true);
        if p.len() < 2 {
            return Err(TableError { line: i });
        }
        assert(views(p@)[1] == p@[1]@ && views(p@)[0] == p@[0]@);
        let v = string_of(&p[1]);
        let ghost old_m = m@;
        m.insert(string_of(&p[0]), v);
        assert(m@.map_values(|s: String| s@) =~= old_m.map_values(|s: String| s@).insert(p@[0]@, v@));
        i += 1;
    }
    assert(lv.take(lines.len() as int) =~= lv);
    Ok(m)
}

/// The non-empty pieces of `ps`, in order.
pub open spec fn nonempty_pieces(ps: Seq<Seq<char>>) -> Seq<Seq<char>>
    decreases ps.len(),
{
    if ps.len() == 0 {
        Seq::empty()
    } else if ps.last().len() > 0 {
        nonempty_pieces(ps.drop_last()).push(ps.last())
    } else {
        nonempty_pieces(ps.drop_last())
    }
}

/// A descriptor line `simplified, pinyin, meaning[, lexical item[, tag/tag/...]]`.
pub open spec fn descriptor_line(l: Seq<char>) -> Option<DescriptorView> {
    let p = fields(l, ',', true);
    if p.len() < 3 {
        None
    } else {
        Some(
            DescriptorView {
                simplified: p[0],
                pinyin: p[1],
                meaning: p[2],
                lexical_item: if p.len() > 3 {
                    nonempty(p[3])
                } else {
                    None
                },
                tags: if p.len() > 4 {
                    Some(nonempty_pieces(split(p[4], '/')))
                } else {
                    None
                },
            },
        )
    }
}

fn nonempty_strings(ps: &Vec<Vec<char>>) -> (r: Vec<String>)
    ensures
        strings_view(r) == nonempty_pieces(views(ps@)),
{
    let mut r: Vec<String> = Vec::new();
    let mut i: usize = 0;
    while i < ps.len()
        invariant
            i <= ps.len(),
            strings_view(r) == nonempty_pieces(views(ps@).take(i as int)),
        decreases ps.len() - i,
    {
        assert(views(ps@).take(i + 1).drop_last() =~= views(ps@).take(i as int));
        assert(views(ps@).take(i + 1).last() == ps@[i as int]@);
        if ps[i].len() > 0 {
            let s = string_of(&ps[i]);
            let ghost old_r = r@;
            r.push(s);
            assert(strings_view(r) =~= old_r.map_values(|x: String| x@).push(s@));
        }
        i += 1;
    }
    assert(views(ps@).take(ps.len() as int) =~= views(ps@));
    r
}

/// Parses one descriptor line; a line with fewer than three fields gives none.
pub fn parse_descriptor_line(line: &str) -> (r: Option<Descriptor>)
    ensures
        match r {
            Some(d) => descriptor_line(line@) == Some(d@),
            None => descriptor_line(line@) is None,
        },
{
    let p = fields_exec(&chars_of(line), ',', true);
    if p.len() < 3 {
        return None;
    }
    let ghost pv = views(p@);
    assert(pv[0] == p@[0]@ && pv[1] == p@[1]@ && pv[2] == p@[2]@);
    let lexical_item = if p.len() > 3 && p[3].len() > 0 {
        Some(string_of(&p[3]))
    } else {
        None
    };
    assert(p.len() > 3 ==> pv[3] == p@[3]@);
    let tags = if p.len() > 4 {
        assert(pv[4] == p@[4]@);
        Some(nonempty_strings(&split_exec(&p[4], '/')))
    } else {
        None
    };
    let d = Descriptor {
        simplified: string_of(&p[0]),
        pinyin: string_of(&p[1]),
        meaning: string_of(&p[2]),
        lexical_item,
        tags,
    };
    Some(d)
}

pub open spec fn descriptor_table(ls: Seq<Seq<char>>) -> Map<Seq<char>, DescriptorView>
    decreases ls.len(),
{
    if ls.len() == 0 {
        Map::empty()
    } else {
        let m = descriptor_table(ls.drop_last());
        match descriptor_line(ls.last()) {
            Some(d) => m.insert(d.simplified + d.meaning, d),
            None => m,
        }
    }
}

/// Reads the descriptor table, keyed by simplified headword followed by the
/// gloss. The first line with fewer than three fields is an error.
pub fn get_descriptors_from_file(lines: &Vec<String>) -> (r: Result<StringHashMap<Descriptor>, TableError>)
    ensures
        match r {
            Ok(m) => (forall|i: int|
                0 <= i < lines.len() ==> (#[trigger] descriptor_line(lines@[i]@)) is Some)
                && m@.map_values(|d: Descriptor| d@) == descriptor_table(strings_view(*lines)),
            Err(e) => e.line < lines.len() && descriptor_line(lines@[e.line as int]@) is None
                && forall|i: int| 0 <= i < e.line ==> (#[trigger] descriptor_line(lines@[i]@)) is Some,
        },
{
    let ghost lv = strings_view(*lines);
    let mut m: StringHashMap<Descriptor> = StringHashMap::new();
    assert(m@.map_values(|d: Descriptor| d@) =~= Map::<Seq<char>, DescriptorView>::empty());
    let mut i: usize = 0;
    while i < lines.len()
        invariant
            i <= lines.len(),
            lv == strings_view(*lines),
            forall|t: int| 0 <= t < i ==> (#[trigger] descriptor_line(lines@[t]@)) is Some,
            m@.map_values(|d: Descriptor| d@) == descriptor_table(lv.take(i as int)),
        decreases lines.len() - i,
    {
        assert(lv.take(i + 1).drop_last() =~= lv.take(i as int));
        assert(lv.take(i + 1).last() == lines@[i as int]@);
        match parse_descriptor_line(lines[i].as_str()) {
            Some(d) => {
                let mut key = chars_of(d.simplified.as_str());
                extend(&mut key, &chars_of(d.meaning.as_str()));
                let ghost old_m = m@;
                let ghost dv = d@;
                m.insert(string_of(&key), d);
                assert(m@.map_values(|d: Descriptor| d@) =~= old_m.map_values(|d: Descriptor| d@).insert(
                    dv.simplified + dv.meaning,
                    dv,
                ));
            },
            None => {
                return Err(TableError { line: i });
            },
        }
        i += 1;
    }
    assert(lv.take(lines.len() as int) =~= lv);
    Ok(m)
}

pub open spec fn field_at(p: Seq<Seq<char>>, i: int) -> Option<Seq<char>> {
    if i < p.len() {
        nonempty(p[i])
    } else {
        None
    }
}

/// An abbreviation line `key; value; traditional; simplified; transcription`,
/// empty or missing fields left out.
pub open spec fn abbreviation_line(l: Seq<char>) -> AbbreviationView {
    let p = fields(l, ';', true);
    AbbreviationView {
        key: p[0],
        value: field_at(p, 1),
        traditional: field_at(p, 2),
        simplified: field_at(p, 3),
        wade_giles_pinyin: field_at(p, 4),
    }
}

/// The abbreviation table: for each key, its targets in the order of the lines.
pub open spec fn abbreviation_table(ls: Seq<Seq<char>>) -> Map<Seq<char>, Seq<AbbreviationView>>
    decreases ls.len(),
{
    if ls.len() == 0 {
        Map::empty()
    } else {
        let m = abbreviation_table(ls.drop_last());
        let a = abbreviation_line(ls.last());
        let prev = if m.contains_key(a.key) {
            m[a.key]
        } else {
            Seq::empty()
        };
        m.insert(a.key, prev.push(a))
    }
}

fn field_at_exec(p: &Vec<Vec<char>>, i: usize) -> (r: Option<String>)
    ensures
        opt_view(r) == field_at(views(p@), i as int),
{
    if i < p.len() && p[i].len() > 0 {
        Some(string_of(&p[i]))
    } else {
        None
    }
}

pub open spec fn abbreviations_view(m: Map<Seq<char>, Vec<Abbreviation>>) -> Map<Seq<char>, Seq<AbbreviationView>> {
    m.map_values(|v: Vec<Abbreviation>| v@.map_values(|a: Abbreviation| a@))
}

/// Reads the abbreviation table: each line adds one target to its key's list.
pub fn get_abbreviations_from_file(lines: &Vec<String>) -> (r: StringHashMap<Vec<Abbreviation>>)
    ensures
        abbreviations_view(r@) == abbreviation_table(strings_view(*lines)),
{
    let ghost lv = strings_view(*lines);
    let mut m: StringHashMap<Vec<Abbreviation>> = StringHashMap::new();
    assert(abbreviations_view(m@) =~= Map::<Seq<char>, Seq<AbbreviationView>>::empty());
    let mut i: usize = 0;
    while i < lines.len()
        invariant
            i <= lines.len(),
            lv == strings_view(*lines),
            abbreviations_view(m@) == abbreviation_table(lv.take(i as int)),
        decreases lines.len() - i,
    {
        assert(lv.take(i + 1).drop_last() =~= lv.take(i as int));
        assert(lv.take(i + 1).last() == lines@[i as int]@);
        let p = fields_exec(&chars_of(lines[i].as_str()), ';', true);
        let ghost pv = views(p@);
        assert(split(lines@[i as int]@, ';').len() > 0) by {
            crate::record::lemma_split_nonempty(lines@[i as int]@, ';', 0, 0);
        }
        assert(pv.len() > 0);
        assert(pv[0] == p@[0]@);
        let key = string_of(&p[0]);
        let a = Abbreviation {
            key: string_of(&p[0]),
            value: field_at_exec(&p, 1),
            traditional: field_at_exec(&p, 2),
            simplified: field_at_exec(&p, 3),
            wade_giles_pinyin: field_at_exec(&p, 4),
        };
        let ghost av = a@;
        assert(av == abbreviation_line(lines@[i as int]@));
        let ghost old_m = m@;
        let ghost tbl = abbreviations_view(old_m);
        let mut list = match m.get(key.as_str()) {
            Some(l) => {
                assert(tbl.contains_key(key@));
                assert(tbl[key@] == l@.map_values(|a: Abbreviation| a@));
                copy_abbreviations(l)
            },
            None => {
                assert(!tbl.contains_key(key@));
                Vec::new()
            },
        };
        let ghost prev = list@.map_values(|a: Abbreviation| a@);
        assert(prev =~= if tbl.contains_key(av.key) {
            tbl[av.key]
        } else {
            Seq::empty()
        });
        list.push(a);
        assert(list@.map_values(|a: Abbreviation| a@) =~= prev.push(av));
        m.insert(key, list);
        assert(abbreviations_view(m@) =~= abbreviations_view(old_m).insert(
            av.key,
            prev.push(av),
        ));
        i += 1;
    }
    assert(lv.take(lines.len() as int) =~= lv);
    m
}

fn copy_abbreviations(v: &Vec<Abbreviation>) -> (r: Vec<Abbreviation>)
    ensures
        r@.map_values(|a: Abbreviation| a@) == v@.map_values(|a: Abbreviation| a@),
{
    let mut r: Vec<Abbreviation> = Vec::new();
    let mut i: usize = 0;
    while i < v.len()
        invariant
            i <= v.len(),
            r@.map_values(|a: Abbreviation| a@) == v@.take(i as int).map_values(|a: Abbreviation| a@),
        decreases v.len() - i,
    {
        let a = &v[i];
        let c = Abbreviation {
            key: copy_string(&a.key),
            value: copy_opt_string(&a.value),
            simplified: copy_opt_string(&a.simplified),
            traditional: copy_opt_string(&a.traditional),
            wade_giles_pinyin: copy_opt_string(&a.wade_giles_pinyin),
        };
        let ghost old_r = r@;
        r.push(c);
        assert(r@.map_values(|a: Abbreviation| a@) =~= old_r.map_values(|a: Abbreviation| a@).push(c@));
        assert(v@.take(i + 1).map_values(|a: Abbreviation| a@) =~= v@.take(i as int).map_values(
            |a: Abbreviation| a@,
        ).push(v@[i as int]@));
        i += 1;
    }
    assert(v@.take(v.len() as int) =~= v@);
    r
}

/// A radical line `value;meaning;strokes;pinyin`, fields taken as they stand.
pub open spec fn radical_line(l: Seq<char>) -> Option<RadicalView> {
    let p = split(l, ';');
    if p.len() < 4 {
        None
    } else {
        match parse_u8(p[2]) {
            Some(n) => Some(RadicalView { value: p[0], stroke_count: n, meaning: p[1], pinyin: p[3] }),
            None => None,
        }
    }
}

pub open spec fn radical_table(ls: Seq<Seq<char>>) -> Map<Seq<char>, RadicalView>
    decreases ls.len(),
{
    if ls.len() == 0 {
        Map::empty()
    } else {
        let m = radical_table(ls.drop_last());
        match radical_line(ls.last()) {
            Some(r) => m.insert(r.value, r),
            None => m,
        }
    }
}

/// Reads the radical table, keyed by radical. The first line with fewer than
/// four fields, or whose stroke count is not a `u8`, is an error.
pub fn get_radicals_from_file(lines: &Vec<String>) -> (r: Result<StringHashMap<Radical>, TableError>)
    ensures
        match r {
            Ok(m) => (forall|i: int|
                0 <= i < lines.len() ==> (#[trigger] radical_line(lines@[i]@)) is Some) && m@.map_values(
                |x: Radical| x@,
            ) == radical_table(strings_view(*lines)),
            Err(e) => e.line < lines.len() && radical_line(lines@[e.line as int]@) is None && forall|
                i: int,
            | 0 <= i < e.line ==> (#[trigger] radical_line(lines@[i]@)) is Some,
        },
{
    let ghost lv = strings_view(*lines);
    let mut m: StringHashMap<Radical> = StringHashMap::new();
    assert(m@.map_values(|x: Radical| x@) =~= Map::<Seq<char>, RadicalView>::empty());
    let mut i: usize = 0;
    while i < lines.len()
        invariant
            i <= lines.len(),
            lv == strings_view(*lines),
            forall|t: int| 0 <= t < i ==> (#[trigger] radical_line(lines@[t]@)) is Some,
            m@.map_values(|x: Radical| x@) == radical_table(lv.take(i as int)),
        decreases lines.len() - i,
    {
        assert(lv.take(i + 1).drop_last() =~= lv.take(i as int));
        assert(lv.take(i + 1).last() == lines@[i as int]@);
        let p = split_exec(&chars_of(lines[i].as_str()), ';');
        if p.len() < 4 {
            return Err(TableError { line: i });
        }
        let ghost pv = views(p@);
        assert(pv[0] == p@[0]@ && pv[1] == p@[1]@ && pv[2] == p@[2]@ && pv[3] == p@[3]@);
        let n = match parse_u8_exec(&p[2]) {
            Some(n) => n,
            None => return Err(TableError { line: i }),
        };
        let rad = Radical {
            value: string_of(&p[0]),
            stroke_count: n,
            meaning: string_of(&p[1]),
            pinyin: string_of(&p[3]),
        };
        let ghost old_m = m@;
        let ghost rv = rad@;
        m.insert(string_of(&p[0]), rad);
        assert(m@.map_values(|x: Radical| x@) =~= old_m.map_values(|x: Radical| x@).insert(rv.value, rv));
        i += 1;
    }
    assert(lv.take(lines.len() as int) =~= lv);
    Ok(m)
}

/// The set of trimmed lines of `ls`.
pub open spec fn line_set(ls: Seq<Seq<char>>) -> Set<Seq<char>>
    decreases ls.len(),
{
    if ls.len() == 0 {
        Set::empty()
    } else {
        line_set(ls.drop_last()).insert(trim(ls.last()))
    }
}

/// Reads a word list, one word per line.
pub fn get_lines_from_file(lines: &Vec<String>) -> (r: StringHashSet)
    ensures
        r@ == line_set(strings_view(*lines)),
{
    let ghost lv = strings_view(*lines);
    let mut set = StringHashSet::new();
    let mut i: usize = 0;
    while i < lines.len()
        invariant
            i <= lines.len(),
            lv == strings_view(*lines),
            set@ == line_set(lv.take(i as int)),
        decreases lines.len() - i,
    {
        assert(lv.take(i + 1).drop_last() =~= lv.take(i as int));
        assert(lv.take(i + 1).last() == lines@[i as int]@);
        let t = trim_exec(&chars_of(lines[i].as_str()));
        set.insert(string_of(&t));
        i += 1;
    }
    assert(lv.take(lines.len() as int) =~= lv);
    set
}

/// The set of the trimmed `index`-th fields of the lines that have one.
pub open spec fn row_set(ls: Seq<Seq<char>>, index: int, sep: Seq<char>) -> Set<Seq<char>>
    decreases ls.len(),
{
    if ls.len() == 0 {
        Set::empty()
    } else {
        let prev = row_set(ls.drop_last(), index, sep);
        let rows = split_str(ls.last(), sep);
        if index < rows.len() {
            prev.insert(trim(rows[index]))
        } else {
            prev
        }
    }
}

/// Reads one column of a delimited table: the `index`-th field of each line,
/// trimmed; lines without that field are skipped.
pub fn get_row_from_file(lines: &Vec<String>, index: usize, separator: &str) -> (r: StringHashSet)
    ensures
        r@ == row_set(strings_view(*lines), index as int, separator@),
{
    let ghost lv = strings_view(*lines);
    let sep = chars_of(separator);
    let mut set = StringHashSet::new();
    let mut i: usize = 0;
    while i < lines.len()
        invariant
            i <= lines.len(),
            lv == strings_view(*lines),
            sep@ == separator@,
            set@ == row_set(lv.take(i as int), index as int, separator@),
        decreases lines.len() - i,
    {
        assert(lv.take(i + 1).drop_last() =~= lv.take(i as int));
        assert(lv.take(i + 1).last() == lines@[i as int]@);
        let rows = split_str_exec(&chars_of(lines[i].as_str()), &sep);
        if index < rows.len() {
            assert(views(rows@)[index as int] == rows@[index as int]@);
            let t = trim_exec(&rows[index]);
            set.insert(string_of(&t));
        }
        i += 1;
    }
    assert(lv.take(lines.len() as int) =~= lv);
    set
}

/// A word list that marks its words with one tag (a proficiency level).
pub struct TagList {
    pub tag: String,
    pub words: StringHashSet,
}

/// The tags of the lists among `ls` that hold `word`, in list order.
pub open spec fn tags_for(ls: Seq<TagList>, word: Seq<char>) -> Seq<Seq<char>>
    decreases ls.len(),
{
    if ls.len() == 0 {
        Seq::empty()
    } else {
        let prev = tags_for(ls.drop_last(), word);
        if ls.last().words@.contains(word) {
            prev.push(ls.last().tag@)
        } else {
            prev
        }
    }
}

/// Appends to a descriptor the tag of each list that holds its headword; the
/// tags stay as they were when no list holds it.
pub fn update_descriptor(descriptor: &mut Descriptor, lists: &Vec<TagList>)
    ensures
        final(descriptor).simplified == old(descriptor).simplified,
        final(descriptor).pinyin == old(descriptor).pinyin,
        final(descriptor).meaning == old(descriptor).meaning,
        final(descriptor).lexical_item == old(descriptor).lexical_item,
        ({
            let all = seq_or_empty(old(descriptor)@.tags) + tags_for(lists@, old(descriptor)@.simplified);
            final(descriptor)@.tags == if all.len() > 0 {
                Some(all)
            } else {
                old(descriptor)@.tags
            }
        }),
{
    let mut tags = match &descriptor.tags {
        Some(t) => copy_strings(t),
        None => Vec::new(),
    };
    let ghost t0 = strings_view(tags);
    let mut i: usize = 0;
    while i < lists.len()
        invariant
            i <= lists.len(),
            strings_view(tags) == t0 + tags_for(lists@.take(i as int), descriptor@.simplified),
        decreases lists.len() - i,
    {
        assert(lists@.take(i + 1).drop_last() =~= lists@.take(i as int));
        assert(lists@.take(i + 1).last() == lists@[i as int]);
        if lists[i].words.contains(descriptor.simplified.as_str()) {
            let t = copy_string(&lists[i].tag);
            let ghost old_t = tags@;
            tags.push(t);
            assert(strings_view(tags) =~= old_t.map_values(|s: String| s@).push(t@));
        }
        i += 1;
    }
    assert(lists@.take(lists.len() as int) =~= lists@);
    if tags.len() > 0 {
        descriptor.tags = Some(tags);
    }
}

/// `a` comes strictly before `b` in character order, as `str` ordering has it.
pub open spec fn lex_lt(a: Seq<char>, b: Seq<char>) -> bool
    decreases a.len(),
{
    if b.len() == 0 {
        false
    } else if a.len() == 0 {
        true
    } else if a[0] != b[0] {
        a[0] < b[0]
    } else {
        lex_lt(a.subrange(1, a.len() as int), b.subrange(1, b.len() as int))
    }
}

pub fn lex_lt_exec(a: &String, b: &String) -> (r: bool)
    ensures
        r == lex_lt(a@, b@),
{
    let x = chars_of(a.as_str());
    let y = chars_of(b.as_str());
    let mut k: usize = 0;
    assert(x@.subrange(0, x.len() as int) =~= x@);
    assert(y@.subrange(0, y.len() as int) =~= y@);
    while k < x.len() && k < y.len() && x[k] == y[k]
        invariant
            k <= x.len(),
            k <= y.len(),
            x@ == a@,
            y@ == b@,
            lex_lt(x@, y@) == lex_lt(x@.subrange(k as int, x.len() as int), y@.subrange(k as int, y.len() as int)),
        decreases x.len() - k,
    {
        let ghost xs = x@.subrange(k as int, x.len() as int);
        let ghost ys = y@.subrange(k as int, y.len() as int);
        assert(xs.subrange(1, xs.len() as int) =~= x@.subrange(k + 1, x.len() as int));
        assert(ys.subrange(1, ys.len() as int) =~= y@.subrange(k + 1, y.len() as int));
        k += 1;
    }
    let ghost xs = x@.subrange(k as int, x.len() as int);
    let ghost ys = y@.subrange(k as int, y.len() as int);
    if k >= y.len() {
        assert(ys.len() == 0);
        false
    } else if k >= x.len() {
        assert(xs.len() == 0);
        true
    } else {
        assert(xs[0] == x@[k as int] && ys[0] == y@[k as int]);
        x[k] < y[k]
    }
}

/// `s` with `e` put in its place by pinyin, unless an entry with the same
/// pinyin is there already.
pub open spec fn insert_sorted(s: Seq<PinyinMapView>, e: PinyinMapView) -> Seq<PinyinMapView>
    decreases s.len(),
{
    if s.len() == 0 {
        seq![e]
    } else if s[0].pinyin == e.pinyin {
        s
    } else if lex_lt(e.pinyin, s[0].pinyin) {
        seq![e] + s
    } else {
        seq![s[0]] + insert_sorted(s.subrange(1, s.len() as int), e)
    }
}

proof fn lemma_insert_skip(s: Seq<PinyinMapView>, e: PinyinMapView, i: int)
    requires
        0 <= i <= s.len(),
        forall|j: int| 0 <= j < i ==> s[j].pinyin != e.pinyin && !lex_lt(e.pinyin, #[trigger] s[j].pinyin),
    ensures
        insert_sorted(s, e) == s.take(i) + insert_sorted(s.subrange(i, s.len() as int), e),
    decreases i,
{
    if i == 0 {
        assert(s.subrange(0, s.len() as int) =~= s);
        assert(s.take(0) + insert_sorted(s, e) =~= insert_sorted(s, e));
    } else {
        let t = s.subrange(1, s.len() as int);
        assert forall|j: int| 0 <= j < i - 1 implies t[j].pinyin != e.pinyin && !lex_lt(e.pinyin, #[trigger] t[j].pinyin) by {
            assert(t[j] == s[j + 1]);
        }
        lemma_insert_skip(t, e, i - 1);
        assert(t.subrange(i - 1, t.len() as int) =~= s.subrange(i, s.len() as int));
        assert(seq![s[0]] + t.take(i - 1) =~= s.take(i));
        assert(s[0].pinyin != e.pinyin && !lex_lt(e.pinyin, s[0].pinyin));
        assert(insert_sorted(s, e) == seq![s[0]] + insert_sorted(t, e));
        assert(seq![s[0]] + (t.take(i - 1) + insert_sorted(s.subrange(i, s.len() as int), e)) =~= s.take(i)
            + insert_sorted(s.subrange(i, s.len() as int), e));
    }
}

/// A syllable line `accented transcription`, fields as they stand.
pub open spec fn raw_pinyin_line(l: Seq<char>) -> Option<PinyinMapView> {
    let p = split(l, ' ');
    if p.len() < 2 {
        None
    } else {
        Some(PinyinMapView { pinyin: p[0], wade_giles: p[1] })
    }
}

/// The syllables of `ls` ordered by pinyin, the first line of each pinyin kept.
pub open spec fn pinyin_list(ls: Seq<Seq<char>>) -> Seq<PinyinMapView>
    decreases ls.len(),
{
    if ls.len() == 0 {
        Seq::empty()
    } else {
        let s = pinyin_list(ls.drop_last());
        match raw_pinyin_line(ls.last()) {
            Some(e) => insert_sorted(s, e),
            None => s,
        }
    }
}

/// Reads the syllable list, ordered by accented form, one entry per accented
/// form (the first line wins). The first line with fewer than two fields is
/// an error.
pub fn get_pinyins(lines: &Vec<String>) -> (r: Result<Vec<PinyinMap>, TableError>)
    ensures
        match r {
            Ok(v) => (forall|i: int|
                0 <= i < lines.len() ==> (#[trigger] raw_pinyin_line(lines@[i]@)) is Some) && v@.map_values(
                |p: PinyinMap| p@,
            ) == pinyin_list(strings_view(*lines)),
            Err(e) => e.line < lines.len() && raw_pinyin_line(lines@[e.line as int]@) is None && forall|
                i: int,
            | 0 <= i < e.line ==> (#[trigger] raw_pinyin_line(lines@[i]@)) is Some,
        },
{
    let ghost lv = strings_view(*lines);
    let mut v: Vec<PinyinMap> = Vec::new();
    let mut i: usize = 0;
    while i < lines.len()
        invariant
            i <= lines.len(),
            lv == strings_view(*lines),
            forall|t: int| 0 <= t < i ==> (#[trigger] raw_pinyin_line(lines@[t]@)) is Some,
            v@.map_values(|p: PinyinMap| p@) == pinyin_list(lv.take(i as int)),
        decreases lines.len() - i,
    {
        assert(lv.take(i + 1).drop_last() =~= lv.take(i as int));
        assert(lv.take(i + 1).last() == lines@[i as int]@);
        let p = split_exec(&chars_of(lines[i].as_str()), ' ');
        if p.len() < 2 {
            return Err(TableError { line: i });
        }
        assert(views(p@)[1] == p@[1]@ && views(p@)[0] == p@[0]@);
        let e = PinyinMap { pinyin: string_of(&p[0]), wade_giles: string_of(&p[1]) };
        let ghost s = v@.map_values(|p: PinyinMap| p@);
        let ghost ev = e@;
        let mut k: usize = 0;
        while k < v.len() && v[k].pinyin != e.pinyin && !lex_lt_exec(&e.pinyin, &v[k].pinyin)
            invariant
                k <= v.len(),
                s == v@.map_values(|p: PinyinMap| p@),
                ev == e@,
                forall|j: int| 0 <= j < k ==> s[j].pinyin != ev.pinyin && !lex_lt(ev.pinyin, #[trigger] s[j].pinyin),
            decreases v.len() - k,
        {
            assert(s[k as int] == v@[k as int]@);
            k += 1;
        }
        proof {
            lemma_insert_skip(s, ev, k as int);
        }
        let ghost rest = s.subrange(k as int, s.len() as int);
        if k < v.len() && v[k].pinyin == e.pinyin {
            assert(rest[0] == s[k as int]);
            assert(s.take(k as int) + rest =~= s);
        } else {
            proof {
                if k < v.len() {
                    assert(rest[0] == s[k as int]);
                    assert(s[k as int] == v@[k as int]@);
                }
            }
            v.insert(k, e);
            assert(v@.map_values(|p: PinyinMap| p@) =~= s.take(k as int) + insert_sorted(rest, ev));
        }
        i += 1;
    }
    assert(lv.take(lines.len() as int) =~= lv);
    Ok(v)
}

/// The text of a descriptor line: `simplified, pinyin, meaning, lexical item,
/// tag/tag/...`, an absent lexical item written empty.
pub open spec fn descriptor_text(d: DescriptorView) -> Seq<char> {
    let sep = ", "@;
    d.simplified + sep + d.pinyin + sep + d.meaning + sep + seq_or_empty(d.lexical_item) + sep
        + join(seq_or_empty(d.tags), '/')
}

/// Writes a descriptor back as one line of the descriptor table.
pub fn format_descriptor(d: &Descriptor) -> (r: String)
    ensures
        r@ == descriptor_text(d@),
{
    let sep = chars_of(", ");
    let mut out = chars_of(d.simplified.as_str());
    extend(&mut out, &sep);
    extend(&mut out, &chars_of(d.pinyin.as_str()));
    extend(&mut out, &sep);
    extend(&mut out, &chars_of(d.meaning.as_str()));
    extend(&mut out, &sep);
    match &d.lexical_item {
        Some(l) => extend(&mut out, &chars_of(l.as_str())),
        None => {},
    }
    extend(&mut out, &sep);
    let mut tags: Vec<Vec<char>> = Vec::new();
    match &d.tags {
        Some(t) => {
            let mut i: usize = 0;
            while i < t.len()
                invariant
                    i <= t.len(),
                    views(tags@) == strings_view(*t).take(i as int),
                decreases t.len() - i,
            {
                let c = chars_of(t[i].as_str());
                let ghost old_t = tags@;
                tags.push(c);
                assert(views(tags@) =~= views(old_t).push(c@));
                assert(strings_view(*t).take(i + 1) =~= strings_view(*t).take(i as int).push(t@[i as int]@));
                i += 1;
            }
            assert(strings_view(*t).take(t.len() as int) =~= strings_view(*t));
        },
        None => {
            assert(views(tags@) =~= Seq::<Seq<char>>::empty());
        },
    }
    extend(&mut out, &join_exec(&tags, '/'));
    let ghost dv = d@;
    assert(out@ =~= descriptor_text(dv));
    string_of(&out)
}

} // verus!
