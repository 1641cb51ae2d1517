//! Character-level helpers: CJK detection, the single-character headwords of
//! a dictionary, and radical decomposition lines.

use crate::models::{
    copy_string, strings_view, CERecord, Decomposition, DecompositionView, Radical, RadicalView,
    RecordView,
};
use crate::text::{chars_of, is_ws, is_ws_char, split, split_exec, string_of, views};
use vstd::hash_map::StringHashMap;
use vstd::hash_set::StringHashSet;
use vstd::prelude::*;

verus! {

/// `c` lies in one of the CJK ideograph blocks: unified ideographs, extensions
/// A to E, and the compatibility ideographs with their supplement.
pub open spec fn cjk(c: char) -> bool {
    ('\u{4E00}' <= c && c <= '\u{9FFF}') || ('\u{3400}' <= c && c <= '\u{4DBF}') || (
    '\u{20000}' <= c && c <= '\u{2A6DF}') || ('\u{2A700}' <= c && c <= '\u{2B73F}') || (
    '\u{2B740}' <= c && c <= '\u{2B81F}') || ('\u{2B820}' <= c && c <= '\u{2CEAF}') || (
    '\u{F900}' <= c && c <= '\u{FAFF}') || ('\u{2F800}' <= c && c <= '\u{2FA1F}')
}

/// Whether `data` is a CJK ideograph.
pub fn is_cjk(data: &char) -> (r: bool)
    ensures
        r == cjk(*data),
{
    let c = *data;
    ('\u{4E00}' <= c && c <= '\u{9FFF}') || ('\u{3400}' <= c && c <= '\u{4DBF}') || (
    '\u{20000}' <= c && c <= '\u{2A6DF}') || ('\u{2A700}' <= c && c <= '\u{2B73F}') || (
    '\u{2B740}' <= c && c <= '\u{2B81F}') || ('\u{2B820}' <= c && c <= '\u{2CEAF}') || (
    '\u{F900}' <= c && c <= '\u{FAFF}') || ('\u{2F800}' <= c && c <= '\u{2FA1F}')
}

/// `seen` with `w` added when `w` is a single CJK character not yet in it.
pub open spec fn add_single(seen: Seq<char>, w: Seq<char>) -> Seq<char> {
    if w.len() == 1 && cjk(w[0]) && !seen.contains(w[0]) {
        seen.push(w[0])
    } else {
        seen
    }
}

/// The distinct CJK characters that stand alone as a simplified or
/// traditional headword, in the order they first appear.
pub open spec fn single_characters(rs: Seq<RecordView>) -> Seq<char>
    decreases rs.len(),
{
    if rs.len() == 0 {
        Seq::empty()
    } else {
        let r = rs.last();
        add_single(add_single(single_characters(rs.drop_last()), r.simplified), r.traditional)
    }
}

fn add_single_exec(out: &mut Vec<char>, seen: &mut StringHashSet, w: &String)
    requires
        forall|c: char| #[trigger] old(seen)@.contains(seq![c]) <==> old(out)@.contains(c),
        forall|k: Seq<char>| #[trigger] old(seen)@.contains(k) ==> k.len() == 1,
    ensures
        final(out)@ == add_single(old(out)@, w@),
        forall|c: char| #[trigger] final(seen)@.contains(seq![c]) <==> final(out)@.contains(c),
        forall|k: Seq<char>| #[trigger] final(seen)@.contains(k) ==> k.len() == 1,
{
    let v = chars_of(w.as_str());
    if v.len() == 1 && is_cjk(&v[0]) {
        let c = v[0];
        assert(v@ =~= seq![c]);
        if !seen.contains(w.as_str()) {
            let ghost old_out = out@;
            out.push(c);
            seen.insert(copy_string(w));
            assert forall|d: char| #[trigger] seen@.contains(seq![d]) <==> out@.contains(d) by {
                if d == c {
                    assert(out@[out@.len() - 1] == d);
                } else {
                    assert(seq![d] != seq![c]) by {
                        assert(seq![d][0] != seq![c][0]);
                    }
                    if out@.contains(d) {
                        let j = choose|j: int| 0 <= j < out@.len() && out@[j] == d;
                        assert(old_out[j] == d);
                    }
                    if old_out.contains(d) {
                        let j = choose|j: int| 0 <= j < old_out.len() && old_out[j] == d;
                        assert(out@[j] == d);
                    }
                }
            }
        }
    }
}

/// The distinct CJK characters that stand alone as a headword, simplified
/// form before traditional, in the order of the records.
pub fn get_single_characters(records: &Vec<CERecord>) -> (r: Vec<char>)
    ensures
        r@ == single_characters(records@.map_values(|x: CERecord| x@)),
{
    let ghost rv = records@.map_values(|x: CERecord| x@);
    let mut out: Vec<char> = Vec::new();
    let mut seen = StringHashSet::new();
    let mut i: usize = 0;
    while i < records.len()
        invariant
            i <= records.len(),
            rv == records@.map_values(|x: CERecord| x@),
            out@ == single_characters(rv.take(i as int)),
            forall|c: char| #[trigger] seen@.contains(seq![c]) <==> out@.contains(c),
            forall|k: Seq<char>| #[trigger] seen@.contains(k) ==> k.len() == 1,
        decreases records.len() - i,
    {
        assert(rv.take(i + 1).drop_last() =~= rv.take(i as int));
        add_single_exec(&mut out, &mut seen, &records[i].simplified);
        add_single_exec(&mut out, &mut seen, &records[i].traditional);
        i += 1;
    }
    assert(rv.take(records.len() as int) =~= rv);
    out
}

/// `t` without its white space.
pub open spec fn drop_ws(t: Seq<char>) -> Seq<char>
    decreases t.len(),
{
    if t.len() == 0 {
        t
    } else if is_ws(t.last()) {
        drop_ws(t.drop_last())
    } else {
        drop_ws(t.drop_last()).push(t.last())
    }
}

/// `s[k..]` without parenthesised notes and white space; `open` is where the
/// note being read began. An opening parenthesis never closed is kept.
pub open spec fn strip_notes_from(s: Seq<char>, open: Option<int>, k: int) -> Seq<char>
    decreases s.len() - k,
{
    if k < 0 || k >= s.len() {
        match open {
            Some(i) => drop_ws(s.subrange(i, s.len() as int)),
            None => Seq::empty(),
        }
    } else {
        match open {
            Some(i) => if s[k] == ')' {
                strip_notes_from(s, None, k + 1)
            } else {
                strip_notes_from(s, Some(i), k + 1)
            },
            None => if s[k] == '(' {
                strip_notes_from(s, Some(k), k + 1)
            } else if is_ws(s[k]) {
                strip_notes_from(s, None, k + 1)
            } else {
                seq![s[k]] + strip_notes_from(s, None, k + 1)
            },
        }
    }
}

pub open spec fn radicals_view(m: Map<Seq<char>, Radical>) -> Map<Seq<char>, RadicalView> {
    m.map_values(|r: Radical| r@)
}

/// A decomposition line `character;parts;radicals;strokes`: the radicals,
/// looked up by name, and the graphical components. Lines with fewer fields,
/// or naming a radical the table lacks, give none.
pub open spec fn decomposition_of(line: Seq<char>, lookup: Map<Seq<char>, RadicalView>) -> Option<
    DecompositionView,
> {
    let parts = split(strip_notes_from(line, None, 0), ';');
    if parts.len() < 4 {
        None
    } else {
        let names = split(parts[2], ',');
        if forall|i: int| 0 <= i < names.len() ==> lookup.contains_key(#[trigger] names[i]) {
            Some(
                DecompositionView {
                    radical: names.map_values(|n: Seq<char>| lookup[n]),
                    graphical: split(parts[3], ','),
                },
            )
        } else {
            None
        }
    }
}

fn drop_ws_exec(out: &mut Vec<char>, s: &Vec<char>, i: usize)
    requires
        i <= s.len(),
    ensures
        final(out)@ == old(out)@ + drop_ws(s@.subrange(i as int, s.len() as int)),
{
    let ghost o = out@;
    let mut j = i;
    while j < s.len()
        invariant
            i <= j <= s.len(),
            out@ == o + drop_ws(s@.subrange(i as int, j as int)),
        decreases s.len() - j,
    {
        assert(s@.subrange(i as int, j + 1).drop_last() =~= s@.subrange(i as int, j as int));
        if !is_ws_char(s[j]) {
            out.push(s[j]);
            assert(out@ =~= o + drop_ws(s@.subrange(i as int, j + 1)));
        }
        j += 1;
    }
}

fn strip_notes(s: &Vec<char>) -> (r: Vec<char>)
    ensures
        r@ == strip_notes_from(s@, None, 0),
{
    let mut out: Vec<char> = Vec::new();
    let mut open: Option<usize> = None;
    let mut k: usize = 0;
    while k < s.len()
        invariant
            k <= s.len(),
            match open {
                Some(i) => i < k,
                None => true,
            },
            out@ + strip_notes_from(
                s@,
                match open {
                    Some(i) => Some(i as int),
                    None => None,
                },
                k as int,
            ) == strip_notes_from(s@, None, 0),
        decreases s.len() - k,
    {
        match open {
            Some(i) => {
                if s[k] == ')' {
                    open = None;
                }
            },
            None => {
                if s[k] == '(' {
                    open = Some(k);
                } else if !is_ws_char(s[k]) {
                    assert(out@ + strip_notes_from(s@, None, k as int) =~= out@.push(s@[k as int])
                        + strip_notes_from(s@, None, k + 1));
                    out.push(s[k]);
                }
            },
        }
        k += 1;
    }
    match open {
        Some(i) => {
            drop_ws_exec(&mut out, s, i);
        },
        None => {
            assert(out@ + strip_notes_from(s@, None, k as int) =~= out@);
        },
    }
    out
}

fn copy_radical(r: &Radical) -> (c: Radical)
    ensures
        c@ == r@,
{
    Radical {
        value: copy_string(&r.value),
        stroke_count: r.stroke_count,
        meaning: copy_string(&r.meaning),
        pinyin: copy_string(&r.pinyin),
    }
}

/// Parses one decomposition line against the radical table.
pub fn parse_decomposition(line: &str, lookup: &StringHashMap<Radical>) -> (r: Option<Decomposition>)
    ensures
        match r {
            Some(d) => decomposition_of(line@, radicals_view(lookup@)) == Some(d@),
            None => decomposition_of(line@, radicals_view(lookup@)) is None,
        },
{
    let stripped = strip_notes(&chars_of(line));
    let parts = split_exec(&stripped, ';');
    if parts.len() < 4 {
        return None;
    }
    let ghost pv = views(parts@);
    assert(pv[2] == parts@[2]@);
    assert(pv[3] == parts@[3]@);
    let names = split_exec(&parts[2], ',');
    let ghost nv = views(names@);
    let ghost lv = radicals_view(lookup@);
    let mut radical: Vec<Radical> = Vec::new();
    let mut i: usize = 0;
    while i < names.len()
        invariant
            i <= names.len(),
            nv == views(names@),
            pv == views(parts@),
            pv == split(strip_notes_from(line@, None, 0), ';'),
            pv.len() >= 4,
            nv == split(pv[2], ','),
            lv == radicals_view(lookup@),
            forall|t: int| 0 <= t < i ==> lv.contains_key(#[trigger] nv[t]),
            radical@.map_values(|x: Radical| x@) == nv.take(i as int).map_values(|n: Seq<char>| lv[n]),
        decreases names.len() - i,
    {
        let key = string_of(&names[i]);
        match lookup.get(key.as_str()) {
            Some(rad) => {
                let c = copy_radical(rad);
                let ghost old_r = radical@;
                radical.push(c);
                assert(radical@.map_values(|x: Radical| x@) =~= old_r.map_values(|x: Radical| x@).push(c@));
                assert(nv.take(i + 1).map_values(|n: Seq<char>| lv[n]) =~= nv.take(i as int).map_values(
                    |n: Seq<char>| lv[n],
                ).push(lv[nv[i as int]]));
            },
            None => {
                assert(!lv.contains_key(nv[i as int]));
                return None;
            },
        }
        i += 1;
    }
    assert(nv.take(names.len() as int) =~= nv);
    let pieces = split_exec(&parts[3], ',');
    let mut graphical: Vec<String> = Vec::new();
    let mut j: usize = 0;
    while j < pieces.len()
        invariant
            j <= pieces.len(),
            strings_view(graphical) == views(pieces@).take(j as int),
        decreases pieces.len() - j,
    {
        let s = string_of(&pieces[j]);
        let ghost old_g = graphical@;
        graphical.push(s);
        assert(strings_view(graphical) =~= old_g.map_values(|x: String| x@).push(s@));
        assert(views(pieces@).take(j + 1) =~= views(pieces@).take(j as int).push(pieces@[j as int]@));
        j += 1;
    }
    assert(views(pieces@).take(pieces.len() as int) =~= views(pieces@));
    let d = Decomposition { radical, graphical };
    assert(d@.radical =~= nv.map_values(|n: Seq<char>| lv[n]));
    Some(d)
}

} // verus!
