//! The record parser: one dictionary line to one record.

use crate::annotate::lemma_find_char_bounds;
use crate::models::{strings_view, CERecord, RecordView};
use crate::text::{
    chars_of, join, find_char_exec, find_char_from, lower_exec, lower_of, replace_all, replace_all_exec,
    slice_of, split, split_exec, split_from, string_of, views,
};
use vstd::prelude::*;

verus! {

/// A dictionary line that does not have the shape `TRAD SIMP [TRANSCRIPTION] /gloss/.../`.
#[derive(Clone, Debug, PartialEq, Eq)]
pub struct MalformedEntry {
    pub line_number: u32,
}

/// The transcription with its irregular syllables (`u:` written as `v`) respelled.
pub open spec fn respell_text(s: Seq<char>) -> Seq<char> {
    let s1 = replace_all(s, "lu:4"@, "lv4"@);
    let s2 = replace_all(s1, "lu:3"@, "lv3"@);
    let s3 = replace_all(s2, "lu:2"@, "lv2"@);
    let s4 = replace_all(s3, "lu:e4"@, "lve4"@);
    replace_all(s4, "nu:e4"@, "nve4"@)
}

/// Where the four fields of a line lie: the two spaces after the headwords,
/// and the closing bracket of the transcription.
pub open spec fn field_bounds(s: Seq<char>) -> Option<(int, int, int)> {
    match find_char_from(s, ' ', 0) {
        None => None,
        Some(i) => match find_char_from(s, ' ', i + 1) {
            None => None,
            Some(j) => if j + 1 < s.len() && s[j + 1] == '[' {
                match find_char_from(s, ']', j + 2) {
                    None => None,
                    Some(k) => if k + 3 < s.len() && s[k + 1] == ' ' && s[k + 2] == '/' && s[s.len()
                        - 1] == '/' {
                        Some((i, j, k))
                    } else {
                        None
                    },
                }
            } else {
                None
            },
        },
    }
}

/// The text between the opening and the closing slash of the gloss list.
pub open spec fn gloss_body(s: Seq<char>) -> Seq<char> {
    let (i, j, k) = field_bounds(s)->0;
    s.subrange(k + 3, s.len() - 1)
}

/// The parsed fields of a well-formed line: traditional, simplified,
/// transcription (respelled and in small letters) and the glosses.
pub struct LineView {
    pub traditional: Seq<char>,
    pub simplified: Seq<char>,
    pub transcription: Seq<char>,
    pub glosses: Seq<Seq<char>>,
}

pub open spec fn parse_line(s: Seq<char>) -> Option<LineView> {
    match field_bounds(s) {
        None => None,
        Some((i, j, k)) => Some(
            LineView {
                traditional: s.subrange(0, i),
                simplified: s.subrange(i + 1, j),
                transcription: lower_of(respell_text(s.subrange(j + 2, k))),
                glosses: split(gloss_body(s), '/'),
            },
        ),
    }
}

fn respell_text_exec(s: &Vec<char>) -> (r: Vec<char>)
    ensures
        r@ == respell_text(s@),
{
    let s1 = replace_all_exec(s, &chars_of("lu:4"), &chars_of("lv4"));
    let s2 = replace_all_exec(&s1, &chars_of("lu:3"), &chars_of("lv3"));
    let s3 = replace_all_exec(&s2, &chars_of("lu:2"), &chars_of("lv2"));
    let s4 = replace_all_exec(&s3, &chars_of("lu:e4"), &chars_of("lve4"));
    replace_all_exec(&s4, &chars_of("nu:e4"), &chars_of("nve4"))
}

fn field_bounds_exec(s: &Vec<char>) -> (r: Option<(usize, usize, usize)>)
    ensures
        match r {
            Some((i, j, k)) => field_bounds(s@) == Some((i as int, j as int, k as int)) && i < j
                && j + 2 <= k && k + 3 < s.len(),
            None => field_bounds(s@) is None,
        },
{
    let i = match find_char_exec(s, ' ', 0) {
        Some(i) => i,
        None => return None,
    };
    proof {
        lemma_find_char_bounds(s@, ' ', 0);
    }
    assert(i < s.len());
    let j = match find_char_exec(s, ' ', i + 1) {
        Some(j) => j,
        None => return None,
    };
    proof {
        lemma_find_char_bounds(s@, ' ', i + 1);
    }
    assert(i < j < s.len());
    if !(j + 1 < s.len() && s[j + 1] == '[') {
        return None;
    }
    let k = match find_char_exec(s, ']', j + 2) {
        Some(k) => k,
        None => return None,
    };
    proof {
        lemma_find_char_bounds(s@, ']', j + 2);
    }
    assert(j + 2 <= k < s.len());
    if s.len() >= 4 && k < s.len() - 3 && s[k + 1] == ' ' && s[k + 2] == '/' && s[s.len() - 1] == '/' {
        Some((i, j, k))
    } else {
        None
    }
}

/// Parses one dictionary line `TRAD SIMP [TRANSCRIPTION] /gloss1/gloss2/.../`.
/// The transcription is respelled and put in small letters; the final slash
/// gives no empty gloss. A line of any other shape is a `MalformedEntry`.
pub fn parse_ce_record(line: &str, line_number: u32) -> (r: Result<CERecord, MalformedEntry>)
    ensures
        match r {
            Ok(rec) => parse_line(line@) == Some(
                LineView {
                    traditional: rec.traditional@,
                    simplified: rec.simplified@,
                    transcription: rec.wade_giles_pinyin@,
                    glosses: strings_view(rec.meanings),
                },
            ) && rec.line@ == line@ && rec.line_number == line_number,
            Err(e) => parse_line(line@) is None && e.line_number == line_number,
        },
{
    let s = chars_of(line);
    let (i, j, k) = match field_bounds_exec(&s) {
        Some(b) => b,
        None => return Err(MalformedEntry { line_number }),
    };
    let traditional = slice_of(&s, 0, i);
    let simplified = slice_of(&s, i + 1, j);
    let raw = slice_of(&s, j + 2, k);
    let transcription = lower_exec(&respell_text_exec(&raw));
    let body = slice_of(&s, k + 3, s.len() - 1);
    let parts = split_exec(&body, '/');
    let mut meanings: Vec<String> = Vec::new();
    let mut t: usize = 0;
    while t < parts.len()
        invariant
            t <= parts.len(),
            strings_view(meanings) == views(parts@).take(t as int),
        decreases parts.len() - t,
    {
        let m = string_of(&parts[t]);
        let ghost old_m = meanings@;
        meanings.push(m);
        assert(strings_view(meanings) =~= old_m.map_values(|x: String| x@).push(m@));
        assert(views(parts@).take(t + 1) =~= views(parts@).take(t as int).push(parts@[t as int]@));
        t += 1;
    }
    assert(views(parts@).take(parts.len() as int) =~= views(parts@));
    Ok(
        CERecord {
            line_number,
            line: line.to_owned(),
            simplified: string_of(&simplified),
            traditional: string_of(&traditional),
            wade_giles_pinyin: string_of(&transcription),
            meanings,
        },
    )
}

/// The number of times `c` occurs in `s` from index `k` on.
pub open spec fn count_from(s: Seq<char>, c: char, k: int) -> nat
    decreases s.len() - k,
{
    if k < 0 || k >= s.len() {
        0
    } else if s[k] == c {
        1 + count_from(s, c, k + 1)
    } else {
        count_from(s, c, k + 1)
    }
}

proof fn lemma_split_len(s: Seq<char>, c: char, start: int, k: int)
    requires
        0 <= k,
    ensures
        split_from(s, c, start, k).len() == count_from(s, c, k) + 1,
    decreases s.len() - k,
{
    if k < s.len() {
        if s[k] == c {
            lemma_split_len(s, c, k + 1, k + 1);
        } else {
            lemma_split_len(s, c, start, k + 1);
        }
    }
}

/// Splitting always gives at least one piece.
pub proof fn lemma_split_nonempty(s: Seq<char>, c: char, start: int, k: int)
    ensures
        split_from(s, c, start, k).len() > 0,
    decreases s.len() - k,
{
    if 0 <= k < s.len() {
        if s[k] != c {
            lemma_split_nonempty(s, c, start, k + 1);
        }
    }
}

/// A well-formed line has as many glosses as its slashes delimit: one more
/// than the slashes strictly between the opening and the closing slash.
pub proof fn lemma_gloss_count(line: Seq<char>)
    requires
        parse_line(line) is Some,
    ensures
        parse_line(line)->0.glosses.len() == count_from(gloss_body(line), '/', 0) + 1,
{
    lemma_split_len(gloss_body(line), '/', 0, 0);
}

/// A comment line of the dictionary source.
pub open spec fn is_comment(l: Seq<char>) -> bool {
    l.len() > 0 && l[0] == '#'
}

/// The record a well-formed line gives, with its number.
pub open spec fn record_of(l: Seq<char>, n: u32) -> RecordView {
    let v = parse_line(l)->0;
    RecordView {
        line_number: n,
        line: l,
        simplified: v.simplified,
        traditional: v.traditional,
        wade_giles_pinyin: v.transcription,
        meanings: v.glosses,
    }
}

/// The records of the well-formed lines and the numbers of the malformed
/// ones. Comment lines are skipped; the others are numbered from 1.
pub open spec fn parse_all(ls: Seq<Seq<char>>) -> (Seq<RecordView>, Seq<u32>)
    decreases ls.len(),
{
    if ls.len() == 0 {
        (Seq::empty(), Seq::empty())
    } else {
        let (rs, bad) = parse_all(ls.drop_last());
        let l = ls.last();
        if is_comment(l) {
            (rs, bad)
        } else {
            let n = (rs.len() + bad.len() + 1) as u32;
            if parse_line(l) is Some {
                (rs.push(record_of(l, n)), bad)
            } else {
                (rs, bad.push(n))
            }
        }
    }
}

proof fn lemma_parse_all_len(ls: Seq<Seq<char>>)
    ensures
        parse_all(ls).0.len() + parse_all(ls).1.len() <= ls.len(),
    decreases ls.len(),
{
    if ls.len() > 0 {
        lemma_parse_all_len(ls.drop_last());
    }
}

/// Parses the lines of the dictionary source: comment lines (`#...`) are
/// skipped, the others numbered from 1; well-formed lines become records and
/// malformed ones are reported, without stopping the run.
pub fn try_get_ce_dict_records(lines: &Vec<String>) -> (r: (Vec<CERecord>, Vec<MalformedEntry>))
    requires
        lines.len() < u32::MAX,
    ensures
        r.0@.map_values(|x: CERecord| x@) == parse_all(strings_view(*lines)).0,
        r.1@.map_values(|e: MalformedEntry| e.line_number) == parse_all(strings_view(*lines)).1,
{
    let ghost lv = strings_view(*lines);
    let mut records: Vec<CERecord> = Vec::new();
    let mut malformed: Vec<MalformedEntry> = Vec::new();
    let mut i: usize = 0;
    while i < lines.len()
        invariant
            i <= lines.len() < u32::MAX,
            lv == strings_view(*lines),
            records@.map_values(|x: CERecord| x@) == parse_all(lv.take(i as int)).0,
            malformed@.map_values(|e: MalformedEntry| e.line_number) == parse_all(lv.take(i as int)).1,
        decreases lines.len() - i,
    {
        let ghost prev = lv.take(i as int);
        assert(lv.take(i + 1).drop_last() =~= prev);
        assert(lv.take(i + 1).last() == lines@[i as int]@);
        proof {
            lemma_parse_all_len(prev);
        }
        let line = lines[i].as_str();
        let c = chars_of(line);
        if !(c.len() > 0 && c[0] == '#') {
            let n = (records.len() + malformed.len() + 1) as u32;
            match parse_ce_record(line, n) {
                Ok(rec) => {
                    let ghost old_r = records@;
                    assert(rec@ == record_of(lines@[i as int]@, n));
                    records.push(rec);
                    assert(records@.map_values(|x: CERecord| x@) =~= old_r.map_values(|x: CERecord| x@).push(
                        rec@,
                    ));
                },
                Err(e) => {
                    let ghost old_m = malformed@;
                    malformed.push(e);
                    assert(malformed@.map_values(|e: MalformedEntry| e.line_number) =~= old_m.map_values(
                        |e: MalformedEntry| e.line_number,
                    ).push(n));
                },
            }
        }
        i += 1;
    }
    assert(lv.take(lines.len() as int) =~= lv);
    (records, malformed)
}

/// `s[k..m)` holds no `c` and `s[m]` is `c`: the search from `k` finds `m`.
proof fn lemma_find_char_at(s: Seq<char>, c: char, k: int, m: int)
    requires
        0 <= k <= m < s.len(),
        s[m] == c,
        forall|x: int| k <= x < m ==> s[x] != c,
    ensures
        find_char_from(s, c, k) == Some(m),
    decreases m - k,
{
    if k < m {
        lemma_find_char_at(s, c, k + 1, m);
    }
}

proof fn lemma_split_walk(s: Seq<char>, c: char, st: int, k: int, m: int)
    requires
        0 <= k <= m <= s.len(),
        forall|x: int| k <= x < m ==> s[x] != c,
    ensures
        split_from(s, c, st, k) == split_from(s, c, st, m),
    decreases m - k,
{
    if k < m {
        lemma_split_walk(s, c, st, k + 1, m);
    }
}

proof fn lemma_split_shift(x: Seq<char>, b: Seq<char>, c: char, st: int, k: int)
    requires
        0 <= st <= k <= b.len(),
    ensures
        split_from(x + b, c, x.len() + st, x.len() + k) == split_from(b, c, st, k),
    decreases b.len() - k,
{
    let s = x + b;
    let n = x.len() as int;
    if k < b.len() {
        assert(s[n + k] == b[k]);
        if b[k] == c {
            lemma_split_shift(x, b, c, k + 1, k + 1);
            assert(s.subrange(n + st, n + k) =~= b.subrange(st, k));
        } else {
            lemma_split_shift(x, b, c, st, k + 1);
        }
    } else {
        assert(s.subrange(n + st, s.len() as int) =~= b.subrange(st, b.len() as int));
    }
}

/// Splitting `a`, `c`, `b` where `a` holds no `c` gives `a` and then the pieces of `b`.
proof fn lemma_split_front(a: Seq<char>, b: Seq<char>, c: char)
    requires
        forall|x: int| 0 <= x < a.len() ==> a[x] != c,
    ensures
        split(a + seq![c] + b, c) == seq![a] + split(b, c),
{
    let x = a + seq![c];
    let s = x + b;
    assert(a + seq![c] + b == s);
    assert forall|i: int| 0 <= i < a.len() implies s[i] != c by {
        assert(s[i] == a[i]);
    }
    lemma_split_walk(s, c, 0, 0, a.len() as int);
    assert(s[a.len() as int] == c);
    lemma_split_shift(x, b, c, 0, 0);
    assert(s.subrange(0, a.len() as int) =~= a);
}

/// A join of two or more pieces is the first piece, `sep`, and the join of the rest.
proof fn lemma_join_front(ws: Seq<Seq<char>>, sep: char)
    requires
        ws.len() >= 2,
    ensures
        join(ws, sep) == ws[0] + seq![sep] + join(ws.subrange(1, ws.len() as int), sep),
    decreases ws.len(),
{
    let rest = ws.subrange(1, ws.len() as int);
    if ws.len() == 2 {
        assert(ws.drop_last().len() == 1);
        assert(ws.drop_last()[0] == ws[0]);
        assert(join(ws.drop_last(), sep) == ws[0]);
        assert(rest.len() == 1);
        assert(rest[0] == ws[1]);
        assert(join(rest, sep) == ws[1]);
        assert(ws.last() == ws[1]);
    } else {
        lemma_join_front(ws.drop_last(), sep);
        assert(ws.drop_last().subrange(1, ws.len() - 1) =~= rest.drop_last());
        assert(ws.drop_last()[0] == ws[0]);
        assert(rest.last() == ws.last());
        assert(rest.len() >= 2);
        assert(join(rest, sep) == join(rest.drop_last(), sep) + seq![sep] + rest.last());
        assert(ws[0] + seq![sep] + join(rest.drop_last(), sep) + seq![sep] + ws.last() =~= ws[0]
            + seq![sep] + (join(rest.drop_last(), sep) + seq![sep] + ws.last()));
    }
}

/// Pieces free of `sep`, joined with it, split back into themselves.
pub proof fn lemma_split_join(ws: Seq<Seq<char>>, sep: char)
    requires
        ws.len() >= 1,
        forall|i: int, x: int| 0 <= i < ws.len() && 0 <= x < ws[i].len() ==> ws[i][x] != sep,
    ensures
        split(join(ws, sep), sep) == ws,
    decreases ws.len(),
{
    if ws.len() == 1 {
        let g = ws[0];
        lemma_split_walk(g, sep, 0, 0, g.len() as int);
        assert(g.subrange(0, g.len() as int) =~= g);
        assert(seq![g] =~= ws);
    } else {
        let rest = ws.subrange(1, ws.len() as int);
        lemma_join_front(ws, sep);
        assert forall|i: int, x: int| 0 <= i < rest.len() && 0 <= x < rest[i].len() implies rest[i][x]
            != sep by {
            assert(rest[i] == ws[i + 1]);
        }
        lemma_split_join(rest, sep);
        assert forall|x: int| 0 <= x < ws[0].len() implies ws[0][x] != sep by {}
        lemma_split_front(ws[0], join(rest, sep), sep);
        assert(seq![ws[0]] + rest =~= ws);
    }
}

/// A line written `T S [P] /g1/.../gn/`, with `T` and `S` free of spaces, `P`
/// free of `]` and at least one gloss, none holding `/`, parses into exactly
/// those fields: `n` glosses, `g1` to `gn` in order, the final slash giving no
/// empty gloss.
pub proof fn lemma_line_fields(t: Seq<char>, s: Seq<char>, p: Seq<char>, gs: Seq<Seq<char>>)
    requires
        forall|x: int| 0 <= x < t.len() ==> t[x] != ' ',
        forall|x: int| 0 <= x < s.len() ==> s[x] != ' ',
        forall|x: int| 0 <= x < p.len() ==> p[x] != ']',
        gs.len() >= 1,
        forall|i: int, x: int| 0 <= i < gs.len() && 0 <= x < gs[i].len() ==> gs[i][x] != '/',
    ensures
        parse_line(
            t + seq![' '] + s + seq![' ', '['] + p + seq![']', ' ', '/'] + join(gs, '/') + seq!['/'],
        ) == Some(
            LineView {
                traditional: t,
                simplified: s,
                transcription: lower_of(respell_text(p)),
                glosses: gs,
            },
        ),
{
    let body = join(gs, '/');
    let line = t + seq![' '] + s + seq![' ', '['] + p + seq![']', ' ', '/'] + body + seq!['/'];
    let a = t.len() as int;
    let b = a + 1 + s.len();
    let k = b + 2 + p.len();
    assert(line.len() == k + 3 + body.len() + 1);
    assert forall|x: int| 0 <= x < a implies line[x] != ' ' by {
        assert(line[x] == t[x]);
    }
    assert(line[a] == ' ');
    lemma_find_char_at(line, ' ', 0, a);
    assert forall|x: int| a + 1 <= x < b implies line[x] != ' ' by {
        assert(line[x] == s[x - a - 1]);
    }
    assert(line[b] == ' ');
    lemma_find_char_at(line, ' ', a + 1, b);
    assert(line[b + 1] == '[');
    assert forall|x: int| b + 2 <= x < k implies line[x] != ']' by {
        assert(line[x] == p[x - b - 2]);
    }
    assert(line[k] == ']');
    lemma_find_char_at(line, ']', b + 2, k);
    assert(line[k + 1] == ' ' && line[k + 2] == '/');
    assert(line[line.len() - 1] == '/');
    assert(field_bounds(line) == Some((a, b, k)));
    assert(line.subrange(0, a) =~= t);
    assert(line.subrange(a + 1, b) =~= s);
    assert(line.subrange(b + 2, k) =~= p);
    assert(gloss_body(line) =~= body);
    lemma_split_join(gs, '/');
}

} // verus!
