//! Operations on character sequences, each with its meaning as a spec function.

use vstd::prelude::*;

verus! {

/// The characters of `s`, in order.
pub fn chars_of(s: &str) -> (r: Vec<char>)
    ensures
        r@ == s@,
{
    let mut v: Vec<char> = Vec::new();
    for c in it: s.chars()
        invariant
            v@ == it.seq().take(it.index() as int),
            it.seq() == s@,
    {
        v.push(c);
    }
    v
}

/// Relies on `String::push`: appends one character.
#[verifier::external_body]
fn push_char(s: &mut String, c: char)
    ensures
        final(s)@ == old(s)@.push(c),
{
    s.push(c);
}

/// A `String` holding exactly the characters of `v`.
pub fn string_of(v: &Vec<char>) -> (r: String)
    ensures
        r@ == v@,
{
    let mut s = String::new();
    let mut i: usize = 0;
    while i < v.len()
        invariant
            i <= v.len(),
            s@ == v@.take(i as int),
        decreases v.len() - i,
    {
        push_char(&mut s, v[i]);
        assert(v@.take(i + 1) =~= v@.take(i as int).push(v@[i as int]));
        i += 1;
    }
    assert(v@.take(v.len() as int) =~= v@);
    s
}

/// The small-letter form of `s` under Unicode case mapping.
pub uninterp spec fn lower_of(s: Seq<char>) -> Seq<char>;

/// Relies on `str::to_lowercase`: the small-letter form of `s` by Unicode
/// case mapping, which depends on the characters alone.
#[verifier::external_body]
fn lowercase(s: &str) -> (r: String)
    ensures
        r@ == lower_of(s@),
{
    s.to_lowercase()
}

/// Whether `c` has the Unicode `Alphabetic` property.
pub uninterp spec fn alphabetic_of(c: char) -> bool;

/// Relies on `char::is_alphabetic`: whether `c` has the Unicode `Alphabetic`
/// property, which depends on the character alone.
#[verifier::external_body]
pub(crate) fn is_alphabetic(c: char) -> (r: bool)
    ensures
        r == alphabetic_of(c),
{
    c.is_alphabetic()
}


/// `p` occurs in `s` starting at index `i`.
pub open spec fn matches_at(s: Seq<char>, p: Seq<char>, i: int) -> bool {
    0 <= i && i + p.len() <= s.len() && s.subrange(i, i + p.len()) == p
}

/// The first index at or after `k` where `p` occurs in `s`.
pub open spec fn find_from(s: Seq<char>, p: Seq<char>, k: int) -> Option<int>
    decreases s.len() + 1 - k,
{
    if k < 0 || k + p.len() > s.len() {
        None
    } else if matches_at(s, p, k) {
        Some(k)
    } else {
        find_from(s, p, k + 1)
    }
}

pub open spec fn contains(s: Seq<char>, p: Seq<char>) -> bool {
    find_from(s, p, 0) is Some
}

pub open spec fn starts_with(s: Seq<char>, p: Seq<char>) -> bool {
    p.len() <= s.len() && s.take(p.len() as int) == p
}

/// The first index at or after `k` that holds `c`.
pub open spec fn find_char_from(s: Seq<char>, c: char, k: int) -> Option<int>
    decreases s.len() - k,
{
    if k < 0 || k >= s.len() {
        None
    } else if s[k] == c {
        Some(k)
    } else {
        find_char_from(s, c, k + 1)
    }
}

/// Every non-overlapping occurrence of `p` in `s[k..]`, scanning left to right,
/// replaced by `r`.
pub open spec fn replace_from(s: Seq<char>, p: Seq<char>, r: Seq<char>, k: int) -> Seq<char>
    decreases s.len() + 1 - k,
{
    if k < 0 || k >= s.len() {
        Seq::empty()
    } else if p.len() > 0 && matches_at(s, p, k) {
        r + replace_from(s, p, r, k + p.len())
    } else {
        seq![s[k]] + replace_from(s, p, r, k + 1)
    }
}

pub open spec fn replace_all(s: Seq<char>, p: Seq<char>, r: Seq<char>) -> Seq<char> {
    replace_from(s, p, r, 0)
}

/// `s` without any occurrence of `p`.
pub open spec fn remove_all(s: Seq<char>, p: Seq<char>) -> Seq<char> {
    replace_from(s, p, Seq::empty(), 0)
}

/// Unicode white space, as `char::is_whitespace` documents it.
pub open spec fn is_ws(c: char) -> bool {
    c == ' ' || ('\t' <= c && c <= '\r') || c == '\u{85}' || c == '\u{a0}' || c == '\u{1680}'
        || ('\u{2000}' <= c && c <= '\u{200a}') || c == '\u{2028}' || c == '\u{2029}'
        || c == '\u{202f}' || c == '\u{205f}' || c == '\u{3000}'
}

pub fn is_ws_char(c: char) -> (r: bool)
    ensures
        r == is_ws(c),
{
    c == ' ' || ('\t' <= c && c <= '\r') || c == '\u{85}' || c == '\u{a0}' || c == '\u{1680}'
        || ('\u{2000}' <= c && c <= '\u{200a}') || c == '\u{2028}' || c == '\u{2029}'
        || c == '\u{202f}' || c == '\u{205f}' || c == '\u{3000}'
}

/// The first index at or after `i` that holds no white space (or the length).
pub open spec fn skip_ws(s: Seq<char>, i: int) -> int
    decreases s.len() - i,
{
    if 0 <= i < s.len() && is_ws(s[i]) {
        skip_ws(s, i + 1)
    } else {
        i
    }
}

/// The end of `s[lo..j]` once trailing white space is dropped.
pub open spec fn back_ws(s: Seq<char>, lo: int, j: int) -> int
    decreases j - lo,
{
    if lo < j && j <= s.len() && is_ws(s[j - 1]) {
        back_ws(s, lo, j - 1)
    } else {
        j
    }
}

/// `s` without leading and trailing white space, as `str::trim` gives it.
pub open spec fn trim(s: Seq<char>) -> Seq<char> {
    let a = skip_ws(s, 0);
    s.subrange(a, back_ws(s, a, s.len() as int))
}

/// The pieces of `s[start..]` between occurrences of `sep`, scanning from `k`.
pub open spec fn split_from(s: Seq<char>, sep: char, start: int, k: int) -> Seq<Seq<char>>
    decreases s.len() - k,
{
    if k < 0 || k >= s.len() {
        seq![s.subrange(start, s.len() as int)]
    } else if s[k] == sep {
        seq![s.subrange(start, k)] + split_from(s, sep, k + 1, k + 1)
    } else {
        split_from(s, sep, start, k + 1)
    }
}

/// The pieces of `s` between occurrences of `sep`, as `str::split` gives them.
pub open spec fn split(s: Seq<char>, sep: char) -> Seq<Seq<char>> {
    split_from(s, sep, 0, 0)
}

/// The maximal runs of non-white-space characters of `s[start..]`, scanning from `k`.
pub open spec fn words_from(s: Seq<char>, start: int, k: int) -> Seq<Seq<char>>
    decreases s.len() - k,
{
    if k < 0 || k >= s.len() {
        if start < s.len() {
            seq![s.subrange(start, s.len() as int)]
        } else {
            Seq::empty()
        }
    } else if is_ws(s[k]) {
        if start < k {
            seq![s.subrange(start, k)] + words_from(s, k + 1, k + 1)
        } else {
            words_from(s, k + 1, k + 1)
        }
    } else {
        words_from(s, start, k + 1)
    }
}

/// The white-space separated words of `s`.
pub open spec fn words(s: Seq<char>) -> Seq<Seq<char>> {
    words_from(s, 0, 0)
}

/// `ws` joined with `sep` between neighbours.
pub open spec fn join(ws: Seq<Seq<char>>, sep: char) -> Seq<char>
    decreases ws.len(),
{
    if ws.len() == 0 {
        Seq::empty()
    } else if ws.len() == 1 {
        ws[0]
    } else {
        join(ws.drop_last(), sep) + seq![sep] + ws.last()
    }
}

/// The views of a vector of character vectors.
pub open spec fn views(v: Seq<Vec<char>>) -> Seq<Seq<char>> {
    v.map_values(|x: Vec<char>| x@)
}

/// `s[lo..hi]` as a new vector.
pub fn slice_of(s: &Vec<char>, lo: usize, hi: usize) -> (r: Vec<char>)
    requires
        lo <= hi <= s.len(),
    ensures
        r@ == s@.subrange(lo as int, hi as int),
{
    let mut r: Vec<char> = Vec::new();
    let mut i = lo;
    while i < hi
        invariant
            lo <= i <= hi <= s.len(),
            r@ == s@.subrange(lo as int, i as int),
        decreases hi - i,
    {
        r.push(s[i]);
        assert(r@ =~= s@.subrange(lo as int, i + 1));
        i += 1;
    }
    r
}

/// Appends `t` to `r`.
pub fn extend(r: &mut Vec<char>, t: &Vec<char>)
    ensures
        final(r)@ == old(r)@ + t@,
{
    let mut i: usize = 0;
    while i < t.len()
        invariant
            i <= t.len(),
            r@ == old(r)@ + t@.take(i as int),
        decreases t.len() - i,
    {
        r.push(t[i]);
        assert(r@ =~= old(r)@ + t@.take(i + 1));
        i += 1;
    }
    assert(t@.take(t.len() as int) =~= t@);
}

pub fn matches_at_exec(s: &Vec<char>, p: &Vec<char>, i: usize) -> (r: bool)
    ensures
        r == matches_at(s@, p@, i as int),
{
    if i > s.len() || p.len() > s.len() - i {
        return false;
    }
    let mut j: usize = 0;
    while j < p.len()
        invariant
            j <= p.len(),
            i + p.len() <= s.len(),
            forall|t: int| 0 <= t < j ==> s@[i + t] == p@[t],
        decreases p.len() - j,
    {
        if s[i + j] != p[j] {
            assert(s@.subrange(i as int, i + p.len())[j as int] != p@[j as int]);
            return false;
        }
        j += 1;
    }
    assert(s@.subrange(i as int, i + p.len()) =~= p@);
    true
}

pub fn find_exec(s: &Vec<char>, p: &Vec<char>, k: usize) -> (r: Option<usize>)
    ensures
        match r {
            Some(i) => find_from(s@, p@, k as int) == Some(i as int),
            None => find_from(s@, p@, k as int) is None,
        },
{
    let mut i = k;
    while i <= s.len() && p.len() <= s.len() - i
        invariant
            k <= i,
            find_from(s@, p@, k as int) == find_from(s@, p@, i as int),
        decreases s.len() + 1 - i,
    {
        if matches_at_exec(s, p, i) {
            return Some(i);
        }
        if i >= s.len() {
            assert(find_from(s@, p@, i + 1) is None);
            return None;
        }
        i += 1;
    }
    None
}

pub fn contains_exec(s: &Vec<char>, p: &Vec<char>) -> (r: bool)
    ensures
        r == contains(s@, p@),
{
    find_exec(s, p, 0).is_some()
}

pub fn starts_with_exec(s: &Vec<char>, p: &Vec<char>) -> (r: bool)
    ensures
        r == starts_with(s@, p@),
{
    let r = matches_at_exec(s, p, 0);
    assert(r ==> s@.take(p.len() as int) =~= s@.subrange(0, p.len() as int));
    assert(starts_with(s@, p@) ==> s@.take(p.len() as int) =~= s@.subrange(0, p.len() as int));
    r
}

pub fn find_char_exec(s: &Vec<char>, c: char, k: usize) -> (r: Option<usize>)
    ensures
        match r {
            Some(i) => find_char_from(s@, c, k as int) == Some(i as int),
            None => find_char_from(s@, c, k as int) is None,
        },
{
    let mut i = k;
    while i < s.len()
        invariant
            k <= i,
            find_char_from(s@, c, k as int) == find_char_from(s@, c, i as int),
        decreases s.len() - i,
    {
        if s[i] == c {
            return Some(i);
        }
        i += 1;
    }
    None
}

pub fn replace_all_exec(s: &Vec<char>, p: &Vec<char>, r: &Vec<char>) -> (out: Vec<char>)
    ensures
        out@ == replace_all(s@, p@, r@),
{
    let mut out: Vec<char> = Vec::new();
    let mut k: usize = 0;
    while k < s.len()
        invariant
            k <= s.len(),
            out@ + replace_from(s@, p@, r@, k as int) == replace_all(s@, p@, r@),
        decreases s.len() - k,
    {
        if p.len() > 0 && matches_at_exec(s, p, k) {
            assert(out@ + replace_from(s@, p@, r@, k as int) =~= (out@ + r@) + replace_from(
                s@,
                p@,
                r@,
                k + p.len(),
            ));
            extend(&mut out, r);
            k = k + p.len();
        } else {
            assert(out@ + replace_from(s@, p@, r@, k as int) =~= out@.push(s@[k as int])
                + replace_from(s@, p@, r@, k + 1));
            out.push(s[k]);
            k += 1;
        }
    }
    assert(out@ + replace_from(s@, p@, r@, k as int) =~= out@);
    out
}

pub fn remove_all_exec(s: &Vec<char>, p: &Vec<char>) -> (out: Vec<char>)
    ensures
        out@ == remove_all(s@, p@),
{
    let e: Vec<char> = Vec::new();
    assert(e@ =~= Seq::<char>::empty());
    replace_all_exec(s, p, &e)
}

pub fn trim_exec(s: &Vec<char>) -> (r: Vec<char>)
    ensures
        r@ == trim(s@),
{
    let mut a: usize = 0;
    while a < s.len() && is_ws_char(s[a])
        invariant
            a <= s.len(),
            skip_ws(s@, 0) == skip_ws(s@, a as int),
        decreases s.len() - a,
    {
        a += 1;
    }
    let mut b: usize = s.len();
    while b > a && is_ws_char(s[b - 1])
        invariant
            a <= b <= s.len(),
            skip_ws(s@, 0) == a,
            back_ws(s@, a as int, s.len() as int) == back_ws(s@, a as int, b as int),
        decreases b - a,
    {
        b -= 1;
    }
    slice_of(s, a, b)
}

pub fn split_exec(s: &Vec<char>, sep: char) -> (r: Vec<Vec<char>>)
    ensures
        views(r@) == split(s@, sep),
{
    let mut parts: Vec<Vec<char>> = Vec::new();
    let mut start: usize = 0;
    let mut k: usize = 0;
    while k < s.len()
        invariant
            start <= k <= s.len(),
            views(parts@) + split_from(s@, sep, start as int, k as int) == split(s@, sep),
        decreases s.len() - k,
    {
        if s[k] == sep {
            let piece = slice_of(s, start, k);
            proof {
                let rest = split_from(s@, sep, k + 1, k + 1);
                assert(views(parts@.push(piece)) =~= views(parts@).push(piece@));
                assert(views(parts@) + split_from(s@, sep, start as int, k as int) =~= views(
                    parts@.push(piece),
                ) + rest);
            }
            parts.push(piece);
            start = k + 1;
        }
        k += 1;
    }
    let piece = slice_of(s, start, s.len());
    proof {
        assert(views(parts@.push(piece)) =~= views(parts@).push(piece@));
        assert(views(parts@) + split_from(s@, sep, start as int, k as int) =~= views(
            parts@.push(piece),
        ));
    }
    parts.push(piece);
    parts
}

pub fn words_exec(s: &Vec<char>) -> (r: Vec<Vec<char>>)
    ensures
        views(r@) == words(s@),
{
    let mut parts: Vec<Vec<char>> = Vec::new();
    let mut start: usize = 0;
    let mut k: usize = 0;
    while k < s.len()
        invariant
            start <= k <= s.len(),
            views(parts@) + words_from(s@, start as int, k as int) == words(s@),
        decreases s.len() - k,
    {
        if is_ws_char(s[k]) {
            if start < k {
                let piece = slice_of(s, start, k);
                proof {
                    let rest = words_from(s@, k + 1, k + 1);
                    assert(views(parts@.push(piece)) =~= views(parts@).push(piece@));
                    assert(views(parts@) + words_from(s@, start as int, k as int) =~= views(
                        parts@.push(piece),
                    ) + rest);
                }
                parts.push(piece);
            }
            start = k + 1;
        }
        k += 1;
    }
    if start < s.len() {
        let piece = slice_of(s, start, s.len());
        proof {
            assert(views(parts@.push(piece)) =~= views(parts@).push(piece@));
            assert(views(parts@) + words_from(s@, start as int, k as int) =~= views(
                parts@.push(piece),
            ));
        }
        parts.push(piece);
    } else {
        assert(views(parts@) + words_from(s@, start as int, k as int) =~= views(parts@));
    }
    parts
}

pub fn lower_exec(s: &Vec<char>) -> (r: Vec<char>)
    ensures
        r@ == lower_of(s@),
{
    let t = string_of(s);
    chars_of(lowercase(t.as_str()).as_str())
}

pub fn join_exec(ws: &Vec<Vec<char>>, sep: char) -> (r: Vec<char>)
    ensures
        r@ == join(views(ws@), sep),
{
    let mut r: Vec<char> = Vec::new();
    let mut i: usize = 0;
    while i < ws.len()
        invariant
            i <= ws.len(),
            r@ == join(views(ws@).take(i as int), sep),
        decreases ws.len() - i,
    {
        let ghost prev = views(ws@).take(i as int);
        let ghost next = views(ws@).take(i + 1);
        assert(next.drop_last() =~= prev);
        if i > 0 {
            r.push(sep);
        }
        extend(&mut r, &ws[i]);
        assert(i == 0 ==> r@ =~= join(next, sep));
        i += 1;
    }
    assert(views(ws@).take(ws.len() as int) =~= views(ws@));
    r
}

/// `a` holds exactly the characters of `b`.
pub fn same_text(a: &Vec<char>, b: &str) -> (r: bool)
    ensures
        r == (a@ == b@),
{
    let bv = chars_of(b);
    if a.len() != bv.len() {
        return false;
    }
    let mut i: usize = 0;
    while i < a.len()
        invariant
            i <= a.len() == bv.len(),
            bv@ == b@,
            forall|t: int| 0 <= t < i ==> a@[t] == bv@[t],
        decreases a.len() - i,
    {
        if a[i] != bv[i] {
            return false;
        }
        i += 1;
    }
    assert(a@ =~= bv@);
    true
}

/// The pieces of `s[start..]` between occurrences of a non-empty `p`,
/// scanning from `k`.
pub open spec fn split_str_from(s: Seq<char>, p: Seq<char>, start: int, k: int) -> Seq<Seq<char>>
    decreases s.len() - k,
{
    if k < 0 || k >= s.len() {
        seq![s.subrange(start, s.len() as int)]
    } else if p.len() > 0 && matches_at(s, p, k) {
        seq![s.subrange(start, k)] + split_str_from(s, p, k + p.len(), k + p.len())
    } else {
        split_str_from(s, p, start, k + 1)
    }
}

/// The pieces of `s` between occurrences of `p`, as `str::split` gives them:
/// an empty `p` matches at every character boundary, so it gives an empty
/// piece, each character, and an empty piece.
pub open spec fn split_str(s: Seq<char>, p: Seq<char>) -> Seq<Seq<char>> {
    if p.len() == 0 {
        seq![Seq::<char>::empty()] + s.map_values(|c: char| seq![c]) + seq![Seq::<char>::empty()]
    } else {
        split_str_from(s, p, 0, 0)
    }
}

pub fn split_str_exec(s: &Vec<char>, p: &Vec<char>) -> (r: Vec<Vec<char>>)
    ensures
        views(r@) == split_str(s@, p@),
{
    if p.len() == 0 {
        let mut parts: Vec<Vec<char>> = Vec::new();
        parts.push(Vec::new());
        let mut i: usize = 0;
        while i < s.len()
            invariant
                i <= s.len(),
                views(parts@) == seq![Seq::<char>::empty()] + s@.take(i as int).map_values(
                    |c: char| seq![c],
                ),
            decreases s.len() - i,
        {
            let mut one: Vec<char> = Vec::new();
            one.push(s[i]);
            let ghost old_p = parts@;
            parts.push(one);
            assert(views(parts@) =~= views(old_p).push(one@));
            assert(s@.take(i + 1).map_values(|c: char| seq![c]) =~= s@.take(i as int).map_values(
                |c: char| seq![c],
            ).push(seq![s@[i as int]]));
            assert(one@ =~= seq![s@[i as int]]);
            i += 1;
        }
        let ghost before = parts@;
        parts.push(Vec::new());
        assert(views(parts@) =~= views(before).push(Seq::<char>::empty()));
        assert(s@.take(s.len() as int) =~= s@);
        return parts;
    }
    let mut parts: Vec<Vec<char>> = Vec::new();
    let mut start: usize = 0;
    let mut k: usize = 0;
    while k < s.len()
        invariant
            start <= k <= s.len(),
            views(parts@) + split_str_from(s@, p@, start as int, k as int) == split_str(s@, p@),
        decreases s.len() - k,
    {
        if p.len() > 0 && matches_at_exec(s, p, k) {
            let piece = slice_of(s, start, k);
            proof {
                let rest = split_str_from(s@, p@, k + p.len(), k + p.len());
                assert(views(parts@.push(piece)) =~= views(parts@).push(piece@));
                assert(views(parts@) + split_str_from(s@, p@, start as int, k as int) =~= views(
                    parts@.push(piece),
                ) + rest);
            }
            parts.push(piece);
            k = k + p.len();
            start = k;
        } else {
            k += 1;
        }
    }
    let piece = slice_of(s, start, s.len());
    proof {
        assert(views(parts@.push(piece)) =~= views(parts@).push(piece@));
        assert(views(parts@) + split_str_from(s@, p@, start as int, k as int) =~= views(
            parts@.push(piece),
        ));
    }
    parts.push(piece);
    parts
}

} // verus!
