//! The gloss annotator: an ordered list of rules that turns one gloss into
//! one sense (context markers, idiom forms, `lit.`, `see`, the variant family,
//! single-target abbreviations, plain text), and the reference grammar
//! `simplified[|traditional][transcription]` those rules share.

use crate::models::{opt_strings_view, opt_view, strings_view, Meaning, SenseView};
use crate::text::{
    chars_of, matches_at_exec, contains, contains_exec, extend, find_char_exec, find_char_from,
    is_ws, is_ws_char, lower_exec, lower_of, matches_at, remove_all, remove_all_exec, same_text,
    slice_of, starts_with, starts_with_exec, string_of, trim, trim_exec, views,
};
use vstd::prelude::*;

verus! {

/// The canonical context tag of a parenthesised marker, if it is one.
pub open spec fn context_tag(p: Seq<char>) -> Option<Seq<char>> {
    if p == "(HK)"@ {
        Some("Hong Kong"@)
    } else if p == "(accounting)"@ {
        Some("accounting"@)
    } else if p == "(law)"@ {
        Some("law"@)
    } else if p == "(grammar)"@ {
        Some("grammar"@)
    } else if p == "(religion)"@ {
        Some("religion"@)
    } else if p == "(statistics)"@ {
        Some("statistics"@)
    } else if p == "(constellation)"@ {
        Some("constellation"@)
    } else if p == "(filmmaking)"@ {
        Some("filmmaking"@)
    } else if p == "(cuisine)"@ {
        Some("cuisine"@)
    } else if p == "(theater)"@ {
        Some("theater"@)
    } else if p == "(metallurgy)"@ {
        Some("metallurgy"@)
    } else if p == "(commerce)"@ {
        Some("commerce"@)
    } else if p == "(engineering)"@ {
        Some("engineering"@)
    } else if p == "(machine)"@ {
        Some("machine"@)
    } else if p == "(music)"@ {
        Some("music"@)
    } else if p == "(thermodynamics)"@ {
        Some("thermodynamics"@)
    } else if p == "(electrical)"@ {
        Some("electrical"@)
    } else if p == "(archaic)"@ {
        Some("archaic"@)
    } else if p == "(derog)"@ {
        Some("derogatory"@)
    } else if p == "(politics)"@ {
        Some("politics"@)
    } else if p == "(medicine)"@ {
        Some("medicine"@)
    } else if p == "(anatomy)"@ {
        Some("anatomy"@)
    } else if p == "(astronomy)"@ {
        Some("astronomy"@)
    } else if p == "(math.)"@ {
        Some("math"@)
    } else if p == "(biochemistry)"@ {
        Some("biochemistry"@)
    } else if p == "(biology)"@ {
        Some("biology"@)
    } else if p == "(math)"@ {
        Some("math"@)
    } else if p == "(abbr.)"@ {
        Some("abbreviation"@)
    } else if p == "(physics)"@ {
        Some("physics"@)
    } else if p == "(literary)"@ {
        Some("literary"@)
    } else if p == "(chemistry)"@ {
        Some("chemistry"@)
    } else if p == "(military)"@ {
        Some("military"@)
    } else if p == "(vulgar)"@ {
        Some("vulgar"@)
    } else if p == "(old)"@ {
        Some("old"@)
    } else if p == "(slang)"@ {
        Some("slang"@)
    } else if p == "(Tw)"@ {
        Some("taiwan"@)
    } else if p == "(loanword)"@ {
        Some("loanword"@)
    } else if p == "(geology)"@ {
        Some("geology"@)
    } else if p == "(architecture)"@ {
        Some("architecture"@)
    } else if p == "(electricity)"@ {
        Some("electricity"@)
    } else if p == "(networking)"@ {
        Some("networking"@)
    } else if p == "(computing)"@ {
        Some("computing"@)
    } else if p == "(onom.)"@ {
        Some("onomatopoeia"@)
    } else if p == "(Buddhism)"@ {
        Some("Buddhism"@)
    } else if p == "(Japanese surname and place name)"@ {
        Some("Japanese surname and place name"@)
    } else if p == "(honorific)"@ {
        Some("honorific"@)
    } else if p == "(dialect)"@ {
        Some("dialect"@)
    } else if p == "(polite)"@ {
        Some("polite"@)
    } else if p == "(fig.)"@ {
        Some("figuratively"@)
    } else if p == "(coll.)"@ {
        Some("colloquial"@)
    } else if p == "(law.)"@ {
        Some("law"@)
    } else if p == "(lit. and fig.)"@ {
        Some("literary and figuratively"@)
    } else if p == "(Japanese surname)"@ {
        Some("Japanese surname"@)
    } else if p == "(Internet slang)"@ {
        Some("Internet slang"@)
    } else if p == "(bird species of China)"@ {
        Some("bird species of China"@)
    } else if p == "(loanword from Japanese)"@ {
        Some("loanword from Japanese"@)
    } else {
        None
    }
}

/// Looks up the canonical context tag of a parenthesised marker.
pub fn context_tag_of(p: &Vec<char>) -> (r: Option<&'static str>)
    ensures
        match r {
            Some(t) => context_tag(p@) == Some(t@),
            None => context_tag(p@) is None,
        },
{
    if same_text(p, "(HK)") {
        Some("Hong Kong")
    } else if same_text(p, "(accounting)") {
        Some("accounting")
    } else if same_text(p, "(law)") {
        Some("law")
    } else if same_text(p, "(grammar)") {
        Some("grammar")
    } else if same_text(p, "(religion)") {
        Some("religion")
    } else if same_text(p, "(statistics)") {
        Some("statistics")
    } else if same_text(p, "(constellation)") {
        Some("constellation")
    } else if same_text(p, "(filmmaking)") {
        Some("filmmaking")
    } else if same_text(p, "(cuisine)") {
        Some("cuisine")
    } else if same_text(p, "(theater)") {
        Some("theater")
    } else if same_text(p, "(metallurgy)") {
        Some("metallurgy")
    } else if same_text(p, "(commerce)") {
        Some("commerce")
    } else if same_text(p, "(engineering)") {
        Some("engineering")
    } else if same_text(p, "(machine)") {
        Some("machine")
    } else if same_text(p, "(music)") {
        Some("music")
    } else if same_text(p, "(thermodynamics)") {
        Some("thermodynamics")
    } else if same_text(p, "(electrical)") {
        Some("electrical")
    } else if same_text(p, "(archaic)") {
        Some("archaic")
    } else if same_text(p, "(derog)") {
        Some("derogatory")
    } else if same_text(p, "(politics)") {
        Some("politics")
    } else if same_text(p, "(medicine)") {
        Some("medicine")
    } else if same_text(p, "(anatomy)") {
        Some("anatomy")
    } else if same_text(p, "(astronomy)") {
        Some("astronomy")
    } else if same_text(p, "(math.)") {
        Some("math")
    } else if same_text(p, "(biochemistry)") {
        Some("biochemistry")
    } else if same_text(p, "(biology)") {
        Some("biology")
    } else if same_text(p, "(math)") {
        Some("math")
    } else if same_text(p, "(abbr.)") {
        Some("abbreviation")
    } else if same_text(p, "(physics)") {
        Some("physics")
    } else if same_text(p, "(literary)") {
        Some("literary")
    } else if same_text(p, "(chemistry)") {
        Some("chemistry")
    } else if same_text(p, "(military)") {
        Some("military")
    } else if same_text(p, "(vulgar)") {
        Some("vulgar")
    } else if same_text(p, "(old)") {
        Some("old")
    } else if same_text(p, "(slang)") {
        Some("slang")
    } else if same_text(p, "(Tw)") {
        Some("taiwan")
    } else if same_text(p, "(loanword)") {
        Some("loanword")
    } else if same_text(p, "(geology)") {
        Some("geology")
    } else if same_text(p, "(architecture)") {
        Some("architecture")
    } else if same_text(p, "(electricity)") {
        Some("electricity")
    } else if same_text(p, "(networking)") {
        Some("networking")
    } else if same_text(p, "(computing)") {
        Some("computing")
    } else if same_text(p, "(onom.)") {
        Some("onomatopoeia")
    } else if same_text(p, "(Buddhism)") {
        Some("Buddhism")
    } else if same_text(p, "(Japanese surname and place name)") {
        Some("Japanese surname and place name")
    } else if same_text(p, "(honorific)") {
        Some("honorific")
    } else if same_text(p, "(dialect)") {
        Some("dialect")
    } else if same_text(p, "(polite)") {
        Some("polite")
    } else if same_text(p, "(fig.)") {
        Some("figuratively")
    } else if same_text(p, "(coll.)") {
        Some("colloquial")
    } else if same_text(p, "(law.)") {
        Some("law")
    } else if same_text(p, "(lit. and fig.)") {
        Some("literary and figuratively")
    } else if same_text(p, "(Japanese surname)") {
        Some("Japanese surname")
    } else if same_text(p, "(Internet slang)") {
        Some("Internet slang")
    } else if same_text(p, "(bird species of China)") {
        Some("bird species of China")
    } else if same_text(p, "(loanword from Japanese)") {
        Some("loanword from Japanese")
    } else {
        None
    }
}

/// The parenthesised pieces of `s` from index `k` on: each runs from an opening
/// parenthesis to the first closing one after it; `open` is where the current
/// piece began.
pub open spec fn pieces_from(s: Seq<char>, open: Option<int>, k: int) -> Seq<Seq<char>>
    decreases s.len() - k,
{
    if k < 0 || k >= s.len() {
        Seq::empty()
    } else {
        match open {
            None => if s[k] == '(' {
                pieces_from(s, Some(k), k + 1)
            } else {
                pieces_from(s, None, k + 1)
            },
            Some(i) => if s[k] == ')' {
                seq![s.subrange(i, k + 1)] + pieces_from(s, None, k + 1)
            } else {
                pieces_from(s, Some(i), k + 1)
            },
        }
    }
}

pub open spec fn paren_pieces(s: Seq<char>) -> Seq<Seq<char>> {
    pieces_from(s, None, 0)
}

/// The context tags of the pieces that are markers, in order.
pub open spec fn tags_of(ps: Seq<Seq<char>>) -> Seq<Seq<char>>
    decreases ps.len(),
{
    if ps.len() == 0 {
        Seq::empty()
    } else {
        match context_tag(ps.last()) {
            Some(t) => tags_of(ps.drop_last()).push(t),
            None => tags_of(ps.drop_last()),
        }
    }
}

/// `s` with every occurrence of each marker piece of `ps` removed, piece by piece.
pub open spec fn strip_markers(s: Seq<char>, ps: Seq<Seq<char>>) -> Seq<char>
    decreases ps.len(),
{
    if ps.len() == 0 {
        s
    } else {
        let v = strip_markers(s, ps.drop_last());
        if context_tag(ps.last()) is Some {
            remove_all(v, ps.last())
        } else {
            v
        }
    }
}

pub open spec fn nonempty(s: Seq<char>) -> Option<Seq<char>> {
    if s.len() > 0 {
        Some(s)
    } else {
        None
    }
}

pub open spec fn lower_opt(o: Option<Seq<char>>) -> Option<Seq<char>> {
    match o {
        Some(s) => Some(lower_of(s)),
        None => None,
    }
}

pub open spec fn sense(
    context: Option<Seq<Seq<char>>>,
    lexical_item: Option<Seq<char>>,
    value: Option<Seq<char>>,
    literal_meaning: Option<Seq<char>>,
) -> SenseView {
    SenseView {
        context,
        lexical_item,
        value,
        literal_meaning,
        simplified: None,
        traditional: None,
        wade_giles_pinyin: None,
        pinyin: None,
    }
}

pub open spec fn plain_sense(v: Seq<char>) -> SenseView {
    sense(None, None, Some(v), None)
}

/// A reference `simplified[|traditional][transcription]` and the text after it.
pub struct RefView {
    pub simplified: Seq<char>,
    pub traditional: Option<Seq<char>>,
    pub pinyin: Option<Seq<char>>,
    pub rest: Seq<char>,
}

/// A sense that points at the reference `r`, with the given tags and text.
pub open spec fn reference_sense(
    context: Seq<Seq<char>>,
    r: RefView,
    value: Option<Seq<char>>,
) -> SenseView {
    SenseView {
        context: Some(context),
        lexical_item: None,
        value,
        literal_meaning: None,
        simplified: Some(r.simplified),
        traditional: r.traditional,
        wade_giles_pinyin: lower_opt(r.pinyin),
        pinyin: None,
    }
}

/// `head` split at its first `|` into simplified and traditional forms.
pub open spec fn split_pipe(head: Seq<char>) -> (Seq<char>, Option<Seq<char>>) {
    match find_char_from(head, '|', 0) {
        Some(p) => (head.subrange(0, p), Some(head.subrange(p + 1, head.len() as int))),
        None => (head, None),
    }
}

/// `k`, stepped over `c` if `t` holds it there.
pub open spec fn skip_one(t: Seq<char>, k: int, c: char) -> int {
    if 0 <= k < t.len() && t[k] == c {
        k + 1
    } else {
        k
    }
}

/// Parses `[(][ ]simplified[|traditional][transcription][)][,] rest` from the start of `t`.
pub open spec fn parse_full_ref(t: Seq<char>) -> Option<RefView> {
    let a0 = skip_one(t, 0, '(');
    let a = if 0 <= a0 < t.len() && is_ws(t[a0]) {
        a0 + 1
    } else {
        a0
    };
    match find_char_from(t, '[', a) {
        None => None,
        Some(b) => match find_char_from(t, ']', b + 1) {
            None => None,
            Some(e) => {
                let (simp, trad) = split_pipe(t.subrange(a, b));
                let c = skip_one(t, skip_one(t, e + 1, ')'), ',');
                Some(
                    RefView {
                        simplified: simp,
                        traditional: trad,
                        pinyin: Some(t.subrange(b + 1, e)),
                        rest: trim(t.subrange(c, t.len() as int)),
                    },
                )
            },
        },
    }
}

/// Parses `simplified|traditional[, rest]` from the start of `t`.
pub open spec fn parse_pair_ref(t: Seq<char>) -> Option<RefView> {
    match find_char_from(t, '|', 0) {
        None => None,
        Some(p) => {
            let q = match find_char_from(t, ',', p + 1) {
                Some(q) => q,
                None => t.len() as int,
            };
            let c = skip_one(t, q, ',');
            Some(
                RefView {
                    simplified: t.subrange(0, p),
                    traditional: Some(t.subrange(p + 1, q)),
                    pinyin: None,
                    rest: trim(t.subrange(c, t.len() as int)),
                },
            )
        },
    }
}

/// Splits at the first semicolon: the literal meaning before it and the sense after.
pub open spec fn literal_part(v: Seq<char>) -> Option<Seq<char>> {
    match find_char_from(v, ';', 0) {
        Some(i) => Some(trim(v.subrange(0, i))),
        None => None,
    }
}

pub open spec fn sense_part(v: Seq<char>) -> Seq<char> {
    match find_char_from(v, ';', 0) {
        Some(i) => trim(v.subrange(i + 1, v.len() as int)),
        None => trim(v),
    }
}

/// Where the first `(idiom, ...)` elaboration at or after `k` stands: from an
/// `(idiom` whose next character is not `)` to the first `)` after that
/// character.
pub open spec fn idiom_span_from(g: Seq<char>, k: int) -> Option<(int, int)>
    decreases g.len() - k,
{
    if k < 0 || k >= g.len() {
        None
    } else {
        let n = k + "(idiom"@.len();
        if matches_at(g, "(idiom"@, k) && n < g.len() && g[n] != ')' && find_char_from(
            g,
            ')',
            n + 1,
        ) is Some {
            Some((k, find_char_from(g, ')', n + 1)->0 + 1))
        } else {
            idiom_span_from(g, k + 1)
        }
    }
}

pub open spec fn idiom_span(g: Seq<char>) -> Option<(int, int)> {
    idiom_span_from(g, 0)
}

/// Rule: context markers found; they are the tags and the rest is the sense.
pub open spec fn context_sense(g: Seq<char>) -> SenseView {
    let ps = paren_pieces(g);
    sense(Some(tags_of(ps)), None, Some(trim(strip_markers(g, ps))), None)
}

/// Rule: an `(idiom, ...)` elaboration, dropped; literal meaning and sense around `;`.
pub open spec fn idiom_elaboration_sense(g: Seq<char>) -> SenseView {
    let (i, j) = idiom_span(g)->0;
    let rem = g.subrange(0, i) + g.subrange(j, g.len() as int);
    sense(None, None, Some(sense_part(rem)), literal_part(rem))
}

/// Rule: a bare `(idiom)` marker, with `lit.` and `fig.` turned into tags
/// (`literature` before `figuratively`).
pub open spec fn idiom_sense(g: Seq<char>) -> SenseView {
    let has_lit = contains(g, "lit."@);
    let has_fig = contains(g, "fig."@);
    let v0 = trim(remove_all(g, "(idiom)"@));
    let v1 = if has_lit {
        remove_all(v0, "lit."@)
    } else {
        v0
    };
    let v2 = if has_fig {
        remove_all(v1, "fig."@)
    } else {
        v1
    };
    let c1: Seq<Seq<char>> = if has_lit {
        seq!["literature"@]
    } else {
        Seq::empty()
    };
    let ctx = if has_fig {
        c1.push("figuratively"@)
    } else {
        c1
    };
    sense(
        if ctx.len() > 0 {
            Some(ctx)
        } else {
            None
        },
        Some("idiom"@),
        Some(sense_part(v2)),
        literal_part(v2),
    )
}

/// Rule: a bare `lit.` marker.
pub open spec fn literal_sense(g: Seq<char>) -> SenseView {
    sense(Some(seq!["literature"@]), None, Some(trim(remove_all(g, "lit."@))), None)
}

/// Rule: `see ...` or `see also ...`.
pub open spec fn see_sense(g: Seq<char>) -> SenseView {
    let also = starts_with(g, "see also "@);
    let marker = if also {
        "see also "@
    } else {
        "see "@
    };
    let tag = if also {
        "see also"@
    } else {
        "see"@
    };
    let rem = trim(g.subrange(marker.len() as int, g.len() as int));
    match parse_full_ref(rem) {
        Some(r) => reference_sense(seq![tag], r, None),
        None => plain_sense(rem),
    }
}

/// The marker of the variant family that `g` holds, most specific first.
pub open spec fn variant_marker(g: Seq<char>) -> Seq<char> {
    if contains(g, "Japanese variant of"@) {
        "Japanese variant of"@
    } else if contains(g, "old variant of"@) {
        "old variant of"@
    } else {
        "variant of"@
    }
}

pub open spec fn variant_tags(g: Seq<char>) -> Seq<Seq<char>> {
    if contains(g, "Japanese variant of"@) {
        seq!["Japanese"@, "variant"@]
    } else if contains(g, "old variant of"@) {
        seq!["old variant"@]
    } else {
        seq!["variant"@]
    }
}

/// Rule: `variant of`, `old variant of`, `Japanese variant of`.
pub open spec fn variant_sense(g: Seq<char>) -> SenseView {
    let rem = trim(remove_all(g, variant_marker(g)));
    match parse_full_ref(rem) {
        Some(r) => reference_sense(variant_tags(g), r, nonempty(r.rest)),
        None => match parse_pair_ref(rem) {
            Some(r) => reference_sense(variant_tags(g), r, nonempty(r.rest)),
            None => plain_sense(rem),
        },
    }
}

/// Rule: a single-target abbreviation.
pub open spec fn abbreviation_sense(g: Seq<char>) -> SenseView {
    let marker = if contains(g, "abbr. for"@) {
        "abbr. for"@
    } else {
        "abbr."@
    };
    let rem = trim(remove_all(g, marker));
    match parse_full_ref(rem) {
        Some(r) => reference_sense(seq!["abbreviation"@], r, nonempty(r.rest)),
        None => sense(Some(seq!["abbreviation"@]), None, Some(rem), None),
    }
}

/// The sense of one gloss: the first rule that applies, in priority order.
pub open spec fn annotate(g: Seq<char>) -> SenseView {
    if tags_of(paren_pieces(g)).len() > 0 {
        context_sense(g)
    } else if idiom_span(g) is Some {
        idiom_elaboration_sense(g)
    } else if contains(g, "(idiom)"@) {
        idiom_sense(g)
    } else if contains(g, "lit."@) {
        literal_sense(g)
    } else if starts_with(g, "see "@) {
        see_sense(g)
    } else if contains(g, "variant of"@) {
        variant_sense(g)
    } else if contains(g, "abbr."@) {
        abbreviation_sense(g)
    } else {
        plain_sense(trim(g))
    }
}

pub open spec fn opt_chars(o: Option<Vec<char>>) -> Option<Seq<char>> {
    match o {
        Some(v) => Some(v@),
        None => None,
    }
}

/// A parsed reference, as `RefView` describes it.
pub struct Reference {
    pub simplified: Vec<char>,
    pub traditional: Option<Vec<char>>,
    pub pinyin: Option<Vec<char>>,
    pub rest: Vec<char>,
}

impl View for Reference {
    type V = RefView;

    open spec fn view(&self) -> RefView {
        RefView {
            simplified: self.simplified@,
            traditional: opt_chars(self.traditional),
            pinyin: opt_chars(self.pinyin),
            rest: self.rest@,
        }
    }
}

pub fn opt_string_of(o: &Option<Vec<char>>) -> (r: Option<String>)
    ensures
        opt_view(r) == opt_chars(*o),
{
    match o {
        Some(v) => Some(string_of(v)),
        None => None,
    }
}

pub fn nonempty_exec(v: Vec<char>) -> (r: Option<Vec<char>>)
    ensures
        opt_chars(r) == nonempty(v@),
{
    if v.len() > 0 {
        Some(v)
    } else {
        None
    }
}

fn make_sense(
    context: Option<Vec<String>>,
    lexical_item: Option<Vec<char>>,
    value: Option<Vec<char>>,
    literal_meaning: Option<Vec<char>>,
) -> (r: Meaning)
    ensures
        r@ == sense(
            opt_strings_view(context),
            opt_chars(lexical_item),
            opt_chars(value),
            opt_chars(literal_meaning),
        ),
{
    Meaning {
        context,
        lexical_item: opt_string_of(&lexical_item),
        value: opt_string_of(&value),
        literal_meaning: opt_string_of(&literal_meaning),
        simplified: None,
        traditional: None,
        wade_giles_pinyin: None,
        pinyin: None,
    }
}

fn reference_meaning(context: Vec<String>, r: &Reference, value: Option<Vec<char>>) -> (m: Meaning)
    ensures
        m@ == reference_sense(strings_view(context), r@, opt_chars(value)),
{
    let pinyin = match &r.pinyin {
        Some(p) => Some(string_of(&lower_exec(p))),
        None => None,
    };
    Meaning {
        context: Some(context),
        lexical_item: None,
        value: opt_string_of(&value),
        literal_meaning: None,
        simplified: Some(string_of(&r.simplified)),
        traditional: opt_string_of(&r.traditional),
        wade_giles_pinyin: pinyin,
        pinyin: None,
    }
}

/// A vector holding the one string `s`.
fn one_tag(s: &str) -> (r: Vec<String>)
    ensures
        strings_view(r) == seq![s@],
{
    let mut r: Vec<String> = Vec::new();
    r.push(s.to_owned());
    assert(strings_view(r) =~= seq![s@]);
    r
}

pub fn paren_pieces_exec(s: &Vec<char>) -> (r: Vec<Vec<char>>)
    ensures
        views(r@) == paren_pieces(s@),
{
    let mut parts: Vec<Vec<char>> = Vec::new();
    let mut open: Option<usize> = None;
    let mut k: usize = 0;
    while k < s.len()
        invariant
            k <= s.len(),
            match open {
                Some(i) => i < k,
                None => true,
            },
            views(parts@) + pieces_from(
                s@,
                match open {
                    Some(i) => Some(i as int),
                    None => None,
                },
                k as int,
            ) == paren_pieces(s@),
        decreases s.len() - k,
    {
        match open {
            None => {
                if s[k] == '(' {
                    open = Some(k);
                }
            },
            Some(i) => {
                if s[k] == ')' {
                    let piece = slice_of(s, i, k + 1);
                    proof {
                        assert(views(parts@.push(piece)) =~= views(parts@).push(piece@));
                        assert(views(parts@) + pieces_from(s@, Some(i as int), k as int) =~= views(
                            parts@.push(piece),
                        ) + pieces_from(s@, None, k + 1));
                    }
                    parts.push(piece);
                    open = None;
                }
            },
        }
        k += 1;
    }
    assert(views(parts@) + pieces_from(
        s@,
        match open {
            Some(i) => Some(i as int),
            None => None,
        },
        k as int,
    ) =~= views(parts@));
    parts
}

/// The tags of the marker pieces of `g`, and `g` with those markers removed.
fn extract_context(g: &Vec<char>) -> (r: (Vec<String>, Vec<char>))
    ensures
        strings_view(r.0) == tags_of(paren_pieces(g@)),
        r.1@ == strip_markers(g@, paren_pieces(g@)),
{
    let ps = paren_pieces_exec(g);
    let ghost all = views(ps@);
    let mut tags: Vec<String> = Vec::new();
    let mut value = slice_of(g, 0, g.len());
    assert(g@.subrange(0, g.len() as int) =~= g@);
    let mut i: usize = 0;
    while i < ps.len()
        invariant
            i <= ps.len(),
            all == views(ps@),
            all == paren_pieces(g@),
            strings_view(tags) == tags_of(all.take(i as int)),
            value@ == strip_markers(g@, all.take(i as int)),
        decreases ps.len() - i,
    {
        let ghost prev = all.take(i as int);
        let ghost next = all.take(i + 1);
        assert(next.drop_last() =~= prev);
        assert(next.last() == ps@[i as int]@);
        match context_tag_of(&ps[i]) {
            Some(t) => {
                let ghost old_tags = tags@;
                let o = t.to_owned();
                tags.push(o);
                assert(tags@.map_values(|s: String| s@) =~= old_tags.map_values(|s: String| s@).push(
                    t@,
                ));
                value = remove_all_exec(&value, &ps[i]);
            },
            None => {},
        }
        i += 1;
    }
    assert(all.take(ps.len() as int) =~= all);
    (tags, value)
}

fn skip_one_exec(t: &Vec<char>, k: usize, c: char) -> (r: usize)
    requires
        k <= t.len(),
    ensures
        r == skip_one(t@, k as int, c),
        r <= t.len(),
{
    if k < t.len() && t[k] == c {
        k + 1
    } else {
        k
    }
}

fn split_pipe_exec(head: &Vec<char>) -> (r: (Vec<char>, Option<Vec<char>>))
    ensures
        (r.0@, opt_chars(r.1)) == split_pipe(head@),
{
    match find_char_exec(head, '|', 0) {
        Some(p) => {
            proof {
                lemma_find_char_bounds(head@, '|', 0);
            }
            assert(p < head.len());
            (slice_of(head, 0, p), Some(slice_of(head, p + 1, head.len())))
        },
        None => (slice_of(head, 0, head.len()), None),
    }
}

/// What `find_char_from` returns lies in `[k, s.len())` and holds `c`.
pub proof fn lemma_find_char_bounds(s: Seq<char>, c: char, k: int)
    ensures
        match find_char_from(s, c, k) {
            Some(i) => k <= i < s.len() && s[i] == c,
            None => true,
        },
    decreases s.len() - k,
{
    if 0 <= k < s.len() && s[k] != c {
        lemma_find_char_bounds(s, c, k + 1);
    }
}

pub fn parse_full_ref_exec(t: &Vec<char>) -> (r: Option<Reference>)
    ensures
        match r {
            Some(x) => parse_full_ref(t@) == Some(x@),
            None => parse_full_ref(t@) is None,
        },
{
    let a0 = skip_one_exec(t, 0, '(');
    let a = if a0 < t.len() && is_ws_char(t[a0]) {
        a0 + 1
    } else {
        a0
    };
    match find_char_exec(t, '[', a) {
        None => None,
        Some(b) => {
            proof {
                lemma_find_char_bounds(t@, '[', a as int);
            }
            assert(a <= b < t.len());
            match find_char_exec(t, ']', b + 1) {
                None => None,
                Some(e) => {
                    proof {
                        lemma_find_char_bounds(t@, ']', b + 1);
                    }
                    assert(b < e < t.len());
                    let head = slice_of(t, a, b);
                    let (simp, trad) = split_pipe_exec(&head);
                    let c1 = skip_one_exec(t, e + 1, ')');
                    let c = skip_one_exec(t, c1, ',');
                    let tail = slice_of(t, c, t.len());
                    let r = Reference {
                        simplified: simp,
                        traditional: trad,
                        pinyin: Some(slice_of(t, b + 1, e)),
                        rest: trim_exec(&tail),
                    };
                    Some(r)
                },
            }
        },
    }
}

pub fn parse_pair_ref_exec(t: &Vec<char>) -> (r: Option<Reference>)
    ensures
        match r {
            Some(x) => parse_pair_ref(t@) == Some(x@),
            None => parse_pair_ref(t@) is None,
        },
{
    match find_char_exec(t, '|', 0) {
        None => None,
        Some(p) => {
            proof {
                lemma_find_char_bounds(t@, '|', 0);
            }
            assert(p < t.len());
            let q = match find_char_exec(t, ',', p + 1) {
                Some(q) => {
                    proof {
                        lemma_find_char_bounds(t@, ',', p + 1);
                    }
                    assert(p < q < t.len());
                    q
                },
                None => t.len(),
            };
            let c = skip_one_exec(t, q, ',');
            let tail = slice_of(t, c, t.len());
            Some(
                Reference {
                    simplified: slice_of(t, 0, p),
                    traditional: Some(slice_of(t, p + 1, q)),
                    pinyin: None,
                    rest: trim_exec(&tail),
                },
            )
        },
    }
}

/// The literal meaning and the sense of `v`, split at its first semicolon.
fn semicolon_parts(v: &Vec<char>) -> (r: (Option<Vec<char>>, Vec<char>))
    ensures
        opt_chars(r.0) == literal_part(v@),
        r.1@ == sense_part(v@),
{
    match find_char_exec(v, ';', 0) {
        Some(i) => {
            proof {
                lemma_find_char_bounds(v@, ';', 0);
            }
            assert(i < v.len());
            let before = slice_of(v, 0, i);
            let after = slice_of(v, i + 1, v.len());
            (Some(trim_exec(&before)), trim_exec(&after))
        },
        None => (None, trim_exec(v)),
    }
}

fn idiom_span_exec(g: &Vec<char>) -> (r: Option<(usize, usize)>)
    ensures
        match r {
            Some((i, j)) => idiom_span(g@) == Some((i as int, j as int)) && i <= j <= g.len(),
            None => idiom_span(g@) is None,
        },
{
    let m = chars_of("(idiom");
    let mut k: usize = 0;
    while k < g.len()
        invariant
            k <= g.len(),
            m@ == "(idiom"@,
            idiom_span(g@) == idiom_span_from(g@, k as int),
        decreases g.len() - k,
    {
        if matches_at_exec(g, &m, k) {
            let n = k + m.len();
            if n < g.len() && g[n] != ')' {
                match find_char_exec(g, ')', n + 1) {
                    Some(j) => {
                        proof {
                            lemma_find_char_bounds(g@, ')', n + 1);
                        }
                        assert(j < g.len());
                        return Some((k, j + 1));
                    },
                    None => {},
                }
            }
        }
        k += 1;
    }
    None
}

fn idiom_elaboration_exec(g: &Vec<char>, i: usize, j: usize) -> (r: Meaning)
    requires
        idiom_span(g@) == Some((i as int, j as int)),
        i <= j <= g.len(),
    ensures
        r@ == idiom_elaboration_sense(g@),
{
    let mut rem = slice_of(g, 0, i);
    let tail = slice_of(g, j, g.len());
    extend(&mut rem, &tail);
    let (literal, value) = semicolon_parts(&rem);
    make_sense(None, None, Some(value), literal)
}

fn idiom_exec(g: &Vec<char>) -> (r: Meaning)
    ensures
        r@ == idiom_sense(g@),
{
    let lit = chars_of("lit.");
    let fig = chars_of("fig.");
    let has_lit = contains_exec(g, &lit);
    let has_fig = contains_exec(g, &fig);
    let v0 = trim_exec(&remove_all_exec(g, &chars_of("(idiom)")));
    let v1 = if has_lit {
        remove_all_exec(&v0, &lit)
    } else {
        v0
    };
    let v2 = if has_fig {
        remove_all_exec(&v1, &fig)
    } else {
        v1
    };
    let mut ctx: Vec<String> = Vec::new();
    if has_lit {
        ctx.push("literature".to_owned());
    }
    if has_fig {
        ctx.push("figuratively".to_owned());
    }
    let ghost c1: Seq<Seq<char>> = if has_lit {
        seq!["literature"@]
    } else {
        Seq::empty()
    };
    assert(strings_view(ctx) =~= if has_fig {
        c1.push("figuratively"@)
    } else {
        c1
    });
    let (literal, value) = semicolon_parts(&v2);
    let context = if ctx.len() > 0 {
        Some(ctx)
    } else {
        None
    };
    make_sense(context, Some(chars_of("idiom")), Some(value), literal)
}

fn see_exec(g: &Vec<char>) -> (r: Meaning)
    requires
        starts_with(g@, "see "@),
    ensures
        r@ == see_sense(g@),
{
    let also = starts_with_exec(g, &chars_of("see also "));
    let marker = if also {
        chars_of("see also ")
    } else {
        chars_of("see ")
    };
    let tag = if also {
        "see also"
    } else {
        "see"
    };
    let start = if marker.len() <= g.len() {
        marker.len()
    } else {
        g.len()
    };
    let tail = slice_of(g, start, g.len());
    let rem = trim_exec(&tail);
    match parse_full_ref_exec(&rem) {
        Some(r) => reference_meaning(one_tag(tag), &r, None),
        None => make_sense(None, None, Some(rem), None),
    }
}

fn variant_tags_exec(g: &Vec<char>) -> (r: (Vec<char>, Vec<String>))
    ensures
        r.0@ == variant_marker(g@),
        strings_view(r.1) == variant_tags(g@),
{
    if contains_exec(g, &chars_of("Japanese variant of")) {
        let mut tags: Vec<String> = Vec::new();
        tags.push("Japanese".to_owned());
        tags.push("variant".to_owned());
        assert(strings_view(tags) =~= seq!["Japanese"@, "variant"@]);
        (chars_of("Japanese variant of"), tags)
    } else if contains_exec(g, &chars_of("old variant of")) {
        (chars_of("old variant of"), one_tag("old variant"))
    } else {
        (chars_of("variant of"), one_tag("variant"))
    }
}

fn variant_exec(g: &Vec<char>) -> (r: Meaning)
    ensures
        r@ == variant_sense(g@),
{
    let (marker, tags) = variant_tags_exec(g);
    let rem = trim_exec(&remove_all_exec(g, &marker));
    match parse_full_ref_exec(&rem) {
        Some(r) => {
            let value = nonempty_exec(slice_of(&r.rest, 0, r.rest.len()));
            assert(r.rest@.subrange(0, r.rest@.len() as int) =~= r.rest@);
            reference_meaning(tags, &r, value)
        },
        None => match parse_pair_ref_exec(&rem) {
            Some(r) => {
                let value = nonempty_exec(slice_of(&r.rest, 0, r.rest.len()));
                assert(r.rest@.subrange(0, r.rest@.len() as int) =~= r.rest@);
                reference_meaning(tags, &r, value)
            },
            None => make_sense(None, None, Some(rem), None),
        },
    }
}

fn abbreviation_exec(g: &Vec<char>) -> (r: Meaning)
    ensures
        r@ == abbreviation_sense(g@),
{
    let marker = if contains_exec(g, &chars_of("abbr. for")) {
        chars_of("abbr. for")
    } else {
        chars_of("abbr.")
    };
    let rem = trim_exec(&remove_all_exec(g, &marker));
    match parse_full_ref_exec(&rem) {
        Some(r) => {
            let value = nonempty_exec(slice_of(&r.rest, 0, r.rest.len()));
            assert(r.rest@.subrange(0, r.rest@.len() as int) =~= r.rest@);
            reference_meaning(one_tag("abbreviation"), &r, value)
        },
        None => make_sense(Some(one_tag("abbreviation")), None, Some(rem), None),
    }
}

/// Classifies one gloss by the first rule of the ordered rule list that
/// applies: context markers, idiom elaboration, bare idiom marker, `lit.`,
/// `see`, the variant family, single-target abbreviation, plain text.
pub fn annotate_gloss(g: &Vec<char>) -> (r: Meaning)
    ensures
        r@ == annotate(g@),
{
    let (tags, stripped) = extract_context(g);
    if tags.len() > 0 {
        return make_sense(Some(tags), None, Some(trim_exec(&stripped)), None);
    }
    if let Some((i, j)) = idiom_span_exec(g) {
        return idiom_elaboration_exec(g, i, j);
    }
    if contains_exec(g, &chars_of("(idiom)")) {
        return idiom_exec(g);
    }
    let lit = chars_of("lit.");
    if contains_exec(g, &lit) {
        let v = trim_exec(&remove_all_exec(g, &lit));
        return make_sense(Some(one_tag("literature")), None, Some(v), None);
    }
    if starts_with_exec(g, &chars_of("see ")) {
        return see_exec(g);
    }
    if contains_exec(g, &chars_of("variant of")) {
        return variant_exec(g);
    }
    if contains_exec(g, &chars_of("abbr.")) {
        return abbreviation_exec(g);
    }
    make_sense(None, None, Some(trim_exec(g)), None)
}

/// The one sense of a gloss. Every gloss gets one: text that no rule
/// recognises becomes a plain sense.
pub fn refine_meaning_record(meaning: &str) -> (r: Option<Meaning>)
    ensures
        r is Some,
        r->0@ == annotate(meaning@),
{
    let g = chars_of(meaning);
    Some(annotate_gloss(&g))
}

} // verus!
