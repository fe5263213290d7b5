//! Serilog message templates: `{{` and `}}` stand for literal braces,
//! `{Name}` (optionally `{@Name}` or `{Name:format}`) is a hole filled with
//! the display form of the property `Name`, and a hole whose property is
//! missing is kept as written.

use vstd::prelude::*;
use crate::json::{display, lookup, object_get, write_display, JsonValue};
use crate::text::{chars_of, string_of};

verus! {

/// One lexical unit of a template: a literal character, or the text
/// between the braces of a hole.
pub ghost enum Piece {
    Literal(char),
    Hole(Seq<char>),
}

/// The index of the first `}` at or after `j`, if any.
pub open spec fn close_from(t: Seq<char>, j: int) -> Option<int>
    decreases t.len() - j,
{
    if j < 0 || j >= t.len() {
        None
    } else if t[j] == '}' {
        Some(j)
    } else {
        close_from(t, j + 1)
    }
}

/// A `}` found by `close_from` lies at or after the start and inside the text.
pub proof fn lemma_close_from_bounds(t: Seq<char>, j: int)
    ensures
        close_from(t, j) matches Some(k) ==> j <= k < t.len() && t[k] == '}',
    decreases t.len() - j,
{
    if 0 <= j < t.len() && t[j] != '}' {
        lemma_close_from_bounds(t, j + 1);
    }
}

/// The first piece of the template text `t` at index `i`, with the index
/// just past it.
pub open spec fn step(t: Seq<char>, i: int) -> (Piece, int) {
    if t[i] == '{' && i + 1 < t.len() && t[i + 1] == '{' {
        (Piece::Literal('{'), i + 2)
    } else if t[i] == '}' && i + 1 < t.len() && t[i + 1] == '}' {
        (Piece::Literal('}'), i + 2)
    } else if t[i] == '{' {
        match close_from(t, i + 1) {
            Some(j) => (Piece::Hole(t.subrange(i + 1, j)), j + 1),
            None => (Piece::Literal('{'), i + 1),
        }
    } else {
        (Piece::Literal(t[i]), i + 1)
    }
}

/// The pieces of the template text `t` from index `i` on.
pub open spec fn pieces_from(t: Seq<char>, i: int) -> Seq<Piece>
    decreases t.len() - i via pieces_from_decreases
{
    if i < 0 || i >= t.len() {
        Seq::empty()
    } else {
        seq![step(t, i).0] + pieces_from(t, step(t, i).1)
    }
}

#[via_fn]
proof fn pieces_from_decreases(t: Seq<char>, i: int) {
    lemma_close_from_bounds(t, i + 1);
}

/// The pieces of a whole template text.
pub open spec fn pieces(t: Seq<char>) -> Seq<Piece> {
    pieces_from(t, 0)
}

/// `s` without its leading `@` characters.
pub open spec fn strip_ats(s: Seq<char>) -> Seq<char>
    decreases s.len(),
{
    if s.len() > 0 && s[0] == '@' {
        strip_ats(s.drop_first())
    } else {
        s
    }
}

/// The part of `s` before its first `:`.
pub open spec fn before_colon(s: Seq<char>) -> Seq<char>
    decreases s.len(),
{
    if s.len() == 0 || s[0] == ':' {
        Seq::empty()
    } else {
        seq![s[0]] + before_colon(s.drop_first())
    }
}

/// The property name a hole refers to: the hole text without leading `@`,
/// up to the first `:`.
pub open spec fn hole_name(tok: Seq<char>) -> Seq<char> {
    before_colon(strip_ats(tok))
}

/// What a hole renders to: the display form of its property, or the hole as
/// written when the property is missing.
pub open spec fn hole_text(tok: Seq<char>, obj: Seq<(String, JsonValue)>) -> Seq<char> {
    match lookup(obj, hole_name(tok)) {
        Some(v) => display(v),
        None => seq!['{'] + tok + seq!['}'],
    }
}

/// What a piece renders to.
pub open spec fn piece_text(p: Piece, obj: Seq<(String, JsonValue)>) -> Seq<char> {
    match p {
        Piece::Literal(c) => seq![c],
        Piece::Hole(tok) => hole_text(tok, obj),
    }
}

/// The rendering of a sequence of pieces.
pub open spec fn render(ps: Seq<Piece>, obj: Seq<(String, JsonValue)>) -> Seq<char>
    decreases ps.len(),
{
    if ps.len() == 0 {
        Seq::empty()
    } else {
        piece_text(ps[0], obj) + render(ps.drop_first(), obj)
    }
}

/// The rendering of the template text `t` with the properties `obj`.
pub open spec fn rendered(t: Seq<char>, obj: Seq<(String, JsonValue)>) -> Seq<char> {
    render(pieces(t), obj)
}

/// Rendering a piece followed by more pieces.
pub proof fn lemma_render_cons(p: Piece, rest: Seq<Piece>, obj: Seq<(String, JsonValue)>)
    ensures
        render(seq![p] + rest, obj) == piece_text(p, obj) + render(rest, obj),
{
    assert((seq![p] + rest).drop_first() =~= rest);
}

/// Appends the rendering of the hole `t[start..end]` to `out`.
fn write_hole(t: &Vec<char>, start: usize, end: usize, obj: &Vec<(String, JsonValue)>, out: &mut Vec<char>)
    requires
        start <= end <= t.len(),
    ensures
        final(out)@ == old(out)@ + hole_text(t@.subrange(start as int, end as int), obj@),
{
    let ghost tok = t@.subrange(start as int, end as int);
    let mut a: usize = start;
    assert(t@.subrange(a as int, end as int) == tok);
    while a < end && t[a] == '@'
        invariant
            start <= a <= end,
            end <= t.len(),
            strip_ats(tok) == strip_ats(t@.subrange(a as int, end as int)),
        decreases end - a,
    {
        assert(t@.subrange(a as int, end as int).drop_first() =~= t@.subrange(a + 1, end as int));
        a = a + 1;
    }
    assert(strip_ats(tok) == t@.subrange(a as int, end as int));
    let mut b: usize = a;
    let mut name: Vec<char> = Vec::new();
    assert(t@.subrange(a as int, b as int) =~= Seq::<char>::empty());
    while b < end && t[b] != ':'
        invariant
            a <= b <= end,
            end <= t.len(),
            name@ == t@.subrange(a as int, b as int),
            before_colon(t@.subrange(a as int, end as int))
                == name@ + before_colon(t@.subrange(b as int, end as int)),
        decreases end - b,
    {
        proof {
            let s = t@.subrange(b as int, end as int);
            assert(s.drop_first() =~= t@.subrange(b + 1, end as int));
            assert(s[0] == t@[b as int]);
        }
        name.push(t[b]);
        b = b + 1;
        assert(name@ =~= t@.subrange(a as int, b as int));
    }
    assert(before_colon(t@.subrange(b as int, end as int)) =~= Seq::<char>::empty());
    assert(name@ =~= hole_name(tok));
    match object_get(obj, &name) {
        Some(v) => write_display(v, out),
        None => {
            let ghost before = out@;
            out.push('{');
            let mut k: usize = start;
            while k < end
                invariant
                    start <= k <= end,
                    end <= t.len(),
                    out@ == before + seq!['{'] + t@.subrange(start as int, k as int),
                decreases end - k,
            {
                out.push(t[k]);
                k = k + 1;
                assert(out@ =~= before + seq!['{'] + t@.subrange(start as int, k as int));
            }
            out.push('}');
            assert(out@ =~= before + hole_text(tok, obj@));
        },
    }
}

/// Finds the `}` that closes a hole opened just before `start`: the index of
/// the first `}` at or after `start`, or `t.len()` when there is none.
fn find_close(t: &Vec<char>, start: usize) -> (j: usize)
    requires
        start <= t.len(),
    ensures
        start <= j <= t.len(),
        j < t.len() ==> close_from(t@, start as int) == Some(j as int),
        j == t.len() ==> close_from(t@, start as int) is None,
{
    let mut j: usize = start;
    while j < t.len() && t[j] != '}'
        invariant
            start <= j <= t.len(),
            close_from(t@, start as int) == close_from(t@, j as int),
        decreases t.len() - j,
    {
        j = j + 1;
    }
    j
}

/// Renders `template` with the properties `obj` (see `rendered`).
pub fn render_template(template: &str, obj: &Vec<(String, JsonValue)>) -> (r: String)
    ensures
        r@ == rendered(template@, obj@),
{
    let t = chars_of(template);
    let mut out: Vec<char> = Vec::new();
    let mut i: usize = 0;
    while i < t.len()
        invariant
            i <= t.len(),
            t@ == template@,
            rendered(t@, obj@) == out@ + render(pieces_from(t@, i as int), obj@),
        decreases t.len() - i,
    {
        let ghost before = out@;
        let ghost i0 = i as int;
        let ghost piece: Piece;
        if t[i] == '{' && i + 1 < t.len() && t[i + 1] == '{' {
            out.push('{');
            proof { piece = Piece::Literal('{'); }
            i = i + 2;
        } else if t[i] == '}' && i + 1 < t.len() && t[i + 1] == '}' {
            out.push('}');
            proof { piece = Piece::Literal('}'); }
            i = i + 2;
        } else if t[i] == '{' {
            let j = find_close(&t, i + 1);
            if j < t.len() {
                write_hole(&t, i + 1, j, obj, &mut out);
                proof { piece = Piece::Hole(t@.subrange(i + 1, j as int)); }
                i = j + 1;
            } else {
                out.push('{');
                proof { piece = Piece::Literal('{'); }
                i = i + 1;
            }
        } else {
            out.push(t[i]);
            proof { piece = Piece::Literal(t@[i0]); }
            i = i + 1;
        }
        proof {
            assert(step(t@, i0) == (piece, i as int));
            assert(out@ == before + piece_text(piece, obj@));
            lemma_render_cons(piece, pieces_from(t@, i as int), obj@);
            assert(rendered(t@, obj@) =~= out@ + render(pieces_from(t@, i as int), obj@));
        }
    }
    assert(out@ =~= rendered(template@, obj@));
    string_of(&out)
}

/// The fixed segment for the literal text `fixed`, if it is not empty.
pub open spec fn fixed_segment(fixed: Seq<char>) -> Seq<(Seq<char>, bool)> {
    if fixed.len() > 0 {
        seq![(fixed, false)]
    } else {
        Seq::empty()
    }
}

/// The segments of the pieces `ps`, the literal text `fixed` having been
/// read just before them: runs of literal characters form fixed segments
/// (`false`), each hole forms a dynamic segment (`true`) of its rendering.
pub open spec fn segments(ps: Seq<Piece>, obj: Seq<(String, JsonValue)>, fixed: Seq<char>) -> Seq<(Seq<char>, bool)>
    decreases ps.len(),
{
    if ps.len() == 0 {
        fixed_segment(fixed)
    } else {
        match ps[0] {
            Piece::Literal(c) => segments(ps.drop_first(), obj, fixed.push(c)),
            Piece::Hole(tok) => fixed_segment(fixed) + seq![(hole_text(tok, obj), true)]
                + segments(ps.drop_first(), obj, Seq::empty()),
        }
    }
}

/// The segments of the template text `t` with the properties `obj`.
pub open spec fn segments_of(t: Seq<char>, obj: Seq<(String, JsonValue)>) -> Seq<(Seq<char>, bool)> {
    segments(pieces(t), obj, Seq::empty())
}

/// The text and kind of each segment of a segment list.
pub open spec fn segments_view(v: Seq<(String, bool)>) -> Seq<(Seq<char>, bool)> {
    v.map_values(|p: (String, bool)| (p.0@, p.1))
}

/// The texts of `segs`, concatenated.
pub open spec fn concat_texts(segs: Seq<(Seq<char>, bool)>) -> Seq<char>
    decreases segs.len(),
{
    if segs.len() == 0 {
        Seq::empty()
    } else {
        segs[0].0 + concat_texts(segs.drop_first())
    }
}

/// Segments of a piece followed by more pieces.
pub proof fn lemma_segments_cons(p: Piece, rest: Seq<Piece>, obj: Seq<(String, JsonValue)>, fixed: Seq<char>)
    ensures
        segments(seq![p] + rest, obj, fixed) == match p {
            Piece::Literal(c) => segments(rest, obj, fixed.push(c)),
            Piece::Hole(tok) => fixed_segment(fixed) + seq![(hole_text(tok, obj), true)]
                + segments(rest, obj, Seq::empty()),
        },
{
    assert((seq![p] + rest).drop_first() =~= rest);
}

/// Concatenating two segment lists concatenates their texts.
pub proof fn lemma_concat_texts_add(a: Seq<(Seq<char>, bool)>, b: Seq<(Seq<char>, bool)>)
    ensures
        concat_texts(a + b) == concat_texts(a) + concat_texts(b),
    decreases a.len(),
{
    if a.len() == 0 {
        assert(a + b =~= b);
    } else {
        assert((a + b).drop_first() =~= a.drop_first() + b);
        lemma_concat_texts_add(a.drop_first(), b);
        assert(concat_texts(a + b) =~= concat_texts(a) + concat_texts(b));
    }
}

/// The texts of the segments of `ps` are the pending literal text followed
/// by the rendering of `ps`.
pub proof fn lemma_segments_texts(ps: Seq<Piece>, obj: Seq<(String, JsonValue)>, fixed: Seq<char>)
    ensures
        concat_texts(segments(ps, obj, fixed)) == fixed + render(ps, obj),
    decreases ps.len(),
{
    let fs = fixed_segment(fixed);
    if fixed.len() > 0 {
        assert(fs.drop_first() =~= Seq::<(Seq<char>, bool)>::empty());
        assert(concat_texts(fs.drop_first()) == Seq::<char>::empty());
    }
    assert(concat_texts(fs) =~= fixed);
    if ps.len() == 0 {
        assert(fixed + render(ps, obj) =~= fixed);
    } else {
        let rest = ps.drop_first();
        match ps[0] {
            Piece::Literal(c) => {
                lemma_segments_texts(rest, obj, fixed.push(c));
                assert(fixed.push(c) + render(rest, obj) =~= fixed + render(ps, obj));
            },
            Piece::Hole(tok) => {
                let h = seq![(hole_text(tok, obj), true)];
                lemma_segments_texts(rest, obj, Seq::empty());
                lemma_concat_texts_add(fs + h, segments(rest, obj, Seq::empty()));
                lemma_concat_texts_add(fs, h);
                assert(h.drop_first() =~= Seq::<(Seq<char>, bool)>::empty());
                assert(Seq::<char>::empty() + render(rest, obj) =~= render(rest, obj));
                assert(concat_texts(segments(ps, obj, fixed)) =~= fixed + render(ps, obj));
            },
        }
    }
}

/// Law: the segments of a template, concatenated, are exactly its rendering.
pub proof fn law_segments_concatenate_to_rendering(t: Seq<char>, obj: Seq<(String, JsonValue)>)
    ensures
        concat_texts(segments_of(t, obj)) == rendered(t, obj),
{
    lemma_segments_texts(pieces(t), obj, Seq::empty());
    assert(Seq::<char>::empty() + rendered(t, obj) =~= rendered(t, obj));
}

/// The segment list is well shaped: fixed segments are never empty and a
/// fixed segment is always followed by a dynamic one.
pub open spec fn well_shaped(segs: Seq<(Seq<char>, bool)>) -> bool {
    &&& forall|k: int| 0 <= k < segs.len() && !segs[k].1 ==> segs[k].0.len() > 0
    &&& forall|k: int, m: int| 0 <= k && m == k + 1 && m < segs.len() && !(#[trigger] segs[k]).1 ==> (#[trigger] segs[m]).1
}

/// Segments of pieces read after a pending literal text are well shaped.
pub proof fn lemma_segments_well_shaped(ps: Seq<Piece>, obj: Seq<(String, JsonValue)>, fixed: Seq<char>)
    ensures
        well_shaped(segments(ps, obj, fixed)),
        fixed.len() > 0 ==> segments(ps, obj, fixed).len() > 0 && !segments(ps, obj, fixed)[0].1,
    decreases ps.len(),
{
    if ps.len() > 0 {
        let rest = ps.drop_first();
        match ps[0] {
            Piece::Literal(c) => {
                lemma_segments_well_shaped(rest, obj, fixed.push(c));
            },
            Piece::Hole(tok) => {
                lemma_segments_well_shaped(rest, obj, Seq::empty());
            },
        }
    }
}

/// Law: in the segments of any template, fixed segments are non-empty and
/// no two fixed segments are adjacent.
pub proof fn law_segments_well_shaped(t: Seq<char>, obj: Seq<(String, JsonValue)>)
    ensures
        well_shaped(segments_of(t, obj)),
{
    lemma_segments_well_shaped(pieces(t), obj, Seq::empty());
}

/// Splits the rendering of `template` into segments `(text, is_dynamic)`:
/// fixed template text gives `false`, interpolated values give `true`.
pub fn template_segments(template: &str, obj: &Vec<(String, JsonValue)>) -> (r: Vec<(String, bool)>)
    ensures
        segments_view(r@) == segments_of(template@, obj@),
{
    let t = chars_of(template);
    let mut segs: Vec<(String, bool)> = Vec::new();
    let mut fixed: Vec<char> = Vec::new();
    let mut i: usize = 0;
    while i < t.len()
        invariant
            i <= t.len(),
            t@ == template@,
            segments_view(segs@) + segments(pieces_from(t@, i as int), obj@, fixed@)
                == segments_of(t@, obj@),
        decreases t.len() - i,
    {
        let ghost i0 = i as int;
        let ghost f0 = fixed@;
        let ghost s0 = segments_view(segs@);
        let ghost piece: Piece;
        if t[i] == '{' && i + 1 < t.len() && t[i + 1] == '{' {
            fixed.push('{');
            proof { piece = Piece::Literal('{'); }
            i = i + 2;
        } else if t[i] == '}' && i + 1 < t.len() && t[i + 1] == '}' {
            fixed.push('}');
            proof { piece = Piece::Literal('}'); }
            i = i + 2;
        } else if t[i] == '{' {
            let j = find_close(&t, i + 1);
            if j < t.len() {
                if fixed.len() > 0 {
                    segs.push((string_of(&fixed), false));
                    fixed = Vec::new();
                }
                let mut val: Vec<char> = Vec::new();
                write_hole(&t, i + 1, j, obj, &mut val);
                segs.push((string_of(&val), true));
                proof { piece = Piece::Hole(t@.subrange(i + 1, j as int)); }
                i = j + 1;
            } else {
                fixed.push('{');
                proof { piece = Piece::Literal('{'); }
                i = i + 1;
            }
        } else {
            fixed.push(t[i]);
            proof { piece = Piece::Literal(t@[i0]); }
            i = i + 1;
        }
        proof {
            assert(step(t@, i0) == (piece, i as int));
            let rest = pieces_from(t@, i as int);
            lemma_segments_cons(piece, rest, obj@, f0);
            match piece {
                Piece::Literal(c) => {
                    assert(fixed@ == f0.push(c));
                    assert(segments_view(segs@) == s0);
                },
                Piece::Hole(tok) => {
                    assert(fixed@.len() == 0);
                    assert(fixed@ =~= Seq::<char>::empty());
                    assert(segments_view(segs@) =~= s0 + fixed_segment(f0) + seq![(hole_text(tok, obj@), true)]);
                },
            }
            assert(segments_view(segs@) + segments(rest, obj@, fixed@) =~= segments_of(t@, obj@));
        }
    }
    if fixed.len() > 0 {
        segs.push((string_of(&fixed), false));
    }
    assert(segments_view(segs@) =~= segments_of(template@, obj@));
    segs
}

/// From index `i` on, a template with no `{` and no `}}` renders to itself.
proof fn lemma_plain_from(t: Seq<char>, obj: Seq<(String, JsonValue)>, i: int)
    requires
        0 <= i <= t.len(),
        forall|k: int| 0 <= k < t.len() ==> t[k] != '{',
        forall|k: int| 0 <= k < t.len() - 1 ==> !(#[trigger] t[k] == '}' && t[k + 1] == '}'),
    ensures
        render(pieces_from(t, i), obj) == t.subrange(i, t.len() as int),
    decreases t.len() - i,
{
    if i < t.len() {
        lemma_plain_from(t, obj, i + 1);
        let ps = pieces_from(t, i);
        assert(step(t, i) == (Piece::Literal(t[i]), i + 1));
        assert(ps[0] == Piece::Literal(t[i]));
        assert(ps.drop_first() =~= pieces_from(t, i + 1));
        assert(t.subrange(i, t.len() as int) =~= seq![t[i]] + t.subrange(i + 1, t.len() as int));
    } else {
        assert(t.subrange(i, t.len() as int) =~= Seq::<char>::empty());
    }
}

/// Law: a template without holes or escaped braces (no `{` and no `}}`)
/// renders to itself, whatever the properties.
pub proof fn law_plain_template_renders_to_itself(t: Seq<char>, obj: Seq<(String, JsonValue)>)
    requires
        forall|k: int| 0 <= k < t.len() ==> t[k] != '{',
        forall|k: int| 0 <= k < t.len() - 1 ==> !(#[trigger] t[k] == '}' && t[k + 1] == '}'),
    ensures
        rendered(t, obj) == t,
{
    lemma_plain_from(t, obj, 0);
    assert(t.subrange(0, t.len() as int) =~= t);
}

} // verus!
