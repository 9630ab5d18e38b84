//! Properties that hold of the conversions for every input.
use vstd::prelude::*;
use crate::alternation::{
    advanced_text, anchor_at, anchor_phase, backward_state, backward_text, convert_text,
    first_anchor, flipped, forward_state, forward_text, has_case, is_anchor, lemma_first_anchor,
    lemma_first_anchor_bounds, mapped, simple_state, simple_text, Mapped,
};
use crate::case_map::{is_cased, lower_of, upper_of};
use crate::letters::{standard_lowercase, standard_uppercase};

verus! {

/// The characters themselves, without their mappings.
pub open spec fn plain(t: Seq<Mapped>) -> Seq<char> {
    t.map_values(|m: Mapped| m.0)
}

/// No character of `t` has a case distinction.
pub open spec fn caseless(t: Seq<Mapped>) -> bool {
    forall|i: int| 0 <= i < t.len() ==> !has_case(#[trigger] t[i])
}

proof fn lemma_caseless_simple(t: Seq<Mapped>, start: bool)
    requires
        caseless(t),
    ensures
        simple_text(t, start) == plain(t),
    decreases t.len(),
{
    if t.len() > 0 {
        let p = t.drop_last();
        lemma_parts(t, t.len() - 1);
        lemma_caseless_simple(p, start);
        assert(!has_case(t[t.len() - 1]));
        assert(plain(p) + seq![t.last().0] =~= plain(t));
    }
}

proof fn lemma_caseless_backward(t: Seq<Mapped>, upper: bool)
    requires
        caseless(t),
    ensures
        backward_text(t, upper) == plain(t),
    decreases t.len(),
{
    if t.len() > 0 {
        let p = t.drop_last();
        lemma_parts(t, t.len() - 1);
        lemma_caseless_backward(p, flipped(t.last(), upper));
        assert(!has_case(t[t.len() - 1]));
        assert(plain(p) + seq![t.last().0] =~= plain(t));
    }
}

proof fn lemma_caseless_forward(lows: Seq<char>, ups: Seq<char>, t: Seq<Mapped>, start: bool)
    requires
        caseless(t),
    ensures
        forward_text(lows, ups, t, start) == plain(t),
    decreases t.len(),
{
    if t.len() > 0 {
        let p = t.drop_last();
        lemma_parts(t, t.len() - 1);
        lemma_caseless_forward(lows, ups, p, start);
        assert(!has_case(t[t.len() - 1]));
        assert(plain(p) + seq![t.last().0] =~= plain(t));
    }
}

/// Every part of a text taken from its start or its end has no cased character
/// when the text has none, and maps one to one when the text does.
proof fn lemma_parts(t: Seq<Mapped>, a: int)
    requires
        0 <= a <= t.len(),
    ensures
        caseless(t) ==> caseless(t.take(a)) && caseless(t.skip(a)),
        one_to_one(t) ==> one_to_one(t.take(a)) && one_to_one(t.skip(a)),
        t.len() > 0 ==> t.drop_last() == t.take(t.len() - 1),
{
    let (p, q) = (t.take(a), t.skip(a));
    assert forall|i: int| 0 <= i < p.len() implies #[trigger] p[i] == t[i] by {}
    assert forall|i: int| 0 <= i < q.len() implies #[trigger] q[i] == t[i + a] by {}
    if t.len() > 0 {
        assert(t.drop_last() =~= t.take(t.len() - 1));
    }
}

/// Characters without a case distinction come out unchanged from simple
/// alternation, whatever the starting case, and from advanced alternation, whatever
/// the table.
pub proof fn law_caseless_kept(t: Seq<Mapped>, start: bool, lows: Seq<char>, ups: Seq<char>)
    requires
        caseless(t),
    ensures
        simple_text(t, start) == plain(t),
        advanced_text(lows, ups, t) == plain(t),
{
    lemma_caseless_simple(t, start);
    lemma_first_anchor_bounds(lows, ups, t);
    let a = anchor_at(lows, ups, t);
    let p = t.take(a);
    let q = t.skip(a);
    lemma_parts(t, a);
    lemma_caseless_backward(p, anchor_phase(lows, ups, t));
    lemma_caseless_forward(lows, ups, q, backward_state(p, anchor_phase(lows, ups, t)));
    assert(plain(p) + plain(q) =~= plain(t));
}

/// `convert` hands back text without any cased character unchanged, in both modes.
pub proof fn law_convert_caseless_kept(s: Seq<char>, simple_mode: bool)
    requires
        forall|i: int| 0 <= i < s.len() ==> !is_cased(#[trigger] s[i]),
    ensures
        convert_text(s, simple_mode) == s,
{
    let t = mapped(s);
    assert(caseless(t)) by {
        assert forall|i: int| 0 <= i < t.len() implies !has_case(#[trigger] t[i]) by {
            assert(!is_cased(s[i]));
        }
    }
    law_caseless_kept(t, true, standard_lowercase(), standard_uppercase());
    assert(plain(t) =~= s);
}

/// Each character of `t` maps to exactly one character in either case.
pub open spec fn one_to_one(t: Seq<Mapped>) -> bool {
    forall|i: int| 0 <= i < t.len() ==> (#[trigger] t[i]).1.len() == 1 && t[i].2.len() == 1
}

proof fn lemma_one_to_one_simple(t: Seq<Mapped>, start: bool)
    requires
        one_to_one(t),
    ensures
        simple_text(t, start).len() == t.len(),
    decreases t.len(),
{
    if t.len() > 0 {
        let p = t.drop_last();
        lemma_parts(t, t.len() - 1);
        lemma_one_to_one_simple(p, start);
        assert(t[t.len() - 1].1.len() == 1);
    }
}

proof fn lemma_one_to_one_backward(t: Seq<Mapped>, upper: bool)
    requires
        one_to_one(t),
    ensures
        backward_text(t, upper).len() == t.len(),
    decreases t.len(),
{
    if t.len() > 0 {
        let p = t.drop_last();
        lemma_parts(t, t.len() - 1);
        lemma_one_to_one_backward(p, flipped(t.last(), upper));
        assert(t[t.len() - 1].1.len() == 1);
    }
}

proof fn lemma_one_to_one_forward(lows: Seq<char>, ups: Seq<char>, t: Seq<Mapped>, start: bool)
    requires
        one_to_one(t),
    ensures
        forward_text(lows, ups, t, start).len() == t.len(),
    decreases t.len(),
{
    if t.len() > 0 {
        let p = t.drop_last();
        lemma_parts(t, t.len() - 1);
        lemma_one_to_one_forward(lows, ups, p, start);
        assert(t[t.len() - 1].1.len() == 1);
    }
}

/// When no character's case mappings change the number of characters, both
/// alternations keep the length of the text, whatever the start and the table.
pub proof fn law_length_kept(t: Seq<Mapped>, start: bool, lows: Seq<char>, ups: Seq<char>)
    requires
        one_to_one(t),
    ensures
        simple_text(t, start).len() == t.len(),
        advanced_text(lows, ups, t).len() == t.len(),
{
    lemma_one_to_one_simple(t, start);
    lemma_first_anchor_bounds(lows, ups, t);
    let a = anchor_at(lows, ups, t);
    let p = t.take(a);
    let q = t.skip(a);
    lemma_parts(t, a);
    lemma_one_to_one_backward(p, anchor_phase(lows, ups, t));
    lemma_one_to_one_forward(lows, ups, q, backward_state(p, anchor_phase(lows, ups, t)));
}

/// `convert` keeps the number of characters when no character's case mappings
/// change it.
pub proof fn law_convert_length_kept(s: Seq<char>, simple_mode: bool)
    requires
        forall|i: int|
            0 <= i < s.len() ==> (#[trigger] lower_of(s[i])).len() == 1 && upper_of(s[i]).len()
                == 1,
    ensures
        convert_text(s, simple_mode).len() == s.len(),
{
    let t = mapped(s);
    assert(one_to_one(t)) by {
        assert forall|i: int| 0 <= i < t.len() implies (#[trigger] t[i]).1.len() == 1
            && t[i].2.len() == 1 by {
            assert(lower_of(s[i]).len() == 1);
        }
    }
    law_length_kept(t, true, standard_lowercase(), standard_uppercase());
}

/// No character of `t` is an anchor.
pub open spec fn anchorless(lows: Seq<char>, ups: Seq<char>, t: Seq<Mapped>) -> bool {
    forall|i: int| 0 <= i < t.len() ==> !is_anchor(lows, ups, #[trigger] t[i])
}

proof fn lemma_anchorless_forward(lows: Seq<char>, ups: Seq<char>, t: Seq<Mapped>, start: bool)
    requires
        anchorless(lows, ups, t),
    ensures
        forward_text(lows, ups, t, start) == simple_text(t, start),
        forward_state(lows, ups, t, start) == simple_state(t, start),
    decreases t.len(),
{
    if t.len() > 0 {
        let p = t.drop_last();
        assert(anchorless(lows, ups, p)) by {
            assert forall|i: int| 0 <= i < p.len() implies !is_anchor(lows, ups, #[trigger] p[i]) by {
                assert(p[i] == t[i]);
            }
        }
        lemma_anchorless_forward(lows, ups, p, start);
        assert(!is_anchor(lows, ups, t[t.len() - 1]));
    }
}

/// Without any anchor, advanced alternation is simple alternation that starts in
/// lowercase.
pub proof fn law_anchorless_is_simple(lows: Seq<char>, ups: Seq<char>, t: Seq<Mapped>)
    requires
        anchorless(lows, ups, t),
    ensures
        advanced_text(lows, ups, t) == simple_text(t, false),
{
    lemma_first_anchor(lows, ups, t, t.len() as int);
    assert(t.take(0) =~= Seq::<Mapped>::empty());
    assert(t.skip(0) =~= t);
    assert(backward_text(t.take(0), false) == Seq::<char>::empty());
    assert(backward_state(t.take(0), false) == false);
    lemma_anchorless_forward(lows, ups, t, false);
    assert(Seq::<char>::empty() + simple_text(t, false) =~= simple_text(t, false));
}

/// Two characters that differ at most in case: they have the same mappings, and
/// are the same character when they have no case distinction.
pub open spec fn same_but_case(m: Mapped, n: Mapped) -> bool {
    &&& m.1 == n.1
    &&& m.2 == n.2
    &&& !has_case(m) ==> m.0 == n.0
}

/// Two texts that differ at most in the case of their characters.
pub open spec fn case_equivalent(x: Seq<Mapped>, y: Seq<Mapped>) -> bool {
    &&& x.len() == y.len()
    &&& forall|i: int| 0 <= i < x.len() ==> same_but_case(#[trigger] x[i], y[i])
}

proof fn lemma_equivalent_drop_last(x: Seq<Mapped>, y: Seq<Mapped>)
    requires
        case_equivalent(x, y),
        x.len() > 0,
    ensures
        case_equivalent(x.drop_last(), y.drop_last()),
        same_but_case(x.last(), y.last()),
{
    let (a, b) = (x.drop_last(), y.drop_last());
    assert forall|i: int| 0 <= i < a.len() implies same_but_case(#[trigger] a[i], b[i]) by {
        assert(a[i] == x[i] && b[i] == y[i]);
    }
    assert(same_but_case(x[x.len() - 1], y[y.len() - 1]));
}

proof fn lemma_equivalent_simple(x: Seq<Mapped>, y: Seq<Mapped>, start: bool)
    requires
        case_equivalent(x, y),
    ensures
        simple_text(x, start) == simple_text(y, start),
        simple_state(x, start) == simple_state(y, start),
    decreases x.len(),
{
    if x.len() > 0 {
        lemma_equivalent_drop_last(x, y);
        lemma_equivalent_simple(x.drop_last(), y.drop_last(), start);
    }
}

proof fn lemma_equivalent_backward(x: Seq<Mapped>, y: Seq<Mapped>, upper: bool)
    requires
        case_equivalent(x, y),
    ensures
        backward_text(x, upper) == backward_text(y, upper),
        backward_state(x, upper) == backward_state(y, upper),
    decreases x.len(),
{
    if x.len() > 0 {
        lemma_equivalent_drop_last(x, y);
        lemma_equivalent_backward(x.drop_last(), y.drop_last(), flipped(x.last(), upper));
    }
}

proof fn lemma_equivalent_forward(
    lows: Seq<char>,
    ups: Seq<char>,
    x: Seq<Mapped>,
    y: Seq<Mapped>,
    start: bool,
)
    requires
        case_equivalent(x, y),
    ensures
        forward_text(lows, ups, x, start) == forward_text(lows, ups, y, start),
        forward_state(lows, ups, x, start) == forward_state(lows, ups, y, start),
    decreases x.len(),
{
    if x.len() > 0 {
        lemma_equivalent_drop_last(x, y);
        lemma_equivalent_forward(lows, ups, x.drop_last(), y.drop_last(), start);
    }
}

proof fn lemma_equivalent_anchor(lows: Seq<char>, ups: Seq<char>, x: Seq<Mapped>, y: Seq<Mapped>)
    requires
        case_equivalent(x, y),
    ensures
        first_anchor(lows, ups, x) == first_anchor(lows, ups, y),
    decreases x.len(),
{
    if x.len() > 0 {
        let (a, b) = (x.drop_first(), y.drop_first());
        assert forall|i: int| 0 <= i < a.len() implies same_but_case(#[trigger] a[i], b[i]) by {
            assert(a[i] == x[i + 1] && b[i] == y[i + 1]);
        }
        assert(same_but_case(x[0], y[0]));
        lemma_equivalent_anchor(lows, ups, a, b);
    }
}

/// Texts that differ only in the case of their characters convert alike: the
/// anchors stand at the same places and every character is written the same, in
/// both alternations, whatever the start and the table.
pub proof fn law_case_insensitive(
    x: Seq<Mapped>,
    y: Seq<Mapped>,
    start: bool,
    lows: Seq<char>,
    ups: Seq<char>,
)
    requires
        case_equivalent(x, y),
    ensures
        simple_text(x, start) == simple_text(y, start),
        anchor_at(lows, ups, x) == anchor_at(lows, ups, y),
        advanced_text(lows, ups, x) == advanced_text(lows, ups, y),
{
    lemma_equivalent_simple(x, y, start);
    lemma_equivalent_anchor(lows, ups, x, y);
    lemma_first_anchor_bounds(lows, ups, x);
    let k = first_anchor(lows, ups, x);
    if k < x.len() {
        assert(same_but_case(x[k], y[k]));
    }
    let a = anchor_at(lows, ups, x);
    let phase = anchor_phase(lows, ups, x);
    assert(phase == anchor_phase(lows, ups, y));
    let (px, py) = (x.take(a), y.take(a));
    let (qx, qy) = (x.skip(a), y.skip(a));
    assert forall|i: int| 0 <= i < px.len() implies same_but_case(#[trigger] px[i], py[i]) by {
        assert(px[i] == x[i] && py[i] == y[i]);
    }
    assert forall|i: int| 0 <= i < qx.len() implies same_but_case(#[trigger] qx[i], qy[i]) by {
        assert(qx[i] == x[i + a] && qy[i] == y[i + a]);
    }
    lemma_equivalent_backward(px, py, phase);
    lemma_equivalent_forward(lows, ups, qx, qy, backward_state(px, phase));
}

/// `convert` gives the same text for inputs that differ only in the case of their
/// characters: same mappings at each position, and the same character where it has
/// no case distinction.
pub proof fn law_convert_case_insensitive(x: Seq<char>, y: Seq<char>, simple_mode: bool)
    requires
        x.len() == y.len(),
        forall|i: int|
            0 <= i < x.len() ==> lower_of(#[trigger] x[i]) == lower_of(y[i]) && upper_of(x[i])
                == upper_of(y[i]) && (!is_cased(x[i]) ==> x[i] == y[i]),
    ensures
        convert_text(x, simple_mode) == convert_text(y, simple_mode),
{
    let (tx, ty) = (mapped(x), mapped(y));
    assert forall|i: int| 0 <= i < tx.len() implies same_but_case(#[trigger] tx[i], ty[i]) by {
        assert(lower_of(x[i]) == lower_of(y[i]));
    }
    law_case_insensitive(tx, ty, true, standard_lowercase(), standard_uppercase());
}

} // verus!
