//! The meaning of the two conversions, stated over characters paired with their
//! case mappings.
use vstd::prelude::*;
use crate::case_map::{lower_of, upper_of};
use crate::letters::{standard_lowercase, standard_uppercase};

verus! {

/// A character with its lowercase and its uppercase mapping.
pub type Mapped = (char, Seq<char>, Seq<char>);

/// Each character of `s` with the mappings that `char::to_lowercase` and
/// `char::to_uppercase` give it.
pub open spec fn mapped(s: Seq<char>) -> Seq<Mapped> {
    s.map_values(|c: char| (c, lower_of(c), upper_of(c)))
}

/// A character has a case distinction when its two mappings differ.
pub open spec fn has_case(m: Mapped) -> bool {
    m.1 != m.2
}

/// What a character becomes under the alternation state `upper`: itself when it has
/// no case distinction, else its uppercase or lowercase mapping.
pub open spec fn alternated(m: Mapped, upper: bool) -> Seq<char> {
    if !has_case(m) {
        seq![m.0]
    } else if upper {
        m.2
    } else {
        m.1
    }
}

/// The alternation state after a character: a cased character flips it.
pub open spec fn flipped(m: Mapped, upper: bool) -> bool {
    if has_case(m) {
        !upper
    } else {
        upper
    }
}

/// The alternation state after a left-to-right scan of `s` started in state `start`.
pub open spec fn simple_state(s: Seq<Mapped>, start: bool) -> bool
    decreases s.len(),
{
    if s.len() == 0 {
        start
    } else {
        flipped(s.last(), simple_state(s.drop_last(), start))
    }
}

/// Simple alternation of `s`, the first cased character in uppercase iff `start`.
pub open spec fn simple_text(s: Seq<Mapped>, start: bool) -> Seq<char>
    decreases s.len(),
{
    if s.len() == 0 {
        seq![]
    } else {
        simple_text(s.drop_last(), start) + alternated(
            s.last(),
            simple_state(s.drop_last(), start),
        )
    }
}

/// The lowercase mapping of `m` starts with a letter of `letters`: the table of
/// special letters is looked up by that first character.
pub open spec fn leads_with(letters: Seq<char>, m: Mapped) -> bool {
    m.1.len() > 0 && letters.contains(m.1[0])
}

/// `m` is an anchor: its lowercase form is in one of the two lists.
pub open spec fn is_anchor(lows: Seq<char>, ups: Seq<char>, m: Mapped) -> bool {
    leads_with(lows, m) || leads_with(ups, m)
}

/// The position of the first anchor of `s`, or the length of `s` when it has none.
pub open spec fn first_anchor(lows: Seq<char>, ups: Seq<char>, s: Seq<Mapped>) -> int
    decreases s.len(),
{
    if s.len() == 0 {
        0
    } else if is_anchor(lows, ups, s[0]) {
        0
    } else {
        1 + first_anchor(lows, ups, s.drop_first())
    }
}

/// Where the text splits into the backward and the forward part: at the first
/// anchor, or at the start when there is none.
pub open spec fn anchor_at(lows: Seq<char>, ups: Seq<char>, s: Seq<Mapped>) -> int {
    if first_anchor(lows, ups, s) < s.len() {
        first_anchor(lows, ups, s)
    } else {
        0
    }
}

/// The state handed to the backward part: whether the first anchor is kept lowercase
/// (false when there is no anchor).
pub open spec fn anchor_phase(lows: Seq<char>, ups: Seq<char>, s: Seq<Mapped>) -> bool {
    first_anchor(lows, ups, s) < s.len() && leads_with(lows, s[first_anchor(lows, ups, s)])
}

/// Alternation of `p` carried backward from its end: its last character is written
/// under state `upper`, and each cased character flips the state for the ones before it.
pub open spec fn backward_text(p: Seq<Mapped>, upper: bool) -> Seq<char>
    decreases p.len(),
{
    if p.len() == 0 {
        seq![]
    } else {
        backward_text(p.drop_last(), flipped(p.last(), upper)) + alternated(p.last(), upper)
    }
}

/// The state left once the backward scan of `p` has reached its start.
pub open spec fn backward_state(p: Seq<Mapped>, upper: bool) -> bool
    decreases p.len(),
{
    if p.len() == 0 {
        upper
    } else {
        backward_state(p.drop_last(), flipped(p.last(), upper))
    }
}

/// What a character becomes in the forward part: a cased letter of the table is
/// forced into its case, any other character alternates.
pub open spec fn forward_piece(lows: Seq<char>, ups: Seq<char>, m: Mapped, upper: bool) -> Seq<
    char,
> {
    if has_case(m) && leads_with(lows, m) {
        m.1
    } else if has_case(m) && leads_with(ups, m) {
        m.2
    } else {
        alternated(m, upper)
    }
}

/// The state after a character in the forward part: a forced letter sets it so that
/// the next cased character takes the other case.
pub open spec fn forward_flipped(lows: Seq<char>, ups: Seq<char>, m: Mapped, upper: bool) -> bool {
    if has_case(m) && leads_with(lows, m) {
        true
    } else if has_case(m) && leads_with(ups, m) {
        false
    } else {
        flipped(m, upper)
    }
}

/// The state after a forward scan of `s` started in state `start`.
pub open spec fn forward_state(lows: Seq<char>, ups: Seq<char>, s: Seq<Mapped>, start: bool) -> bool
    decreases s.len(),
{
    if s.len() == 0 {
        start
    } else {
        forward_flipped(lows, ups, s.last(), forward_state(lows, ups, s.drop_last(), start))
    }
}

/// The forward part: `s` scanned left to right from state `start`.
pub open spec fn forward_text(lows: Seq<char>, ups: Seq<char>, s: Seq<Mapped>, start: bool) -> Seq<
    char,
>
    decreases s.len(),
{
    if s.len() == 0 {
        seq![]
    } else {
        forward_text(lows, ups, s.drop_last(), start) + forward_piece(
            lows,
            ups,
            s.last(),
            forward_state(lows, ups, s.drop_last(), start),
        )
    }
}

/// Advanced alternation of `s` with the letters `lows` kept lowercase and `ups` kept
/// uppercase: the part before the first anchor is alternated backward from the
/// anchor's case, the rest forward; the forward scan goes on in the state that the
/// backward scan left.
pub open spec fn advanced_text(lows: Seq<char>, ups: Seq<char>, s: Seq<Mapped>) -> Seq<char> {
    let a = anchor_at(lows, ups, s);
    let phase = anchor_phase(lows, ups, s);
    backward_text(s.take(a), phase) + forward_text(
        lows,
        ups,
        s.skip(a),
        backward_state(s.take(a), phase),
    )
}

/// What `convert` returns for `s`: simple alternation starting in uppercase, or
/// advanced alternation with the usual table.
pub open spec fn convert_text(s: Seq<char>, simple_mode: bool) -> Seq<char> {
    if simple_mode {
        simple_text(mapped(s), true)
    } else {
        advanced_text(standard_lowercase(), standard_uppercase(), mapped(s))
    }
}

/// Every cased character has a non-empty lowercase mapping, as case tables give.
pub open spec fn lowercase_present(s: Seq<Mapped>) -> bool {
    forall|i: int| 0 <= i < s.len() && has_case(#[trigger] s[i]) ==> s[i].1.len() > 0
}

/// The first anchor is at `i` when none comes before it and `s[i]` is one, and at
/// the length when there is none at all.
pub proof fn lemma_first_anchor(lows: Seq<char>, ups: Seq<char>, s: Seq<Mapped>, i: int)
    requires
        0 <= i <= s.len(),
        forall|j: int| 0 <= j < i ==> !is_anchor(lows, ups, #[trigger] s[j]),
        i == s.len() || is_anchor(lows, ups, s[i]),
    ensures
        first_anchor(lows, ups, s) == i,
    decreases i,
{
    if i > 0 {
        assert(!is_anchor(lows, ups, s[0]));
        let t = s.drop_first();
        assert forall|j: int| 0 <= j < i - 1 implies !is_anchor(lows, ups, #[trigger] t[j]) by {
            assert(t[j] == s[j + 1]);
        }
        lemma_first_anchor(lows, ups, t, i - 1);
    }
}

/// The first anchor lies within the text, or just past its end.
pub proof fn lemma_first_anchor_bounds(lows: Seq<char>, ups: Seq<char>, s: Seq<Mapped>)
    ensures
        0 <= first_anchor(lows, ups, s) <= s.len(),
        0 <= anchor_at(lows, ups, s) <= s.len(),
    decreases s.len(),
{
    if s.len() > 0 {
        lemma_first_anchor_bounds(lows, ups, s.drop_first());
    }
}

} // verus!
