//! The conversions into alternating case.
use vstd::prelude::*;
use crate::alternation::{
    advanced_text, alternated, anchor_at, anchor_phase, backward_state, backward_text,
    convert_text, first_anchor, flipped, forward_flipped, forward_piece, forward_state,
    forward_text, has_case, is_anchor, leads_with, lemma_first_anchor, lowercase_present,
    mapped, simple_state, simple_text, Mapped,
};
use crate::case_map::{map_chars, push_char, views, MappedChar};
use crate::letters::{standard_lowercase, standard_uppercase, SpecialLetters};

verus! {

/// Appends what `m` becomes under alternation state `upper`; tells whether `m` is cased.
fn push_alternated(out: &mut String, m: &MappedChar, upper: bool) -> (cased: bool)
    ensures
        final(out)@ == old(out)@ + alternated(m@, upper),
        cased == has_case(m@),
{
    if m.lower == m.upper {
        push_char(out, m.ch);
        proof {
            assert(old(out)@.push(m.ch) =~= old(out)@ + seq![m.ch]);
        }
        false
    } else {
        if upper {
            out.append(m.upper.as_str());
        } else {
            out.append(m.lower.as_str());
        }
        true
    }
}

/// Simple alternation of mapped characters: cased ones alternate between their
/// uppercase and lowercase mapping, left to right, the first in uppercase iff
/// `start_with_uppercase`; the others are kept and leave the alternation as it is.
pub fn simple_alternate(chars: &Vec<MappedChar>, start_with_uppercase: bool) -> (r: String)
    ensures
        r@ == simple_text(views(chars@), start_with_uppercase),
{
    let ghost s = views(chars@);
    let mut output = String::new();
    let mut upper = start_with_uppercase;
    let mut i: usize = 0;
    while i < chars.len()
        invariant
            s == views(chars@),
            i <= chars.len(),
            output@ == simple_text(s.take(i as int), start_with_uppercase),
            upper == simple_state(s.take(i as int), start_with_uppercase),
        decreases chars.len() - i,
    {
        let cased = push_alternated(&mut output, &chars[i], upper);
        if cased {
            upper = !upper;
        }
        proof {
            assert(s.take(i + 1).drop_last() =~= s.take(i as int));
            assert(s[i as int] == chars@[i as int]@);
        }
        i = i + 1;
    }
    proof {
        assert(s.take(chars.len() as int) =~= s);
    }
    output
}

/// Simple alternation of `input`, the first cased character in uppercase iff
/// `start_with_uppercase`.
pub fn simple_convert(input: &str, start_with_uppercase: bool) -> (r: String)
    ensures
        r@ == simple_text(mapped(input@), start_with_uppercase),
{
    let chars = map_chars(input);
    simple_alternate(&chars, start_with_uppercase)
}

/// Pieces collected right to left, joined back in left-to-right order.
spec fn joined_backward(pieces: Seq<Seq<char>>) -> Seq<char>
    decreases pieces.len(),
{
    if pieces.len() == 0 {
        seq![]
    } else {
        pieces.last() + joined_backward(pieces.drop_last())
    }
}

/// Whether the lowercase mapping of `m` starts with a letter that `letters` keeps
/// lowercase, and whether with one it keeps uppercase.
fn lookup(letters: &SpecialLetters, m: &MappedChar) -> (r: (bool, bool))
    ensures
        r.0 == leads_with(letters.lowercase(), m@),
        r.1 == leads_with(letters.uppercase(), m@),
{
    if m.lower.as_str().unicode_len() == 0 {
        (false, false)
    } else {
        let first = m.lower.as_str().get_char(0);
        (letters.keeps_lowercase(first), letters.keeps_uppercase(first))
    }
}

/// Appends what `m` becomes in the forward part under state `upper`; returns the
/// state after it.
fn push_forward(out: &mut String, letters: &SpecialLetters, m: &MappedChar, upper: bool) -> (next:
    bool)
    ensures
        final(out)@ == old(out)@ + forward_piece(
            letters.lowercase(),
            letters.uppercase(),
            m@,
            upper,
        ),
        next == forward_flipped(letters.lowercase(), letters.uppercase(), m@, upper),
{
    if m.lower == m.upper {
        push_char(out, m.ch);
        proof {
            assert(old(out)@.push(m.ch) =~= old(out)@ + seq![m.ch]);
        }
        upper
    } else {
        let (keep_lower, keep_upper) = lookup(letters, m);
        if keep_lower {
            out.append(m.lower.as_str());
            true
        } else if keep_upper {
            out.append(m.upper.as_str());
            false
        } else {
            if upper {
                out.append(m.upper.as_str());
            } else {
                out.append(m.lower.as_str());
            }
            !upper
        }
    }
}

/// The position of the first anchor of `chars`, if any.
fn find_anchor(chars: &Vec<MappedChar>, letters: &SpecialLetters) -> (r: Option<usize>)
    ensures
        r is None ==> first_anchor(letters.lowercase(), letters.uppercase(), views(chars@))
            == chars@.len(),
        r matches Some(k) ==> k == first_anchor(
            letters.lowercase(),
            letters.uppercase(),
            views(chars@),
        ) && k < chars@.len(),
{
    let ghost lows = letters.lowercase();
    let ghost ups = letters.uppercase();
    let ghost s = views(chars@);
    let mut i: usize = 0;
    while i < chars.len()
        invariant
            i <= chars.len(),
            s == views(chars@),
            lows == letters.lowercase(),
            ups == letters.uppercase(),
            forall|j: int| 0 <= j < i ==> !is_anchor(lows, ups, #[trigger] s[j]),
        decreases chars.len() - i,
    {
        let (keep_lower, keep_upper) = lookup(letters, &chars[i]);
        assert(s[i as int] == chars@[i as int]@);
        if keep_lower || keep_upper {
            proof {
                lemma_first_anchor(lows, ups, s, i as int);
            }
            return Some(i);
        }
        i = i + 1;
    }
    proof {
        lemma_first_anchor(lows, ups, s, chars.len() as int);
    }
    None
}

/// Advanced alternation of mapped characters with the given table of special letters.
///
/// The first character whose lowercase form is in the table is the anchor. The part
/// before it is alternated backward, starting in uppercase right before the anchor
/// when the anchor is kept lowercase, and in lowercase otherwise. From the anchor on,
/// letters of the table take their fixed case and the others alternate around them.
/// Without an anchor this is simple alternation starting in lowercase.
pub fn advanced_alternate(chars: &Vec<MappedChar>, letters: &SpecialLetters) -> (r: String)
    requires
        lowercase_present(views(chars@)),
    ensures
        r@ == advanced_text(letters.lowercase(), letters.uppercase(), views(chars@)),
{
    let ghost lows = letters.lowercase();
    let ghost ups = letters.uppercase();
    let ghost s = views(chars@);
    let n = chars.len();
    let (anchor, anchor_lower) = match find_anchor(chars, letters) {
        Some(k) => {
            let (keep_lower, _) = lookup(letters, &chars[k]);
            (k, keep_lower)
        },
        None => (0, false),
    };
    assert(anchor == anchor_at(lows, ups, s));
    assert(anchor_lower == anchor_phase(lows, ups, s));
    let ghost prefix = s.take(anchor as int);

    // The part before the anchor, scanned backward; its pieces are kept right to left.
    let mut upper = anchor_lower;
    let mut pieces: Vec<String> = Vec::new();
    let ghost mut gp: Seq<Seq<char>> = seq![];
    let mut k: usize = anchor;
    while k > 0
        invariant
            s == views(chars@),
            n == s.len(),
            k <= anchor <= n,
            prefix == s.take(anchor as int),
            pieces@.len() == gp.len(),
            forall|m: int| 0 <= m < gp.len() ==> (#[trigger] pieces@[m])@ == gp[m],
            backward_text(prefix, anchor_lower) == backward_text(s.take(k as int), upper)
                + joined_backward(gp),
            backward_state(prefix, anchor_lower) == backward_state(s.take(k as int), upper),
        decreases k,
    {
        let mut piece = String::new();
        let cased = push_alternated(&mut piece, &chars[k - 1], upper);
        proof {
            let c = s[k - 1];
            assert(c == chars@[k - 1]@);
            let t = s.take(k as int);
            assert(t.drop_last() =~= s.take(k - 1));
            assert(piece@ =~= alternated(c, upper));
            assert(gp.push(piece@).drop_last() =~= gp);
            assert(backward_text(s.take(k - 1), flipped(c, upper)) + (alternated(c, upper)
                + joined_backward(gp)) =~= backward_text(t, upper) + joined_backward(gp));
            gp = gp.push(piece@);
        }
        if cased {
            upper = !upper;
        }
        pieces.push(piece);
        k = k - 1;
    }
    proof {
        assert(s.take(0) =~= Seq::<Mapped>::empty());
        assert(joined_backward(gp) == backward_text(prefix, anchor_lower));
    }

    // The pieces, joined back in order.
    let mut output = String::new();
    let mut m: usize = pieces.len();
    assert(gp.take(m as int) =~= gp);
    while m > 0
        invariant
            m <= pieces@.len() == gp.len(),
            forall|j: int| 0 <= j < gp.len() ==> (#[trigger] pieces@[j])@ == gp[j],
            output@ + joined_backward(gp.take(m as int)) == joined_backward(gp),
        decreases m,
    {
        proof {
            assert(gp.take(m as int).drop_last() =~= gp.take(m - 1));
            assert(output@ + pieces@[m - 1]@ + joined_backward(gp.take(m - 1)) =~= output@
                + joined_backward(gp.take(m as int)));
        }
        output.append(pieces[m - 1].as_str());
        m = m - 1;
    }
    proof {
        assert(gp.take(0) =~= Seq::<Seq<char>>::empty());
        assert(output@ =~= joined_backward(gp));
    }

    // From the anchor to the end, scanned forward.
    let ghost start = upper;
    let mut i: usize = anchor;
    while i < n
        invariant
            s == views(chars@),
            n == s.len(),
            anchor <= i <= n,
            lows == letters.lowercase(),
            ups == letters.uppercase(),
            output@ == backward_text(prefix, anchor_lower) + forward_text(
                lows,
                ups,
                s.subrange(anchor as int, i as int),
                start,
            ),
            upper == forward_state(lows, ups, s.subrange(anchor as int, i as int), start),
        decreases n - i,
    {
        upper = push_forward(&mut output, letters, &chars[i], upper);
        proof {
            assert(s[i as int] == chars@[i as int]@);
            assert(s.subrange(anchor as int, i + 1).drop_last() =~= s.subrange(
                anchor as int,
                i as int,
            ));
        }
        i = i + 1;
    }
    proof {
        assert(s.subrange(anchor as int, n as int) =~= s.skip(anchor as int));
    }
    output
}

/// Advanced alternation of `input` with the given table of special letters.
pub fn advanced_convert_with(input: &str, letters: &SpecialLetters) -> (r: String)
    ensures
        r@ == advanced_text(letters.lowercase(), letters.uppercase(), mapped(input@)),
{
    let chars = map_chars(input);
    advanced_alternate(&chars, letters)
}

/// Advanced alternation of `input` with the usual table: `i` is kept lowercase and
/// `l` uppercase.
pub fn advanced_convert(input: &str) -> (r: String)
    ensures
        r@ == advanced_text(standard_lowercase(), standard_uppercase(), mapped(input@)),
{
    let letters = SpecialLetters::standard();
    advanced_convert_with(input, &letters)
}

/// Converts `input` into alternating case: simple alternation starting in uppercase
/// when `simple_mode` is set, else advanced alternation with the usual table.
pub fn convert(input: &str, simple_mode: bool) -> (r: String)
    ensures
        r@ == convert_text(input@, simple_mode),
{
    if simple_mode {
        simple_convert(input, true)
    } else {
        advanced_convert(input)
    }
}

} // verus!
