//! Unicode case mappings of single characters, and the character-level helpers
//! that the conversions are built from.
use vstd::prelude::*;
use crate::alternation::{has_case, lowercase_present, mapped, Mapped};

verus! {

/// The full lowercase mapping of a character, as `char::to_lowercase` yields it.
pub uninterp spec fn lower_of(c: char) -> Seq<char>;

/// The full uppercase mapping of a character, as `char::to_uppercase` yields it.
pub uninterp spec fn upper_of(c: char) -> Seq<char>;

/// A character has a case distinction when its two mappings differ.
pub open spec fn is_cased(c: char) -> bool {
    lower_of(c) != upper_of(c)
}

/// Relies on `char::to_lowercase`: it yields the lowercase mapping of `c` as one or
/// more characters.
#[verifier::external_body]
fn lowercase_string(c: char) -> (r: String)
    ensures
        r@ == lower_of(c),
        r@.len() >= 1,
{
    c.to_lowercase().collect::<String>()
}

/// Relies on `char::to_uppercase`: it yields the uppercase mapping of `c` as one or
/// more characters.
#[verifier::external_body]
fn uppercase_string(c: char) -> (r: String)
    ensures
        r@ == upper_of(c),
        r@.len() >= 1,
{
    c.to_uppercase().collect::<String>()
}

/// Relies on `String::push`: it appends one character at the end.
#[verifier::external_body]
pub(crate) fn push_char(s: &mut String, c: char)
    ensures
        final(s)@ == old(s)@.push(c),
{
    s.push(c);
}

/// The characters of `s`, in order.
fn chars_of(s: &str) -> (r: Vec<char>)
    ensures
        r@ == s@,
{
    let mut v: Vec<char> = Vec::new();
    for c in it: s.chars()
        invariant
            it.seq() == s@,
            v@ == it.seq().take(it.index() as int),
    {
        v.push(c);
    }
    v
}

/// Classifies a character: `None` when it has no case distinction, else its
/// lowercase and uppercase mappings.
pub fn case_mappings(c: char) -> (r: Option<(String, String)>)
    ensures
        r is None <==> !is_cased(c),
        r matches Some((lo, up)) ==> lo@ == lower_of(c) && up@ == upper_of(c),
        lower_of(c).len() >= 1,
        upper_of(c).len() >= 1,
{
    let lo = lowercase_string(c);
    let up = uppercase_string(c);
    if lo == up {
        None
    } else {
        Some((lo, up))
    }
}

/// A character with its lowercase and its uppercase mapping.
pub struct MappedChar {
    /// The character itself.
    pub ch: char,
    /// Its full lowercase mapping.
    pub lower: String,
    /// Its full uppercase mapping.
    pub upper: String,
}

impl View for MappedChar {
    type V = Mapped;

    open spec fn view(&self) -> Mapped {
        (self.ch, self.lower@, self.upper@)
    }
}

/// The views of a sequence of mapped characters.
pub open spec fn views(v: Seq<MappedChar>) -> Seq<Mapped> {
    v.map_values(|m: MappedChar| m@)
}

/// What pushing one mapped character does to a sequence of them.
proof fn lemma_pushed(before: Seq<MappedChar>, m: MappedChar)
    ensures
        before.push(m).len() == before.len() + 1,
        before.push(m)[before.len() as int] == m,
        forall|j: int| 0 <= j < before.len() ==> #[trigger] before.push(m)[j] == before[j],
{
}

/// Each character of `s` with its case mappings.
pub fn map_chars(s: &str) -> (r: Vec<MappedChar>)
    ensures
        views(r@) == mapped(s@),
        lowercase_present(views(r@)),
{
    let chars = chars_of(s);
    let mut v: Vec<MappedChar> = Vec::new();
    let mut i: usize = 0;
    while i < chars.len()
        invariant
            chars@ == s@,
            i <= chars.len(),
            v@.len() == i,
            forall|j: int|
                0 <= j < i ==> (#[trigger] v@[j])@ == (chars@[j], lower_of(chars@[j]), upper_of(
                    chars@[j],
                )) && v@[j].lower@.len() > 0,
        decreases chars.len() - i,
    {
        let c = chars[i];
        let lower = lowercase_string(c);
        let upper = uppercase_string(c);
        let m = MappedChar { ch: c, lower, upper };
        assert(m@ == (chars@[i as int], lower_of(chars@[i as int]), upper_of(chars@[i as int])));
        let ghost before = v@;
        v.push(m);
        proof {
            lemma_pushed(before, m);
        }
        i = i + 1;
    }
    proof {
        assert(views(v@) =~= mapped(s@));
        let t = views(v@);
        assert forall|j: int| 0 <= j < t.len() && has_case(#[trigger] t[j]) implies t[j].1.len()
            > 0 by {
            assert(t[j] == v@[j]@);
        }
    }
    v
}

} // verus!
