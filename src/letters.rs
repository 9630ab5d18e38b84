//! The table of letters whose case the advanced conversion fixes.
use vstd::prelude::*;

verus! {

/// Two lists do not share a letter.
pub open spec fn disjoint(a: Seq<char>, b: Seq<char>) -> bool {
    forall|i: int, j: int| 0 <= i < a.len() && 0 <= j < b.len() ==> a[i] != b[j]
}

/// Letters, in their lowercase form, that the advanced conversion always writes in
/// lowercase (`keep_lowercase`) or always in uppercase (`keep_uppercase`).
pub struct SpecialLetters {
    keep_lowercase: Vec<char>,
    keep_uppercase: Vec<char>,
}

/// Whether `c` is one of the letters of `v`.
fn holds(v: &Vec<char>, c: char) -> (r: bool)
    ensures
        r == v@.contains(c),
{
    let mut i: usize = 0;
    while i < v.len()
        invariant
            i <= v.len(),
            forall|j: int| 0 <= j < i ==> v@[j] != c,
        decreases v.len() - i,
    {
        if v[i] == c {
            return true;
        }
        i = i + 1;
    }
    false
}

impl SpecialLetters {
    /// The letters kept in lowercase.
    pub closed spec fn lowercase(&self) -> Seq<char> {
        self.keep_lowercase@
    }

    /// The letters kept in uppercase.
    pub closed spec fn uppercase(&self) -> Seq<char> {
        self.keep_uppercase@
    }

    /// No letter is kept in both cases.
    pub open spec fn wf(&self) -> bool {
        disjoint(self.lowercase(), self.uppercase())
    }

    /// The usual table: `i` is kept lowercase and `l` uppercase.
    pub fn standard() -> (r: Self)
        ensures
            r.lowercase() == standard_lowercase(),
            r.uppercase() == standard_uppercase(),
            r.wf(),
    {
        let mut keep_lowercase: Vec<char> = Vec::new();
        keep_lowercase.push('i');
        let mut keep_uppercase: Vec<char> = Vec::new();
        keep_uppercase.push('l');
        proof {
            assert(keep_lowercase@ =~= standard_lowercase());
            assert(keep_uppercase@ =~= standard_uppercase());
        }
        SpecialLetters { keep_lowercase, keep_uppercase }
    }

    /// A table of the given letters; `None` when a letter is in both lists.
    pub fn new(keep_lowercase: Vec<char>, keep_uppercase: Vec<char>) -> (r: Option<Self>)
        ensures
            r is Some <==> disjoint(keep_lowercase@, keep_uppercase@),
            r matches Some(t) ==> t.lowercase() == keep_lowercase@ && t.uppercase()
                == keep_uppercase@,
    {
        let mut i: usize = 0;
        while i < keep_lowercase.len()
            invariant
                i <= keep_lowercase.len(),
                forall|a: int, b: int|
                    0 <= a < i && 0 <= b < keep_uppercase@.len() ==> keep_lowercase@[a]
                        != keep_uppercase@[b],
            decreases keep_lowercase.len() - i,
        {
            if holds(&keep_uppercase, keep_lowercase[i]) {
                return None;
            }
            i = i + 1;
        }
        Some(SpecialLetters { keep_lowercase, keep_uppercase })
    }

    /// Whether `c` is kept in lowercase.
    pub fn keeps_lowercase(&self, c: char) -> (r: bool)
        ensures
            r == self.lowercase().contains(c),
    {
        holds(&self.keep_lowercase, c)
    }

    /// Whether `c` is kept in uppercase.
    pub fn keeps_uppercase(&self, c: char) -> (r: bool)
        ensures
            r == self.uppercase().contains(c),
    {
        holds(&self.keep_uppercase, c)
    }
}

/// The letters that the usual table keeps in lowercase.
pub open spec fn standard_lowercase() -> Seq<char> {
    seq!['i']
}

/// The letters that the usual table keeps in uppercase.
pub open spec fn standard_uppercase() -> Seq<char> {
    seq!['l']
}

} // verus!
