//! Plain character-sequence scanning: substring search and
//! whitespace-delimited word search, used for marker texts and for
//! `class` attribute matching.

use vstd::prelude::*;

verus! {

/// Relies on str::chars and Vec's FromIterator: collecting a string
/// slice's characters yields exactly its characters, in order.
#[verifier::external_body]
pub fn chars_of(s: &str) -> (r: Vec<char>)
    ensures
        r@ == s@,
{
    s.chars().collect()
}

/// The word `w` occurs in `h` starting at position `i`.
pub open spec fn contains_at(h: Seq<char>, w: Seq<char>, i: int) -> bool {
    0 <= i && i + w.len() <= h.len() && h.subrange(i, i + w.len()) == w
}

/// The word `w` occurs somewhere in `h` as a contiguous run.
pub open spec fn contains_sub(h: Seq<char>, w: Seq<char>) -> bool {
    exists|i: int| contains_at(h, w, i)
}

/// Whitespace for the purpose of splitting attribute values into words.
pub open spec fn is_space(c: char) -> bool {
    c == ' ' || c == '\t' || c == '\n' || c == '\r' || c == '\u{b}' || c == '\u{c}'
}

/// The word `w` occurs in `h` at `i`, delimited by whitespace or the ends.
pub open spec fn word_at(h: Seq<char>, w: Seq<char>, i: int) -> bool {
    contains_at(h, w, i) && (i == 0 || is_space(h[i - 1])) && (i + w.len() == h.len()
        || is_space(h[i + w.len()]))
}

/// The word `w` occurs in `h` delimited by whitespace or the ends, as a
/// whitespace-split attribute value would list it.
pub open spec fn has_word(h: Seq<char>, w: Seq<char>) -> bool {
    exists|i: int| word_at(h, w, i)
}

fn is_space_char(c: char) -> (r: bool)
    ensures
        r == is_space(c),
{
    c == ' ' || c == '\t' || c == '\n' || c == '\r' || c == '\u{b}' || c == '\u{c}'
}

/// Whether `h[i ..]` starts with `w`.
#[verifier::loop_isolation(false)]
fn match_at(h: &Vec<char>, w: &Vec<char>, i: usize) -> (r: bool)
    requires
        i + w@.len() <= h@.len(),
    ensures
        r == (h@.subrange(i as int, i + w@.len()) == w@),
{
    let _hn: usize = h.len();
    let mut j: usize = 0;
    while j < w.len()
        invariant
            0 <= j <= w@.len(),
            i + w@.len() <= h@.len(),
            forall|k: int| 0 <= k < j ==> h@[i + k] == w@[k],
        decreases w@.len() - j,
    {
        if h[i + j] != w[j] {
            proof {
                assert(h@.subrange(i as int, i + w@.len())[j as int] == h@[i + j]);
            }
            return false;
        }
        j = j + 1;
    }
    proof {
        assert(h@.subrange(i as int, i + w@.len()) =~= w@);
    }
    true
}

/// Whether `w` occurs in `h` as a contiguous run of characters.
#[verifier::loop_isolation(false)]
pub fn contains_chars(h: &Vec<char>, w: &Vec<char>) -> (r: bool)
    ensures
        r == contains_sub(h@, w@),
{
    if w.len() > h.len() {
        return false;
    }
    let mut i: usize = h.len() - w.len();
    loop
        invariant
            w@.len() <= h@.len(),
            0 <= i <= h@.len() - w@.len(),
            forall|k: int| i < k ==> !contains_at(h@, w@, k),
        decreases i,
    {
        if match_at(h, w, i) {
            assert(contains_at(h@, w@, i as int));
            return true;
        }
        if i == 0 {
            return false;
        }
        i = i - 1;
    }
}

/// Whether `w` occurs in `h` delimited by whitespace or the ends.
#[verifier::loop_isolation(false)]
pub fn contains_word(h: &Vec<char>, w: &Vec<char>) -> (r: bool)
    ensures
        r == has_word(h@, w@),
{
    if w.len() > h.len() {
        return false;
    }
    let mut i: usize = h.len() - w.len();
    loop
        invariant
            w@.len() <= h@.len(),
            0 <= i <= h@.len() - w@.len(),
            forall|k: int| i < k ==> !word_at(h@, w@, k),
        decreases i,
    {
        let left_ok = i == 0 || is_space_char(h[i - 1]);
        let right_ok = i + w.len() == h.len() || is_space_char(h[i + w.len()]);
        if left_ok && right_ok && match_at(h, w, i) {
            assert(word_at(h@, w@, i as int));
            return true;
        }
        if i == 0 {
            return false;
        }
        i = i - 1;
    }
}

/// Whether two string slices hold the same characters.
#[verifier::loop_isolation(false)]
pub fn eq_str(a: &str, b: &str) -> (r: bool)
    ensures
        r == (a@ == b@),
{
    let va = chars_of(a);
    let vb = chars_of(b);
    if va.len() != vb.len() {
        return false;
    }
    let mut i: usize = 0;
    while i < va.len()
        invariant
            va@ == a@,
            vb@ == b@,
            va@.len() == vb@.len(),
            0 <= i <= va@.len(),
            forall|k: int| 0 <= k < i ==> va@[k] == vb@[k],
        decreases va@.len() - i,
    {
        if va[i] != vb[i] {
            return false;
        }
        i = i + 1;
    }
    proof {
        assert(a@ =~= b@);
    }
    true
}

} // verus!
