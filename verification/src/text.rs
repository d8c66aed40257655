//! Small operations on text shared by the library.
use vstd::prelude::*;
use vstd::string::StringExecFns;

verus! {

/// Whether two strings hold the same characters.
pub fn str_equal(a: &str, b: &str) -> (r: bool)
    ensures
        r == (a@ == b@),
{
    let ab = a.as_bytes();
    let bb = b.as_bytes();
    proof {
        vstd::utf8::encode_utf8_decode_utf8(a@);
        vstd::utf8::encode_utf8_decode_utf8(b@);
    }
    if ab.len() != bb.len() {
        return false;
    }
    let mut i: usize = 0;
    while i < ab.len()
        invariant
            0 <= i <= ab@.len(),
            ab@.len() == bb@.len(),
            ab@ == vstd::utf8::encode_utf8(a@),
            bb@ == vstd::utf8::encode_utf8(b@),
            forall|j: int| 0 <= j < i ==> ab@[j] == bb@[j],
        decreases ab@.len() - i,
    {
        if ab[i] != bb[i] {
            assert(ab@[i as int] != bb@[i as int]);
            return false;
        }
        i = i + 1;
    }
    assert(ab@ =~= bb@);
    true
}

/// The words joined by single spaces.
pub open spec fn joined(words: Seq<Seq<char>>) -> Seq<char>
    decreases words.len(),
{
    if words.len() == 0 {
        Seq::empty()
    } else if words.len() == 1 {
        words[0]
    } else {
        joined(words.drop_last()) + seq![' '] + words.last()
    }
}

/// The words of `words` from `start` on, joined by single spaces.
pub fn join_from(words: &Vec<String>, start: usize) -> (s: String)
    requires
        start <= words@.len(),
    ensures
        s@ == joined(words@.subrange(start as int, words@.len() as int).map_values(|w: String| w@)),
{
    let mut s = String::new();
    let mut i: usize = start;
    while i < words.len()
        invariant
            start <= i <= words@.len(),
            s@ == joined(words@.subrange(start as int, i as int).map_values(|w: String| w@)),
        decreases words@.len() - i,
    {
        let ghost prev = words@.subrange(start as int, i as int).map_values(|w: String| w@);
        if i > start {
            s.append(" ");
            proof {
                reveal_strlit(" ");
            }
        }
        s.append(words[i].as_str());
        proof {
            let next = words@.subrange(start as int, i + 1).map_values(|w: String| w@);
            assert(next.drop_last() =~= prev);
            assert(next.last() == words@[i as int]@);
        }
        i = i + 1;
    }
    s
}

} // verus!
