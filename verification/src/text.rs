//! Character-level string helpers: equality, prefix tests and scanning for a
//! separator. Hostnames and URLs are handled as sequences of characters, so
//! everything here is stated over `Seq<char>` views.

use vstd::prelude::*;
use vstd::string::*;

verus! {

/// Compares two string slices character by character.
pub fn str_eq(a: &str, b: &str) -> (r: bool)
    ensures
        r == (a@ == b@),
{
    let a_len = a.unicode_len();
    let b_len = b.unicode_len();
    if a_len != b_len {
        return false;
    }
    let mut i: usize = 0;
    while i < a_len
        invariant
            a_len == a@.len(),
            b_len == b@.len(),
            a_len == b_len,
            i <= a_len,
            forall|j: int| 0 <= j < i ==> a@[j] == b@[j],
        decreases a_len - i,
    {
        if a.get_char(i) != b.get_char(i) {
            return false;
        }
        i = i + 1;
    }
    proof {
        assert(a@ =~= b@);
    }
    true
}

/// Whether `s` begins with the characters of `prefix`.
pub fn str_starts_with(s: &str, prefix: &str) -> (r: bool)
    ensures
        r == prefix@.is_prefix_of(s@),
{
    let s_len = s.unicode_len();
    let p_len = prefix.unicode_len();
    if p_len > s_len {
        return false;
    }
    let mut i: usize = 0;
    while i < p_len
        invariant
            s_len == s@.len(),
            p_len == prefix@.len(),
            p_len <= s_len,
            i <= p_len,
            forall|j: int| 0 <= j < i ==> s@[j] == prefix@[j],
        decreases p_len - i,
    {
        if s.get_char(i) != prefix.get_char(i) {
            proof {
                assert(s@.subrange(0, p_len as int)[i as int] != prefix@[i as int]);
            }
            return false;
        }
        i = i + 1;
    }
    proof {
        assert(s@.subrange(0, p_len as int) =~= prefix@);
    }
    true
}

/// Returns the index of the first occurrence of `c` at or after `from`, or
/// the string's length if `c` does not occur there.
pub fn find_char_from(s: &str, c: char, from: usize) -> (r: usize)
    requires
        from <= s@.len(),
    ensures
        from <= r <= s@.len(),
        forall|j: int| from <= j < r ==> s@[j] != c,
        r < s@.len() ==> s@[r as int] == c,
        s@.subrange(from as int, s@.len() as int).index_of_first(c) == if r < s@.len() {
            Some(r - from as int)
        } else {
            None::<int>
        },
{
    let len = s.unicode_len();
    let mut i: usize = from;
    while i < len
        invariant
            len == s@.len(),
            from <= i <= len,
            forall|j: int| from <= j < i ==> s@[j] != c,
        decreases len - i,
    {
        if s.get_char(i) == c {
            proof {
                let tail = s@.subrange(from as int, s@.len() as int);
                tail.index_of_first_ensures(c);
                assert(tail[i - from as int] == c);
                match tail.index_of_first(c) {
                    Some(k) => {
                        assert(tail[k] == c);
                        if k < i - from {
                            assert(s@[k + from] != c);
                            assert(false);
                        }
                        if k > i - from {
                            assert(false);
                        }
                    },
                    None => {
                        assert(tail.contains(tail[i - from as int]));
                        assert(false);
                    },
                }
            }
            return i;
        }
        i = i + 1;
    }
    proof {
        let tail = s@.subrange(from as int, s@.len() as int);
        tail.index_of_first_ensures(c);
        match tail.index_of_first(c) {
            Some(k) => {
                assert(s@[k + from] == c);
                assert(false);
            },
            None => {},
        }
    }
    i
}

} // verus!
