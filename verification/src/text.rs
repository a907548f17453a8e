//! String slices, cut and compared by their characters.
//!
//! A `&str` is stored as UTF-8, so a position that counts characters is not
//! an index into its bytes. The functions here bridge the two with the
//! theory of UTF-8 in `vstd::utf8`.

use vstd::prelude::*;
use vstd::string::StringSliceAdditionalSpecFns;
use vstd::utf8::{
    encode_utf8, encode_utf8_decode_utf8, encode_utf8_first_scalar, encode_utf8_valid_utf8,
    is_char_boundary, pop_first_scalar,
};

verus! {

/// The encoding of two texts joined is their encodings joined.
pub proof fn lemma_encode_joined(a: Seq<char>, b: Seq<char>)
    ensures
        encode_utf8(a + b) == encode_utf8(a) + encode_utf8(b),
    decreases a.len(),
{
    if a.len() == 0 {
        assert(a + b =~= b);
        assert(encode_utf8(a) + encode_utf8(b) =~= encode_utf8(b));
    } else {
        lemma_encode_joined(a.drop_first(), b);
        assert((a + b).drop_first() =~= a.drop_first() + b);
        assert(encode_utf8(a + b) =~= encode_utf8(a) + encode_utf8(b));
    }
}

/// Within the encoding of two texts joined, the place where the encoding of
/// the first ends is a character boundary.
pub proof fn lemma_joint_is_boundary(a: Seq<char>, b: Seq<char>)
    ensures
        is_char_boundary(encode_utf8(a + b), encode_utf8(a).len() as int),
    decreases a.len(),
{
    broadcast use encode_utf8_valid_utf8;

    if a.len() > 0 {
        let bytes = encode_utf8(a + b);
        encode_utf8_first_scalar(a + b);
        lemma_encode_joined(a, b);
        lemma_joint_is_boundary(a.drop_first(), b);
        assert((a + b).drop_first() =~= a.drop_first() + b);
        assert(pop_first_scalar(bytes) =~= encode_utf8(a.drop_first() + b));
    }
}

/// Two texts with the same encoding are the same text.
pub proof fn lemma_encode_injective(a: Seq<char>, b: Seq<char>)
    requires
        encode_utf8(a) == encode_utf8(b),
    ensures
        a == b,
{
    encode_utf8_decode_utf8(a);
    encode_utf8_decode_utf8(b);
}

/// Splits `s` behind its first `count` characters, in time proportional to
/// `count`.
pub fn split_chars<'a>(s: &'a str, count: usize) -> (parts: (&'a str, &'a str))
    requires
        count <= s@.len(),
    ensures
        parts.0@ == s@.subrange(0, count as int),
        parts.1@ == s@.subrange(count as int, s@.len() as int),
{
    let ghost front = s@.subrange(0, count as int);
    let ghost back = s@.subrange(count as int, s@.len() as int);
    let mid = s.substring_char(0, count).as_bytes().len();
    proof {
        assert(s@ =~= front + back);
        lemma_encode_joined(front, back);
        lemma_joint_is_boundary(front, back);
    }
    let parts = s.split_at(mid);
    proof {
        assert(parts.0.spec_bytes() =~= encode_utf8(front));
        assert(parts.1.spec_bytes() =~= encode_utf8(back));
        lemma_encode_injective(parts.0@, front);
        lemma_encode_injective(parts.1@, back);
    }
    parts
}

/// Whether `a` and `b` are the same text.
pub fn same_text(a: &str, b: &str) -> (same: bool)
    ensures
        same == (a@ == b@),
{
    let x = a.as_bytes();
    let y = b.as_bytes();
    let n = x.len();
    if y.len() != n {
        return false;
    }
    let mut i: usize = 0;
    while i < n
        invariant
            x@ == encode_utf8(a@),
            y@ == encode_utf8(b@),
            n == x@.len(),
            n == y@.len(),
            i <= n,
            forall|j: int| 0 <= j < i ==> x@[j] == y@[j],
        decreases n - i,
    {
        if x[i] != y[i] {
            return false;
        }
        i += 1;
    }
    proof {
        assert(x@ =~= y@);
        lemma_encode_injective(a@, b@);
    }
    true
}

} // verus!
