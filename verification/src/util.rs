//! Helpers shared by the DTLS versions.

use vstd::prelude::*;

use crate::error::{Error, ErrorKind};
use crate::types::ContentType;

verus! {

/// Number of bytes of `s` up to and including its last byte other than zero.
pub open spec fn unpadded_len(s: Seq<u8>) -> nat
    decreases s.len(),
{
    if s.len() == 0 {
        0
    } else if s.last() != 0 {
        s.len()
    } else {
        unpadded_len(s.drop_last())
    }
}

/// Content type and length of the content in an inner plaintext: the content, one
/// byte for its type, and zeros. `None` where there is no type byte or it is not a
/// known type.
pub open spec fn inner_content(s: Seq<u8>) -> Option<(ContentType, nat)> {
    let n = unpadded_len(s);
    if n == 0 {
        None
    } else {
        let t = ContentType::of_code(s[n - 1]);
        if t is Unknown {
            None
        } else {
            Some((t, (n - 1) as nat))
        }
    }
}

/// The unpadded length is within the text, the byte before it is not zero and all
/// bytes behind it are.
pub proof fn lemma_unpadded_len(s: Seq<u8>)
    ensures
        unpadded_len(s) <= s.len(),
        unpadded_len(s) > 0 ==> s[unpadded_len(s) - 1] != 0,
        forall|i: int| unpadded_len(s) <= i < s.len() ==> s[i] == 0,
    decreases s.len(),
{
    if s.len() > 0 && s.last() == 0 {
        lemma_unpadded_len(s.drop_last());
        assert forall|i: int| unpadded_len(s) <= i < s.len() implies s[i] == 0 by {
            if i < s.len() - 1 {
                assert(s[i] == s.drop_last()[i]);
            }
        }
    }
}

/// Zeros behind a content and its type change neither the type nor the length that
/// are recovered.
pub proof fn law_padding_is_ignored(content: Seq<u8>, t: ContentType, zeros: nat)
    requires
        t !is Unknown,
    ensures
        inner_content(content.push(t.code()) + Seq::new(zeros, |i: int| 0u8)) == Some(
            (t, content.len()),
        ),
    decreases zeros,
{
    let padding = Seq::new(zeros, |i: int| 0u8);
    let s = content.push(t.code()) + padding;
    if zeros == 0 {
        assert(s =~= content.push(t.code()));
        assert(s.last() == t.code());
    } else {
        let less = (zeros - 1) as nat;
        law_padding_is_ignored(content, t, less);
        assert(s.drop_last() =~= content.push(t.code()) + Seq::new(less, |i: int| 0u8));
        assert(s.last() == 0);
        lemma_unpadded_len(s.drop_last());
        assert(s[unpadded_len(s) - 1] == s.drop_last()[unpadded_len(s) - 1]);
    }
}

/// Reads the real content type and the length of the content out of a decrypted
/// inner plaintext.
pub fn recover_inner_content_type(inner: &[u8]) -> (r: Result<(ContentType, usize), Error>)
    ensures
        match inner_content(inner@) {
            Some((t, n)) => r matches Ok((rt, rn)) && rt == t && rn == n,
            None => r == Err::<(ContentType, usize), Error>(Error::ParseError(ErrorKind::Verify)),
        },
{
    let mut n: usize = inner.len();
    assert(inner@.take(n as int) =~= inner@);
    while n > 0 && inner[n - 1] == 0
        invariant
            n <= inner@.len(),
            unpadded_len(inner@.take(n as int)) == unpadded_len(inner@),
        decreases n,
    {
        assert(inner@.take(n as int).last() == 0);
        assert(inner@.take(n as int).drop_last() =~= inner@.take(n - 1));
        n = n - 1;
    }
    assert(n > 0 ==> inner@.take(n as int).last() == inner@[n - 1]);
    if n == 0 {
        return Err(Error::ParseError(ErrorKind::Verify));
    }
    match ContentType::from_u8(inner[n - 1]) {
        ContentType::Unknown(_) => Err(Error::ParseError(ErrorKind::Verify)),
        t => Ok((t, n - 1)),
    }
}

/// The type of an inner plaintext is its last byte other than zero, and the content is
/// all that stands before it. There is none exactly where all bytes are zero, or where
/// that byte is not the code of a content type.
pub proof fn law_inner_type_is_the_last_nonzero_byte(s: Seq<u8>, n: nat)
    requires
        n < s.len(),
        s[n as int] != 0,
        forall|i: int| n < i < s.len() ==> s[i] == 0,
    ensures
        inner_content(s) is Some <==> (s[n as int] == 20 || s[n as int] == 21 || s[n as int] == 22
            || s[n as int] == 23 || s[n as int] == 25 || s[n as int] == 26),
        inner_content(s) matches Some((t, len)) ==> len == n && t.code() == s[n as int],
{
    lemma_unpadded_len(s);
    let m = unpadded_len(s);
    assert(m == n + 1) by {
        if m <= n {
            assert(s[n as int] == 0);
        }
        if m > n + 1 {
            assert(s[m - 1] == 0);
        }
    }
}

/// A text of zeros has no inner content type.
pub proof fn law_zeros_have_no_inner_type(s: Seq<u8>)
    requires
        forall|i: int| 0 <= i < s.len() ==> s[i] == 0,
    ensures
        inner_content(s) is None,
{
    lemma_unpadded_len(s);
}

} // verus!
