//! Byte buffers.

use vstd::prelude::*;

verus! {

/// Growable byte buffer that owns one record or one message.
pub type Buf = Vec<u8>;

/// A buffer that is shortened in place, as AEAD decryption does: the text is
/// what is still in use, the tail are the bytes that were cut off behind it.
#[derive(Debug)]
pub struct TmpBuf {
    text: Vec<u8>,
    tail: Vec<u8>,
}

impl TmpBuf {
    pub closed spec fn text(&self) -> Seq<u8> {
        self.text@
    }

    pub closed spec fn tail(&self) -> Seq<u8> {
        self.tail@
    }

    pub fn new(bytes: Vec<u8>) -> (b: TmpBuf)
        ensures
            b.text() == bytes@,
            b.tail() == Seq::<u8>::empty(),
    {
        TmpBuf { text: bytes, tail: Vec::new() }
    }

    pub fn len(&self) -> (n: usize)
        ensures
            n == self.text().len(),
    {
        self.text.len()
    }

    pub fn is_empty(&self) -> (b: bool)
        ensures
            b == (self.text().len() == 0),
    {
        self.text.len() == 0
    }

    pub fn as_slice(&self) -> (s: &[u8])
        ensures
            s@ == self.text(),
    {
        self.text.as_slice()
    }

    pub fn as_mut(&mut self) -> (s: &mut [u8])
        ensures
            s@ == old(self).text(),
            final(self).text() == final(s)@,
            final(self).tail() == old(self).tail(),
    {
        self.text.as_mut_slice()
    }

    /// Cuts the text to its first `len` bytes; no effect where it is shorter.
    pub fn truncate(&mut self, len: usize)
        ensures
            len <= old(self).text().len() ==> final(self).text() == old(self).text().take(
                len as int,
            ) && final(self).tail() == old(self).text().skip(len as int) + old(self).tail(),
            len > old(self).text().len() ==> *final(self) == *old(self),
            final(self).text() + final(self).tail() == old(self).text() + old(self).tail(),
    {
        if len <= self.text.len() {
            let mut cut = self.text.split_off(len);
            cut.append(&mut self.tail);
            self.tail = cut;
        }
        assert(self.text@ + self.tail@ =~= old(self).text@ + old(self).tail@);
    }

    /// The text followed by the bytes that were cut off.
    pub fn into_backing(self) -> (b: Vec<u8>)
        ensures
            b@ == self.text() + self.tail(),
    {
        let mut b = self.text;
        let mut tail = self.tail;
        b.append(&mut tail);
        b
    }
}

} // verus!
