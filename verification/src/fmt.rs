//! A fixed-capacity byte sink for building small texts in memory.

use vstd::prelude::*;
use vstd::string::StringSliceAdditionalSpecFns;
use vstd::utf8::valid_utf8;

verus! {

/// Capacity of the backing buffer of a `ByteArrayWriter`.
pub const BYTE_BUFFER_SIZE: usize = 1024;

/// Relies on core::str::from_utf8: valid UTF-8 bytes come back unchanged
/// as text.
#[verifier::external_body]
fn utf8_str(bytes: &[u8]) -> (r: &str)
    requires
        valid_utf8(bytes@),
    ensures
        r.spec_bytes() == bytes@,
{
    core::str::from_utf8(bytes).unwrap()
}

/// A writer that appends text bytes into a fixed-capacity buffer; the
/// buffer never grows, only the count of written bytes does.
pub struct ByteArrayWriter {
    buf: Vec<u8>,
    index: usize,
}

impl View for ByteArrayWriter {
    type V = Seq<u8>;

    closed spec fn view(&self) -> Seq<u8> {
        self.buf@.take(self.index as int)
    }
}

impl ByteArrayWriter {
    /// The writer's invariant: a full backing buffer and a write index
    /// within it.
    pub closed spec fn wf(&self) -> bool {
        &&& self.buf@.len() == BYTE_BUFFER_SIZE
        &&& self.index <= BYTE_BUFFER_SIZE
    }

    /// A writer over the given backing buffer, starting empty.
    pub fn new(buf: Vec<u8>) -> (w: ByteArrayWriter)
        requires
            buf@.len() == BYTE_BUFFER_SIZE,
        ensures
            w.wf(),
            w@ == Seq::<u8>::empty(),
    {
        let w = ByteArrayWriter { buf, index: 0 };
        proof {
            assert(w@ =~= Seq::<u8>::empty());
        }
        w
    }

    /// The bytes written so far.
    pub fn bytes(&self) -> (r: &[u8])
        requires
            self.wf(),
        ensures
            r@ == self@,
    {
        let r = &self.buf[0..self.index];
        proof {
            assert(r@ =~= self@);
        }
        r
    }

    /// The bytes written so far, read back as text; they must form valid
    /// UTF-8.
    pub fn as_string(&self) -> (r: &str)
        requires
            self.wf(),
            valid_utf8(self@),
        ensures
            r.spec_bytes() == self@,
    {
        utf8_str(self.bytes())
    }

    /// Appends the bytes of a text, which must fit in the remaining space.
    pub fn write_str(&mut self, s: &str)
        requires
            old(self).wf(),
            old(self)@.len() + s.spec_bytes().len() <= BYTE_BUFFER_SIZE,
        ensures
            final(self).wf(),
            final(self)@ == old(self)@ + s.spec_bytes(),
    {
        let bytes = s.as_bytes();
        let n = bytes.len();
        let mut i: usize = 0;
        while i < n
            invariant
                old(self).wf(),
                bytes@ == s.spec_bytes(),
                n == bytes@.len(),
                old(self)@.len() + n <= BYTE_BUFFER_SIZE,
                0 <= i <= n,
                self.wf(),
                self.index == old(self).index + i,
                self@ == old(self)@ + bytes@.take(i as int),
            decreases n - i,
        {
            let b = bytes[i];
            let ghost prev = self@;
            self.buf.set(self.index, b);
            self.index = self.index + 1;
            i = i + 1;
            proof {
                assert(self@ =~= prev.push(b));
                assert(bytes@.take(i as int) =~= bytes@.take(i - 1).push(b));
                assert(old(self)@ + bytes@.take(i - 1).push(b) =~= (old(self)@ + bytes@.take(i - 1)).push(b));
                assert(self@ =~= old(self)@ + bytes@.take(i as int));
            }
        }
        proof {
            assert(old(self)@ + bytes@.take(n as int) =~= old(self)@ + s.spec_bytes());
        }
    }
}

} // verus!
