//! A fixed-capacity, allocation-free byte buffer that behaves as an
//! appendable string builder.
//!
//! Capacity is fixed at construction by the const generic `N`; storage lives
//! inline and is never reallocated. Every write clamps silently at capacity:
//! bytes that do not fit are dropped, and no operation reports an error.

use vstd::math::min;
use vstd::prelude::*;
use vstd::string::StringSliceAdditionalSpecFns;
use vstd::utf8::valid_utf8;

verus! {

/// `core::fmt::Error`, the error half of the formatted-write result type.
/// The buffer never produces it: formatted writes always succeed.
#[verifier::external_type_specification]
#[verifier::external_body]
pub struct ExFmtError(core::fmt::Error);

/// Relies on core::str::from_utf8: it returns `Ok` exactly on valid UTF-8
/// input, and the returned slice is backed by exactly the input bytes.
#[verifier::external_body]
fn utf8_to_str(bytes: &[u8]) -> (r: Option<&str>)
    ensures
        r is Some <==> valid_utf8(bytes@),
        r matches Some(s) ==> s.spec_bytes() == bytes@,
{
    core::str::from_utf8(bytes).ok()
}

broadcast use vstd::array::group_array_axioms;

/// The prefix of `bytes` that still fits in a buffer of capacity `cap`
/// already holding `have` live bytes: the first `min(bytes.len(), cap - have)`
/// of them.
pub open spec fn fitting_prefix(bytes: Seq<u8>, have: int, cap: int) -> Seq<u8> {
    bytes.take(min(bytes.len() as int, cap - have))
}

/// `s` with every trailing ASCII space byte (0x20) removed. Only spaces are
/// trimmed, and only from the end.
pub open spec fn space_trimmed(s: Seq<u8>) -> Seq<u8>
    decreases s.len(),
{
    if s.len() > 0 && s.last() == 0x20u8 {
        space_trimmed(s.drop_last())
    } else {
        s
    }
}

/// A byte buffer with inline storage for `N` bytes and a write cursor.
///
/// The view of a buffer is the sequence of live bytes, `storage[0..length)`.
/// Bytes past the cursor are stale and never observable through the API.
pub struct ByteString<const N: usize> {
    buf: [u8; N],
    pos: usize,
}

impl<const N: usize> View for ByteString<N> {
    type V = Seq<u8>;

    closed spec fn view(&self) -> Seq<u8> {
        self.buf@.take(self.pos as int)
    }
}

impl<const N: usize> ByteString<N> {
    /// The write cursor never passes the fixed capacity. Holds of every
    /// buffer the API can produce.
    #[verifier::type_invariant]
    pub closed spec fn wf(&self) -> bool {
        self.pos <= N
    }

    /// Create an empty buffer of capacity `N`.
    pub fn new() -> (r: Self)
        ensures
            r@ == Seq::<u8>::empty(),
    {
        ByteString { buf: [0u8; N], pos: 0 }
    }

    /// The number of live bytes.
    pub fn len(&self) -> (r: usize)
        ensures
            r == self@.len(),
    {
        proof {
            use_type_invariant(self);
        }
        self.pos
    }

    /// The fixed total capacity.
    pub fn size(&self) -> (r: usize)
        ensures
            r == N,
    {
        N
    }

    /// Whether the buffer holds no live bytes.
    pub fn is_empty(&self) -> (r: bool)
        ensures
            r == (self@.len() == 0),
    {
        proof {
            use_type_invariant(self);
        }
        self.pos == 0
    }

    /// Drop all live bytes; the buffer becomes empty.
    pub fn clear(&mut self)
        ensures
            final(self)@ == Seq::<u8>::empty(),
    {
        self.pos = 0;
    }

    /// Append one byte. With room it lands at the end; a full buffer drops
    /// it silently, leaving every live byte as it was.
    pub fn append(&mut self, b: u8)
        ensures
            old(self)@.len() < N ==> final(self)@ == old(self)@.push(b),
            old(self)@.len() >= N ==> final(self)@ == old(self)@,
    {
        proof {
            use_type_invariant(&*self);
        }
        if self.pos < N {
            let ghost prev = self@;
            self.buf[self.pos] = b;
            self.pos = self.pos + 1;
            proof {
                assert(self@ =~= prev.push(b));
            }
        }
    }

    /// Logically remove the most recently appended byte; a no-op on an
    /// empty buffer.
    pub fn del_last(&mut self)
        ensures
            old(self)@.len() > 0 ==> final(self)@ == old(self)@.drop_last(),
            old(self)@.len() == 0 ==> final(self)@ == old(self)@,
    {
        proof {
            use_type_invariant(&*self);
        }
        if self.pos > 0 {
            let ghost prev = self@;
            self.pos = self.pos - 1;
            proof {
                assert(self@ =~= prev.drop_last());
            }
        }
    }

    /// Remove trailing ASCII space bytes (0x20), stopping at the first
    /// non-space byte from the end. Interior spaces and other whitespace
    /// bytes are kept.
    pub fn trim_end(&mut self)
        ensures
            final(self)@ == space_trimmed(old(self)@),
    {
        proof {
            use_type_invariant(&*self);
        }
        let ghost orig = self@;
        while self.pos > 0
            invariant
                self.wf(),
                space_trimmed(self@) == space_trimmed(orig),
            ensures
                self.wf(),
                space_trimmed(self@) == space_trimmed(orig),
                self.pos == 0 || self@.last() != 0x20u8,
            decreases self.pos,
        {
            if self.buf[self.pos - 1] != 0x20u8 {
                break;
            }
            let ghost prev = self@;
            self.pos = self.pos - 1;
            proof {
                assert(prev.last() == 0x20u8);
                assert(self@ =~= prev.drop_last());
            }
        }
        proof {
            if self.pos == 0 {
                assert(self@ =~= Seq::<u8>::empty());
            }
            assert(space_trimmed(self@) == self@);
        }
    }

    /// A read-only view over exactly the live bytes.
    pub fn slice(&self) -> (r: &[u8])
        ensures
            r@ == self@,
    {
        proof {
            use_type_invariant(self);
        }
        vstd::slice::slice_subrange(self.buf.as_slice(), 0, self.pos)
    }

    /// The byte at `pos`, widened to a character, for `pos` within the live
    /// bytes; `None` past them. A single-byte lookup: multi-byte encodings
    /// are not decoded.
    pub fn char_at(&self, pos: usize) -> (r: Option<char>)
        ensures
            pos < self@.len() ==> r == Some(self@[pos as int] as char),
            pos >= self@.len() ==> r == None::<char>,
    {
        proof {
            use_type_invariant(self);
        }
        if pos < self.pos {
            Some(self.buf[pos] as char)
        } else {
            None
        }
    }

    /// Append the encoded bytes of `text` in order. Appending stops silently
    /// once the buffer is full: exactly the prefix that fits is kept.
    pub fn append_str(&mut self, text: &str)
        ensures
            final(self)@ == old(self)@ + fitting_prefix(
                text.spec_bytes(),
                old(self)@.len() as int,
                N as int,
            ),
    {
        proof {
            use_type_invariant(&*self);
        }
        let ghost orig = self@;
        let bytes = text.as_bytes();
        let ghost m = min(bytes@.len() as int, N - orig.len());
        let n = bytes.len();
        let mut i: usize = 0;
        while i < n
            invariant
                i <= n,
                n == bytes@.len(),
                bytes@ == text.spec_bytes(),
                m == min(bytes@.len() as int, N - orig.len()),
                0 <= m,
                orig.len() + m <= N,
                self@ == orig + bytes@.take(min(i as int, m)),
            decreases n - i,
        {
            let ghost prev = self@;
            self.append(bytes[i]);
            proof {
                if i < m {
                    assert(prev.len() == orig.len() + i);
                    assert(self@ =~= orig + bytes@.take(min(i + 1, m)));
                } else {
                    assert(m == N - orig.len());
                    assert(prev.len() == orig.len() + m == N);
                    assert(self@ =~= orig + bytes@.take(min(i + 1, m)));
                }
            }
            i = i + 1;
        }
    }

    /// Reset the buffer, then fill it with the encoded bytes of `text`:
    /// exactly the first `min(byte length of text, N)` bytes, in order.
    pub fn from_str(&mut self, text: &str)
        ensures
            final(self)@ == text.spec_bytes().take(
                min(text.spec_bytes().len() as int, N as int),
            ),
    {
        self.clear();
        self.append_str(text);
        proof {
            assert(final(self)@ =~= text.spec_bytes().take(
                min(text.spec_bytes().len() as int, N as int),
            ));
        }
    }

    /// Whether `b` occurs among the live bytes.
    pub fn has_byte(&self, b: u8) -> (r: bool)
        ensures
            r == self@.contains(b),
    {
        proof {
            use_type_invariant(self);
        }
        let mut i: usize = 0;
        while i < self.pos
            invariant
                self.wf(),
                i <= self.pos,
                forall|k: int| 0 <= k < i ==> self@[k] != b,
            decreases self.pos - i,
        {
            if self.buf[i] == b {
                assert(self@[i as int] == b);
                return true;
            }
            i = i + 1;
        }
        false
    }
    /// Reinterpret the live bytes as a borrowed text value, without copying
    /// or re-validating. The caller owes the encoding: only call this when
    /// every byte appended kept the contents valid UTF-8 (for instance,
    /// all-ASCII input). `try_str` is the checked counterpart.
    pub fn str(&self) -> (r: &str)
        requires
            valid_utf8(self@),
        ensures
            r.spec_bytes() == self@,
    {
        proof {
            use_type_invariant(self);
        }
        match utf8_to_str(self.slice()) {
            Some(s) => s,
            None => vstd::pervasive::unreached(),
        }
    }

    /// Checked counterpart of `str`: validates the live bytes and reports
    /// failure instead of assuming a well-formed encoding.
    pub fn try_str(&self) -> (r: Option<&str>)
        ensures
            r is Some <==> valid_utf8(self@),
            r matches Some(s) ==> s.spec_bytes() == self@,
    {
        proof {
            use_type_invariant(self);
        }
        utf8_to_str(self.slice())
    }

    /// Accept one fragment of formatted output. The fragment's bytes are
    /// appended under the same clamp-at-capacity policy as `append_str`,
    /// and the call reports success even when bytes were dropped.
    pub fn write_str(&mut self, text: &str) -> (r: Result<(), core::fmt::Error>)
        ensures
            final(self)@ == old(self)@ + fitting_prefix(
                text.spec_bytes(),
                old(self)@.len() as int,
                N as int,
            ),
            r is Ok,
    {
        self.append_str(text);
        Ok(())
    }
}

/// Law: however a buffer was built, its live length never exceeds its
/// fixed capacity `N`.
pub proof fn lemma_len_le_capacity<const N: usize>(b: &ByteString<N>)
    requires
        b.wf(),
    ensures
        b@.len() <= N,
{
}

/// Law: appending `bytes` to live contents `s` in a buffer of capacity
/// `cap` never drives the length past `cap` and never changes a byte that
/// was already live.
pub proof fn lemma_append_clamps(s: Seq<u8>, bytes: Seq<u8>, cap: int)
    requires
        0 <= s.len() <= cap,
    ensures
        (s + fitting_prefix(bytes, s.len() as int, cap)).len() <= cap,
        forall|i: int|
            0 <= i < s.len() ==> (s + fitting_prefix(bytes, s.len() as int, cap))[i] == s[i],
{
}

/// The live bytes after `k` successive `del_last` calls on a buffer whose
/// live bytes were `s`: each call drops the last byte while one remains and
/// is a no-op on an empty buffer.
pub open spec fn dropped_last(s: Seq<u8>, k: nat) -> Seq<u8>
    decreases k,
{
    if k == 0 {
        s
    } else if s.len() == 0 {
        s
    } else {
        dropped_last(s.drop_last(), (k - 1) as nat)
    }
}

/// Law: `del_last` repeated `len()` times drains the buffer to empty, and
/// one further call is a no-op that keeps it empty.
pub proof fn lemma_del_last_drains(s: Seq<u8>)
    ensures
        dropped_last(s, s.len()) == Seq::<u8>::empty(),
        dropped_last(s, (s.len() + 1) as nat) == Seq::<u8>::empty(),
    decreases s.len(),
{
    if s.len() == 0 {
        assert(s =~= Seq::<u8>::empty());
    } else {
        lemma_del_last_drains(s.drop_last());
    }
}

/// Law: trimming removes exactly the trailing spaces. Written with the end
/// of the contents split off: for contents `t + [0x20; k]`, trimming gives
/// `space_trimmed(t)`; when `t` ends in a non-space byte that is `t` itself;
/// and all-space contents trim to empty.
pub proof fn lemma_space_trimmed_splits(t: Seq<u8>, k: nat)
    ensures
        space_trimmed(t + Seq::<u8>::new(k, |i: int| 0x20u8)) == space_trimmed(t),
        t.len() > 0 && t.last() != 0x20u8 ==> space_trimmed(t) == t,
        (forall|i: int| 0 <= i < t.len() ==> t[i] == 0x20u8) ==> space_trimmed(t)
            == Seq::<u8>::empty(),
    decreases t.len() + k,
{
    let spaces = Seq::<u8>::new(k, |i: int| 0x20u8);
    if k == 0 {
        assert(t + spaces =~= t);
    } else {
        let shorter = Seq::<u8>::new((k - 1) as nat, |i: int| 0x20u8);
        assert((t + spaces).last() == 0x20u8);
        assert((t + spaces).drop_last() =~= t + shorter);
        lemma_space_trimmed_splits(t, (k - 1) as nat);
    }
    if forall|i: int| 0 <= i < t.len() ==> t[i] == 0x20u8 {
        if t.len() == 0 {
            assert(t =~= Seq::<u8>::empty());
        } else {
            lemma_space_trimmed_splits(t.drop_last(), 0);
            assert(space_trimmed(t) == space_trimmed(t.drop_last()));
        }
    }
}

} // verus!
