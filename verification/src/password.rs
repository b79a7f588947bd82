//! Fixed-capacity byte strings and the entries built from them.

use vstd::prelude::*;

verus! {

/// Length in bytes of an entry's name and of its password.
pub const FIELD_LEN: usize = 32;

/// The first `n` bytes of `src`, followed by zeros up to length `n`.
pub open spec fn zero_padded(src: Seq<u8>, n: nat) -> Seq<u8> {
    Seq::new(n, |i: int| if i < src.len() { src[i] } else { 0u8 })
}

/// `n` is the number of bytes of `s` that come before its first zero byte,
/// or the length of `s` where it holds no zero byte.
pub open spec fn is_text_len(s: Seq<u8>, n: int) -> bool {
    &&& 0 <= n <= s.len()
    &&& forall|j: int| 0 <= j < n ==> s[j] != 0
    &&& n < s.len() ==> s[n] == 0
}

/// A byte string of capacity `N`: the text, then zeros up to `N` bytes.
/// Two strings are equal when all `N` bytes are.
#[derive(Clone, Copy, Debug, PartialEq, Eq)]
pub struct ArrayString<const N: usize> {
    pub bytes: [u8; N],
}

impl<const N: usize> View for ArrayString<N> {
    type V = Seq<u8>;

    open spec fn view(&self) -> Seq<u8> {
        self.bytes@
    }
}

impl<const N: usize> ArrayString<N> {
    /// The string whose `N` bytes are `bytes`.
    pub open spec fn of(bytes: Seq<u8>) -> Self {
        choose|s: Self| s@ == bytes
    }

    /// Every `N` bytes are the bytes of a string, and [`Self::of`] gives it.
    pub proof fn lemma_of_bytes(bytes: Seq<u8>)
        requires
            bytes.len() == N,
        ensures
            Self::of(bytes)@ == bytes,
    {
        lemma_array_agrees::<N>(bytes, N as nat);
        let witness = ArrayString { bytes: array_agreeing::<N>(bytes, N as nat) };
        assert(witness@ =~= bytes);
    }

    /// A string is the string of its bytes.
    pub proof fn lemma_of_view(self)
        ensures
            Self::of(self@) == self,
    {
        lemma_array_string_ext(Self::of(self@), self);
    }

    /// The empty string: `N` zero bytes.
    pub fn new() -> (s: Self)
        ensures
            s@ == zero_padded(Seq::<u8>::empty(), N as nat),
    {
        let s = ArrayString { bytes: [0u8; N] };
        assert(s@ =~= zero_padded(Seq::<u8>::empty(), N as nat));
        s
    }

    /// Overwrites the string with `bytes`, cut to `N` bytes and padded with zeros.
    pub fn set_from_bytes(&mut self, bytes: &[u8])
        ensures
            final(self)@ == zero_padded(bytes@, N as nat),
    {
        let mut i: usize = 0;
        while i < N
            invariant
                i <= N,
                self.bytes@.len() == N,
                forall|j: int| 0 <= j < i ==> self.bytes@[j] == zero_padded(bytes@, N as nat)[j],
            decreases N - i,
        {
            if i < bytes.len() {
                self.bytes[i] = bytes[i];
            } else {
                self.bytes[i] = 0;
            }
            i += 1;
        }
        assert(self@ =~= zero_padded(bytes@, N as nat));
    }

    /// The string made of `bytes`, cut to `N` bytes and padded with zeros.
    pub fn from_bytes(bytes: &[u8]) -> (s: Self)
        ensures
            s@ == zero_padded(bytes@, N as nat),
    {
        let mut s = ArrayString { bytes: [0u8; N] };
        s.set_from_bytes(bytes);
        s
    }

    /// All `N` bytes, padding included.
    pub fn bytes(&self) -> (b: &[u8; N])
        ensures
            b@ == self@,
    {
        &self.bytes
    }

    /// The length of the text: the number of bytes before the padding.
    pub fn len(&self) -> (n: usize)
        ensures
            is_text_len(self@, n as int),
    {
        let mut i: usize = 0;
        while i < N
            invariant
                i <= N,
                forall|j: int| 0 <= j < i ==> self@[j] != 0,
            decreases N - i,
        {
            if self.bytes[i] == 0 {
                return i;
            }
            i += 1;
        }
        i
    }

    /// Byte-for-byte comparison over all `N` bytes.
    pub fn same_bytes(&self, other: &Self) -> (same: bool)
        ensures
            same == (self@ == other@),
    {
        let mut i: usize = 0;
        while i < N
            invariant
                i <= N,
                forall|j: int| 0 <= j < i ==> self@[j] == other@[j],
            decreases N - i,
        {
            if self.bytes[i] != other.bytes[i] {
                return false;
            }
            i += 1;
        }
        assert(self@ =~= other@);
        true
    }
}

/// An array whose first `k` bytes are those of `bytes`.
spec fn array_agreeing<const N: usize>(bytes: Seq<u8>, k: nat) -> [u8; N]
    decreases k,
{
    if k == 0 {
        vstd::array::spec_array_fill_for_copy_type::<u8, N>(0u8)
    } else {
        vstd::array::spec_array_update(
            array_agreeing::<N>(bytes, (k - 1) as nat),
            k - 1,
            bytes[k - 1],
        )
    }
}

/// [`array_agreeing`] agrees with `bytes` on the first `k` places.
proof fn lemma_array_agrees<const N: usize>(bytes: Seq<u8>, k: nat)
    requires
        k <= N,
    ensures
        array_agreeing::<N>(bytes, k)@.len() == N,
        forall|i: int| 0 <= i < k ==> array_agreeing::<N>(bytes, k)@[i] == bytes[i],
    decreases k,
{
    if k > 0 {
        lemma_array_agrees::<N>(bytes, (k - 1) as nat);
    }
}

/// One stored entry: a name and the password kept under it.
#[derive(Clone, Copy, Debug, PartialEq, Eq)]
pub struct PasswordItem {
    pub name: ArrayString<32>,
    pub pass: ArrayString<32>,
}

impl PasswordItem {
    /// The entry whose name and password are both empty.
    pub fn new() -> (item: Self)
        ensures
            item.name@ == zero_padded(Seq::<u8>::empty(), 32),
            item.pass@ == zero_padded(Seq::<u8>::empty(), 32),
    {
        PasswordItem { name: ArrayString::new(), pass: ArrayString::new() }
    }
}

/// Two strings with the same bytes are the same string.
pub proof fn lemma_array_string_ext<const N: usize>(a: ArrayString<N>, b: ArrayString<N>)
    requires
        a@ == b@,
    ensures
        a == b,
{
    assert(a.bytes@ =~= b.bytes@);
    assert(a.bytes =~= b.bytes);
}

} // verus!
