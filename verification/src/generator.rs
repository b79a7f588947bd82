//! The password generator: letters and digits picked by draws that the
//! device's random source made.

use vstd::prelude::*;

verus! {

/// The number of characters a password is picked from.
pub const ALPHABET_LEN: u32 = 62;

/// The length of the password that the device generates where a command
/// brings none.
pub const GENERATED_LEN: usize = 16;

/// The character at `index` of the alphabet: the lower-case letters, then
/// the upper-case letters, then the digits.
pub open spec fn pass_char(index: int) -> u8 {
    if index < 26 {
        (97 + index) as u8
    } else if index < 52 {
        (65 + (index - 26)) as u8
    } else {
        (48 + (index - 52)) as u8
    }
}

/// `c` is a lower-case letter, an upper-case letter or a digit.
pub open spec fn is_pass_char(c: u8) -> bool {
    (97 <= c <= 122) || (65 <= c <= 90) || (48 <= c <= 57)
}

/// The characters that the draws pick, one for each draw.
pub open spec fn picked(draws: Seq<u32>) -> Seq<u8> {
    Seq::new(draws.len(), |i: int| pass_char(draws[i] as int))
}

/// Every index below the alphabet's length picks a letter or a digit, and
/// different indices pick different characters.
pub proof fn lemma_pass_char(i: int, j: int)
    requires
        0 <= i < 62,
        0 <= j < 62,
    ensures
        is_pass_char(pass_char(i)),
        i != j ==> pass_char(i) != pass_char(j),
{
}

/// Sixteen draws, each an index into the alphabet: what the password that
/// the device generates is picked by.
#[derive(Clone, Copy, Debug)]
pub struct Draws {
    picks: [u32; 16],
}

impl View for Draws {
    type V = Seq<u32>;

    closed spec fn view(&self) -> Seq<u32> {
        self.picks@
    }
}

impl Draws {
    #[verifier::type_invariant]
    spec fn in_alphabet(&self) -> bool {
        forall|i: int| 0 <= i < 16 ==> self.picks@[i] < 62
    }

    /// Takes sixteen draws, if each of them is below [`ALPHABET_LEN`].
    pub fn new(picks: [u32; 16]) -> (draws: Option<Self>)
        ensures
            draws is Some <==> forall|i: int| 0 <= i < 16 ==> picks@[i] < 62,
            draws matches Some(d) ==> d@ == picks@,
    {
        let mut i: usize = 0;
        while i < 16
            invariant
                i <= 16,
                forall|j: int| 0 <= j < i ==> picks@[j] < 62,
            decreases 16 - i,
        {
            if picks[i] >= ALPHABET_LEN {
                return None;
            }
            i += 1;
        }
        Some(Draws { picks })
    }

    /// The sixteen draws, first to last.
    pub fn as_slice(&self) -> (picks: &[u32])
        ensures
            picks@ == self@,
            picks@.len() == 16,
            forall|i: int| 0 <= i < 16 ==> picks@[i] < 62,
    {
        proof {
            use_type_invariant(self);
        }
        self.picks.as_slice()
    }

    /// The draw at `index`.
    pub fn get(&self, index: usize) -> (pick: u32)
        requires
            index < 16,
        ensures
            pick == self@[index as int],
            pick < 62,
    {
        proof {
            use_type_invariant(self);
        }
        self.picks[index]
    }
}

/// The character that `pick` selects from the alphabet.
pub fn alphabet_char(pick: u32) -> (c: u8)
    requires
        pick < 62,
    ensures
        c == pass_char(pick as int),
        is_pass_char(c),
{
    if pick < 26 {
        97 + pick as u8
    } else if pick < 52 {
        65 + (pick - 26) as u8
    } else {
        48 + (pick - 52) as u8
    }
}

/// The number of characters that [`generate_random_password`] writes: `size`
/// of them, or as many as `dest` has room for.
pub open spec fn written(size: usize, room: nat) -> int {
    if size <= room {
        size as int
    } else {
        room as int
    }
}

/// Writes a password of `size` characters to the front of `dest`: character
/// `i` is the one that draw `i` picks from the alphabet. No terminating zero
/// is written, and the rest of `dest` stays as it was. Where `dest` is
/// shorter than `size`, the password ends with `dest`.
///
/// One draw is used for each character written, so there must be that many,
/// each below [`ALPHABET_LEN`]; draws beyond them are not looked at.
pub fn generate_random_password(dest: &mut [u8], size: usize, draws: &[u32])
    requires
        written(size, old(dest)@.len()) <= draws@.len(),
        forall|i: int| 0 <= i < written(size, old(dest)@.len()) ==> draws@[i] < 62,
    ensures
        final(dest)@.len() == old(dest)@.len(),
        final(dest)@.subrange(0, written(size, old(dest)@.len())) == picked(
            draws@.subrange(0, written(size, old(dest)@.len())),
        ),
        final(dest)@.subrange(written(size, old(dest)@.len()), old(dest)@.len() as int) == old(
            dest,
        )@.subrange(written(size, old(dest)@.len()), old(dest)@.len() as int),
        forall|i: int|
            0 <= i < written(size, old(dest)@.len()) ==> is_pass_char(#[trigger] final(dest)@[i]),
{
    let ghost before = dest@;
    let count = if size <= dest.len() {
        size
    } else {
        dest.len()
    };
    let mut i: usize = 0;
    while i < count
        invariant
            i <= count <= draws@.len(),
            count <= dest@.len(),
            dest@.len() == before.len(),
            forall|j: int| 0 <= j < count ==> draws@[j] < 62,
            forall|j: int| 0 <= j < i ==> dest@[j] == pass_char(draws@[j] as int),
            forall|j: int| 0 <= j < i ==> is_pass_char(#[trigger] dest@[j]),
            forall|j: int| i <= j < dest@.len() ==> dest@[j] == before[j],
        decreases count - i,
    {
        dest[i] = alphabet_char(draws[i]);
        i += 1;
    }
    assert(dest@.subrange(0, count as int) =~= picked(draws@.subrange(0, count as int)));
    assert(dest@.subrange(count as int, before.len() as int) =~= before.subrange(
        count as int,
        before.len() as int,
    ));
}

} // verus!
