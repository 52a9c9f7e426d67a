//! The close-on-exec bit of a descriptor's flag word.
use vstd::prelude::*;

verus! {

/// The close-on-exec bit of a flag word, as `fcntl(F_GETFD)` returns it on
/// Linux and on the BSDs.
pub const FD_CLOEXEC: i32 = 1;

/// True when the flag word `flags` has the close-on-exec bit set.
pub open spec fn has_cloexec(flags: i32) -> bool {
    flags & FD_CLOEXEC != 0
}

/// The bits of `flags` other than the close-on-exec bit.
pub open spec fn other_bits(flags: i32) -> i32 {
    flags & !FD_CLOEXEC
}

/// The flag word that a descriptor holding `flags` should hold once its
/// close-on-exec bit is `set`: the same word when the bit already agrees,
/// else the word with that one bit changed.
pub open spec fn marked_flags(flags: i32, set: bool) -> i32 {
    if has_cloexec(flags) == set {
        flags
    } else if set {
        flags | FD_CLOEXEC
    } else {
        flags & !FD_CLOEXEC
    }
}

/// The marked word has its close-on-exec bit as asked and every other bit of
/// the word it came from.
pub proof fn lemma_marked_flags(flags: i32, set: bool)
    ensures
        has_cloexec(marked_flags(flags, set)) == set,
        other_bits(marked_flags(flags, set)) == other_bits(flags),
{
    assert(((flags | 1i32) & 1i32 != 0) && ((flags | 1i32) & !1i32 == flags & !1i32))
        by (bit_vector);
    assert(((flags & !1i32) & 1i32 == 0) && ((flags & !1i32) & !1i32 == flags & !1i32))
        by (bit_vector);
}

/// Decides the write that brings a descriptor's close-on-exec bit to `set`,
/// given `flags`, the word the descriptor holds now.
///
/// Returns `None` when the bit already agrees, so that no write is made;
/// else the word to write, which differs from `flags` in that bit alone.
pub fn cloexec_update(flags: i32, set: bool) -> (r: Option<i32>)
    ensures
        r is None <==> has_cloexec(flags) == set,
        r matches Some(w) ==> w == marked_flags(flags, set) && has_cloexec(w) == set
            && other_bits(w) == other_bits(flags),
{
    proof {
        lemma_marked_flags(flags, set);
    }
    let is_set = flags & FD_CLOEXEC != 0;
    if set == is_set {
        None
    } else if set {
        Some(flags | FD_CLOEXEC)
    } else {
        Some(flags & !FD_CLOEXEC)
    }
}

} // verus!
