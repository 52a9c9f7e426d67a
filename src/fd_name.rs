//! Reading the name of an entry of the descriptor directory as a descriptor
//! number.
use vstd::prelude::*;

verus! {

/// Why an entry name is not a descriptor number.
#[derive(Debug, Clone, Copy, PartialEq, Eq, Structural)]
pub enum NameError {
    /// A byte of the name is not a decimal digit.
    NotDecimal,
    /// The digits stand for a number that does not fit a descriptor.
    TooLarge,
}

/// True when `b` is the ASCII code of a decimal digit.
pub open spec fn is_digit(b: u8) -> bool {
    0x30 <= b <= 0x39
}

/// The value of the decimal numeral `s`, most significant digit first.
/// The empty numeral has value zero.
pub open spec fn decimal_value(s: Seq<u8>) -> nat
    decreases s.len(),
{
    if s.len() == 0 {
        0
    } else {
        decimal_value(s.drop_last()) * 10 + (s.last() - 0x30) as nat
    }
}

/// True when every byte of `s` is a decimal digit.
pub open spec fn all_digits(s: Seq<u8>) -> bool {
    forall|i: int| 0 <= i < s.len() ==> is_digit(#[trigger] s[i])
}

/// What the entry name `s` reads as: its decimal value, or why it has none.
pub open spec fn fd_of_name(s: Seq<u8>) -> Result<i32, NameError> {
    if !all_digits(s) {
        Err(NameError::NotDecimal)
    } else if decimal_value(s) > i32::MAX {
        Err(NameError::TooLarge)
    } else {
        Ok(decimal_value(s) as i32)
    }
}

proof fn lemma_value_grows(s: Seq<u8>, k: int)
    requires
        0 <= k <= s.len(),
        all_digits(s),
    ensures
        decimal_value(s.subrange(0, k)) <= decimal_value(s),
    decreases s.len() - k,
{
    if k < s.len() {
        lemma_value_grows(s, k + 1);
        assert(s.subrange(0, k + 1).drop_last() =~= s.subrange(0, k));
    } else {
        assert(s.subrange(0, k) =~= s);
    }
}

/// Reads `name`, the bytes of a directory entry's name without its
/// terminating NUL, as a descriptor number.
///
/// Every byte must be a decimal digit; the empty name reads as zero.
pub fn parse_fd_name(name: &[u8]) -> (r: Result<i32, NameError>)
    ensures
        r == fd_of_name(name@),
{
    let mut i: usize = 0;
    while i < name.len()
        invariant
            0 <= i <= name.len(),
            forall|j: int| 0 <= j < i ==> is_digit(#[trigger] name@[j]),
        decreases name.len() - i,
    {
        if !(name[i] >= 0x30 && name[i] <= 0x39) {
            return Err(NameError::NotDecimal);
        }
        i = i + 1;
    }
    let mut num: i32 = 0;
    let mut k: usize = 0;
    while k < name.len()
        invariant
            0 <= k <= name.len(),
            all_digits(name@),
            0 <= num,
            num as nat == decimal_value(name@.subrange(0, k as int)),
        decreases name.len() - k,
    {
        assert(name@.subrange(0, k + 1).drop_last() =~= name@.subrange(0, k as int));
        let d: i32 = (name[k] - 0x30) as i32;
        assert(0 <= d <= 9);
        if num > (i32::MAX - d) / 10 {
            proof {
                assert(num * 10 + d > i32::MAX) by (nonlinear_arith)
                    requires
                        num > (i32::MAX - d) / 10,
                        0 <= d <= 9,
                ;
                lemma_value_grows(name@, k + 1);
            }
            return Err(NameError::TooLarge);
        }
        assert(0 <= num * 10 + d <= i32::MAX) by (nonlinear_arith)
            requires
                0 <= num <= (i32::MAX - d) / 10,
                0 <= d <= 9,
        ;
        num = num * 10 + d;
        k = k + 1;
    }
    assert(name@.subrange(0, name.len() as int) =~= name@);
    Ok(num)
}

} // verus!
