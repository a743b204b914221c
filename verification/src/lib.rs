//! Decoding of hexadecimal text into bytes.
//!
//! The input is a buffer of ASCII bytes holding hex digits, optionally
//! interspersed with separator bytes (space, double quote, underscore,
//! vertical bar, hyphen) that decoding ignores.  Each pair of consecutive
//! significant digits, in left-to-right order, yields one output byte,
//! high nibble first.  A separator may stand anywhere, even between the
//! two digits of a single byte.
//!
//! Decoding is a single entry point, [`convert`], which validates the
//! input fully before producing a value: an odd count of significant
//! digits is [`HexError::OddDigitCount`], and a significant byte outside
//! `0-9A-Fa-f` is [`HexError::InvalidDigit`] with its position.

use vstd::prelude::*;

verus! {

/// ASCII codes of the five delimiter bytes.
pub const SPACE: u8 = 32;
pub const QUOTE: u8 = 34;
pub const UNDERSCORE: u8 = 95;
pub const PIPE: u8 = 124;
pub const HYPHEN: u8 = 45;

/// ASCII codes bounding the three hex digit ranges.
pub const DIGIT_0: u8 = 48;
pub const DIGIT_9: u8 = 57;
pub const UPPER_A: u8 = 65;
pub const UPPER_F: u8 = 70;
pub const LOWER_A: u8 = 97;
pub const LOWER_F: u8 = 102;

/// A delimiter is one of the five fixed separator bytes that decoding
/// ignores: space, double quote, underscore, vertical bar, hyphen.
pub open spec fn spec_is_delimiter(c: u8) -> bool {
    c == SPACE || c == QUOTE || c == UNDERSCORE || c == PIPE || c == HYPHEN
}

/// A significant byte must be an ASCII hex digit: `0-9`, `A-F` or `a-f`.
pub open spec fn spec_is_hex_digit(c: u8) -> bool {
    (DIGIT_0 <= c && c <= DIGIT_9) || (UPPER_A <= c && c <= UPPER_F) || (LOWER_A <= c && c <= LOWER_F)
}

/// The 4-bit value a hex digit stands for: `0-9` map to 0-9, and both
/// `A-F` and `a-f` map to 10-15.  Bytes that are no hex digit map to 0;
/// [`spec_is_hex_digit`] guards every place this matters.
pub open spec fn spec_digit_value(c: u8) -> u8 {
    if DIGIT_0 <= c && c <= DIGIT_9 {
        (c - DIGIT_0) as u8
    } else if UPPER_A <= c && c <= UPPER_F {
        (c - UPPER_A + 10) as u8
    } else if LOWER_A <= c && c <= LOWER_F {
        (c - LOWER_A + 10) as u8
    } else {
        0
    }
}

/// Decides whether a byte is one of the ignorable separator bytes.
/// Total over all 256 byte values, deterministic, and free of failure.
pub fn is_valid_delimiter(c: u8) -> (r: bool)
    ensures
        r == spec_is_delimiter(c),
{
    c == SPACE || c == QUOTE || c == UNDERSCORE || c == PIPE || c == HYPHEN
}

/// Maps one ASCII byte to its 4-bit numeric value, or `None` when the
/// byte is no hex digit.
pub fn to_ordinal(input: u8) -> (r: Option<u8>)
    ensures
        r is Some <==> spec_is_hex_digit(input),
        r matches Some(v) ==> v == spec_digit_value(input) && v < 16,
{
    if DIGIT_0 <= input && input <= DIGIT_9 {
        Some(input - DIGIT_0)
    } else if UPPER_A <= input && input <= UPPER_F {
        Some(input - UPPER_A + 10)
    } else if LOWER_A <= input && input <= LOWER_F {
        Some(input - LOWER_A + 10)
    } else {
        None
    }
}

/// The significant digits of an input: its bytes with every delimiter
/// removed, in their original left-to-right order.
pub open spec fn significant_digits(s: Seq<u8>) -> Seq<u8>
    decreases s.len(),
{
    if s.len() == 0 {
        Seq::empty()
    } else if spec_is_delimiter(s.last()) {
        significant_digits(s.drop_last())
    } else {
        significant_digits(s.drop_last()).push(s.last())
    }
}

/// How many bytes of an input are delimiters.
pub open spec fn spec_count_skipped(s: Seq<u8>) -> nat
    decreases s.len(),
{
    if s.len() == 0 {
        0
    } else if spec_is_delimiter(s.last()) {
        spec_count_skipped(s.drop_last()) + 1
    } else {
        spec_count_skipped(s.drop_last())
    }
}

/// Every byte is either skipped or significant: the delimiter count and
/// the significant-digit count always sum to the input's length.
pub proof fn lemma_count_and_significant(s: Seq<u8>)
    ensures
        spec_count_skipped(s) + significant_digits(s).len() == s.len(),
    decreases s.len(),
{
    if s.len() > 0 {
        lemma_count_and_significant(s.drop_last());
    }
}

/// Scans the whole input once and returns how many of its bytes are
/// delimiters.  The number of significant digits is the length minus
/// this count.
pub fn count_skipped(data: &[u8]) -> (n: usize)
    ensures
        n == spec_count_skipped(data@),
        data@.len() - n == significant_digits(data@).len(),
{
    let mut char_count: usize = 0;
    let mut char_index: usize = 0;
    while char_index < data.len()
        invariant
            char_index <= data@.len(),
            char_count == spec_count_skipped(data@.take(char_index as int)),
            char_count <= char_index,
        decreases data@.len() - char_index,
    {
        proof {
            assert(data@.take(char_index as int + 1).drop_last() =~= data@.take(
                char_index as int,
            ));
        }
        if is_valid_delimiter(data[char_index]) {
            char_count += 1;
        }
        char_index += 1;
    }
    proof {
        assert(data@.take(data@.len() as int) =~= data@);
        lemma_count_and_significant(data@);
    }
    char_count
}

/// Why a conversion was refused.
#[derive(Clone, Copy, Debug, PartialEq, Eq, Structural)]
pub enum HexError {
    /// The count of significant (non-delimiter) bytes is odd, so no
    /// whole number of output bytes can be formed.
    OddDigitCount,
    /// The byte at `position` is neither a delimiter nor a hex digit.
    InvalidDigit { position: usize, byte: u8 },
}

/// The byte one pair of hex digits encodes: the first digit is the high
/// nibble, the second the low nibble.
pub open spec fn spec_pair_byte(hi: u8, lo: u8) -> u8 {
    (spec_digit_value(hi) * 16 + spec_digit_value(lo)) as u8
}

/// The bytes a sequence of significant digits decodes to: digit `2*i`
/// and digit `2*i + 1` form output byte `i`.
pub open spec fn spec_decode(digits: Seq<u8>) -> Seq<u8> {
    Seq::new(digits.len() / 2, |i: int| spec_pair_byte(digits[2 * i], digits[2 * i + 1]))
}

/// Every element of the sequence is a hex digit.
pub open spec fn all_hex_digits(s: Seq<u8>) -> bool {
    forall|i: int| 0 <= i < s.len() ==> spec_is_hex_digit(s[i])
}

/// An input decodes successfully exactly when its significant digits
/// are even in number and all valid hex digits.
pub open spec fn well_formed_input(s: Seq<u8>) -> bool {
    significant_digits(s).len() % 2 == 0 && all_hex_digits(significant_digits(s))
}

/// A non-delimiter byte of the input shows up, with its value, among
/// the significant digits.
pub proof fn lemma_significant_contains(s: Seq<u8>, i: int)
    requires
        0 <= i < s.len(),
        !spec_is_delimiter(s[i]),
    ensures
        exists|k: int|
            0 <= k < significant_digits(s).len() && significant_digits(s)[k] == s[i],
    decreases s.len(),
{
    if i == s.len() - 1 {
        assert(significant_digits(s).last() == s[i]);
    } else {
        lemma_significant_contains(s.drop_last(), i);
        let k = choose|k: int|
            0 <= k < significant_digits(s.drop_last()).len() && significant_digits(
                s.drop_last(),
            )[k] == s.drop_last()[i];
        assert(significant_digits(s)[k] == s[i]);
    }
}

/// Converts hexadecimal text to the bytes it encodes.
///
/// The input is walked once, left to right.  Delimiters are skipped
/// wherever they stand, even between the two digits of one output byte;
/// each remaining pair of digits yields one byte, high nibble first.
/// All validation happens before the value is returned: an odd count of
/// significant digits is `OddDigitCount`, and the first significant
/// byte that is no hex digit is `InvalidDigit` with its position.
pub fn convert(input: &[u8]) -> (r: Result<Vec<u8>, HexError>)
    ensures
        r is Ok <==> well_formed_input(input@),
        r matches Ok(out) ==> out@ == spec_decode(significant_digits(input@)),
        r == Err::<Vec<u8>, HexError>(HexError::OddDigitCount) <==> significant_digits(
            input@,
        ).len() % 2 != 0,
        (r matches Err(e) && e is InvalidDigit) <==> (significant_digits(input@).len() % 2
            == 0 && !all_hex_digits(significant_digits(input@))),
        r matches Err(HexError::InvalidDigit { position, byte }) ==> {
            &&& position < input@.len()
            &&& byte == input@[position as int]
            &&& !spec_is_delimiter(byte)
            &&& !spec_is_hex_digit(byte)
            &&& forall|j: int|
                0 <= j < position ==> spec_is_delimiter(input@[j]) || spec_is_hex_digit(
                    input@[j],
                )
        },
{
    let skipped: usize = count_skipped(input);
    let significant: usize = input.len() - skipped;
    if significant % 2 != 0 {
        return Err(HexError::OddDigitCount);
    }
    let mut data: Vec<u8> = Vec::new();
    let mut pending: Option<u8> = None;
    let mut char_index: usize = 0;
    while char_index < input.len()
        invariant
            char_index <= input@.len(),
            significant_digits(input@).len() % 2 == 0,
            forall|j: int|
                0 <= j < char_index ==> spec_is_delimiter(input@[j]) || spec_is_hex_digit(
                    input@[j],
                ),
            all_hex_digits(significant_digits(input@.take(char_index as int))),
            2 * data@.len() + (if pending is Some {
                1int
            } else {
                0int
            }) == significant_digits(input@.take(char_index as int)).len(),
            pending matches Some(hi) ==> hi == spec_digit_value(
                significant_digits(input@.take(char_index as int)).last(),
            ),
            forall|k: int|
                0 <= k < data@.len() ==> data@[k] == spec_pair_byte(
                    significant_digits(input@.take(char_index as int))[2 * k],
                    significant_digits(input@.take(char_index as int))[2 * k + 1],
                ),
        decreases input@.len() - char_index,
    {
        proof {
            assert(input@.take(char_index as int + 1).drop_last() =~= input@.take(
                char_index as int,
            ));
        }
        let b = input[char_index];
        if !is_valid_delimiter(b) {
            match to_ordinal(b) {
                None => {
                    proof {
                        lemma_significant_contains(input@, char_index as int);
                    }
                    return Err(HexError::InvalidDigit { position: char_index, byte: b });
                },
                Some(v) => {
                    match pending {
                        None => {
                            pending = Some(v);
                        },
                        Some(hi) => {
                            data.push(hi * 16 + v);
                            pending = None;
                        },
                    }
                },
            }
        }
        char_index += 1;
    }
    proof {
        assert(input@.take(input@.len() as int) =~= input@);
        assert(data@ =~= spec_decode(significant_digits(input@)));
    }
    Ok(data)
}

/// Significant digits carry no delimiter: filtering removes every one.
pub proof fn lemma_significant_no_delimiters(s: Seq<u8>)
    ensures
        forall|k: int|
            0 <= k < significant_digits(s).len() ==> !spec_is_delimiter(
                significant_digits(s)[k],
            ),
    decreases s.len(),
{
    if s.len() > 0 {
        lemma_significant_no_delimiters(s.drop_last());
        let d = significant_digits(s.drop_last());
        assert forall|k: int| 0 <= k < significant_digits(s).len() implies !spec_is_delimiter(
            significant_digits(s)[k],
        ) by {
            if !spec_is_delimiter(s.last()) && k < significant_digits(s).len() - 1 {
                assert(significant_digits(s)[k] == d[k]);
            }
        }
    }
}

/// An input without delimiters is its own sequence of significant
/// digits.
pub proof fn lemma_significant_identity(s: Seq<u8>)
    requires
        forall|i: int| 0 <= i < s.len() ==> !spec_is_delimiter(s[i]),
    ensures
        significant_digits(s) == s,
    decreases s.len(),
{
    if s.len() > 0 {
        lemma_significant_identity(s.drop_last());
        assert(significant_digits(s.drop_last()).push(s.last()) =~= s);
    }
}

/// For an input made only of hex digits, every byte is significant: the
/// decoded output has half the input's length and pairs adjacent digits
/// big-endian, the earlier digit giving the high nibble.
pub proof fn lemma_decode_plain_hex(s: Seq<u8>)
    requires
        all_hex_digits(s),
    ensures
        significant_digits(s) == s,
        spec_decode(s).len() == s.len() / 2,
        forall|i: int|
            0 <= i < s.len() / 2 ==> spec_decode(s)[i] == spec_pair_byte(
                s[2 * i],
                s[2 * i + 1],
            ),
{
    assert forall|i: int| 0 <= i < s.len() implies !spec_is_delimiter(s[i]) by {
        assert(spec_is_hex_digit(s[i]));
    }
    lemma_significant_identity(s);
}

/// Removing every delimiter from the input before decoding changes
/// nothing: the significant digits of the stripped input are exactly
/// those of the original, so both decode to the same bytes.
pub proof fn lemma_delimiter_insensitive(s: Seq<u8>)
    ensures
        significant_digits(significant_digits(s)) == significant_digits(s),
        spec_decode(significant_digits(significant_digits(s))) == spec_decode(
            significant_digits(s),
        ),
{
    lemma_significant_no_delimiters(s);
    lemma_significant_identity(significant_digits(s));
}

/// Two bytes that are the same digit up to letter case: either equal,
/// or the lower- and upper-case forms of one hex letter.
pub open spec fn same_digit_ignoring_case(a: u8, b: u8) -> bool {
    ||| a == b
    ||| (LOWER_A <= a && a <= LOWER_F && b == a - 32)
    ||| (UPPER_A <= a && a <= UPPER_F && b == a + 32)
}

/// Inputs that agree byte for byte up to letter case have significant
/// digits that agree the same way, in the same positions.
pub proof fn lemma_significant_case(s: Seq<u8>, t: Seq<u8>)
    requires
        s.len() == t.len(),
        forall|i: int| 0 <= i < s.len() ==> same_digit_ignoring_case(s[i], t[i]),
    ensures
        significant_digits(s).len() == significant_digits(t).len(),
        forall|k: int|
            0 <= k < significant_digits(s).len() ==> same_digit_ignoring_case(
                significant_digits(s)[k],
                significant_digits(t)[k],
            ),
    decreases s.len(),
{
    if s.len() > 0 {
        lemma_significant_case(s.drop_last(), t.drop_last());
        assert(same_digit_ignoring_case(s.last(), t.last()));
        assert(spec_is_delimiter(s.last()) == spec_is_delimiter(t.last()));
    }
}

/// Decoding is case-insensitive: two inputs that agree byte for byte up
/// to the case of hex letters decode to the same bytes, and one is
/// well-formed exactly when the other is.
pub proof fn lemma_decode_case_insensitive(s: Seq<u8>, t: Seq<u8>)
    requires
        s.len() == t.len(),
        forall|i: int| 0 <= i < s.len() ==> same_digit_ignoring_case(s[i], t[i]),
    ensures
        spec_decode(significant_digits(s)) == spec_decode(significant_digits(t)),
        well_formed_input(s) <==> well_formed_input(t),
{
    lemma_significant_case(s, t);
    let ds = significant_digits(s);
    let dt = significant_digits(t);
    assert forall|k: int| 0 <= k < ds.len() implies spec_digit_value(ds[k])
        == spec_digit_value(dt[k]) && (spec_is_hex_digit(ds[k]) == spec_is_hex_digit(
        dt[k],
    )) by {
        assert(same_digit_ignoring_case(ds[k], dt[k]));
    }
    assert(spec_decode(ds) =~= spec_decode(dt));
    assert(all_hex_digits(ds) == all_hex_digits(dt));
}

/// Returns `true` on every call.
pub fn always_true() -> (r: bool)
    ensures
        r,
{
    true
}

/// Type-level witness that a digit count is even; never constructed,
/// used only as a marker.
pub enum IsEvenNumberofDigits {
    Marker,
}

/// Type-level witness that a digit count is odd; never constructed,
/// used only as a marker.
pub enum IsOddNumberofDigits {
    Marker,
}

/// Maps a length residue, written as the array type `[(); len % 2]`, to
/// its even/odd marker type.
pub trait HexStringLength {
    type Marker;
}

impl HexStringLength for [(); 0] {
    type Marker = IsEvenNumberofDigits;
}

impl HexStringLength for [(); 1] {
    type Marker = IsOddNumberofDigits;
}

/// Holds only for the even marker: naming `Self::Check` compiles
/// exactly when the digit count was even.
pub trait LengthIsEvenNumberOfHexDigits {
    type Check;
}

impl LengthIsEvenNumberOfHexDigits for IsEvenNumberofDigits {
    type Check = ();
}

} // verus!

