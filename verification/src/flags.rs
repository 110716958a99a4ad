//! The flag and code bits of the second header word.
use vstd::prelude::*;

verus! {

/// The bit that marks a message as a response.
pub const QR_MASK: u16 = 0b1000000000000000;
/// The four bits of the operation code.
pub const OPCODE_MASK: u16 = 0b0111100000000000;
/// The authoritative-answer bit.
pub const AA_MASK: u16 = 0b0000010000000000;
/// The truncation bit.
pub const TC_MASK: u16 = 0b0000001000000000;
/// The recursion-desired bit.
pub const RD_MASK: u16 = 0b0000000100000000;
/// The recursion-available bit.
pub const RA_MASK: u16 = 0b0000000010000000;
/// The four bits of the response code.
pub const RCODE_MASK: u16 = 0b0000000000001111;

/// The kind of query a message carries.
#[allow(non_camel_case_types, clippy::upper_case_acronyms)]
#[derive(PartialEq, Eq, Structural, Hash, Debug, Clone, Copy)]
pub enum OpCode {
    QUERY,
    IQUERY,
    STATUS,
}

impl OpCode {
    /// The operation code already shifted into its place in the flag word.
    pub open spec fn spec_value(self) -> u16 {
        match self {
            OpCode::QUERY => 0b0_0000_00000000000,
            OpCode::IQUERY => 0b0_0001_00000000000,
            OpCode::STATUS => 0b0_0010_00000000000,
        }
    }

    pub fn value(&self) -> (r: u16)
        ensures
            r == self.spec_value(),
    {
        match *self {
            OpCode::QUERY => 0b0_0000_00000000000,
            OpCode::IQUERY => 0b0_0001_00000000000,
            OpCode::STATUS => 0b0_0010_00000000000,
        }
    }
}

/// The outcome a response reports.
#[derive(PartialEq, Eq, Structural, Hash, Debug, Clone, Copy)]
pub enum RCode {
    NoError,
    FormatError,
    ServerFailure,
    NameError,
    NotImplemented,
    Refused,
}

impl RCode {
    /// The response code in the low four bits of the flag word.
    pub open spec fn spec_value(self) -> u16 {
        match self {
            RCode::NoError => 0,
            RCode::FormatError => 1,
            RCode::ServerFailure => 2,
            RCode::NameError => 3,
            RCode::NotImplemented => 4,
            RCode::Refused => 5,
        }
    }

    pub fn value(&self) -> (r: u16)
        ensures
            r == self.spec_value(),
    {
        match *self {
            RCode::NoError => 0b000000000000_0000,
            RCode::FormatError => 0b000000000000_0001,
            RCode::ServerFailure => 0b000000000000_0010,
            RCode::NameError => 0b000000000000_0011,
            RCode::NotImplemented => 0b000000000000_0100,
            RCode::Refused => 0b000000000000_0101,
        }
    }
}

/// One field of the flag word. The reserved bits are never set, so they have no variant.
#[allow(non_camel_case_types, clippy::upper_case_acronyms)]
#[derive(PartialEq, Eq, Structural, Hash, Debug, Clone, Copy)]
pub enum HeaderFlag {
    QR,
    OPCODE(OpCode),
    AA,
    TC,
    RD,
    RA,
    RCODE(RCode),
}

impl HeaderFlag {
    /// The bits of the flag word that this field occupies.
    pub open spec fn spec_mask(self) -> u16 {
        match self {
            HeaderFlag::QR => QR_MASK,
            HeaderFlag::OPCODE(_) => OPCODE_MASK,
            HeaderFlag::AA => AA_MASK,
            HeaderFlag::TC => TC_MASK,
            HeaderFlag::RD => RD_MASK,
            HeaderFlag::RA => RA_MASK,
            HeaderFlag::RCODE(_) => RCODE_MASK,
        }
    }

    /// The bits this field sets in the flag word: the whole mask for a
    /// one-bit flag, the code's value for the two code fields.
    pub open spec fn contribution(self) -> u16 {
        match self {
            HeaderFlag::OPCODE(code) => code.spec_value(),
            HeaderFlag::RCODE(code) => code.spec_value(),
            _ => self.spec_mask(),
        }
    }

    pub fn mask(&self) -> (r: u16)
        ensures
            r == self.spec_mask(),
    {
        match *self {
            HeaderFlag::QR => 0b1000000000000000,
            HeaderFlag::OPCODE(_) => 0b0111100000000000,
            HeaderFlag::AA => 0b0000010000000000,
            HeaderFlag::TC => 0b0000001000000000,
            HeaderFlag::RD => 0b0000000100000000,
            HeaderFlag::RA => 0b0000000010000000,
            HeaderFlag::RCODE(_) => 0b0000000000001111,
        }
    }
}

/// The flag word made of the given fields: the bitwise or of their contributions.
pub open spec fn flags_word(flags: Seq<HeaderFlag>) -> u16
    decreases flags.len(),
{
    if flags.len() == 0 {
        0
    } else {
        flags_word(flags.drop_last()) | flags.last().contribution()
    }
}

/// Whether bit `b` of `x` is set.
pub open spec fn bit_set(x: u16, b: u16) -> bool {
    (x >> b) & 1 == 1
}

/// Builds the flag word that has exactly the given fields set.
pub fn create_flags_and_codes(flags: &[HeaderFlag]) -> (r: u16)
    ensures
        r == flags_word(flags@),
{
    let mut result: u16 = 0;
    let mut i: usize = 0;
    while i < flags.len()
        invariant
            i <= flags.len(),
            result == flags_word(flags@.take(i as int)),
        decreases flags.len() - i,
    {
        let flag = &flags[i];
        let bits = match flag {
            HeaderFlag::QR | HeaderFlag::AA | HeaderFlag::TC | HeaderFlag::RD | HeaderFlag::RA => {
                flag.mask()
            },
            HeaderFlag::OPCODE(code) => code.value(),
            HeaderFlag::RCODE(code) => code.value(),
        };
        assert(flags@.take(i + 1).drop_last() =~= flags@.take(i as int));
        result = result | bits;
        i = i + 1;
    }
    assert(flags@.take(flags.len() as int) =~= flags@);
    result
}


proof fn lemma_or_bit(x: u16, y: u16, b: u16)
    requires
        b < 16,
    ensures
        bit_set(x | y, b) == (bit_set(x, b) || bit_set(y, b)),
{
    assert(b < 16 ==> (((x | y) >> b) & 1 == 1) == (((x >> b) & 1 == 1) || ((y >> b) & 1 == 1)))
        by (bit_vector);
}

proof fn lemma_bits_determine_word(x: u16, y: u16)
    requires
        forall|b: u16| b < 16 ==> bit_set(x, b) == bit_set(y, b),
    ensures
        x == y,
{
    assert(bit_set(x, 0) == bit_set(y, 0));
    assert(bit_set(x, 1) == bit_set(y, 1));
    assert(bit_set(x, 2) == bit_set(y, 2));
    assert(bit_set(x, 3) == bit_set(y, 3));
    assert(bit_set(x, 4) == bit_set(y, 4));
    assert(bit_set(x, 5) == bit_set(y, 5));
    assert(bit_set(x, 6) == bit_set(y, 6));
    assert(bit_set(x, 7) == bit_set(y, 7));
    assert(bit_set(x, 8) == bit_set(y, 8));
    assert(bit_set(x, 9) == bit_set(y, 9));
    assert(bit_set(x, 10) == bit_set(y, 10));
    assert(bit_set(x, 11) == bit_set(y, 11));
    assert(bit_set(x, 12) == bit_set(y, 12));
    assert(bit_set(x, 13) == bit_set(y, 13));
    assert(bit_set(x, 14) == bit_set(y, 14));
    assert(bit_set(x, 15) == bit_set(y, 15));
    assert(
        (((x >> 0) & 1 == 1) == ((y >> 0) & 1 == 1))
        && (((x >> 1) & 1 == 1) == ((y >> 1) & 1 == 1))
        && (((x >> 2) & 1 == 1) == ((y >> 2) & 1 == 1))
        && (((x >> 3) & 1 == 1) == ((y >> 3) & 1 == 1))
        && (((x >> 4) & 1 == 1) == ((y >> 4) & 1 == 1))
        && (((x >> 5) & 1 == 1) == ((y >> 5) & 1 == 1))
        && (((x >> 6) & 1 == 1) == ((y >> 6) & 1 == 1))
        && (((x >> 7) & 1 == 1) == ((y >> 7) & 1 == 1))
        && (((x >> 8) & 1 == 1) == ((y >> 8) & 1 == 1))
        && (((x >> 9) & 1 == 1) == ((y >> 9) & 1 == 1))
        && (((x >> 10) & 1 == 1) == ((y >> 10) & 1 == 1))
        && (((x >> 11) & 1 == 1) == ((y >> 11) & 1 == 1))
        && (((x >> 12) & 1 == 1) == ((y >> 12) & 1 == 1))
        && (((x >> 13) & 1 == 1) == ((y >> 13) & 1 == 1))
        && (((x >> 14) & 1 == 1) == ((y >> 14) & 1 == 1))
        && (((x >> 15) & 1 == 1) == ((y >> 15) & 1 == 1))
        ==> x == y
    ) by (bit_vector);
}

/// A bit of the flag word is set exactly when some given field sets it.
pub proof fn lemma_flags_word_bits(flags: Seq<HeaderFlag>, b: u16)
    requires
        b < 16,
    ensures
        bit_set(flags_word(flags), b) <==> exists|i: int|
            0 <= i < flags.len() && #[trigger] bit_set(flags[i].contribution(), b),
    decreases flags.len(),
{
    if flags.len() == 0 {
        assert(((0u16 >> b) & 1) != 1) by (bit_vector);
    } else {
        let init = flags.drop_last();
        lemma_flags_word_bits(init, b);
        lemma_or_bit(flags_word(init), flags.last().contribution(), b);
        if bit_set(flags_word(flags), b) {
            if bit_set(flags_word(init), b) {
                let i = choose|i: int| 0 <= i < init.len() && #[trigger] bit_set(init[i].contribution(), b);
                assert(flags[i] == init[i]);
            } else {
                assert(bit_set(flags[flags.len() - 1].contribution(), b));
            }
        }
        if exists|i: int| 0 <= i < flags.len() && #[trigger] bit_set(flags[i].contribution(), b) {
            let i = choose|i: int| 0 <= i < flags.len() && #[trigger] bit_set(flags[i].contribution(), b);
            if i < flags.len() - 1 {
                assert(init[i] == flags[i]);
            } else {
                assert(flags[i] == flags.last());
            }
        }
    }
}

/// The flag word depends only on which fields are given: neither their order
/// nor a repetition changes it.
pub proof fn flags_word_depends_only_on_the_set(first: Seq<HeaderFlag>, second: Seq<HeaderFlag>)
    requires
        first.to_set() == second.to_set(),
    ensures
        flags_word(first) == flags_word(second),
{
    assert forall|b: u16| b < 16 implies bit_set(flags_word(first), b) == bit_set(flags_word(second), b) by {
        lemma_flags_word_bits(first, b);
        lemma_flags_word_bits(second, b);
        if bit_set(flags_word(first), b) {
            let i = choose|i: int| 0 <= i < first.len() && #[trigger] bit_set(first[i].contribution(), b);
            assert(first.to_set().contains(first[i]));
            assert(second.to_set().contains(first[i]));
            let j = choose|j: int| 0 <= j < second.len() && second[j] == first[i];
            assert(bit_set(second[j].contribution(), b));
        }
        if bit_set(flags_word(second), b) {
            let i = choose|i: int| 0 <= i < second.len() && #[trigger] bit_set(second[i].contribution(), b);
            assert(second.to_set().contains(second[i]));
            assert(first.to_set().contains(second[i]));
            let j = choose|j: int| 0 <= j < first.len() && first[j] == second[i];
            assert(bit_set(first[j].contribution(), b));
        }
    }
    lemma_bits_determine_word(flags_word(first), flags_word(second));
}

/// Every field sets only bits inside its own mask.
pub proof fn contribution_within_mask(flag: HeaderFlag)
    ensures
        flag.contribution() & flag.spec_mask() == flag.contribution(),
{
    assert(0x8000u16 & 0x8000u16 == 0x8000u16 && 0x0400u16 & 0x0400u16 == 0x0400u16
        && 0x0200u16 & 0x0200u16 == 0x0200u16 && 0x0100u16 & 0x0100u16 == 0x0100u16
        && 0x0080u16 & 0x0080u16 == 0x0080u16 && 0u16 & 0x7800u16 == 0u16
        && 0x0800u16 & 0x7800u16 == 0x0800u16 && 0x1000u16 & 0x7800u16 == 0x1000u16
        && 0u16 & 0x000fu16 == 0u16 && 1u16 & 0x000fu16 == 1u16 && 2u16 & 0x000fu16 == 2u16
        && 3u16 & 0x000fu16 == 3u16 && 4u16 & 0x000fu16 == 4u16 && 5u16 & 0x000fu16 == 5u16)
        by (bit_vector);
}

} // verus!
