//! The instructions of the escrow program and their wire format.
//!
//! | offset | length | meaning                                             |
//! |--------|--------|-----------------------------------------------------|
//! | 0      | 1      | tag; [`INIT_ESCROW_TAG`] is the only one in use     |
//! | 1      | 8      | amount, little-endian, for [`INIT_ESCROW_TAG`]      |
//! | 9      | any    | not read                                            |

use crate::error::EscrowError;
use crate::little_endian::{
    le_bytes, le_value, lemma_le_bytes_len, lemma_le_bytes_of_le_value, lemma_le_value_bound,
    lemma_le_value_of_le_bytes, lemma_le_value_u64, lemma_pow256_u64,
};
use vstd::arithmetic::power::lemma_pow_increases;
use vstd::prelude::*;

verus! {

/// Tag byte of [`EscrowInstruction::InitEscrow`].
pub const INIT_ESCROW_TAG: u8 = 0;

/// Number of bytes that hold an amount.
pub const AMOUNT_LEN: usize = 8;

/// What a caller can ask of the escrow program.
#[derive(Clone, Copy, Debug, PartialEq, Eq, Structural)]
pub enum EscrowInstruction {
    /// Starts the trade by creating and populating an escrow account and
    /// transferring ownership of the given temp token account to the PDA.
    ///
    /// Accounts expected alongside this instruction (the decoder does not
    /// look at them):
    ///
    /// 0. `[signer]` The account of the person initializing the escrow
    /// 1. `[writable]` Temporary token account that should be created prior
    ///    to this instruction and owned by the initializer
    /// 2. `[]` The initializer's token account for the token they will
    ///    receive should the trade go through
    /// 3. `[writable]` The escrow account, it will hold all necessary info
    ///    about the trade
    /// 4. `[]` The rent sysvar
    /// 5. `[]` The token program
    InitEscrow {
        /// The amount party A expects to receive of token Y
        amount: u64,
    },
}

impl EscrowInstruction {
    /// The amount that the body of an instruction starts with: its first
    /// [`AMOUNT_LEN`] bytes read as a little-endian number. A shorter body
    /// holds no amount.
    pub open spec fn spec_unpack_amount(body: Seq<u8>) -> Result<u64, EscrowError> {
        if body.len() >= AMOUNT_LEN {
            Ok(le_value(body.subrange(0, AMOUNT_LEN as int)) as u64)
        } else {
            Err(EscrowError::InvalidInstruction)
        }
    }

    /// The instruction that `payload` spells, by the layout in the table at
    /// the head of this module. Every payload that does not start with a
    /// known tag and the whole of that tag's fields is invalid.
    pub open spec fn spec_unpack(payload: Seq<u8>) -> Result<EscrowInstruction, EscrowError> {
        if payload.len() >= 1 + AMOUNT_LEN && payload[0] == INIT_ESCROW_TAG {
            Ok(
                EscrowInstruction::InitEscrow {
                    amount: le_value(payload.subrange(1, 1 + AMOUNT_LEN)) as u64,
                },
            )
        } else {
            Err(EscrowError::InvalidInstruction)
        }
    }

    /// `InitEscrow` with the amount that `body` starts with, if it holds one.
    pub open spec fn spec_init_escrow(body: Seq<u8>) -> Result<EscrowInstruction, EscrowError> {
        match Self::spec_unpack_amount(body) {
            Ok(amount) => Ok(EscrowInstruction::InitEscrow { amount }),
            Err(e) => Err(e),
        }
    }

    /// The shortest payload that spells `self`: the tag, then the fields.
    pub open spec fn spec_pack(self) -> Seq<u8> {
        match self {
            EscrowInstruction::InitEscrow { amount } => seq![INIT_ESCROW_TAG] + le_bytes(
                amount as nat,
                AMOUNT_LEN as nat,
            ),
        }
    }

    /// Unpacks a byte buffer into an [`EscrowInstruction`].
    ///
    /// The first byte selects the instruction and the bytes after it are
    /// handed to that instruction's field decoder. An empty buffer and an
    /// unknown tag are both rejected. What comes back is an instruction
    /// whose packed form is the start of the buffer.
    pub fn unpack(input: &[u8]) -> (r: Result<Self, EscrowError>)
        ensures
            r == Self::spec_unpack(input@),
            r is Ok <==> input@.len() >= 1 + AMOUNT_LEN && input@[0] == INIT_ESCROW_TAG,
            r matches Ok(instruction) ==> instruction.spec_pack() == input@.subrange(
                0,
                1 + AMOUNT_LEN,
            ),
    {
        let tag = match input.first() {
            Some(tag) => *tag,
            None => {
                return Err(EscrowError::InvalidInstruction);
            },
        };
        let (_, rest) = input.split_at(1);
        proof {
            assert(rest@ =~= input@.drop_first());
            if tag == INIT_ESCROW_TAG {
                lemma_unpack_by_tag(input@);
            }
        }
        let r = match tag {
            INIT_ESCROW_TAG => match Self::unpack_amount(rest) {
                Ok(amount) => Ok(EscrowInstruction::InitEscrow { amount }),
                Err(e) => Err(e),
            },
            _ => Err(EscrowError::InvalidInstruction),
        };
        proof {
            if let Ok(instruction) = r {
                lemma_pack_of_unpack(input@, instruction);
            }
        }
        r
    }

    /// Reads the amount at the start of `input`, least significant byte
    /// first. Bytes after the amount are not looked at; a buffer that ends
    /// before the amount does is rejected. The amount that comes back is the
    /// one whose eight little-endian bytes the buffer starts with.
    pub fn unpack_amount(input: &[u8]) -> (r: Result<u64, EscrowError>)
        ensures
            r == Self::spec_unpack_amount(input@),
            r is Ok <==> input@.len() >= AMOUNT_LEN,
            r matches Ok(amount) ==> le_bytes(amount as nat, AMOUNT_LEN as nat) == input@.subrange(
                0,
                AMOUNT_LEN as int,
            ),
    {
        if input.len() < AMOUNT_LEN {
            return Err(EscrowError::InvalidInstruction);
        }
        let ghost digits = input@.subrange(0, AMOUNT_LEN as int);
        let mut amount: u64 = 0;
        let mut i: usize = AMOUNT_LEN;
        while i > 0
            invariant
                i <= AMOUNT_LEN <= input@.len(),
                digits == input@.subrange(0, AMOUNT_LEN as int),
                amount == le_value(digits.subrange(i as int, AMOUNT_LEN as int)),
            decreases i,
        {
            i = i - 1;
            proof {
                let read = digits.subrange(i + 1, AMOUNT_LEN as int);
                let more = digits.subrange(i as int, AMOUNT_LEN as int);
                assert(more.drop_first() =~= read);
                lemma_le_value_bound(read);
                lemma_pow_increases(256, read.len(), 7);
                lemma_pow256_u64();
            }
            amount = amount * 256 + input[i] as u64;
        }
        proof {
            assert(digits.subrange(0, AMOUNT_LEN as int) =~= digits);
            lemma_le_bytes_of_le_value(digits);
        }
        Ok(amount)
    }
}

/// The dispatcher and the field decoder fit together: a payload that carries
/// the tag of `InitEscrow` is read by handing the bytes after the tag to the
/// decoder of the amount.
pub proof fn lemma_unpack_by_tag(payload: Seq<u8>)
    requires
        payload.len() > 0,
        payload[0] == INIT_ESCROW_TAG,
    ensures
        EscrowInstruction::spec_unpack(payload) == EscrowInstruction::spec_init_escrow(
            payload.drop_first(),
        ),
{
    if payload.len() >= 1 + AMOUNT_LEN {
        assert(payload.drop_first().subrange(0, AMOUNT_LEN as int) =~= payload.subrange(
            1,
            1 + AMOUNT_LEN,
        ));
    }
}

/// A payload without a tag byte is rejected.
pub proof fn lemma_empty_payload_rejected(payload: Seq<u8>)
    requires
        payload.len() == 0,
    ensures
        EscrowInstruction::spec_unpack(payload) == Err::<EscrowInstruction, _>(
            EscrowError::InvalidInstruction,
        ),
{
}

/// A payload whose tag is not that of an instruction is rejected, whatever
/// follows the tag.
pub proof fn lemma_unknown_tag_rejected(payload: Seq<u8>)
    requires
        payload.len() > 0,
        payload[0] != INIT_ESCROW_TAG,
    ensures
        EscrowInstruction::spec_unpack(payload) == Err::<EscrowInstruction, _>(
            EscrowError::InvalidInstruction,
        ),
{
}

/// A payload that carries the tag of `InitEscrow` but ends before the amount
/// does is rejected.
pub proof fn lemma_short_payload_rejected(payload: Seq<u8>)
    requires
        payload.len() > 0,
        payload[0] == INIT_ESCROW_TAG,
        payload.len() < 1 + AMOUNT_LEN,
    ensures
        EscrowInstruction::spec_unpack(payload) == Err::<EscrowInstruction, _>(
            EscrowError::InvalidInstruction,
        ),
{
}

/// Every amount comes back from its own eight little-endian bytes, and the
/// bytes that follow them make no difference.
pub proof fn lemma_unpack_amount_of_le_bytes(amount: u64, trailing: Seq<u8>)
    ensures
        EscrowInstruction::spec_unpack_amount(le_bytes(amount as nat, AMOUNT_LEN as nat) + trailing)
            == Ok::<_, EscrowError>(amount),
{
    let digits = le_bytes(amount as nat, AMOUNT_LEN as nat);
    lemma_le_bytes_len(amount as nat, AMOUNT_LEN as nat);
    lemma_pow256_u64();
    lemma_le_value_of_le_bytes(amount as nat, AMOUNT_LEN as nat);
    assert((digits + trailing).subrange(0, AMOUNT_LEN as int) =~= digits);
}

/// Round trip: the tag byte followed by the little-endian bytes of an amount
/// unpacks to `InitEscrow` with exactly that amount.
pub proof fn lemma_unpack_of_pack(instruction: EscrowInstruction)
    ensures
        EscrowInstruction::spec_unpack(instruction.spec_pack()) == Ok::<_, EscrowError>(instruction),
{
    lemma_unpack_with_trailing_bytes(instruction, Seq::empty());
    assert(instruction.spec_pack() + Seq::<u8>::empty() =~= instruction.spec_pack());
}

/// Trailing bytes are tolerated: whatever follows a packed instruction, the
/// payload unpacks to that instruction.
pub proof fn lemma_unpack_with_trailing_bytes(instruction: EscrowInstruction, trailing: Seq<u8>)
    ensures
        EscrowInstruction::spec_unpack(instruction.spec_pack() + trailing) == Ok::<_, EscrowError>(instruction),
{
    let EscrowInstruction::InitEscrow { amount } = instruction;
    let digits = le_bytes(amount as nat, AMOUNT_LEN as nat);
    let payload = instruction.spec_pack() + trailing;
    lemma_le_bytes_len(amount as nat, AMOUNT_LEN as nat);
    lemma_pow256_u64();
    lemma_le_value_of_le_bytes(amount as nat, AMOUNT_LEN as nat);
    assert(payload.subrange(1, 1 + AMOUNT_LEN) =~= digits);
}

/// A payload that unpacks to an instruction starts with the packed form of
/// that instruction: no two different nine-byte prefixes spell the same one.
pub proof fn lemma_pack_of_unpack(payload: Seq<u8>, instruction: EscrowInstruction)
    requires
        EscrowInstruction::spec_unpack(payload) == Ok::<_, EscrowError>(instruction),
    ensures
        payload.len() >= 1 + AMOUNT_LEN,
        payload.subrange(0, 1 + AMOUNT_LEN) == instruction.spec_pack(),
{
    let digits = payload.subrange(1, 1 + AMOUNT_LEN);
    lemma_le_value_u64(digits);
    lemma_le_bytes_of_le_value(digits);
    assert(payload.subrange(0, 1 + AMOUNT_LEN) =~= seq![INIT_ESCROW_TAG] + digits);
}

} // verus!
