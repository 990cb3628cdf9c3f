//! The binary form of a program: eight bytes per instruction, most
//! significant byte first, so that every instruction starts with its opcode.

use crate::instr::Instr;
use crate::interpreter::InterpreterError;
use vstd::prelude::*;

verus! {

/// Number of bytes that one encoded instruction occupies.
pub const INSTR_SIZE: usize = 8;

/// The eight bytes of a word, most significant first.
pub open spec fn be_bytes(word: u64) -> Seq<u8> {
    seq![
        (word >> 56) as u8,
        (word >> 48) as u8,
        (word >> 40) as u8,
        (word >> 32) as u8,
        (word >> 24) as u8,
        (word >> 16) as u8,
        (word >> 8) as u8,
        word as u8,
    ]
}

/// The word that eight bytes spell, most significant first.
pub open spec fn from_be_bytes(bytes: Seq<u8>) -> u64
    recommends
        bytes.len() == 8,
{
    (bytes[0] as u64) << 56 | (bytes[1] as u64) << 48 | (bytes[2] as u64) << 40 | (bytes[3] as u64)
        << 32 | (bytes[4] as u64) << 24 | (bytes[5] as u64) << 16 | (bytes[6] as u64) << 8
        | (bytes[7] as u64)
}

/// The byte stream of a program: the packed instructions in order, eight
/// bytes each.
pub open spec fn encode_spec(program: Seq<Instr>) -> Seq<u8>
    decreases program.len(),
{
    if program.len() == 0 {
        Seq::empty()
    } else {
        encode_spec(program.drop_last()) + be_bytes(program.last().spec_to_u64())
    }
}

/// The `k`-th group of eight bytes of a stream.
pub open spec fn chunk(bytes: Seq<u8>, k: int) -> Seq<u8>
    recommends
        0 <= k,
        8 * k + 8 <= bytes.len(),
{
    bytes.subrange(8 * k, 8 * k + 8)
}

/// The first `count` instructions of a stream, or the fault of the first
/// group among them that starts with the code of no opcode.
pub open spec fn decode_chunks(bytes: Seq<u8>, count: nat) -> Result<Seq<Instr>, InterpreterError>
    recommends
        8 * count <= bytes.len(),
    decreases count,
{
    if count == 0 {
        Ok(Seq::empty())
    } else {
        match decode_chunks(bytes, (count - 1) as nat) {
            Err(e) => Err(e),
            Ok(front) => match Instr::spec_from_u64(from_be_bytes(chunk(bytes, count - 1))) {
                Some(instr) => Ok(front.push(instr)),
                None => Err(InterpreterError::UnknownOpcode(bytes[8 * (count - 1)])),
            },
        }
    }
}

/// The program that a byte stream holds. A stream whose length is no
/// multiple of eight is refused with that length, before any byte is looked
/// at. Otherwise the first group that starts with the code of no opcode is
/// reported with that byte.
pub open spec fn decode_spec(bytes: Seq<u8>) -> Result<Seq<Instr>, InterpreterError> {
    if bytes.len() % 8 != 0 {
        Err(InterpreterError::InvalidNumberOfBytes(bytes.len() as usize))
    } else {
        decode_chunks(bytes, bytes.len() / 8)
    }
}

/// Eight bytes per instruction.
pub proof fn lemma_encode_len(program: Seq<Instr>)
    ensures
        encode_spec(program).len() == 8 * program.len(),
    decreases program.len(),
{
    if program.len() > 0 {
        lemma_encode_len(program.drop_last());
    }
}

/// The `k`-th group of eight bytes is the `k`-th instruction, packed.
pub proof fn lemma_encode_chunk(program: Seq<Instr>, k: int)
    requires
        0 <= k < program.len(),
    ensures
        chunk(encode_spec(program), k) == be_bytes(program[k].spec_to_u64()),
    decreases program.len(),
{
    let front = program.drop_last();
    lemma_encode_len(front);
    if k < program.len() - 1 {
        lemma_encode_chunk(front, k);
        assert(chunk(encode_spec(program), k) =~= chunk(encode_spec(front), k));
    } else {
        assert(chunk(encode_spec(program), k) =~= be_bytes(program.last().spec_to_u64()));
    }
}

/// A word comes back from its eight bytes.
pub proof fn lemma_word_of_bytes(word: u64)
    ensures
        from_be_bytes(be_bytes(word)) == word,
{
    let b = be_bytes(word);
    assert(((word >> 56) as u8 as u64) << 56 | ((word >> 48) as u8 as u64) << 48 | ((word >> 40) as u8
        as u64) << 40 | ((word >> 32) as u8 as u64) << 32 | ((word >> 24) as u8 as u64) << 24 | ((word
        >> 16) as u8 as u64) << 16 | ((word >> 8) as u8 as u64) << 8 | (word as u8 as u64) == word)
        by (bit_vector);
}

/// The first byte of a word's eight bytes is its top byte, where the opcode
/// stands.
pub proof fn lemma_first_byte(bytes: Seq<u8>)
    requires
        bytes.len() == 8,
    ensures
        (from_be_bytes(bytes) / 0x0100_0000_0000_0000) as u8 == bytes[0],
{
    let b0 = bytes[0];
    let b1 = bytes[1];
    let b2 = bytes[2];
    let b3 = bytes[3];
    let b4 = bytes[4];
    let b5 = bytes[5];
    let b6 = bytes[6];
    let b7 = bytes[7];
    assert((((b0 as u64) << 56 | (b1 as u64) << 48 | (b2 as u64) << 40 | (b3 as u64) << 32 | (b4 as u64)
        << 24 | (b5 as u64) << 16 | (b6 as u64) << 8 | (b7 as u64)) / 0x0100_0000_0000_0000) as u8
        == b0) by (bit_vector);
}

/// What the first `count` groups decode to does not depend on the bytes
/// behind them.
pub proof fn lemma_decode_chunks_prefix(bytes: Seq<u8>, tail: Seq<u8>, count: nat)
    requires
        8 * count <= bytes.len(),
    ensures
        decode_chunks(bytes + tail, count) == decode_chunks(bytes, count),
    decreases count,
{
    if count > 0 {
        lemma_decode_chunks_prefix(bytes, tail, (count - 1) as nat);
        assert(chunk(bytes + tail, count - 1) =~= chunk(bytes, count - 1));
    }
}

/// Decoding an encoded program gives every instruction back with its opcode
/// and with its operand modulo `2^56`.
pub proof fn lemma_decode_of_encode(program: Seq<Instr>)
    ensures
        decode_spec(encode_spec(program)) == Ok::<Seq<Instr>, InterpreterError>(
            program.map_values(|i: Instr| i.truncated()),
        ),
    decreases program.len(),
{
    let bytes = encode_spec(program);
    let expected = program.map_values(|i: Instr| i.truncated());
    lemma_encode_len(program);
    if program.len() == 0 {
        assert(expected =~= Seq::<Instr>::empty());
    } else {
        let front = program.drop_last();
        let last = program.last();
        let n = front.len();
        lemma_decode_of_encode(front);
        lemma_encode_len(front);
        lemma_decode_chunks_prefix(encode_spec(front), be_bytes(last.spec_to_u64()), n);
        assert(chunk(bytes, n as int) =~= be_bytes(last.spec_to_u64()));
        lemma_word_of_bytes(last.spec_to_u64());
        Instr::lemma_unpack_of_pack(last);
        assert(expected =~= front.map_values(|i: Instr| i.truncated()).push(last.truncated()));
    }
}

/// A program whose operands all lie between `0` and `2^56 - 1` comes back
/// from its byte stream unchanged.
pub proof fn lemma_decode_of_encode_exact(program: Seq<Instr>)
    requires
        all_fit(program),
    ensures
        decode_spec(encode_spec(program)) == Ok::<Seq<Instr>, InterpreterError>(program),
{
    lemma_decode_of_encode(program);
    assert forall|k: int| 0 <= k < program.len() implies (#[trigger] program[k]).truncated()
        == program[k] by {
        Instr::lemma_fitting_operand_survives(program[k]);
    }
    assert(program.map_values(|i: Instr| i.truncated()) =~= program);
}

/// A stream decodes exactly where its length is a multiple of eight and
/// every group of eight bytes starts with the code of an opcode.
pub proof fn lemma_decode_succeeds_iff(bytes: Seq<u8>)
    ensures
        decode_spec(bytes) is Ok <==> bytes.len() % 8 == 0 && forall|k: int|
            0 <= k < bytes.len() / 8 ==> crate::op::Op::spec_from_repr(#[trigger] bytes[8 * k])
                is Some,
        decode_spec(bytes) matches Ok(program) ==> program.len() * 8 == bytes.len(),
{
    if bytes.len() % 8 == 0 {
        lemma_decode_chunks_shape(bytes, bytes.len() / 8);
    }
}

/// The same, for the first `count` groups.
pub proof fn lemma_decode_chunks_shape(bytes: Seq<u8>, count: nat)
    requires
        8 * count <= bytes.len(),
    ensures
        decode_chunks(bytes, count) is Ok <==> forall|k: int|
            0 <= k < count ==> crate::op::Op::spec_from_repr(#[trigger] bytes[8 * k]) is Some,
        decode_chunks(bytes, count) matches Ok(program) ==> program.len() == count,
    decreases count,
{
    if count > 0 {
        lemma_decode_chunks_shape(bytes, (count - 1) as nat);
        lemma_first_byte(chunk(bytes, count - 1));
        assert(chunk(bytes, count - 1)[0] == bytes[8 * (count - 1)]);
        if decode_chunks(bytes, count) is Ok {
            assert forall|k: int| 0 <= k < count implies crate::op::Op::spec_from_repr(
                #[trigger] bytes[8 * k],
            ) is Some by {
                if k < count - 1 {
                } else {
                    assert(k == count - 1);
                }
            }
        }
    }
}

/// Whether every operand of a program lies between `0` and `2^56 - 1`, so
/// that the program comes back from its byte stream unchanged.
pub open spec fn all_fit(program: Seq<Instr>) -> bool {
    forall|k: int| 0 <= k < program.len() ==> (#[trigger] program[k]).spec_fits()
}

/// Tells whether encoding keeps every operand of the program. Encoding does
/// not refuse an operand that is negative or wider than 56 bits: it stores
/// the low 56 bits. A caller that cannot accept that asks here first.
pub fn program_fits(bytecode: &[Instr]) -> (yes: bool)
    ensures
        yes == all_fit(bytecode@),
{
    let mut k: usize = 0;
    while k < bytecode.len()
        invariant
            k <= bytecode@.len(),
            forall|j: int| 0 <= j < k ==> (#[trigger] bytecode@[j]).spec_fits(),
        decreases bytecode@.len() - k,
    {
        if !bytecode[k].fits() {
            return false;
        }
        k = k + 1;
    }
    true
}

/// Writes a program out as bytes: eight for every instruction, the opcode
/// first. Reading the bytes back gives the same opcodes, and the operands
/// modulo `2^56`; so a program whose operands all fit comes back unchanged.
pub fn encode_instructions(bytecode: &[Instr]) -> (bytes: Vec<u8>)
    ensures
        bytes@ == encode_spec(bytecode@),
        bytes@.len() == 8 * bytecode@.len(),
        decode_spec(bytes@) == Ok::<Seq<Instr>, InterpreterError>(
            bytecode@.map_values(|i: Instr| i.truncated()),
        ),
        all_fit(bytecode@) ==> decode_spec(bytes@) == Ok::<Seq<Instr>, InterpreterError>(
            bytecode@,
        ),
{
    let mut bytes: Vec<u8> = Vec::new();
    let mut i: usize = 0;
    while i < bytecode.len()
        invariant
            i <= bytecode.len(),
            bytes@ == encode_spec(bytecode@.take(i as int)),
        decreases bytecode.len() - i,
    {
        let word: u64 = bytecode[i].to_u64();
        let ghost before = bytes@;
        bytes.push((word >> 56) as u8);
        bytes.push((word >> 48) as u8);
        bytes.push((word >> 40) as u8);
        bytes.push((word >> 32) as u8);
        bytes.push((word >> 24) as u8);
        bytes.push((word >> 16) as u8);
        bytes.push((word >> 8) as u8);
        bytes.push(word as u8);
        proof {
            let next = bytecode@.take(i + 1);
            assert(next.drop_last() =~= bytecode@.take(i as int));
            assert(next.last() == bytecode@[i as int]);
            assert(bytes@ =~= before + be_bytes(word));
        }
        i = i + 1;
    }
    proof {
        assert(bytecode@.take(i as int) =~= bytecode@);
        lemma_encode_len(bytecode@);
        lemma_decode_of_encode(bytecode@);
        if all_fit(bytecode@) {
            lemma_decode_of_encode_exact(bytecode@);
        }
    }
    bytes
}

/// Reads a program back from bytes.
pub fn decode_instructions(bytes: Vec<u8>) -> (result: Result<Vec<Instr>, InterpreterError>)
    ensures
        match result {
            Ok(program) => decode_spec(bytes@) == Ok::<Seq<Instr>, InterpreterError>(program@),
            Err(e) => decode_spec(bytes@) == Err::<Seq<Instr>, InterpreterError>(e),
        },
        result matches Ok(program) ==> 8 * program@.len() == bytes@.len(),
{
    proof {
        lemma_decode_succeeds_iff(bytes@);
    }
    if bytes.len() % INSTR_SIZE != 0 {
        return Err(InterpreterError::InvalidNumberOfBytes(bytes.len()));
    }
    let count: usize = bytes.len() / INSTR_SIZE;
    let mut program: Vec<Instr> = Vec::new();
    let mut k: usize = 0;
    while k < count
        invariant
            k <= count,
            count == bytes@.len() / 8,
            bytes@.len() % 8 == 0,
            decode_chunks(bytes@, k as nat) == Ok::<Seq<Instr>, InterpreterError>(program@),
        decreases count - k,
    {
        let at: usize = k * INSTR_SIZE;
        let word: u64 = (bytes[at] as u64) << 56 | (bytes[at + 1] as u64) << 48 | (bytes[at + 2] as u64)
            << 40 | (bytes[at + 3] as u64) << 32 | (bytes[at + 4] as u64) << 24 | (bytes[at + 5] as u64)
            << 16 | (bytes[at + 6] as u64) << 8 | (bytes[at + 7] as u64);
        proof {
            let group = chunk(bytes@, k as int);
            assert(group.len() == 8);
            assert(group[0] == bytes@[at as int]);
            assert(group[1] == bytes@[at + 1]);
            assert(group[2] == bytes@[at + 2]);
            assert(group[3] == bytes@[at + 3]);
            assert(group[4] == bytes@[at + 4]);
            assert(group[5] == bytes@[at + 5]);
            assert(group[6] == bytes@[at + 6]);
            assert(group[7] == bytes@[at + 7]);
            assert(word == from_be_bytes(group));
        }
        match Instr::from_u64(word) {
            Some(instr) => {
                program.push(instr);
            },
            None => {
                proof {
                    lemma_decode_chunks_fails_on(bytes@, (k + 1) as nat, count as nat);
                }
                return Err(InterpreterError::UnknownOpcode(bytes[at]));
            },
        }
        k = k + 1;
    }
    Ok(program)
}

/// Once a group has failed to decode, more groups do not change the fault.
pub proof fn lemma_decode_chunks_fails_on(bytes: Seq<u8>, count: nat, more: nat)
    requires
        count <= more,
        decode_chunks(bytes, count) is Err,
    ensures
        decode_chunks(bytes, more) == decode_chunks(bytes, count),
    decreases more,
{
    if count < more {
        lemma_decode_chunks_fails_on(bytes, count, (more - 1) as nat);
    }
}

} // verus!
