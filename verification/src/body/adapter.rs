//! The adapter: turns the raw 64-bit entropy of a projection into a logic action.
use vstd::prelude::*;

verus! {

/// A logic gate.
#[derive(Debug, Clone, Copy, PartialEq, Eq, Structural)]
pub enum LogicOp {
    And,
    Or,
    Xor,
    Not,
    Identity,
}

/// One logic action: a gate, its two operand registers and its output register.
#[derive(Debug, Clone, Copy, PartialEq, Eq, Structural)]
pub struct ProofAction {
    pub op: LogicOp,
    pub operand_idx_1: usize,
    pub operand_idx_2: usize,
    pub output_idx: usize,
}

/// Gate by remainder modulo 5: And, Or, Xor, Not, Identity.
pub open spec fn op_of_code(code: nat) -> LogicOp {
    let m = code % 5;
    if m == 0 {
        LogicOp::And
    } else if m == 1 {
        LogicOp::Or
    } else if m == 2 {
        LogicOp::Xor
    } else if m == 3 {
        LogicOp::Not
    } else {
        LogicOp::Identity
    }
}

/// The 16-bit field of `x` that starts at bit `shift`.
pub open spec fn field16(x: u64, shift: nat) -> nat {
    ((x as nat) / vstd::arithmetic::power2::pow2(shift)) % 0x1_0000
}

pub struct Adapter;

impl Adapter {
    /// Reads a logic action out of the projection entropy: bits 0-7 are the
    /// opcode, bits 8-23, 24-39 and 40-55 the two operands and the output,
    /// each taken modulo `memory_size`.
    pub fn materialize(discrete_entropy: u64, memory_size: usize) -> (r: ProofAction)
        requires
            memory_size > 0,
        ensures
            r.op == op_of_code((discrete_entropy as nat) % 256),
            r.operand_idx_1 == field16(discrete_entropy, 8) % (memory_size as nat),
            r.operand_idx_2 == field16(discrete_entropy, 24) % (memory_size as nat),
            r.output_idx == field16(discrete_entropy, 40) % (memory_size as nat),
    {
        let op_code = discrete_entropy & 0xFF;
        let f1 = (discrete_entropy >> 8) & 0xFFFF;
        let f2 = (discrete_entropy >> 24) & 0xFFFF;
        let f3 = (discrete_entropy >> 40) & 0xFFFF;
        proof {
            vstd::arithmetic::power2::lemma2_to64();
            vstd::arithmetic::power2::lemma2_to64_rest();
            let x = discrete_entropy;
            assert(x & 0xFF == x % 256) by (bit_vector);
            assert((x >> 8) & 0xFFFF == (x / 0x100) % 0x1_0000) by (bit_vector);
            assert((x >> 24) & 0xFFFF == (x / 0x100_0000) % 0x1_0000) by (bit_vector);
            assert((x >> 40) & 0xFFFF == (x / 0x100_0000_0000) % 0x1_0000) by (bit_vector);
        }
        let op1 = (f1 as usize) % memory_size;
        let op2 = (f2 as usize) % memory_size;
        let out = (f3 as usize) % memory_size;
        let op = match op_code % 5 {
            0 => LogicOp::And,
            1 => LogicOp::Or,
            2 => LogicOp::Xor,
            3 => LogicOp::Not,
            _ => LogicOp::Identity,
        };
        ProofAction {
            op,
            operand_idx_1: op1,
            operand_idx_2: op2,
            output_idx: out,
        }
    }
}

/// An entropy's logic gate depends on its low byte alone, through the byte's
/// remainder modulo 5: `And, Or, Xor, Not, Identity` for remainders `0..4`.
/// So entropies that agree in `(x mod 256) mod 5` give the same gate, and the
/// five remainders give five different gates.
pub proof fn lemma_gate_of_entropy(x: nat, y: nat)
    ensures
        (x % 256) % 5 == 0 ==> op_of_code(x % 256) == LogicOp::And,
        (x % 256) % 5 == 1 ==> op_of_code(x % 256) == LogicOp::Or,
        (x % 256) % 5 == 2 ==> op_of_code(x % 256) == LogicOp::Xor,
        (x % 256) % 5 == 3 ==> op_of_code(x % 256) == LogicOp::Not,
        (x % 256) % 5 == 4 ==> op_of_code(x % 256) == LogicOp::Identity,
        (op_of_code(x % 256) == op_of_code(y % 256)) <==> ((x % 256) % 5 == (y % 256) % 5),
{
}

} // verus!
