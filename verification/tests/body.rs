use evolver::bigint::BigNum;
use evolver::body::adapter::{Adapter, LogicOp, ProofAction};
use evolver::body::projection::Projector;
use evolver::soul::algebra::IdealClass;

fn form(a: i64, b: i64, c: i64) -> IdealClass {
    IdealClass::new(BigNum::from_i64(a), BigNum::from_i64(b), BigNum::from_i64(c))
}

#[test]
fn adapter_reads_opcode_and_registers() {
    let x: u64 = 7 | (5 << 8) | (9 << 24) | (1000 << 40);
    let a = Adapter::materialize(x, 8);
    assert_eq!(
        a,
        ProofAction { op: LogicOp::Xor, operand_idx_1: 5, operand_idx_2: 1, output_idx: 0 }
    );
}

#[test]
fn adapter_opcodes_cycle_modulo_five() {
    let ops: Vec<LogicOp> = (0u64..6).map(|c| Adapter::materialize(c, 1).op).collect();
    assert_eq!(
        ops,
        vec![LogicOp::And, LogicOp::Or, LogicOp::Xor, LogicOp::Not, LogicOp::Identity, LogicOp::And]
    );
    // only the low byte is the opcode: 256 + 1 reads as 1
    assert_eq!(Adapter::materialize(0x101, 1000).op, LogicOp::Or);
    assert_eq!(Adapter::materialize(0x101, 1000).operand_idx_1, 1);
}

#[test]
fn adapter_top_byte_is_ignored() {
    let a = Adapter::materialize(0xFF00_0000_0000_0000, 100);
    assert_eq!(a, Adapter::materialize(0, 100));
    let b = Adapter::materialize(u64::MAX, 65536);
    assert_eq!(b.operand_idx_1, 65535);
    assert_eq!(b.operand_idx_2, 65535);
    assert_eq!(b.output_idx, 65535);
    assert_eq!(b.op, LogicOp::And);
}

#[test]
fn projector_digits_are_in_range_and_deterministic() {
    let p = Projector::new(409);
    assert_eq!(p.p_base, 409);
    let s = form(2, 1, 3);
    let d0 = p.project_exact(&s, 0);
    assert!(d0 < 409);
    assert_eq!(d0, p.project_exact(&form(2, 1, 3), 0));
    assert_eq!(p.digit_of_hash(1000), 1000 % 409);
    assert_eq!(p.digit_of_hash(u64::MAX), u64::MAX % 409);
}

#[test]
fn projection_depends_on_time_and_state() {
    let p = Projector::new(u64::MAX);
    let s = form(2, 1, 3);
    let digits: Vec<u64> = (0..8).map(|t| p.project_exact(&s, t)).collect();
    let mut sorted = digits.clone();
    sorted.sort();
    sorted.dedup();
    assert!(sorted.len() > 1);
    assert_ne!(p.project_exact(&form(2, 1, 3), 3), p.project_exact(&form(2, -1, 3), 3));
}

#[test]
fn projected_sequence_follows_the_squares() {
    let p = Projector::new(97);
    let s = form(2, 1, 3);
    let seq = p.project_sequence(&s, 4);
    assert_eq!(seq.len(), 4);
    assert_eq!(seq[0], p.project_exact(&s, 0));
    assert_eq!(seq[1], p.project_exact(&s.square(), 1));
    assert_eq!(seq[2], p.project_exact(&s.square().square(), 2));
    assert_eq!(seq[3], p.project_exact(&s.square().square().square(), 3));
    assert!(p.project_sequence(&s, 0).is_empty());
}
