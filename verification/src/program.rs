use vstd::prelude::*;
use crate::frame::{out_bit, shift_in, shift_out, ShiftDirection};

verus! {

/// A PIO program: its instruction words and its side-set settings.
pub struct PioProgram {
    pub instructions: Vec<u16>,
    /// Number of side-set bits in each instruction's delay/side-set field.
    pub side_set_bits: u8,
    /// Whether side-set is optional (an enable bit is used).
    pub side_set_optional: bool,
}

/// Opcode of `out` (bits 15..13).
pub const OP_OUT: u16 = 3;
/// Opcode of `in`.
pub const OP_IN: u16 = 2;
/// Opcode of `mov`.
pub const OP_MOV: u16 = 5;
/// Destination or source field value selecting the pins.
pub const PINS: u16 = 0;
/// Destination or source field value selecting scratch register X.
pub const REG_X: u16 = 1;

/// An instruction word of a program with one mandatory side-set bit: the
/// opcode in bits 15..13, the side-set value in bit 12, the delay in bits
/// 11..8 and the operand fields in bits 7..0.
pub open spec fn instruction(opcode: u16, side: u16, delay: u16, operands: u16) -> u16 {
    (opcode * 0x2000 + side * 0x1000 + delay * 0x100 + operands) as u16
}

/// Operands of `out`/`in`: the destination or source in bits 7..5 and the
/// bit count in bits 4..0.
pub open spec fn shift_operands(target: u16, bit_count: u16) -> u16 {
    (target * 0x20 + bit_count) as u16
}

/// Operands of `mov` without an operation: the destination in bits 7..5,
/// the operation (none) in bits 4..3 and the source in bits 2..0.
pub open spec fn mov_operands(destination: u16, source: u16) -> u16 {
    (destination * 0x20 + source) as u16
}

/// The program for clock phase 0 (data captured on the first clock edge):
/// ```text
/// .side_set 1
/// out pins, 1 side 0 [1]
/// in pins, 1  side 1 [1]
/// ```
pub open spec fn spec_program_phase0() -> Seq<u16> {
    seq![
        instruction(OP_OUT, 0, 1, shift_operands(PINS, 1)),
        instruction(OP_IN, 1, 1, shift_operands(PINS, 1)),
    ]
}

/// The program for clock phase 1 (data captured on the second clock edge):
/// ```text
/// .side_set 1
/// out x, 1    side 0
/// mov pins, x side 1 [1]
/// in pins, 1  side 0
/// ```
pub open spec fn spec_program_phase1() -> Seq<u16> {
    seq![
        instruction(OP_OUT, 0, 0, shift_operands(REG_X, 1)),
        instruction(OP_MOV, 1, 1, mov_operands(PINS, REG_X)),
        instruction(OP_IN, 0, 0, shift_operands(PINS, 1)),
    ]
}

/// The program for clock phase 0, assembled.
pub fn program_phase0() -> (program: PioProgram)
    ensures
        program.instructions@ == spec_program_phase0(),
        program.side_set_bits == 1,
        !program.side_set_optional,
{
    let mut instructions: Vec<u16> = Vec::new();
    instructions.push(0x6101u16);
    instructions.push(0x5101u16);
    assert(instructions@ =~= spec_program_phase0());
    PioProgram { instructions, side_set_bits: 1, side_set_optional: false }
}

/// The program for clock phase 1, assembled.
pub fn program_phase1() -> (program: PioProgram)
    ensures
        program.instructions@ == spec_program_phase1(),
        program.side_set_bits == 1,
        !program.side_set_optional,
{
    let mut instructions: Vec<u16> = Vec::new();
    instructions.push(0x6021u16);
    instructions.push(0xb101u16);
    instructions.push(0x4001u16);
    assert(instructions@ =~= spec_program_phase1());
    PioProgram { instructions, side_set_bits: 1, side_set_optional: false }
}

// ---------------------------------------------------------------------------
// What the instructions of the two programs do.

/// The registers and pins that the SPI programs touch, with MISO wired to
/// MOSI.
pub struct PinState {
    /// Output shift register.
    pub osr: u32,
    /// Input shift register.
    pub isr: u32,
    /// Scratch register X.
    pub x: u32,
    /// Level of the MOSI pin (which MISO reads).
    pub mosi: u32,
    /// Side-set value (clock level before inversion) after the last instruction.
    pub clock: u32,
    /// Clock level while MOSI was last written.
    pub clock_at_write: u32,
    /// Clock level while MISO was last sampled.
    pub clock_at_sample: u32,
}

/// The opcode field (bits 15..13).
pub open spec fn opcode(word: u16) -> int {
    word as int / 0x2000
}

/// The side-set bit (bit 12) of a program with one mandatory side-set bit.
pub open spec fn side_bit(word: u16) -> u32 {
    ((word as int / 0x1000) % 2) as u32
}

/// The destination (or, for `in`, source) field (bits 7..5).
pub open spec fn target_field(word: u16) -> int {
    (word as int / 0x20) % 8
}

/// The bit count field of `out`/`in` (bits 4..0).
pub open spec fn bit_count_field(word: u16) -> int {
    word as int % 32
}

/// The operation (bits 4..3) and source (bits 2..0) fields of `mov`.
pub open spec fn mov_operation_field(word: u16) -> int {
    (word as int / 8) % 4
}

pub open spec fn mov_source_field(word: u16) -> int {
    word as int % 8
}

/// One instruction, with both shift registers shifting left: `out pins, 1`,
/// `out x, 1`, `in pins, 1` and `mov pins, x` act as the PIO does; every
/// instruction drives the clock to its side-set bit. Other instructions only
/// set the clock here.
pub open spec fn execute(word: u16, s: PinState) -> PinState {
    let side = side_bit(word);
    let left = ShiftDirection::Left;
    if opcode(word) == OP_OUT && bit_count_field(word) == 1 && target_field(word) == PINS {
        PinState {
            osr: shift_out(s.osr, left),
            mosi: out_bit(s.osr, left),
            clock: side,
            clock_at_write: side,
            ..s
        }
    } else if opcode(word) == OP_OUT && bit_count_field(word) == 1 && target_field(word) == REG_X {
        PinState { osr: shift_out(s.osr, left), x: out_bit(s.osr, left), clock: side, ..s }
    } else if opcode(word) == OP_IN && bit_count_field(word) == 1 && target_field(word) == PINS {
        PinState { isr: shift_in(s.isr, s.mosi, left), clock: side, clock_at_sample: side, ..s }
    } else if opcode(word) == OP_MOV && target_field(word) == PINS && mov_operation_field(word) == 0
        && mov_source_field(word) == REG_X {
        PinState { mosi: s.x, clock: side, clock_at_write: side, ..s }
    } else {
        PinState { clock: side, ..s }
    }
}

/// The state after running the instructions `program` once, in order.
pub open spec fn execute_all(program: Seq<u16>, s: PinState) -> PinState
    decreases program.len(),
{
    if program.len() == 0 {
        s
    } else {
        execute(program.last(), execute_all(program.drop_last(), s))
    }
}

/// The state after the program loop has run `n` times.
pub open spec fn run_loops(program: Seq<u16>, s: PinState, n: nat) -> PinState
    decreases n,
{
    if n == 0 {
        s
    } else {
        execute_all(program, run_loops(program, s, (n - 1) as nat))
    }
}

/// One pass of the program for clock phase 0 sends the top bit of the OSR
/// on MOSI while the clock sits at its idle level, and samples it back into
/// the ISR as the clock makes its first transition.
pub proof fn lemma_phase0_moves_one_bit(s: PinState)
    ensures
        ({
            let e = execute_all(spec_program_phase0(), s);
            let left = ShiftDirection::Left;
            &&& e.osr == shift_out(s.osr, left)
            &&& e.isr == shift_in(s.isr, out_bit(s.osr, left), left)
            &&& e.mosi == out_bit(s.osr, left)
            &&& e.clock_at_write == 0
            &&& e.clock_at_sample == 1
            &&& e.clock == 1
        }),
{
    let p = spec_program_phase0();
    let none = Seq::<u16>::empty();
    assert(p[0] == 0x6101u16 && p[1] == 0x5101u16);
    assert(opcode(p[0]) == OP_OUT && bit_count_field(p[0]) == 1 && target_field(p[0]) == PINS && side_bit(p[0]) == 0);
    assert(opcode(p[1]) == OP_IN && bit_count_field(p[1]) == 1 && target_field(p[1]) == PINS && side_bit(p[1]) == 1);
    assert(p.drop_last().drop_last() =~= none);
    assert(p.drop_last() =~= seq![p[0]]);
    assert(execute_all(none, s) == s);
    let s1 = execute(p[0], s);
    assert(execute_all(p.drop_last(), s) == s1);
    assert(execute_all(p, s) == execute(p[1], s1));
}

/// One pass of the program for clock phase 1 moves the top bit of the OSR
/// to MOSI as the clock makes its first transition, and samples it back into
/// the ISR as the clock returns to its idle level (the second transition).
pub proof fn lemma_phase1_moves_one_bit(s: PinState)
    ensures
        ({
            let e = execute_all(spec_program_phase1(), s);
            let left = ShiftDirection::Left;
            &&& e.osr == shift_out(s.osr, left)
            &&& e.isr == shift_in(s.isr, out_bit(s.osr, left), left)
            &&& e.mosi == out_bit(s.osr, left)
            &&& e.x == out_bit(s.osr, left)
            &&& e.clock_at_write == 1
            &&& e.clock_at_sample == 0
            &&& e.clock == 0
        }),
{
    let p = spec_program_phase1();
    let none = Seq::<u16>::empty();
    assert(p[0] == 0x6021u16 && p[1] == 0xb101u16 && p[2] == 0x4001u16);
    assert(opcode(p[0]) == OP_OUT && bit_count_field(p[0]) == 1 && target_field(p[0]) == REG_X && side_bit(p[0]) == 0);
    assert(opcode(p[1]) == OP_MOV && target_field(p[1]) == PINS && mov_operation_field(p[1]) == 0
        && mov_source_field(p[1]) == REG_X && side_bit(p[1]) == 1);
    assert(opcode(p[2]) == OP_IN && bit_count_field(p[2]) == 1 && target_field(p[2]) == PINS && side_bit(p[2]) == 0);
    assert(p.drop_last().drop_last().drop_last() =~= none);
    assert(p.drop_last().drop_last() =~= seq![p[0]]);
    assert(p.drop_last() =~= seq![p[0], p[1]]);
    assert(execute_all(none, s) == s);
    let s1 = execute(p[0], s);
    assert(execute_all(p.drop_last().drop_last(), s) == s1);
    let s2 = execute(p[1], s1);
    assert(execute_all(p.drop_last(), s) == s2);
    assert(execute_all(p, s) == execute(p[2], s2));
}

} // verus!
