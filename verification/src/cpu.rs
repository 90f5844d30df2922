//! Decode and execute: the total dispatch over the four nibbles of an
//! instruction word, the per-opcode state transitions, and the
//! fetch-decode-execute step that drives them.

use vstd::prelude::*;
use crate::Fault;
use crate::draw::draw_collision;
use crate::draw::draw_screen;
use crate::machine::Emulator;
use crate::machine::MachineView;
use crate::machine::fetched_op;
use crate::machine::pop_spec;
use crate::machine::pop_value;
use crate::machine::push_spec;

verus! {

/// The first (highest) nibble of an instruction word.
pub open spec fn op_d1(op: u16) -> u16 {
    (op / 0x1000) % 16
}

/// The second nibble: the `x` register operand.
pub open spec fn op_d2(op: u16) -> u16 {
    (op / 0x100) % 16
}

/// The third nibble: the `y` register operand.
pub open spec fn op_d3(op: u16) -> u16 {
    (op / 0x10) % 16
}

/// The fourth (lowest) nibble.
pub open spec fn op_d4(op: u16) -> u16 {
    op % 16
}

/// The low twelve bits: a literal address operand.
pub open spec fn op_nnn(op: u16) -> u16 {
    op % 0x1000
}

/// The low byte: a literal byte operand.
pub open spec fn op_kk(op: u16) -> u8 {
    (op % 0x100) as u8
}

/// A program counter bumped by two, wrapping as the 16-bit register does.
pub open spec fn pc_plus_2(pc: u16) -> u16 {
    ((pc + 2) % 0x10000) as u16
}

/// The machine after the skip-form opcodes: the program counter moves
/// past the next instruction when `cond` holds.
pub open spec fn skip_if(m: MachineView, cond: bool) -> MachineView {
    if cond { MachineView { pc: pc_plus_2(m.pc), ..m } } else { m }
}

/// The register-register ALU family `8xy0..8xy7, 8xyE`. Where an
/// operation yields a carry, borrow or shifted-out bit, that flag is
/// written to `VF` before the result overwrites the destination, so on
/// `x == 0xF` the result wins. Two quirks are fixed here deliberately:
/// the logic operations `8xy1..8xy3` leave `VF` untouched, and the
/// shifts `8xy6`/`8xyE` shift `Vx` in place rather than copying `Vy`.
pub open spec fn alu_post(m: MachineView, x: int, y: int, d4: u16) -> MachineView {
    let vx = m.regs[x];
    let vy = m.regs[y];
    if d4 == 0 {
        MachineView { regs: m.regs.update(x, vy), ..m }
    } else if d4 == 1 {
        MachineView { regs: m.regs.update(x, vx | vy), ..m }
    } else if d4 == 2 {
        MachineView { regs: m.regs.update(x, vx & vy), ..m }
    } else if d4 == 3 {
        MachineView { regs: m.regs.update(x, vx ^ vy), ..m }
    } else if d4 == 4 {
        let flag: u8 = if vx + vy > 255 { 1 } else { 0 };
        MachineView { regs: m.regs.update(15, flag).update(x, ((vx + vy) % 256) as u8), ..m }
    } else if d4 == 5 {
        let flag: u8 = if vx >= vy { 1 } else { 0 };
        MachineView { regs: m.regs.update(15, flag).update(x, ((vx + 256 - vy) % 256) as u8), ..m }
    } else if d4 == 6 {
        let flag: u8 = (vx % 2) as u8;
        MachineView { regs: m.regs.update(15, flag).update(x, (vx / 2) as u8), ..m }
    } else if d4 == 7 {
        let flag: u8 = if vy >= vx { 1 } else { 0 };
        MachineView { regs: m.regs.update(15, flag).update(x, ((vy + 256 - vx) % 256) as u8), ..m }
    } else {
        // d4 == 0xE
        let flag: u8 = (vx / 128) as u8;
        MachineView { regs: m.regs.update(15, flag).update(x, ((vx % 128) * 2) as u8), ..m }
    }
}

/// The fault an instruction raises, or `None` when it executes: the
/// complete fault side of the dispatch table. A faulting instruction
/// leaves the machine unchanged.
pub open spec fn exec_fault(m: MachineView, op: u16) -> Option<Fault> {
    let d1 = op_d1(op);
    let d2 = op_d2(op);
    let d3 = op_d3(op);
    let d4 = op_d4(op);
    let kk = op_kk(op);
    if op == 0 {
        None
    } else if d1 == 0 {
        if d2 == 0 && d3 == 0xE && d4 == 0 {
            None
        } else if d2 == 0 && d3 == 0xE && d4 == 0xE {
            if m.sp == 0 { Some(Fault::StackUnderflow) } else { None }
        } else {
            Some(Fault::UnimplementedOpcode(op))
        }
    } else if d1 == 1 {
        None
    } else if d1 == 2 {
        if m.sp >= 16 { Some(Fault::StackOverflow) } else { None }
    } else if d1 == 3 || d1 == 4 {
        None
    } else if d1 == 5 {
        if d4 == 0 { None } else { Some(Fault::UnimplementedOpcode(op)) }
    } else if d1 == 6 || d1 == 7 {
        None
    } else if d1 == 8 {
        if d4 <= 7 || d4 == 0xE { None } else { Some(Fault::UnimplementedOpcode(op)) }
    } else if d1 == 9 {
        if d4 == 0 { None } else { Some(Fault::UnimplementedOpcode(op)) }
    } else if d1 == 0xA || d1 == 0xB || d1 == 0xC {
        None
    } else if d1 == 0xD {
        if m.index + d4 > 4096 { Some(Fault::OutOfBounds) } else { None }
    } else if d1 == 0xE {
        if kk == 0x9E || kk == 0xA1 { None } else { Some(Fault::UnimplementedOpcode(op)) }
    } else {
        if kk == 0x07 || kk == 0x0A || kk == 0x15 || kk == 0x18 || kk == 0x1E || kk == 0x29 {
            None
        } else if kk == 0x33 {
            if m.index + 3 > 4096 { Some(Fault::OutOfBounds) } else { None }
        } else if kk == 0x55 || kk == 0x65 {
            if m.index + d2 + 1 > 4096 { Some(Fault::OutOfBounds) } else { None }
        } else {
            Some(Fault::UnimplementedOpcode(op))
        }
    }
}

/// Memory after `V0..Vx` are stored at `i`.
pub open spec fn stored_regs(ram: Seq<u8>, regs: Seq<u8>, i: int, x: int) -> Seq<u8> {
    Seq::new(4096, |k: int| if i <= k <= i + x { regs[k - i] } else { ram[k] })
}

/// Registers after `V0..Vx` are loaded from memory at `i`.
pub open spec fn loaded_regs(regs: Seq<u8>, ram: Seq<u8>, i: int, x: int) -> Seq<u8> {
    Seq::new(16, |k: int| if 0 <= k <= x { ram[i + k] } else { regs[k] })
}

/// The binary-coded decimal digits of `Vx` written at `i`, `i+1`, `i+2`.
pub open spec fn bcd_ram(ram: Seq<u8>, i: int, vx: u8) -> Seq<u8> {
    ram.update(i, (vx / 100) as u8).update(i + 1, ((vx / 10) % 10) as u8).update(i + 2, (vx % 10) as u8)
}

/// The machine after one instruction executes: the effect side of the
/// dispatch table, one arm per opcode pattern. `rnd` is the byte the
/// random-number opcode `Cxkk` masks; every other arm ignores it. A
/// faulting instruction leaves the machine as it was.
pub open spec fn exec_post(m: MachineView, op: u16, rnd: u8) -> MachineView {
    let d1 = op_d1(op);
    let d4 = op_d4(op);
    let nnn = op_nnn(op);
    let kk = op_kk(op);
    let x = op_d2(op) as int;
    let y = op_d3(op) as int;
    let vx = m.regs[x];
    let vy = m.regs[y];
    if exec_fault(m, op) is Some {
        m
    } else if op == 0 {
        m
    } else if d1 == 0 && d4 == 0 {
        // 00E0: clear the display.
        MachineView { screen: Seq::new(2048, |k: int| false), ..m }
    } else if d1 == 0 {
        // 00EE: return from a subroutine.
        MachineView { pc: pop_value(m), ..pop_spec(m) }
    } else if d1 == 1 {
        // 1nnn: unconditional jump.
        MachineView { pc: nnn, ..m }
    } else if d1 == 2 {
        // 2nnn: call; the current program counter is pushed.
        MachineView { pc: nnn, ..push_spec(m, m.pc) }
    } else if d1 == 3 {
        skip_if(m, vx == kk)
    } else if d1 == 4 {
        skip_if(m, vx != kk)
    } else if d1 == 5 {
        skip_if(m, vx == vy)
    } else if d1 == 6 {
        MachineView { regs: m.regs.update(x, kk), ..m }
    } else if d1 == 7 {
        // 7xkk: add immediate, wrapping, with no carry flag written.
        MachineView { regs: m.regs.update(x, ((vx + kk) % 256) as u8), ..m }
    } else if d1 == 8 {
        alu_post(m, x, y, d4)
    } else if d1 == 9 {
        skip_if(m, vx != vy)
    } else if d1 == 0xA {
        MachineView { index: nnn, ..m }
    } else if d1 == 0xB {
        MachineView { pc: (nnn + m.regs[0]) as u16, ..m }
    } else if d1 == 0xC {
        MachineView { regs: m.regs.update(x, rnd & kk), ..m }
    } else if d1 == 0xD {
        MachineView {
            screen: draw_screen(m.screen, m.ram, m.index as int, vx as int, vy as int, d4 as int),
            regs: m.regs.update(15, if draw_collision(m.screen, m.ram, m.index as int, vx as int, vy as int, d4 as int) { 1u8 } else { 0u8 }),
            ..m
        }
    } else if d1 == 0xE {
        // Only the low nibble of Vx selects a key.
        if kk == 0x9E {
            skip_if(m, m.keys[vx as int % 16])
        } else {
            skip_if(m, !m.keys[vx as int % 16])
        }
    } else {
        if kk == 0x07 {
            MachineView { regs: m.regs.update(x, m.delay), ..m }
        } else if kk == 0x0A {
            // Fx0A: suspend until a key press; later steps resolve it.
            MachineView { key_wait: Some(x as u8), ..m }
        } else if kk == 0x15 {
            MachineView { delay: vx, ..m }
        } else if kk == 0x18 {
            MachineView { sound: vx, ..m }
        } else if kk == 0x1E {
            MachineView { index: ((m.index + vx) % 0x10000) as u16, ..m }
        } else if kk == 0x29 {
            MachineView { index: (5 * (vx % 16)) as u16, ..m }
        } else if kk == 0x33 {
            MachineView { ram: bcd_ram(m.ram, m.index as int, vx), ..m }
        } else if kk == 0x55 {
            // Fx55/Fx65 leave the index register itself unchanged.
            MachineView { ram: stored_regs(m.ram, m.regs, m.index as int, x), ..m }
        } else {
            MachineView { regs: loaded_regs(m.regs, m.ram, m.index as int, x), ..m }
        }
    }
}

/// An optional fault as the result the step functions return.
pub open spec fn to_result(f: Option<Fault>) -> Result<(), Fault> {
    match f {
        None => Ok(()),
        Some(e) => Err(e),
    }
}

/// The lowest pressed key at or after `start`, if any key is pressed.
pub open spec fn first_pressed(keys: Seq<bool>, start: int) -> Option<int>
    decreases 16 - start,
{
    if start < 0 || start >= 16 {
        None
    } else if keys[start] {
        Some(start)
    } else {
        first_pressed(keys, start + 1)
    }
}

/// A step taken while a wait-for-key instruction is suspended: if some
/// key is pressed, the lowest pressed key index lands in the waited-on
/// register and the machine resumes; otherwise nothing changes.
pub open spec fn wait_step(m: MachineView) -> MachineView {
    match m.key_wait {
        None => m,
        Some(x) => match first_pressed(m.keys, 0) {
            None => m,
            Some(k) => MachineView { regs: m.regs.update(x as int, k as u8), key_wait: None, ..m },
        },
    }
}

/// The fault one whole step raises: fetching outside memory is
/// `OutOfBounds`; a suspended machine never faults.
pub open spec fn tick_fault(m: MachineView) -> Option<Fault> {
    if m.key_wait is Some {
        None
    } else if m.pc + 1 >= 4096 {
        Some(Fault::OutOfBounds)
    } else {
        exec_fault(MachineView { pc: pc_plus_2(m.pc), ..m }, fetched_op(m))
    }
}

/// The machine after one whole step: resolve a suspension, or fetch,
/// advance the program counter by two, and execute. On a fault the
/// instruction has no effect, though the program counter stays advanced.
pub open spec fn tick_post(m: MachineView, rnd: u8) -> MachineView {
    if m.key_wait is Some {
        wait_step(m)
    } else if m.pc + 1 >= 4096 {
        m
    } else {
        exec_post(MachineView { pc: pc_plus_2(m.pc), ..m }, fetched_op(m), rnd)
    }
}

/// Whether a step consults the random byte: only the `Cxkk` opcode does.
pub open spec fn tick_uses_rng(m: MachineView) -> bool {
    m.key_wait is None && m.pc + 1 < 4096 && op_d1(fetched_op(m)) == 0xC
}

/// Relies on `rand::random::<u8>()` for the byte the `Cxkk` opcode
/// masks; nothing is assumed of the value drawn.
#[verifier::external_body]
fn random_byte() -> u8 {
    rand::random::<u8>()
}

impl Emulator {
    /// Decodes and executes one instruction word: the total dispatch of
    /// the instruction set. Exactly the inputs `exec_fault` maps to a
    /// fault return that fault, with the machine unchanged; all others
    /// return `Ok` and move the machine to `exec_post`. Only the opcode
    /// `Cxkk` consults the random byte, so for every other word the
    /// transition is the one with the byte fixed at zero.
    pub fn execute(&mut self, op: u16) -> (r: Result<(), Fault>)
        requires
            old(self).wf(),
        ensures
            final(self).wf(),
            r == to_result(exec_fault(old(self)@, op)),
            op_d1(op) != 0xC ==> final(self)@ == exec_post(old(self)@, op, 0),
            exists|rnd: u8| final(self)@ == exec_post(old(self)@, op, rnd),
    {
        let digit1: u16 = (op / 0x1000) % 16;
        let digit2: u16 = (op / 0x100) % 16;
        let digit3: u16 = (op / 0x10) % 16;
        let digit4: u16 = op % 16;
        let nnn: u16 = op % 0x1000;
        let kk: u8 = (op % 0x100) as u8;
        let x = digit2 as usize;
        let y = digit3 as usize;
        if op == 0 {
            // 0000: an explicitly legal no-op.
            return Ok(());
        }
        if digit1 == 0 {
            if digit2 == 0 && digit3 == 0xE && digit4 == 0 {
                // 00E0: clear the display.
                let mut k: usize = 0;
                while k < 2048
                    invariant
                        old(self).wf(),
                        k <= 2048,
                        self.screen@.len() == 2048,
                        forall|j: int| 0 <= j < 2048 ==>
                            #[trigger] self.screen@[j] == if j < k { false } else { old(self)@.screen[j] },
                        self.program_counter == old(self).program_counter,
                        self.ram == old(self).ram,
                        self.v_registers == old(self).v_registers,
                        self.i_registers == old(self).i_registers,
                        self.stack_pointer == old(self).stack_pointer,
                        self.stack == old(self).stack,
                        self.keys == old(self).keys,
                        self.delay_timer == old(self).delay_timer,
                        self.sound_timer == old(self).sound_timer,
                        self.key_wait == old(self).key_wait,
                    decreases 2048 - k,
                {
                    self.screen.set(k, false);
                    k = k + 1;
                }
                proof {
                    assert(self@.screen =~= Seq::new(2048, |j: int| false));
                }
                return Ok(());
            }
            if digit2 == 0 && digit3 == 0xE && digit4 == 0xE {
                // 00EE: return from a subroutine.
                if self.stack_pointer == 0 {
                    return Err(Fault::StackUnderflow);
                }
                let ret_addr = self.pop();
                self.program_counter = ret_addr;
                return Ok(());
            }
            return Err(Fault::UnimplementedOpcode(op));
        }
        if digit1 == 1 {
            // 1nnn: unconditional jump.
            self.program_counter = nnn;
            return Ok(());
        }
        if digit1 == 2 {
            // 2nnn: call.
            if self.stack_pointer >= 16 {
                return Err(Fault::StackOverflow);
            }
            let pc = self.program_counter;
            self.push(pc);
            self.program_counter = nnn;
            return Ok(());
        }
        if digit1 == 3 {
            if self.v_registers[x] == kk {
                self.skip_instruction();
            }
            return Ok(());
        }
        if digit1 == 4 {
            if self.v_registers[x] != kk {
                self.skip_instruction();
            }
            return Ok(());
        }
        if digit1 == 5 {
            if digit4 != 0 {
                return Err(Fault::UnimplementedOpcode(op));
            }
            if self.v_registers[x] == self.v_registers[y] {
                self.skip_instruction();
            }
            return Ok(());
        }
        if digit1 == 6 {
            self.v_registers.set(x, kk);
            return Ok(());
        }
        if digit1 == 7 {
            // 7xkk: add immediate, wrapping on 8-bit overflow, no carry flag.
            let sum: u16 = self.v_registers[x] as u16 + kk as u16;
            self.v_registers.set(x, (sum % 256) as u8);
            return Ok(());
        }
        if digit1 == 8 {
            let vx = self.v_registers[x];
            let vy = self.v_registers[y];
            if digit4 == 0 {
                self.v_registers.set(x, vy);
            } else if digit4 == 1 {
                self.v_registers.set(x, vx | vy);
            } else if digit4 == 2 {
                self.v_registers.set(x, vx & vy);
            } else if digit4 == 3 {
                self.v_registers.set(x, vx ^ vy);
            } else if digit4 == 4 {
                let sum: u16 = vx as u16 + vy as u16;
                let flag: u8 = if sum > 255 { 1 } else { 0 };
                self.v_registers.set(15, flag);
                self.v_registers.set(x, (sum % 256) as u8);
            } else if digit4 == 5 {
                let flag: u8 = if vx >= vy { 1 } else { 0 };
                let diff: u16 = vx as u16 + 256 - vy as u16;
                self.v_registers.set(15, flag);
                self.v_registers.set(x, (diff % 256) as u8);
            } else if digit4 == 6 {
                let flag: u8 = vx % 2;
                self.v_registers.set(15, flag);
                self.v_registers.set(x, vx / 2);
            } else if digit4 == 7 {
                let flag: u8 = if vy >= vx { 1 } else { 0 };
                let diff: u16 = vy as u16 + 256 - vx as u16;
                self.v_registers.set(15, flag);
                self.v_registers.set(x, (diff % 256) as u8);
            } else if digit4 == 0xE {
                let flag: u8 = vx / 128;
                self.v_registers.set(15, flag);
                self.v_registers.set(x, (vx % 128) * 2);
            } else {
                return Err(Fault::UnimplementedOpcode(op));
            }
            return Ok(());
        }
        if digit1 == 9 {
            if digit4 != 0 {
                return Err(Fault::UnimplementedOpcode(op));
            }
            if self.v_registers[x] != self.v_registers[y] {
                self.skip_instruction();
            }
            return Ok(());
        }
        if digit1 == 0xA {
            self.i_registers = nnn;
            return Ok(());
        }
        if digit1 == 0xB {
            // Bnnn: jump with offset; the sum stays far below 16 bits.
            self.program_counter = nnn + self.v_registers[0] as u16;
            return Ok(());
        }
        if digit1 == 0xC {
            // Cxkk: a random byte masked by the literal.
            let r = random_byte();
            self.v_registers.set(x, r & kk);
            proof {
                assert(self@ == exec_post(old(self)@, op, r));
            }
            return Ok(());
        }
        if digit1 == 0xD {
            // Dxyn: draw a sprite.
            if self.i_registers as usize + digit4 as usize > 4096 {
                return Err(Fault::OutOfBounds);
            }
            let vx = self.v_registers[x];
            let vy = self.v_registers[y];
            self.exec_draw(vx, vy, digit4);
            return Ok(());
        }
        if digit1 == 0xE {
            if kk == 0x9E {
                // Ex9E: skip when key Vx is pressed.
                let key = self.v_registers[x] as usize % 16;
                if self.keys[key] {
                    self.skip_instruction();
                }
                return Ok(());
            }
            if kk == 0xA1 {
                // ExA1: skip when key Vx is not pressed.
                let key = self.v_registers[x] as usize % 16;
                if !self.keys[key] {
                    self.skip_instruction();
                }
                return Ok(());
            }
            return Err(Fault::UnimplementedOpcode(op));
        }
        // digit1 == 0xF
        if kk == 0x07 {
            let d = self.delay_timer;
            self.v_registers.set(x, d);
            return Ok(());
        }
        if kk == 0x0A {
            // Fx0A: suspend until a key press.
            self.key_wait = Some(digit2 as u8);
            return Ok(());
        }
        if kk == 0x15 {
            self.delay_timer = self.v_registers[x];
            return Ok(());
        }
        if kk == 0x18 {
            self.sound_timer = self.v_registers[x];
            return Ok(());
        }
        if kk == 0x1E {
            // Fx1E: the 16-bit index register wraps as the hardware does.
            let sum: u32 = self.i_registers as u32 + self.v_registers[x] as u32;
            self.i_registers = (sum % 0x10000) as u16;
            return Ok(());
        }
        if kk == 0x29 {
            // Fx29: the font glyph of the low nibble of Vx; glyphs are
            // five bytes each from address zero.
            self.i_registers = 5 * (self.v_registers[x] % 16) as u16;
            return Ok(());
        }
        if kk == 0x33 {
            // Fx33: binary-coded decimal of Vx.
            if self.i_registers as usize + 3 > 4096 {
                return Err(Fault::OutOfBounds);
            }
            let i = self.i_registers as usize;
            let vx = self.v_registers[x];
            self.ram.set(i, vx / 100);
            self.ram.set(i + 1, (vx / 10) % 10);
            self.ram.set(i + 2, vx % 10);
            return Ok(());
        }
        if kk == 0x55 {
            // Fx55: store V0..Vx at the index register.
            if self.i_registers as usize + x + 1 > 4096 {
                return Err(Fault::OutOfBounds);
            }
            let i = self.i_registers as usize;
            let mut k: usize = 0;
            while k <= x
                invariant
                    old(self).wf(),
                    x < 16,
                    k <= x + 1,
                    i == old(self)@.index,
                    i + x + 1 <= 4096,
                    self.ram@.len() == 4096,
                    forall|j: int| 0 <= j < 4096 ==>
                        #[trigger] self.ram@[j] == if i <= j < i + k { old(self)@.regs[j - i] } else { old(self)@.ram[j] },
                    self.program_counter == old(self).program_counter,
                    self.screen == old(self).screen,
                    self.v_registers == old(self).v_registers,
                    self.i_registers == old(self).i_registers,
                    self.stack_pointer == old(self).stack_pointer,
                    self.stack == old(self).stack,
                    self.keys == old(self).keys,
                    self.delay_timer == old(self).delay_timer,
                    self.sound_timer == old(self).sound_timer,
                    self.key_wait == old(self).key_wait,
                decreases x + 1 - k,
            {
                let b = self.v_registers[k];
                self.ram.set(i + k, b);
                k = k + 1;
            }
            proof {
                assert(self@.ram =~= stored_regs(old(self)@.ram, old(self)@.regs, old(self)@.index as int, x as int));
            }
            return Ok(());
        }
        if kk == 0x65 {
            // Fx65: load V0..Vx from the index register.
            if self.i_registers as usize + x + 1 > 4096 {
                return Err(Fault::OutOfBounds);
            }
            let i = self.i_registers as usize;
            let mut k: usize = 0;
            while k <= x
                invariant
                    old(self).wf(),
                    x < 16,
                    k <= x + 1,
                    i == old(self)@.index,
                    i + x + 1 <= 4096,
                    self.v_registers@.len() == 16,
                    forall|j: int| 0 <= j < 16 ==>
                        #[trigger] self.v_registers@[j] == if 0 <= j < k { old(self)@.ram[i + j] } else { old(self)@.regs[j] },
                    self.program_counter == old(self).program_counter,
                    self.screen == old(self).screen,
                    self.ram == old(self).ram,
                    self.i_registers == old(self).i_registers,
                    self.stack_pointer == old(self).stack_pointer,
                    self.stack == old(self).stack,
                    self.keys == old(self).keys,
                    self.delay_timer == old(self).delay_timer,
                    self.sound_timer == old(self).sound_timer,
                    self.key_wait == old(self).key_wait,
                decreases x + 1 - k,
            {
                let b = self.ram[i + k];
                self.v_registers.set(k, b);
                k = k + 1;
            }
            proof {
                assert(self@.regs =~= loaded_regs(old(self)@.regs, old(self)@.ram, old(self)@.index as int, x as int));
            }
            return Ok(());
        }
        Err(Fault::UnimplementedOpcode(op))
    }

    /// Moves the program counter past the next instruction, wrapping as
    /// the 16-bit register does.
    fn skip_instruction(&mut self)
        requires
            old(self).wf(),
        ensures
            final(self).wf(),
            final(self)@ == (MachineView { pc: pc_plus_2(old(self)@.pc), ..old(self)@ }),
    {
        let bumped: u32 = self.program_counter as u32 + 2;
        self.program_counter = (bumped % 0x10000) as u16;
    }

    /// One whole step: while a wait-for-key instruction is suspended, only
    /// re-check the keys; otherwise fetch the instruction word under the
    /// program counter, advance it by two, and execute the word. Faults
    /// are returned, never swallowed: `OutOfBounds` when the fetch would
    /// read past memory, and whatever the instruction itself raises.
    #[verifier::rlimit(50)]
    pub fn tick(&mut self) -> (r: Result<(), Fault>)
        requires
            old(self).wf(),
        ensures
            final(self).wf(),
            r == to_result(tick_fault(old(self)@)),
            !tick_uses_rng(old(self)@) ==> final(self)@ == tick_post(old(self)@, 0),
            exists|rnd: u8| final(self)@ == tick_post(old(self)@, rnd),
    {
        match self.key_wait {
            Some(wait_reg) => {
                let mut k: usize = 0;
                while k < 16
                    invariant
                        old(self).wf(),
                        k <= 16,
                        old(self)@.key_wait == Some(wait_reg),
                        *self == *old(self),
                        forall|j: int| 0 <= j < k ==> !(#[trigger] old(self)@.keys[j]),
                    decreases 16 - k,
                {
                    if self.keys[k] {
                        proof {
                            lemma_first_pressed_scan(old(self)@.keys, k as int);
                        }
                        self.v_registers.set(wait_reg as usize, k as u8);
                        self.key_wait = None;
                        return Ok(());
                    }
                    k = k + 1;
                }
                proof {
                    lemma_first_pressed_none(old(self)@.keys, 0);
                }
                Ok(())
            }
            None => {
                if self.program_counter as usize + 1 >= 4096 {
                    return Err(Fault::OutOfBounds);
                }
                let op = self.fetch();
                let r = self.execute(op);
                proof {
                    let m1 = MachineView { pc: pc_plus_2(old(self)@.pc), ..old(self)@ };
                    let opg = fetched_op(old(self)@);
                    let rnd = choose|rnd: u8| self@ == #[trigger] exec_post(m1, opg, rnd);
                    assert(self@ == tick_post(old(self)@, rnd));
                }
                r
            }
        }
    }
}

/// When every key below `k` is up and key `k` is down, the scan from
/// zero finds exactly key `k`.
proof fn lemma_first_pressed_scan(keys: Seq<bool>, k: int)
    requires
        keys.len() == 16,
        0 <= k < 16,
        keys[k],
        forall|j: int| 0 <= j < k ==> !keys[j],
    ensures
        first_pressed(keys, 0) == Some(k),
{
    lemma_first_pressed_skip(keys, 0, k);
}

/// Scanning from `s` skips over released keys up to `k`.
proof fn lemma_first_pressed_skip(keys: Seq<bool>, s: int, k: int)
    requires
        keys.len() == 16,
        0 <= s <= k < 16,
        keys[k],
        forall|j: int| s <= j < k ==> !keys[j],
    ensures
        first_pressed(keys, s) == Some(k),
    decreases k - s,
{
    if s < k {
        lemma_first_pressed_skip(keys, s + 1, k);
    }
}

/// When every key at or after `s` is up, the scan from `s` finds none.
proof fn lemma_first_pressed_none(keys: Seq<bool>, s: int)
    requires
        keys.len() == 16,
        0 <= s,
        forall|j: int| s <= j < 16 ==> !keys[j],
    ensures
        first_pressed(keys, s) is None,
    decreases 16 - s,
{
    if s < 16 {
        lemma_first_pressed_none(keys, s + 1);
    }
}

} // verus!
