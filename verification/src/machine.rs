//! The machine state: memory, registers, call stack, timers, framebuffer
//! and key flags, together with the primitive operations on them.

use vstd::prelude::*;
use crate::Fault;

verus! {

/// The mathematical model of a machine: every field of the executable
/// state as a plain value or a sequence.
pub ghost struct MachineView {
    pub pc: u16,
    pub ram: Seq<u8>,
    pub screen: Seq<bool>,
    pub regs: Seq<u8>,
    pub index: u16,
    pub sp: u16,
    pub stack: Seq<u16>,
    pub keys: Seq<bool>,
    pub delay: u8,
    pub sound: u8,
    pub key_wait: Option<u8>,
}

impl MachineView {
    /// Well-formedness: the fixed sizes of the hardware, a stack pointer
    /// within the sixteen slots, and a waited-on register index below 16.
    pub open spec fn wf(self) -> bool {
        &&& self.ram.len() == 4096
        &&& self.screen.len() == 2048
        &&& self.regs.len() == 16
        &&& self.stack.len() == 16
        &&& self.keys.len() == 16
        &&& self.sp <= 16
        &&& match self.key_wait {
            Some(x) => x < 16,
            None => true,
        }
    }
}

/// The built-in bitmap font: sixteen glyphs of five bytes each, one glyph
/// per hexadecimal digit.
pub open spec fn font_seq() -> Seq<u8> {
    seq![
        0xF0u8, 0x90u8, 0x90u8, 0x90u8, 0xF0u8, // 0
        0x20u8, 0x60u8, 0x20u8, 0x20u8, 0x70u8, // 1
        0xF0u8, 0x10u8, 0xF0u8, 0x80u8, 0xF0u8, // 2
        0xF0u8, 0x10u8, 0xF0u8, 0x10u8, 0xF0u8, // 3
        0x90u8, 0x90u8, 0xF0u8, 0x10u8, 0x10u8, // 4
        0xF0u8, 0x80u8, 0xF0u8, 0x10u8, 0xF0u8, // 5
        0xF0u8, 0x80u8, 0xF0u8, 0x90u8, 0xF0u8, // 6
        0xF0u8, 0x10u8, 0x20u8, 0x40u8, 0x40u8, // 7
        0xF0u8, 0x90u8, 0xF0u8, 0x90u8, 0xF0u8, // 8
        0xF0u8, 0x90u8, 0xF0u8, 0x10u8, 0xF0u8, // 9
        0xF0u8, 0x90u8, 0xF0u8, 0x90u8, 0x90u8, // A
        0xE0u8, 0x90u8, 0xE0u8, 0x90u8, 0xE0u8, // B
        0xF0u8, 0x80u8, 0x80u8, 0x80u8, 0xF0u8, // C
        0xE0u8, 0x90u8, 0x90u8, 0x90u8, 0xE0u8, // D
        0xF0u8, 0x80u8, 0xF0u8, 0x80u8, 0xF0u8, // E
        0xF0u8, 0x80u8, 0xF0u8, 0x80u8, 0x80u8, // F
    ]
}

/// Memory with the font written over its first eighty bytes.
pub open spec fn with_font(ram: Seq<u8>) -> Seq<u8> {
    Seq::new(4096, |k: int| if 0 <= k < 80 { font_seq()[k] } else { ram[k] })
}

/// The machine with every field zeroed and the program counter at the
/// start of program space, before the font is loaded.
pub open spec fn blank_view() -> MachineView {
    MachineView {
        pc: 0x200,
        ram: Seq::new(4096, |k: int| 0u8),
        screen: Seq::new(2048, |k: int| false),
        regs: Seq::new(16, |k: int| 0u8),
        index: 0,
        sp: 0,
        stack: Seq::new(16, |k: int| 0u16),
        keys: Seq::new(16, |k: int| false),
        delay: 0,
        sound: 0,
        key_wait: None,
    }
}

/// The state of a freshly constructed machine: everything zeroed, the
/// program counter at 0x200, and the font in the first eighty bytes.
pub open spec fn fresh_view() -> MachineView {
    MachineView { ram: with_font(blank_view().ram), ..blank_view() }
}

/// A push: the value written at the stack pointer, which then rises by one.
pub open spec fn push_spec(m: MachineView, val: u16) -> MachineView {
    MachineView { stack: m.stack.update(m.sp as int, val), sp: (m.sp + 1) as u16, ..m }
}

/// The value a pop returns: the most recently pushed address.
pub open spec fn pop_value(m: MachineView) -> u16 {
    m.stack[m.sp - 1]
}

/// A pop: the stack pointer falls by one; the slots keep their contents.
pub open spec fn pop_spec(m: MachineView) -> MachineView {
    MachineView { sp: (m.sp - 1) as u16, ..m }
}

/// One timer step on a single counter: down by one, floored at zero.
pub open spec fn timer_dec(t: u8) -> u8 {
    if t > 0 { (t - 1) as u8 } else { 0 }
}

/// One timer tick: both counters decremented independently, floored at zero.
pub open spec fn tick_timers_spec(m: MachineView) -> MachineView {
    MachineView { delay: timer_dec(m.delay), sound: timer_dec(m.sound), ..m }
}

/// Memory after a program of `data` is copied in at 0x200.
pub open spec fn loaded_ram(ram: Seq<u8>, data: Seq<u8>) -> Seq<u8> {
    Seq::new(4096, |k: int| if 0x200 <= k < 0x200 + data.len() { data[k - 0x200] } else { ram[k] })
}

/// The CHIP-8 machine: a 4096-byte memory, sixteen 8-bit registers, a
/// 16-bit index register, a sixteen-slot call stack, a 64 by 32 monochrome
/// framebuffer, sixteen key flags, two countdown timers, and the explicit
/// suspended state of the wait-for-key instruction.
#[derive(Debug, PartialEq)]
pub struct Emulator {
    pub program_counter: u16,
    pub ram: Vec<u8>,
    pub screen: Vec<bool>,
    pub v_registers: Vec<u8>,
    pub i_registers: u16,
    pub stack_pointer: u16,
    pub stack: Vec<u16>,
    pub keys: Vec<bool>,
    pub delay_timer: u8,
    pub sound_timer: u8,
    /// `Some(x)` while a wait-for-key instruction is suspended on
    /// register `x`; `None` while the machine runs normally.
    pub key_wait: Option<u8>,
}

impl View for Emulator {
    type V = MachineView;

    open spec fn view(&self) -> MachineView {
        MachineView {
            pc: self.program_counter,
            ram: self.ram@,
            screen: self.screen@,
            regs: self.v_registers@,
            index: self.i_registers,
            sp: self.stack_pointer,
            stack: self.stack@,
            keys: self.keys@,
            delay: self.delay_timer,
            sound: self.sound_timer,
            key_wait: self.key_wait,
        }
    }
}

fn zeroed_bytes(n: usize) -> (r: Vec<u8>)
    ensures
        r@ == Seq::new(n as nat, |k: int| 0u8),
{
    let mut r: Vec<u8> = Vec::new();
    let mut i: usize = 0;
    while i < n
        invariant
            i <= n,
            r@ == Seq::new(i as nat, |k: int| 0u8),
        decreases n - i,
    {
        r.push(0);
        proof {
            assert(r@ =~= Seq::new((i + 1) as nat, |k: int| 0u8));
        }
        i = i + 1;
    }
    r
}

fn zeroed_words(n: usize) -> (r: Vec<u16>)
    ensures
        r@ == Seq::new(n as nat, |k: int| 0u16),
{
    let mut r: Vec<u16> = Vec::new();
    let mut i: usize = 0;
    while i < n
        invariant
            i <= n,
            r@ == Seq::new(i as nat, |k: int| 0u16),
        decreases n - i,
    {
        r.push(0);
        proof {
            assert(r@ =~= Seq::new((i + 1) as nat, |k: int| 0u16));
        }
        i = i + 1;
    }
    r
}

fn cleared_flags(n: usize) -> (r: Vec<bool>)
    ensures
        r@ == Seq::new(n as nat, |k: int| false),
{
    let mut r: Vec<bool> = Vec::new();
    let mut i: usize = 0;
    while i < n
        invariant
            i <= n,
            r@ == Seq::new(i as nat, |k: int| false),
        decreases n - i,
    {
        r.push(false);
        proof {
            assert(r@ =~= Seq::new((i + 1) as nat, |k: int| false));
        }
        i = i + 1;
    }
    r
}

/// The font as an executable value, equal to its specification byte for byte.
fn fontset() -> (r: Vec<u8>)
    ensures
        r@ == font_seq(),
{
    let mut f: Vec<u8> = Vec::new();
    f.push(0xF0); f.push(0x90); f.push(0x90); f.push(0x90); f.push(0xF0);
    f.push(0x20); f.push(0x60); f.push(0x20); f.push(0x20); f.push(0x70);
    f.push(0xF0); f.push(0x10); f.push(0xF0); f.push(0x80); f.push(0xF0);
    f.push(0xF0); f.push(0x10); f.push(0xF0); f.push(0x10); f.push(0xF0);
    f.push(0x90); f.push(0x90); f.push(0xF0); f.push(0x10); f.push(0x10);
    f.push(0xF0); f.push(0x80); f.push(0xF0); f.push(0x10); f.push(0xF0);
    f.push(0xF0); f.push(0x80); f.push(0xF0); f.push(0x90); f.push(0xF0);
    f.push(0xF0); f.push(0x10); f.push(0x20); f.push(0x40); f.push(0x40);
    f.push(0xF0); f.push(0x90); f.push(0xF0); f.push(0x90); f.push(0xF0);
    f.push(0xF0); f.push(0x90); f.push(0xF0); f.push(0x10); f.push(0xF0);
    f.push(0xF0); f.push(0x90); f.push(0xF0); f.push(0x90); f.push(0x90);
    f.push(0xE0); f.push(0x90); f.push(0xE0); f.push(0x90); f.push(0xE0);
    f.push(0xF0); f.push(0x80); f.push(0x80); f.push(0x80); f.push(0xF0);
    f.push(0xE0); f.push(0x90); f.push(0x90); f.push(0x90); f.push(0xE0);
    f.push(0xF0); f.push(0x80); f.push(0xF0); f.push(0x80); f.push(0xF0);
    f.push(0xF0); f.push(0x80); f.push(0xF0); f.push(0x80); f.push(0x80);
    proof {
        assert(f@ =~= font_seq());
    }
    f
}

impl Emulator {
    /// Well-formedness of the executable state, stated over its model.
    pub open spec fn wf(&self) -> bool {
        self@.wf()
    }

    /// A fresh machine: all state zeroed, the program counter at 0x200,
    /// and the font loaded into the first eighty bytes of memory.
    pub fn new() -> (r: Self)
        ensures
            r.wf(),
            r@ == fresh_view(),
    {
        let mut emulator = Self::default_emulator_state();
        emulator.initialize_ram();
        emulator
    }

    /// Returns the machine to the exact state of a freshly constructed one:
    /// no field retains its pre-reset value.
    pub fn reset(&mut self)
        ensures
            final(self).wf(),
            final(self)@ == fresh_view(),
    {
        *self = Self::default_emulator_state();
        self.initialize_ram();
    }

    fn default_emulator_state() -> (r: Self)
        ensures
            r.wf(),
            r@ == blank_view(),
    {
        let r = Self {
            program_counter: 0x200,
            ram: zeroed_bytes(4096),
            screen: cleared_flags(2048),
            v_registers: zeroed_bytes(16),
            i_registers: 0,
            stack_pointer: 0,
            stack: zeroed_words(16),
            keys: cleared_flags(16),
            delay_timer: 0,
            sound_timer: 0,
            key_wait: None,
        };
        proof {
            assert(r@ == blank_view());
        }
        r
    }

    fn initialize_ram(&mut self)
        requires
            old(self).wf(),
        ensures
            final(self).wf(),
            final(self)@ == (MachineView { ram: with_font(old(self)@.ram), ..old(self)@ }),
    {
        let font = fontset();
        let mut k: usize = 0;
        while k < 80
            invariant
                old(self).wf(),
                k <= 80,
                font@ == font_seq(),
                self.ram@.len() == 4096,
                forall|j: int| 0 <= j < 4096 ==>
                    self.ram@[j] == if j < k { font_seq()[j] } else { old(self)@.ram[j] },
                self.program_counter == old(self).program_counter,
                self.screen == old(self).screen,
                self.v_registers == old(self).v_registers,
                self.i_registers == old(self).i_registers,
                self.stack_pointer == old(self).stack_pointer,
                self.stack == old(self).stack,
                self.keys == old(self).keys,
                self.delay_timer == old(self).delay_timer,
                self.sound_timer == old(self).sound_timer,
                self.key_wait == old(self).key_wait,
            decreases 80 - k,
    {
            let b = font[k];
            self.ram.set(k, b);
            k = k + 1;
        }
        proof {
            assert(self@.ram =~= with_font(old(self)@.ram));
        }
    }

    /// Places `val` at the stack pointer, which then rises by one.
    pub fn push(&mut self, val: u16)
        requires
            old(self).wf(),
            old(self)@.sp < 16,
        ensures
            final(self).wf(),
            final(self)@ == push_spec(old(self)@, val),
    {
        let sp = self.stack_pointer as usize;
        self.stack.set(sp, val);
        self.stack_pointer = self.stack_pointer + 1;
    }

    /// Lowers the stack pointer by one and returns the address it covered.
    pub fn pop(&mut self) -> (r: u16)
        requires
            old(self).wf(),
            old(self)@.sp > 0,
        ensures
            final(self).wf(),
            r == pop_value(old(self)@),
            final(self)@ == pop_spec(old(self)@),
    {
        self.stack_pointer = self.stack_pointer - 1;
        self.stack[self.stack_pointer as usize]
    }

    /// Reads the big-endian instruction word at the program counter and
    /// advances the program counter by exactly two. Memory, and every
    /// field but the program counter, is left untouched, whatever the
    /// opcode read.
    pub fn fetch(&mut self) -> (op: u16)
        requires
            old(self).wf(),
            old(self)@.pc + 1 < 4096,
        ensures
            final(self).wf(),
            op == fetched_op(old(self)@),
            final(self)@.ram == old(self)@.ram,
            final(self)@.pc == old(self)@.pc + 2,
            final(self)@ == (MachineView { pc: (old(self)@.pc + 2) as u16, ..old(self)@ }),
    {
        let higher_byte = self.ram[self.program_counter as usize] as u16;
        let lower_byte = self.ram[self.program_counter as usize + 1] as u16;
        let op = higher_byte * 256 + lower_byte;
        self.program_counter = self.program_counter + 2;
        op
    }

    /// Decrements each countdown timer independently, flooring both at zero.
    pub fn tick_timers(&mut self)
        requires
            old(self).wf(),
        ensures
            final(self).wf(),
            final(self)@ == tick_timers_spec(old(self)@),
    {
        if self.delay_timer > 0 {
            self.delay_timer = self.delay_timer - 1;
        }
        if self.sound_timer > 0 {
            self.sound_timer = self.sound_timer - 1;
        }
    }

    /// Copies a program into memory starting at 0x200. Succeeds exactly
    /// when the program fits below the end of memory; a longer program is
    /// rejected with `ProgramTooLarge` and the machine is left unchanged.
    pub fn load_program(&mut self, data: &[u8]) -> (r: Result<(), Fault>)
        requires
            old(self).wf(),
        ensures
            final(self).wf(),
            data@.len() > 4096 - 0x200 ==> r == Err::<(), Fault>(Fault::ProgramTooLarge)
                && final(self)@ == old(self)@,
            data@.len() <= 4096 - 0x200 ==> r == Ok::<(), Fault>(())
                && final(self)@ == (MachineView {
                    ram: loaded_ram(old(self)@.ram, data@),
                    ..old(self)@
                }),
    {
        if data.len() > 4096 - 0x200 {
            return Err(Fault::ProgramTooLarge);
        }
        let mut k: usize = 0;
        while k < data.len()
            invariant
                old(self).wf(),
                k <= data@.len(),
                data@.len() <= 4096 - 0x200,
                self.ram@.len() == 4096,
                forall|j: int| 0 <= j < 4096 ==>
                    self.ram@[j] == if 0x200 <= j < 0x200 + k { data@[j - 0x200] } else { old(self)@.ram[j] },
                self.program_counter == old(self).program_counter,
                self.screen == old(self).screen,
                self.v_registers == old(self).v_registers,
                self.i_registers == old(self).i_registers,
                self.stack_pointer == old(self).stack_pointer,
                self.stack == old(self).stack,
                self.keys == old(self).keys,
                self.delay_timer == old(self).delay_timer,
                self.sound_timer == old(self).sound_timer,
                self.key_wait == old(self).key_wait,
            decreases data@.len() - k,
        {
            let b = data[k];
            self.ram.set(0x200 + k, b);
            k = k + 1;
        }
        proof {
            assert(self@.ram =~= loaded_ram(old(self)@.ram, data@));
        }
        Ok(())
    }

    /// Records a key as pressed or released; the host writes these flags
    /// before a batch of steps or timer ticks.
    pub fn set_key(&mut self, key: usize, pressed: bool)
        requires
            old(self).wf(),
            key < 16,
        ensures
            final(self).wf(),
            final(self)@ == (MachineView { keys: old(self)@.keys.update(key as int, pressed), ..old(self)@ }),
    {
        self.keys.set(key, pressed);
    }

    /// Whether a wait-for-key instruction currently suspends execution.
    pub fn is_waiting_for_key(&self) -> (r: bool)
        ensures
            r == (self@.key_wait is Some),
    {
        self.key_wait.is_some()
    }
}

/// The big-endian instruction word under the program counter.
pub open spec fn fetched_op(m: MachineView) -> u16 {
    (m.ram[m.pc as int] * 256 + m.ram[m.pc as int + 1]) as u16
}

} // verus!
