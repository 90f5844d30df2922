//! Laws of the machine: properties that relate several operations or
//! hold of every state, stated over the same specification functions the
//! operations' contracts use, and proved once and for all.

use vstd::prelude::*;
use crate::cpu::exec_fault;
use crate::cpu::exec_post;
use crate::draw::sprite_covers;
use crate::machine::MachineView;
use crate::machine::fresh_view;
use crate::machine::pop_spec;
use crate::machine::pop_value;
use crate::machine::push_spec;
use crate::machine::tick_timers_spec;

verus! {

/// The machine after the addresses of `vals` are pushed in order.
pub open spec fn push_all(m: MachineView, vals: Seq<u16>) -> MachineView
    decreases vals.len(),
{
    if vals.len() == 0 {
        m
    } else {
        push_all(push_spec(m, vals.first()), vals.drop_first())
    }
}

/// The addresses `n` successive pops return, in the order popped.
pub open spec fn pop_all_values(m: MachineView, n: nat) -> Seq<u16>
    decreases n,
{
    if n == 0 {
        Seq::empty()
    } else {
        seq![pop_value(m)] + pop_all_values(pop_spec(m), (n - 1) as nat)
    }
}

/// The machine after `n` successive pops.
pub open spec fn pop_all_state(m: MachineView, n: nat) -> MachineView
    decreases n,
{
    if n == 0 {
        m
    } else {
        pop_all_state(pop_spec(m), (n - 1) as nat)
    }
}

proof fn lemma_push_all_effect(m: MachineView, vals: Seq<u16>)
    requires
        m.stack.len() == 16,
        m.sp + vals.len() <= 16,
    ensures
        push_all(m, vals).sp == m.sp + vals.len(),
        push_all(m, vals).stack.len() == 16,
        forall|k: int| 0 <= k < m.sp ==> push_all(m, vals).stack[k] == #[trigger] m.stack[k],
        forall|j: int| 0 <= j < vals.len() ==> push_all(m, vals).stack[m.sp + j] == #[trigger] vals[j],
    decreases vals.len(),
{
    if vals.len() > 0 {
        let m1 = push_spec(m, vals.first());
        lemma_push_all_effect(m1, vals.drop_first());
        assert forall|k: int| 0 <= k < m.sp implies
            push_all(m, vals).stack[k] == #[trigger] m.stack[k] by {
            assert(push_all(m1, vals.drop_first()).stack[k] == m1.stack[k]);
        }
        assert forall|j: int| 0 <= j < vals.len() implies
            push_all(m, vals).stack[m.sp + j] == #[trigger] vals[j] by {
            if j == 0 {
                assert(push_all(m1, vals.drop_first()).stack[m.sp as int] == m1.stack[m.sp as int]);
            } else {
                assert(push_all(m1, vals.drop_first()).stack[m1.sp + (j - 1)] == vals.drop_first()[j - 1]);
            }
        }
    }
}

proof fn lemma_pop_all_effect(m: MachineView, n: nat)
    requires
        m.stack.len() == 16,
        n <= m.sp,
        m.sp <= 16,
    ensures
        pop_all_state(m, n).sp == m.sp - n,
        pop_all_state(m, n).stack == m.stack,
        pop_all_values(m, n).len() == n,
        forall|j: int| 0 <= j < n ==> #[trigger] pop_all_values(m, n)[j] == m.stack[m.sp - 1 - j],
    decreases n,
{
    if n > 0 {
        lemma_pop_all_effect(pop_spec(m), (n - 1) as nat);
    }
}

/// Law: pushing the addresses of `vals` in order and then popping as many
/// times yields exactly those addresses in reverse order, and returns the
/// stack pointer to its value before the pushes.
pub proof fn lemma_stack_round_trip(m: MachineView, vals: Seq<u16>)
    requires
        m.wf(),
        m.sp + vals.len() <= 16,
    ensures
        pop_all_values(push_all(m, vals), vals.len()) == vals.reverse(),
        pop_all_state(push_all(m, vals), vals.len()).sp == m.sp,
{
    lemma_push_all_effect(m, vals);
    let p = push_all(m, vals);
    lemma_pop_all_effect(p, vals.len());
    assert forall|j: int| 0 <= j < vals.len() implies
        #[trigger] pop_all_values(p, vals.len())[j] == vals.reverse()[j] by {
        assert(pop_all_values(p, vals.len())[j] == p.stack[p.sp - 1 - j]);
        assert(p.stack[m.sp + (vals.len() - 1 - j)] == vals[vals.len() - 1 - j]);
    }
    assert(pop_all_values(p, vals.len()) =~= vals.reverse());
}

/// Law: a machine observed after `reset` and a freshly constructed
/// machine are state-identical; both contracts pin the same fresh state.
pub proof fn lemma_reset_state_identical_to_new(after_reset: MachineView, after_new: MachineView)
    requires
        after_reset == fresh_view(),
        after_new == fresh_view(),
    ensures
        after_reset == after_new,
{
}

/// Law: the clear-display opcode `00E0` never faults, unlights every
/// pixel, and changes no other field, from any well-formed state.
pub proof fn lemma_clear_display(m: MachineView, rnd: u8)
    requires
        m.wf(),
    ensures
        exec_fault(m, 0x00E0) is None,
        exec_post(m, 0x00E0, rnd) == (MachineView { screen: Seq::new(2048, |k: int| false), ..m }),
{
}

/// Law: after return address 1 is pushed, the return opcode `00EE` sets
/// the program counter back to 1 and lowers the stack pointer by one,
/// whatever the program counter held.
pub proof fn lemma_return_restores(m: MachineView, pc0: u16, rnd: u8)
    requires
        m.wf(),
        m.sp < 16,
    ensures
        exec_fault(MachineView { pc: pc0, ..push_spec(m, 1) }, 0x00EE) is None,
        exec_post(MachineView { pc: pc0, ..push_spec(m, 1) }, 0x00EE, rnd).pc == 1,
        exec_post(MachineView { pc: pc0, ..push_spec(m, 1) }, 0x00EE, rnd).sp == m.sp,
{
}

/// Law: the jump opcode `1nnn`, here `0x1234`, sets the program counter
/// to `0x234` from any starting program counter.
pub proof fn lemma_jump_target(m: MachineView, pc0: u16, rnd: u8)
    requires
        m.wf(),
    ensures
        exec_fault(MachineView { pc: pc0, ..m }, 0x1234) is None,
        exec_post(MachineView { pc: pc0, ..m }, 0x1234, rnd).pc == 0x234,
{
}

/// Law: the call opcode `0x2234` from program counter 2 with an empty
/// stack lands on `0x234` with the old program counter in stack slot 0.
pub proof fn lemma_call_pushes_return(m: MachineView, rnd: u8)
    requires
        m.wf(),
        m.pc == 2,
        m.sp == 0,
    ensures
        exec_fault(m, 0x2234) is None,
        exec_post(m, 0x2234, rnd).pc == 0x234,
        exec_post(m, 0x2234, rnd).stack[0] == 2,
        exec_post(m, 0x2234, rnd).sp == 1,
{
}

/// Law: the skip-if-equal opcode `0x3234` from program counter 2 moves
/// to 4 exactly when `V2` holds `0x34`, and stays at 2 otherwise.
pub proof fn lemma_skip_if_equal(m: MachineView, rnd: u8)
    requires
        m.wf(),
        m.pc == 2,
    ensures
        exec_fault(m, 0x3234) is None,
        m.regs[2] == 0x34 ==> exec_post(m, 0x3234, rnd).pc == 4,
        m.regs[2] != 0x34 ==> exec_post(m, 0x3234, rnd).pc == 2,
{
}

/// Law: drawing the same sprite twice at the same location restores every
/// pixel, so pixels the first draw lit are off again; and the second draw
/// reports a collision exactly when the first draw lit some pixel. The
/// coordinate registers must not be `VF`, which the first draw overwrites.
pub proof fn lemma_draw_twice(m: MachineView, op: u16)
    requires
        m.wf(),
        (op / 0x1000) % 16 == 0xD,
        (op / 0x100) % 16 != 15,
        (op / 0x10) % 16 != 15,
        m.index + op % 16 <= 4096,
    ensures
        exec_fault(m, op) is None,
        exec_fault(exec_post(m, op, 0), op) is None,
        exec_post(exec_post(m, op, 0), op, 0).screen == m.screen,
        exec_post(exec_post(m, op, 0), op, 0).regs[15] == 1 <==> (exists|idx: int|
            0 <= idx < 2048 && !(#[trigger] m.screen[idx])
            && sprite_covers(m.ram, m.index as int, m.regs[((op / 0x100) % 16) as int] as int,
                m.regs[((op / 0x10) % 16) as int] as int, (op % 16) as int, idx % 64, idx / 64)),
{
    let x = ((op / 0x100) % 16) as int;
    let y = ((op / 0x10) % 16) as int;
    let i = m.index as int;
    let n = (op % 16) as int;
    let x0 = m.regs[x] as int;
    let y0 = m.regs[y] as int;
    let s0 = m.screen;
    let m1 = exec_post(m, op, 0);
    let s1 = m1.screen;
    assert(m1.regs[x] == m.regs[x]);
    assert(m1.regs[y] == m.regs[y]);
    let m2 = exec_post(m1, op, 0);
    assert forall|idx: int| 0 <= idx < 2048 implies #[trigger] m2.screen[idx] == s0[idx] by {
        assert(s1[idx] == (s0[idx] != sprite_covers(m.ram, i, x0, y0, n, idx % 64, idx / 64)));
    }
    assert(m2.screen =~= s0);
    assert(m2.regs[15] == 1 <==> (exists|idx: int|
        0 <= idx < 2048 && !(#[trigger] s0[idx])
        && sprite_covers(m.ram, i, x0, y0, n, idx % 64, idx / 64))) by {
        if m2.regs[15] == 1 {
            let idx = choose|idx: int| 0 <= idx < 2048 && #[trigger] s1[idx]
                && sprite_covers(m1.ram, i, x0, y0, n, idx % 64, idx / 64);
            assert(!s0[idx] && sprite_covers(m.ram, i, x0, y0, n, idx % 64, idx / 64));
        }
        if exists|idx: int| 0 <= idx < 2048 && !(#[trigger] s0[idx])
            && sprite_covers(m.ram, i, x0, y0, n, idx % 64, idx / 64) {
            let idx = choose|idx: int| 0 <= idx < 2048 && !(#[trigger] s0[idx])
                && sprite_covers(m.ram, i, x0, y0, n, idx % 64, idx / 64);
            assert(s1[idx]);
            assert(0 <= idx < s1.len() && s1[idx]
                && sprite_covers(m1.ram, i, x0, y0, n, idx % 64, idx / 64));
        }
    }
}

/// Law: the add-immediate opcode `7xkk` wraps on 8-bit overflow with no
/// carry flag side effect: adding 1 to `0xFF` yields 0, and `VF` keeps
/// its value whenever it is not itself the destination.
pub proof fn lemma_add_immediate_wraps(m: MachineView, op: u16, rnd: u8)
    requires
        m.wf(),
        (op / 0x1000) % 16 == 7,
        op % 0x100 == 1,
        m.regs[((op / 0x100) % 16) as int] == 0xFF,
    ensures
        exec_fault(m, op) is None,
        exec_post(m, op, rnd).regs[((op / 0x100) % 16) as int] == 0,
        (op / 0x100) % 16 != 15 ==> exec_post(m, op, rnd).regs[15] == m.regs[15],
{
}

/// The machine after `n` timer ticks.
pub open spec fn timers_after(m: MachineView, n: nat) -> MachineView
    decreases n,
{
    if n == 0 {
        m
    } else {
        tick_timers_spec(timers_after(m, (n - 1) as nat))
    }
}

/// Law: however many timer ticks pass, neither timer goes below zero:
/// each counts down by one per tick until it reaches zero and then stays.
pub proof fn lemma_timer_floor(m: MachineView, n: nat)
    ensures
        timers_after(m, n).delay == if n >= m.delay { 0u8 } else { (m.delay - n) as u8 },
        timers_after(m, n).sound == if n >= m.sound { 0u8 } else { (m.sound - n) as u8 },
        timers_after(m, n).delay >= 0,
        timers_after(m, n).sound >= 0,
    decreases n,
{
    if n > 0 {
        lemma_timer_floor(m, (n - 1) as nat);
    }
}

} // verus!
