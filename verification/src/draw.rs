//! Sprite drawing: each bit of an `n`-byte sprite is XORed onto the
//! 64 by 32 framebuffer, wrapping at both screen edges, and a collision
//! is reported when any lit pixel is turned off.

use vstd::prelude::*;
use vstd::arithmetic::div_mod::lemma_fundamental_div_mod;
use vstd::arithmetic::div_mod::lemma_fundamental_div_mod_converse;
use crate::machine::Emulator;
use crate::machine::MachineView;

verus! {

/// Whether bit `k` of `b` is set, counting from the most significant bit,
/// so that bit 0 is the leftmost pixel of a sprite row.
pub open spec fn bit_set(b: u8, k: int) -> bool {
    if k == 0 { b / 128 % 2 == 1 }
    else if k == 1 { b / 64 % 2 == 1 }
    else if k == 2 { b / 32 % 2 == 1 }
    else if k == 3 { b / 16 % 2 == 1 }
    else if k == 4 { b / 8 % 2 == 1 }
    else if k == 5 { b / 4 % 2 == 1 }
    else if k == 6 { b / 2 % 2 == 1 }
    else if k == 7 { b % 2 == 1 }
    else { false }
}

/// Whether sprite bit `b` of sprite row `r` lands on pixel `(px, py)` and
/// is set: the sprite starts at `(x0, y0)`, reads its rows from memory at
/// `i`, and wraps toroidally at both screen edges.
pub open spec fn pair_hits(ram: Seq<u8>, i: int, x0: int, y0: int, r: int, b: int, px: int, py: int) -> bool {
    py == (y0 + r) % 32 && px == (x0 + b) % 64 && bit_set(ram[i + r], b)
}

/// Whether any set sprite bit strictly before row `r_lim`, bit `b_lim` in
/// drawing order lands on pixel `(px, py)`.
pub open spec fn sprite_hits_upto(ram: Seq<u8>, i: int, x0: int, y0: int, r_lim: int, b_lim: int, px: int, py: int) -> bool {
    exists|r: int, b: int|
        0 <= r && 0 <= b < 8 && (r < r_lim || (r == r_lim && b < b_lim))
        && pair_hits(ram, i, x0, y0, r, b, px, py)
}

/// Whether some set bit of the whole `n`-row sprite lands on pixel `(px, py)`.
pub open spec fn sprite_covers(ram: Seq<u8>, i: int, x0: int, y0: int, n: int, px: int, py: int) -> bool {
    sprite_hits_upto(ram, i, x0, y0, n, 0, px, py)
}

/// The framebuffer after the sprite is XORed on: a pixel is flipped
/// exactly when a set sprite bit lands on it.
pub open spec fn draw_screen(screen: Seq<bool>, ram: Seq<u8>, i: int, x0: int, y0: int, n: int) -> Seq<bool> {
    Seq::new(screen.len(), |idx: int| screen[idx] != sprite_covers(ram, i, x0, y0, n, idx % 64, idx / 64))
}

/// Whether the draw turns any lit pixel off: the collision flag.
pub open spec fn draw_collision(screen: Seq<bool>, ram: Seq<u8>, i: int, x0: int, y0: int, n: int) -> bool {
    exists|idx: int| 0 <= idx < screen.len() && #[trigger] screen[idx]
        && sprite_covers(ram, i, x0, y0, n, idx % 64, idx / 64)
}

/// Two distinct residues stay distinct after taking them modulo `m` when
/// they lie less than `m` apart.
proof fn lemma_mod_distinct(a: int, b: int, m: int)
    requires
        m > 0,
        0 <= a < b,
        b - a < m,
    ensures
        a % m != b % m,
{
    lemma_fundamental_div_mod(a, m);
    lemma_fundamental_div_mod(b, m);
    if a % m == b % m {
        let k = b / m - a / m;
        assert(b - a == m * k) by (nonlinear_arith)
            requires
                a == m * (a / m) + a % m,
                b == m * (b / m) + b % m,
                a % m == b % m,
                k == b / m - a / m,
        ;
        assert(k >= 1 ==> m * k >= m) by (nonlinear_arith)
            requires m > 0,
        ;
        assert(k <= 0 ==> m * k <= 0) by (nonlinear_arith)
            requires m > 0,
        ;
    }
}

/// Distinct sprite bits of one sprite land on distinct pixels: the sprite
/// is at most fifteen rows of eight bits, narrower than both screen
/// dimensions, so neither coordinate wraps onto itself.
proof fn lemma_pair_targets_distinct(x0: int, y0: int, r1: int, b1: int, r2: int, b2: int)
    requires
        x0 >= 0,
        y0 >= 0,
        0 <= r1 < 32,
        0 <= r2 < 32,
        0 <= b1 < 8,
        0 <= b2 < 8,
        r1 != r2 || b1 != b2,
    ensures
        (y0 + r1) % 32 != (y0 + r2) % 32 || (x0 + b1) % 64 != (x0 + b2) % 64,
{
    if r1 != r2 {
        if r1 < r2 {
            lemma_mod_distinct(y0 + r1, y0 + r2, 32);
        } else {
            lemma_mod_distinct(y0 + r2, y0 + r1, 32);
        }
    } else {
        if b1 < b2 {
            lemma_mod_distinct(x0 + b1, x0 + b2, 64);
        } else {
            lemma_mod_distinct(x0 + b2, x0 + b1, 64);
        }
    }
}

/// Reads bit `k` of `b`, counting from the most significant bit.
fn get_bit(b: u8, k: usize) -> (r: bool)
    requires
        k < 8,
    ensures
        r == bit_set(b, k as int),
{
    if k == 0 { b / 128 % 2 == 1 }
    else if k == 1 { b / 64 % 2 == 1 }
    else if k == 2 { b / 32 % 2 == 1 }
    else if k == 3 { b / 16 % 2 == 1 }
    else if k == 4 { b / 8 % 2 == 1 }
    else if k == 5 { b / 4 % 2 == 1 }
    else if k == 6 { b / 2 % 2 == 1 }
    else { b % 2 == 1 }
}

impl Emulator {
    /// Draws the `n`-byte sprite at memory `index_register` with its top
    /// left corner at `(vx, vy)`, XORing each set bit onto the screen and
    /// wrapping at both edges, then writes the collision flag to `VF`.
    pub(crate) fn exec_draw(&mut self, vx: u8, vy: u8, n: u16)
        requires
            old(self).wf(),
            n <= 15,
            old(self)@.index + n <= 4096,
        ensures
            final(self).wf(),
            final(self)@ == (MachineView {
                screen: draw_screen(old(self)@.screen, old(self)@.ram, old(self)@.index as int, vx as int, vy as int, n as int),
                regs: old(self)@.regs.update(15, if draw_collision(old(self)@.screen, old(self)@.ram, old(self)@.index as int, vx as int, vy as int, n as int) { 1u8 } else { 0u8 }),
                ..old(self)@
            }),
    {
        let ghost s0 = old(self)@.screen;
        let ghost ram0 = old(self)@.ram;
        let ghost i0 = old(self)@.index as int;
        let ghost x0 = vx as int;
        let ghost y0 = vy as int;
        let i = self.i_registers as usize;
        let nn = n as usize;
        let mut collision = false;
        let mut row: usize = 0;
        while row < nn
            invariant
                old(self).wf(),
                nn == n,
                n <= 15,
                i == i0,
                i0 + n <= 4096,
                x0 == vx as int,
                y0 == vy as int,
                s0.len() == 2048,
                ram0.len() == 4096,
                row <= nn,
                self.ram@ == ram0,
                self.screen@.len() == 2048,
                self.program_counter == old(self).program_counter,
                self.v_registers == old(self).v_registers,
                self.i_registers == old(self).i_registers,
                self.stack_pointer == old(self).stack_pointer,
                self.stack == old(self).stack,
                self.keys == old(self).keys,
                self.delay_timer == old(self).delay_timer,
                self.sound_timer == old(self).sound_timer,
                self.key_wait == old(self).key_wait,
                forall|idx: int| 0 <= idx < 2048 ==>
                    self.screen@[idx] == (#[trigger] s0[idx] != sprite_hits_upto(ram0, i0, x0, y0, row as int, 0, idx % 64, idx / 64)),
                collision == exists|idx: int| 0 <= idx < 2048 && #[trigger] s0[idx]
                    && sprite_hits_upto(ram0, i0, x0, y0, row as int, 0, idx % 64, idx / 64),
            decreases nn - row,
        {
            let byte = self.ram[i + row];
            let mut bit: usize = 0;
            while bit < 8
                invariant
                    old(self).wf(),
                    nn == n,
                    n <= 15,
                    i == i0,
                    i0 + n <= 4096,
                    x0 == vx as int,
                    y0 == vy as int,
                    s0.len() == 2048,
                    ram0.len() == 4096,
                    row < nn,
                    bit <= 8,
                    byte == ram0[i0 + row],
                    self.ram@ == ram0,
                    self.screen@.len() == 2048,
                    self.program_counter == old(self).program_counter,
                    self.v_registers == old(self).v_registers,
                    self.i_registers == old(self).i_registers,
                    self.stack_pointer == old(self).stack_pointer,
                    self.stack == old(self).stack,
                    self.keys == old(self).keys,
                    self.delay_timer == old(self).delay_timer,
                    self.sound_timer == old(self).sound_timer,
                    self.key_wait == old(self).key_wait,
                    forall|idx: int| 0 <= idx < 2048 ==>
                        self.screen@[idx] == (#[trigger] s0[idx] != sprite_hits_upto(ram0, i0, x0, y0, row as int, bit as int, idx % 64, idx / 64)),
                    collision == exists|idx: int| 0 <= idx < 2048 && #[trigger] s0[idx]
                        && sprite_hits_upto(ram0, i0, x0, y0, row as int, bit as int, idx % 64, idx / 64),
                decreases 8 - bit,
            {
                if get_bit(byte, bit) {
                    let px = (vx as usize + bit) % 64;
                    let py = (vy as usize + row) % 32;
                    let idx = py * 64 + px;
                    proof {
                        assert(idx < 2048);
                        lemma_fundamental_div_mod_converse(idx as int, 64, py as int, px as int);
                        assert(idx as int % 64 == px as int);
                        assert(idx as int / 64 == py as int);
                        assert(pair_hits(ram0, i0, x0, y0, row as int, bit as int, px as int, py as int));
                        // No earlier sprite bit lands on this pixel.
                        assert(!sprite_hits_upto(ram0, i0, x0, y0, row as int, bit as int, px as int, py as int)) by {
                            if sprite_hits_upto(ram0, i0, x0, y0, row as int, bit as int, px as int, py as int) {
                                let (r2, b2) = choose|r2: int, b2: int|
                                    0 <= r2 && 0 <= b2 < 8 && (r2 < row as int || (r2 == row as int && b2 < bit as int))
                                    && pair_hits(ram0, i0, x0, y0, r2, b2, px as int, py as int);
                                lemma_pair_targets_distinct(x0, y0, row as int, bit as int, r2, b2);
                            }
                        };
                    }
                    if self.screen[idx] {
                        collision = true;
                    }
                    let cur = self.screen[idx];
                    self.screen.set(idx, !cur);
                    proof {
                        // The screen now reflects the hits up to and including this bit.
                        assert forall|j: int| 0 <= j < 2048 implies
                            self.screen@[j] == (#[trigger] s0[j] != sprite_hits_upto(ram0, i0, x0, y0, row as int, bit as int + 1, j % 64, j / 64)) by {
                            if j == idx as int {
                                assert(sprite_hits_upto(ram0, i0, x0, y0, row as int, bit as int + 1, j % 64, j / 64));
                            } else {
                                lemma_fundamental_div_mod(j, 64);
                                assert(!(j % 64 == px as int && j / 64 == py as int));
                                assert(sprite_hits_upto(ram0, i0, x0, y0, row as int, bit as int + 1, j % 64, j / 64)
                                    == sprite_hits_upto(ram0, i0, x0, y0, row as int, bit as int, j % 64, j / 64)) by {
                                    if sprite_hits_upto(ram0, i0, x0, y0, row as int, bit as int + 1, j % 64, j / 64) {
                                        let pxj: int = j % 64;
                                        let pyj: int = j / 64;
                                        let (r2, b2) = choose|r2: int, b2: int|
                                            0 <= r2 && 0 <= b2 < 8 && (r2 < row as int || (r2 == row as int && b2 < bit as int + 1))
                                            && pair_hits(ram0, i0, x0, y0, r2, b2, pxj, pyj);
                                        if r2 == row as int && b2 == bit as int {
                                            assert(j % 64 == px as int && j / 64 == py as int);
                                        } else {
                                            assert(sprite_hits_upto(ram0, i0, x0, y0, row as int, bit as int, j % 64, j / 64));
                                        }
                                    }
                                };
                            }
                        }
                        // The collision flag likewise.
                        assert(collision == exists|j: int| 0 <= j < 2048 && #[trigger] s0[j]
                            && sprite_hits_upto(ram0, i0, x0, y0, row as int, bit as int + 1, j % 64, j / 64)) by {
                            if collision {
                                if s0[idx as int] && sprite_hits_upto(ram0, i0, x0, y0, row as int, bit as int + 1, idx as int % 64, idx as int / 64) {
                                    assert(exists|j: int| 0 <= j < 2048 && #[trigger] s0[j]
                                        && sprite_hits_upto(ram0, i0, x0, y0, row as int, bit as int + 1, j % 64, j / 64));
                                }
                            } else {
                                assert forall|j: int| 0 <= j < 2048 && #[trigger] s0[j]
                                    implies !sprite_hits_upto(ram0, i0, x0, y0, row as int, bit as int + 1, j % 64, j / 64) by {
                                    if sprite_hits_upto(ram0, i0, x0, y0, row as int, bit as int + 1, j % 64, j / 64) {
                                        let pxj: int = j % 64;
                                        let pyj: int = j / 64;
                                        let (r2, b2) = choose|r2: int, b2: int|
                                            0 <= r2 && 0 <= b2 < 8 && (r2 < row as int || (r2 == row as int && b2 < bit as int + 1))
                                            && pair_hits(ram0, i0, x0, y0, r2, b2, pxj, pyj);
                                        if r2 == row as int && b2 == bit as int {
                                            lemma_fundamental_div_mod(j, 64);
                                            assert(j == idx as int);
                                        }
                                    }
                                };
                            }
                        };
                    }
                } else {
                    proof {
                        // An unset bit lands on no pixel, so nothing changes.
                        assert forall|pxj: int, pyj: int|
                            sprite_hits_upto(ram0, i0, x0, y0, row as int, bit as int + 1, pxj, pyj)
                            == sprite_hits_upto(ram0, i0, x0, y0, row as int, bit as int, pxj, pyj) by {
                            if sprite_hits_upto(ram0, i0, x0, y0, row as int, bit as int + 1, pxj, pyj) {
                                let (r2, b2) = choose|r2: int, b2: int|
                                    0 <= r2 && 0 <= b2 < 8 && (r2 < row as int || (r2 == row as int && b2 < bit as int + 1))
                                    && pair_hits(ram0, i0, x0, y0, r2, b2, pxj, pyj);
                                if r2 == row as int && b2 == bit as int {
                                    assert(bit_set(ram0[i0 + row], bit as int));
                                } else {
                                    assert(sprite_hits_upto(ram0, i0, x0, y0, row as int, bit as int, pxj, pyj));
                                }
                            }
                        }
                    }
                }
                bit = bit + 1;
            }
            proof {
                // Hits up to bit eight of this row are the hits up to bit
                // zero of the next row.
                assert forall|pxj: int, pyj: int|
                    sprite_hits_upto(ram0, i0, x0, y0, row as int + 1, 0, pxj, pyj)
                    == sprite_hits_upto(ram0, i0, x0, y0, row as int, 8, pxj, pyj) by {
                    if sprite_hits_upto(ram0, i0, x0, y0, row as int + 1, 0, pxj, pyj) {
                        let (r2, b2) = choose|r2: int, b2: int|
                            0 <= r2 && 0 <= b2 < 8 && (r2 < row as int + 1 || (r2 == row as int + 1 && b2 < 0))
                            && pair_hits(ram0, i0, x0, y0, r2, b2, pxj, pyj);
                        assert(sprite_hits_upto(ram0, i0, x0, y0, row as int, 8, pxj, pyj));
                    }
                    if sprite_hits_upto(ram0, i0, x0, y0, row as int, 8, pxj, pyj) {
                        let (r2, b2) = choose|r2: int, b2: int|
                            0 <= r2 && 0 <= b2 < 8 && (r2 < row as int || (r2 == row as int && b2 < 8))
                            && pair_hits(ram0, i0, x0, y0, r2, b2, pxj, pyj);
                        assert(sprite_hits_upto(ram0, i0, x0, y0, row as int + 1, 0, pxj, pyj));
                    }
                }
            }
            row = row + 1;
        }
        self.v_registers.set(15, if collision { 1 } else { 0 });
        proof {
            assert(self@.screen =~= draw_screen(s0, ram0, i0, x0, y0, n as int));
        }
    }
}

} // verus!
