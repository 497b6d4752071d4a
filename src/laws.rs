use crate::cpu::{execute, opcode_at, step, MachineState, MEMORY_SIZE};
use crate::display::{
    draw_collides, draw_fb, lemma_row_step, row_hits, row_toggles, sprite_bit, wrap_row, HEIGHT,
};
use vstd::arithmetic::div_mod::{lemma_small_mod, lemma_sub_mod_noop};
use crate::keyboard::{first_held, lemma_first_held_bound, KEY_COUNT};
use vstd::prelude::*;

verus! {

/// Register index held in bits 8 to 11 of an instruction.
pub open spec fn reg_x(opcode: u16) -> int {
    ((opcode / 256) % 16) as int
}

/// Register index held in bits 4 to 7 of an instruction.
pub open spec fn reg_y(opcode: u16) -> int {
    ((opcode / 16) % 16) as int
}

/// The instruction about to be fetched, for a state whose program counter addresses one.
pub open spec fn next_opcode(s: MachineState) -> u16 {
    opcode_at(s.memory, s.pc as int)
}

/// Whether `s` can fetch a whole instruction whose top and bottom nibbles are `a` and `b`.
pub open spec fn fetches(s: MachineState, a: u16, b: u16) -> bool {
    &&& s.pc + 1 < MEMORY_SIZE
    &&& s.v.len() == 16
    &&& next_opcode(s) / 4096 == a
    &&& next_opcode(s) % 16 == b
}

/// `ADD Vx, Vy` (`8xy4`) leaves `(Vx + Vy) mod 256` in `Vx` and sets `VF` to 1 exactly
/// when the unsigned sum reaches 256 (for `x` other than `F`, whose sum the flag replaces).
pub proof fn add_registers_carries(s: MachineState, entropy: u8)
    requires
        fetches(s, 0x8, 0x4),
        reg_x(next_opcode(s)) != 15,
    ensures
        ({
            let (x, y) = (reg_x(next_opcode(s)), reg_y(next_opcode(s)));
            &&& step(s, entropy) is Ok
            &&& step(s, entropy)->Ok_0.v[x] == (s.v[x] + s.v[y]) % 256
            &&& (step(s, entropy)->Ok_0.v[15] == 1) == (s.v[x] + s.v[y] >= 256)
            &&& (step(s, entropy)->Ok_0.v[15] == 0) == (s.v[x] + s.v[y] < 256)
            &&& step(s, entropy)->Ok_0.pc == s.pc + 2
        }),
{
}

/// `SUB Vx, Vy` (`8xy5`) leaves `(Vx - Vy) mod 256` in `Vx` and sets `VF` to 0 exactly
/// when `Vx < Vy` (a borrow), to 1 otherwise (for `x` other than `F`).
pub proof fn sub_registers_borrows(s: MachineState, entropy: u8)
    requires
        fetches(s, 0x8, 0x5),
        reg_x(next_opcode(s)) != 15,
    ensures
        ({
            let (x, y) = (reg_x(next_opcode(s)), reg_y(next_opcode(s)));
            &&& step(s, entropy) is Ok
            &&& step(s, entropy)->Ok_0.v[x] == (s.v[x] - s.v[y]) % 256
            &&& (step(s, entropy)->Ok_0.v[15] == 0) == (s.v[x] < s.v[y])
            &&& (step(s, entropy)->Ok_0.v[15] == 1) == (s.v[x] >= s.v[y])
            &&& step(s, entropy)->Ok_0.pc == s.pc + 2
        }),
{
}

/// `SHR Vx` (`8xy6`) and `SHL Vx` (`8xyE`) set `VF` to the bit shifted out of `Vx`,
/// whatever `VF` held before, even when `x` is `F`.
pub proof fn shifts_flag_shifted_bit(s: MachineState, entropy: u8)
    requires
        fetches(s, 0x8, 0x6) || fetches(s, 0x8, 0xE),
    ensures
        ({
            let x = reg_x(next_opcode(s));
            &&& step(s, entropy) is Ok
            &&& next_opcode(s) % 16 == 0x6 ==> step(s, entropy)->Ok_0.v[15] == s.v[x] % 2
            &&& next_opcode(s) % 16 == 0xE ==> step(s, entropy)->Ok_0.v[15] == s.v[x] / 128
        }),
{
}

/// `LD Vx, K` (`Fx0A`) waits for a key: while none is held a cycle changes nothing, so
/// the program counter stays on the instruction; once one is held, the cycle stores the
/// lowest held key in `Vx` and moves past the instruction.
pub proof fn wait_for_key_holds_pc(s: MachineState, entropy: u8)
    requires
        fetches(s, 0xF, 0xA),
        reg_y(next_opcode(s)) == 0,
        s.keys.len() == KEY_COUNT,
    ensures
        (forall|k: int| 0 <= k < KEY_COUNT ==> !s.keys[k]) ==> step(s, entropy) == Ok::<
            MachineState,
            crate::cpu::Fault,
        >(s),
        (exists|k: int| 0 <= k < KEY_COUNT && s.keys[k]) ==> {
            let t = step(s, entropy)->Ok_0;
            &&& step(s, entropy) is Ok
            &&& t.pc == s.pc + 2
            &&& t.v[reg_x(next_opcode(s))] < KEY_COUNT
            &&& s.keys[t.v[reg_x(next_opcode(s))] as int]
            &&& forall|k: int| 0 <= k < t.v[reg_x(next_opcode(s))] ==> !s.keys[k]
        },
{
    lemma_first_held_bound(s.keys, 0);
    let op = next_opcode(s);
    assert(op / 4096 == 0xF && (op / 16) % 16 == 0 && op % 16 == 0xA);
    if forall|k: int| 0 <= k < KEY_COUNT ==> !s.keys[k] {
        let t = MachineState { pc: (s.pc + 2) as u16, ..s };
        assert(first_held(t.keys, 0) >= KEY_COUNT);
        assert(execute(t, op, entropy) == Ok::<MachineState, crate::cpu::Fault>(
            MachineState { pc: (t.pc - 2) as u16, ..t },
        ));
    }
}

/// Pixels toggled an odd number of times by drawing `sprite` at `(x, y)`.
pub open spec fn toggled(x: int, y: int, sprite: Seq<u8>, p: int) -> bool
    decreases sprite.len(),
{
    if sprite.len() == 0 {
        false
    } else {
        toggled(x, y, sprite.drop_last(), p) != row_toggles(
            x,
            wrap_row(y, sprite.len() - 1),
            sprite.last(),
            8,
            p,
        )
    }
}

proof fn lemma_draw_is_xor(fb: Seq<bool>, x: int, y: int, sprite: Seq<u8>)
    ensures
        draw_fb(fb, x, y, sprite).len() == fb.len(),
        forall|p: int|
            0 <= p < fb.len() ==> draw_fb(fb, x, y, sprite)[p] == (fb[p] != toggled(
                x,
                y,
                sprite,
                p,
            )),
    decreases sprite.len(),
{
    if sprite.len() > 0 {
        lemma_draw_is_xor(fb, x, y, sprite.drop_last());
    }
}

/// Drawing the same sprite twice at the same place restores every pixel.
pub proof fn draw_twice_restores(fb: Seq<bool>, x: int, y: int, sprite: Seq<u8>)
    ensures
        draw_fb(draw_fb(fb, x, y, sprite), x, y, sprite) == fb,
{
    lemma_draw_is_xor(fb, x, y, sprite);
    lemma_draw_is_xor(draw_fb(fb, x, y, sprite), x, y, sprite);
    assert(draw_fb(draw_fb(fb, x, y, sprite), x, y, sprite) =~= fb);
}

proof fn lemma_row_hits(h: Seq<bool>, x: int, ry: int, row: u8, k: int)
    requires
        h.len() == 2048,
        0 <= ry < HEIGHT,
        0 <= k <= 8,
    ensures
        row_hits(h, x, ry, row, k) == exists|p: int|
            0 <= p < 2048 && #[trigger] row_toggles(x, ry, row, k, p) && h[p],
    decreases k,
{
    if k > 0 {
        lemma_row_hits(h, x, ry, row, k - 1);
        let xc = (x + k - 1) % 64;
        lemma_row_step(x, ry, row, k - 1, xc);
        let target = ry * 64 + xc;
        assert forall|p: int| 0 <= p < 2048 implies #[trigger] row_toggles(x, ry, row, k, p) == (
        row_toggles(x, ry, row, k - 1, p) || (p == target && sprite_bit(row, k - 1))) by {
            if p / 64 == ry && (p % 64 - x) % 64 == k - 1 {
                assert(p == target);
            }
        }
        if row_hits(h, x, ry, row, k) {
            if row_hits(h, x, ry, row, k - 1) {
                let p = choose|p: int|
                    0 <= p < 2048 && #[trigger] row_toggles(x, ry, row, k - 1, p) && h[p];
                assert(row_toggles(x, ry, row, k, p));
            } else {
                assert(row_toggles(x, ry, row, k, target));
            }
        }
        if exists|p: int| 0 <= p < 2048 && #[trigger] row_toggles(x, ry, row, k, p) && h[p] {
            let p = choose|p: int| 0 <= p < 2048 && #[trigger] row_toggles(x, ry, row, k, p) && h[p];
            if !row_toggles(x, ry, row, k - 1, p) {
                assert(p == target);
            } else {
                assert(0 <= p < 2048 && row_toggles(x, ry, row, k - 1, p) && h[p]);
            }
        }
    }
}

proof fn lemma_toggled_rows(x: int, y: int, sprite: Seq<u8>, p: int)
    requires
        toggled(x, y, sprite, p),
    ensures
        exists|j: int| 0 <= j < sprite.len() && p / 64 == #[trigger] wrap_row(y, j),
    decreases sprite.len(),
{
    let n = sprite.len();
    if toggled(x, y, sprite.drop_last(), p) {
        lemma_toggled_rows(x, y, sprite.drop_last(), p);
        let j = choose|j: int| 0 <= j < n - 1 && p / 64 == #[trigger] wrap_row(y, j);
        assert(0 <= j < n && p / 64 == wrap_row(y, j));
    } else {
        assert(p / 64 == wrap_row(y, n - 1));
    }
}

proof fn lemma_rows_distinct(y: int, j: int, k: int)
    requires
        0 <= j < k < HEIGHT,
    ensures
        wrap_row(y, j) != wrap_row(y, k),
{
    lemma_sub_mod_noop(y + k, y + j, 32);
    lemma_small_mod((k - j) as nat, 32);
}

proof fn lemma_collides_iff_lit(g: Seq<bool>, x: int, y: int, sprite: Seq<u8>)
    requires
        g.len() == 2048,
        sprite.len() <= HEIGHT,
    ensures
        draw_collides(g, x, y, sprite) == exists|p: int|
            0 <= p < 2048 && #[trigger] toggled(x, y, sprite, p) && g[p],
    decreases sprite.len(),
{
    let n = sprite.len();
    if n > 0 {
        let rest = sprite.drop_last();
        let ry = wrap_row(y, n - 1);
        let h = draw_fb(g, x, y, rest);
        lemma_collides_iff_lit(g, x, y, rest);
        lemma_draw_is_xor(g, x, y, rest);
        lemma_row_hits(h, x, ry, sprite.last(), 8);
        assert forall|p: int| 0 <= p < 2048 && #[trigger] row_toggles(x, ry, sprite.last(), 8, p)
            implies !toggled(x, y, rest, p) by {
            if toggled(x, y, rest, p) {
                lemma_toggled_rows(x, y, rest, p);
                let j = choose|j: int| 0 <= j < n - 1 && p / 64 == #[trigger] wrap_row(y, j);
                lemma_rows_distinct(y, j, n - 1);
            }
        }
        if draw_collides(g, x, y, sprite) {
            if draw_collides(g, x, y, rest) {
                let p = choose|p: int| 0 <= p < 2048 && #[trigger] toggled(x, y, rest, p) && g[p];
                if row_toggles(x, ry, sprite.last(), 8, p) {
                    assert(!toggled(x, y, rest, p));
                }
                assert(toggled(x, y, sprite, p));
            } else {
                let p = choose|p: int|
                    0 <= p < 2048 && #[trigger] row_toggles(x, ry, sprite.last(), 8, p) && h[p];
                assert(toggled(x, y, sprite, p) && g[p]);
            }
        }
        if exists|p: int| 0 <= p < 2048 && #[trigger] toggled(x, y, sprite, p) && g[p] {
            let p = choose|p: int| 0 <= p < 2048 && #[trigger] toggled(x, y, sprite, p) && g[p];
            if toggled(x, y, rest, p) {
                assert(draw_collides(g, x, y, rest));
            } else {
                assert(row_toggles(x, ry, sprite.last(), 8, p) && h[p]);
            }
        }
    }
}

/// Drawing the same sprite (of at most `HEIGHT` rows) a second time at the same place
/// collides exactly when the first drawing turned on some pixel.
pub proof fn redraw_collides_on_lit_pixels(fb: Seq<bool>, x: int, y: int, sprite: Seq<u8>)
    requires
        fb.len() == 2048,
        sprite.len() <= HEIGHT,
    ensures
        draw_collides(draw_fb(fb, x, y, sprite), x, y, sprite) == exists|p: int|
            0 <= p < 2048 && !fb[p] && #[trigger] draw_fb(fb, x, y, sprite)[p],
{
    let g = draw_fb(fb, x, y, sprite);
    lemma_draw_is_xor(fb, x, y, sprite);
    lemma_collides_iff_lit(g, x, y, sprite);
    if draw_collides(g, x, y, sprite) {
        let p = choose|p: int| 0 <= p < 2048 && #[trigger] toggled(x, y, sprite, p) && g[p];
        assert(!fb[p] && g[p]);
    }
    if exists|p: int| 0 <= p < 2048 && !fb[p] && #[trigger] draw_fb(fb, x, y, sprite)[p] {
        let p = choose|p: int| 0 <= p < 2048 && !fb[p] && #[trigger] draw_fb(fb, x, y, sprite)[p];
        assert(toggled(x, y, sprite, p) && g[p]);
    }
}

} // verus!
