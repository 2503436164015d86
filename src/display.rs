use vstd::prelude::*;
use vstd::arithmetic::div_mod::{lemma_add_mod_noop, lemma_fundamental_div_mod, lemma_mod_mod};

verus! {

/// Width of the framebuffer, in pixels.
pub const DISPLAY_WIDTH: usize = 64;

/// Height of the framebuffer, in pixels.
pub const DISPLAY_HEIGHT: usize = 32;

/// Number of pixels of the framebuffer.
pub const DISPLAY_SIZE: usize = 2048;

/// A framebuffer with every pixel off.
pub open spec fn blank_pixels() -> Seq<bool> {
    Seq::new(DISPLAY_SIZE as nat, |k: int| false)
}

/// Row-major index of the pixel at column `x`, row `y`, both taken modulo the
/// framebuffer's size.
pub open spec fn pixel_index(x: int, y: int) -> int {
    x % 64 + (y % 32) * 64
}

/// Bit `j` of `b`, counting from the most significant bit.
pub open spec fn bit_at(b: u8, j: u8) -> bool {
    (b >> (7 - j) as u8) & 1u8 == 1u8
}

/// The pixel touched by the `k`-th bit of a sprite drawn at (`x`, `y`): row
/// `k / 8` of the sprite, column `k % 8` of that row.
pub open spec fn draw_target(x: u8, y: u8, k: int) -> int {
    pixel_index(x + k % 8, y + k / 8)
}

/// The `k`-th bit of `sprite`, row by row, most significant bit first.
pub open spec fn sprite_bit(sprite: Seq<u8>, k: int) -> bool {
    bit_at(sprite[k / 8], (k % 8) as u8)
}

/// The framebuffer and the collision flag after the first `k` bits of `sprite`
/// were XORed onto `p` at (`x`, `y`). A collision is a pixel that was on and
/// is turned off.
pub open spec fn draw_steps(p: Seq<bool>, x: u8, y: u8, sprite: Seq<u8>, k: nat) -> (Seq<bool>, bool)
    decreases k,
{
    if k == 0 {
        (p, false)
    } else {
        let prev = draw_steps(p, x, y, sprite, (k - 1) as nat);
        let t = draw_target(x, y, k - 1);
        let was_on = prev.0[t];
        let now_on = was_on != sprite_bit(sprite, k - 1);
        (prev.0.update(t, now_on), prev.1 || (was_on && !now_on))
    }
}

/// The framebuffer and the collision flag after `sprite` is drawn on `p` at
/// (`x`, `y`).
pub open spec fn draw_sprite(p: Seq<bool>, x: u8, y: u8, sprite: Seq<u8>) -> (Seq<bool>, bool) {
    draw_steps(p, x, y, sprite, 8 * sprite.len())
}

/// The 64x32 monochrome framebuffer, row-major, row 0 at the top.
#[derive(Debug)]
pub struct Display {
    pub pixels: Vec<bool>,
}

impl Display {
    /// Whether the framebuffer has its fixed size.
    pub open spec fn wf(&self) -> bool {
        self.pixels@.len() == DISPLAY_SIZE
    }

    /// A framebuffer with every pixel off.
    pub fn new() -> (r: Self)
        ensures
            r.wf(),
            r.pixels@ == blank_pixels(),
    {
        let mut pixels: Vec<bool> = Vec::new();
        while pixels.len() < DISPLAY_SIZE
            invariant
                pixels@.len() <= DISPLAY_SIZE,
                forall|k: int| 0 <= k < pixels@.len() ==> !pixels@[k],
            decreases DISPLAY_SIZE - pixels@.len(),
        {
            pixels.push(false);
        }
        assert(pixels@ =~= blank_pixels());
        Self { pixels }
    }

    /// The pixels, for a renderer.
    pub fn get_ptr(&self) -> (r: &[bool])
        ensures
            r@ == self.pixels@,
    {
        self.pixels.as_slice()
    }

    /// Turns every pixel off.
    pub fn clear(&mut self)
        ensures
            final(self).wf(),
            final(self).pixels@ == blank_pixels(),
    {
        *self = Display::new();
    }

    /// Index of the pixel at column `x`, row `y`, with both wrapped around.
    pub fn get_index(&self, x: u8, y: u8) -> (r: usize)
        ensures
            r == pixel_index(x as int, y as int),
            r < DISPLAY_SIZE,
    {
        let adjusted_x = x as usize % DISPLAY_WIDTH;
        let adjusted_y = y as usize % DISPLAY_HEIGHT;
        assert(adjusted_y * 64 <= 31 * 64) by (nonlinear_arith)
            requires
                adjusted_y < 32,
        ;
        adjusted_x + adjusted_y * DISPLAY_WIDTH
    }

    /// XORs `sprite` onto the framebuffer with its top-left corner at
    /// (`start_x`, `start_y`), each row a byte, most significant bit leftmost,
    /// wrapping around both edges. Returns 1 when a pixel that was on is turned
    /// off, else 0.
    pub fn draw(&mut self, start_x: u8, start_y: u8, sprite: &[u8]) -> (r: u8)
        requires
            old(self).wf(),
        ensures
            final(self).wf(),
            final(self).pixels@ == draw_sprite(old(self).pixels@, start_x, start_y, sprite@).0,
            r == (if draw_sprite(old(self).pixels@, start_x, start_y, sprite@).1 {
                1u8
            } else {
                0u8
            }),
    {
        let ghost p0 = self.pixels@;
        let mut collision = false;
        let mut i: usize = 0;
        while i < sprite.len()
            invariant
                i <= sprite@.len(),
                self.wf(),
                (self.pixels@, collision) == draw_steps(p0, start_x, start_y, sprite@, (8 * i) as nat),
            decreases sprite@.len() - i,
        {
            let byte = byte_as_bool_array(sprite[i]);
            let y = ((start_y as usize + i % 256) % 256) as u8;
            proof {
                lemma_add_mod_noop(start_y as int, i as int, 256);
            }
            let mut j: usize = 0;
            while j < 8
                invariant
                    i < sprite@.len(),
                    j <= 8,
                    self.wf(),
                    y == (start_y + i) % 256,
                    forall|c: int| 0 <= c < 8 ==> byte@[c] == bit_at(sprite@[i as int], c as u8),
                    (self.pixels@, collision) == draw_steps(p0, start_x, start_y, sprite@, (8 * i + j) as nat),
                decreases 8 - j,
            {
                let x = ((start_x as usize + j) % 256) as u8;
                let pixel_idx = self.get_index(x, y);
                proof {
                    let k = 8 * i + j;
                    assert(k / 8 == i && k % 8 == j) by (nonlinear_arith)
                        requires
                            k == 8 * i + j,
                            j < 8,
                    ;
                    lemma_mod_mod(start_x + j, 64, 4);
                    lemma_mod_mod(start_y + i, 32, 8);
                    assert(pixel_idx == draw_target(start_x, start_y, k as int));
                    assert(byte@[j as int] == sprite_bit(sprite@, k as int));
                }
                let new_pixel = self.pixels[pixel_idx] ^ byte[j];
                if self.pixels[pixel_idx] && !new_pixel {
                    collision = true;
                }
                self.pixels.set(pixel_idx, new_pixel);
                j = j + 1;
            }
            i = i + 1;
        }
        if collision {
            1
        } else {
            0
        }
    }
}

/// The eight bits of `byte`, most significant first.
pub fn byte_as_bool_array(byte: u8) -> (r: [bool; 8])
    ensures
        forall|j: int| 0 <= j < 8 ==> r@[j] == bit_at(byte, j as u8),
{
    let mut bool_array = [false; 8];
    let mut i: u8 = 0;
    while i < 8
        invariant
            i <= 8,
            forall|j: int| 0 <= j < i ==> bool_array@[j] == bit_at(byte, j as u8),
        decreases 8 - i,
    {
        assert((byte & (0x80u8 >> i)) >> (8 - i - 1) as u8 == 1u8 <==> (byte >> (7 - i) as u8) & 1u8
            == 1u8) by (bit_vector)
            requires
                i < 8,
        ;
        bool_array[i as usize] = (byte & (0x80u8 >> i)) >> (8 - i - 1) == 1;
        i = i + 1;
    }
    bool_array
}

/// Whether some bit of the first `k` bits of `sprite` drawn at (`x`, `y`)
/// is set and lands on pixel `t`.
pub open spec fn hits_before(x: u8, y: u8, sprite: Seq<u8>, t: int, k: int) -> bool {
    exists|s: int| 0 <= s < k && #[trigger] draw_target(x, y, s) == t && sprite_bit(sprite, s)
}

/// Whether every bit of `sprite` is clear, so that drawing it changes nothing.
pub open spec fn sprite_is_blank(sprite: Seq<u8>) -> bool {
    forall|s: int| 0 <= s < 8 * sprite.len() ==> !#[trigger] sprite_bit(sprite, s)
}

/// Whether every pixel on which a set bit of `sprite` drawn at (`x`, `y`) lands
/// is off in `p`.
pub open spec fn region_is_off(p: Seq<bool>, x: u8, y: u8, sprite: Seq<u8>) -> bool {
    forall|s: int|
        0 <= s < 8 * sprite.len() && #[trigger] sprite_bit(sprite, s) ==> !p[draw_target(x, y, s)]
}

proof fn lemma_target_in_range(x: u8, y: u8, s: int)
    requires
        0 <= s,
    ensures
        0 <= draw_target(x, y, s) < DISPLAY_SIZE,
{
    let a = (x + s % 8) % 64;
    let b = (y + s / 8) % 32;
    assert(0 <= b * 64 <= 31 * 64) by (nonlinear_arith)
        requires
            0 <= b < 32,
    ;
}

/// Two naturals with the same remainder that are less than `m` apart are equal.
proof fn lemma_mod_close(a: int, b: int, m: int)
    requires
        m > 0,
        0 <= a,
        0 <= b,
        a % m == b % m,
        a - b < m,
        b - a < m,
    ensures
        a == b,
{
    lemma_fundamental_div_mod(a, m);
    lemma_fundamental_div_mod(b, m);
    let q = a / m - b / m;
    assert(a - b == m * q) by (nonlinear_arith)
        requires
            a == m * (a / m) + a % m,
            b == m * (b / m) + b % m,
            a % m == b % m,
            q == a / m - b / m,
    ;
    assert(q == 0) by (nonlinear_arith)
        requires
            m > 0,
            a - b == m * q,
            a - b < m,
            b - a < m,
    ;
}

/// Within 32 rows, distinct bits of a sprite land on distinct pixels.
proof fn lemma_targets_distinct(x: u8, y: u8, s1: int, s2: int)
    requires
        0 <= s1 < 256,
        0 <= s2 < 256,
        s1 != s2,
    ensures
        draw_target(x, y, s1) != draw_target(x, y, s2),
{
    let i1 = s1 / 8;
    let i2 = s2 / 8;
    let j1 = s1 % 8;
    let j2 = s2 % 8;
    let a1 = (x + j1) % 64;
    let a2 = (x + j2) % 64;
    let b1 = (y + i1) % 32;
    let b2 = (y + i2) % 32;
    assert(draw_target(x, y, s1) == a1 + b1 * 64);
    assert(draw_target(x, y, s2) == a2 + b2 * 64);
    if a1 + b1 * 64 == a2 + b2 * 64 {
        assert(a1 == a2 && b1 == b2) by (nonlinear_arith)
            requires
                a1 + b1 * 64 == a2 + b2 * 64,
                0 <= a1 < 64,
                0 <= a2 < 64,
                0 <= b1,
                0 <= b2,
        ;
        lemma_mod_close(x + j1, x + j2, 64);
        lemma_mod_close(y + i1, y + i2, 32);
        lemma_fundamental_div_mod(s1, 8);
        lemma_fundamental_div_mod(s2, 8);
    }
}

/// Drawing a sprite of at most 32 rows, step by step: each touched pixel is
/// flipped once for each set bit, and a collision is a set bit that lands on a
/// pixel that was on.
proof fn lemma_draw_steps_closed_form(p: Seq<bool>, x: u8, y: u8, sprite: Seq<u8>, k: nat)
    requires
        p.len() == DISPLAY_SIZE,
        sprite.len() <= 32,
        k <= 8 * sprite.len(),
    ensures
        draw_steps(p, x, y, sprite, k).0.len() == DISPLAY_SIZE,
        forall|t: int|
            0 <= t < DISPLAY_SIZE ==> #[trigger] draw_steps(p, x, y, sprite, k).0[t] == (p[t]
                != hits_before(x, y, sprite, t, k as int)),
        draw_steps(p, x, y, sprite, k).1 == exists|s: int|
            0 <= s < k && #[trigger] sprite_bit(sprite, s) && p[draw_target(x, y, s)],
    decreases k,
{
    if k > 0 {
        let j = (k - 1) as nat;
        lemma_draw_steps_closed_form(p, x, y, sprite, j);
        let prev = draw_steps(p, x, y, sprite, j);
        let tk = draw_target(x, y, j as int);
        let bk = sprite_bit(sprite, j as int);
        lemma_target_in_range(x, y, j as int);
        assert(!hits_before(x, y, sprite, tk, j as int)) by {
            assert forall|s: int| 0 <= s < j implies #[trigger] draw_target(x, y, s) != tk by {
                lemma_targets_distinct(x, y, s, j as int);
            }
        }
        let cur = draw_steps(p, x, y, sprite, k);
        assert forall|t: int| 0 <= t < DISPLAY_SIZE implies #[trigger] cur.0[t] == (p[t]
            != hits_before(x, y, sprite, t, k as int)) by {
            if t == tk {
                if bk {
                    assert(draw_target(x, y, j as int) == t);
                }
            } else {
                if hits_before(x, y, sprite, t, k as int) {
                    let s = choose|s: int|
                        0 <= s < k && #[trigger] draw_target(x, y, s) == t && sprite_bit(sprite, s);
                    assert(s != j);
                }
            }
        }
        if cur.1 && !prev.1 {
            assert(sprite_bit(sprite, j as int) && p[draw_target(x, y, j as int)]);
        }
        if !cur.1 {
            assert forall|s: int| 0 <= s < k && #[trigger] sprite_bit(sprite, s) implies !p[draw_target(
                x,
                y,
                s,
            )] by {
                if s == j {
                    assert(prev.0[tk] == p[tk]);
                }
            }
        }
    }
}

/// Drawing a sprite of at most 32 rows where all the pixels it would turn on
/// are off reports no collision, and turns on the pixel of each set bit.
pub proof fn lemma_draw_on_clear_region(p: Seq<bool>, x: u8, y: u8, sprite: Seq<u8>)
    requires
        p.len() == DISPLAY_SIZE,
        sprite.len() <= 32,
        region_is_off(p, x, y, sprite),
    ensures
        !draw_sprite(p, x, y, sprite).1,
        forall|s: int|
            0 <= s < 8 * sprite.len() && #[trigger] sprite_bit(sprite, s) ==> draw_sprite(
                p,
                x,
                y,
                sprite,
            ).0[draw_target(x, y, s)],
{
    let k = (8 * sprite.len()) as nat;
    lemma_draw_steps_closed_form(p, x, y, sprite, k);
    assert forall|s: int| 0 <= s < 8 * sprite.len() && #[trigger] sprite_bit(sprite, s) implies draw_sprite(
        p,
        x,
        y,
        sprite,
    ).0[draw_target(x, y, s)] by {
        lemma_target_in_range(x, y, s);
        assert(hits_before(x, y, sprite, draw_target(x, y, s), k as int));
    }
}

/// Drawing the same sprite of at most 32 rows twice at the same place, on a
/// region where its set bits land on pixels that are off, turns those pixels
/// off again and leaves the framebuffer as it was; the second draw reports a
/// collision exactly when the sprite has a set bit.
pub proof fn lemma_draw_twice(p: Seq<bool>, x: u8, y: u8, sprite: Seq<u8>)
    requires
        p.len() == DISPLAY_SIZE,
        sprite.len() <= 32,
        region_is_off(p, x, y, sprite),
    ensures
        draw_sprite(draw_sprite(p, x, y, sprite).0, x, y, sprite).0 == p,
        draw_sprite(draw_sprite(p, x, y, sprite).0, x, y, sprite).1 == !sprite_is_blank(sprite),
{
    let k = (8 * sprite.len()) as nat;
    let p1 = draw_sprite(p, x, y, sprite).0;
    lemma_draw_on_clear_region(p, x, y, sprite);
    lemma_draw_steps_closed_form(p, x, y, sprite, k);
    lemma_draw_steps_closed_form(p1, x, y, sprite, k);
    let p2 = draw_sprite(p1, x, y, sprite).0;
    assert(p2 =~= p);
    if !sprite_is_blank(sprite) {
        let s = choose|s: int| 0 <= s < 8 * sprite.len() && #[trigger] sprite_bit(sprite, s);
        assert(p1[draw_target(x, y, s)]);
    }
}

} // verus!
