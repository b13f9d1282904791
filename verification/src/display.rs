use vstd::prelude::*;

verus! {

/// Number of pixel columns.
pub const WIDTH: u8 = 64;

/// Number of pixel rows.
pub const HEIGHT: u8 = 32;

/// Number of pixels in the grid.
pub const SIZE: usize = 2048;

/// A monochrome pixel grid, stored row by row: the pixel in column `c` of
/// row `r` has index `c + r * 64`.
pub struct DisplayBuffer {
    pixels: [bool; 2048],
}

impl View for DisplayBuffer {
    type V = Seq<bool>;

    closed spec fn view(&self) -> Seq<bool> {
        self.pixels@
    }
}

/// The grid with every pixel unset.
pub open spec fn blank() -> Seq<bool> {
    Seq::new(SIZE as nat, |i: int| false)
}

/// The index of the pixel in column `col` of row `row`.
pub open spec fn pixel_index(col: int, row: int) -> int {
    col + row * 64
}

/// Whether a sprite row has a pixel at `offset` columns from its left
/// edge. The most significant bit of the byte is the leftmost pixel.
pub open spec fn sprite_bit(byte: u8, offset: int) -> bool {
    0 <= offset < 8 && (byte >> ((7 - offset) as u8)) & 1 == 1
}

/// How many columns pixel `i` lies to the right of column `x`, going
/// round the right edge of the grid to its left edge.
pub open spec fn column_offset(x: int, i: int) -> int {
    ((i % 64) - x) % 64
}

/// Whether the first `cols` columns of a sprite row, drawn in row `y` from
/// column `x` on, toggle pixel `i`.
pub open spec fn row_toggles_upto(x: int, y: int, byte: u8, cols: int, i: int) -> bool {
    i / 64 == y && column_offset(x, i) < cols && sprite_bit(byte, column_offset(x, i))
}

/// Whether a sprite row drawn in row `y` from column `x` on toggles
/// pixel `i`.
pub open spec fn row_toggles(x: int, y: int, byte: u8, i: int) -> bool {
    row_toggles_upto(x, y, byte, 8, i)
}

/// The grid row in which row `k` of a sprite anchored in row `y` is
/// drawn: rows past the bottom edge go on from the top.
pub open spec fn wrapped_row(y: int, k: int) -> int {
    (y + k) % 32
}

/// Whether the first `rows` rows of a sprite anchored at `(x, y)` toggle
/// pixel `i` an odd number of times.
pub open spec fn toggled(x: int, y: int, bytes: Seq<u8>, rows: nat, i: int) -> bool
    decreases rows,
{
    if rows == 0 {
        false
    } else {
        toggled(x, y, bytes, (rows - 1) as nat, i) ^ row_toggles(
            x,
            wrapped_row(y, rows - 1),
            bytes[rows - 1],
            i,
        )
    }
}

/// The grid after the first `rows` rows of a sprite were drawn at `(x, y)`.
pub open spec fn drawn_rows(pixels: Seq<bool>, x: int, y: int, bytes: Seq<u8>, rows: nat) -> Seq<
    bool,
> {
    Seq::new(pixels.len(), |i: int| pixels[i] ^ toggled(x, y, bytes, rows, i))
}

/// The grid after a sprite was drawn at `(x, y)`: each pixel is flipped
/// once for each sprite row that covers it with a set bit.
pub open spec fn drawn(pixels: Seq<bool>, x: int, y: int, bytes: Seq<u8>) -> Seq<bool> {
    drawn_rows(pixels, x, y, bytes, bytes.len())
}

/// Whether row `k` of a sprite drawn at `(x, y)` switches pixel `i` off:
/// it toggles the pixel, and the rows before it left the pixel set.
pub open spec fn switches_off(pixels: Seq<bool>, x: int, y: int, bytes: Seq<u8>, k: int, i: int) -> bool {
    row_toggles(x, wrapped_row(y, k), bytes[k], i) && (pixels[i] ^ toggled(
        x,
        y,
        bytes,
        k as nat,
        i,
    ))
}

/// Whether one of the first `rows` rows of a sprite drawn at `(x, y)`
/// switches a pixel off.
pub open spec fn collides_within(
    pixels: Seq<bool>,
    x: int,
    y: int,
    bytes: Seq<u8>,
    rows: nat,
) -> bool {
    exists|k: int, i: int|
        0 <= k < rows && 0 <= i < pixels.len() && #[trigger] switches_off(
            pixels,
            x,
            y,
            bytes,
            k,
            i,
        )
}

/// Whether drawing a sprite at `(x, y)` switches a pixel off.
pub open spec fn collides(pixels: Seq<bool>, x: int, y: int, bytes: Seq<u8>) -> bool {
    collides_within(pixels, x, y, bytes, bytes.len())
}

/// Whether the first `cols` columns of a sprite row switch off a pixel
/// of `pixels`.
pub open spec fn row_collides_upto(pixels: Seq<bool>, x: int, y: int, byte: u8, cols: int) -> bool {
    exists|i: int|
        0 <= i < pixels.len() && pixels[i] && #[trigger] row_toggles_upto(x, y, byte, cols, i)
}

/// The grid after the first `cols` columns of a sprite row were drawn.
pub open spec fn row_drawn_upto(pixels: Seq<bool>, x: int, y: int, byte: u8, cols: int) -> Seq<
    bool,
> {
    Seq::new(pixels.len(), |i: int| pixels[i] ^ row_toggles_upto(x, y, byte, cols, i))
}

/// Column `cols` of a sprite row lands on one pixel, which no earlier
/// column of the row has touched.
proof fn lemma_next_column(pixels: Seq<bool>, x: int, y: int, byte: u8, cols: int)
    requires
        0 <= x < 64,
        0 <= y < 32,
        0 <= cols < 8,
        pixels.len() == 2048,
    ensures
        0 <= pixel_index((x + cols) % 64, y) < 2048,
        !row_toggles_upto(x, y, byte, cols, pixel_index((x + cols) % 64, y)),
        forall|i: int|
            0 <= i < 2048 ==> #[trigger] row_toggles_upto(x, y, byte, cols + 1, i) == (
            row_toggles_upto(x, y, byte, cols, i) || (i == pixel_index((x + cols) % 64, y)
                && sprite_bit(byte, cols))),
        row_collides_upto(pixels, x, y, byte, cols + 1) == (row_collides_upto(
            pixels,
            x,
            y,
            byte,
            cols,
        ) || (sprite_bit(byte, cols) && pixels[pixel_index((x + cols) % 64, y)])),
{
    let p = pixel_index((x + cols) % 64, y);
    assert(p / 64 == y && column_offset(x, p) == cols);
    assert forall|i: int| 0 <= i < 2048 implies #[trigger] row_toggles_upto(
        x,
        y,
        byte,
        cols + 1,
        i,
    ) == (row_toggles_upto(x, y, byte, cols, i) || (i == p && sprite_bit(byte, cols))) by {
        if i / 64 == y && column_offset(x, i) == cols {
            assert(i == p);
        }
    }
    if row_collides_upto(pixels, x, y, byte, cols + 1) {
        let i = choose|i: int|
            0 <= i < pixels.len() && pixels[i] && #[trigger] row_toggles_upto(
                x,
                y,
                byte,
                cols + 1,
                i,
            );
        if i != p {
            assert(row_toggles_upto(x, y, byte, cols, i));
        }
    }
    if row_collides_upto(pixels, x, y, byte, cols) {
        let i = choose|i: int|
            0 <= i < pixels.len() && pixels[i] && #[trigger] row_toggles_upto(x, y, byte, cols, i);
        assert(row_toggles_upto(x, y, byte, cols + 1, i));
    }
    if sprite_bit(byte, cols) && pixels[p] {
        assert(row_toggles_upto(x, y, byte, cols + 1, p));
    }
}

/// Row `rows` of a sprite collides exactly where it toggles a pixel that
/// the rows before it left set.
proof fn lemma_next_row(pixels: Seq<bool>, x: int, y: int, bytes: Seq<u8>, rows: nat)
    requires
        rows < bytes.len(),
    ensures
        collides_within(pixels, x, y, bytes, rows + 1) == (collides_within(
            pixels,
            x,
            y,
            bytes,
            rows,
        ) || row_collides_upto(
            drawn_rows(pixels, x, y, bytes, rows),
            x,
            wrapped_row(y, rows as int),
            bytes[rows as int],
            8,
        )),
{
    let mid = drawn_rows(pixels, x, y, bytes, rows);
    let row = wrapped_row(y, rows as int);
    let byte = bytes[rows as int];
    if collides_within(pixels, x, y, bytes, rows + 1) {
        let (k, i) = choose|k: int, i: int|
            0 <= k < rows + 1 && 0 <= i < pixels.len() && #[trigger] switches_off(
                pixels,
                x,
                y,
                bytes,
                k,
                i,
            );
        if k < rows {
            assert(collides_within(pixels, x, y, bytes, rows));
        } else {
            assert(mid[i] && row_toggles_upto(x, row, byte, 8, i));
        }
    }
    if collides_within(pixels, x, y, bytes, rows) {
        let (k, i) = choose|k: int, i: int|
            0 <= k < rows && 0 <= i < pixels.len() && #[trigger] switches_off(
                pixels,
                x,
                y,
                bytes,
                k,
                i,
            );
        assert(switches_off(pixels, x, y, bytes, k, i));
    }
    if row_collides_upto(mid, x, row, byte, 8) {
        let i = choose|i: int|
            0 <= i < mid.len() && mid[i] && #[trigger] row_toggles_upto(x, row, byte, 8, i);
        assert(switches_off(pixels, x, y, bytes, rows as int, i));
    }
}

impl DisplayBuffer {
    /// A grid with every pixel unset.
    pub fn new() -> (d: Self)
        ensures
            d@ == blank(),
    {
        let d = DisplayBuffer { pixels: [false; 2048] };
        assert(d@ =~= blank());
        d
    }

    /// Every grid has 2048 pixels.
    pub proof fn lemma_size(&self)
        ensures
            self@.len() == SIZE,
    {
    }

    /// Checks if a pixel is set by index.
    pub fn is_set(&self, index: usize) -> (set: bool)
        requires
            index < SIZE,
        ensures
            set == self@[index as int],
    {
        self.pixels[index]
    }

    /// XORs a pixel and returns if there was a collision: if the pixel was
    /// set and is now unset. Outside the grid nothing is changed.
    pub fn xor_pixel(&mut self, x: u8, y: u8) -> (collision: bool)
        ensures
            x < WIDTH && y < HEIGHT ==> {
                &&& final(self)@ == old(self)@.update(
                    pixel_index(x as int, y as int),
                    !old(self)@[pixel_index(x as int, y as int)],
                )
                &&& collision == old(self)@[pixel_index(x as int, y as int)]
            },
            !(x < WIDTH && y < HEIGHT) ==> final(self)@ == old(self)@ && !collision,
    {
        if x >= WIDTH || y >= HEIGHT {
            return false;
        }
        let index: usize = x as usize + (y as usize * WIDTH as usize);

        let old_pixel: bool = self.pixels[index];
        let new_pixel: bool = old_pixel ^ true;

        self.pixels[index] = new_pixel;

        // there is a collision if the pixel was on, but is now off
        old_pixel && !new_pixel
    }

    /// Draws a sprite, one byte for each row from `y` downward, each byte
    /// eight pixels from `x` rightward, and returns if there was a
    /// collision. A set bit flips its pixel; columns and rows that pass an
    /// edge of the grid go on from the opposite edge. An anchor outside the
    /// grid draws nothing.
    pub fn draw_sprite(&mut self, x: u8, y: u8, bytes: &[u8]) -> (collision: bool)
        ensures
            x < WIDTH && y < HEIGHT ==> {
                &&& final(self)@ == drawn(old(self)@, x as int, y as int, bytes@)
                &&& collision == collides(old(self)@, x as int, y as int, bytes@)
            },
            !(x < WIDTH && y < HEIGHT) ==> final(self)@ == old(self)@ && !collision,
    {
        if x >= WIDTH || y >= HEIGHT {
            return false;
        }
        let ghost before = self@;
        let mut collision: bool = false;
        let mut current_y: u8 = y;
        let rows: usize = bytes.len();
        let mut k: usize = 0;

        assert(self@ =~= drawn_rows(before, x as int, y as int, bytes@, 0));
        while k < rows
            invariant
                rows == bytes@.len(),
                k <= rows,
                x < 64,
                y < 32,
                current_y == wrapped_row(y as int, k as int),
                before.len() == 2048,
                self@ == drawn_rows(before, x as int, y as int, bytes@, k as nat),
                collision == collides_within(before, x as int, y as int, bytes@, k as nat),
            decreases rows - k,
        {
            let byte: u8 = bytes[k];
            let ghost start = self@;
            let ghost collided = collision;
            let mut current_x: u8 = x;
            let mut bit: u8 = 8;

            assert(self@ =~= row_drawn_upto(start, x as int, current_y as int, byte, 0));
            while bit > 0
                invariant
                    bit <= 8,
                    x < 64,
                    current_y < 32,
                    current_x == (x + (8 - bit)) % 64,
                    start.len() == 2048,
                    self@ == row_drawn_upto(start, x as int, current_y as int, byte, 8 - bit),
                    collision == (collided || row_collides_upto(
                        start,
                        x as int,
                        current_y as int,
                        byte,
                        8 - bit,
                    )),
                decreases bit,
            {
                let ghost cols: int = 8 - bit;
                let ghost row_so_far = self@;
                bit -= 1;
                let value: u8 = (byte >> bit) & 0x01;
                proof {
                    assert(((byte >> bit) & 0x01) == 0 || ((byte >> bit) & 0x01) == 1)
                        by (bit_vector);
                    lemma_next_column(start, x as int, current_y as int, byte, cols);
                }

                if value > 0 && self.xor_pixel(current_x, current_y) {
                    collision = true;
                }
                assert(self@ =~= row_drawn_upto(start, x as int, current_y as int, byte, cols + 1));

                current_x += 1;

                if current_x == WIDTH {
                    current_x = 0;
                }
            }

            proof {
                lemma_next_row(before, x as int, y as int, bytes@, k as nat);
                assert(self@ =~= drawn_rows(before, x as int, y as int, bytes@, (k + 1) as nat));
            }
            current_y += 1;

            if current_y == HEIGHT {
                current_y = 0;
            }
            k += 1;
        }

        collision
    }

    /// Clears all pixels.
    pub fn clear(&mut self)
        ensures
            final(self)@ == blank(),
    {
        self.pixels = [false; 2048];
        assert(self@ =~= blank());
    }
}

/// How many rows pixel `i` lies below row `y`, going round the bottom edge
/// of the grid to its top edge.
pub open spec fn row_offset(y: int, i: int) -> int {
    ((i / 64) - y) % 32
}

/// The pixel that lies `cols` columns right of and `rows` rows below
/// `(x, y)`, going round the edges of the grid.
pub open spec fn wrapped_pixel(x: int, y: int, cols: int, rows: int) -> int {
    pixel_index((x + cols) % 64, wrapped_row(y, rows))
}

/// A sprite that is no taller than the grid flips a pixel exactly when its
/// bit for that pixel is set: the bit in the sprite row and column that lie
/// as far from the sprite's top left corner as the pixel lies from the
/// anchor, going round the edges of the grid.
pub proof fn lemma_toggled_by_own_bit(x: int, y: int, bytes: Seq<u8>, rows: nat, i: int)
    requires
        0 <= x < 64,
        0 <= y < 32,
        rows <= bytes.len(),
        rows <= 32,
        0 <= i < 2048,
    ensures
        toggled(x, y, bytes, rows, i) == (row_offset(y, i) < rows && sprite_bit(
            bytes[row_offset(y, i)],
            column_offset(x, i),
        )),
    decreases rows,
{
    if rows > 0 {
        lemma_toggled_by_own_bit(x, y, bytes, (rows - 1) as nat, i);
        let r = i / 64;
        assert(0 <= r < 32);
        assert(r == (y + (rows - 1)) % 32 <==> (r - y) % 32 == rows - 1) by {
            if r >= y {
                assert((r - y) % 32 == r - y);
            } else {
                assert((r - y) % 32 == r - y + 32);
            }
            if y + (rows - 1) < 32 {
                assert((y + (rows - 1)) % 32 == y + (rows - 1));
            } else {
                assert((y + (rows - 1)) % 32 == y + (rows - 1) - 32);
            }
        }
    }
}

/// Drawing wraps at the edges of the grid: bit `cols` of row `rows` of a
/// sprite that is no taller than the grid decides whether the pixel that
/// many columns and rows from the anchor is flipped, where a column past
/// the right edge goes on from the left edge and a row past the bottom
/// edge from the top.
pub proof fn lemma_draw_wraps(
    pixels: Seq<bool>,
    x: int,
    y: int,
    bytes: Seq<u8>,
    cols: int,
    rows: int,
)
    requires
        pixels.len() == 2048,
        0 <= x < 64,
        0 <= y < 32,
        bytes.len() <= 32,
        0 <= cols < 8,
        0 <= rows < bytes.len(),
    ensures
        0 <= wrapped_pixel(x, y, cols, rows) < 2048,
        drawn(pixels, x, y, bytes)[wrapped_pixel(x, y, cols, rows)] == (pixels[wrapped_pixel(
            x,
            y,
            cols,
            rows,
        )] ^ sprite_bit(bytes[rows], cols)),
{
    let p = wrapped_pixel(x, y, cols, rows);
    assert(row_offset(y, p) == rows && column_offset(x, p) == cols);
    lemma_toggled_by_own_bit(x, y, bytes, bytes.len(), p);
}

/// Drawing a sprite leaves every pixel alone that none of its set bits
/// covers.
pub proof fn lemma_draw_keeps_uncovered(pixels: Seq<bool>, x: int, y: int, bytes: Seq<u8>, i: int)
    requires
        0 <= i < pixels.len(),
        forall|k: int|
            0 <= k < bytes.len() ==> !#[trigger] row_toggles(x, wrapped_row(y, k), bytes[k], i),
    ensures
        drawn(pixels, x, y, bytes)[i] == pixels[i],
{
    lemma_untouched_not_toggled(x, y, bytes, bytes.len(), i);
}

proof fn lemma_untouched_not_toggled(x: int, y: int, bytes: Seq<u8>, rows: nat, i: int)
    requires
        rows <= bytes.len(),
        forall|k: int|
            0 <= k < bytes.len() ==> !#[trigger] row_toggles(x, wrapped_row(y, k), bytes[k], i),
    ensures
        !toggled(x, y, bytes, rows, i),
    decreases rows,
{
    if rows > 0 {
        lemma_untouched_not_toggled(x, y, bytes, (rows - 1) as nat, i);
        assert(!row_toggles(x, wrapped_row(y, rows - 1), bytes[rows - 1], i));
    }
}

/// Drawing the same sprite twice at the same place gives back the grid as
/// it was before.
pub proof fn lemma_draw_twice_restores(pixels: Seq<bool>, x: int, y: int, bytes: Seq<u8>)
    ensures
        drawn(drawn(pixels, x, y, bytes), x, y, bytes) == pixels,
{
    assert(drawn(drawn(pixels, x, y, bytes), x, y, bytes) =~= pixels);
}

/// Where the first `rows` rows of a sprite toggle a pixel, and the pixel
/// is set exactly if they toggle it an odd number of times, one of those
/// rows switches it off.
proof fn lemma_parity_collides(
    pixels: Seq<bool>,
    x: int,
    y: int,
    bytes: Seq<u8>,
    rows: nat,
    k: int,
    i: int,
)
    requires
        0 <= k < rows,
        0 <= i < pixels.len(),
        row_toggles(x, wrapped_row(y, k), bytes[k], i),
        pixels[i] == toggled(x, y, bytes, rows, i),
    ensures
        collides_within(pixels, x, y, bytes, rows),
    decreases rows,
{
    if row_toggles(x, wrapped_row(y, rows - 1), bytes[rows - 1], i) {
        assert(switches_off(pixels, x, y, bytes, rows - 1, i));
    } else {
        lemma_parity_collides(pixels, x, y, bytes, (rows - 1) as nat, k, i);
        let (k1, i1) = choose|k1: int, i1: int|
            0 <= k1 < rows - 1 && 0 <= i1 < pixels.len() && #[trigger] switches_off(
                pixels,
                x,
                y,
                bytes,
                k1,
                i1,
            );
        assert(switches_off(pixels, x, y, bytes, k1, i1));
    }
}

/// Drawing a sprite a second time at the same place collides: where the
/// sprite has a set bit, and every pixel that it covers was unset before
/// the first drawing, the second drawing reports a collision and leaves
/// all those pixels unset again.
pub proof fn lemma_second_draw_collides(
    pixels: Seq<bool>,
    x: int,
    y: int,
    bytes: Seq<u8>,
    row: int,
    col: int,
)
    requires
        pixels.len() == 2048,
        0 <= x < 64,
        0 <= y < 32,
        0 <= row < bytes.len(),
        sprite_bit(bytes[row], col),
        forall|k: int, i: int|
            0 <= k < bytes.len() && 0 <= i < 2048 && #[trigger] row_toggles(
                x,
                wrapped_row(y, k),
                bytes[k],
                i,
            ) ==> !pixels[i],
    ensures
        collides(drawn(pixels, x, y, bytes), x, y, bytes),
        drawn(drawn(pixels, x, y, bytes), x, y, bytes) == pixels,
        forall|k: int, i: int|
            0 <= k < bytes.len() && 0 <= i < 2048 && #[trigger] row_toggles(
                x,
                wrapped_row(y, k),
                bytes[k],
                i,
            ) ==> !drawn(drawn(pixels, x, y, bytes), x, y, bytes)[i],
{
    lemma_draw_twice_restores(pixels, x, y, bytes);
    let p = wrapped_pixel(x, y, col, row);
    assert(p / 64 == wrapped_row(y, row) && column_offset(x, p) == col);
    assert(row_toggles(x, wrapped_row(y, row), bytes[row], p));
    lemma_parity_collides(drawn(pixels, x, y, bytes), x, y, bytes, bytes.len(), row, p);
}

} // verus!
