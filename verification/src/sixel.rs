//! The sixel encoding of a frame: bands of six lines, a color register per
//! distinct color, and run-length coded columns for each color of a band.
use crate::code::{code_bytes, code_fits, format_code, Code};
use crate::registry::Registry;
use vstd::prelude::*;

verus! {

/// A pixel as red, green, blue and alpha channels.
pub type Pixel = (u8, u8, u8, u8);

/// A color as hue in degrees, saturation and lightness in percent.
pub type Shade = (u16, u8, u8);

/// The color under which a pixel is registered: itself when the alpha channel
/// is kept, else the same color made opaque.
pub open spec fn key(p: Pixel, keep_alpha: bool) -> Pixel {
    if keep_alpha {
        p
    } else {
        (p.0, p.1, p.2, 255u8)
    }
}

/// Where the pixel of column `x`, line `line` of band `row` stands in a
/// frame stored row after row.
pub open spec fn pixel_index(width: nat, row: nat, x: nat, line: nat) -> int {
    ((row * 6 + line) * width + x) as int
}

/// The pixel of column `x`, line `line` of band `row`.
pub open spec fn band_pixel(px: Seq<Pixel>, width: nat, row: nat, x: nat, line: nat) -> Pixel {
    px[pixel_index(width, row, x, line)]
}

/// The colors of a band as they are met: column after column, and within a
/// column from the top line down.
pub open spec fn band_keys(px: Seq<Pixel>, width: nat, row: nat, keep_alpha: bool) -> Seq<Pixel> {
    Seq::new(
        6 * width,
        |k: int| key(band_pixel(px, width, row, (k / 6) as nat, (k % 6) as nat), keep_alpha),
    )
}

/// `reg` followed by each color of `cs` that is not in it yet, in the order of
/// their first occurrence.
pub open spec fn absorb(reg: Seq<Pixel>, cs: Seq<Pixel>) -> Seq<Pixel>
    decreases cs.len(),
{
    if cs.len() == 0 {
        reg
    } else {
        let r = absorb(reg, cs.drop_last());
        if r.contains(cs.last()) {
            r
        } else {
            r.push(cs.last())
        }
    }
}

/// The distinct colors of a band, in the order of their first occurrence.
pub open spec fn band_colors(px: Seq<Pixel>, width: nat, row: nat, keep_alpha: bool) -> Seq<
    Pixel,
> {
    absorb(Seq::empty(), band_keys(px, width, row, keep_alpha))
}

/// The color registers after the first `rows` bands: the position of a color
/// is its register id.
pub open spec fn palette(px: Seq<Pixel>, width: nat, rows: nat, keep_alpha: bool) -> Seq<Pixel>
    decreases rows,
{
    if rows == 0 {
        Seq::empty()
    } else {
        absorb(
            palette(px, width, (rows - 1) as nat, keep_alpha),
            band_colors(px, width, (rows - 1) as nat, keep_alpha),
        )
    }
}

/// The bit that stands for line `line` of a column.
pub open spec fn weight(line: nat) -> nat
    decreases line,
{
    if line == 0 {
        1
    } else {
        2 * weight((line - 1) as nat)
    }
}

/// The bits of the first `lines` lines of column `x` of band `row` that hold color `c`.
pub open spec fn partial_map(
    px: Seq<Pixel>,
    width: nat,
    row: nat,
    c: Pixel,
    x: nat,
    lines: nat,
) -> nat
    decreases lines,
{
    if lines == 0 {
        0
    } else {
        partial_map(px, width, row, c, x, (lines - 1) as nat) + if band_pixel(
            px,
            width,
            row,
            x,
            (lines - 1) as nat,
        ) == c {
            weight((lines - 1) as nat)
        } else {
            0
        }
    }
}

/// The six-bit column of band `row` at `x` for color `c`.
pub open spec fn column_map(px: Seq<Pixel>, width: nat, row: nat, c: Pixel, x: nat) -> u8 {
    partial_map(px, width, row, c, x, 6) as u8
}

/// The columns of band `row` for color `c`, left to right.
pub open spec fn column_maps(px: Seq<Pixel>, width: nat, row: nat, c: Pixel) -> Seq<u8> {
    Seq::new(width, |x: int| column_map(px, width, row, c, x as nat))
}

/// The runs of equal neighbours in `ms`, as (length, value).
pub open spec fn runs(ms: Seq<u8>) -> Seq<(nat, u8)>
    decreases ms.len(),
{
    if ms.len() == 0 {
        Seq::empty()
    } else {
        let r = runs(ms.drop_last());
        if r.len() > 0 && r.last().1 == ms.last() {
            r.update(r.len() - 1, ((r.last().0 + 1) as nat, ms.last()))
        } else {
            r.push((1nat, ms.last()))
        }
    }
}

/// A run is written as a single column, or as a repeat when it is longer.
pub open spec fn run_code(run: (nat, u8)) -> Code {
    if run.0 == 1 {
        Code::Value(run.1)
    } else {
        Code::Repeat(run.0 as u32, run.1)
    }
}

/// The bytes of a sequence of runs.
pub open spec fn runs_bytes(rs: Seq<(nat, u8)>) -> Seq<u8>
    decreases rs.len(),
{
    if rs.len() == 0 {
        Seq::empty()
    } else {
        runs_bytes(rs.drop_last()) + code_bytes(run_code(rs.last()))
    }
}

/// The bytes that draw color `c` over band `row` with register `id`.
pub open spec fn color_block(px: Seq<Pixel>, width: nat, row: nat, c: Pixel, id: nat) -> Seq<u8> {
    code_bytes(Code::Enable(id as u32)) + runs_bytes(runs(column_maps(px, width, row, c)))
        + code_bytes(Code::CarriageReturn) + seq![10u8]
}

/// The blocks of the colors `cs` of band `row`, with their ids in `pal`.
pub open spec fn blocks(px: Seq<Pixel>, width: nat, row: nat, cs: Seq<Pixel>, pal: Seq<Pixel>) -> Seq<
    u8,
>
    decreases cs.len(),
{
    if cs.len() == 0 {
        Seq::empty()
    } else {
        blocks(px, width, row, cs.drop_last(), pal) + color_block(
            px,
            width,
            row,
            cs.last(),
            pal.index_of(cs.last()) as nat,
        )
    }
}

/// The definition of register `id` holding color `c`: the color itself when
/// the alpha channel is kept, else the shade given for that register.
pub open spec fn define_code(id: nat, c: Pixel, keep_alpha: bool, shades: Seq<Shade>) -> Code {
    if keep_alpha {
        Code::DefineRgba(id as u32, c.0, c.1, c.2, c.3)
    } else {
        Code::DefineHsl(id as u32, shades[id as int].0, shades[id as int].1, shades[id as int].2)
    }
}

/// The definitions of the registers of `pal` from id `from` on.
pub open spec fn defines(pal: Seq<Pixel>, from: nat, keep_alpha: bool, shades: Seq<Shade>) -> Seq<
    u8,
>
    decreases pal.len(),
{
    if pal.len() <= from {
        Seq::empty()
    } else {
        defines(pal.drop_last(), from, keep_alpha, shades) + code_bytes(
            define_code((pal.len() - 1) as nat, pal.last(), keep_alpha, shades),
        )
    }
}

/// The bytes of band `row`: the registers of its new colors, a newline, one
/// block per color of the band, a line feed and a newline.
pub open spec fn band_bytes(
    px: Seq<Pixel>,
    width: nat,
    row: nat,
    keep_alpha: bool,
    shades: Seq<Shade>,
) -> Seq<u8> {
    let before = palette(px, width, row, keep_alpha);
    let after = palette(px, width, row + 1, keep_alpha);
    defines(after, before.len(), keep_alpha, shades) + seq![10u8] + blocks(
        px,
        width,
        row,
        band_colors(px, width, row, keep_alpha),
        after,
    ) + code_bytes(Code::LineFeed) + seq![10u8]
}

/// The bytes of the first `rows` bands.
pub open spec fn bands(
    px: Seq<Pixel>,
    width: nat,
    rows: nat,
    keep_alpha: bool,
    shades: Seq<Shade>,
) -> Seq<u8>
    decreases rows,
{
    if rows == 0 {
        Seq::empty()
    } else {
        bands(px, width, (rows - 1) as nat, keep_alpha, shades) + band_bytes(
            px,
            width,
            (rows - 1) as nat,
            keep_alpha,
            shades,
        )
    }
}

/// The device control string that opens a sixel image, and a newline.
pub open spec fn opening() -> Seq<u8> {
    seq![0x1Bu8, 0x50u8, 0x39u8, 0x71u8, 0x0Au8]
}

/// The string terminator that closes a sixel image, and a newline.
pub open spec fn closing() -> Seq<u8> {
    seq![0x1Bu8, 0x5Cu8, 0x0Au8]
}

/// The whole sixel image of a frame: only whole bands are drawn.
pub open spec fn sixel_stream(
    px: Seq<Pixel>,
    width: nat,
    height: nat,
    keep_alpha: bool,
    shades: Seq<Shade>,
) -> Seq<u8> {
    opening() + bands(px, width, height / 6, keep_alpha, shades) + closing()
}


// ---------------------------------------------------------------------------
// Facts about the registers.

/// `reg` stays the front of what absorbing colors into it gives.
pub proof fn lemma_absorb_prefix(reg: Seq<Pixel>, cs: Seq<Pixel>)
    ensures
        absorb(reg, cs).len() >= reg.len(),
        absorb(reg, cs).take(reg.len() as int) == reg,
    decreases cs.len(),
{
    if cs.len() > 0 {
        lemma_absorb_prefix(reg, cs.drop_last());
        let r = absorb(reg, cs.drop_last());
        assert(r.push(cs.last()).take(reg.len() as int) =~= r.take(reg.len() as int));
    }
}

/// A color is registered after absorbing exactly when it was before or is absorbed.
pub proof fn lemma_absorb_contains(reg: Seq<Pixel>, cs: Seq<Pixel>, c: Pixel)
    ensures
        absorb(reg, cs).contains(c) <==> (reg.contains(c) || cs.contains(c)),
    decreases cs.len(),
{
    if cs.len() > 0 {
        lemma_absorb_contains(reg, cs.drop_last(), c);
        let r = absorb(reg, cs.drop_last());
        if cs.drop_last().contains(c) {
            let i = choose|i: int| 0 <= i < cs.drop_last().len() && cs.drop_last()[i] == c;
            assert(cs[i] == c);
        }
        if cs.contains(c) && !cs.drop_last().contains(c) {
            let i = choose|i: int| 0 <= i < cs.len() && cs[i] == c;
            if i < cs.len() - 1 {
                assert(cs.drop_last()[i] == c);
            }
            assert(c == cs.last());
        }
        if !r.contains(cs.last()) {
            let rp = r.push(cs.last());
            assert(rp[rp.len() - 1] == cs.last());
            if r.contains(c) {
                let i = choose|i: int| 0 <= i < r.len() && r[i] == c;
                assert(rp[i] == c);
            }
            if rp.contains(c) && c != cs.last() {
                let i = choose|i: int| 0 <= i < rp.len() && rp[i] == c;
                assert(r[i] == c);
            }
        }
    }
}

/// Absorbing never registers a color twice.
pub proof fn lemma_absorb_no_duplicates(reg: Seq<Pixel>, cs: Seq<Pixel>)
    requires
        reg.no_duplicates(),
    ensures
        absorb(reg, cs).no_duplicates(),
    decreases cs.len(),
{
    if cs.len() > 0 {
        lemma_absorb_no_duplicates(reg, cs.drop_last());
        let r = absorb(reg, cs.drop_last());
        if !r.contains(cs.last()) {
            let rp = r.push(cs.last());
            assert forall|i: int, j: int|
                0 <= i < rp.len() && 0 <= j < rp.len() && i != j implies rp[i] != rp[j] by {
                if i == rp.len() - 1 {
                    assert(r[j] == rp[j]);
                } else if j == rp.len() - 1 {
                    assert(r[i] == rp[i]);
                }
            }
        }
    }
}

/// The registers of fewer bands are the front of those of more bands.
pub proof fn lemma_palette_prefix(px: Seq<Pixel>, width: nat, r1: nat, r2: nat, keep_alpha: bool)
    requires
        r1 <= r2,
    ensures
        palette(px, width, r1, keep_alpha).len() <= palette(px, width, r2, keep_alpha).len(),
        palette(px, width, r2, keep_alpha).take(palette(px, width, r1, keep_alpha).len() as int)
            == palette(px, width, r1, keep_alpha),
    decreases r2,
{
    if r1 < r2 {
        let r = (r2 - 1) as nat;
        lemma_palette_prefix(px, width, r1, r, keep_alpha);
        lemma_absorb_prefix(palette(px, width, r, keep_alpha), band_colors(px, width, r, keep_alpha));
        let p1 = palette(px, width, r1, keep_alpha);
        let p = palette(px, width, r, keep_alpha);
        let p2 = palette(px, width, r2, keep_alpha);
        assert(p2.take(p1.len() as int) =~= p2.take(p.len() as int).take(p1.len() as int));
    }
}

/// No color holds two registers.
pub proof fn lemma_palette_no_duplicates(px: Seq<Pixel>, width: nat, rows: nat, keep_alpha: bool)
    ensures
        palette(px, width, rows, keep_alpha).no_duplicates(),
    decreases rows,
{
    if rows > 0 {
        let r = (rows - 1) as nat;
        lemma_palette_no_duplicates(px, width, r, keep_alpha);
        lemma_absorb_no_duplicates(palette(px, width, r, keep_alpha), band_colors(px, width, r, keep_alpha));
    }
}

/// In a sequence without duplicates the position of an element is where it stands.
pub proof fn lemma_index_of_unique(s: Seq<Pixel>, i: int)
    requires
        s.no_duplicates(),
        0 <= i < s.len(),
    ensures
        s.index_of(s[i]) == i,
{
    assert(s.contains(s[i]));
}

// ---------------------------------------------------------------------------
// Facts about columns and runs.

/// The first bits of a column stay below the next weight.
pub proof fn lemma_partial_map_bound(px: Seq<Pixel>, width: nat, row: nat, c: Pixel, x: nat, lines: nat)
    ensures
        partial_map(px, width, row, c, x, lines) < weight(lines),
    decreases lines,
{
    if lines > 0 {
        lemma_partial_map_bound(px, width, row, c, x, (lines - 1) as nat);
    }
}

/// A column holds six bits.
pub proof fn lemma_column_map_bound(px: Seq<Pixel>, width: nat, row: nat, c: Pixel, x: nat)
    ensures
        column_map(px, width, row, c, x) < 64,
        column_map(px, width, row, c, x) as nat == partial_map(px, width, row, c, x, 6),
{
    lemma_partial_map_bound(px, width, row, c, x, 6);
    reveal_with_fuel(weight, 7);
}

/// Runs are non-empty, no longer than the sequence, and carry its values.
pub proof fn lemma_runs_bounds(ms: Seq<u8>)
    ensures
        runs(ms).len() <= ms.len(),
        forall|k: int|
            0 <= k < runs(ms).len() ==> 1 <= #[trigger] runs(ms)[k].0 <= ms.len()
                && ms.contains(runs(ms)[k].1),
    decreases ms.len(),
{
    if ms.len() > 0 {
        let d = ms.drop_last();
        lemma_runs_bounds(d);
        let r = runs(d);
        assert(ms[ms.len() - 1] == ms.last());
        assert forall|k: int| 0 <= k < runs(ms).len() implies 1 <= #[trigger] runs(ms)[k].0
            <= ms.len() && ms.contains(runs(ms)[k].1) by {
            if k < r.len() && !(k == r.len() - 1 && r.last().1 == ms.last()) {
                assert(runs(ms)[k] == r[k]);
                assert(1 <= r[k].0 <= d.len());
                assert(d.contains(r[k].1));
                let i = choose|i: int| 0 <= i < d.len() && d[i] == r[k].1;
                assert(ms[i] == d[i]);
            }
        }
    }
}


/// Absorbing two runs of colors is absorbing their concatenation.
pub proof fn lemma_absorb_concat(reg: Seq<Pixel>, a: Seq<Pixel>, b: Seq<Pixel>)
    ensures
        absorb(reg, a + b) == absorb(absorb(reg, a), b),
    decreases b.len(),
{
    if b.len() == 0 {
        assert(a + b =~= a);
    } else {
        lemma_absorb_concat(reg, a, b.drop_last());
        assert((a + b).drop_last() =~= a + b.drop_last());
        assert((a + b).last() == b.last());
    }
}

/// Absorbing the first colors of a sequence gives the front of absorbing them all.
pub proof fn lemma_absorb_take(reg: Seq<Pixel>, cs: Seq<Pixel>, j: int)
    requires
        0 <= j <= cs.len(),
    ensures
        absorb(reg, cs.take(j)).len() <= absorb(reg, cs).len(),
        absorb(reg, cs).take(absorb(reg, cs.take(j)).len() as int) == absorb(reg, cs.take(j)),
{
    assert(cs =~= cs.take(j) + cs.skip(j));
    lemma_absorb_concat(reg, cs.take(j), cs.skip(j));
    lemma_absorb_prefix(absorb(reg, cs.take(j)), cs.skip(j));
}

// ---------------------------------------------------------------------------
// Executable parts.

/// Whether two pixels are the same.
fn same(a: Pixel, b: Pixel) -> (r: bool)
    ensures
        r == (a == b),
{
    a.0 == b.0 && a.1 == b.1 && a.2 == b.2 && a.3 == b.3
}

/// Appends the bytes of one item.
fn push_code(out: &mut Vec<u8>, code: Code)
    requires
        code_fits(code),
    ensures
        final(out)@ == old(out)@ + code_bytes(code),
{
    let mut bytes = format_code(&code);
    out.append(&mut bytes);
}

/// A cell of a `width` by `height` frame stored row after row lies inside it.
proof fn lemma_cell_index(y: nat, x: nat, width: nat, height: nat)
    by (nonlinear_arith)
    requires
        y < height,
        x < width,
    ensures
        y * width + x < width * height,
{
}

/// The pixel of column `x`, line `line` of band `row`.
fn pixel_at(pixels: &Vec<Pixel>, width: u32, height: u32, row: u32, x: u32, line: u32) -> (p: Pixel)
    requires
        pixels@.len() == width as nat * height as nat,
        row < height / 6,
        x < width,
        line < 6,
    ensures
        p == band_pixel(pixels@, width as nat, row as nat, x as nat, line as nat),
{
    let y = row * 6 + line;
    let cells = pixels.len();
    proof {
        assert(cells as nat == width as nat * height as nat);
        lemma_cell_index(y as nat, x as nat, width as nat, height as nat);
        assert(y as nat * width as nat <= y as nat * width as nat + x as nat);
    }
    let index = y as usize * width as usize + x as usize;
    pixels[index]
}

/// The distinct colors of band `row`, in the order they are met.
fn colors_of_band(pixels: &Vec<Pixel>, width: u32, height: u32, row: u32, keep_alpha: bool) -> (colors: Vec<Pixel>)
    requires
        pixels@.len() == width as nat * height as nat,
        row < height / 6,
    ensures
        colors@ == band_colors(pixels@, width as nat, row as nat, keep_alpha),
{
    let ghost keys = band_keys(pixels@, width as nat, row as nat, keep_alpha);
    let mut colors = Registry::new();
    let mut x: u32 = 0;
    assert(keys.take(0) =~= Seq::<Pixel>::empty());
    while x < width
        invariant
            pixels@.len() == width as nat * height as nat,
            row < height / 6,
            x <= width,
            keys == band_keys(pixels@, width as nat, row as nat, keep_alpha),
            colors.wf(),
            colors.colors@ == absorb(Seq::empty(), keys.take(6 * x)),
        decreases width - x,
    {
        let mut line: u32 = 0;
        while line < 6
            invariant
                pixels@.len() == width as nat * height as nat,
                row < height / 6,
                x < width,
                line <= 6,
                keys == band_keys(pixels@, width as nat, row as nat, keep_alpha),
                colors.wf(),
                colors.colors@ == absorb(Seq::empty(), keys.take(6 * x + line)),
            decreases 6 - line,
        {
            let p = pixel_at(pixels, width, height, row, x, line);
            let k = if keep_alpha {
                p
            } else {
                (p.0, p.1, p.2, 255u8)
            };
            let ghost n = 6 * x + line;
            assert(keys.take(n + 1).drop_last() =~= keys.take(n));
            assert(keys.take(n + 1).last() == keys[n]);
            assert(n / 6 == x && n % 6 == line);
            assert(keys[n] == k);
            if colors.lookup(k).is_none() {
                colors.add(k);
            }
            line += 1;
        }
        x += 1;
    }
    assert(keys.take(6 * width) =~= keys);
    colors.colors
}

/// The weights of the lines of a band.
proof fn lemma_weights()
    ensures
        weight(0) == 1,
        weight(1) == 2,
        weight(2) == 4,
        weight(3) == 8,
        weight(4) == 16,
        weight(5) == 32,
        weight(6) == 64,
{
    reveal_with_fuel(weight, 7);
}

/// The column of band `row` at `x` for color `c`.
fn column_map_of(pixels: &Vec<Pixel>, width: u32, height: u32, row: u32, c: Pixel, x: u32) -> (m: u8)
    requires
        pixels@.len() == width as nat * height as nat,
        row < height / 6,
        x < width,
    ensures
        m == column_map(pixels@, width as nat, row as nat, c, x as nat),
        m < 64,
{
    proof {
        lemma_weights();
        lemma_column_map_bound(pixels@, width as nat, row as nat, c, x as nat);
    }
    let mut m: u8 = 0;
    let mut bit: u8 = 1;
    let mut line: u32 = 0;
    while line < 6
        invariant
            pixels@.len() == width as nat * height as nat,
            row < height / 6,
            x < width,
            line <= 6,
            m as nat == partial_map(pixels@, width as nat, row as nat, c, x as nat, line as nat),
            bit as nat == weight(line as nat),
            weight(0) == 1 && weight(1) == 2 && weight(2) == 4 && weight(3) == 8 && weight(4) == 16
                && weight(5) == 32 && weight(6) == 64,
        decreases 6 - line,
    {
        proof {
            lemma_partial_map_bound(pixels@, width as nat, row as nat, c, x as nat, line as nat);
        }
        if same(pixel_at(pixels, width, height, row, x, line), c) {
            m = m + bit;
        }
        if line < 5 {
            bit = bit * 2;
        } else {
            bit = 64;
        }
        line += 1;
    }
    m
}

/// Appends one run.
fn push_run(out: &mut Vec<u8>, count: u32, value: u8)
    requires
        count >= 1,
        value < 64,
    ensures
        final(out)@ == old(out)@ + code_bytes(run_code((count as nat, value))),
{
    if count == 1 {
        push_code(out, Code::Value(value));
    } else {
        push_code(out, Code::Repeat(count, value));
    }
}

/// Appends the run-length coded columns of band `row` for color `c`.
fn push_runs(pixels: &Vec<Pixel>, width: u32, height: u32, row: u32, c: Pixel, out: &mut Vec<u8>)
    requires
        pixels@.len() == width as nat * height as nat,
        row < height / 6,
    ensures
        final(out)@ == old(out)@ + runs_bytes(runs(column_maps(pixels@, width as nat, row as nat, c))),
{
    let ghost ms = column_maps(pixels@, width as nat, row as nat, c);
    let ghost base = out@;
    let mut previous: Option<u8> = None;
    let mut count: u32 = 0;
    let mut x: u32 = 0;
    while x < width
        invariant
            pixels@.len() == width as nat * height as nat,
            row < height / 6,
            x <= width,
            ms == column_maps(pixels@, width as nat, row as nat, c),
            forall|k: int| 0 <= k < x ==> #[trigger] ms[k] < 64,
            previous is None <==> x == 0,
            previous is None ==> out@ == base,
            previous is Some ==> {
                let r = runs(ms.take(x as int));
                &&& r.len() > 0
                &&& previous->0 == r.last().1
                &&& count as nat == r.last().0
                &&& out@ == base + runs_bytes(r.drop_last())
            },
        decreases width - x,
    {
        let current = column_map_of(pixels, width, height, row, c, x);
        let ghost before = ms.take(x as int);
        let ghost after = ms.take(x + 1);
        proof {
            assert(after.drop_last() =~= before);
            assert(after.last() == current);
            lemma_runs_bounds(before);
        }
        match previous {
            Some(value) => {
                proof {
                    let r = runs(before);
                    assert(r[r.len() - 1].0 <= before.len());
                    assert(before.contains(r[r.len() - 1].1));
                }
                if value == current {
                    count = count + 1;
                    proof {
                        let r = runs(before);
                        let r2 = runs(after);
                        assert(r2.drop_last() =~= r.drop_last());
                    }
                } else {
                    proof {
                        let r = runs(before);
                        assert(runs_bytes(r) == runs_bytes(r.drop_last()) + code_bytes(run_code(r.last())));
                    }
                    push_run(out, count, value);
                    proof {
                        let r = runs(before);
                        let r2 = runs(after);
                        assert(r2.drop_last() =~= r);
                        assert(out@ =~= base + runs_bytes(r));
                    }
                    previous = Some(current);
                    count = 1;
                }
            },
            None => {
                proof {
                    assert(before =~= Seq::<u8>::empty());
                    let r2 = runs(after);
                    assert(r2.drop_last() =~= Seq::<(nat, u8)>::empty());
                }
                previous = Some(current);
                count = 1;
            },
        }
        x += 1;
    }
    assert(ms.take(width as int) =~= ms);
    if let Some(value) = previous {
        proof {
            let r = runs(ms);
            lemma_runs_bounds(ms);
            assert(r[r.len() - 1].0 <= ms.len());
            assert(ms.contains(r[r.len() - 1].1));
            assert(runs_bytes(r) == runs_bytes(r.drop_last()) + code_bytes(run_code(r.last())));
        }
        push_run(out, count, value);
        proof {
            assert(out@ =~= base + runs_bytes(runs(ms)));
        }
    } else {
        assert(out@ =~= base + runs_bytes(runs(ms)));
    }
}


/// Appends the block that draws color `c` over band `row` with register `id`.
fn push_block(pixels: &Vec<Pixel>, width: u32, height: u32, row: u32, c: Pixel, id: u32, out: &mut Vec<u8>)
    requires
        pixels@.len() == width as nat * height as nat,
        row < height / 6,
    ensures
        final(out)@ == old(out)@ + color_block(pixels@, width as nat, row as nat, c, id as nat),
{
    let ghost base = out@;
    push_code(out, Code::Enable(id));
    push_runs(pixels, width, height, row, c, out);
    push_code(out, Code::CarriageReturn);
    out.push(10u8);
    assert(out@ =~= base + color_block(pixels@, width as nat, row as nat, c, id as nat));
}

/// Registers the new colors of a band and appends their definitions.
fn push_defines(
    colors: &Vec<Pixel>,
    register: &mut Registry,
    keep_alpha: bool,
    shades: &Vec<Shade>,
    out: &mut Vec<u8>,
)
    requires
        old(register).wf(),
        absorb(old(register).colors@, colors@).len() < 0x1_0000_0000,
        keep_alpha || shades@.len() >= absorb(old(register).colors@, colors@).len(),
    ensures
        final(register).wf(),
        final(register).colors@ == absorb(old(register).colors@, colors@),
        final(out)@ == old(out)@ + defines(
            final(register).colors@,
            old(register).colors@.len(),
            keep_alpha,
            shades@,
        ),
{
    let ghost before = register.colors@;
    let ghost after = absorb(before, colors@);
    let ghost base = out@;
    let mut j: usize = 0;
    assert(colors@.take(0) =~= Seq::<Pixel>::empty());
    assert(defines(before, before.len(), keep_alpha, shades@) =~= Seq::<u8>::empty());
    while j < colors.len()
        invariant
            after == absorb(before, colors@),
            after.len() < 0x1_0000_0000,
            keep_alpha || shades@.len() >= after.len(),
            j <= colors.len(),
            register.wf(),
            register.colors@ == absorb(before, colors@.take(j as int)),
            out@ == base + defines(register.colors@, before.len(), keep_alpha, shades@),
        decreases colors.len() - j,
    {
        let c = colors[j];
        proof {
            lemma_absorb_prefix(before, colors@.take(j as int));
            assert(colors@.take(j + 1).drop_last() =~= colors@.take(j as int));
            assert(colors@.take(j + 1).last() == c);
            lemma_absorb_take(before, colors@, j + 1);
        }
        if register.lookup(c).is_none() {
            let id = register.colors.len();
            let ghost reg = register.colors@;
            proof {
                let next = reg.push(c);
                assert(next == absorb(before, colors@.take(j + 1)));
                assert(next.len() <= after.len());
            }
            let code = if keep_alpha {
                Code::DefineRgba(id as u32, c.0, c.1, c.2, c.3)
            } else {
                let shade = shades[id];
                Code::DefineHsl(id as u32, shade.0, shade.1, shade.2)
            };
            push_code(out, code);
            register.add(c);
            proof {
                assert(register.colors@.drop_last() =~= reg);
                assert(out@ =~= base + defines(register.colors@, before.len(), keep_alpha, shades@));
            }
        }
        j += 1;
    }
    assert(colors@.take(colors.len() as int) =~= colors@);
}

/// Appends the block of each color of band `row`, with its register id.
fn push_blocks(
    pixels: &Vec<Pixel>,
    width: u32,
    height: u32,
    row: u32,
    colors: &Vec<Pixel>,
    register: &Registry,
    out: &mut Vec<u8>,
)
    requires
        pixels@.len() == width as nat * height as nat,
        row < height / 6,
        register.wf(),
        register.colors@.len() < 0x1_0000_0000,
        forall|c: Pixel| colors@.contains(c) ==> register.colors@.contains(c),
    ensures
        final(out)@ == old(out)@ + blocks(pixels@, width as nat, row as nat, colors@, register.colors@),
{
    let ghost base = out@;
    let mut j: usize = 0;
    assert(colors@.take(0) =~= Seq::<Pixel>::empty());
    while j < colors.len()
        invariant
            pixels@.len() == width as nat * height as nat,
            row < height / 6,
            register.wf(),
            register.colors@.len() < 0x1_0000_0000,
            forall|c: Pixel| colors@.contains(c) ==> register.colors@.contains(c),
            j <= colors.len(),
            out@ == base + blocks(pixels@, width as nat, row as nat, colors@.take(j as int), register.colors@),
        decreases colors.len() - j,
    {
        let c = colors[j];
        proof {
            assert(colors@[j as int] == c);
            assert(colors@.contains(c));
            assert(colors@.take(j + 1).drop_last() =~= colors@.take(j as int));
            assert(colors@.take(j + 1).last() == c);
        }
        match register.lookup(c) {
            Some(id) => {
                proof {
                    lemma_index_of_unique(register.colors@, id as int);
                }
                push_block(pixels, width, height, row, c, id as u32, out);
                assert(out@ =~= base + blocks(pixels@, width as nat, row as nat, colors@.take(j + 1), register.colors@));
            },
            None => {
                assert(false);
            },
        }
        j += 1;
    }
    assert(colors@.take(colors.len() as int) =~= colors@);
}

/// The sixel image of a `width` by `height` frame stored row after row.
///
/// With `keep_alpha` each register is defined by the pixel's four channels;
/// otherwise colors are made opaque and register `i` is defined by `shades[i]`.
pub fn encode_frame(pixels: &Vec<Pixel>, width: u32, height: u32, keep_alpha: bool, shades: &Vec<Shade>) -> (bytes: Vec<u8>)
    requires
        pixels@.len() == width as nat * height as nat,
        palette(pixels@, width as nat, (height / 6) as nat, keep_alpha).len() < 0x1_0000_0000,
        keep_alpha || shades@.len() == palette(pixels@, width as nat, (height / 6) as nat, keep_alpha).len(),
    ensures
        bytes@ == sixel_stream(pixels@, width as nat, height as nat, keep_alpha, shades@),
{
    let ghost px = pixels@;
    let ghost w = width as nat;
    let rows = height / 6;
    let ghost last = palette(px, w, rows as nat, keep_alpha);
    let mut out: Vec<u8> = Vec::new();
    out.push(0x1Bu8);
    out.push(0x50u8);
    out.push(0x39u8);
    out.push(0x71u8);
    out.push(0x0Au8);
    assert(out@ =~= opening() + bands(px, w, 0, keep_alpha, shades@));
    let mut register = Registry::new();
    let mut row: u32 = 0;
    while row < rows
        invariant
            px == pixels@,
            w == width as nat,
            rows == height / 6,
            pixels@.len() == width as nat * height as nat,
            last == palette(px, w, rows as nat, keep_alpha),
            last.len() < 0x1_0000_0000,
            keep_alpha || shades@.len() == last.len(),
            row <= rows,
            register.wf(),
            register.colors@ == palette(px, w, row as nat, keep_alpha),
            out@ == opening() + bands(px, w, row as nat, keep_alpha, shades@),
        decreases rows - row,
    {
        let ghost before = register.colors@;
        let ghost after = palette(px, w, (row + 1) as nat, keep_alpha);
        proof {
            lemma_palette_prefix(px, w, (row + 1) as nat, rows as nat, keep_alpha);
            lemma_palette_no_duplicates(px, w, (row + 1) as nat, keep_alpha);
        }
        let colors = colors_of_band(pixels, width, height, row, keep_alpha);
        let ghost start = out@;
        push_defines(&colors, &mut register, keep_alpha, shades, &mut out);
        out.push(10u8);
        proof {
            assert forall|c: Pixel| colors@.contains(c) implies register.colors@.contains(c) by {
                lemma_absorb_contains(before, colors@, c);
            }
        }
        let ghost middle = out@;
        push_blocks(pixels, width, height, row, &colors, &register, &mut out);
        push_code(&mut out, Code::LineFeed);
        out.push(10u8);
        proof {
            assert(out@ =~= start + band_bytes(px, w, row as nat, keep_alpha, shades@));
            assert(out@ =~= opening() + bands(px, w, (row + 1) as nat, keep_alpha, shades@));
        }
        row += 1;
    }
    out.push(0x1Bu8);
    out.push(0x5Cu8);
    out.push(0x0Au8);
    assert(out@ =~= sixel_stream(px, w, height as nat, keep_alpha, shades@));
    out
}

/// The color registers that encoding a `width` by `height` frame defines, in
/// the order of their ids.
pub fn palette_of(pixels: &Vec<Pixel>, width: u32, height: u32, keep_alpha: bool) -> (colors: Vec<Pixel>)
    requires
        pixels@.len() == width as nat * height as nat,
    ensures
        colors@ == palette(pixels@, width as nat, (height / 6) as nat, keep_alpha),
{
    let ghost px = pixels@;
    let ghost w = width as nat;
    let rows = height / 6;
    let mut register = Registry::new();
    let mut row: u32 = 0;
    while row < rows
        invariant
            px == pixels@,
            w == width as nat,
            rows == height / 6,
            pixels@.len() == width as nat * height as nat,
            row <= rows,
            register.wf(),
            register.colors@ == palette(px, w, row as nat, keep_alpha),
        decreases rows - row,
    {
        let ghost before = register.colors@;
        let colors = colors_of_band(pixels, width, height, row, keep_alpha);
        let mut j: usize = 0;
        assert(colors@.take(0) =~= Seq::<Pixel>::empty());
        while j < colors.len()
            invariant
                j <= colors.len(),
                register.wf(),
                register.colors@ == absorb(before, colors@.take(j as int)),
            decreases colors.len() - j,
        {
            let c = colors[j];
            assert(colors@.take(j + 1).drop_last() =~= colors@.take(j as int));
            assert(colors@.take(j + 1).last() == c);
            if register.lookup(c).is_none() {
                register.add(c);
            }
            j += 1;
        }
        assert(colors@.take(colors.len() as int) =~= colors@);
        row += 1;
    }
    register.colors
}

} // verus!
