//! Properties that every encoding has.
use crate::sixel::{
    absorb, band_colors, band_keys, band_pixel, bands, closing, column_map, defines, key,
    lemma_absorb_contains, lemma_column_map_bound, lemma_palette_no_duplicates,
    lemma_palette_prefix, lemma_runs_bounds, opening, palette, partial_map, run_code, runs,
    runs_bytes, sixel_stream, weight, Pixel, Shade,
};
use crate::code::{code_bytes, Code};
use crate::encoder::{
    dithered, gray2_dithered, keeps_alpha, lanczos3_scaled, linear_scaled, neuquant_dithered,
    prepared, scaled, vt340_dithered,
};
use crate::settings::Settings;
use crate::terminal::{spec_cell, WindowSize};
use vstd::prelude::*;

verus! {

/// The columns that a sequence of runs stands for.
pub open spec fn expand(rs: Seq<(nat, u8)>) -> Seq<u8>
    decreases rs.len(),
{
    if rs.len() == 0 {
        Seq::empty()
    } else {
        expand(rs.drop_last()) + Seq::new(rs.last().0, |_i: int| rs.last().1)
    }
}

/// Run-length coding loses nothing: the runs of a sequence of columns stand
/// for exactly that sequence, every run is at least one column long, and two
/// neighbouring runs never hold the same column.
pub proof fn runs_are_lossless(ms: Seq<u8>)
    ensures
        expand(runs(ms)) == ms,
        forall|k: int| 0 <= k < runs(ms).len() ==> #[trigger] runs(ms)[k].0 >= 1,
        forall|k: int| 0 <= k < runs(ms).len() - 1 ==> #[trigger] runs(ms)[k].1 != runs(ms)[k + 1].1,
    decreases ms.len(),
{
    if ms.len() == 0 {
        assert(expand(runs(ms)) =~= ms);
    } else {
        let d = ms.drop_last();
        runs_are_lossless(d);
        let r = runs(d);
        let m = ms.last();
        if r.len() > 0 && r.last().1 == m {
            let r2 = runs(ms);
            let n = r.len() - 1;
            assert(r2.drop_last() =~= r.drop_last());
            assert(Seq::new(r.last().0 + 1, |_i: int| m) =~= Seq::new(r.last().0, |_i: int| m).push(m));
            assert(expand(r2) =~= expand(r) + seq![m]);
            assert(ms =~= d.push(m));
            assert forall|k: int| 0 <= k < r2.len() - 1 implies #[trigger] r2[k].1 != r2[k + 1].1 by {
                assert(r2[k] == r[k]);
                if k + 1 < n {
                    assert(r2[k + 1] == r[k + 1]);
                }
            }
            assert forall|k: int| 0 <= k < r2.len() implies #[trigger] r2[k].0 >= 1 by {
                if k < n {
                    assert(r2[k] == r[k]);
                }
            }
        } else {
            let r2 = runs(ms);
            assert(r2.drop_last() =~= r);
            assert(Seq::new(1nat, |_i: int| m) =~= seq![m]);
            assert(ms =~= d.push(m));
            assert(expand(r2) =~= expand(r) + seq![m]);
            assert forall|k: int| 0 <= k < r2.len() - 1 implies #[trigger] r2[k].1 != r2[k + 1].1 by {
                assert(r2[k] == r[k]);
                if k + 1 < r.len() {
                    assert(r2[k + 1] == r[k + 1]);
                }
            }
            assert forall|k: int| 0 <= k < r2.len() implies #[trigger] r2[k].0 >= 1 by {
                if k < r.len() {
                    assert(r2[k] == r[k]);
                }
            }
        }
    }
}

/// The bit of a column for one line.
pub open spec fn line_bit(map: u8, line: nat) -> nat {
    (map as nat / weight(line)) % 2
}

/// Six one-bit values summed by their weights give back each bit.
proof fn lemma_bits(b0: nat, b1: nat, b2: nat, b3: nat, b4: nat, b5: nat)
    requires
        b0 <= 1,
        b1 <= 1,
        b2 <= 1,
        b3 <= 1,
        b4 <= 1,
        b5 <= 1,
    ensures
        ({
            let m = b0 + 2 * b1 + 4 * b2 + 8 * b3 + 16 * b4 + 32 * b5;
            &&& m % 2 == b0
            &&& (m / 2) % 2 == b1
            &&& (m / 4) % 2 == b2
            &&& (m / 8) % 2 == b3
            &&& (m / 16) % 2 == b4
            &&& (m / 32) % 2 == b5
        }),
{
}

/// Each line of a band has its own bit in a column: the bit of line `line`
/// is set exactly when that pixel has the color of the column.
pub proof fn column_bits_mark_the_color(px: Seq<Pixel>, width: nat, row: nat, c: Pixel, x: nat, line: nat)
    requires
        line < 6,
    ensures
        (line_bit(column_map(px, width, row, c, x), line) == 1) <==> (band_pixel(px, width, row, x, line) == c),
{
    lemma_column_map_bound(px, width, row, c, x);
    reveal_with_fuel(weight, 7);
    let b0: nat = if band_pixel(px, width, row, x, 0) == c { 1 } else { 0 };
    let b1: nat = if band_pixel(px, width, row, x, 1) == c { 1 } else { 0 };
    let b2: nat = if band_pixel(px, width, row, x, 2) == c { 1 } else { 0 };
    let b3: nat = if band_pixel(px, width, row, x, 3) == c { 1 } else { 0 };
    let b4: nat = if band_pixel(px, width, row, x, 4) == c { 1 } else { 0 };
    let b5: nat = if band_pixel(px, width, row, x, 5) == c { 1 } else { 0 };
    assert(partial_map(px, width, row, c, x, 0) == 0);
    assert(partial_map(px, width, row, c, x, 1) == b0);
    assert(partial_map(px, width, row, c, x, 2) == b0 + 2 * b1);
    assert(partial_map(px, width, row, c, x, 3) == b0 + 2 * b1 + 4 * b2);
    assert(partial_map(px, width, row, c, x, 4) == b0 + 2 * b1 + 4 * b2 + 8 * b3);
    assert(partial_map(px, width, row, c, x, 5) == b0 + 2 * b1 + 4 * b2 + 8 * b3 + 16 * b4);
    assert(partial_map(px, width, row, c, x, 6) == b0 + 2 * b1 + 4 * b2 + 8 * b3 + 16 * b4 + 32 * b5);
    lemma_bits(b0, b1, b2, b3, b4, b5);
}

/// No color holds two registers.
pub proof fn registers_are_distinct(px: Seq<Pixel>, width: nat, rows: nat, keep_alpha: bool)
    ensures
        palette(px, width, rows, keep_alpha).no_duplicates(),
{
    lemma_palette_no_duplicates(px, width, rows, keep_alpha);
}

/// A register keeps its id: the registers after some bands are the first
/// registers after any later band.
pub proof fn registers_keep_their_ids(px: Seq<Pixel>, width: nat, r1: nat, r2: nat, keep_alpha: bool, id: int)
    requires
        r1 <= r2,
        0 <= id < palette(px, width, r1, keep_alpha).len(),
    ensures
        id < palette(px, width, r2, keep_alpha).len(),
        palette(px, width, r2, keep_alpha)[id] == palette(px, width, r1, keep_alpha)[id],
{
    lemma_palette_prefix(px, width, r1, r2, keep_alpha);
    let p1 = palette(px, width, r1, keep_alpha);
    let p2 = palette(px, width, r2, keep_alpha);
    assert(p2.take(p1.len() as int)[id] == p2[id]);
}

/// Every pixel of a drawn band has a register for its color.
pub proof fn pixels_are_registered(px: Seq<Pixel>, width: nat, row: nat, rows: nat, x: nat, line: nat, keep_alpha: bool)
    requires
        row < rows,
        x < width,
        line < 6,
    ensures
        palette(px, width, rows, keep_alpha).contains(key(band_pixel(px, width, row, x, line), keep_alpha)),
{
    let keys = band_keys(px, width, row, keep_alpha);
    let k = key(band_pixel(px, width, row, x, line), keep_alpha);
    let n = 6 * x + line;
    assert(n / 6 == x && n % 6 == line);
    assert(keys[n as int] == k);
    assert(keys.contains(k));
    lemma_absorb_contains(Seq::empty(), keys, k);
    lemma_absorb_contains(palette(px, width, row, keep_alpha), band_colors(px, width, row, keep_alpha), k);
    let p1 = palette(px, width, row + 1, keep_alpha);
    let p2 = palette(px, width, rows, keep_alpha);
    lemma_palette_prefix(px, width, row + 1, rows, keep_alpha);
    let i = choose|i: int| 0 <= i < p1.len() && p1[i] == k;
    assert(p2.take(p1.len() as int)[i] == p2[i]);
}

/// Every register holds the color of some pixel of a drawn band.
pub proof fn registers_come_from_pixels(px: Seq<Pixel>, width: nat, rows: nat, keep_alpha: bool, c: Pixel)
    requires
        palette(px, width, rows, keep_alpha).contains(c),
    ensures
        exists|row: nat, x: nat, line: nat|
            row < rows && x < width && line < 6 && #[trigger] key(band_pixel(px, width, row, x, line), keep_alpha) == c,
    decreases rows,
{
    let r = (rows - 1) as nat;
    lemma_absorb_contains(palette(px, width, r, keep_alpha), band_colors(px, width, r, keep_alpha), c);
    if palette(px, width, r, keep_alpha).contains(c) {
        registers_come_from_pixels(px, width, r, keep_alpha, c);
        let (row, x, line) = choose|row: nat, x: nat, line: nat|
            row < r && x < width && line < 6 && #[trigger] key(band_pixel(px, width, row, x, line), keep_alpha) == c;
        assert(key(band_pixel(px, width, row, x, line), keep_alpha) == c);
    } else {
        let keys = band_keys(px, width, r, keep_alpha);
        lemma_absorb_contains(Seq::empty(), keys, c);
        let k = choose|k: int| 0 <= k < keys.len() && keys[k] == c;
        let x = (k / 6) as nat;
        let line = (k % 6) as nat;
        assert(key(band_pixel(px, width, r, x, line), keep_alpha) == c);
    }
}

/// Absorbing adds at most one register per color absorbed.
proof fn lemma_absorb_len(reg: Seq<Pixel>, cs: Seq<Pixel>)
    ensures
        absorb(reg, cs).len() <= reg.len() + cs.len(),
    decreases cs.len(),
{
    if cs.len() > 0 {
        lemma_absorb_len(reg, cs.drop_last());
    }
}

/// There are never more registers than pixels in the drawn bands.
pub proof fn registers_are_bounded_by_pixels(px: Seq<Pixel>, width: nat, rows: nat, keep_alpha: bool)
    ensures
        palette(px, width, rows, keep_alpha).len() <= 6 * width * rows,
    decreases rows,
{
    if rows > 0 {
        let r = (rows - 1) as nat;
        registers_are_bounded_by_pixels(px, width, r, keep_alpha);
        lemma_absorb_len(palette(px, width, r, keep_alpha), band_colors(px, width, r, keep_alpha));
        lemma_absorb_len(Seq::empty(), band_keys(px, width, r, keep_alpha));
        assert(6 * width * rows == 6 * width * r + 6 * width) by (nonlinear_arith)
            requires
                rows == r + 1,
        ;
    }
}

/// Keeping the alpha channel, the shades are never read.
proof fn lemma_defines_ignore_shades(pal: Seq<Pixel>, from: nat, s1: Seq<Shade>, s2: Seq<Shade>)
    ensures
        defines(pal, from, true, s1) == defines(pal, from, true, s2),
    decreases pal.len(),
{
    if pal.len() > from {
        lemma_defines_ignore_shades(pal.drop_last(), from, s1, s2);
    }
}

/// Keeping the alpha channel, the image does not depend on the shades.
pub proof fn alpha_images_ignore_shades(px: Seq<Pixel>, width: nat, height: nat, s1: Seq<Shade>, s2: Seq<Shade>)
    ensures
        sixel_stream(px, width, height, true, s1) == sixel_stream(px, width, height, true, s2),
{
    lemma_bands_ignore_shades(px, width, height / 6, s1, s2);
}

/// Keeping the alpha channel, no band depends on the shades.
proof fn lemma_bands_ignore_shades(px: Seq<Pixel>, width: nat, rows: nat, s1: Seq<Shade>, s2: Seq<Shade>)
    ensures
        bands(px, width, rows, true, s1) == bands(px, width, rows, true, s2),
    decreases rows,
{
    if rows > 0 {
        let r = (rows - 1) as nat;
        lemma_bands_ignore_shades(px, width, r, s1, s2);
        lemma_defines_ignore_shades(
            palette(px, width, r + 1, true),
            palette(px, width, r, true).len(),
            s1,
            s2,
        );
    }
}

/// An image opens with the device control string and closes with the string
/// terminator.
pub proof fn images_are_framed(px: Seq<Pixel>, width: nat, height: nat, keep_alpha: bool, shades: Seq<Shade>)
    ensures
        sixel_stream(px, width, height, keep_alpha, shades).take(5) == opening(),
        sixel_stream(px, width, height, keep_alpha, shades).skip(
            sixel_stream(px, width, height, keep_alpha, shades).len() - 3,
        ) == closing(),
{
    let s = sixel_stream(px, width, height, keep_alpha, shades);
    assert(s.take(5) =~= opening());
    assert(s.skip(s.len() - 3) =~= closing());
}


/// The bytes that encoding an image gives: the prepared frame's sixel image.
pub open spec fn encoded(settings: Settings, image: (u32, u32, Seq<Pixel>), shades: Seq<Shade>) -> Seq<u8> {
    let frame = prepared(settings, image);
    sixel_stream(frame.2, frame.0 as nat, frame.1 as nat, keeps_alpha(settings), shades)
}

/// Encoding is reproducible: equal settings, images and shades give the same
/// bytes, register ids and block order included, since colors are registered
/// in the order they are first met rather than in a hash order.
pub proof fn encoding_is_reproducible(
    s1: Settings,
    s2: Settings,
    i1: (u32, u32, Seq<Pixel>),
    i2: (u32, u32, Seq<Pixel>),
    sh1: Seq<Shade>,
    sh2: Seq<Shade>,
)
    requires
        s1 == s2,
        i1 == i2,
        sh1 == sh2,
    ensures
        encoded(s1, i1, sh1) == encoded(s2, i2, sh2),
        prepared(s1, i1) == prepared(s2, i2),
        palette(prepared(s1, i1).2, prepared(s1, i1).0 as nat, (prepared(s1, i1).1 / 6) as nat, keeps_alpha(s1))
            == palette(prepared(s2, i2).2, prepared(s2, i2).0 as nat, (prepared(s2, i2).1 / 6) as nat, keeps_alpha(s2)),
{
}


/// The columns that one item of the stream stands for: a lone column is one
/// column, a repeat is its count of copies of its column, any other item none.
pub open spec fn code_columns(code: Code) -> Seq<u8> {
    match code {
        Code::Value(map) => seq![map],
        Code::Repeat(times, map) => Seq::new(times as nat, |_i: int| map),
        _ => Seq::empty(),
    }
}

/// The columns that a sequence of items stands for.
pub open spec fn codes_columns(cs: Seq<Code>) -> Seq<u8>
    decreases cs.len(),
{
    if cs.len() == 0 {
        Seq::empty()
    } else {
        codes_columns(cs.drop_last()) + code_columns(cs.last())
    }
}

/// The bytes of a sequence of items, one after the other.
pub open spec fn codes_bytes(cs: Seq<Code>) -> Seq<u8>
    decreases cs.len(),
{
    if cs.len() == 0 {
        Seq::empty()
    } else {
        codes_bytes(cs.drop_last()) + code_bytes(cs.last())
    }
}

/// The items that a sequence of runs is written as.
pub open spec fn run_codes(rs: Seq<(nat, u8)>) -> Seq<Code> {
    rs.map_values(|r: (nat, u8)| run_code(r))
}

/// Written runs of at least one and at most `u32::MAX` columns stand for
/// their columns.
proof fn lemma_run_codes(rs: Seq<(nat, u8)>)
    requires
        forall|k: int| 0 <= k < rs.len() ==> 1 <= #[trigger] rs[k].0 <= u32::MAX,
    ensures
        runs_bytes(rs) == codes_bytes(run_codes(rs)),
        codes_columns(run_codes(rs)) == expand(rs),
    decreases rs.len(),
{
    if rs.len() > 0 {
        let d = rs.drop_last();
        assert forall|k: int| 0 <= k < d.len() implies 1 <= #[trigger] d[k].0 <= u32::MAX by {
            assert(d[k] == rs[k]);
        }
        lemma_run_codes(d);
        assert(run_codes(rs).drop_last() =~= run_codes(d));
        assert(run_codes(rs).last() == run_code(rs.last()));
        let r = rs.last();
        assert(1 <= rs[rs.len() - 1].0 <= u32::MAX);
        if r.0 == 1 {
            assert(Seq::new(r.0, |_i: int| r.1) =~= seq![r.1]);
        } else {
            assert(Seq::new((r.0 as u32) as nat, |_i: int| r.1) =~= Seq::new(r.0, |_i: int| r.1));
        }
    }
}

/// The run-length bytes of a band's columns stand for exactly those columns:
/// they are the bytes of one item per run, and reading a lone column as one
/// column and a repeat `!n` as `n` copies of its column gives back every
/// column, in order.
pub proof fn written_runs_stand_for_the_columns(ms: Seq<u8>)
    requires
        ms.len() <= u32::MAX,
    ensures
        runs_bytes(runs(ms)) == codes_bytes(run_codes(runs(ms))),
        codes_columns(run_codes(runs(ms))) == ms,
        codes_columns(run_codes(runs(ms))).len() == ms.len(),
{
    lemma_runs_bounds(ms);
    runs_are_lossless(ms);
    let rs = runs(ms);
    assert forall|k: int| 0 <= k < rs.len() implies 1 <= #[trigger] rs[k].0 <= u32::MAX by {
        assert(1 <= rs[k].0 <= ms.len());
    }
    lemma_run_codes(rs);
}

/// The number of colors picks the ditherer: the VT340 table for 8 and for 16
/// colors, NeuQuant for 64 and for 256, the Gray2 table for any other
/// number, and no dithering without a number. Dithering keeps the size.
pub proof fn colors_pick_the_ditherer(image: (u32, u32, Seq<Pixel>), n: u16)
    ensures
        dithered(Some(8u16), image) == (image.0, image.1, vt340_dithered(image)),
        dithered(Some(16u16), image) == (image.0, image.1, vt340_dithered(image)),
        dithered(Some(64u16), image) == (image.0, image.1, neuquant_dithered(image, 64)),
        dithered(Some(256u16), image) == (image.0, image.1, neuquant_dithered(image, 256)),
        !(n == 8 || n == 16 || n == 64 || n == 256) ==> dithered(Some(n), image) == (
            image.0,
            image.1,
            gray2_dithered(image),
        ),
        dithered(None, image) == image,
{
}

/// The set size is the target of picto's scaling, width first: Lanczos3 when
/// it is narrower or lower than the image, linear otherwise; without a set
/// size the image is scaled linearly to its own size.
pub proof fn the_set_size_is_the_scaling_target(settings: Settings, image: (u32, u32, Seq<Pixel>), w: u32, h: u32)
    ensures
        settings.spec_size() == Some((w, h)) ==> scaled(settings, image) == if w < image.0 || h
            < image.1 {
            lanczos3_scaled(image, w, h)
        } else {
            linear_scaled(image, w, h)
        },
        settings.spec_size() is None ==> scaled(settings, image) == linear_scaled(image, image.0, image.1),
{
}

/// A frame is scaled first and dithered last: it is the dithering of the
/// scaled image, so with 8 or 16 colors every pixel comes out of the VT340
/// ditherer applied to picto's scaling toward the set size.
pub proof fn frames_are_dithered_after_scaling(settings: Settings, image: (u32, u32, Seq<Pixel>), w: u32, h: u32)
    ensures
        prepared(settings, image) == dithered(settings.spec_colors(), scaled(settings, image)),
        (settings.spec_colors() == Some(8u16) || settings.spec_colors() == Some(16u16))
            && settings.spec_size() == Some((w, h)) ==> prepared(settings, image).2 == vt340_dithered(
            if w < image.0 || h < image.1 {
                lanczos3_scaled(image, w, h)
            } else {
                linear_scaled(image, w, h)
            },
        ),
{
    the_set_size_is_the_scaling_target(settings, image, w, h);
    colors_pick_the_ditherer(scaled(settings, image), 8);
}

/// A text cell is as wide as the window's pixel width over its columns and as
/// high as its pixel height over its rows; without both pixel sizes there is
/// no cell size.
pub proof fn cells_divide_the_window(size: WindowSize, w: u16, h: u16)
    ensures
        size.width == Some(w) && size.height == Some(h) ==> spec_cell(size) == Some(
            ((w / size.cols) as u32, (h / size.rows) as u32),
        ),
        size.width is None || size.height is None ==> spec_cell(size) is None,
{
}

} // verus!
