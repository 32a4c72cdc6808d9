//! The rasterizer: horizontal and vertical pixel replication, and
//! bit-packing of palette indices into scanline bytes.

use vstd::prelude::*;
use vstd::arithmetic::power2::{lemma2_to64, lemma_pow2_adds, lemma_pow2_pos, pow2};
use vstd::arithmetic::div_mod::{
    lemma_div_multiples_vanish, lemma_fundamental_div_mod, lemma_fundamental_div_mod_converse,
    lemma_multiply_divide_lt,
};
use vstd::arithmetic::mul::{lemma_mul_inequality, lemma_mul_is_distributive_sub_other_way};
use crate::depth::ceil_div_spec;

verus! {

/// The depths an indexed PNG allows: the only ones this rasterizer packs.
pub open spec fn valid_depth(depth: int) -> bool {
    depth == 1 || depth == 2 || depth == 4 || depth == 8
}

/// Every pixel value fits in `depth` bits.
pub open spec fn pixels_fit(pixels: Seq<u8>, depth: int) -> bool {
    forall|i: int| 0 <= i < pixels.len() ==> (pixels[i] as int) < pow2(depth as nat)
}

/// The value at position `i` of the conceptual horizontally up-scaled
/// scanline: source pixel `i / scale`, so each source pixel stands
/// `scale` times in a row. Positions at or past the scaled width count
/// as zero, the filler bits of a trailing partial byte.
pub open spec fn pixel_term(row: Seq<u8>, scale: int, i: int) -> int {
    if 0 <= i < row.len() * scale {
        row[i / scale] as int
    } else {
        0
    }
}

/// Value of byte `j` of a packed scanline after its first `n` pixels:
/// pixels go in most significant bits first, so pixel `idx` of a byte
/// weighs `pow2(8 - depth * (idx + 1))`.
pub open spec fn packed_prefix(row: Seq<u8>, scale: int, depth: int, j: int, n: int) -> int
    decreases n,
{
    if n <= 0 || depth <= 0 || depth * n > 8 {
        0
    } else {
        packed_prefix(row, scale, depth, j, n - 1) + pixel_term(
            row,
            scale,
            j * (8int / depth) + (n - 1),
        ) * pow2((8 - depth * n) as nat)
    }
}

/// Byte `j` of the packed scanline for one source row.
pub open spec fn packed_byte(row: Seq<u8>, scale: int, depth: int, j: int) -> int {
    packed_prefix(row, scale, depth, j, 8int / depth)
}

/// One whole packed output scanline for one source row.
pub open spec fn packed_scanline(row: Seq<u8>, scale: int, depth: int, bpl: int) -> Seq<u8> {
    Seq::new(bpl as nat, |j: int| packed_byte(row, scale, depth, j) as u8)
}

/// Source row `r` of the flat pixel grid.
pub open spec fn source_row(pixels: Seq<u8>, width: int, r: int) -> Seq<u8> {
    pixels.subrange(r * width, r * width + width)
}

/// The whole packed buffer: source rows in order, each packed once and
/// written `scale` times over.
pub open spec fn raster_spec(
    pixels: Seq<u8>,
    width: int,
    scale: int,
    depth: int,
    bpl: int,
) -> Seq<u8> {
    Seq::new(
        ((pixels.len() as int / width) * scale * bpl) as nat,
        |t: int| packed_byte(source_row(pixels, width, t / bpl / scale), scale, depth, t % bpl) as u8,
    )
}

/// Output scanline `r` of a packed buffer.
pub open spec fn scanline(buf: Seq<u8>, bpl: int, r: int) -> Seq<u8> {
    buf.subrange(r * bpl, r * bpl + bpl)
}

/// A packed byte never outgrows eight bits: after `n` pixels it still
/// leaves its `8 - depth * n` low bits clear.
proof fn lemma_packed_prefix_bound(row: Seq<u8>, scale: int, depth: int, j: int, n: int)
    requires
        valid_depth(depth),
        scale >= 1,
        0 <= n,
        depth * n <= 8,
        pixels_fit(row, depth),
    ensures
        0 <= packed_prefix(row, scale, depth, j, n) <= 256 - pow2((8 - depth * n) as nat),
    decreases n,
{
    lemma2_to64();
    if n > 0 {
        assert(depth * (n - 1) == depth * n - depth) by {
            vstd::arithmetic::mul::lemma_mul_is_distributive_sub(depth, n, 1);
        };
        lemma_packed_prefix_bound(row, scale, depth, j, n - 1);
        let i = j * (8int / depth) + (n - 1);
        let t = pixel_term(row, scale, i);
        assert(0 <= t < pow2(depth as nat) as int) by {
            if 0 <= i < row.len() * scale {
                assert(i < scale * (row.len() as int)) by {
                    vstd::arithmetic::mul::lemma_mul_is_commutative(
                        row.len() as int,
                        scale,
                    );
                };
                lemma_multiply_divide_lt(i, scale, row.len() as int);
                assert(0 <= i / scale < row.len());
            }
        };
        let w = pow2((8 - depth * n) as nat) as int;
        lemma_pow2_pos((8 - depth * n) as nat);
        assert(t * w <= (pow2(depth as nat) as int - 1) * w) by {
            lemma_mul_inequality(t, pow2(depth as nat) as int - 1, w);
        };
        assert((pow2(depth as nat) as int - 1) * w == pow2(depth as nat) as int * w - w) by {
            lemma_mul_is_distributive_sub_other_way(w, pow2(depth as nat) as int, 1);
        };
        assert(pow2(depth as nat) as int * w == pow2((8 - depth * (n - 1)) as nat) as int) by {
            lemma_pow2_adds(depth as nat, (8 - depth * n) as nat);
        };
        assert(t * w >= 0) by {
            vstd::arithmetic::mul::lemma_mul_nonnegative(t, w);
        };
    }
}

/// Two to the `e`-th power, for exponents below eight.
fn pow2_u8(e: u8) -> (r: u8)
    requires
        e < 8,
    ensures
        r as int == pow2(e as nat),
{
    proof {
        lemma2_to64();
    }
    if e == 0 {
        1
    } else if e == 1 {
        2
    } else if e == 2 {
        4
    } else if e == 3 {
        8
    } else if e == 4 {
        16
    } else if e == 5 {
        32
    } else if e == 6 {
        64
    } else {
        128
    }
}

/// How many packed pixels fit in one byte at the given depth.
pub fn pixels_in_byte(depth: u8) -> (r: usize)
    requires
        valid_depth(depth as int),
    ensures
        r as int == 8int / depth as int,
        depth as int * r as int == 8,
        r as int * depth as int == 8,
{
    let r: usize = if depth == 1 {
        8
    } else if depth == 2 {
        4
    } else if depth == 4 {
        2
    } else {
        1
    };
    proof {
        assert(depth as int * r as int == 8);
        lemma_div_multiples_vanish(r as int, depth as int);
    }
    r
}

/// Pack source row `row` of `pixels` into one output scanline of
/// `bytes_per_line` bytes: each source pixel written `scale` times over
/// at `depth` bits per pixel, most significant bits first; trailing bits
/// of a partial last byte stay zero.
#[verifier::loop_isolation(false)]
#[verifier::rlimit(100)]
fn pack_scanline(
    pixels: &[u8],
    row: usize,
    width: usize,
    scale: usize,
    depth: u8,
    bytes_per_line: usize,
) -> (line: Vec<u8>)
    requires
        valid_depth(depth as int),
        width >= 1,
        scale >= 1,
        pixels@.len() <= usize::MAX,
        (row + 1) * width <= pixels@.len(),
        width * scale <= usize::MAX,
        bytes_per_line as int == ceil_div_spec(width as int * scale as int, 8int / depth as int),
        pixels_fit(pixels@, depth as int),
    ensures
        line@ == packed_scanline(
            source_row(pixels@, width as int, row as int),
            scale as int,
            depth as int,
            bytes_per_line as int,
        ),
        line@.len() == bytes_per_line,
{
    let ghost rowseq = source_row(pixels@, width as int, row as int);
    proof {
        vstd::arithmetic::mul::lemma_mul_nonnegative(row as int, width as int);
        assert((row as int + 1) * width as int == row as int * width as int + width as int)
            by (nonlinear_arith);
        assert(rowseq.len() == width);
    }
    let ppb: usize = pixels_in_byte(depth);
    let ow: usize = width * scale;
    let row_off: usize = row * width;
    let mut line: Vec<u8> = Vec::new();
    let mut i: usize = 0;
    let mut j: usize = 0;
    while j < bytes_per_line
        invariant
            j <= bytes_per_line,
            line@.len() == j,
            forall|b: int|
                0 <= b < j ==> line@[b] as int == packed_byte(
                    rowseq,
                    scale as int,
                    depth as int,
                    b,
                ),
            i as int == if j as int * ppb as int <= ow as int {
                j as int * ppb as int
            } else {
                ow as int
            },
        decreases bytes_per_line - j,
    {
        let mut byte: u8 = 0;
        let mut idx: usize = 0;
        while idx < ppb
            invariant
                j < bytes_per_line,
                idx <= ppb,
                byte as int == packed_prefix(rowseq, scale as int, depth as int, j as int, idx as int),
                i as int == if j as int * ppb as int + idx as int <= ow as int {
                    j as int * ppb as int + idx as int
                } else {
                    ow as int
                },
            decreases ppb - idx,
        {
            proof {
                assert(depth as int * (idx as int + 1) <= 8 && depth as int * (idx as int + 1)
                    >= 1) by {
                    lemma_mul_inequality(idx as int + 1, ppb as int, depth as int);
                    vstd::arithmetic::mul::lemma_mul_is_commutative(idx as int + 1, depth as int);
                };
            }
            if i < ow {
                proof {
                    assert(i as int == j as int * ppb as int + idx as int);
                    assert(i < scale * width) by {
                        vstd::arithmetic::mul::lemma_mul_is_commutative(
                            width as int,
                            scale as int,
                        );
                    };
                    lemma_multiply_divide_lt(i as int, scale as int, width as int);
                    assert(pixel_term(rowseq, scale as int, i as int) == rowseq[i as int
                        / scale as int]);
                }
                let pixel: u8 = pixels[row_off + i / scale];
                let shift: u8 = 8 - depth * (idx as u8 + 1);
                let m: u8 = pow2_u8(shift);
                proof {
                    lemma_packed_prefix_bound(
                        rowseq,
                        scale as int,
                        depth as int,
                        j as int,
                        idx as int,
                    );
                    assert(pixel as int * m as int <= (pow2(depth as nat) as int - 1) * (
                    m as int)) by {
                        lemma_mul_inequality(pixel as int, pow2(depth as nat) as int - 1, m as int);
                    };
                    assert((pow2(depth as nat) as int - 1) * m as int == pow2(depth as nat) as int
                        * m as int - m as int) by {
                        lemma_mul_is_distributive_sub_other_way(
                            m as int,
                            pow2(depth as nat) as int,
                            1,
                        );
                    };
                    assert(pow2(depth as nat) as int * m as int == pow2(
                        (8 - depth as int * idx as int) as nat,
                    ) as int) by {
                        assert(depth as int * (idx as int + 1) == depth as int * idx as int
                            + depth as int) by {
                            vstd::arithmetic::mul::lemma_mul_is_distributive_add(
                                depth as int,
                                idx as int,
                                1,
                            );
                        };
                        lemma_pow2_adds(depth as nat, (8 - depth as int * (idx as int + 1)) as nat);
                    };
                    assert(pixel as int * m as int >= 0) by {
                        vstd::arithmetic::mul::lemma_mul_nonnegative(pixel as int, m as int);
                    };
                    lemma2_to64();
                }
                byte = byte + pixel * m;
                i = i + 1;
            } else {
                proof {
                    assert(pixel_term(rowseq, scale as int, j as int * ppb as int + idx as int)
                        == 0);
                }
            }
            idx = idx + 1;
        }
        proof {
            lemma_packed_prefix_bound(rowseq, scale as int, depth as int, j as int, ppb as int);
            lemma2_to64();
            assert(byte as int == packed_byte(rowseq, scale as int, depth as int, j as int));
            assert(j as int * ppb as int + ppb as int == (j as int + 1) * ppb as int) by {
                vstd::arithmetic::mul::lemma_mul_is_distributive_add_other_way(
                    ppb as int,
                    j as int,
                    1,
                );
            };
        }
        line.push(byte);
        j = j + 1;
    }
    proof {
        assert(line@ =~= packed_scanline(
            rowseq,
            scale as int,
            depth as int,
            bytes_per_line as int,
        ));
    }
    line
}

/// Rasterize the pixel grid: pack every source row at `depth` bits per
/// pixel with each pixel written `scale` times over, and write every
/// packed scanline `scale` times in a row. The buffer holds the output
/// scanlines top to bottom, in source order.
#[verifier::loop_isolation(false)]
#[verifier::rlimit(100)]
pub fn rasterize(
    pixels: &[u8],
    width: usize,
    scale: usize,
    depth: u8,
    bytes_per_line: usize,
) -> (out: Vec<u8>)
    requires
        valid_depth(depth as int),
        width >= 1,
        scale >= 1,
        pixels@.len() as int % width as int == 0,
        pixels_fit(pixels@, depth as int),
        width * scale <= usize::MAX,
        bytes_per_line as int == ceil_div_spec(width as int * scale as int, 8int / depth as int),
        bytes_per_line * ((pixels@.len() as int / width as int) * scale) <= usize::MAX,
    ensures
        out@ == raster_spec(
            pixels@,
            width as int,
            scale as int,
            depth as int,
            bytes_per_line as int,
        ),
        out@.len() == bytes_per_line * ((pixels@.len() as int / width as int) * scale),
{
    let height: usize = pixels.len() / width;
    let ghost total = (height as int * scale as int) * bytes_per_line as int;
    proof {
        assert(total == bytes_per_line as int * (height as int * scale as int)
            && total >= 0) by (nonlinear_arith)
            requires
                height >= 0 && scale >= 0 && bytes_per_line >= 0 && total == (height as int
                    * scale as int) * bytes_per_line as int,
        ;
        assert((0int * scale as int) * bytes_per_line as int == 0) by (nonlinear_arith);
        assert(height as int * width as int == pixels@.len()) by {
            lemma_fundamental_div_mod(pixels@.len() as int, width as int);
            vstd::arithmetic::mul::lemma_mul_is_commutative(height as int, width as int);
        };
    }
    let mut out: Vec<u8> = Vec::new();
    let mut r: usize = 0;
    while r < height
        invariant
            r <= height,
            out@.len() == (r as int * scale as int) * bytes_per_line as int,
            forall|t: int|
                0 <= t < out@.len() ==> out@[t] == packed_byte(
                    source_row(pixels@, width as int, t / bytes_per_line as int / scale as int),
                    scale as int,
                    depth as int,
                    t % bytes_per_line as int,
                ) as u8,
        decreases height - r,
    {
        proof {
            assert((r as int + 1) * width as int <= height as int * width as int) by {
                lemma_mul_inequality(r as int + 1, height as int, width as int);
            };
        }
        let line = pack_scanline(pixels, r, width, scale, depth, bytes_per_line);
        let mut v: usize = 0;
        while v < scale
            invariant
                v <= scale,
                r < height,
                line@ == packed_scanline(
                    source_row(pixels@, width as int, r as int),
                    scale as int,
                    depth as int,
                    bytes_per_line as int,
                ),
                out@.len() == (r as int * scale as int + v as int) * bytes_per_line as int,
                forall|t: int|
                    0 <= t < out@.len() ==> out@[t] == packed_byte(
                        source_row(
                            pixels@,
                            width as int,
                            t / bytes_per_line as int / scale as int,
                        ),
                        scale as int,
                        depth as int,
                        t % bytes_per_line as int,
                    ) as u8,
            decreases scale - v,
        {
            let ghost rows_done = r as int * scale as int + v as int;
            proof {
                assert(rows_done + 1 <= height as int * scale as int) by (nonlinear_arith)
                    requires
                        r < height && v < scale && rows_done == r as int * scale as int + v as int,
                ;
                assert((rows_done + 1) * bytes_per_line as int <= total) by {
                    lemma_mul_inequality(
                        rows_done + 1,
                        height as int * scale as int,
                        bytes_per_line as int,
                    );
                };
                assert((rows_done + 1) * bytes_per_line as int == rows_done
                    * bytes_per_line as int + bytes_per_line as int) by {
                    vstd::arithmetic::mul::lemma_mul_is_distributive_add_other_way(
                        bytes_per_line as int,
                        rows_done,
                        1,
                    );
                };
                assert(rows_done * bytes_per_line as int >= 0) by {
                    vstd::arithmetic::mul::lemma_mul_nonnegative(
                        rows_done,
                        bytes_per_line as int,
                    );
                };
            }
            let mut b: usize = 0;
            while b < bytes_per_line
                invariant
                    b <= bytes_per_line,
                    v < scale,
                    out@.len() == rows_done * bytes_per_line as int + b as int,
                    forall|t: int|
                        0 <= t < out@.len() ==> out@[t] == packed_byte(
                            source_row(
                                pixels@,
                                width as int,
                                t / bytes_per_line as int / scale as int,
                            ),
                            scale as int,
                            depth as int,
                            t % bytes_per_line as int,
                        ) as u8,
                decreases bytes_per_line - b,
            {
                proof {
                    let t = rows_done * bytes_per_line as int + b as int;
                    lemma_fundamental_div_mod_converse(
                        t,
                        bytes_per_line as int,
                        rows_done,
                        b as int,
                    );
                    lemma_fundamental_div_mod_converse(rows_done, scale as int, r as int, v as int);
                    assert(t / bytes_per_line as int / scale as int == r as int);
                    assert(t % bytes_per_line as int == b as int);
                    assert(line@[b as int] == packed_byte(
                        source_row(pixels@, width as int, r as int),
                        scale as int,
                        depth as int,
                        b as int,
                    ) as u8);
                }
                out.push(line[b]);
                b = b + 1;
            }
            v = v + 1;
        }
        proof {
            assert((r as int + 1) * scale as int == r as int * scale as int + scale as int) by {
                vstd::arithmetic::mul::lemma_mul_is_distributive_add_other_way(
                    scale as int,
                    r as int,
                    1,
                );
            };
        }
        r = r + 1;
    }
    proof {
        assert(out@.len() == (pixels@.len() as int / width as int) * scale as int
            * bytes_per_line as int);
        assert(out@ =~= raster_spec(
            pixels@,
            width as int,
            scale as int,
            depth as int,
            bytes_per_line as int,
        ));
        assert(out@.len() == bytes_per_line as int * ((pixels@.len() as int / width as int)
            * scale as int)) by (nonlinear_arith)
            requires
                out@.len() == (pixels@.len() as int / width as int) * scale as int
                    * bytes_per_line as int,
        ;
    }
    out
}

/// Horizontal replication: in the conceptual up-scaled scanline that the
/// packed bytes draw their pixels from, source pixel `p` stands at the
/// `scale` consecutive positions `p * scale + q`; with scale 1 the
/// expansion is the source row itself, pixel for pixel in order.
pub proof fn lemma_horizontal_replication(row: Seq<u8>, scale: int, p: int, q: int)
    requires
        scale >= 1,
        0 <= p < row.len(),
        0 <= q < scale,
    ensures
        pixel_term(row, scale, p * scale + q) == row[p] as int,
        scale == 1 ==> pixel_term(row, 1, p) == row[p] as int,
{
    let i = p * scale + q;
    lemma_fundamental_div_mod_converse(i, scale, p, q);
    assert(0 <= i) by {
        vstd::arithmetic::mul::lemma_mul_nonnegative(p, scale);
    };
    assert(i < row.len() * scale) by (nonlinear_arith)
        requires
            0 <= p < row.len() && 0 <= q < scale && i == p * scale + q,
    ;
}

/// Vertical replication: output scanline `i * scale + j` of the packed
/// buffer is byte-identical to the packed form of source row `i`, for
/// every `j` below `scale`.
pub proof fn lemma_vertical_replication(
    pixels: Seq<u8>,
    width: int,
    scale: int,
    depth: int,
    bpl: int,
    i: int,
    j: int,
)
    requires
        width >= 1,
        scale >= 1,
        bpl >= 1,
        0 <= i < pixels.len() as int / width,
        0 <= j < scale,
    ensures
        scanline(raster_spec(pixels, width, scale, depth, bpl), bpl, i * scale + j)
            == packed_scanline(source_row(pixels, width, i), scale, depth, bpl),
{
    let rs = raster_spec(pixels, width, scale, depth, bpl);
    let h = pixels.len() as int / width;
    let row_out = i * scale + j;
    assert(0 <= row_out && row_out + 1 <= h * scale) by (nonlinear_arith)
        requires
            0 <= i < h && 0 <= j < scale && row_out == i * scale + j,
    ;
    assert((row_out + 1) * bpl <= (h * scale) * bpl) by {
        lemma_mul_inequality(row_out + 1, h * scale, bpl);
    };
    assert((row_out + 1) * bpl == row_out * bpl + bpl) by {
        vstd::arithmetic::mul::lemma_mul_is_distributive_add_other_way(bpl, row_out, 1);
    };
    assert(row_out * bpl >= 0) by {
        vstd::arithmetic::mul::lemma_mul_nonnegative(row_out, bpl);
    };
    assert((h * scale) * bpl >= 0) by {
        vstd::arithmetic::mul::lemma_mul_nonnegative(h * scale, bpl);
    };
    assert(rs.len() == (h * scale) * bpl);
    let left = scanline(rs, bpl, row_out);
    let right = packed_scanline(source_row(pixels, width, i), scale, depth, bpl);
    assert forall|b: int| 0 <= b < bpl implies left[b] == right[b] by {
        let t = row_out * bpl + b;
        lemma_fundamental_div_mod_converse(t, bpl, row_out, b);
        lemma_fundamental_div_mod_converse(row_out, scale, i, j);
        assert(left[b] == rs[t]);
        assert(rs[t] == packed_byte(source_row(pixels, width, i), scale, depth, b) as u8);
    };
    assert(left =~= right);
}

} // verus!
