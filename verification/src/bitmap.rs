//! Bitmap normalization: a device-dependent 32-bit BGRA buffer becomes a
//! canonical top-down RGBA buffer. Channel reorder swaps the first and
//! third byte of every four-byte pixel; a bottom-up buffer additionally
//! has its rows put in top-down order.

use vstd::prelude::*;
use vstd::arithmetic::div_mod::lemma_fundamental_div_mod;
use vstd::arithmetic::div_mod::lemma_fundamental_div_mod_converse;
use vstd::arithmetic::div_mod::lemma_mod_bound;
use vstd::arithmetic::div_mod::lemma_mod_multiples_vanish;

verus! {

/// The position byte `i` of the RGBA reorder reads from: the first and
/// third byte of every four-byte group trade places.
pub open spec fn rgba_source_index(i: int, len: int) -> int {
    if i % 4 == 0 && i + 2 < len {
        i + 2
    } else if i % 4 == 2 {
        i - 2
    } else {
        i
    }
}

/// `s` with the first and third byte of every four-byte group swapped
/// (BGRA to RGBA channel reorder).
pub open spec fn bgra_to_rgba_seq(s: Seq<u8>) -> Seq<u8> {
    Seq::new(s.len(), |i: int| s[rgba_source_index(i, s.len() as int)])
}

/// The position byte `i` reads from when rows of `row` bytes are put in
/// reverse vertical order: same offset within the row, mirrored row.
pub open spec fn mirror_index(i: int, row: int, height: int) -> int {
    (height - 1 - i / row) * row + i % row
}

/// `s` with its `height` pixel rows of `4 * width` bytes each in reverse
/// order. Positions outside the `height` rows are left unchanged.
pub open spec fn flip_rows_seq(s: Seq<u8>, width: int, height: int) -> Seq<u8> {
    let row = 4 * width;
    if row <= 0 {
        s
    } else {
        Seq::new(
            s.len(),
            |i: int|
                if i / row < height {
                    s[mirror_index(i, row, height)]
                } else {
                    s[i]
                },
        )
    }
}

/// The canonical top-down RGBA form of a 32-bit device bitmap buffer:
/// channels reordered, and rows flipped when the buffer was bottom-up.
pub open spec fn normalize_spec(s: Seq<u8>, width: int, height: int, top_down: bool) -> Seq<u8> {
    if top_down {
        bgra_to_rgba_seq(s)
    } else {
        flip_rows_seq(bgra_to_rgba_seq(s), width, height)
    }
}

/// Row mirroring is an index involution: within a `row * height` buffer,
/// the mirror of an index is in range, lands in the mirrored row at the
/// same offset, and mirroring twice gives the index back.
proof fn lemma_mirror(i: int, row: int, height: int)
    requires
        row > 0,
        height > 0,
        0 <= i < row * height,
    ensures
        0 <= mirror_index(i, row, height) < row * height,
        mirror_index(i, row, height) / row == height - 1 - i / row,
        mirror_index(i, row, height) % row == i % row,
        0 <= i / row < height,
        mirror_index(mirror_index(i, row, height), row, height) == i,
{
    lemma_fundamental_div_mod(i, row);
    lemma_mod_bound(i, row);
    let y = i / row;
    let x = i % row;
    assert(0 <= y && y < height) by (nonlinear_arith)
        requires
            i == row * y + x,
            0 <= x < row,
            0 <= i < row * height,
            row > 0,
    ;
    let m = (height - 1 - y) * row + x;
    assert(0 <= m < row * height) by (nonlinear_arith)
        requires
            m == (height - 1 - y) * row + x,
            0 <= height - 1 - y < height,
            0 <= x < row,
            row > 0,
    ;
    lemma_fundamental_div_mod_converse(m, row, height - 1 - y, x);
    let m2 = mirror_index(m, row, height);
    assert(m2 == (height - 1 - (height - 1 - y)) * row + x);
    assert(m2 == i) by (nonlinear_arith)
        requires
            m2 == (height - 1 - (height - 1 - y)) * row + x,
            i == row * y + x,
    ;
}

/// Mirroring rows and reordering channels commute, because a whole
/// number of pixels fits in each row: a mirrored index keeps its offset
/// modulo four, and its channel partner sits in the same row.
proof fn lemma_mirror_swap_commute(i: int, width: int, height: int)
    requires
        width > 0,
        height > 0,
        0 <= i < 4 * width * height,
    ensures
        rgba_source_index(mirror_index(i, 4 * width, height), 4 * width * height) == mirror_index(
            rgba_source_index(i, 4 * width * height),
            4 * width,
            height,
        ),
{
    let row = 4 * width;
    let len = 4 * width * height;
    assert(len == row * height) by (nonlinear_arith)
        requires
            row == 4 * width,
            len == 4 * width * height,
    ;
    lemma_mirror(i, row, height);
    lemma_fundamental_div_mod(i, row);
    lemma_mod_bound(i, row);
    let y = i / row;
    let x = i % row;
    let m = mirror_index(i, row, height);
    // Offsets modulo four agree between an index and its in-row mirror.
    lemma_mod_multiples_vanish(y * width, x, 4);
    assert(i == 4 * (y * width) + x) by (nonlinear_arith)
        requires
            i == row * y + x,
            row == 4 * width,
    ;
    lemma_mod_multiples_vanish((height - 1 - y) * width, x, 4);
    assert(m == 4 * ((height - 1 - y) * width) + x) by (nonlinear_arith)
        requires
            m == (height - 1 - y) * row + x,
            row == 4 * width,
    ;
    assert(i % 4 == x % 4);
    assert(m % 4 == x % 4);
    if x % 4 == 0 {
        // The group starts at most four bytes before the row's end.
        assert(x + 2 < row) by {
            lemma_fundamental_div_mod(x, 4);
            lemma_mod_bound(x, 4);
            assert(row == 4 * width);
            assert(x == 4 * (x / 4));
            assert(x / 4 < width) by (nonlinear_arith)
                requires
                    x == 4 * (x / 4),
                    x < 4 * width,
            ;
            assert(x + 2 < 4 * width) by (nonlinear_arith)
                requires
                    x == 4 * (x / 4),
                    x / 4 <= width - 1,
            ;
        }
        lemma_fundamental_div_mod_converse(i + 2, row, y, x + 2);
        lemma_fundamental_div_mod_converse(m + 2, row, height - 1 - y, x + 2);
        assert(i + 2 < len) by (nonlinear_arith)
            requires
                i == row * y + x,
                x + 2 < row,
                y <= height - 1,
                len == row * height,
                row > 0,
        ;
        assert(m + 2 < len) by (nonlinear_arith)
            requires
                m == (height - 1 - y) * row + x,
                x + 2 < row,
                0 <= height - 1 - y <= height - 1,
                len == row * height,
                row > 0,
        ;
        assert(mirror_index(i + 2, row, height) == m + 2);
    } else if x % 4 == 2 {
        assert(x >= 2) by {
            lemma_fundamental_div_mod(x, 4);
            assert(x == 4 * (x / 4) + 2);
            assert(x >= 2) by (nonlinear_arith)
                requires
                    x == 4 * (x / 4) + 2,
                    0 <= x,
            ;
        }
        lemma_fundamental_div_mod_converse(i - 2, row, y, x - 2);
        lemma_fundamental_div_mod_converse(m - 2, row, height - 1 - y, x - 2);
        assert(mirror_index(i - 2, row, height) == m - 2);
    } else {
        assert(rgba_source_index(i, len) == i);
        assert(rgba_source_index(m, len) == m);
    }
}

/// Flipping rows twice gives the original buffer back.
pub proof fn lemma_flip_rows_involutive(s: Seq<u8>, width: int, height: int)
    requires
        width >= 0,
        height >= 0,
        s.len() == 4 * width * height,
    ensures
        flip_rows_seq(flip_rows_seq(s, width, height), width, height) == s,
{
    let row = 4 * width;
    if row <= 0 || height <= 0 {
        assert(s.len() == 0) by (nonlinear_arith)
            requires
                s.len() == 4 * width * height,
                width >= 0,
                height >= 0,
                4 * width <= 0 || height <= 0,
        ;
        assert(flip_rows_seq(flip_rows_seq(s, width, height), width, height) =~= s);
    } else {
        let f = flip_rows_seq(s, width, height);
        assert(s.len() == row * height) by (nonlinear_arith)
            requires
                s.len() == 4 * width * height,
                row == 4 * width,
        ;
        assert forall|i: int| 0 <= i < s.len() implies flip_rows_seq(f, width, height)[i] == s[i] by {
            lemma_mirror(i, row, height);
            let m = mirror_index(i, row, height);
            lemma_mirror(m, row, height);
        }
        assert(flip_rows_seq(flip_rows_seq(s, width, height), width, height) =~= s);
    }
}

/// Channel reorder and row flip commute.
proof fn lemma_bgra_flip_commute(s: Seq<u8>, width: int, height: int)
    requires
        width >= 0,
        height >= 0,
        s.len() == 4 * width * height,
    ensures
        bgra_to_rgba_seq(flip_rows_seq(s, width, height)) == flip_rows_seq(
            bgra_to_rgba_seq(s),
            width,
            height,
        ),
{
    let row = 4 * width;
    let len = s.len() as int;
    if row <= 0 || height <= 0 {
        assert(len == 0) by (nonlinear_arith)
            requires
                len == 4 * width * height,
                width >= 0,
                height >= 0,
                4 * width <= 0 || height <= 0,
        ;
        assert(bgra_to_rgba_seq(flip_rows_seq(s, width, height)) =~= flip_rows_seq(
            bgra_to_rgba_seq(s),
            width,
            height,
        ));
    } else {
        assert(len == row * height) by (nonlinear_arith)
            requires
                len == 4 * width * height,
                row == 4 * width,
        ;
        assert forall|i: int| 0 <= i < len implies bgra_to_rgba_seq(flip_rows_seq(s, width, height))[i]
            == flip_rows_seq(bgra_to_rgba_seq(s), width, height)[i] by {
            lemma_mirror(i, row, height);
            let j = rgba_source_index(i, len);
            assert(0 <= j < len);
            lemma_mirror(j, row, height);
            lemma_mirror_swap_commute(i, width, height);
        }
        assert(bgra_to_rgba_seq(flip_rows_seq(s, width, height)) =~= flip_rows_seq(
            bgra_to_rgba_seq(s),
            width,
            height,
        ));
    }
}

/// Orientation correctness: a bottom-up buffer and its top-down
/// equivalent (the same rows in reverse vertical order) normalize to the
/// same canonical RGBA buffer.
pub proof fn lemma_orientation_equivalence(top_down: Seq<u8>, width: int, height: int)
    requires
        width >= 0,
        height >= 0,
        top_down.len() == 4 * width * height,
    ensures
        normalize_spec(flip_rows_seq(top_down, width, height), width, height, false)
            == normalize_spec(top_down, width, height, true),
{
    let bottom_up = flip_rows_seq(top_down, width, height);
    assert(bottom_up.len() == top_down.len());
    lemma_bgra_flip_commute(top_down, width, height);
    lemma_flip_rows_involutive(bgra_to_rgba_seq(top_down), width, height);
}

/// Reorders a 32-bit BGRA buffer into RGBA byte order.
pub fn bgra_to_rgba(buffer: &Vec<u8>) -> (r: Vec<u8>)
    ensures
        r@ == bgra_to_rgba_seq(buffer@),
{
    let n = buffer.len();
    let mut out: Vec<u8> = Vec::new();
    let mut i: usize = 0;
    while i < n
        invariant
            n == buffer@.len(),
            i <= n,
            out@.len() == i,
            forall|j: int| 0 <= j < i ==> out@[j] == bgra_to_rgba_seq(buffer@)[j],
        decreases n - i,
    {
        let b = if i % 4 == 0 && n - i > 2 {
            buffer[i + 2]
        } else if i % 4 == 2 {
            buffer[i - 2]
        } else {
            buffer[i]
        };
        out.push(b);
        i = i + 1;
    }
    proof {
        assert(out@ =~= bgra_to_rgba_seq(buffer@));
    }
    out
}

/// Puts the `height` rows of `4 * width` bytes each in reverse vertical
/// order, with a whole-row block copy into a fresh buffer.
pub fn flip_rows(buffer: &Vec<u8>, width: u32, height: u32) -> (r: Vec<u8>)
    requires
        buffer@.len() == 4 * (width as int) * (height as int),
    ensures
        r@ == flip_rows_seq(buffer@, width as int, height as int),
{
    let n = buffer.len();
    if n == 0 {
        let out: Vec<u8> = Vec::new();
        proof {
            assert(out@ =~= flip_rows_seq(buffer@, width as int, height as int));
        }
        return out;
    }
    proof {
        assert(width >= 1 && height >= 1) by (nonlinear_arith)
            requires
                n == 4 * (width as int) * (height as int),
                n > 0,
        ;
        assert(4 * (width as int) <= n) by (nonlinear_arith)
            requires
                n == 4 * (width as int) * (height as int),
                height >= 1,
                width >= 1,
        ;
    }
    let row: usize = 4 * (width as usize);
    let h: usize = height as usize;
    let mut out: Vec<u8> = Vec::new();
    let mut i: usize = 0;
    while i < n
        invariant
            n == buffer@.len(),
            n == 4 * (width as int) * (height as int),
            n == row * h,
            row == 4 * (width as int),
            h == height as int,
            row > 0,
            h > 0,
            i <= n,
            out@.len() == i,
            forall|j: int|
                0 <= j < i ==> out@[j] == flip_rows_seq(buffer@, width as int, height as int)[j],
        decreases n - i,
    {
        let y = i / row;
        let x = i % row;
        proof {
            lemma_mirror(i as int, row as int, h as int);
        }
        let src = (h - 1 - y) * row + x;
        out.push(buffer[src]);
        i = i + 1;
    }
    proof {
        assert(out@ =~= flip_rows_seq(buffer@, width as int, height as int));
    }
    out
}

/// Converts a 32-bit device bitmap buffer into the canonical top-down
/// RGBA form: channel reorder, then a row flip when the buffer was
/// stored bottom-up.
pub fn normalize_bitmap(buffer: Vec<u8>, width: u32, height: u32, top_down: bool) -> (r: Vec<u8>)
    requires
        buffer@.len() == 4 * (width as int) * (height as int),
    ensures
        r@ == normalize_spec(buffer@, width as int, height as int, top_down),
        r@.len() == buffer@.len(),
{
    let rgba = bgra_to_rgba(&buffer);
    if top_down {
        rgba
    } else {
        flip_rows(&rgba, width, height)
    }
}

} // verus!
