//! Reading back an object selection pass: the framebuffer holds, at each
//! pixel, the id of the instance drawn there (little-endian, four bytes), or
//! zero where nothing was drawn; a selection is the set of ids found in a
//! window of it.

use std::collections::HashSet;
use vstd::prelude::*;

verus! {

/// The id held by the four bytes of `pixels` at `offset`, little-endian.
pub open spec fn pixel_id(pixels: Seq<u8>, offset: int) -> u32 {
    (pixels[offset] + pixels[offset + 1] * 0x100 + pixels[offset + 2] * 0x1_0000 + pixels[offset + 3]
        * 0x100_0000) as u32
}

/// Whether pixel `column` of row `row` exists in `pixels`, rows being
/// `bytes_per_row` bytes long, and lies in the window of `width` by
/// `height` pixels at (`x`, `y`).
pub open spec fn in_window(
    len: nat,
    bytes_per_row: nat,
    x: nat,
    y: nat,
    width: nat,
    height: nat,
    row: int,
    column: int,
) -> bool {
    &&& y <= row < y + height
    &&& x <= column < x + width
    &&& 4 * column + 4 <= bytes_per_row
    &&& row * bytes_per_row + 4 * column + 4 <= len
}

/// The ids (other than zero) found in the window, among the pixels that come
/// before pixel `column` of row `row` in reading order.
pub open spec fn ids_before(
    pixels: Seq<u8>,
    bytes_per_row: nat,
    x: nat,
    y: nat,
    width: nat,
    height: nat,
    row: int,
    column: int,
) -> Set<u32> {
    Set::new(
        |id: u32|
            exists|i: int, j: int|
                #![trigger pixel_id(pixels, i * bytes_per_row + 4 * j)]
                in_window(pixels.len(), bytes_per_row, x, y, width, height, i, j) && (i < row || (i == row && j < column))
                    && id != 0 && pixel_id(pixels, i * bytes_per_row + 4 * j) == id,
    )
}

/// The ids (other than zero) found in the window; a width or height of zero
/// counts as one.
pub open spec fn window_ids(pixels: Seq<u8>, bytes_per_row: nat, x: nat, y: nat, width: nat, height: nat) -> Set<u32> {
    let w: nat = if width == 0 { 1 } else { width };
    let h: nat = if height == 0 { 1 } else { height };
    ids_before(pixels, bytes_per_row, x, y, w, h, (y + h) as int, 0)
}

/// The ids of the instances drawn in the window of `width` by `height`
/// pixels at (`x`, `y`) of `pixels`, whose rows are `bytes_per_row` bytes
/// long; a width or height of zero counts as one.
pub fn ids_in_window(
    pixels: &Vec<u8>,
    bytes_per_row: usize,
    x: usize,
    y: usize,
    width: usize,
    height: usize,
) -> (res: HashSet<u32>)
    requires
        bytes_per_row > 0,
        bytes_per_row % 4 == 0,
        pixels@.len() % 4 == 0,
        x + (if width == 0 { 1 } else { width }) <= usize::MAX,
        y + (if height == 0 { 1 } else { height }) <= usize::MAX,
    ensures
        res@ == window_ids(pixels@, bytes_per_row as nat, x as nat, y as nat, width as nat, height as nat),
{
    broadcast use vstd::std_specs::hash::group_hash_axioms;

    let w: usize = if width == 0 { 1 } else { width };
    let h: usize = if height == 0 { 1 } else { height };
    let ghost p = pixels@;
    let n: usize = pixels.len();
    let ghost bpr = bytes_per_row as nat;
    let mut res: HashSet<u32> = HashSet::new();
    let mut i: usize = y;
    assert(res@ =~= ids_before(p, bpr, x as nat, y as nat, w as nat, h as nat, y as int, x as int));
    while i < y + h
        invariant
            y <= i <= y + h,
            y + h <= usize::MAX,
            x + w <= usize::MAX,
            bytes_per_row > 0,
            bytes_per_row % 4 == 0,
            p == pixels@,
            n == p.len(),
            w == (if width == 0 { 1 } else { width }),
            h == (if height == 0 { 1 } else { height }),
            bpr == bytes_per_row,
            res@ == ids_before(p, bpr, x as nat, y as nat, w as nat, h as nat, i as int, x as int),
        decreases y + h - i,
    {
        let row_start = i.checked_mul(bytes_per_row);
        match row_start {
            None => {
                proof {
                    assert(i * bpr > usize::MAX);
                    assert(p.len() <= usize::MAX);
                    assert forall|id: u32| #[trigger] ids_before(p, bpr, x as nat, y as nat, w as nat, h as nat, (y + h) as int, 0).contains(id)
                        implies res@.contains(id) by {
                        let (a, b) = choose|a: int, b: int|
                            #![trigger pixel_id(p, a * bpr + 4 * b)]
                            in_window(p.len(), bpr, x as nat, y as nat, w as nat, h as nat, a, b) && (a < y + h || (a == y + h && b < 0))
                                && id != 0 && pixel_id(p, a * bpr + 4 * b) == id;
                        if a >= i {
                            assert(a * bpr >= i * bpr) by (nonlinear_arith)
                                requires a >= i, bpr >= 0;
                            assert(a * bpr + 4 * b + 4 <= p.len());
                            assert(false);
                        }
                    }
                    assert(res@ =~= ids_before(p, bpr, x as nat, y as nat, w as nat, h as nat, (y + h) as int, 0));
                    assert(res@ == window_ids(pixels@, bytes_per_row as nat, x as nat, y as nat, width as nat, height as nat));
                }
                return res;
            },
            Some(start) => {
                let mut j: usize = x;
                assert(res@ =~= ids_before(p, bpr, x as nat, y as nat, w as nat, h as nat, i as int, x as int));
                while j < x + w && j < bytes_per_row / 4 && start <= pixels.len() && 4 * j + 4 <= pixels.len() - start
                    invariant
                        y <= i < y + h,
                        x <= j <= x + w,
                        y + h <= usize::MAX,
                        x + w <= usize::MAX,
                        start == i * bytes_per_row,
                        p == pixels@,
                        bpr == bytes_per_row,
                        bytes_per_row % 4 == 0,
                        res@ == ids_before(p, bpr, x as nat, y as nat, w as nat, h as nat, i as int, j as int),
                    decreases x + w - j,
                {
                    let o = start + 4 * j;
                    let id: u32 = (pixels[o] as u32) + (pixels[o + 1] as u32) * 0x100 + (pixels[o + 2] as u32)
                        * 0x1_0000 + (pixels[o + 3] as u32) * 0x100_0000;
                    assert(id == pixel_id(p, i * bpr + 4 * j));
                    if id != 0 {
                        res.insert(id);
                    }
                    proof {
                        let next = ids_before(p, bpr, x as nat, y as nat, w as nat, h as nat, i as int, j + 1);
                        assert forall|v: u32| #[trigger] next.contains(v) implies res@.contains(v) by {
                            let (a, b) = choose|a: int, b: int|
                                #![trigger pixel_id(p, a * bpr + 4 * b)]
                                in_window(p.len(), bpr, x as nat, y as nat, w as nat, h as nat, a, b) && (a < i || (a == i && b < j + 1))
                                    && v != 0 && pixel_id(p, a * bpr + 4 * b) == v;
                            if !(a == i && b == j) {
                                assert(ids_before(p, bpr, x as nat, y as nat, w as nat, h as nat, i as int, j as int).contains(v));
                            }
                        }
                        assert forall|v: u32| res@.contains(v) implies #[trigger] next.contains(v) by {
                            if v == id && id != 0 {
                                assert(in_window(p.len(), bpr, x as nat, y as nat, w as nat, h as nat, i as int, j as int));
                            } else {
                                assert(ids_before(p, bpr, x as nat, y as nat, w as nat, h as nat, i as int, j as int).contains(v));
                            }
                        }
                        assert(res@ =~= next);
                    }
                    j = j + 1;
                }
                proof {
                    let next = ids_before(p, bpr, x as nat, y as nat, w as nat, h as nat, i + 1, x as int);
                    let cur = ids_before(p, bpr, x as nat, y as nat, w as nat, h as nat, i as int, j as int);
                    assert forall|v: u32| #[trigger] next.contains(v) implies cur.contains(v) by {
                        let (a, b) = choose|a: int, b: int|
                            #![trigger pixel_id(p, a * bpr + 4 * b)]
                            in_window(p.len(), bpr, x as nat, y as nat, w as nat, h as nat, a, b) && (a < i + 1 || (a == i + 1 && b < x))
                                && v != 0 && pixel_id(p, a * bpr + 4 * b) == v;
                        assert(a <= i);
                        if a == i && b >= j {
                            assert(false);
                        }
                    }
                    assert forall|v: u32| #[trigger] cur.contains(v) implies next.contains(v) by {
                        let (a, b) = choose|a: int, b: int|
                            #![trigger pixel_id(p, a * bpr + 4 * b)]
                            in_window(p.len(), bpr, x as nat, y as nat, w as nat, h as nat, a, b) && (a < i || (a == i && b < j))
                                && v != 0 && pixel_id(p, a * bpr + 4 * b) == v;
                    }
                    assert(next =~= cur);
                }
                i = i + 1;
            },
        }
    }
    proof {
        let all = ids_before(p, bpr, x as nat, y as nat, w as nat, h as nat, (y + h) as int, 0);
        let cur = ids_before(p, bpr, x as nat, y as nat, w as nat, h as nat, i as int, x as int);
        assert forall|v: u32| #[trigger] all.contains(v) implies cur.contains(v) by {
            let (a, b) = choose|a: int, b: int|
                #![trigger pixel_id(p, a * bpr + 4 * b)]
                in_window(p.len(), bpr, x as nat, y as nat, w as nat, h as nat, a, b) && (a < y + h || (a == y + h && b < 0))
                    && v != 0 && pixel_id(p, a * bpr + 4 * b) == v;
        }
        assert forall|v: u32| #[trigger] cur.contains(v) implies all.contains(v) by {
            let (a, b) = choose|a: int, b: int|
                #![trigger pixel_id(p, a * bpr + 4 * b)]
                in_window(p.len(), bpr, x as nat, y as nat, w as nat, h as nat, a, b) && (a < i || (a == i && b < x))
                    && v != 0 && pixel_id(p, a * bpr + 4 * b) == v;
        }
        assert(all =~= cur);
    }
    res
}

} // verus!
