use vstd::prelude::*;
use crate::fixed::UNIT;

verus! {

/// A prior box in fixed-point normalized `[center_y, center_x, height, width]` form.
#[derive(Clone, Copy, Debug, PartialEq, Eq, Structural)]
pub struct Anchor {
    pub center_y: i64,
    pub center_x: i64,
    pub height: i64,
    pub width: i64,
}

/// The number of anchors in the table for one stride.
pub open spec fn level_count(input_size: int, stride: int, per_cell: int) -> int {
    (input_size / stride) * (input_size / stride) * per_cell
}

/// The number of anchors the two-level table holds for `input_size`.
pub open spec fn anchor_count(input_size: int) -> int {
    level_count(input_size, 8, 2) + level_count(input_size, 16, 6)
}

/// Anchor `i` of the grid cell in row `y`, column `x` of the level with `stride`:
/// its center is the cell center, its side is `stride / input_size`, enlarged by
/// half for odd `i`.
pub open spec fn anchor_spec(input_size: int, stride: int, y: int, x: int, i: int) -> Anchor {
    let side = (2 + i % 2) * stride * UNIT / (2 * input_size);
    Anchor {
        center_y: ((2 * y + 1) * stride * UNIT / (2 * input_size)) as i64,
        center_x: ((2 * x + 1) * stride * UNIT / (2 * input_size)) as i64,
        height: side as i64,
        width: side as i64,
    }
}

/// The anchors of one level: rows top to bottom, columns left to right, then
/// the anchors of each cell in order.
pub open spec fn level_anchors(input_size: int, stride: int, per_cell: int) -> Seq<Anchor> {
    let g = input_size / stride;
    Seq::new(
        level_count(input_size, stride, per_cell) as nat,
        |k: int| anchor_spec(input_size, stride, (k / per_cell) / g, (k / per_cell) % g, k % per_cell),
    )
}

/// The full anchor table: the stride-8 level with two anchors per cell, then
/// the stride-16 level with six.
pub open spec fn anchor_table(input_size: int) -> Seq<Anchor> {
    level_anchors(input_size, 8, 2) + level_anchors(input_size, 16, 6)
}

/// Every field of the anchor lies in `[0, UNIT]`.
pub open spec fn anchor_wf(a: Anchor) -> bool {
    0 <= a.center_y <= UNIT && 0 <= a.center_x <= UNIT && 0 <= a.height <= UNIT && 0
        <= a.width <= UNIT
}

proof fn lemma_count_bounds(s: int)
    requires
        s >= 0,
        anchor_count(s) == 896,
    ensures
        128 <= s < 136,
        s / 8 == 16,
        s / 16 == 8,
{
    let a = s / 8;
    let b = s / 16;
    assert(a >= 0 && b >= 0);
    if a >= 17 {
        assert(a * a >= 289) by (nonlinear_arith)
            requires
                a >= 17,
        ;
        assert(b >= 8);
        assert(b * b >= 64) by (nonlinear_arith)
            requires
                b >= 8,
        ;
        assert(false);
    }
    if a <= 15 {
        assert(b <= 7);
        assert(a * a <= 225) by (nonlinear_arith)
            requires
                0 <= a <= 15,
        ;
        assert(b * b <= 49) by (nonlinear_arith)
            requires
                0 <= b <= 7,
        ;
        assert(false);
    }
}

proof fn lemma_anchor_wf(s: int, stride: int, y: int, x: int, i: int)
    requires
        128 <= s < 136,
        stride == 8 || stride == 16,
        0 <= y < s / stride,
        0 <= x < s / stride,
        0 <= i,
    ensures
        anchor_wf(anchor_spec(s, stride, y, x, i)),
{
    let g = s / stride;
    assert(g * stride <= s) by (nonlinear_arith)
        requires
            g == s / stride,
            stride > 0,
    ;
    assert((2 * y + 1) * stride <= 2 * s) by (nonlinear_arith)
        requires
            y + 1 <= g,
            g * stride <= s,
            stride > 0,
    ;
    assert((2 * x + 1) * stride <= 2 * s) by (nonlinear_arith)
        requires
            x + 1 <= g,
            g * stride <= s,
            stride > 0,
    ;
    lemma_scaled_le(((2 * y + 1) * stride), 2 * s);
    lemma_scaled_le(((2 * x + 1) * stride), 2 * s);
    lemma_scaled_le(((2 + i % 2) * stride), 2 * s);
}

proof fn lemma_scaled_le(n: int, d: int)
    requires
        0 <= n <= d,
        d > 0,
    ensures
        0 <= n * UNIT / d <= UNIT,
{
    assert(n * UNIT <= d * UNIT) by (nonlinear_arith)
        requires
            n <= d,
    ;
    vstd::arithmetic::div_mod::lemma_div_is_ordered(n * UNIT, d * UNIT, d);
    vstd::arithmetic::div_mod::lemma_div_multiples_vanish(UNIT as int, d);
    assert(0 <= n * UNIT) by (nonlinear_arith)
        requires
            0 <= n,
    ;
    vstd::arithmetic::div_mod::lemma_div_pos_is_pos(n * UNIT, d);
}

fn push_level(anchors: &mut Vec<Anchor>, input_size: u32, stride: u32, per_cell: u32)
    requires
        128 <= input_size < 136,
        (stride == 8 && per_cell == 2) || (stride == 16 && per_cell == 6),
        old(anchors)@.len() <= 512,
    ensures
        final(anchors)@ == old(anchors)@ + level_anchors(
            input_size as int,
            stride as int,
            per_cell as int,
        ),
{
    let ghost start = old(anchors)@;
    let g: u32 = input_size / stride;
    proof {
        if stride == 8 {
            vstd::arithmetic::div_mod::lemma_fundamental_div_mod_converse(
                input_size as int, 8, 16, input_size - 128,
            );
        } else {
            vstd::arithmetic::div_mod::lemma_fundamental_div_mod_converse(
                input_size as int, 16, 8, input_size - 128,
            );
        }
    }
    assert(g == 16 || g == 8);
    assert(g * g * per_cell <= 512) by (nonlinear_arith)
        requires
            (g == 16 && per_cell == 2) || (g == 8 && per_cell == 6),
    ;
    let total: u32 = g * g * per_cell;
    let ghost level = level_anchors(input_size as int, stride as int, per_cell as int);
    let mut k: u32 = 0;
    while k < total
        invariant
            128 <= input_size < 136,
            (stride == 8 && per_cell == 2) || (stride == 16 && per_cell == 6),
            g == input_size / stride,
            total == g * g * per_cell,
            total as int == level.len(),
            level == level_anchors(input_size as int, stride as int, per_cell as int),
            0 <= k <= total,
            anchors@ == start + level.take(k as int),
        decreases total - k,
    {
        let cell: u32 = k / per_cell;
        let i: u32 = k % per_cell;
        let y: u32 = cell / g;
        let x: u32 = cell % g;
        assert(cell < g * g) by (nonlinear_arith)
            requires
                k < g * g * per_cell,
                cell == k / per_cell,
                per_cell > 0,
        ;
        assert(y < g) by (nonlinear_arith)
            requires
                cell < g * g,
                y == cell / g,
                g > 0,
        ;
        assert(i < per_cell && x < g);
        assert((2 * y + 1) * stride <= 1000 && (2 * x + 1) * stride <= 1000) by (nonlinear_arith)
            requires
                y < g,
                x < g,
                g <= 16,
                stride <= 16,
        ;
        let s = input_size as i64;
        let st = stride as i64;
        let den: i64 = 2 * s;
        let odd: i64 = (i % 2) as i64;
        assert((2 + odd) * st <= 48) by (nonlinear_arith)
            requires
                0 <= odd <= 1,
                st <= 16,
        ;
        let side: i64 = (2 + odd) * st * UNIT / den;
        let cy: i64 = (2 * (y as i64) + 1) * st * UNIT / den;
        let cx: i64 = (2 * (x as i64) + 1) * st * UNIT / den;
        let a = Anchor { center_y: cy, center_x: cx, height: side, width: side };
        proof {
            assert(a == anchor_spec(input_size as int, stride as int, y as int, x as int, i as int));
            assert(level[k as int] == a);
        }
        anchors.push(a);
        k = k + 1;
        assert(level.take(k as int) =~= level.take(k - 1) .push(a));
    }
    assert(level.take(total as int) =~= level);
}

/// Builds the anchor table for a model whose input is `input_size` pixels
/// square. The fixed detector topology asks for exactly 896 anchors.
pub fn generate_anchors(input_size: u32) -> (r: Vec<Anchor>)
    requires
        anchor_count(input_size as int) == 896,
    ensures
        r@ == anchor_table(input_size as int),
        r@.len() == 896,
        forall|k: int| 0 <= k < r@.len() ==> anchor_wf(#[trigger] r@[k]),
{
    proof {
        lemma_count_bounds(input_size as int);
    }
    let mut anchors: Vec<Anchor> = Vec::with_capacity(896);
    push_level(&mut anchors, input_size, 8, 2);
    assert(level_count(input_size as int, 8, 2) == 512) by (nonlinear_arith)
        requires
            input_size as int / 8 == 16,
    ;
    assert(anchors@.len() == 512);
    push_level(&mut anchors, input_size, 16, 6);
    proof {
        lemma_table_wf(input_size as int);
    }
    anchors
}

proof fn lemma_table_wf(s: int)
    requires
        128 <= s < 136,
        s / 8 == 16,
        s / 16 == 8,
    ensures
        anchor_table(s).len() == 896,
        forall|k: int| 0 <= k < anchor_table(s).len() ==> anchor_wf(#[trigger] anchor_table(s)[k]),
{
    lemma_level_wf(s, 8, 2);
    lemma_level_wf(s, 16, 6);
}

proof fn lemma_level_wf(s: int, stride: int, per_cell: int)
    requires
        128 <= s < 136,
        (stride == 8 && per_cell == 2) || (stride == 16 && per_cell == 6),
    ensures
        forall|k: int|
            0 <= k < level_anchors(s, stride, per_cell).len() ==> anchor_wf(
                #[trigger] level_anchors(s, stride, per_cell)[k],
            ),
{
    let g = s / stride;
    assert forall|k: int| 0 <= k < level_anchors(s, stride, per_cell).len() implies anchor_wf(
        #[trigger] level_anchors(s, stride, per_cell)[k],
    ) by {
        let cell = k / per_cell;
        assert(0 <= cell < g * g) by (nonlinear_arith)
            requires
                0 <= k < g * g * per_cell,
                cell == k / per_cell,
                per_cell > 0,
        ;
        assert(0 <= cell / g < g) by (nonlinear_arith)
            requires
                0 <= cell < g * g,
                g > 0,
        ;
        assert(0 <= cell % g < g) by (nonlinear_arith)
            requires
                g > 0,
        ;
        lemma_anchor_wf(s, stride, cell / g, cell % g, k % per_cell);
    }
}

/// The table for a 128-pixel input has exactly 896 anchors, each fixed by
/// its position in the table alone.
pub proof fn lemma_anchor_table_size()
    ensures
        anchor_count(128) == 896,
        anchor_table(128).len() == 896,
        forall|k: int| 0 <= k < 896 ==> anchor_wf(#[trigger] anchor_table(128)[k]),
{
    assert(128int / 8 == 16);
    assert(128int / 16 == 8);
    assert(level_count(128, 8, 2) == 512);
    assert(level_count(128, 16, 6) == 384);
    lemma_table_wf(128);
}

} // verus!
