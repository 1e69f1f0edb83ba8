//! The 3-D table: `(temporal, height, width)` of every token of a sequence
//! made of a text run, a vision block and a second text run.

use vstd::prelude::*;
use vstd::arithmetic::div_mod::{
    lemma_div_denominator, lemma_div_pos_is_pos, lemma_fundamental_div_mod,
    lemma_fundamental_div_mod_converse, lemma_mod_pos_bound,
};
use crate::error::PosIdsError;
use crate::table::{
    lemma_positions_fix_table, lemma_positions_push, max_table_len, positions, table_len_limit,
};

verus! {

/// Number of patches that are merged into one token along each spatial axis.
pub const SPATIAL_MERGE_SIZE: usize = 2;

/// Number of tokens along a spatial axis of `extent` pixels: whole patches of
/// edge `d_patch`, merged `SPATIAL_MERGE_SIZE` at a time.
pub open spec fn merged_len(extent: int, d_patch: int) -> int {
    extent / d_patch / (SPATIAL_MERGE_SIZE as int)
}

/// A row or column of `patch_count` patches splits into merged tokens with no
/// patch left over.
pub open spec fn merges_evenly(patch_count: int) -> bool {
    patch_count % (SPATIAL_MERGE_SIZE as int) == 0
}

/// Number of tokens of a vision block with the given axis lengths.
pub open spec fn vision_len(t_len: int, h_len: int, w_len: int) -> int {
    t_len * h_len * w_len
}

/// The largest of three integers.
pub open spec fn max3(a: int, b: int, c: int) -> int {
    if a >= b && a >= c {
        a
    } else if b >= c {
        b
    } else {
        c
    }
}

/// Position of the first token after a vision block that starts at `start`:
/// one more than the largest position that the block reaches on any axis.
pub open spec fn post_text_start(start: int, t_len: int, h_len: int, w_len: int) -> int {
    max3(start + t_len - 1, start + h_len - 1, start + w_len - 1) + 1
}

/// A run of `len` text tokens from position `start`: token `i` has the
/// position `start + i` on all three axes.
pub open spec fn text_run(start: int, len: int) -> Seq<int> {
    Seq::new((3 * len) as nat, |i: int| start + i / 3)
}

/// Offset of vision token `v` along `axis` (0 temporal, 1 height, 2 width) in
/// a block that runs row-major over height `h_len` and width `w_len`.
pub open spec fn vision_offset(h_len: int, w_len: int, v: int, axis: int) -> int {
    if axis == 0 {
        v / (h_len * w_len)
    } else if axis == 1 {
        (v / w_len) % h_len
    } else {
        v % w_len
    }
}

/// A vision block from position `start`: each token has, on each axis, the
/// position `start` plus its own offset along that axis.
pub open spec fn vision_block(start: int, t_len: int, h_len: int, w_len: int) -> Seq<int> {
    Seq::new(
        (3 * vision_len(t_len, h_len, w_len)) as nat,
        |i: int| start + vision_offset(h_len, w_len, i / 3, i % 3),
    )
}

/// The table of `pre` text tokens, a vision block and `post` text tokens.
pub open spec fn spatiotemporal_table(
    t_len: int,
    h_len: int,
    w_len: int,
    pre: int,
    post: int,
) -> Seq<int> {
    text_run(0, pre) + vision_block(pre, t_len, h_len, w_len) + text_run(
        post_text_start(pre, t_len, h_len, w_len),
        post,
    )
}

/// The table is no longer than a table can be, and every position in it fits
/// in 32 bits: the last of the leading text, the largest of the vision block,
/// and the last of the trailing text.
pub open spec fn spatiotemporal_fits(t_len: int, h_len: int, w_len: int, pre: int, post: int) -> bool {
    &&& 3 * (pre + vision_len(t_len, h_len, w_len) + post) <= max_table_len()
    &&& pre > 0 ==> pre - 1 <= u32::MAX
    &&& vision_len(t_len, h_len, w_len) > 0 ==> post_text_start(pre, t_len, h_len, w_len) - 1
        <= u32::MAX
    &&& post > 0 ==> post_text_start(pre, t_len, h_len, w_len) + post - 1 <= u32::MAX
}

/// The sequence has a table: trailing text follows a vision block that is not
/// empty, and the table fits.
pub open spec fn spatiotemporal_ok(t_len: int, h_len: int, w_len: int, pre: int, post: int) -> bool {
    &&& 0 <= t_len && 0 <= h_len && 0 <= w_len && 0 <= pre && 0 <= post
    &&& post > 0 ==> vision_len(t_len, h_len, w_len) > 0
    &&& spatiotemporal_fits(t_len, h_len, w_len, pre, post)
}

/// Why the sequence has no table, or `None` where it has one. The first rule
/// that fails decides.
pub open spec fn spatiotemporal_rejection(
    t: int,
    h: int,
    w: int,
    d_patch: int,
    pre: int,
    post: int,
) -> Option<PosIdsError> {
    if d_patch == 0 {
        Some(PosIdsError::ZeroPatchSize)
    } else if h % d_patch != 0 || w % d_patch != 0 {
        Some(PosIdsError::NonDivisible)
    } else if !merges_evenly(h / d_patch) || !merges_evenly(w / d_patch) {
        Some(PosIdsError::OddPatchGrid)
    } else if post > 0 && vision_len(t, merged_len(h, d_patch), merged_len(w, d_patch)) == 0 {
        Some(PosIdsError::EmptyVisionBeforeText)
    } else if !spatiotemporal_fits(
        t,
        merged_len(h, d_patch),
        merged_len(w, d_patch),
        pre,
        post,
    ) {
        Some(PosIdsError::TooLarge)
    } else {
        None
    }
}

/// The vision token at `(ti, hi, wi)` is token `(ti * h_len + hi) * w_len + wi`
/// of its block, and its offsets are `ti`, `hi` and `wi`.
pub proof fn lemma_vision_offsets(h_len: int, w_len: int, ti: int, hi: int, wi: int)
    requires
        0 <= ti,
        0 <= hi < h_len,
        0 <= wi < w_len,
    ensures
        vision_offset(h_len, w_len, (ti * h_len + hi) * w_len + wi, 0) == ti,
        vision_offset(h_len, w_len, (ti * h_len + hi) * w_len + wi, 1) == hi,
        vision_offset(h_len, w_len, (ti * h_len + hi) * w_len + wi, 2) == wi,
{
    let r: int = ti * h_len + hi;
    let v: int = r * w_len + wi;
    lemma_fundamental_div_mod_converse(v, w_len, r, wi);
    lemma_fundamental_div_mod_converse(r, h_len, ti, hi);
    assert(0 <= r) by (nonlinear_arith)
        requires
            r == ti * h_len + hi,
            0 <= ti,
            0 <= hi < h_len,
    ;
    assert(0 <= v) by (nonlinear_arith)
        requires
            v == r * w_len + wi,
            0 <= r,
            0 <= wi < w_len,
    ;
    lemma_div_denominator(v, w_len, h_len);
    assert(w_len * h_len == h_len * w_len) by (nonlinear_arith);
}

/// Every token of a vision block lies inside the block: its offset along
/// each axis is below the length of that axis.
pub proof fn lemma_vision_offset_bounds(t_len: int, h_len: int, w_len: int, v: int)
    requires
        0 <= t_len,
        0 <= h_len,
        0 <= w_len,
        0 <= v < vision_len(t_len, h_len, w_len),
    ensures
        0 <= vision_offset(h_len, w_len, v, 0) < t_len,
        0 <= vision_offset(h_len, w_len, v, 1) < h_len,
        0 <= vision_offset(h_len, w_len, v, 2) < w_len,
        v == (vision_offset(h_len, w_len, v, 0) * h_len + vision_offset(h_len, w_len, v, 1))
            * w_len + vision_offset(h_len, w_len, v, 2),
{
    lemma_vision_len_positive(t_len, h_len, w_len);
    let plane: int = h_len * w_len;
    assert(plane > 0) by (nonlinear_arith)
        requires
            plane == h_len * w_len,
            h_len > 0,
            w_len > 0,
    ;
    let r: int = v / w_len;
    let ti: int = r / h_len;
    lemma_fundamental_div_mod(v, w_len);
    lemma_fundamental_div_mod(r, h_len);
    lemma_mod_pos_bound(v, w_len);
    lemma_div_pos_is_pos(v, w_len);
    lemma_mod_pos_bound(r, h_len);
    lemma_div_pos_is_pos(r, h_len);
    lemma_div_denominator(v, w_len, h_len);
    assert(w_len * h_len == plane) by (nonlinear_arith)
        requires
            plane == h_len * w_len,
    ;
    assert(ti < t_len) by (nonlinear_arith)
        requires
            v == w_len * r + v % w_len,
            r == h_len * ti + r % h_len,
            0 <= v % w_len < w_len,
            0 <= r % h_len < h_len,
            v < t_len * h_len * w_len,
            0 <= ti,
    ;
    assert(v == (ti * h_len + r % h_len) * w_len + v % w_len) by (nonlinear_arith)
        requires
            v == w_len * r + v % w_len,
            r == h_len * ti + r % h_len,
    ;
}

/// The table holds three positions for each token of the sequence. Cut at the
/// ends of the leading text and of the vision block, it falls into the
/// leading text run, the vision block and the trailing text run.
pub proof fn lemma_table_segments(t_len: int, h_len: int, w_len: int, pre: int, post: int)
    requires
        0 <= t_len,
        0 <= h_len,
        0 <= w_len,
        0 <= pre,
        0 <= post,
    ensures
        spatiotemporal_table(t_len, h_len, w_len, pre, post).len() == 3 * (pre + vision_len(
            t_len,
            h_len,
            w_len,
        ) + post),
        spatiotemporal_table(t_len, h_len, w_len, pre, post).subrange(0, 3 * pre) == text_run(
            0,
            pre,
        ),
        spatiotemporal_table(t_len, h_len, w_len, pre, post).subrange(
            3 * pre,
            3 * (pre + vision_len(t_len, h_len, w_len)),
        ) == vision_block(pre, t_len, h_len, w_len),
        spatiotemporal_table(t_len, h_len, w_len, pre, post).subrange(
            3 * (pre + vision_len(t_len, h_len, w_len)),
            3 * (pre + vision_len(t_len, h_len, w_len) + post),
        ) == text_run(post_text_start(pre, t_len, h_len, w_len), post),
{
    lemma_vision_len_positive(t_len, h_len, w_len);
    let table: Seq<int> = spatiotemporal_table(t_len, h_len, w_len, pre, post);
    let v: int = vision_len(t_len, h_len, w_len);
    assert(table.subrange(0, 3 * pre) =~= text_run(0, pre));
    assert(table.subrange(3 * pre, 3 * (pre + v)) =~= vision_block(pre, t_len, h_len, w_len));
    assert(table.subrange(3 * (pre + v), 3 * (pre + v + post)) =~= text_run(
        post_text_start(pre, t_len, h_len, w_len),
        post,
    ));
}

/// Token `i` of the leading text has the position `i` on every axis.
pub proof fn lemma_pre_text_token(t_len: int, h_len: int, w_len: int, pre: int, post: int, i: int)
    requires
        0 <= t_len,
        0 <= h_len,
        0 <= w_len,
        0 <= post,
        0 <= i < pre,
    ensures
        spatiotemporal_table(t_len, h_len, w_len, pre, post)[3 * i] == i,
        spatiotemporal_table(t_len, h_len, w_len, pre, post)[3 * i + 1] == i,
        spatiotemporal_table(t_len, h_len, w_len, pre, post)[3 * i + 2] == i,
{
    lemma_vision_len_positive(t_len, h_len, w_len);
}

/// The vision token at `(ti, hi, wi)` is token
/// `pre + (ti * h_len + hi) * w_len + wi` of the sequence, whatever the
/// lengths of the text runs, and has the positions `pre + ti`, `pre + hi` and
/// `pre + wi`: the vision block always starts at position `pre`.
pub proof fn lemma_vision_token(
    t_len: int,
    h_len: int,
    w_len: int,
    pre: int,
    post: int,
    ti: int,
    hi: int,
    wi: int,
)
    requires
        0 <= pre,
        0 <= post,
        0 <= ti < t_len,
        0 <= hi < h_len,
        0 <= wi < w_len,
    ensures
        0 <= (ti * h_len + hi) * w_len + wi < vision_len(t_len, h_len, w_len),
        spatiotemporal_table(t_len, h_len, w_len, pre, post)[3 * (pre + (ti * h_len + hi) * w_len
            + wi)] == pre + ti,
        spatiotemporal_table(t_len, h_len, w_len, pre, post)[3 * (pre + (ti * h_len + hi) * w_len
            + wi) + 1] == pre + hi,
        spatiotemporal_table(t_len, h_len, w_len, pre, post)[3 * (pre + (ti * h_len + hi) * w_len
            + wi) + 2] == pre + wi,
{
    let v: int = (ti * h_len + hi) * w_len + wi;
    lemma_vision_offsets(h_len, w_len, ti, hi, wi);
    assert(0 <= v < t_len * h_len * w_len) by (nonlinear_arith)
        requires
            v == (ti * h_len + hi) * w_len + wi,
            0 <= ti < t_len,
            0 <= hi < h_len,
            0 <= wi < w_len,
    ;
    let table: Seq<int> = spatiotemporal_table(t_len, h_len, w_len, pre, post);
    let block: Seq<int> = vision_block(pre, t_len, h_len, w_len);
    assert(table[3 * (pre + v)] == block[3 * v]);
    assert(table[3 * (pre + v) + 1] == block[3 * v + 1]);
    assert(table[3 * (pre + v) + 2] == block[3 * v + 2]);
}

/// Token `i` of the trailing text has, on every axis, the position `i` past
/// the first position after the vision block.
pub proof fn lemma_post_text_token(t_len: int, h_len: int, w_len: int, pre: int, post: int, i: int)
    requires
        0 <= t_len,
        0 <= h_len,
        0 <= w_len,
        0 <= pre,
        0 <= i < post,
    ensures
        spatiotemporal_table(t_len, h_len, w_len, pre, post)[3 * (pre + vision_len(
            t_len,
            h_len,
            w_len,
        ) + i)] == post_text_start(pre, t_len, h_len, w_len) + i,
        spatiotemporal_table(t_len, h_len, w_len, pre, post)[3 * (pre + vision_len(
            t_len,
            h_len,
            w_len,
        ) + i) + 1] == post_text_start(pre, t_len, h_len, w_len) + i,
        spatiotemporal_table(t_len, h_len, w_len, pre, post)[3 * (pre + vision_len(
            t_len,
            h_len,
            w_len,
        ) + i) + 2] == post_text_start(pre, t_len, h_len, w_len) + i,
{
    lemma_vision_len_positive(t_len, h_len, w_len);
    let v: int = vision_len(t_len, h_len, w_len);
    let table: Seq<int> = spatiotemporal_table(t_len, h_len, w_len, pre, post);
    let run: Seq<int> = text_run(post_text_start(pre, t_len, h_len, w_len), post);
    assert(table[3 * (pre + v + i)] == run[3 * i]);
    assert(table[3 * (pre + v + i) + 1] == run[3 * i + 1]);
    assert(table[3 * (pre + v + i) + 2] == run[3 * i + 2]);
}

/// The segments keep their order in position: every position of the leading
/// text is below `pre`, every position of the vision block is at least `pre`
/// and below the start of the trailing text, and every position of the
/// trailing text is at least that start.
pub proof fn lemma_segments_ordered(t_len: int, h_len: int, w_len: int, pre: int, post: int)
    requires
        0 <= t_len,
        0 <= h_len,
        0 <= w_len,
        0 <= pre,
        0 <= post,
    ensures
        forall|i: int|
            0 <= i < 3 * pre ==> 0 <= #[trigger] spatiotemporal_table(
                t_len,
                h_len,
                w_len,
                pre,
                post,
            )[i] < pre,
        forall|i: int|
            3 * pre <= i < 3 * (pre + vision_len(t_len, h_len, w_len)) ==> pre
                <= #[trigger] spatiotemporal_table(t_len, h_len, w_len, pre, post)[i]
                < post_text_start(pre, t_len, h_len, w_len),
        forall|i: int|
            3 * (pre + vision_len(t_len, h_len, w_len)) <= i < 3 * (pre + vision_len(
                t_len,
                h_len,
                w_len,
            ) + post) ==> post_text_start(pre, t_len, h_len, w_len)
                <= #[trigger] spatiotemporal_table(t_len, h_len, w_len, pre, post)[i],
{
    lemma_vision_len_positive(t_len, h_len, w_len);
    let v: int = vision_len(t_len, h_len, w_len);
    let table: Seq<int> = spatiotemporal_table(t_len, h_len, w_len, pre, post);
    assert forall|i: int| 3 * pre <= i < 3 * (pre + v) implies pre <= #[trigger] table[i]
        < post_text_start(pre, t_len, h_len, w_len) by {
        let j: int = i - 3 * pre;
        assert(table[i] == vision_block(pre, t_len, h_len, w_len)[j]);
        lemma_vision_offset_bounds(t_len, h_len, w_len, j / 3);
    }
    assert forall|i: int| 3 * (pre + v) <= i < 3 * (pre + v + post) implies post_text_start(
        pre,
        t_len,
        h_len,
        w_len,
    ) <= #[trigger] table[i] by {
        let j: int = i - 3 * (pre + v);
        assert(table[i] == text_run(post_text_start(pre, t_len, h_len, w_len), post)[j]);
    }
}

/// One sequence has one table: two tables whose positions are those of the
/// same sequence are equal, element for element.
pub proof fn lemma_spatiotemporal_table_unique(
    a: Seq<u32>,
    b: Seq<u32>,
    t_len: int,
    h_len: int,
    w_len: int,
    pre: int,
    post: int,
)
    requires
        positions(a) == spatiotemporal_table(t_len, h_len, w_len, pre, post),
        positions(b) == spatiotemporal_table(t_len, h_len, w_len, pre, post),
    ensures
        a == b,
{
    lemma_positions_fix_table(a, b);
}

/// Appends a run of `len` text tokens that starts at position `start`.
pub fn push_text_run(pos: &mut Vec<u32>, start: u32, len: usize)
    requires
        len > 0 ==> start + len - 1 <= u32::MAX,
    ensures
        positions(final(pos)@) == positions(old(pos)@) + text_run(start as int, len as int),
{
    let ghost before: Seq<int> = positions(pos@);
    let mut i: usize = 0;
    assert(positions(pos@) =~= before + text_run(start as int, 0));
    while i < len
        invariant
            i <= len,
            len > 0 ==> start + len - 1 <= u32::MAX,
            positions(pos@) == before + text_run(start as int, i as int),
        decreases len - i,
    {
        let value: u32 = start + i as u32;
        proof {
            lemma_positions_push(pos@, value);
            lemma_positions_push(pos@.push(value), value);
            lemma_positions_push(pos@.push(value).push(value), value);
        }
        pos.push(value);
        pos.push(value);
        pos.push(value);
        assert(positions(pos@) =~= before + text_run(start as int, i + 1));
        i += 1;
    }
}

/// Appends the vision block with the given axis lengths that starts at
/// position `start`: temporal axis outermost, then height, then width.
pub fn push_vision_block(pos: &mut Vec<u32>, start: u32, t_len: usize, h_len: usize, w_len: usize)
    requires
        vision_len(t_len as int, h_len as int, w_len as int) > 0 ==> max3(
            start + t_len - 1,
            start + h_len - 1,
            start + w_len - 1,
        ) <= u32::MAX,
    ensures
        positions(final(pos)@) == positions(old(pos)@) + vision_block(
            start as int,
            t_len as int,
            h_len as int,
            w_len as int,
        ),
{
    let ghost before: Seq<int> = positions(pos@);
    let ghost n0: int = before.len() as int;
    let mut ti: usize = 0;
    assert(0 * h_len * w_len == 0) by (nonlinear_arith);
    while ti < t_len
        invariant
            ti <= t_len,
            n0 == before.len(),
            vision_len(t_len as int, h_len as int, w_len as int) > 0 ==> max3(
                start + t_len - 1,
                start + h_len - 1,
                start + w_len - 1,
            ) <= u32::MAX,
            pos.len() == n0 + 3 * (ti * h_len * w_len),
            forall|i: int| 0 <= i < n0 ==> pos[i] as int == before[i],
            forall|j: int|
                n0 <= j < n0 + 3 * (ti * h_len * w_len) ==> pos[j] as int == start
                    + vision_offset(h_len as int, w_len as int, (j - n0) / 3, (j - n0) % 3),
        decreases t_len - ti,
    {
        let mut hi: usize = 0;
        assert((ti * h_len + 0) * w_len == ti * h_len * w_len) by (nonlinear_arith);
        while hi < h_len
            invariant
                ti < t_len,
                hi <= h_len,
                n0 == before.len(),
                vision_len(t_len as int, h_len as int, w_len as int) > 0 ==> max3(
                    start + t_len - 1,
                    start + h_len - 1,
                    start + w_len - 1,
                ) <= u32::MAX,
                pos.len() == n0 + 3 * ((ti * h_len + hi) * w_len),
                forall|i: int| 0 <= i < n0 ==> pos[i] as int == before[i],
                forall|j: int|
                    n0 <= j < n0 + 3 * ((ti * h_len + hi) * w_len) ==> pos[j] as int == start
                        + vision_offset(h_len as int, w_len as int, (j - n0) / 3, (j - n0) % 3),
            decreases h_len - hi,
        {
            let mut wi: usize = 0;
            while wi < w_len
                invariant
                    ti < t_len,
                    hi < h_len,
                    wi <= w_len,
                    n0 == before.len(),
                    vision_len(t_len as int, h_len as int, w_len as int) > 0 ==> max3(
                        start + t_len - 1,
                        start + h_len - 1,
                        start + w_len - 1,
                    ) <= u32::MAX,
                    pos.len() == n0 + 3 * ((ti * h_len + hi) * w_len + wi),
                    forall|i: int| 0 <= i < n0 ==> pos[i] as int == before[i],
                    forall|j: int|
                        n0 <= j < n0 + 3 * ((ti * h_len + hi) * w_len + wi) ==> pos[j] as int
                            == start + vision_offset(
                            h_len as int,
                            w_len as int,
                            (j - n0) / 3,
                            (j - n0) % 3,
                        ),
                decreases w_len - wi,
            {
                let ghost v: int = (ti * h_len + hi) * w_len + wi;
                proof {
                    assert(t_len * h_len * w_len > 0) by (nonlinear_arith)
                        requires
                            0 <= ti < t_len,
                            0 <= hi < h_len,
                            0 <= wi < w_len,
                    ;
                    lemma_vision_offsets(
                        h_len as int,
                        w_len as int,
                        ti as int,
                        hi as int,
                        wi as int,
                    );
                }
                let t_pos: u32 = start + ti as u32;
                let h_pos: u32 = start + hi as u32;
                let w_pos: u32 = start + wi as u32;
                pos.push(t_pos);
                pos.push(h_pos);
                pos.push(w_pos);
                assert forall|j: int| n0 + 3 * v <= j < n0 + 3 * v + 3 implies pos[j] as int
                    == start + vision_offset(
                    h_len as int,
                    w_len as int,
                    (j - n0) / 3,
                    (j - n0) % 3,
                ) by {
                    assert((j - n0) / 3 == v);
                }
                wi += 1;
            }
            assert((ti * h_len + hi) * w_len + w_len == (ti * h_len + (hi + 1)) * w_len)
                by (nonlinear_arith);
            hi += 1;
        }
        assert((ti * h_len + h_len) * w_len == (ti + 1) * h_len * w_len) by (nonlinear_arith);
        ti += 1;
    }
    assert(positions(pos@) =~= before + vision_block(
        start as int,
        t_len as int,
        h_len as int,
        w_len as int,
    ));
}

/// A vision block has a token exactly when each of its axes has one, and then
/// it has at least as many tokens as its longest axis.
pub proof fn lemma_vision_len_positive(t_len: int, h_len: int, w_len: int)
    requires
        0 <= t_len,
        0 <= h_len,
        0 <= w_len,
    ensures
        0 <= vision_len(t_len, h_len, w_len),
        vision_len(t_len, h_len, w_len) > 0 <==> t_len > 0 && h_len > 0 && w_len > 0,
        vision_len(t_len, h_len, w_len) > 0 ==> t_len * h_len <= vision_len(t_len, h_len, w_len)
            && max3(t_len, h_len, w_len) <= vision_len(t_len, h_len, w_len),
{
    assert(0 <= t_len * h_len) by (nonlinear_arith)
        requires
            0 <= t_len,
            0 <= h_len,
    ;
    assert(0 <= t_len * h_len * w_len) by (nonlinear_arith)
        requires
            0 <= t_len * h_len,
            0 <= w_len,
    ;
    if t_len > 0 && h_len > 0 && w_len > 0 {
        assert(t_len * h_len >= t_len && t_len * h_len >= h_len) by (nonlinear_arith)
            requires
                t_len > 0,
                h_len > 0,
        ;
        assert(t_len * h_len * w_len >= t_len * h_len && t_len * h_len * w_len >= w_len)
            by (nonlinear_arith)
            requires
                t_len * h_len > 0,
                w_len > 0,
        ;
    } else {
        assert(t_len * h_len * w_len == 0) by (nonlinear_arith)
            requires
                t_len == 0 || h_len == 0 || w_len == 0,
        ;
    }
}

/// Number of tokens of a vision block, where `usize` can hold it.
fn vision_token_count(t_len: usize, h_len: usize, w_len: usize) -> (count: usize)
    requires
        vision_len(t_len as int, h_len as int, w_len as int) <= usize::MAX,
    ensures
        count == vision_len(t_len as int, h_len as int, w_len as int),
{
    proof {
        lemma_vision_len_positive(t_len as int, h_len as int, w_len as int);
    }
    if t_len == 0 || h_len == 0 || w_len == 0 {
        0
    } else {
        t_len * h_len * w_len
    }
}

/// The longest of three axis lengths.
fn longest_axis(t_len: usize, h_len: usize, w_len: usize) -> (longest: usize)
    ensures
        longest == max3(t_len as int, h_len as int, w_len as int),
{
    if t_len >= h_len && t_len >= w_len {
        t_len
    } else if h_len >= w_len {
        h_len
    } else {
        w_len
    }
}

/// Builds the table of `(temporal, height, width)` triples for
/// `pre_text_len` text tokens, a vision block, and `post_text_len` text
/// tokens.
///
/// The vision block has `t` steps of `h / d_patch / 2` by `w / d_patch / 2`
/// tokens. Text token `i` of the leading run has position `i` on every axis.
/// The vision token at `(ti, hi, wi)` has the positions `pre_text_len + ti`,
/// `pre_text_len + hi` and `pre_text_len + wi`. The trailing run counts on
/// from one past the largest position of the vision block. The table holds
/// one triple for each token of the sequence and nothing else.
///
/// The patch size must not be zero, text may follow the vision block only
/// where the block has a token, and the table must fit;
/// [`try_build_3d_pos_ids`] tests this first.
pub fn build_3d_pos_ids(
    t: usize,
    h: usize,
    w: usize,
    d_patch: usize,
    pre_text_len: usize,
    post_text_len: usize,
) -> (pos: Vec<u32>)
    requires
        d_patch > 0,
        spatiotemporal_ok(
            t as int,
            merged_len(h as int, d_patch as int),
            merged_len(w as int, d_patch as int),
            pre_text_len as int,
            post_text_len as int,
        ),
    ensures
        pos@.len() == 3 * (pre_text_len + vision_len(
            t as int,
            merged_len(h as int, d_patch as int),
            merged_len(w as int, d_patch as int),
        ) + post_text_len),
        positions(pos@) == spatiotemporal_table(
            t as int,
            merged_len(h as int, d_patch as int),
            merged_len(w as int, d_patch as int),
            pre_text_len as int,
            post_text_len as int,
        ),
{
    let t_len: usize = t;
    let h_len: usize = h / d_patch / SPATIAL_MERGE_SIZE;
    let w_len: usize = w / d_patch / SPATIAL_MERGE_SIZE;
    proof {
        lemma_vision_len_positive(t_len as int, h_len as int, w_len as int);
    }
    let vision: usize = vision_token_count(t_len, h_len, w_len);
    let total_len: usize = pre_text_len + vision + post_text_len;
    let mut pos: Vec<u32> = Vec::with_capacity(total_len * 3);
    assert(positions(pos@) =~= Seq::<int>::empty());

    push_text_run(&mut pos, 0, pre_text_len);
    let ghost pre_text: Seq<int> = text_run(0, pre_text_len as int);
    assert(positions(pos@) =~= pre_text);

    if vision > 0 {
        push_vision_block(&mut pos, pre_text_len as u32, t_len, h_len, w_len);
    }
    let ghost block: Seq<int> = vision_block(
        pre_text_len as int,
        t_len as int,
        h_len as int,
        w_len as int,
    );
    assert(positions(pos@) =~= pre_text + block);

    if post_text_len > 0 {
        let text_start: usize = pre_text_len + longest_axis(t_len, h_len, w_len);
        push_text_run(&mut pos, text_start as u32, post_text_len);
    }
    assert(positions(pos@) =~= pre_text + block + text_run(
        post_text_start(pre_text_len as int, t_len as int, h_len as int, w_len as int),
        post_text_len as int,
    ));
    pos
}

/// Whether the table of the sequence fits, for a sequence whose trailing
/// text follows a vision block that is not empty.
fn sequence_fits(t_len: usize, h_len: usize, w_len: usize, pre: usize, post: usize) -> (fits: bool)
    requires
        post > 0 ==> vision_len(t_len as int, h_len as int, w_len as int) > 0,
    ensures
        fits == spatiotemporal_fits(
            t_len as int,
            h_len as int,
            w_len as int,
            pre as int,
            post as int,
        ),
{
    proof {
        lemma_vision_len_positive(t_len as int, h_len as int, w_len as int);
    }
    let has_vision: bool = t_len > 0 && h_len > 0 && w_len > 0;
    let vision: usize = if has_vision {
        let plane: usize = match t_len.checked_mul(h_len) {
            Some(plane) => plane,
            None => {
                return false;
            },
        };
        match plane.checked_mul(w_len) {
            Some(vision) => vision,
            None => {
                return false;
            },
        }
    } else {
        0
    };
    let tokens: usize = match pre.checked_add(vision) {
        Some(tokens) => tokens,
        None => {
            return false;
        },
    };
    let total_len: usize = match tokens.checked_add(post) {
        Some(total_len) => total_len,
        None => {
            return false;
        },
    };
    if total_len > table_len_limit() / 3 {
        return false;
    }
    let limit: usize = u32::MAX as usize;
    if pre > 0 && pre - 1 > limit {
        return false;
    }
    if !has_vision {
        return true;
    }
    pre + longest_axis(t_len, h_len, w_len) + post - 1 <= limit
}

/// Tests the inputs of the 3-D table against its rules, in their order: the
/// patch size is not zero, height and width are whole numbers of patches, the
/// patch grid has even sides, text follows the vision block only where the
/// block has a token, and the table fits.
pub fn check_spatiotemporal_inputs(
    t: usize,
    h: usize,
    w: usize,
    d_patch: usize,
    pre_text_len: usize,
    post_text_len: usize,
) -> (verdict: Option<PosIdsError>)
    ensures
        verdict == spatiotemporal_rejection(
            t as int,
            h as int,
            w as int,
            d_patch as int,
            pre_text_len as int,
            post_text_len as int,
        ),
{
    if d_patch == 0 {
        return Some(PosIdsError::ZeroPatchSize);
    }
    if h % d_patch != 0 || w % d_patch != 0 {
        return Some(PosIdsError::NonDivisible);
    }
    let hp: usize = h / d_patch;
    let wp: usize = w / d_patch;
    if hp % SPATIAL_MERGE_SIZE != 0 || wp % SPATIAL_MERGE_SIZE != 0 {
        return Some(PosIdsError::OddPatchGrid);
    }
    let h_len: usize = hp / SPATIAL_MERGE_SIZE;
    let w_len: usize = wp / SPATIAL_MERGE_SIZE;
    proof {
        lemma_vision_len_positive(t as int, h_len as int, w_len as int);
    }
    if post_text_len > 0 && (t == 0 || h_len == 0 || w_len == 0) {
        return Some(PosIdsError::EmptyVisionBeforeText);
    }
    if !sequence_fits(t, h_len, w_len, pre_text_len, post_text_len) {
        return Some(PosIdsError::TooLarge);
    }
    None
}

/// Builds the 3-D table where the inputs meet its rules, and says which rule
/// fails where they do not.
pub fn try_build_3d_pos_ids(
    t: usize,
    h: usize,
    w: usize,
    d_patch: usize,
    pre_text_len: usize,
    post_text_len: usize,
) -> (result: Result<Vec<u32>, PosIdsError>)
    ensures
        (match result {
            Ok(pos) => {
                &&& spatiotemporal_rejection(
                    t as int,
                    h as int,
                    w as int,
                    d_patch as int,
                    pre_text_len as int,
                    post_text_len as int,
                ).is_none()
                &&& pos@.len() == 3 * (pre_text_len + vision_len(
                    t as int,
                    merged_len(h as int, d_patch as int),
                    merged_len(w as int, d_patch as int),
                ) + post_text_len)
                &&& positions(pos@) == spatiotemporal_table(
                    t as int,
                    merged_len(h as int, d_patch as int),
                    merged_len(w as int, d_patch as int),
                    pre_text_len as int,
                    post_text_len as int,
                )
            },
            Err(e) => spatiotemporal_rejection(
                t as int,
                h as int,
                w as int,
                d_patch as int,
                pre_text_len as int,
                post_text_len as int,
            ) == Some(e),
        }),
{
    match check_spatiotemporal_inputs(t, h, w, d_patch, pre_text_len, post_text_len) {
        Some(e) => Err(e),
        None => Ok(build_3d_pos_ids(t, h, w, d_patch, pre_text_len, post_text_len)),
    }
}

} // verus!
