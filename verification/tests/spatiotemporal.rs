use mrope_pos_ids::error::PosIdsError;
use mrope_pos_ids::spatiotemporal::{
    build_3d_pos_ids, check_spatiotemporal_inputs, push_text_run, push_vision_block,
    try_build_3d_pos_ids, SPATIAL_MERGE_SIZE,
};
use mrope_pos_ids::table::table_len_limit;

fn triples_of(table: &[u32]) -> Vec<(u32, u32, u32)> {
    let mut triples: Vec<(u32, u32, u32)> = Vec::new();
    let mut k: usize = 0;
    while 3 * k + 2 < table.len() {
        triples.push((table[3 * k], table[3 * k + 1], table[3 * k + 2]));
        k += 1;
    }
    triples
}

#[test]
fn text_image_text() {
    let table: Vec<u32> = build_3d_pos_ids(1, 4, 4, 1, 2, 2);
    assert_eq!(table.len(), 24);
    let expected: Vec<(u32, u32, u32)> = vec![
        (0, 0, 0),
        (1, 1, 1),
        (2, 2, 2),
        (2, 2, 3),
        (2, 3, 2),
        (2, 3, 3),
        (4, 4, 4),
        (5, 5, 5),
    ];
    assert_eq!(triples_of(&table), expected);
}

#[test]
fn text_video_text() {
    let table: Vec<u32> = build_3d_pos_ids(3, 4, 4, 1, 4, 5);
    assert_eq!(table.len(), 21 * 3);
    let temporal: Vec<u32> = table.iter().step_by(3).copied().collect();
    let height: Vec<u32> = table.iter().skip(1).step_by(3).copied().collect();
    let width: Vec<u32> = table.iter().skip(2).step_by(3).copied().collect();
    assert_eq!(
        temporal,
        vec![0, 1, 2, 3, 4, 4, 4, 4, 5, 5, 5, 5, 6, 6, 6, 6, 7, 8, 9, 10, 11]
    );
    assert_eq!(
        height,
        vec![0, 1, 2, 3, 4, 4, 5, 5, 4, 4, 5, 5, 4, 4, 5, 5, 7, 8, 9, 10, 11]
    );
    assert_eq!(
        width,
        vec![0, 1, 2, 3, 4, 5, 4, 5, 4, 5, 4, 5, 4, 5, 4, 5, 7, 8, 9, 10, 11]
    );
}

#[test]
fn trailing_text_starts_past_the_longest_axis() {
    // One step of 1 by 3 tokens after one text token: the width axis reaches 1 + 3 - 1.
    let table: Vec<u32> = build_3d_pos_ids(1, 2, 6, 1, 1, 2);
    let expected: Vec<(u32, u32, u32)> =
        vec![(0, 0, 0), (1, 1, 1), (1, 1, 2), (1, 1, 3), (4, 4, 4), (5, 5, 5)];
    assert_eq!(triples_of(&table), expected);
    // Five steps of 1 by 1: the temporal axis is the longest.
    let video: Vec<u32> = build_3d_pos_ids(5, 2, 2, 1, 0, 1);
    assert_eq!(video.len(), 18);
    assert_eq!(&video[12..], &[4, 0, 0, 5, 5, 5]);
}

#[test]
fn merge_size_is_two() {
    assert_eq!(SPATIAL_MERGE_SIZE, 2);
    // 28 by 56 pixels in patches of 14 are 2 by 4 patches, merged to 1 by 2 tokens.
    let table: Vec<u32> = build_3d_pos_ids(1, 28, 56, 14, 0, 0);
    assert_eq!(table, vec![0, 0, 0, 0, 0, 1]);
}

#[test]
fn patches_that_do_not_fill_a_merge_block_are_dropped() {
    assert_eq!(build_3d_pos_ids(1, 7, 10, 1, 1, 1), build_3d_pos_ids(1, 6, 10, 1, 1, 1));
    assert_eq!(build_3d_pos_ids(2, 9, 9, 2, 0, 3), build_3d_pos_ids(2, 4, 4, 1, 0, 3));
}

#[test]
fn no_leading_text_leaves_vision_at_zero() {
    let table: Vec<u32> = build_3d_pos_ids(1, 4, 4, 1, 0, 2);
    let expected: Vec<(u32, u32, u32)> =
        vec![(0, 0, 0), (0, 0, 1), (0, 1, 0), (0, 1, 1), (2, 2, 2), (3, 3, 3)];
    assert_eq!(triples_of(&table), expected);
}

#[test]
fn no_trailing_text_leaves_vision_in_place() {
    let with_text: Vec<u32> = build_3d_pos_ids(1, 4, 4, 1, 2, 2);
    let without: Vec<u32> = build_3d_pos_ids(1, 4, 4, 1, 2, 0);
    assert_eq!(without.len(), 18);
    assert_eq!(&without[..], &with_text[..18]);
}

#[test]
fn vision_alone() {
    let table: Vec<u32> = build_3d_pos_ids(2, 4, 4, 1, 0, 0);
    let expected: Vec<(u32, u32, u32)> = vec![
        (0, 0, 0),
        (0, 0, 1),
        (0, 1, 0),
        (0, 1, 1),
        (1, 0, 0),
        (1, 0, 1),
        (1, 1, 0),
        (1, 1, 1),
    ];
    assert_eq!(triples_of(&table), expected);
}

#[test]
fn vision_starts_at_the_leading_text_length() {
    for pre in 0..5usize {
        for post in 0..4usize {
            let table: Vec<u32> = build_3d_pos_ids(2, 4, 6, 1, pre, post);
            assert_eq!(table.len(), 3 * (pre + 2 * 2 * 3 + post));
            for ti in 0..2usize {
                for hi in 0..2usize {
                    for wi in 0..3usize {
                        let k: usize = pre + (ti * 2 + hi) * 3 + wi;
                        assert_eq!(table[3 * k] as usize, pre + ti);
                        assert_eq!(table[3 * k + 1] as usize, pre + hi);
                        assert_eq!(table[3 * k + 2] as usize, pre + wi);
                    }
                }
            }
        }
    }
}

#[test]
fn table_splits_into_its_segments() {
    let pre: usize = 3;
    let post: usize = 4;
    let table: Vec<u32> = build_3d_pos_ids(2, 6, 4, 1, pre, post);
    let vision: usize = 2 * 3 * 2;
    assert_eq!(table.len(), 3 * (pre + vision + post));

    let mut leading: Vec<u32> = Vec::new();
    push_text_run(&mut leading, 0, pre);
    assert_eq!(&table[..3 * pre], &leading[..]);
    assert_eq!(leading, vec![0, 0, 0, 1, 1, 1, 2, 2, 2]);

    let mut block: Vec<u32> = Vec::new();
    push_vision_block(&mut block, 3, 2, 3, 2);
    assert_eq!(&table[3 * pre..3 * (pre + vision)], &block[..]);

    let mut trailing: Vec<u32> = Vec::new();
    push_text_run(&mut trailing, 6, post);
    assert_eq!(&table[3 * (pre + vision)..], &trailing[..]);
    assert_eq!(trailing, vec![6, 6, 6, 7, 7, 7, 8, 8, 8, 9, 9, 9]);
}

#[test]
fn segments_keep_their_order_in_position() {
    let pre: usize = 5;
    let post: usize = 3;
    let table: Vec<u32> = build_3d_pos_ids(4, 4, 12, 2, pre, post);
    let vision: usize = 4 * 1 * 3;
    let text_start: u32 = 5 + 4;
    assert!(table[..3 * pre].iter().all(|p| *p < 5));
    assert!(table[3 * pre..3 * (pre + vision)].iter().all(|p| 5 <= *p && *p < text_start));
    assert!(table[3 * (pre + vision)..].iter().all(|p| *p >= text_start));
    assert_eq!(table[3 * (pre + vision)], text_start);
}

#[test]
fn fillers_append_and_keep_what_is_there() {
    let mut table: Vec<u32> = vec![9, 8, 7];
    push_text_run(&mut table, 10, 2);
    assert_eq!(table, vec![9, 8, 7, 10, 10, 10, 11, 11, 11]);
    push_text_run(&mut table, 4, 0);
    assert_eq!(table.len(), 9);
    push_vision_block(&mut table, 20, 1, 2, 1);
    assert_eq!(table, vec![9, 8, 7, 10, 10, 10, 11, 11, 11, 20, 20, 20, 20, 21, 20]);
    push_vision_block(&mut table, 20, 3, 0, 2);
    assert_eq!(table.len(), 15);
    let mut top: Vec<u32> = Vec::new();
    push_text_run(&mut top, u32::MAX - 1, 2);
    assert_eq!(top, vec![u32::MAX - 1, u32::MAX - 1, u32::MAX - 1, u32::MAX, u32::MAX, u32::MAX]);
}

#[test]
fn text_alone() {
    assert_eq!(build_3d_pos_ids(0, 4, 4, 1, 3, 0), vec![0, 0, 0, 1, 1, 1, 2, 2, 2]);
    assert_eq!(build_3d_pos_ids(2, 1, 4, 1, 2, 0), vec![0, 0, 0, 1, 1, 1]);
    assert_eq!(build_3d_pos_ids(0, 0, 0, 1, 0, 0), Vec::<u32>::new());
}

#[test]
fn spatiotemporal_same_input_same_table() {
    assert_eq!(build_3d_pos_ids(2, 8, 4, 2, 3, 1), build_3d_pos_ids(2, 8, 4, 2, 3, 1));
    assert_eq!(try_build_3d_pos_ids(2, 8, 4, 2, 3, 1), try_build_3d_pos_ids(2, 8, 4, 2, 3, 1));
}

#[test]
fn checked_3d_builder_agrees_with_builder() {
    assert_eq!(try_build_3d_pos_ids(1, 4, 4, 1, 2, 2), Ok(build_3d_pos_ids(1, 4, 4, 1, 2, 2)));
    assert_eq!(try_build_3d_pos_ids(3, 56, 28, 14, 0, 7), Ok(build_3d_pos_ids(3, 56, 28, 14, 0, 7)));
    assert_eq!(try_build_3d_pos_ids(0, 4, 4, 1, 3, 0), Ok(vec![0, 0, 0, 1, 1, 1, 2, 2, 2]));
    assert_eq!(check_spatiotemporal_inputs(1, 4, 4, 1, 2, 2), None);
}

#[test]
fn zero_patch_size_is_rejected_in_3d() {
    assert_eq!(try_build_3d_pos_ids(1, 4, 4, 0, 2, 2), Err(PosIdsError::ZeroPatchSize));
}

#[test]
fn pixels_that_are_no_whole_patches_are_rejected_in_3d() {
    assert_eq!(try_build_3d_pos_ids(1, 5, 4, 2, 0, 0), Err(PosIdsError::NonDivisible));
    assert_eq!(try_build_3d_pos_ids(1, 4, 7, 2, 0, 0), Err(PosIdsError::NonDivisible));
}

#[test]
fn odd_grid_is_rejected_in_3d() {
    assert_eq!(try_build_3d_pos_ids(1, 3, 4, 1, 0, 0), Err(PosIdsError::OddPatchGrid));
    assert_eq!(try_build_3d_pos_ids(1, 4, 6, 2, 0, 0), Err(PosIdsError::OddPatchGrid));
}

#[test]
fn text_after_empty_vision_is_rejected() {
    assert_eq!(try_build_3d_pos_ids(0, 4, 4, 1, 3, 1), Err(PosIdsError::EmptyVisionBeforeText));
    assert_eq!(try_build_3d_pos_ids(1, 0, 4, 1, 0, 1), Err(PosIdsError::EmptyVisionBeforeText));
    assert_eq!(try_build_3d_pos_ids(1, 4, 0, 1, 3, 5), Err(PosIdsError::EmptyVisionBeforeText));
    assert_eq!(check_spatiotemporal_inputs(0, 0, 0, 1, 0, 1), Some(PosIdsError::EmptyVisionBeforeText));
}

#[test]
fn sequence_too_large_for_a_table_is_rejected() {
    let limit: usize = table_len_limit();
    assert_eq!(limit, isize::MAX as usize / 4);
    assert_eq!(try_build_3d_pos_ids(0, 2, 2, 1, limit, 0), Err(PosIdsError::TooLarge));
    assert_eq!(try_build_3d_pos_ids(usize::MAX, 4, 4, 1, 0, 0), Err(PosIdsError::TooLarge));
    assert_eq!(try_build_3d_pos_ids(usize::MAX, usize::MAX - 1, 4, 1, 0, 0), Err(PosIdsError::TooLarge));
    assert_eq!(try_build_3d_pos_ids(1, 2, 2, 1, usize::MAX, 1), Err(PosIdsError::TooLarge));
    assert_eq!(try_build_3d_pos_ids(1, 2, 2, 1, 1, usize::MAX), Err(PosIdsError::TooLarge));
}

#[test]
fn rules_are_tested_in_order_in_3d() {
    assert_eq!(check_spatiotemporal_inputs(0, 3, 5, 0, 0, 1), Some(PosIdsError::ZeroPatchSize));
    assert_eq!(check_spatiotemporal_inputs(0, 3, 5, 2, 0, 1), Some(PosIdsError::NonDivisible));
    assert_eq!(check_spatiotemporal_inputs(0, 3, 4, 1, 0, 1), Some(PosIdsError::OddPatchGrid));
    assert_eq!(
        check_spatiotemporal_inputs(0, 4, 4, 1, usize::MAX, 1),
        Some(PosIdsError::EmptyVisionBeforeText)
    );
}
