//! Encodings, and bringing them to a length.

use basetenkenizer::encoding::{
    build_encoding, LengthSettings, PaddingParams, PyEncoding, TruncationParams,
};

/// `PyEncoding::pad` correctly fills `type_ids` with `pad_type_id` for
/// padded positions.  This is the expected behaviour.
#[test]
fn encoding_pad_applies_pad_type_id() {
    let mut enc = PyEncoding::new(vec![10u32, 20, 30], None);
    // 3 real tokens → pad to length 5 with pad_type_id = 1
    enc.pad(5, "right", 0u32, 1u32, "[PAD]");

    assert_eq!(enc.ids, vec![10u32, 20, 30, 0, 0]);
    assert_eq!(enc.materialized_attention_mask(), vec![1u32, 1, 1, 0, 0]);
    assert_eq!(
        enc.materialized_type_ids(),
        vec![0u32, 0, 0, 1, 1],
        "padded positions should carry pad_type_id=1 in type_ids"
    );
}

/// The tokenizer encode paths build returned encodings through the same
/// padding owner as `PyEncoding::pad`, preserving `pad_type_id` metadata.
#[test]
fn encode_batch_pad_type_id_applied_to_type_ids() {
    let pad = PaddingParams {
        direction: "right".to_string(),
        pad_id: 0,
        pad_type_id: 1,
        pad_token: "[PAD]".to_string(),
        length: None,
        pad_to_multiple_of: None,
    };
    let enc = build_encoding(vec![10u32, 20, 30], Some(&pad), 5);

    assert_eq!(enc.ids, vec![10u32, 20, 30, 0, 0]);
    assert_eq!(enc.materialized_attention_mask(), vec![1u32, 1, 1, 0, 0]);
    assert_eq!(enc.materialized_type_ids(), vec![0u32, 0, 0, 1, 1]);
}

#[test]
fn build_encoding_left_padding_applies_pad_type_id() {
    let pad = PaddingParams {
        direction: "left".to_string(),
        pad_id: 0,
        pad_type_id: 7,
        pad_token: "[PAD]".to_string(),
        length: None,
        pad_to_multiple_of: None,
    };
    let enc = build_encoding(vec![10u32, 20, 30], Some(&pad), 5);

    assert_eq!(enc.ids, vec![0u32, 0, 10, 20, 30]);
    assert_eq!(enc.materialized_attention_mask(), vec![0u32, 0, 1, 1, 1]);
    assert_eq!(enc.materialized_type_ids(), vec![7u32, 7, 0, 0, 0]);
}

fn padding(direction: &str, length: Option<usize>, multiple: Option<usize>) -> PaddingParams {
    PaddingParams {
        direction: direction.to_string(),
        pad_id: 9,
        pad_type_id: 3,
        pad_token: "[PAD]".to_string(),
        length,
        pad_to_multiple_of: multiple,
    }
}

fn truncation(max_length: usize, direction: &str) -> TruncationParams {
    TruncationParams {
        max_length,
        stride: 0,
        strategy: "longest_first".to_string(),
        direction: direction.to_string(),
    }
}

fn full() -> PyEncoding {
    let mut enc = PyEncoding::new(vec![1, 2, 3, 4], Some(vec![1, 1, 0, 1]));
    enc.type_ids = Some(vec![0, 1, 0, 1]);
    enc.special_tokens_mask = Some(vec![1, 0, 0, 1]);
    enc.sequence_ids = Some(vec![None, Some(0), Some(1), None]);
    enc.word_ids = Some(vec![None, Some(5), Some(6), None]);
    enc
}

#[test]
fn defaults_of_fields_left_out() {
    let enc = PyEncoding::make(vec![5, 6]);
    assert_eq!(enc.n_sequences, 1);
    assert_eq!(enc.materialized_attention_mask(), vec![1, 1]);
    assert_eq!(enc.materialized_type_ids(), vec![0, 0]);
    assert_eq!(enc.materialized_special_tokens_mask(), vec![0, 0]);
    assert_eq!(enc.materialized_sequence_ids(), vec![Some(0), Some(0)]);
    assert_eq!(enc.materialized_word_ids(), vec![None, None]);
}

#[test]
fn truncation_cuts_every_field() {
    let mut right = full();
    right.truncate(2, 7, "right");
    assert_eq!(right.ids, vec![1, 2]);
    assert_eq!(right.attention_mask, Some(vec![1, 1]));
    assert_eq!(right.type_ids, Some(vec![0, 1]));
    assert_eq!(right.special_tokens_mask, Some(vec![1, 0]));
    assert_eq!(right.sequence_ids, Some(vec![None, Some(0)]));
    assert_eq!(right.word_ids, Some(vec![None, Some(5)]));

    let mut left = full();
    left.truncate(1, 0, "left");
    assert_eq!(left.ids, vec![4]);
    assert_eq!(left.attention_mask, Some(vec![1]));
    assert_eq!(left.type_ids, Some(vec![1]));
    assert_eq!(left.word_ids, Some(vec![None]));

    let mut same = full();
    same.truncate(4, 0, "left");
    assert_eq!(same.ids, vec![1, 2, 3, 4]);
}

#[test]
fn padding_extends_every_field_that_is_set() {
    let mut right = full();
    right.pad(6, "right", 9, 3, "[PAD]");
    assert_eq!(right.ids, vec![1, 2, 3, 4, 9, 9]);
    assert_eq!(right.attention_mask, Some(vec![1, 1, 0, 1, 0, 0]));
    assert_eq!(right.type_ids, Some(vec![0, 1, 0, 1, 3, 3]));
    assert_eq!(right.special_tokens_mask, Some(vec![1, 0, 0, 1, 0, 0]));
    assert_eq!(
        right.sequence_ids,
        Some(vec![None, Some(0), Some(1), None, None, None])
    );
    assert_eq!(
        right.word_ids,
        Some(vec![None, Some(5), Some(6), None, None, None])
    );

    let mut left = full();
    left.pad(5, "left", 9, 3, "[PAD]");
    assert_eq!(left.ids, vec![9, 1, 2, 3, 4]);
    assert_eq!(left.attention_mask, Some(vec![0, 1, 1, 0, 1]));
    assert_eq!(left.type_ids, Some(vec![3, 0, 1, 0, 1]));
    assert_eq!(left.special_tokens_mask, Some(vec![0, 1, 0, 0, 1]));
    assert_eq!(
        left.sequence_ids,
        Some(vec![None, None, Some(0), Some(1), None])
    );

    let mut same = full();
    same.pad(3, "left", 9, 3, "[PAD]");
    assert_eq!(same.ids, vec![1, 2, 3, 4]);
    assert_eq!(same.attention_mask, Some(vec![1, 1, 0, 1]));
}

#[test]
fn truncation_undoes_padding() {
    for direction in ["left", "right"] {
        let mut enc = full();
        enc.pad(9, direction, 9, 3, "[PAD]");
        assert_eq!(enc.ids.len(), 9);
        enc.truncate(4, 0, direction);
        assert_eq!(enc.ids, full().ids);
        assert_eq!(enc.attention_mask, full().attention_mask);
        assert_eq!(enc.type_ids, full().type_ids);
        assert_eq!(enc.special_tokens_mask, full().special_tokens_mask);
        assert_eq!(enc.sequence_ids, full().sequence_ids);
        assert_eq!(enc.word_ids, full().word_ids);
    }
}

#[test]
fn merge_joins_fields() {
    let merged = PyEncoding::merge(&vec![PyEncoding::make(vec![7, 8]), full()], true);
    assert_eq!(merged.ids, vec![7, 8, 1, 2, 3, 4]);
    assert_eq!(merged.attention_mask, Some(vec![1, 1, 1, 1, 0, 1]));
    assert_eq!(merged.type_ids, Some(vec![0, 0, 0, 1, 0, 1]));
    assert_eq!(merged.special_tokens_mask, Some(vec![0, 0, 1, 0, 0, 1]));
    assert_eq!(merged.n_sequences, 2);
    assert_eq!(
        merged.sequence_ids,
        Some(vec![Some(0), Some(0), None, Some(0), Some(1), None])
    );
    assert_eq!(
        merged.word_ids,
        Some(vec![None, None, None, Some(5), Some(6), None])
    );

    let empty = PyEncoding::merge(&vec![], false);
    assert_eq!(empty.ids, Vec::<u32>::new());
    assert_eq!(empty.n_sequences, 0);
    assert_eq!(empty.attention_mask, Some(vec![]));
}

#[test]
fn set_sequence_id_gives_every_token_one() {
    let mut enc = full();
    enc.set_sequence_id(-2);
    assert_eq!(enc.sequence_ids, Some(vec![Some(-2); 4]));
}

#[test]
fn take_fields_drains_the_encoding() {
    let mut enc = full();
    assert!(enc.take_fields(false, false, false, false).is_none());
    assert_eq!(enc.ids.len(), 4);

    let mut enc = PyEncoding::make(vec![1, 2]);
    let fields = enc.take_fields(false, true, true, false).unwrap();
    assert_eq!(fields.ids, None);
    assert_eq!(fields.attention_mask, Some(vec![1, 1]));
    assert_eq!(fields.type_ids, Some(vec![0, 0]));
    assert_eq!(fields.special_tokens_mask, None);
    assert_eq!(enc.ids.len(), 0);
    assert_eq!(enc.n_sequences, 0);

    let mut enc = full();
    let fields = enc.take_fields(true, false, false, true).unwrap();
    assert_eq!(fields.ids, Some(vec![1, 2, 3, 4]));
    assert_eq!(fields.special_tokens_mask, Some(vec![1, 0, 0, 1]));
    assert_eq!(enc.attention_mask, None);
}

#[test]
fn pad_target_rounds_up() {
    assert_eq!(padding("right", None, None).pad_target(5), 5);
    assert_eq!(padding("right", Some(8), None).pad_target(5), 8);
    assert_eq!(padding("right", Some(3), None).pad_target(5), 5);
    assert_eq!(padding("right", None, Some(8)).pad_target(5), 8);
    assert_eq!(padding("right", None, Some(8)).pad_target(16), 16);
    assert_eq!(padding("right", Some(17), Some(8)).pad_target(5), 24);
    assert_eq!(padding("right", None, Some(0)).pad_target(5), 5);
}

#[test]
fn settings_truncate_then_pad() {
    let settings = LengthSettings {
        trunc: Some(truncation(3, "left")),
        pad: Some(padding("right", None, Some(4))),
    };
    let mut ids = vec![1, 2, 3, 4, 5];
    settings.do_truncate(&mut ids);
    assert_eq!(ids, vec![3, 4, 5]);
    assert_eq!(settings.single_pad_target(3), 4);

    let enc = settings.finish(vec![1, 2, 3, 4, 5]);
    assert_eq!(enc.ids, vec![3, 4, 5, 9]);
    assert_eq!(enc.attention_mask, Some(vec![1, 1, 1, 0]));

    let plain = LengthSettings { trunc: None, pad: None };
    assert_eq!(plain.single_pad_target(3), 3);
    assert_eq!(plain.finish(vec![1, 2]).ids, vec![1, 2]);
    assert_eq!(plain.finish(vec![1, 2]).attention_mask, None);

    let right = LengthSettings {
        trunc: Some(truncation(2, "right")),
        pad: None,
    };
    assert_eq!(right.finish(vec![1, 2, 3]).ids, vec![1, 2]);
}

#[test]
fn padded_batch_is_uniform() {
    let settings = LengthSettings {
        trunc: Some(truncation(3, "right")),
        pad: Some(padding("left", None, None)),
    };
    let batch = settings.finish_batch(vec![vec![1], vec![1, 2, 3, 4], vec![]]);
    let ids: Vec<Vec<u32>> = batch.iter().map(|e| e.ids.clone()).collect();
    assert_eq!(ids, vec![vec![9, 9, 1], vec![1, 2, 3], vec![9, 9, 9]]);
    assert_eq!(batch[0].attention_mask, Some(vec![0, 0, 1]));
    assert_eq!(batch[1].attention_mask, None);
    assert_eq!(batch[2].type_ids, Some(vec![3, 3, 3]));

    let unpadded = LengthSettings { trunc: None, pad: None };
    let batch = unpadded.finish_batch(vec![vec![1], vec![1, 2]]);
    assert_eq!(batch[0].ids.len(), 1);
    assert_eq!(batch[1].ids.len(), 2);
    assert!(unpadded.finish_batch(vec![]).is_empty());
}
