//! What truncation, padding and merging do to an encoding, token by token.

use vstd::prelude::*;

use crate::encoding::{
    built, grown, holds, joined, longest, repeated, resized, shifted, taken, total_sequences,
    truncated, EncodingFields, LengthSettings, PaddingParams, PyEncoding, TruncationParams,
};

verus! {

/// A field is left out before and after, or it is there before and after and
/// holds the values that it had from `start` up to `end`.
pub open spec fn keeps_part<T>(
    before: Option<Vec<T>>,
    after: Option<Vec<T>>,
    start: int,
    end: int,
) -> bool {
    &&& before is Some <==> after is Some
    &&& before is Some ==> after->0.len() == end - start
    &&& before is Some ==> forall|i: int|
        0 <= i < end - start ==> #[trigger] after->0[i] == before->0[start + i]
}

/// Truncation of ids keeps them all where they are not too many. Otherwise it
/// keeps exactly `max_length`: the last ones in the direction `left`, the first
/// ones in any other.
pub proof fn law_truncation_keeps_one_end(trunc: TruncationParams, ids: Seq<u32>)
    ensures
        ids.len() <= trunc.max_length ==> truncated(Some(trunc), ids) == ids,
        ids.len() > trunc.max_length && trunc.direction@ == "left"@ ==> truncated(Some(trunc), ids)
            == ids.skip(ids.len() - trunc.max_length),
        ids.len() > trunc.max_length && trunc.direction@ != "left"@ ==> truncated(Some(trunc), ids)
            == ids.take(trunc.max_length as int),
        truncated(None, ids) == ids,
{
}

/// What the two ends that truncation may keep leave out is what the other one
/// keeps: together they are the ids.
pub proof fn law_truncation_ends_meet(
    left: TruncationParams,
    right: TruncationParams,
    ids: Seq<u32>,
)
    requires
        left.direction@ == "left"@,
        right.direction@ != "left"@,
        left.max_length + right.max_length == ids.len(),
    ensures
        truncated(Some(right), ids) + truncated(Some(left), ids) == ids,
{
}

/// Truncation of an encoding keeps all of it where it is not too long.
/// Otherwise it keeps exactly `max_length` tokens, with the values that they
/// have in every field that is there: the last tokens in the direction `left`,
/// the first ones in any other.
pub proof fn law_truncation_of_encodings(
    before: PyEncoding,
    after: PyEncoding,
    max_length: usize,
    direction: Seq<char>,
)
    requires
        before.ids.len() > max_length ==> before.reaches_all(
            if direction == "left"@ {
                before.ids.len() as int
            } else {
                max_length as int
            },
        ),
        before.is_truncated(after, max_length as int, direction),
    ensures
        before.ids.len() <= max_length ==> after == before,
        before.ids.len() > max_length ==> ({
            let n = before.ids.len() as int;
            let start = if direction == "left"@ {
                n - max_length
            } else {
                0
            };
            let end = start + max_length;
            &&& after.ids.len() == max_length
            &&& forall|i: int|
                0 <= i < max_length ==> #[trigger] after.ids[i] == before.ids[start + i]
            &&& keeps_part(before.attention_mask, after.attention_mask, start, end)
            &&& keeps_part(before.type_ids, after.type_ids, start, end)
            &&& keeps_part(before.special_tokens_mask, after.special_tokens_mask, start, end)
            &&& keeps_part(before.sequence_ids, after.sequence_ids, start, end)
            &&& keeps_part(before.word_ids, after.word_ids, start, end)
            &&& after.n_sequences == before.n_sequences
        }),
{
}

/// The length to pad to is the least that fits: not below the number of tokens
/// or the configured length, a multiple of the configured number, and no length
/// that is all of this is below it.
pub proof fn law_pad_target_is_least(pad: PaddingParams, n: int, other: int)
    requires
        0 <= n,
    ensures
        n <= pad.target(n),
        pad.length matches Some(length) ==> length <= pad.target(n),
        pad.pad_to_multiple_of matches Some(m) ==> m > 0 ==> pad.target(n) % (m as int) == 0,
        n <= other && (pad.length matches Some(length) ==> length <= other) && (
        pad.pad_to_multiple_of matches Some(m) ==> m > 0 ==> other % (m as int) == 0) ==> pad.target(
            n,
        ) <= other,
{
    let base = pad.base(n);
    if let Some(m) = pad.pad_to_multiple_of {
        if m > 0 {
            let m = m as int;
            vstd::arithmetic::div_mod::lemma_fundamental_div_mod(base, m);
            vstd::arithmetic::div_mod::lemma_fundamental_div_mod(other, m);
            let q = base / m;
            let r = base % m;
            let p = other / m;
            if r != 0 {
                assert((m * q + m) % m == 0) by (nonlinear_arith)
                    requires
                        m > 0,
                ;
                assert(base + m - r == m * q + m);
            }
            if base <= other && other % m == 0 {
                if r != 0 {
                    assert(p >= q + 1) by (nonlinear_arith)
                        requires
                            m * q + r <= m * p,
                            0 < r < m,
                    ;
                    assert(m * p >= m * q + m) by (nonlinear_arith)
                        requires
                            p >= q + 1,
                            m > 0,
                    ;
                }
            }
        }
    }
}

/// Without a multiple, the length to pad to is the number of tokens or the
/// configured length, whichever is more; a multiple of 0 asks for nothing.
pub proof fn law_pad_target_without_multiple(pad: PaddingParams, n: int)
    requires
        0 <= n,
        pad.pad_to_multiple_of is None || pad.pad_to_multiple_of == Some(0usize),
    ensures
        pad.length is None ==> pad.target(n) == n,
        pad.length matches Some(length) ==> pad.target(n) == if length > n {
            length as int
        } else {
            n
        },
{
}

/// Without padding, an encoding has as many tokens as it has.
pub proof fn law_target_without_padding(settings: LengthSettings, n: int)
    ensures
        settings.pad is None ==> settings.single_target(n) == n,
        settings.pad matches Some(pad) ==> settings.single_target(n) == pad.target(n),
{
}

/// A value in place of every token.
pub proof fn law_repeated<T>(value: T, n: int, i: int)
    requires
        0 <= n,
    ensures
        repeated(value, n).len() == n,
        0 <= i < n ==> repeated(value, n)[i] == value,
{
}

/// A field that is left out stands for the default of every token; one that is
/// there stands for itself.
pub proof fn law_left_out_fields_have_defaults(encoding: PyEncoding, i: int)
    requires
        0 <= i < encoding.ids.len(),
    ensures
        encoding.attention_mask is None ==> encoding.shown_attention_mask()[i] == 1,
        encoding.type_ids is None ==> encoding.shown_type_ids()[i] == 0,
        encoding.special_tokens_mask is None ==> encoding.shown_special_tokens_mask()[i] == 0,
        encoding.sequence_ids is None ==> encoding.shown_sequence_ids()[i] == Some(0i64),
        encoding.word_ids is None ==> encoding.shown_word_ids()[i] == None::<i64>,
        encoding.attention_mask is None ==> encoding.shown_attention_mask().len()
            == encoding.ids.len(),
        encoding.type_ids is None ==> encoding.shown_type_ids().len() == encoding.ids.len(),
        encoding.special_tokens_mask is None ==> encoding.shown_special_tokens_mask().len()
            == encoding.ids.len(),
        encoding.sequence_ids is None ==> encoding.shown_sequence_ids().len()
            == encoding.ids.len(),
        encoding.word_ids is None ==> encoding.shown_word_ids().len() == encoding.ids.len(),
        encoding.attention_mask matches Some(values) ==> encoding.shown_attention_mask()
            == values@,
        encoding.type_ids matches Some(values) ==> encoding.shown_type_ids() == values@,
        encoding.special_tokens_mask matches Some(values) ==> encoding.shown_special_tokens_mask()
            == values@,
        encoding.sequence_ids matches Some(values) ==> encoding.shown_sequence_ids() == values@,
        encoding.word_ids matches Some(values) ==> encoding.shown_word_ids() == values@,
{
}

/// `count` values `fill` stand behind the values (or before them), and nothing
/// else changes.
pub open spec fn is_padded<T>(
    before: Seq<T>,
    after: Seq<T>,
    count: int,
    fill: T,
    left: bool,
) -> bool {
    let n = before.len();
    &&& after.len() == n + count
    &&& forall|i: int|
        0 <= i < after.len() ==> #[trigger] after[i] == if left {
            if i < count {
                fill
            } else {
                before[i - count]
            }
        } else {
            if i < n {
                before[i]
            } else {
                fill
            }
        }
}

/// A field that is left out stays so; one that is there is padded.
pub open spec fn pads_field<T>(
    before: Option<Vec<T>>,
    after: Option<Vec<T>>,
    count: int,
    fill: T,
    left: bool,
) -> bool {
    &&& before is Some <==> after is Some
    &&& before is Some ==> is_padded(before->0@, after->0@, count, fill, left)
}

/// Padding of an encoding whose fields have one value per token adds `count`
/// tokens with the padding id, the padding type id, attention 0, no special
/// token, no sequence and no word, at the end or in front; every other token
/// keeps its values. The attention mask and the type ids are there afterwards.
pub proof fn law_padding_token_by_token(
    before: PyEncoding,
    after: PyEncoding,
    pad_id: u32,
    pad_type_id: u32,
    count: int,
    left: bool,
)
    requires
        before.is_aligned(),
        0 <= count,
        left ==> before.padded_left(after, pad_id, pad_type_id, count),
        !left ==> before.padded_right(after, pad_id, pad_type_id, count),
    ensures
        is_padded(before.ids@, after.ids@, count, pad_id, left),
        after.attention_mask is Some,
        is_padded(before.shown_attention_mask(), after.attention_mask->0@, count, 0, left),
        after.type_ids is Some,
        is_padded(before.shown_type_ids(), after.type_ids->0@, count, pad_type_id, left),
        pads_field(before.special_tokens_mask, after.special_tokens_mask, count, 0, left),
        pads_field(before.sequence_ids, after.sequence_ids, count, None, left),
        pads_field(before.word_ids, after.word_ids, count, None, left),
        after.n_sequences == before.n_sequences,
{
}

/// Padding to a length leaves an encoding that is long enough as it is. Any other
/// gets exactly the tokens that are missing: in front in the direction `left`,
/// behind in any other.
pub proof fn law_padding_to_length(
    before: PyEncoding,
    after: PyEncoding,
    length: int,
    direction: Seq<char>,
    pad_id: u32,
    pad_type_id: u32,
)
    requires
        before.is_aligned(),
        before.is_padded_to(after, length, direction, pad_id, pad_type_id),
    ensures
        length <= before.ids.len() ==> after == before,
        length > before.ids.len() ==> {
            let count = length - before.ids.len();
            let left = direction == "left"@;
            &&& is_padded(before.ids@, after.ids@, count, pad_id, left)
            &&& after.attention_mask is Some
            &&& is_padded(before.shown_attention_mask(), after.attention_mask->0@, count, 0, left)
            &&& after.type_ids is Some
            &&& is_padded(before.shown_type_ids(), after.type_ids->0@, count, pad_type_id, left)
            &&& pads_field(before.special_tokens_mask, after.special_tokens_mask, count, 0, left)
            &&& pads_field(before.sequence_ids, after.sequence_ids, count, None, left)
            &&& pads_field(before.word_ids, after.word_ids, count, None, left)
            &&& after.n_sequences == before.n_sequences
        },
{
}

/// A field that does not have one value per token is cut or filled up to the new
/// length where padding goes behind, and only grows where it goes in front.
pub proof fn law_padding_of_other_lengths<T>(
    before: Option<Vec<T>>,
    after: Option<Vec<T>>,
    n: int,
    count: int,
    fill: T,
)
    requires
        0 <= n,
        0 <= count,
    ensures
        grown(before, after, n, fill) && before is Some ==> after is Some && after->0.len() == n
            && forall|i: int|
            0 <= i < n ==> #[trigger] after->0[i] == if i < before->0.len() {
                before->0[i]
            } else {
                fill
            },
        shifted(before, after, count, fill) && before is Some ==> after is Some
            && after->0.len() == count + before->0.len() && forall|i: int|
            0 <= i < count + before->0.len() ==> #[trigger] after->0[i] == if i < count {
                fill
            } else {
                before->0[i - count]
            },
        before is None && (grown(before, after, n, fill) || shifted(before, after, count, fill))
            ==> after is None,
{
}

/// The encoding of ids has them, and as many padding tokens as are missing to
/// the target, on the configured side: attention 1 and type 0 for the ids,
/// attention 0 and the padding type for the others. Where none are missing, or
/// there is no padding, there are only the ids and no fields.
pub proof fn law_encoding_of_ids(
    ids: Seq<u32>,
    pad: Option<PaddingParams>,
    target: int,
    encoding: PyEncoding,
)
    requires
        built(ids, pad, target, encoding),
    ensures
        pad is None || target <= ids.len() ==> encoding.ids@ == ids && encoding.attention_mask is None
            && encoding.type_ids is None,
        pad is Some && target > ids.len() ==> {
            let left = pad->0.direction@ == "left"@;
            let count = target - ids.len();
            &&& encoding.ids.len() == target
            &&& is_padded(ids, encoding.ids@, count, pad->0.pad_id, left)
            &&& encoding.attention_mask is Some && encoding.attention_mask->0.len() == target
            &&& encoding.type_ids is Some && encoding.type_ids->0.len() == target
            &&& forall|i: int|
                0 <= i < target ==> {
                    let added = if left {
                        i < count
                    } else {
                        i >= ids.len()
                    };
                    &&& #[trigger] encoding.attention_mask->0[i] == if added {
                        0u32
                    } else {
                        1
                    }
                    &&& encoding.type_ids->0[i] == if added {
                        pad->0.pad_type_id
                    } else {
                        0
                    }
                }
        },
        encoding.n_sequences == 1,
        encoding.special_tokens_mask is None,
        encoding.sequence_ids is None,
        encoding.word_ids is None,
{
}

/// The longest of the truncated texts is one of them, and none is longer.
pub proof fn law_longest_is_one_of_them(
    trunc: Option<TruncationParams>,
    batch: Seq<Vec<u32>>,
    i: int,
)
    ensures
        0 <= i < batch.len() ==> truncated(trunc, batch[i]@).len() <= longest(trunc, batch),
        batch.len() == 0 ==> longest(trunc, batch) == 0,
        batch.len() > 0 ==> exists|j: int|
            0 <= j < batch.len() && truncated(trunc, (#[trigger] batch[j])@).len() == longest(
                trunc,
                batch,
            ),
    decreases batch.len(),
{
    if batch.len() > 0 {
        let rest = batch.drop_last();
        law_longest_is_one_of_them(trunc, rest, i);
        if rest.len() > 0 {
            let j = choose|j: int|
                0 <= j < rest.len() && truncated(trunc, (#[trigger] rest[j])@).len() == longest(
                    trunc,
                    rest,
                );
            assert(batch[j] == rest[j]);
        }
        assert(batch[batch.len() - 1] == batch.last());
    }
}

/// Merging puts the parts of the encodings one after the other: nothing comes of
/// nothing, and one more encoding adds its part at the end.
pub proof fn law_merge_one_more<T>(
    encodings: Seq<PyEncoding>,
    more: PyEncoding,
    f: spec_fn(PyEncoding) -> Seq<T>,
)
    ensures
        joined(Seq::<PyEncoding>::empty(), f) == Seq::<T>::empty(),
        joined(encodings.push(more), f) == joined(encodings, f) + f(more),
        total_sequences(Seq::<PyEncoding>::empty()) == 0,
        total_sequences(encodings.push(more)) == total_sequences(encodings) + more.n_sequences,
{
    assert(encodings.push(more).drop_last() =~= encodings);
}

/// Merging some encodings and then others is merging them all.
pub proof fn law_merge_in_parts<T>(
    first: Seq<PyEncoding>,
    others: Seq<PyEncoding>,
    f: spec_fn(PyEncoding) -> Seq<T>,
)
    ensures
        joined(first + others, f) == joined(first, f) + joined(others, f),
        total_sequences(first + others) == total_sequences(first) + total_sequences(others),
    decreases others.len(),
{
    if others.len() == 0 {
        assert(first + others =~= first);
    } else {
        law_merge_in_parts(first, others.drop_last(), f);
        assert((first + others).drop_last() =~= first + others.drop_last());
    }
}

/// What is moved out of an encoding is there exactly if it was asked for.
pub proof fn law_taken_fields(selected: bool, field: Option<Vec<u32>>, values: Seq<u32>)
    requires
        taken(selected, field, values),
    ensures
        field is Some <==> selected,
        field matches Some(all) ==> all.len() == values.len() && forall|i: int|
            0 <= i < values.len() ==> #[trigger] all[i] == values[i],
{
}

/// A field that holds values is there and has exactly these.
pub proof fn law_fields_hold_values<T>(field: Option<Vec<T>>, values: Seq<T>)
    requires
        holds(field, values),
    ensures
        field is Some,
        field->0.len() == values.len(),
        forall|i: int| 0 <= i < values.len() ==> #[trigger] field->0[i] == values[i],
{
}

/// Values that are brought to a length keep those that fit, and are filled up
/// where some are missing.
pub proof fn law_resized<T>(values: Seq<T>, n: int, fill: T, i: int)
    requires
        0 <= i < n,
    ensures
        resized(values, n, fill).len() == n,
        i < values.len() ==> resized(values, n, fill)[i] == values[i],
        i >= values.len() ==> resized(values, n, fill)[i] == fill,
{
}

/// An encoding whose fields were moved out has no tokens, no fields and no
/// sequences.
pub proof fn law_nothing_is_left(encoding: PyEncoding)
    ensures
        encoding.is_drained() <==> encoding.ids.len() == 0 && encoding.n_sequences == 0
            && encoding.attention_mask is None && encoding.type_ids is None
            && encoding.special_tokens_mask is None && encoding.sequence_ids is None
            && encoding.word_ids is None,
{
}

/// Every token of every encoding is in the merged one, behind the tokens of those
/// before it, and so are the values that it has in each field. There is nothing
/// else.
pub proof fn law_merged_tokens<T>(
    encodings: Seq<PyEncoding>,
    k: int,
    i: int,
    f: spec_fn(PyEncoding) -> Seq<T>,
)
    requires
        0 <= k < encodings.len(),
        0 <= i < f(encodings[k]).len(),
    ensures
        ({
            let before = joined(encodings.take(k), f).len() as int;
            let behind = joined(encodings.skip(k + 1), f).len() as int;
            &&& joined(encodings, f).len() == before + f(encodings[k]).len() + behind
            &&& joined(encodings, f)[before + i] == f(encodings[k])[i]
        }),
{
    let first = encodings.take(k);
    let others = encodings.skip(k + 1);
    assert(encodings =~= first.push(encodings[k]) + others);
    law_merge_in_parts(first.push(encodings[k]), others, f);
    law_merge_one_more(first, encodings[k], f);
}

/// A merged encoding has every field, made of those of the encodings and their
/// defaults, and as many sequences as all of them together.
pub proof fn law_merged_fields(encodings: Seq<PyEncoding>, merged: PyEncoding)
    requires
        merged.is_merged(encodings),
    ensures
        merged.ids@ == joined(encodings, |e: PyEncoding| e.ids@),
        merged.attention_mask is Some && merged.attention_mask->0@ == joined(
            encodings,
            |e: PyEncoding| e.shown_attention_mask(),
        ),
        merged.type_ids is Some && merged.type_ids->0@ == joined(
            encodings,
            |e: PyEncoding| e.shown_type_ids(),
        ),
        merged.special_tokens_mask is Some && merged.special_tokens_mask->0@ == joined(
            encodings,
            |e: PyEncoding| e.shown_special_tokens_mask(),
        ),
        merged.sequence_ids is Some && merged.sequence_ids->0@ == joined(
            encodings,
            |e: PyEncoding| e.shown_sequence_ids(),
        ),
        merged.word_ids is Some && merged.word_ids->0@ == joined(
            encodings,
            |e: PyEncoding| e.shown_word_ids(),
        ),
        merged.n_sequences == total_sequences(encodings),
{
}

/// After a sequence id is set, every token has it, and nothing else is changed.
pub proof fn law_sequence_id_of_every_token(
    before: PyEncoding,
    after: PyEncoding,
    sequence_id: i64,
    i: int,
)
    requires
        before.has_sequence_id(after, sequence_id),
    ensures
        after.sequence_ids is Some,
        after.sequence_ids->0.len() == before.ids.len(),
        0 <= i < before.ids.len() ==> after.sequence_ids->0[i] == Some(sequence_id),
        after.ids == before.ids,
        after.attention_mask == before.attention_mask,
        after.type_ids == before.type_ids,
        after.special_tokens_mask == before.special_tokens_mask,
        after.word_ids == before.word_ids,
        after.n_sequences == before.n_sequences,
{
}

/// What is asked for is moved out, with its default if it was left out, what is
/// not asked for is not, and nothing is left. Where nothing is asked for, nothing
/// happens.
pub proof fn law_fields_are_moved_out(
    before: PyEncoding,
    after: PyEncoding,
    selected: (bool, bool, bool, bool),
    fields: Option<EncodingFields>,
)
    requires
        before.gives_fields(after, selected, fields),
    ensures
        fields is Some <==> selected.0 || selected.1 || selected.2 || selected.3,
        fields is None ==> after == before,
        fields matches Some(all) ==> {
            &&& all.ids is Some <==> selected.0
            &&& all.attention_mask is Some <==> selected.1
            &&& all.type_ids is Some <==> selected.2
            &&& all.special_tokens_mask is Some <==> selected.3
            &&& selected.0 ==> all.ids->0@ == before.ids@
            &&& selected.1 ==> all.attention_mask->0@ == before.shown_attention_mask()
            &&& selected.2 ==> all.type_ids->0@ == before.shown_type_ids()
            &&& selected.3 ==> all.special_tokens_mask->0@ == before.shown_special_tokens_mask()
            &&& after.ids.len() == 0 && after.n_sequences == 0
            &&& after.attention_mask is None && after.type_ids is None
            &&& after.special_tokens_mask is None && after.sequence_ids is None
            &&& after.word_ids is None
        },
{
}

} // verus!
