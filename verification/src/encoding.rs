//! Encodings: token ids with their per-token fields, and the truncation and
//! padding that bring them to a length.

use vstd::prelude::*;

use crate::text::str_eq;

verus! {

/// `n` times the same value.
pub open spec fn repeated<T>(value: T, n: int) -> Seq<T> {
    Seq::new(n as nat, |i: int| value)
}

/// `n` times the same value.
fn filled<T: Copy>(value: T, n: usize) -> (values: Vec<T>)
    ensures
        values@ == repeated(value, n as int),
{
    let mut values: Vec<T> = Vec::new();
    while values.len() < n
        invariant
            values.len() <= n,
            values@ == repeated(value, values.len() as int),
        decreases n - values.len(),
    {
        values.push(value);
    }
    values
}

/// The values from `start` up to `end`.
fn sliced<T: Copy>(values: &Vec<T>, start: usize, end: usize) -> (part: Vec<T>)
    requires
        start <= end <= values.len(),
    ensures
        part@ == values@.subrange(start as int, end as int),
{
    let mut part: Vec<T> = Vec::new();
    let mut i: usize = start;
    while i < end
        invariant
            start <= i <= end <= values.len(),
            part@ == values@.subrange(start as int, i as int),
        decreases end - i,
    {
        part.push(values[i]);
        i += 1;
    }
    part
}

/// Cut or filled up to length `n`.
pub open spec fn resized<T>(values: Seq<T>, n: int, fill: T) -> Seq<T> {
    if n <= values.len() {
        values.take(n)
    } else {
        values + repeated(fill, n - values.len())
    }
}

/// Cut or filled up to length `n`.
fn resize<T: Copy>(values: &mut Vec<T>, n: usize, fill: T)
    ensures
        final(values)@ == resized(old(values)@, n as int, fill),
{
    let ghost before = values@;
    if n <= values.len() {
        values.truncate(n);
    } else {
        while values.len() < n
            invariant
                before.len() <= values.len() <= n,
                values@ == before + repeated(fill, values.len() - before.len()),
            decreases n - values.len(),
        {
            values.push(fill);
        }
    }
}

/// `count` times `fill`, then the values.
fn prefixed<T: Copy>(fill: T, count: usize, values: &Vec<T>) -> (all: Vec<T>)
    ensures
        all@ == repeated(fill, count as int) + values@,
{
    let mut all = filled(fill, count);
    append_all(&mut all, values);
    all
}

/// Appends the values.
fn append_all<T: Copy>(all: &mut Vec<T>, values: &Vec<T>)
    ensures
        final(all)@ == old(all)@ + values@,
{
    let ghost before = all@;
    let mut i: usize = 0;
    while i < values.len()
        invariant
            i <= values.len(),
            all@ == before + values@.take(i as int),
        decreases values.len() - i,
    {
        all.push(values[i]);
        i += 1;
    }
}

/// The values of a per-token field of `n` tokens that may be left out: where it
/// is, every token has the default.
pub open spec fn shown<T>(field: Option<Vec<T>>, n: int, default: T) -> Seq<T> {
    match field {
        Some(values) => values@,
        None => repeated(default, n),
    }
}

/// The values of a field, made if it is left out.
fn materialized<T: Copy>(field: &Option<Vec<T>>, n: usize, default: T) -> (values: Vec<T>)
    ensures
        values@ == shown(*field, n as int, default),
{
    match field {
        Some(values) => {
            let all = sliced(values, 0, values.len());
            all
        },
        None => filled(default, n),
    }
}

/// Minimal stand-in for `tokenizers.Encoding`: token ids, and the per-token
/// fields that were set. A field that is left out has a default: 1 for the
/// attention mask, 0 for type ids and the special tokens mask, sequence 0, no
/// word. Setting one field does not bring the others to its length.
#[derive(Debug)]
pub struct PyEncoding {
    /// The token ids.
    pub ids: Vec<u32>,
    /// 1 for tokens to attend to, 0 for padding.
    pub attention_mask: Option<Vec<u32>>,
    /// The segment that each token belongs to.
    pub type_ids: Option<Vec<u32>>,
    /// 1 for special tokens.
    pub special_tokens_mask: Option<Vec<u32>>,
    /// The number of sequences.
    pub n_sequences: usize,
    /// The sequence of each token.
    pub sequence_ids: Option<Vec<Option<i64>>>,
    /// The word of each token.
    pub word_ids: Option<Vec<Option<i64>>>,
}

/// The field is left out, or long enough to be cut at `end`.
pub open spec fn reaches<T>(field: Option<Vec<T>>, end: int) -> bool {
    field matches Some(values) ==> end <= values.len()
}

/// After: the field before, cut to `start..end` if it is there.
pub open spec fn cut<T>(
    before: Option<Vec<T>>,
    after: Option<Vec<T>>,
    start: int,
    end: int,
) -> bool {
    match before {
        Some(values) => after matches Some(part) && part@ == values@.subrange(start, end),
        None => after is None,
    }
}

/// After: the field before, resized to `n` if it is there.
pub open spec fn grown<T>(before: Option<Vec<T>>, after: Option<Vec<T>>, n: int, fill: T) -> bool {
    match before {
        Some(values) => after matches Some(all) && all@ == resized(values@, n, fill),
        None => after is None,
    }
}

/// After: the field before, with `count` values in front of it if it is there.
pub open spec fn shifted<T>(
    before: Option<Vec<T>>,
    after: Option<Vec<T>>,
    count: int,
    fill: T,
) -> bool {
    match before {
        Some(values) => after matches Some(all) && all@ == repeated(fill, count) + values@,
        None => after is None,
    }
}

/// The field is there and holds these values.
pub open spec fn holds<T>(field: Option<Vec<T>>, values: Seq<T>) -> bool {
    field matches Some(all) && all@ == values
}

fn cut_field<T: Copy>(field: &mut Option<Vec<T>>, start: usize, end: usize)
    requires
        start <= end,
        reaches(*old(field), end as int),
    ensures
        cut(*old(field), *final(field), start as int, end as int),
{
    if let Some(values) = field.take() {
        *field = Some(sliced(&values, start, end));
    }
}

fn grow_field<T: Copy>(field: &mut Option<Vec<T>>, n: usize, fill: T)
    ensures
        grown(*old(field), *final(field), n as int, fill),
{
    if let Some(values) = field.take() {
        let mut all = values;
        resize(&mut all, n, fill);
        *field = Some(all);
    }
}

fn shift_field<T: Copy>(field: &mut Option<Vec<T>>, count: usize, fill: T)
    ensures
        shifted(*old(field), *final(field), count as int, fill),
{
    if let Some(values) = field.take() {
        *field = Some(prefixed(fill, count, &values));
    }
}

impl PyEncoding {
    /// An encoding of one sequence, with every field left out.
    pub fn make(ids: Vec<u32>) -> (encoding: Self)
        ensures
            encoding.ids == ids,
            encoding.attention_mask is None,
            encoding.type_ids is None,
            encoding.special_tokens_mask is None,
            encoding.n_sequences == 1,
            encoding.sequence_ids is None,
            encoding.word_ids is None,
    {
        PyEncoding {
            ids,
            attention_mask: None,
            type_ids: None,
            special_tokens_mask: None,
            n_sequences: 1,
            sequence_ids: None,
            word_ids: None,
        }
    }

    /// An encoding of one sequence, with an attention mask or none.
    pub fn new(ids: Vec<u32>, attention_mask: Option<Vec<u32>>) -> (encoding: Self)
        ensures
            encoding.ids == ids,
            encoding.attention_mask == attention_mask,
            encoding.type_ids is None,
            encoding.special_tokens_mask is None,
            encoding.n_sequences == 1,
            encoding.sequence_ids is None,
            encoding.word_ids is None,
    {
        let mut encoding = PyEncoding::make(ids);
        encoding.attention_mask = attention_mask;
        encoding
    }

    /// The attention mask; all 1 if it was left out.
    pub fn materialized_attention_mask(&self) -> (mask: Vec<u32>)
        ensures
            mask@ == shown(self.attention_mask, self.ids.len() as int, 1),
    {
        materialized(&self.attention_mask, self.ids.len(), 1)
    }

    /// The type ids; all 0 if they were left out.
    pub fn materialized_type_ids(&self) -> (type_ids: Vec<u32>)
        ensures
            type_ids@ == shown(self.type_ids, self.ids.len() as int, 0),
    {
        materialized(&self.type_ids, self.ids.len(), 0)
    }

    /// The special tokens mask; all 0 if it was left out.
    pub fn materialized_special_tokens_mask(&self) -> (mask: Vec<u32>)
        ensures
            mask@ == shown(self.special_tokens_mask, self.ids.len() as int, 0),
    {
        materialized(&self.special_tokens_mask, self.ids.len(), 0)
    }

    /// The sequence ids; all 0 if they were left out.
    pub fn materialized_sequence_ids(&self) -> (sequence_ids: Vec<Option<i64>>)
        ensures
            sequence_ids@ == shown(self.sequence_ids, self.ids.len() as int, Some(0i64)),
    {
        materialized(&self.sequence_ids, self.ids.len(), Some(0i64))
    }

    /// The word ids; none if they were left out.
    pub fn materialized_word_ids(&self) -> (word_ids: Vec<Option<i64>>)
        ensures
            word_ids@ == shown(self.word_ids, self.ids.len() as int, None),
    {
        materialized(&self.word_ids, self.ids.len(), None)
    }

    /// Every field that was set is long enough to be cut at `end`.
    pub open spec fn reaches_all(self, end: int) -> bool {
        &&& end <= self.ids.len()
        &&& reaches(self.attention_mask, end)
        &&& reaches(self.type_ids, end)
        &&& reaches(self.special_tokens_mask, end)
        &&& reaches(self.sequence_ids, end)
        &&& reaches(self.word_ids, end)
    }

    /// `after` is this encoding with every field cut to `start..end`.
    pub open spec fn cut_to(self, after: PyEncoding, start: int, end: int) -> bool {
        &&& after.ids@ == self.ids@.subrange(start, end)
        &&& cut(self.attention_mask, after.attention_mask, start, end)
        &&& cut(self.type_ids, after.type_ids, start, end)
        &&& cut(self.special_tokens_mask, after.special_tokens_mask, start, end)
        &&& cut(self.sequence_ids, after.sequence_ids, start, end)
        &&& cut(self.word_ids, after.word_ids, start, end)
        &&& after.n_sequences == self.n_sequences
    }

    /// Keeps the tokens `start..end`.
    pub fn apply_slice(&mut self, start: usize, end: usize)
        requires
            start <= end,
            old(self).reaches_all(end as int),
        ensures
            old(self).cut_to(*final(self), start as int, end as int),
    {
        self.ids = sliced(&self.ids, start, end);
        cut_field(&mut self.attention_mask, start, end);
        cut_field(&mut self.type_ids, start, end);
        cut_field(&mut self.special_tokens_mask, start, end);
        cut_field(&mut self.sequence_ids, start, end);
        cut_field(&mut self.word_ids, start, end);
    }

    /// `after` is this encoding with `count` padding tokens at its end. The
    /// fields are brought to the new length.
    pub open spec fn padded_right(
        self,
        after: PyEncoding,
        pad_id: u32,
        pad_type_id: u32,
        count: int,
    ) -> bool {
        let n = self.ids.len() as int;
        &&& after.ids@ == self.ids@ + repeated(pad_id, count)
        &&& holds(after.attention_mask, resized(shown(self.attention_mask, n, 1), n + count, 0))
        &&& holds(after.type_ids, resized(shown(self.type_ids, n, 0), n + count, pad_type_id))
        &&& grown(self.special_tokens_mask, after.special_tokens_mask, n + count, 0)
        &&& grown(self.sequence_ids, after.sequence_ids, n + count, None)
        &&& grown(self.word_ids, after.word_ids, n + count, None)
        &&& after.n_sequences == self.n_sequences
    }

    /// Appends `count` padding tokens.
    pub fn extend_right(&mut self, pad_id: u32, pad_type_id: u32, count: usize)
        requires
            old(self).ids.len() + count <= usize::MAX,
        ensures
            old(self).padded_right(*final(self), pad_id, pad_type_id, count as int),
    {
        let n: usize = self.ids.len();
        let target: usize = n + count;
        let mut attention_mask = materialized(&self.attention_mask, n, 1);
        resize(&mut attention_mask, target, 0);
        self.attention_mask = Some(attention_mask);
        let mut type_ids = materialized(&self.type_ids, n, 0);
        resize(&mut type_ids, target, pad_type_id);
        self.type_ids = Some(type_ids);
        resize(&mut self.ids, target, pad_id);
        grow_field(&mut self.special_tokens_mask, target, 0);
        grow_field(&mut self.sequence_ids, target, None);
        grow_field(&mut self.word_ids, target, None);
        proof {
            if count == 0 {
                assert(self.ids@ =~= old(self).ids@ + repeated(pad_id, 0));
            }
        }
    }

    /// `after` is this encoding with `count` padding tokens before it.
    pub open spec fn padded_left(
        self,
        after: PyEncoding,
        pad_id: u32,
        pad_type_id: u32,
        count: int,
    ) -> bool {
        let n = self.ids.len() as int;
        &&& after.ids@ == repeated(pad_id, count) + self.ids@
        &&& holds(after.attention_mask, repeated(0u32, count) + shown(self.attention_mask, n, 1))
        &&& holds(after.type_ids, repeated(pad_type_id, count) + shown(self.type_ids, n, 0))
        &&& shifted(self.special_tokens_mask, after.special_tokens_mask, count, 0)
        &&& shifted(self.sequence_ids, after.sequence_ids, count, None)
        &&& shifted(self.word_ids, after.word_ids, count, None)
        &&& after.n_sequences == self.n_sequences
    }

    /// Puts `count` padding tokens in front.
    pub fn extend_left(&mut self, pad_id: u32, pad_type_id: u32, count: usize)
        ensures
            old(self).padded_left(*final(self), pad_id, pad_type_id, count as int),
    {
        let n: usize = self.ids.len();
        let attention_mask = materialized(&self.attention_mask, n, 1);
        self.attention_mask = Some(prefixed(0, count, &attention_mask));
        let type_ids = materialized(&self.type_ids, n, 0);
        self.type_ids = Some(prefixed(pad_type_id, count, &type_ids));
        self.ids = prefixed(pad_id, count, &self.ids);
        shift_field(&mut self.special_tokens_mask, count, 0);
        shift_field(&mut self.sequence_ids, count, None);
        shift_field(&mut self.word_ids, count, None);
    }

    /// The tokens that truncation keeps: the last `max_length` ones in the
    /// direction `left`, the first ones in any other.
    pub open spec fn kept(n: int, max_length: int, direction: Seq<char>) -> (int, int) {
        if direction == "left"@ {
            (n - max_length, n)
        } else {
            (0, max_length)
        }
    }

    /// `after` is this encoding, cut to at most `max_length` tokens.
    pub open spec fn is_truncated(
        self,
        after: PyEncoding,
        max_length: int,
        direction: Seq<char>,
    ) -> bool {
        if self.ids.len() <= max_length {
            after == self
        } else {
            let (start, end) = PyEncoding::kept(self.ids.len() as int, max_length, direction);
            self.cut_to(after, start, end)
        }
    }

    /// Cuts the encoding to at most `max_length` tokens. There are no
    /// overflowing tokens, so `stride` has no effect.
    pub fn truncate(&mut self, max_length: usize, stride: usize, direction: &str)
        requires
            old(self).ids.len() > max_length ==> old(self).reaches_all(
                PyEncoding::kept(old(self).ids.len() as int, max_length as int, direction@).1,
            ),
        ensures
            old(self).is_truncated(*final(self), max_length as int, direction@),
            if old(self).ids.len() <= max_length {
                *final(self) == *old(self)
            } else {
                let (start, end) = PyEncoding::kept(
                    old(self).ids.len() as int,
                    max_length as int,
                    direction@,
                );
                old(self).cut_to(*final(self), start, end)
            },
            old(self).ids.len() > max_length ==> final(self).ids@ == if direction@ == "left"@ {
                old(self).ids@.skip(old(self).ids.len() - max_length)
            } else {
                old(self).ids@.take(max_length as int)
            },
    {
        let n: usize = self.ids.len();
        if n <= max_length {
            return;
        }
        if str_eq(direction, "left") {
            self.apply_slice(n - max_length, n);
        } else {
            self.apply_slice(0, max_length);
        }
    }

    /// `after` is this encoding, padded to at least `length` tokens.
    pub open spec fn is_padded_to(
        self,
        after: PyEncoding,
        length: int,
        direction: Seq<char>,
        pad_id: u32,
        pad_type_id: u32,
    ) -> bool {
        let count = length - self.ids.len();
        if count <= 0 {
            after == self
        } else if direction == "left"@ {
            self.padded_left(after, pad_id, pad_type_id, count)
        } else {
            self.padded_right(after, pad_id, pad_type_id, count)
        }
    }

    /// Pads the encoding to at least `length` tokens: on the left in the
    /// direction `left`, on the right in any other. Token strings are not
    /// tracked, so `pad_token` has no effect.
    pub fn pad(
        &mut self,
        length: usize,
        direction: &str,
        pad_id: u32,
        pad_type_id: u32,
        pad_token: &str,
    )
        ensures
            old(self).is_padded_to(
                *final(self),
                length as int,
                direction@,
                pad_id,
                pad_type_id,
            ),
            if length <= old(self).ids.len() {
                *final(self) == *old(self)
            } else {
                let count = length - old(self).ids.len();
                if direction@ == "left"@ {
                    old(self).padded_left(*final(self), pad_id, pad_type_id, count)
                } else {
                    old(self).padded_right(*final(self), pad_id, pad_type_id, count)
                }
            },
            length > old(self).ids.len() ==> final(self).ids.len() == length,
    {
        let n: usize = self.ids.len();
        if length <= n {
            return;
        }
        let deficit: usize = length - n;
        if str_eq(direction, "left") {
            self.extend_left(pad_id, pad_type_id, deficit);
        } else {
            self.extend_right(pad_id, pad_type_id, deficit);
        }
    }
}

/// The parts that `f` takes from the encodings, one after the other.
pub open spec fn joined<T>(encodings: Seq<PyEncoding>, f: spec_fn(PyEncoding) -> Seq<T>) -> Seq<T>
    decreases encodings.len(),
{
    if encodings.len() == 0 {
        seq![]
    } else {
        joined(encodings.drop_last(), f) + f(encodings.last())
    }
}

/// The number of sequences of the encodings together.
pub open spec fn total_sequences(encodings: Seq<PyEncoding>) -> nat
    decreases encodings.len(),
{
    if encodings.len() == 0 {
        0
    } else {
        total_sequences(encodings.drop_last()) + encodings.last().n_sequences as nat
    }
}

proof fn lemma_total_grows(encodings: Seq<PyEncoding>, i: int)
    requires
        0 <= i <= encodings.len(),
    ensures
        total_sequences(encodings.take(i)) <= total_sequences(encodings),
    decreases encodings.len() - i,
{
    if i < encodings.len() {
        lemma_total_grows(encodings, i + 1);
        assert(encodings.take(i + 1).drop_last() =~= encodings.take(i));
    } else {
        assert(encodings.take(i) =~= encodings);
    }
}

impl PyEncoding {
    /// The attention mask, with its default.
    pub open spec fn shown_attention_mask(self) -> Seq<u32> {
        shown(self.attention_mask, self.ids.len() as int, 1)
    }

    /// The type ids, with their default.
    pub open spec fn shown_type_ids(self) -> Seq<u32> {
        shown(self.type_ids, self.ids.len() as int, 0)
    }

    /// The special tokens mask, with its default.
    pub open spec fn shown_special_tokens_mask(self) -> Seq<u32> {
        shown(self.special_tokens_mask, self.ids.len() as int, 0)
    }

    /// The sequence ids, with their default.
    pub open spec fn shown_sequence_ids(self) -> Seq<Option<i64>> {
        shown(self.sequence_ids, self.ids.len() as int, Some(0i64))
    }

    /// The word ids, with their default.
    pub open spec fn shown_word_ids(self) -> Seq<Option<i64>> {
        shown(self.word_ids, self.ids.len() as int, None)
    }

    /// This is the encodings one after the other, with every field made.
    pub open spec fn is_merged(self, encodings: Seq<PyEncoding>) -> bool {
        &&& self.ids@ == joined(encodings, |e: PyEncoding| e.ids@)
        &&& holds(self.attention_mask, joined(encodings, |e: PyEncoding| e.shown_attention_mask()))
        &&& holds(self.type_ids, joined(encodings, |e: PyEncoding| e.shown_type_ids()))
        &&& holds(
            self.special_tokens_mask,
            joined(encodings, |e: PyEncoding| e.shown_special_tokens_mask()),
        )
        &&& self.n_sequences == total_sequences(encodings)
        &&& holds(self.sequence_ids, joined(encodings, |e: PyEncoding| e.shown_sequence_ids()))
        &&& holds(self.word_ids, joined(encodings, |e: PyEncoding| e.shown_word_ids()))
    }

    /// The encodings one after the other, with every field made. Offsets are not
    /// tracked, so `growing_offsets` has no effect.
    pub fn merge(encodings: &Vec<PyEncoding>, growing_offsets: bool) -> (merged: PyEncoding)
        requires
            total_sequences(encodings@) <= usize::MAX,
        ensures
            merged.is_merged(encodings@),
            merged.ids@ == joined(encodings@, |e: PyEncoding| e.ids@),
            holds(
                merged.attention_mask,
                joined(encodings@, |e: PyEncoding| e.shown_attention_mask()),
            ),
            holds(merged.type_ids, joined(encodings@, |e: PyEncoding| e.shown_type_ids())),
            holds(
                merged.special_tokens_mask,
                joined(encodings@, |e: PyEncoding| e.shown_special_tokens_mask()),
            ),
            merged.n_sequences == total_sequences(encodings@),
            holds(merged.sequence_ids, joined(encodings@, |e: PyEncoding| e.shown_sequence_ids())),
            holds(merged.word_ids, joined(encodings@, |e: PyEncoding| e.shown_word_ids())),
    {
        let mut ids: Vec<u32> = Vec::new();
        let mut attention_mask: Vec<u32> = Vec::new();
        let mut type_ids: Vec<u32> = Vec::new();
        let mut special_tokens_mask: Vec<u32> = Vec::new();
        let mut n_sequences: usize = 0;
        let mut sequence_ids: Vec<Option<i64>> = Vec::new();
        let mut word_ids: Vec<Option<i64>> = Vec::new();
        let mut i: usize = 0;
        while i < encodings.len()
            invariant
                i <= encodings.len(),
                total_sequences(encodings@) <= usize::MAX,
                ids@ == joined(encodings@.take(i as int), |e: PyEncoding| e.ids@),
                attention_mask@ == joined(
                    encodings@.take(i as int),
                    |e: PyEncoding| e.shown_attention_mask(),
                ),
                type_ids@ == joined(encodings@.take(i as int), |e: PyEncoding| e.shown_type_ids()),
                special_tokens_mask@ == joined(
                    encodings@.take(i as int),
                    |e: PyEncoding| e.shown_special_tokens_mask(),
                ),
                n_sequences == total_sequences(encodings@.take(i as int)),
                sequence_ids@ == joined(
                    encodings@.take(i as int),
                    |e: PyEncoding| e.shown_sequence_ids(),
                ),
                word_ids@ == joined(encodings@.take(i as int), |e: PyEncoding| e.shown_word_ids()),
            decreases encodings.len() - i,
        {
            let encoding = &encodings[i];
            proof {
                assert(encodings@.take(i + 1).drop_last() =~= encodings@.take(i as int));
                lemma_total_grows(encodings@, i + 1);
            }
            append_all(&mut ids, &encoding.ids);
            append_all(&mut attention_mask, &encoding.materialized_attention_mask());
            append_all(&mut type_ids, &encoding.materialized_type_ids());
            append_all(&mut special_tokens_mask, &encoding.materialized_special_tokens_mask());
            n_sequences += encoding.n_sequences;
            append_all(&mut sequence_ids, &encoding.materialized_sequence_ids());
            append_all(&mut word_ids, &encoding.materialized_word_ids());
            i += 1;
        }
        assert(encodings@.take(i as int) =~= encodings@);
        PyEncoding {
            ids,
            attention_mask: Some(attention_mask),
            type_ids: Some(type_ids),
            special_tokens_mask: Some(special_tokens_mask),
            n_sequences,
            sequence_ids: Some(sequence_ids),
            word_ids: Some(word_ids),
        }
    }

    /// `after` is this encoding with the sequence id for every token.
    pub open spec fn has_sequence_id(self, after: PyEncoding, sequence_id: i64) -> bool {
        &&& holds(after.sequence_ids, repeated(Some(sequence_id), self.ids.len() as int))
        &&& after == (PyEncoding { sequence_ids: after.sequence_ids, ..self })
    }

    /// Gives every token the same sequence id.
    pub fn set_sequence_id(&mut self, sequence_id: i64)
        ensures
            old(self).has_sequence_id(*final(self), sequence_id),
            holds(
                final(self).sequence_ids,
                repeated(Some(sequence_id), old(self).ids.len() as int),
            ),
            final(self).ids == old(self).ids,
            final(self).attention_mask == old(self).attention_mask,
            final(self).type_ids == old(self).type_ids,
            final(self).special_tokens_mask == old(self).special_tokens_mask,
            final(self).n_sequences == old(self).n_sequences,
            final(self).word_ids == old(self).word_ids,
    {
        self.sequence_ids = Some(filled(Some(sequence_id), self.ids.len()));
    }

    /// `fields` are the selected ones of this encoding, if any is selected, and
    /// `after` is what is left of it.
    pub open spec fn gives_fields(
        self,
        after: PyEncoding,
        selected: (bool, bool, bool, bool),
        fields: Option<EncodingFields>,
    ) -> bool {
        let (ids, attention_mask, type_ids, special_tokens_mask) = selected;
        match fields {
            None => !ids && !attention_mask && !type_ids && !special_tokens_mask && after == self,
            Some(fields) => {
                &&& ids || attention_mask || type_ids || special_tokens_mask
                &&& taken(ids, fields.ids, self.ids@)
                &&& taken(attention_mask, fields.attention_mask, self.shown_attention_mask())
                &&& taken(type_ids, fields.type_ids, self.shown_type_ids())
                &&& taken(
                    special_tokens_mask,
                    fields.special_tokens_mask,
                    self.shown_special_tokens_mask(),
                )
                &&& after.is_drained()
            },
        }
    }

    /// Moves the selected fields out and leaves the encoding without tokens. A
    /// selected field that was left out is made. At least one has to be
    /// selected; if none is, the encoding stays as it was.
    pub fn take_fields(
        &mut self,
        ids: bool,
        attention_mask: bool,
        type_ids: bool,
        special_tokens_mask: bool,
    ) -> (fields: Option<EncodingFields>)
        ensures
            old(self).gives_fields(
                *final(self),
                (ids, attention_mask, type_ids, special_tokens_mask),
                fields,
            ),
            match fields {
                None => !ids && !attention_mask && !type_ids && !special_tokens_mask
                    && *final(self) == *old(self),
                Some(fields) => {
                    &&& ids || attention_mask || type_ids || special_tokens_mask
                    &&& taken(ids, fields.ids, old(self).ids@)
                    &&& taken(
                        attention_mask,
                        fields.attention_mask,
                        old(self).shown_attention_mask(),
                    )
                    &&& taken(type_ids, fields.type_ids, old(self).shown_type_ids())
                    &&& taken(
                        special_tokens_mask,
                        fields.special_tokens_mask,
                        old(self).shown_special_tokens_mask(),
                    )
                    &&& final(self).is_drained()
                },
            },
    {
        if !(ids || attention_mask || type_ids || special_tokens_mask) {
            return None;
        }
        let n: usize = self.ids.len();
        let mut all: Vec<u32> = Vec::new();
        std::mem::swap(&mut all, &mut self.ids);
        let fields = EncodingFields {
            ids: if ids {
                Some(all)
            } else {
                None
            },
            attention_mask: if attention_mask {
                Some(materialized(&self.attention_mask, n, 1))
            } else {
                None
            },
            type_ids: if type_ids {
                Some(materialized(&self.type_ids, n, 0))
            } else {
                None
            },
            special_tokens_mask: if special_tokens_mask {
                Some(materialized(&self.special_tokens_mask, n, 0))
            } else {
                None
            },
        };
        self.attention_mask = None;
        self.type_ids = None;
        self.special_tokens_mask = None;
        self.sequence_ids = None;
        self.word_ids = None;
        self.n_sequences = 0;
        Some(fields)
    }

    /// No tokens, no fields and no sequences.
    pub open spec fn is_drained(self) -> bool {
        &&& self.ids@.len() == 0
        &&& self.attention_mask is None
        &&& self.type_ids is None
        &&& self.special_tokens_mask is None
        &&& self.n_sequences == 0
        &&& self.sequence_ids is None
        &&& self.word_ids is None
    }
}

/// The fields that [`PyEncoding::take_fields`] moves out.
pub struct EncodingFields {
    /// The token ids, if they were selected.
    pub ids: Option<Vec<u32>>,
    /// The attention mask, if it was selected.
    pub attention_mask: Option<Vec<u32>>,
    /// The type ids, if they were selected.
    pub type_ids: Option<Vec<u32>>,
    /// The special tokens mask, if it was selected.
    pub special_tokens_mask: Option<Vec<u32>>,
}

/// A field is there exactly if it was selected, and holds these values.
pub open spec fn taken(selected: bool, field: Option<Vec<u32>>, values: Seq<u32>) -> bool {
    if selected {
        holds(field, values)
    } else {
        field is None
    }
}

/// How encodings are truncated.
#[derive(Clone, Debug)]
pub struct TruncationParams {
    /// The most tokens that stay.
    pub max_length: usize,
    /// Overlap of overflowing parts, which are not produced.
    pub stride: usize,
    /// Which of a pair is truncated; pairs are not supported.
    pub strategy: String,
    /// `left` keeps the last tokens, anything else the first.
    pub direction: String,
}

/// How encodings are padded.
#[derive(Clone, Debug)]
pub struct PaddingParams {
    /// `left` pads in front, anything else at the end.
    pub direction: String,
    /// The id of padding tokens.
    pub pad_id: u32,
    /// The type id of padding tokens.
    pub pad_type_id: u32,
    /// The string of padding tokens, which is not tracked.
    pub pad_token: String,
    /// The length to pad to, if it is not that of the longest encoding.
    pub length: Option<usize>,
    /// Round the length up to a multiple of this, if it is not 0.
    pub pad_to_multiple_of: Option<usize>,
}

/// The least multiple of `m` that is not below `n`.
pub open spec fn round_up(n: int, m: int) -> int {
    if n % m == 0 {
        n
    } else {
        n + m - n % m
    }
}

impl PaddingParams {
    /// The length to pad to if `n` tokens have to fit.
    pub open spec fn target(self, n: int) -> int {
        match self.pad_to_multiple_of {
            Some(m) => if m > 0 {
                round_up(self.base(n), m as int)
            } else {
                self.base(n)
            },
            None => self.base(n),
        }
    }

    /// The configured length, or `n` if that is more.
    pub open spec fn base(self, n: int) -> int {
        match self.length {
            Some(length) => if length < n {
                n
            } else {
                length as int
            },
            None => n,
        }
    }

    /// Rounding up the length for `n` tokens stays within machine limits.
    pub open spec fn fits(self, n: int) -> bool {
        match self.pad_to_multiple_of {
            Some(m) => m > 0 ==> self.base(n) + m - 1 <= usize::MAX,
            None => true,
        }
    }

    /// The length to pad to if `n` tokens have to fit: the configured length,
    /// or `n` if that is more, rounded up to the configured multiple.
    pub fn pad_target(&self, n: usize) -> (target: usize)
        requires
            self.fits(n as int),
        ensures
            target == self.target(n as int),
            n <= target,
            self.length matches Some(length) ==> length <= target,
            self.pad_to_multiple_of is None ==> target == n || self.length == Some(target),
    {
        let base: usize = match self.length {
            Some(length) => if length < n {
                n
            } else {
                length
            },
            None => n,
        };
        match self.pad_to_multiple_of {
            Some(m) => if m > 0 {
                proof {
                    lemma_round_up(base as int, m as int);
                }
                (base + (m - 1)) / m * m
            } else {
                base
            },
            None => base,
        }
    }
}

proof fn lemma_round_up(n: int, m: int)
    requires
        0 <= n,
        0 < m,
    ensures
        (n + m - 1) / m * m == round_up(n, m),
        n <= round_up(n, m) <= n + m - 1,
{
    let q = n / m;
    let r = n % m;
    vstd::arithmetic::div_mod::lemma_fundamental_div_mod(n, m);
    assert(m * q == q * m) by (nonlinear_arith);
    if r == 0 {
        assert((q * m + (m - 1)) / m == q) by (nonlinear_arith)
            requires
                0 < m,
        ;
    } else {
        assert((q * m + m + (r - 1)) / m == q + 1) by (nonlinear_arith)
            requires
                0 < r < m,
        ;
        assert((q + 1) * m == q * m + m) by (nonlinear_arith);
    }
}

/// The encoding of `ids`, padded to `target` tokens if there is padding.
pub open spec fn built(
    ids: Seq<u32>,
    pad: Option<PaddingParams>,
    target: int,
    encoding: PyEncoding,
) -> bool {
    let n = ids.len() as int;
    let count = target - n;
    &&& encoding.n_sequences == 1
    &&& encoding.special_tokens_mask is None
    &&& encoding.sequence_ids is None
    &&& encoding.word_ids is None
    &&& match pad {
        Some(p) => if count > 0 {
            if p.direction@ == "left"@ {
                &&& encoding.ids@ == repeated(p.pad_id, count) + ids
                &&& holds(encoding.attention_mask, repeated(0u32, count) + repeated(1u32, n))
                &&& holds(encoding.type_ids, repeated(p.pad_type_id, count) + repeated(0u32, n))
            } else {
                &&& encoding.ids@ == ids + repeated(p.pad_id, count)
                &&& holds(encoding.attention_mask, repeated(1u32, n) + repeated(0u32, count))
                &&& holds(encoding.type_ids, repeated(0u32, n) + repeated(p.pad_type_id, count))
            }
        } else {
            &&& encoding.ids@ == ids
            &&& encoding.attention_mask is None
            &&& encoding.type_ids is None
        },
        None => {
            &&& encoding.ids@ == ids
            &&& encoding.attention_mask is None
            &&& encoding.type_ids is None
        },
    }
}

/// The encoding of `ids`, padded to `target` tokens if there is padding.
pub fn build_encoding(
    ids: Vec<u32>,
    pad: Option<&PaddingParams>,
    target: usize,
) -> (encoding: PyEncoding)
    ensures
        built(
            ids@,
            match pad {
                Some(p) => Some(*p),
                None => None,
            },
            target as int,
            encoding,
        ),
{
    let mut encoding = PyEncoding::make(ids);
    if let Some(p) = pad {
        encoding.pad(
            target,
            p.direction.as_str(),
            p.pad_id,
            p.pad_type_id,
            p.pad_token.as_str(),
        );
    }
    encoding
}

/// The ids that truncation keeps.
pub open spec fn truncated(trunc: Option<TruncationParams>, ids: Seq<u32>) -> Seq<u32> {
    match trunc {
        Some(t) => if ids.len() <= t.max_length {
            ids
        } else {
            let (start, end) = PyEncoding::kept(
                ids.len() as int,
                t.max_length as int,
                t.direction@,
            );
            ids.subrange(start, end)
        },
        None => ids,
    }
}

/// Truncation and padding, as they are enabled for a tokenizer.
#[derive(Clone, Debug)]
pub struct LengthSettings {
    /// The truncation, if it is enabled.
    pub trunc: Option<TruncationParams>,
    /// The padding, if it is enabled.
    pub pad: Option<PaddingParams>,
}

impl LengthSettings {
    /// Cuts the ids to the configured length.
    pub fn do_truncate(&self, ids: &mut Vec<u32>)
        ensures
            final(ids)@ == truncated(self.trunc, old(ids)@),
            self.trunc is None ==> final(ids)@ == old(ids)@,
            self.trunc matches Some(t) ==> final(ids)@ == if old(ids).len() <= t.max_length {
                old(ids)@
            } else if t.direction@ == "left"@ {
                old(ids)@.skip(old(ids).len() - t.max_length)
            } else {
                old(ids)@.take(t.max_length as int)
            },
    {
        if let Some(t) = &self.trunc {
            if ids.len() <= t.max_length {
                return;
            }
            if str_eq(t.direction.as_str(), "left") {
                *ids = sliced(ids, ids.len() - t.max_length, ids.len());
            } else {
                ids.truncate(t.max_length);
            }
        }
    }

    /// The length of an encoding on its own: that of its `n` tokens, or where
    /// padding is enabled the length to pad to.
    pub open spec fn single_target(self, n: int) -> int {
        match self.pad {
            Some(p) => p.target(n),
            None => n,
        }
    }

    /// Rounding up the length for `n` tokens stays within machine limits.
    pub open spec fn fits(self, n: int) -> bool {
        self.pad matches Some(p) ==> p.fits(n)
    }

    /// The length of an encoding of `n` tokens on its own.
    pub fn single_pad_target(&self, n: usize) -> (target: usize)
        requires
            self.fits(n as int),
        ensures
            target == self.single_target(n as int),
    {
        match &self.pad {
            Some(p) => p.pad_target(n),
            None => n,
        }
    }

    /// The encoding of the ids of one text.
    pub fn finish(&self, ids: Vec<u32>) -> (encoding: PyEncoding)
        requires
            self.fits(truncated(self.trunc, ids@).len() as int),
        ensures
            built(
                truncated(self.trunc, ids@),
                self.pad,
                self.single_target(truncated(self.trunc, ids@).len() as int),
                encoding,
            ),
    {
        let mut ids = ids;
        self.do_truncate(&mut ids);
        let target: usize = self.single_pad_target(ids.len());
        build_encoding(ids, self.pad.as_ref(), target)
    }

    /// The encodings of the ids of several texts: truncation is applied to each,
    /// padding brings them to one length.
    pub fn finish_batch(&self, batch: Vec<Vec<u32>>) -> (encodings: Vec<PyEncoding>)
        requires
            self.fits(longest(self.trunc, batch@)),
        ensures
            encodings.len() == batch.len(),
            forall|i: int|
                #![trigger encodings@[i]]
                0 <= i < batch.len() ==> built(
                    truncated(self.trunc, batch@[i]@),
                    self.pad,
                    self.single_target(longest(self.trunc, batch@)),
                    encodings@[i],
                ),
    {
        let ghost all = batch@;
        let mut short: Vec<Vec<u32>> = Vec::new();
        let mut max_len: usize = 0;
        for ids in it: batch
            invariant
                it.seq() == all,
                short.len() == it.index(),
                forall|i: int|
                    0 <= i < short.len() ==> (#[trigger] short@[i])@ == truncated(
                        self.trunc,
                        all[i]@,
                    ),
                max_len == longest(self.trunc, all.take(short.len() as int)),
        {
            let mut kept = ids;
            self.do_truncate(&mut kept);
            if kept.len() > max_len {
                max_len = kept.len();
            }
            proof {
                let k = short.len() as int;
                assert(all.take(k + 1).drop_last() =~= all.take(k));
            }
            short.push(kept);
        }
        assert(all.take(all.len() as int) =~= all);
        let target: usize = self.single_pad_target(max_len);
        let ghost cut = short@;
        let mut encodings: Vec<PyEncoding> = Vec::new();
        for ids in it: short
            invariant
                it.seq() == cut,
                cut.len() == all.len(),
                encodings.len() == it.index(),
                forall|i: int|
                    0 <= i < cut.len() ==> (#[trigger] cut[i])@ == truncated(self.trunc, all[i]@),
                target == self.single_target(longest(self.trunc, all)),
                forall|i: int|
                    #![trigger encodings@[i]]
                    0 <= i < encodings.len() ==> built(
                        truncated(self.trunc, all[i]@),
                        self.pad,
                        target as int,
                        encodings@[i],
                    ),
        {
            encodings.push(build_encoding(ids, self.pad.as_ref(), target));
        }
        encodings
    }
}

/// The length of the longest of the truncated texts; 0 if there is none.
pub open spec fn longest(trunc: Option<TruncationParams>, batch: Seq<Vec<u32>>) -> int
    decreases batch.len(),
{
    if batch.len() == 0 {
        0
    } else {
        let rest = longest(trunc, batch.drop_last());
        let n = truncated(trunc, batch.last()@).len() as int;
        if n > rest {
            n
        } else {
            rest
        }
    }
}

/// A field is left out or has `n` values.
pub open spec fn has_length<T>(field: Option<Vec<T>>, n: int) -> bool {
    field matches Some(values) ==> values.len() == n
}

impl PyEncoding {
    /// Every field that was set has one value per token.
    pub open spec fn is_aligned(self) -> bool {
        let n = self.ids.len() as int;
        &&& has_length(self.attention_mask, n)
        &&& has_length(self.type_ids, n)
        &&& has_length(self.special_tokens_mask, n)
        &&& has_length(self.sequence_ids, n)
        &&& has_length(self.word_ids, n)
    }
}

/// Truncation keeps one value per token in every field, and leaves exactly
/// `end - start` tokens.
pub proof fn law_cut_keeps_alignment(
    before: PyEncoding,
    after: PyEncoding,
    start: int,
    end: int,
)
    requires
        before.is_aligned(),
        0 <= start <= end <= before.ids.len(),
        before.cut_to(after, start, end),
    ensures
        after.is_aligned(),
        after.ids.len() == end - start,
        after.shown_attention_mask() == before.shown_attention_mask().subrange(start, end),
        after.shown_type_ids() == before.shown_type_ids().subrange(start, end),
        after.shown_special_tokens_mask() == before.shown_special_tokens_mask().subrange(start, end),
        after.shown_sequence_ids() == before.shown_sequence_ids().subrange(start, end),
        after.shown_word_ids() == before.shown_word_ids().subrange(start, end),
{
}

/// Padding keeps one value per token in every field, adds `count` tokens, and
/// gives exactly the added tokens attention 0 and the padding type id.
pub proof fn law_pad_marks_padding(
    before: PyEncoding,
    after: PyEncoding,
    pad_id: u32,
    pad_type_id: u32,
    count: int,
)
    requires
        before.is_aligned(),
        0 <= count,
        before.padded_right(after, pad_id, pad_type_id, count) || before.padded_left(
            after,
            pad_id,
            pad_type_id,
            count,
        ),
    ensures
        after.is_aligned(),
        after.ids.len() == before.ids.len() + count,
        before.padded_right(after, pad_id, pad_type_id, count) ==> {
            &&& after.ids@ == before.ids@ + repeated(pad_id, count)
            &&& after.shown_attention_mask() == before.shown_attention_mask() + repeated(
                0u32,
                count,
            )
            &&& after.shown_type_ids() == before.shown_type_ids() + repeated(pad_type_id, count)
        },
        before.padded_left(after, pad_id, pad_type_id, count) ==> {
            &&& after.ids@ == repeated(pad_id, count) + before.ids@
            &&& after.shown_attention_mask() == repeated(0u32, count)
                + before.shown_attention_mask()
            &&& after.shown_type_ids() == repeated(pad_type_id, count) + before.shown_type_ids()
        },
{
}

/// Truncating a padded encoding to its old length, at the end where it was
/// padded, gives back its tokens and their fields.
pub proof fn law_truncation_undoes_padding(
    before: PyEncoding,
    padded: PyEncoding,
    after: PyEncoding,
    pad_id: u32,
    pad_type_id: u32,
    count: int,
    left: bool,
)
    requires
        before.is_aligned(),
        0 <= count,
        if left {
            &&& before.padded_left(padded, pad_id, pad_type_id, count)
            &&& padded.cut_to(after, count, count + before.ids.len())
        } else {
            &&& before.padded_right(padded, pad_id, pad_type_id, count)
            &&& padded.cut_to(after, 0, before.ids.len() as int)
        },
    ensures
        after.ids@ == before.ids@,
        after.shown_attention_mask() == before.shown_attention_mask(),
        after.shown_type_ids() == before.shown_type_ids(),
        after.shown_special_tokens_mask() == before.shown_special_tokens_mask(),
        after.shown_sequence_ids() == before.shown_sequence_ids(),
        after.shown_word_ids() == before.shown_word_ids(),
{
    law_pad_marks_padding(before, padded, pad_id, pad_type_id, count);
    let start = if left {
        count
    } else {
        0
    };
    let end = start + before.ids.len();
    law_cut_keeps_alignment(padded, after, start, end);
}

/// Merged encodings have one value per token in every field if each of them
/// does.
pub proof fn law_merge_keeps_alignment(encodings: Seq<PyEncoding>)
    requires
        forall|i: int| 0 <= i < encodings.len() ==> (#[trigger] encodings[i]).is_aligned(),
    ensures
        joined(encodings, |e: PyEncoding| e.shown_attention_mask()).len() == joined(
            encodings,
            |e: PyEncoding| e.ids@,
        ).len(),
        joined(encodings, |e: PyEncoding| e.shown_type_ids()).len() == joined(
            encodings,
            |e: PyEncoding| e.ids@,
        ).len(),
        joined(encodings, |e: PyEncoding| e.shown_special_tokens_mask()).len() == joined(
            encodings,
            |e: PyEncoding| e.ids@,
        ).len(),
        joined(encodings, |e: PyEncoding| e.shown_sequence_ids()).len() == joined(
            encodings,
            |e: PyEncoding| e.ids@,
        ).len(),
        joined(encodings, |e: PyEncoding| e.shown_word_ids()).len() == joined(
            encodings,
            |e: PyEncoding| e.ids@,
        ).len(),
    decreases encodings.len(),
{
    if encodings.len() > 0 {
        law_merge_keeps_alignment(encodings.drop_last());
    }
}

/// The encodings of a padded batch all have the same length: the one that the
/// longest needs, which is a multiple of the configured number.
pub proof fn law_padded_batch_is_uniform(
    settings: LengthSettings,
    batch: Seq<Vec<u32>>,
    encodings: Seq<PyEncoding>,
    i: int,
)
    requires
        settings.pad is Some,
        encodings.len() == batch.len(),
        forall|i: int|
            #![trigger encodings[i]]
            0 <= i < batch.len() ==> built(
                truncated(settings.trunc, batch[i]@),
                settings.pad,
                settings.single_target(longest(settings.trunc, batch)),
                encodings[i],
            ),
        0 <= i < batch.len(),
    ensures
        encodings[i].ids.len() == settings.single_target(longest(settings.trunc, batch)),
        encodings[i].is_aligned(),
        settings.pad->0.pad_to_multiple_of matches Some(m) ==> m > 0 ==> encodings[i].ids.len()
            % m == 0,
        settings.pad->0.length matches Some(length) ==> length <= encodings[i].ids.len(),
{
    lemma_longest(settings.trunc, batch, i);
    let pad = settings.pad->0;
    let most = longest(settings.trunc, batch);
    if let Some(m) = pad.pad_to_multiple_of {
        if m > 0 {
            lemma_round_up(pad.base(most), m as int);
            let base = pad.base(most);
            vstd::arithmetic::div_mod::lemma_fundamental_div_mod(base, m as int);
            if base % m as int != 0 {
                let q = base / m as int;
                assert((m * q + m) % (m as int) == 0) by (nonlinear_arith)
                    requires
                        m > 0,
                ;
            }
        }
    }
}

proof fn lemma_longest(trunc: Option<TruncationParams>, batch: Seq<Vec<u32>>, i: int)
    requires
        0 <= i < batch.len(),
    ensures
        truncated(trunc, batch[i]@).len() <= longest(trunc, batch),
    decreases batch.len(),
{
    if i < batch.len() - 1 {
        lemma_longest(trunc, batch.drop_last(), i);
    }
}

} // verus!
