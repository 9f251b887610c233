//! The variable that a mistyped name was probably meant to be.

use vstd::prelude::*;

use crate::text::{chars_of, is_before, law_text_order, law_text_order_is_transitive, text_before};

verus! {

/// The least of three.
pub open spec fn least(a: nat, b: nat, c: nat) -> nat {
    if a <= b && a <= c {
        a
    } else if b <= c {
        b
    } else {
        c
    }
}

/// The least number of characters to insert, delete or replace that makes `b`
/// of `a`.
pub open spec fn edit_distance(a: Seq<char>, b: Seq<char>) -> nat
    decreases a.len() + b.len(),
{
    if a.len() == 0 {
        b.len()
    } else if b.len() == 0 {
        a.len()
    } else {
        least(
            edit_distance(a.drop_last(), b.drop_last()) + if a.last() == b.last() {
                0nat
            } else {
                1nat
            },
            edit_distance(a, b.drop_last()) + 1,
            edit_distance(a.drop_last(), b) + 1,
        )
    }
}

/// The distance is at most the length of the longer text, and at least the
/// difference of the lengths.
pub proof fn law_edit_distance_bounds(a: Seq<char>, b: Seq<char>)
    ensures
        edit_distance(a, b) <= a.len() || edit_distance(a, b) <= b.len(),
        a.len() <= b.len() + edit_distance(a, b),
        b.len() <= a.len() + edit_distance(a, b),
    decreases a.len() + b.len(),
{
    if a.len() > 0 && b.len() > 0 {
        law_edit_distance_bounds(a.drop_last(), b.drop_last());
        law_edit_distance_bounds(a, b.drop_last());
        law_edit_distance_bounds(a.drop_last(), b);
    }
}

/// The distance is the same in both directions.
pub proof fn law_edit_distance_is_symmetric(a: Seq<char>, b: Seq<char>)
    ensures
        edit_distance(a, b) == edit_distance(b, a),
    decreases a.len() + b.len(),
{
    if a.len() > 0 && b.len() > 0 {
        law_edit_distance_is_symmetric(a.drop_last(), b.drop_last());
        law_edit_distance_is_symmetric(a, b.drop_last());
        law_edit_distance_is_symmetric(a.drop_last(), b);
    }
}

/// The distance is 0 between equal texts and no others.
pub proof fn law_edit_distance_zero(a: Seq<char>, b: Seq<char>)
    ensures
        edit_distance(a, b) == 0 <==> a == b,
    decreases a.len() + b.len(),
{
    if a.len() == 0 || b.len() == 0 {
        assert(a.len() == b.len() ==> a =~= b);
    } else {
        law_edit_distance_zero(a.drop_last(), b.drop_last());
        assert(a =~= a.drop_last().push(a.last()));
        assert(b =~= b.drop_last().push(b.last()));
    }
}

/// The way over a third text is not shorter.
pub proof fn law_edit_distance_triangle(a: Seq<char>, b: Seq<char>, c: Seq<char>)
    ensures
        edit_distance(a, c) <= edit_distance(a, b) + edit_distance(b, c),
    decreases a.len() + b.len() + c.len(),
{
    if a.len() == 0 || b.len() == 0 || c.len() == 0 {
        law_edit_distance_bounds(a, b);
        law_edit_distance_bounds(b, c);
        law_edit_distance_bounds(a, c);
    } else {
        let (a1, b1, c1) = (a.drop_last(), b.drop_last(), c.drop_last());
        law_edit_distance_triangle(a1, b, c);
        law_edit_distance_triangle(a, b, c1);
        law_edit_distance_triangle(a, b1, c);
        law_edit_distance_triangle(a, b1, c1);
        law_edit_distance_triangle(a1, b1, c);
        law_edit_distance_triangle(a1, b1, c1);
    }
}

/// The text with a character inserted, removed or replaced at `i`.
pub open spec fn is_edit_at(a: Seq<char>, b: Seq<char>, i: int) -> bool {
    ||| 0 <= i <= a.len() && exists|c: char| b == #[trigger] a.insert(i, c)
    ||| 0 <= i < a.len() && b == a.remove(i)
    ||| 0 <= i < a.len() && exists|c: char| b == #[trigger] a.update(i, c)
}

/// One character is inserted, removed or replaced.
pub open spec fn is_edit(a: Seq<char>, b: Seq<char>) -> bool {
    exists|i: int| #[trigger] is_edit_at(a, b, i)
}

/// `n` edits, one after the other, make `b` of `a`.
pub open spec fn edits_make(a: Seq<char>, b: Seq<char>, n: nat) -> bool
    decreases n,
{
    if n == 0 {
        a == b
    } else {
        exists|m: Seq<char>| #[trigger] is_edit(a, m) && edits_make(m, b, (n - 1) as nat)
    }
}

/// What follows both texts makes them no further apart.
proof fn lemma_common_suffix(a: Seq<char>, b: Seq<char>, suffix: Seq<char>)
    ensures
        edit_distance(a + suffix, b + suffix) <= edit_distance(a, b),
    decreases suffix.len(),
{
    if suffix.len() == 0 {
        assert(a + suffix =~= a);
        assert(b + suffix =~= b);
    } else {
        let shorter = suffix.drop_last();
        lemma_common_suffix(a, b, shorter);
        assert((a + suffix).drop_last() =~= a + shorter);
        assert((b + suffix).drop_last() =~= b + shorter);
    }
}

/// One edit leads no further than 1.
proof fn lemma_edit_is_near(a: Seq<char>, b: Seq<char>)
    requires
        is_edit(a, b),
    ensures
        edit_distance(a, b) <= 1,
{
    let i = choose|i: int| #[trigger] is_edit_at(a, b, i);
    let p = a.take(i);
    law_edit_distance_zero(p, p);
    if 0 <= i <= a.len() && exists|c: char| b == #[trigger] a.insert(i, c) {
        let c = choose|c: char| b == #[trigger] a.insert(i, c);
        let s = a.skip(i);
        assert(p.push(c).drop_last() =~= p);
        assert(edit_distance(p, p.push(c)) <= 1);
        lemma_common_suffix(p, p.push(c), s);
        assert(a =~= p + s);
        assert(b =~= p.push(c) + s);
    } else {
        let s = a.skip(i + 1);
        let q = p.push(a[i]);
        assert(q.drop_last() =~= p);
        assert(a =~= q + s);
        if b == a.remove(i) {
            assert(edit_distance(q, p) <= 1);
            lemma_common_suffix(q, p, s);
            assert(b =~= p + s);
        } else {
            let c = choose|c: char| b == #[trigger] a.update(i, c);
            assert(p.push(c).drop_last() =~= p);
            assert(edit_distance(q, p.push(c)) <= 1);
            lemma_common_suffix(q, p.push(c), s);
            assert(b =~= p.push(c) + s);
        }
    }
}

proof fn lemma_one_edit(a: Seq<char>, b: Seq<char>)
    requires
        is_edit(a, b),
    ensures
        edits_make(a, b, 1),
{
    reveal_with_fuel(edits_make, 2);
    assert(edits_make(b, b, 0));
}

/// Edits can follow edits.
proof fn lemma_edits_join(a: Seq<char>, b: Seq<char>, c: Seq<char>, m: nat, n: nat)
    requires
        edits_make(a, b, m),
        edits_make(b, c, n),
    ensures
        edits_make(a, c, m + n),
    decreases m,
{
    if m > 0 {
        let x = choose|x: Seq<char>| #[trigger] is_edit(a, x) && edits_make(x, b, (m - 1) as nat);
        lemma_edits_join(x, b, c, (m - 1) as nat, n);
        assert(((m - 1) as nat + n) as nat == (m + n - 1) as nat);
    }
}

/// Edits make the same before a character that stays.
proof fn lemma_edits_push(a: Seq<char>, b: Seq<char>, c: char, n: nat)
    requires
        edits_make(a, b, n),
    ensures
        edits_make(a.push(c), b.push(c), n),
    decreases n,
{
    if n > 0 {
        let x = choose|x: Seq<char>| #[trigger] is_edit(a, x) && edits_make(x, b, (n - 1) as nat);
        lemma_edits_push(x, b, c, (n - 1) as nat);
        let i = choose|i: int| #[trigger] is_edit_at(a, x, i);
        if 0 <= i <= a.len() && exists|d: char| x == #[trigger] a.insert(i, d) {
            let d = choose|d: char| x == #[trigger] a.insert(i, d);
            assert(x.push(c) =~= a.push(c).insert(i, d));
        } else if x == a.remove(i) {
            assert(x.push(c) =~= a.push(c).remove(i));
        } else {
            let d = choose|d: char| x == #[trigger] a.update(i, d);
            assert(x.push(c) =~= a.push(c).update(i, d));
        }
        assert(is_edit_at(a.push(c), x.push(c), i));
        assert(is_edit(a.push(c), x.push(c)));
    }
}

/// As many edits as the distance says make `b` of `a`.
proof fn lemma_edits_reach(a: Seq<char>, b: Seq<char>)
    ensures
        edits_make(a, b, edit_distance(a, b)),
    decreases a.len() + b.len(), 1int,
{
    if a.len() == 0 && b.len() == 0 {
        assert(a =~= b);
    } else if a.len() == 0 {
        lemma_insert_last(a, b);
    } else if b.len() == 0 {
        lemma_remove_last(a, b);
    } else {
        let a1 = a.drop_last();
        let b1 = b.drop_last();
        let n = edit_distance(a, b);
        if n == edit_distance(a, b1) + 1 {
            lemma_insert_last(a, b);
        } else if n == edit_distance(a1, b) + 1 {
            lemma_remove_last(a, b);
        } else {
            lemma_edits_reach(a1, b1);
            let m = edit_distance(a1, b1);
            lemma_edits_push(a1, b1, a.last(), m);
            assert(a =~= a1.push(a.last()));
            assert(b =~= b1.push(b.last()));
            if a.last() != b.last() {
                let x = b1.push(a.last());
                assert(b =~= x.update(b.len() - 1, b.last()));
                assert(is_edit_at(x, b, b.len() - 1));
                lemma_one_edit(x, b);
                lemma_edits_join(a, x, b, m, 1);
            }
        }
    }
}

proof fn lemma_insert_last(a: Seq<char>, b: Seq<char>)
    requires
        b.len() > 0,
    ensures
        edits_make(a, b, edit_distance(a, b.drop_last()) + 1),
    decreases a.len() + b.len(), 0int,
{
    let b1 = b.drop_last();
    lemma_edits_reach(a, b1);
    assert(b =~= b1.insert(b1.len() as int, b.last()));
    assert(is_edit_at(b1, b, b1.len() as int));
    lemma_one_edit(b1, b);
    lemma_edits_join(a, b1, b, edit_distance(a, b1), 1);
}

proof fn lemma_remove_last(a: Seq<char>, b: Seq<char>)
    requires
        a.len() > 0,
    ensures
        edits_make(a, b, edit_distance(a.drop_last(), b) + 1),
    decreases a.len() + b.len(), 0int,
{
    let a1 = a.drop_last();
    lemma_edits_reach(a1, b);
    assert(a1 =~= a.remove(a.len() - 1));
    assert(is_edit_at(a, a1, a.len() - 1));
    lemma_one_edit(a, a1);
    lemma_edits_join(a, a1, b, 1, edit_distance(a1, b));
}

/// The distance is the least number of edits: so many make `b` of `a`, and fewer
/// do not.
pub proof fn law_edit_distance_is_least(a: Seq<char>, b: Seq<char>, n: nat)
    ensures
        edits_make(a, b, edit_distance(a, b)),
        edits_make(a, b, n) ==> edit_distance(a, b) <= n,
    decreases n,
{
    lemma_edits_reach(a, b);
    if edits_make(a, b, n) {
        if n == 0 {
            law_edit_distance_zero(a, b);
        } else {
            let m = choose|m: Seq<char>| #[trigger]
                is_edit(a, m) && edits_make(m, b, (n - 1) as nat);
            law_edit_distance_is_least(m, b, (n - 1) as nat);
            lemma_edit_is_near(a, m);
            law_edit_distance_triangle(a, m, b);
        }
    }
}

/// The Levenshtein distance of two texts, character by character.
pub fn levenshtein(left: &str, right: &str) -> (distance: usize)
    ensures
        distance == edit_distance(left@, right@),
{
    let a = chars_of(left);
    let b = chars_of(right);
    let n: usize = b.len();
    let mut row: Vec<usize> = Vec::new();
    let mut j: usize = 0;
    while j < n
        invariant
            n == b.len(),
            j <= n,
            row.len() == j,
            forall|k: int| 0 <= k < j ==> #[trigger] row@[k] == k,
        decreases n - j,
    {
        row.push(j);
        j += 1;
    }
    row.push(n);
    let mut i: usize = 0;
    while i < a.len()
        invariant
            n == b.len(),
            i <= a.len(),
            row.len() == n + 1,
            forall|k: int|
                0 <= k <= n ==> #[trigger] row@[k] == edit_distance(
                    a@.take(i as int),
                    b@.take(k),
                ),
        decreases a.len() - i,
    {
        let mut diagonal: usize = row[0];
        row.set(0, i + 1);
        let ghost above = a@.take(i as int);
        let ghost here = a@.take(i + 1);
        let mut j: usize = 0;
        while j < n
            invariant
                n == b.len(),
                i < a.len(),
                j <= n,
                row.len() == n + 1,
                above == a@.take(i as int),
                here == a@.take(i + 1),
                here.drop_last() == above,
                here.last() == a@[i as int],
                diagonal == edit_distance(above, b@.take(j as int)),
                forall|k: int|
                    0 <= k <= j ==> #[trigger] row@[k] == edit_distance(here, b@.take(k)),
                forall|k: int|
                    j < k <= n ==> #[trigger] row@[k] == edit_distance(above, b@.take(k)),
            decreases n - j,
        {
            proof {
                law_edit_distance_bounds(above, b@.take(j as int));
                assert(b@.take(j + 1).drop_last() =~= b@.take(j as int));
            }
            let substitution: usize = if a[i] == b[j] {
                diagonal
            } else {
                diagonal + 1
            };
            let up: usize = row[j + 1];
            let mut best: usize = substitution;
            if row[j] < best {
                best = row[j] + 1;
            }
            if up < best {
                best = up + 1;
            }
            diagonal = up;
            row.set(j + 1, best);
            j += 1;
        }
        i += 1;
    }
    assert(a@.take(i as int) =~= a@);
    assert(b@.take(n as int) =~= b@);
    row[n]
}

/// The name is one of the candidates.
pub open spec fn among(candidates: Seq<String>, name: Seq<char>) -> bool {
    exists|i: int| 0 <= i < candidates.len() && (#[trigger] candidates[i])@ == name
}

/// `a` is a better guess than `b`: it is closer, or as close and before it in
/// order.
pub open spec fn better_guess(key: Seq<char>, a: Seq<char>, b: Seq<char>) -> bool {
    edit_distance(key, a) < edit_distance(key, b) || (edit_distance(key, a) == edit_distance(
        key,
        b,
    ) && text_before(a, b))
}

/// The candidate is close enough to the key to be what was meant: one edit, and
/// one more for every four bytes of the key.
pub open spec fn close_enough(key: Seq<char>, candidate: Seq<char>) -> bool {
    edit_distance(key, candidate) <= 1 + vstd::utf8::encode_utf8(key).len() / 4
}

/// The candidate that is closest to the key, if one is close enough: of those
/// that are as close, the first in order.
pub fn closest_variable<'a>(key: &str, candidates: &'a Vec<String>) -> (best: Option<&'a String>)
    ensures
        match best {
            Some(c) => {
                &&& among(candidates@, c@)
                &&& close_enough(key@, c@)
                &&& forall|i: int|
                    0 <= i < candidates.len() && close_enough(
                        key@,
                        (#[trigger] candidates@[i])@,
                    ) ==> candidates@[i]@ == c@ || better_guess(key@, c@, candidates@[i]@)
            },
            None => forall|i: int|
                0 <= i < candidates.len() ==> !close_enough(key@, (#[trigger] candidates@[i])@),
        },
{
    let bytes = key.as_bytes();
    let max_distance: usize = 1 + bytes.len() / 4;
    let mut best: Option<(usize, &'a String)> = None;
    let mut i: usize = 0;
    while i < candidates.len()
        invariant
            i <= candidates.len(),
            max_distance == 1 + vstd::utf8::encode_utf8(key@).len() / 4,
            match best {
                Some((distance, c)) => {
                    &&& distance == edit_distance(key@, c@)
                    &&& among(candidates@, c@)
                    &&& close_enough(key@, c@)
                    &&& forall|j: int|
                        0 <= j < i && close_enough(key@, (#[trigger] candidates@[j])@)
                            ==> candidates@[j]@ == c@ || better_guess(
                            key@,
                            c@,
                            candidates@[j]@,
                        )
                },
                None => forall|j: int|
                    0 <= j < i ==> !close_enough(key@, (#[trigger] candidates@[j])@),
            },
        decreases candidates.len() - i,
    {
        let candidate = &candidates[i];
        let distance: usize = levenshtein(key, candidate.as_str());
        if distance <= max_distance {
            let better: bool = match best {
                Some((d, c)) => {
                    proof {
                        law_text_order(candidate@, c@);
                    }
                    distance < d || (distance == d && is_before(candidate.as_str(), c.as_str()))
                },
                None => true,
            };
            if better {
                proof {
                    if let Some((d, c)) = best {
                        assert forall|j: int|
                            0 <= j < i && close_enough(
                                key@,
                                (#[trigger] candidates@[j])@,
                            ) implies candidates@[j]@ == candidate@ || better_guess(
                            key@,
                            candidate@,
                            candidates@[j]@,
                        ) by {
                            let x = candidates@[j]@;
                            if x != c@ && text_before(candidate@, c@) && text_before(c@, x) {
                                law_text_order_is_transitive(candidate@, c@, x);
                            }
                        }
                    }
                }
                best = Some((distance, candidate));
            }
        }
        i += 1;
    }
    match best {
        Some((_, c)) => Some(c),
        None => None,
    }
}

} // verus!
