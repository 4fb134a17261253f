//! Line-anchored marker counting in emitted code. A marker occurrence
//! is an occurrence at the start of a line (position zero, or right
//! after a newline). The lemmas here let such counts be computed piece
//! by piece over concatenations of newline-terminated chunks.

use vstd::prelude::*;

verus! {

/// The text holds no newline at all.
pub open spec fn no_newline(s: Seq<char>) -> bool {
    forall|j: int| 0 <= j < s.len() ==> s[j] != '\n'
}

/// Empty, or ends with a newline.
pub open spec fn nl_terminated(s: Seq<char>) -> bool {
    s.len() == 0 || s.last() == '\n'
}

/// Exactly one newline-terminated line.
pub open spec fn one_line(s: Seq<char>) -> bool {
    s.len() > 0 && s.last() == '\n' && (forall|j: int| 0 <= j < s.len() - 1 ==> s[j] != '\n')
}

/// The marker `m` occurs at position `q` of `s`.
pub open spec fn begins_with(s: Seq<char>, q: int, m: Seq<char>) -> bool {
    0 <= q && q + m.len() <= s.len() && s.subrange(q, q + m.len()) == m
}

/// The marker occurs at `q` and `q` starts a line.
pub open spec fn mark_at(s: Seq<char>, m: Seq<char>, q: int) -> bool {
    (q == 0 || s[q - 1] == '\n') && begins_with(s, q, m)
}

/// A usable marker: nonempty, with a newline at most as its last
/// character.
pub open spec fn marker_ok(m: Seq<char>) -> bool {
    m.len() > 0 && (forall|j: int| 0 <= j < m.len() - 1 ==> m[j] != '\n')
}

/// Number of line-anchored occurrences of `m` in `s` at positions `q`
/// and beyond.
pub open spec fn mark_count_from(s: Seq<char>, m: Seq<char>, q: int) -> nat
    decreases s.len() - q,
{
    if q >= s.len() || q < 0 {
        0
    } else {
        (if mark_at(s, m, q) {
            1nat
        } else {
            0nat
        }) + mark_count_from(s, m, q + 1)
    }
}

/// Number of line-anchored occurrences of `m` in `s`.
pub open spec fn mark_count(s: Seq<char>, m: Seq<char>) -> nat {
    mark_count_from(s, m, 0)
}

/// A text without occurrences has count zero.
pub proof fn lemma_no_marks_count_zero(s: Seq<char>, m: Seq<char>, q0: int)
    requires
        forall|q: int| q0 <= q ==> !mark_at(s, m, q),
    ensures
        mark_count_from(s, m, q0) == 0,
    decreases s.len() - q0,
{
    if 0 <= q0 && q0 < s.len() {
        lemma_no_marks_count_zero(s, m, q0 + 1);
    }
}

/// Within an `End`-of-`a` suffix of `a + b`, occurrences are exactly
/// `b`'s occurrences, provided `a` is newline-terminated.
pub proof fn lemma_count_shift(a: Seq<char>, b: Seq<char>, m: Seq<char>, p: int)
    requires
        nl_terminated(a),
        marker_ok(m),
        0 <= p,
    ensures
        mark_count_from(a + b, m, a.len() + p) == mark_count_from(b, m, p),
    decreases b.len() - p,
{
    if p >= b.len() {
        assert(a.len() + p >= (a + b).len());
    } else {
        let q = a.len() + p;
        if begins_with(a + b, q, m) {
            assert((a + b).subrange(q, q + m.len()) =~= b.subrange(p, p + m.len()));
        }
        if begins_with(b, p, m) {
            assert((a + b).subrange(q, q + m.len()) =~= b.subrange(p, p + m.len()));
        }
        if p == 0 {
            if a.len() > 0 {
                assert((a + b)[a.len() - 1] == a.last());
            }
        } else {
            assert((a + b)[q - 1] == b[p - 1]);
        }
        assert(mark_at(a + b, m, q) == mark_at(b, m, p));
        lemma_count_shift(a, b, m, p + 1);
    }
}

/// No marker occurrence crosses the boundary of a newline-terminated
/// prefix: the prefix's final newline would have to sit inside the
/// marker.
pub proof fn lemma_no_cross(a: Seq<char>, b: Seq<char>, m: Seq<char>, q: int)
    requires
        nl_terminated(a),
        marker_ok(m),
        0 <= q < a.len(),
        a.len() < q + m.len(),
    ensures
        !begins_with(a + b, q, m),
{
    if begins_with(a + b, q, m) {
        let j = a.len() - 1 - q;
        assert(m[j] == (a + b).subrange(q, q + m.len())[j]);
        assert((a + b)[a.len() - 1] == a.last());
        assert(m[j] == '\n');
        assert(j < m.len() - 1);
    }
}

/// Counting distributes over concatenation at a newline-terminated
/// boundary.
pub proof fn lemma_count_concat_from(a: Seq<char>, b: Seq<char>, m: Seq<char>, q: int)
    requires
        nl_terminated(a),
        marker_ok(m),
        0 <= q <= a.len(),
    ensures
        mark_count_from(a + b, m, q) == mark_count_from(a, m, q) + mark_count_from(b, m, 0),
    decreases a.len() - q,
{
    if q == a.len() {
        lemma_count_shift(a, b, m, 0);
    } else {
        if q + m.len() <= a.len() {
            if begins_with(a + b, q, m) {
                assert((a + b).subrange(q, q + m.len()) =~= a.subrange(q, q + m.len()));
            }
            if begins_with(a, q, m) {
                assert((a + b).subrange(q, q + m.len()) =~= a.subrange(q, q + m.len()));
            }
        } else {
            lemma_no_cross(a, b, m, q);
        }
        if q > 0 {
            assert((a + b)[q - 1] == a[q - 1]);
        }
        assert(mark_at(a + b, m, q) == mark_at(a, m, q));
        lemma_count_concat_from(a, b, m, q + 1);
    }
}

/// Counting over a concatenation: the sum of the pieces' counts.
pub proof fn lemma_count_concat(a: Seq<char>, b: Seq<char>, m: Seq<char>)
    requires
        nl_terminated(a),
        marker_ok(m),
    ensures
        mark_count(a + b, m) == mark_count(a, m) + mark_count(b, m),
{
    lemma_count_concat_from(a, b, m, 0);
}

/// A single line holds at most the occurrence at its start.
pub proof fn lemma_count_one_line(line: Seq<char>, m: Seq<char>)
    requires
        one_line(line),
        marker_ok(m),
    ensures
        mark_count(line, m) == (if begins_with(line, 0, m) {
            1nat
        } else {
            0nat
        }),
{
    assert forall|q: int| 1 <= q implies !mark_at(line, m, q) by {
        if mark_at(line, m, q) {
            assert(line[q - 1] == '\n');
            assert(q - 1 == line.len() - 1);
            assert(q + m.len() > line.len());
        }
    }
    lemma_no_marks_count_zero(line, m, 1);
    assert(mark_count_from(line, m, 0) == (if mark_at(line, m, 0) {
        1nat
    } else {
        0nat
    }) + mark_count_from(line, m, 1));
}

} // verus!
