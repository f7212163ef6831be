//! Small sets of sequence numbers kept as duplicate-free vectors; the
//! contracts speak of membership alone, so iteration order is left open.

use vstd::prelude::*;

verus! {

/// Whether the numbers in `s` include `x`.
pub open spec fn contains_num(s: Seq<i64>, x: int) -> bool {
    exists|i: int| 0 <= i < s.len() && s[i] == x
}

/// Membership after a push grows by exactly the pushed number.
pub proof fn lemma_contains_push(s: Seq<i64>, v: i64, y: int)
    ensures
        contains_num(s.push(v), y) <==> (contains_num(s, y) || y == v),
{
    if contains_num(s, y) {
        let i = choose|i: int| 0 <= i < s.len() && s[i] == y;
        assert(s.push(v)[i] == y);
    }
    if y == v {
        assert(s.push(v)[s.len() as int] == y);
    }
    if contains_num(s.push(v), y) {
        let i = choose|i: int| 0 <= i < s.push(v).len() && s.push(v)[i] == y;
        if i < s.len() {
            assert(s[i] == y);
        }
    }
}

/// Membership in one more element of a prefix.
pub proof fn lemma_contains_take_step(s: Seq<i64>, i: int, y: int)
    requires
        0 <= i < s.len(),
    ensures
        contains_num(s.take(i + 1), y) <==> (contains_num(s.take(i), y) || s[i] == y),
{
    assert(s.take(i + 1) =~= s.take(i).push(s[i]));
    lemma_contains_push(s.take(i), s[i], y);
}

/// A full prefix is the sequence itself.
pub proof fn lemma_contains_take_all(s: Seq<i64>, y: int)
    ensures
        contains_num(s.take(s.len() as int), y) <==> contains_num(s, y),
{
    assert(s.take(s.len() as int) =~= s);
}

/// Pushing an absent element keeps a sequence duplicate-free.
pub proof fn lemma_push_no_dup(s: Seq<i64>, v: i64)
    requires
        s.no_duplicates(),
        !contains_num(s, v as int),
    ensures
        s.push(v).no_duplicates(),
{
    let t = s.push(v);
    assert forall|i: int, j: int|
        0 <= i < t.len() && 0 <= j < t.len() && i != j implies t[i] != t[j] by {
        if i < s.len() && j < s.len() {
        } else if i < s.len() {
            if t[i] == v {
                assert(s[i] == v);
                assert(contains_num(s, v as int));
            }
        } else if j < s.len() {
            if t[j] == v {
                assert(s[j] == v);
                assert(contains_num(s, v as int));
            }
        }
    }
}

/// An element of a duplicate-free sequence is absent from any part whose
/// members all come from the strict prefix before it.
proof fn lemma_prefix_part_fresh(orig: Seq<i64>, i: int, part: Seq<i64>)
    requires
        orig.no_duplicates(),
        0 <= i < orig.len(),
        forall|y: int| contains_num(part, y) ==> contains_num(orig.take(i), y),
    ensures
        !contains_num(part, orig[i] as int),
{
    if contains_num(part, orig[i] as int) {
        assert(contains_num(orig.take(i), orig[i] as int));
        let j = choose|j: int| 0 <= j < orig.take(i).len() && orig.take(i)[j] == orig[i];
        assert(orig[j] == orig[i]);
        assert(false);
    }
}

/// Whether the vector holds the number.
pub fn num_set_contains(v: &Vec<i64>, x: i64) -> (r: bool)
    ensures
        r == contains_num(v@, x as int),
{
    for i in 0..v.len()
        invariant
            forall|j: int| 0 <= j < i ==> v@[j] != x,
    {
        if v[i] == x {
            return true;
        }
    }
    false
}

/// Removes the number if present; everything else stays.
pub fn num_set_remove(v: &mut Vec<i64>, x: i64)
    requires
        old(v)@.no_duplicates(),
    ensures
        final(v)@.no_duplicates(),
        forall|y: int|
            #![trigger contains_num(final(v)@, y)]
            #![trigger contains_num(old(v)@, y)]
            contains_num(final(v)@, y) <==> (contains_num(old(v)@, y) && y != x),
        final(v)@.len() <= old(v)@.len(),
        contains_num(old(v)@, x as int) ==> final(v)@.len() < old(v)@.len(),
{
    let ghost orig = v@;
    let mut kept: Vec<i64> = Vec::new();
    for i in 0..v.len()
        invariant
            v@ == orig,
            orig.no_duplicates(),
            kept@.no_duplicates(),
            kept@.len() <= i,
            contains_num(orig.take(i as int), x as int) ==> kept@.len() < i,
            forall|y: int| #![auto]
                contains_num(kept@, y) <==> (contains_num(orig.take(i as int), y) && y != x),
    {
        let value = v[i];
        if value != x {
            proof {
                lemma_prefix_part_fresh(orig, i as int, kept@);
                lemma_push_no_dup(kept@, orig[i as int]);
                assert forall|y: int| #![auto]
                    contains_num(kept@.push(orig[i as int]), y) <==> (contains_num(
                        orig.take(i + 1),
                        y,
                    ) && y != x) by {
                    lemma_contains_push(kept@, orig[i as int], y);
                    lemma_contains_take_step(orig, i as int, y);
                }
            }
            kept.push(value);
        } else {
            proof {
                assert forall|y: int| #![auto]
                    contains_num(kept@, y) <==> (contains_num(orig.take(i + 1), y) && y
                        != x) by {
                    lemma_contains_take_step(orig, i as int, y);
                }
                assert(orig.take(i + 1)[i as int] == x);
                assert(contains_num(orig.take(i + 1), x as int));
            }
        }
        proof {
            lemma_contains_take_step(orig, i as int, x as int);
        }
    }
    proof {
        assert forall|y: int| #![auto]
            contains_num(kept@, y) <==> (contains_num(orig, y) && y != x) by {
            lemma_contains_take_all(orig, y);
        }
        assert(kept@.len() <= orig.len());
        lemma_contains_take_all(orig, x as int);
    }
    *v = kept;
}

/// Splits off the numbers under (or, with `inclusive`, also at) the bound;
/// the vector keeps the rest.
pub fn num_set_take_low(v: &mut Vec<i64>, bound: i64, inclusive: bool) -> (taken: Vec<i64>)
    requires
        old(v)@.no_duplicates(),
    ensures
        final(v)@.no_duplicates(),
        taken@.no_duplicates(),
        forall|y: int|
            #![trigger contains_num(final(v)@, y)]
            #![trigger contains_num(old(v)@, y)]
            contains_num(final(v)@, y) <==> (contains_num(old(v)@, y) && !(y < bound || (
            inclusive
                && y == bound
            ))),
        forall|y: int|
            #![trigger contains_num(taken@, y)]
            #![trigger contains_num(old(v)@, y)]
            contains_num(taken@, y) <==> (contains_num(old(v)@, y) && (y < bound || (inclusive
                && y == bound))),
{
    let ghost orig = v@;
    let mut kept: Vec<i64> = Vec::new();
    let mut taken: Vec<i64> = Vec::new();
    for i in 0..v.len()
        invariant
            v@ == orig,
            orig.no_duplicates(),
            kept@.no_duplicates(),
            taken@.no_duplicates(),
            forall|y: int| #![auto]
                contains_num(kept@, y) <==> (contains_num(orig.take(i as int), y) && !(y < bound
                    || (inclusive && y == bound))),
            forall|y: int| #![auto]
                contains_num(taken@, y) <==> (contains_num(orig.take(i as int), y) && (y < bound
                    || (inclusive && y == bound))),
    {
        let value = v[i];
        let low = value < bound || (inclusive && value == bound);
        if low {
            proof {
                lemma_prefix_part_fresh(orig, i as int, taken@);
                lemma_push_no_dup(taken@, orig[i as int]);
                assert forall|y: int| #![auto]
                    contains_num(taken@.push(orig[i as int]), y) <==> (contains_num(
                        orig.take(i + 1),
                        y,
                    ) && (y < bound || (inclusive && y == bound))) by {
                    lemma_contains_push(taken@, orig[i as int], y);
                    lemma_contains_take_step(orig, i as int, y);
                }
                assert forall|y: int| #![auto]
                    contains_num(kept@, y) <==> (contains_num(orig.take(i + 1), y) && !(y < bound
                        || (inclusive && y == bound))) by {
                    lemma_contains_take_step(orig, i as int, y);
                }
            }
            taken.push(value);
        } else {
            proof {
                lemma_prefix_part_fresh(orig, i as int, kept@);
                lemma_push_no_dup(kept@, orig[i as int]);
                assert forall|y: int| #![auto]
                    contains_num(kept@.push(orig[i as int]), y) <==> (contains_num(
                        orig.take(i + 1),
                        y,
                    ) && !(y < bound || (inclusive && y == bound))) by {
                    lemma_contains_push(kept@, orig[i as int], y);
                    lemma_contains_take_step(orig, i as int, y);
                }
                assert forall|y: int| #![auto]
                    contains_num(taken@, y) <==> (contains_num(orig.take(i + 1), y) && (y < bound
                        || (inclusive && y == bound))) by {
                    lemma_contains_take_step(orig, i as int, y);
                }
            }
            kept.push(value);
        }
    }
    proof {
        assert forall|y: int| #![auto]
            (contains_num(orig.take(orig.len() as int), y) <==> contains_num(orig, y)) by {
            lemma_contains_take_all(orig, y);
        }
    }
    *v = kept;
    taken
}

/// Appends numbers that are known to be absent from the target.
pub fn num_set_append(dst: &mut Vec<i64>, src: &Vec<i64>)
    requires
        old(dst)@.no_duplicates(),
        src@.no_duplicates(),
        forall|y: int| !(contains_num(old(dst)@, y) && contains_num(src@, y)),
    ensures
        final(dst)@.no_duplicates(),
        forall|y: int|
            #![trigger contains_num(final(dst)@, y)]
            #![trigger contains_num(old(dst)@, y)]
            #![trigger contains_num(src@, y)]
            contains_num(final(dst)@, y) <==> (contains_num(old(dst)@, y) || contains_num(
                src@,
                y,
            )),
{
    let ghost base = dst@;
    let ghost from = src@;
    for i in 0..src.len()
        invariant
            src@ == from,
            from.no_duplicates(),
            dst@.no_duplicates(),
            forall|y: int| !(contains_num(base, y) && contains_num(from, y)),
            forall|y: int| #![auto]
                contains_num(dst@, y) <==> (contains_num(base, y) || contains_num(
                    from.take(i as int),
                    y,
                )),
    {
        proof {
            if contains_num(dst@, from[i as int] as int) {
                assert(contains_num(from, from[i as int] as int));
                if contains_num(base, from[i as int] as int) {
                    assert(false);
                } else {
                    lemma_prefix_part_fresh(from, i as int, dst@);
                }
            }
            lemma_push_no_dup(dst@, from[i as int]);
            assert forall|y: int| #![auto]
                contains_num(dst@.push(from[i as int]), y) <==> (contains_num(base, y)
                    || contains_num(from.take(i + 1), y)) by {
                lemma_contains_push(dst@, from[i as int], y);
                lemma_contains_take_step(from, i as int, y);
                assert(contains_num(dst@, y) <==> (contains_num(base, y) || contains_num(
                    from.take(i as int),
                    y,
                )));
            }
        }
        let value = src[i];
        dst.push(value);
    }
    proof {
        assert forall|y: int| #![auto]
            (contains_num(from.take(from.len() as int), y) <==> contains_num(from, y)) by {
            lemma_contains_take_all(from, y);
        }
    }
}

/// Inserts the number unless it is already present.
pub fn num_set_insert(v: &mut Vec<i64>, x: i64)
    requires
        old(v)@.no_duplicates(),
    ensures
        final(v)@.no_duplicates(),
        forall|y: int|
            #![trigger contains_num(final(v)@, y)]
            #![trigger contains_num(old(v)@, y)]
            contains_num(final(v)@, y) <==> (contains_num(old(v)@, y) || y == x),
{
    let present = num_set_contains(v, x);
    if !present {
        proof {
            lemma_push_no_dup(v@, x);
            assert forall|y: int| #![auto]
                contains_num(v@.push(x), y) <==> (contains_num(v@, y) || y == x) by {
                lemma_contains_push(v@, x, y);
            }
        }
        v.push(x);
    }
}

/// The least number held, where any is held at all.
pub fn num_set_min(v: &Vec<i64>) -> (r: Option<i64>)
    ensures
        match r {
            Some(m) => contains_num(v@, m as int) && forall|y: int|
                contains_num(v@, y) ==> m <= y,
            None => v@.len() == 0,
        },
{
    if v.len() == 0 {
        return None;
    }
    let mut m = v[0];
    assert(contains_num(v@, m as int));
    for i in 1..v.len()
        invariant
            v@.len() > 0,
            contains_num(v@, m as int),
            forall|j: int| 0 <= j < i ==> m <= v@[j],
    {
        if v[i] < m {
            m = v[i];
        }
    }
    Some(m)
}

/// The numbers in `(lo, hi]`, ascending.
pub fn num_set_range(lo: i64, hi: i64) -> (r: Vec<i64>)
    ensures
        r@.no_duplicates(),
        forall|y: int| #![auto] contains_num(r@, y) <==> lo < y <= hi,
        r@.len() == if hi > lo {
            hi - lo
        } else {
            0
        },
{
    let mut r: Vec<i64> = Vec::new();
    let mut n = lo;
    while n < hi
        invariant
            lo <= n,
            n <= hi || n == lo,
            r@.no_duplicates(),
            r@.len() == n - lo,
            forall|y: int| #![auto] contains_num(r@, y) <==> lo < y <= n,
        decreases hi - n,
    {
        n = n + 1;
        proof {
            assert(!contains_num(r@, n as int));
            lemma_push_no_dup(r@, n);
            assert forall|y: int| #![auto]
                contains_num(r@.push(n), y) <==> lo < y <= n by {
                lemma_contains_push(r@, n, y);
            }
        }
        r.push(n);
    }
    r
}

/// A copy of the numbers, in the same order.
pub fn num_set_copy(v: &Vec<i64>) -> (r: Vec<i64>)
    ensures
        r@ == v@,
{
    let mut r: Vec<i64> = Vec::new();
    proof {
        assert(r@ =~= v@.take(0));
    }
    for i in 0..v.len()
        invariant
            r@ == v@.take(i as int),
    {
        proof {
            assert(v@.take(i + 1) =~= v@.take(i as int).push(v@[i as int]));
        }
        let value = v[i];
        r.push(value);
    }
    proof {
        assert(v@.take(v@.len() as int) =~= v@);
    }
    r
}

} // verus!
