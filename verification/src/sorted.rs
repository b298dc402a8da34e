//! Strictly ordered sequences of device IDs under a strict total order.

use vstd::prelude::*;

use crate::text::{lemma_lex_irreflexive, lemma_lex_total, lemma_lex_transitive, lex_lt};

verus! {

/// A device ID, as the characters it is made of.
pub type DeviceId = Seq<char>;

/// `lt` is a strict total order on device IDs.
pub open spec fn is_strict_total_order(lt: spec_fn(DeviceId, DeviceId) -> bool) -> bool {
    &&& forall|a: DeviceId| !#[trigger] lt(a, a)
    &&& forall|a: DeviceId, b: DeviceId, c: DeviceId|
        #[trigger] lt(a, b) && #[trigger] lt(b, c) ==> lt(a, c)
    &&& forall|a: DeviceId, b: DeviceId| a != b ==> #[trigger] lt(a, b) || #[trigger] lt(b, a)
}

/// Every element of `s` comes before every later one under `lt`.
pub open spec fn strictly_sorted_by(
    s: Seq<DeviceId>,
    lt: spec_fn(DeviceId, DeviceId) -> bool,
) -> bool {
    forall|i: int, j: int| 0 <= i < j < s.len() ==> lt(#[trigger] s[i], #[trigger] s[j])
}

/// The lexicographic order of `String`, as a function value.
pub open spec fn lex_order() -> spec_fn(DeviceId, DeviceId) -> bool {
    |a: DeviceId, b: DeviceId| lex_lt(a, b)
}

/// `lex_lt` is a strict total order.
pub proof fn lemma_lex_order_strict_total()
    ensures
        is_strict_total_order(lex_order()),
{
    assert forall|a: DeviceId| !#[trigger] lex_order()(a, a) by {
        lemma_lex_irreflexive(a);
    }
    assert forall|a: DeviceId, b: DeviceId, c: DeviceId|
        #[trigger] lex_order()(a, b) && #[trigger] lex_order()(b, c) implies lex_order()(a, c) by {
        lemma_lex_transitive(a, b, c);
    }
    assert forall|a: DeviceId, b: DeviceId| a != b implies #[trigger] lex_order()(a, b)
        || #[trigger] lex_order()(b, a) by {
        lemma_lex_total(a, b);
    }
}

/// A strictly sorted sequence holds no element twice.
pub proof fn lemma_strictly_sorted_no_duplicates(
    s: Seq<DeviceId>,
    lt: spec_fn(DeviceId, DeviceId) -> bool,
)
    requires
        is_strict_total_order(lt),
        strictly_sorted_by(s, lt),
    ensures
        s.no_duplicates(),
{
    assert forall|i: int, j: int| 0 <= i < s.len() && 0 <= j < s.len() && i != j implies s[i]
        != s[j] by {
        if i < j {
            assert(lt(s[i], s[j]));
        } else {
            assert(lt(s[j], s[i]));
        }
    }
}

/// Two sequences strictly sorted by the same strict total order that hold the
/// same elements are equal.
pub proof fn lemma_strictly_sorted_unique(
    s1: Seq<DeviceId>,
    s2: Seq<DeviceId>,
    lt: spec_fn(DeviceId, DeviceId) -> bool,
)
    requires
        is_strict_total_order(lt),
        strictly_sorted_by(s1, lt),
        strictly_sorted_by(s2, lt),
        s1.to_set() == s2.to_set(),
    ensures
        s1 == s2,
    decreases s1.len(),
{
    if s1.len() == 0 {
        if s2.len() > 0 {
            assert(s2.to_set().contains(s2[0]));
        }
        assert(s1 =~= s2);
    } else {
        assert(s1.to_set().contains(s1[0]));
        assert(s2.len() > 0);
        assert(s2.to_set().contains(s2[0]));
        let i = choose|i: int| 0 <= i < s1.len() && s1[i] == s2[0];
        let j = choose|j: int| 0 <= j < s2.len() && s2[j] == s1[0];
        if s1[0] != s2[0] {
            assert(i > 0 && j > 0);
            assert(lt(s1[0], s1[i]));
            assert(lt(s2[0], s2[j]));
            assert(lt(s1[0], s1[0]));
        }
        let t1 = s1.drop_first();
        let t2 = s2.drop_first();
        assert(strictly_sorted_by(t1, lt)) by {
            assert forall|a: int, b: int| 0 <= a < b < t1.len() implies lt(
                #[trigger] t1[a],
                #[trigger] t1[b],
            ) by {
                assert(t1[a] == s1[a + 1] && t1[b] == s1[b + 1]);
            }
        }
        assert(strictly_sorted_by(t2, lt)) by {
            assert forall|a: int, b: int| 0 <= a < b < t2.len() implies lt(
                #[trigger] t2[a],
                #[trigger] t2[b],
            ) by {
                assert(t2[a] == s2[a + 1] && t2[b] == s2[b + 1]);
            }
        }
        assert(t1.to_set() =~= t2.to_set()) by {
            assert forall|x: DeviceId| t1.to_set().contains(x) implies t2.to_set().contains(x) by {
                let a = choose|a: int| 0 <= a < t1.len() && t1[a] == x;
                assert(s1[a + 1] == x);
                assert(lt(s1[0], x));
                assert(s2.to_set().contains(x));
                let b = choose|b: int| 0 <= b < s2.len() && s2[b] == x;
                if b == 0 {
                    assert(lt(x, x));
                }
                assert(t2[b - 1] == x);
            }
            assert forall|x: DeviceId| t2.to_set().contains(x) implies t1.to_set().contains(x) by {
                let a = choose|a: int| 0 <= a < t2.len() && t2[a] == x;
                assert(s2[a + 1] == x);
                assert(lt(s2[0], x));
                assert(s1.to_set().contains(x));
                let b = choose|b: int| 0 <= b < s1.len() && s1[b] == x;
                if b == 0 {
                    assert(lt(x, x));
                }
                assert(t1[b - 1] == x);
            }
        }
        lemma_strictly_sorted_unique(t1, t2, lt);
        assert(s1 =~= s2) by {
            assert forall|k: int| 0 <= k < s1.len() implies s1[k] == s2[k] by {
                if k > 0 {
                    assert(s1[k] == t1[k - 1]);
                    assert(s2[k] == t2[k - 1]);
                }
            }
        }
    }
}

/// Inserting `x` where it belongs keeps a sequence strictly sorted and adds
/// `x` to its elements.
pub proof fn lemma_insert_strictly_sorted(
    s: Seq<DeviceId>,
    p: int,
    x: DeviceId,
    lt: spec_fn(DeviceId, DeviceId) -> bool,
)
    requires
        is_strict_total_order(lt),
        strictly_sorted_by(s, lt),
        0 <= p <= s.len(),
        forall|t: int| 0 <= t < p ==> lt(#[trigger] s[t], x),
        p < s.len() ==> lt(x, s[p]),
    ensures
        strictly_sorted_by(s.insert(p, x), lt),
        s.insert(p, x).to_set() == s.to_set().insert(x),
{
    let r = s.insert(p, x);
    assert forall|a: int, b: int| 0 <= a < b < r.len() implies lt(
        #[trigger] r[a],
        #[trigger] r[b],
    ) by {
        if b < p {
            assert(r[a] == s[a] && r[b] == s[b]);
        } else if b == p {
            assert(r[a] == s[a]);
        } else if a < p {
            assert(r[a] == s[a] && r[b] == s[b - 1]);
            assert(lt(s[a], x));
            assert(lt(x, s[p]));
            if b - 1 > p {
                assert(lt(s[p], s[b - 1]));
                assert(lt(x, s[b - 1]));
            }
        } else if a == p {
            assert(r[b] == s[b - 1]);
            if b - 1 > p {
                assert(lt(s[p], s[b - 1]));
            }
        } else {
            assert(r[a] == s[a - 1] && r[b] == s[b - 1]);
        }
    }
    assert(r.to_set() =~= s.to_set().insert(x)) by {
        assert forall|y: DeviceId| r.to_set().contains(y) implies s.to_set().insert(x).contains(y) by {
            let k = choose|k: int| 0 <= k < r.len() && r[k] == y;
            if k < p {
                assert(s[k] == y);
            } else if k > p {
                assert(s[k - 1] == y);
            }
        }
        assert forall|y: DeviceId| s.to_set().insert(x).contains(y) implies r.to_set().contains(y) by {
            if y == x {
                assert(r[p] == x);
            } else {
                let k = choose|k: int| 0 <= k < s.len() && s[k] == y;
                if k < p {
                    assert(r[k] == y);
                } else {
                    assert(r[k + 1] == y);
                }
            }
        }
    }
}

/// Where `x` belongs in the strictly sorted `f`, which does not hold it.
proof fn lemma_insertion_point(
    f: Seq<DeviceId>,
    x: DeviceId,
    lt: spec_fn(DeviceId, DeviceId) -> bool,
) -> (p: int)
    requires
        is_strict_total_order(lt),
        strictly_sorted_by(f, lt),
        !f.contains(x),
    ensures
        0 <= p <= f.len(),
        forall|t: int| 0 <= t < p ==> lt(#[trigger] f[t], x),
        p < f.len() ==> lt(x, f[p]),
    decreases f.len(),
{
    if f.len() == 0 {
        0
    } else if lt(f.last(), x) {
        assert forall|t: int| 0 <= t < f.len() implies lt(#[trigger] f[t], x) by {
            if t < f.len() - 1 {
                assert(lt(f[t], f[f.len() - 1]));
            }
        }
        f.len() as int
    } else {
        let init = f.drop_last();
        assert(strictly_sorted_by(init, lt)) by {
            assert forall|a: int, b: int| 0 <= a < b < init.len() implies lt(
                #[trigger] init[a],
                #[trigger] init[b],
            ) by {
                assert(init[a] == f[a] && init[b] == f[b]);
            }
        }
        assert(!init.contains(x)) by {
            if init.contains(x) {
                let t = choose|t: int| 0 <= t < init.len() && init[t] == x;
                assert(f[t] == x);
            }
        }
        let p = lemma_insertion_point(init, x, lt);
        assert forall|t: int| 0 <= t < p implies lt(#[trigger] f[t], x) by {
            assert(f[t] == init[t]);
        }
        if p < f.len() - 1 {
            assert(f[p] == init[p]);
        } else {
            assert(f[f.len() - 1] != x);
        }
        p
    }
}

/// Every sequence has a strictly sorted enumeration of its elements.
pub proof fn lemma_sorted_enumeration_exists(
    s: Seq<DeviceId>,
    lt: spec_fn(DeviceId, DeviceId) -> bool,
)
    requires
        is_strict_total_order(lt),
    ensures
        exists|f: Seq<DeviceId>| strictly_sorted_by(f, lt) && f.to_set() == s.to_set(),
    decreases s.len(),
{
    if s.len() == 0 {
        let f = Seq::<DeviceId>::empty();
        assert(f.to_set() =~= s.to_set());
        assert(strictly_sorted_by(f, lt));
    } else {
        let init = s.drop_last();
        let x = s.last();
        lemma_sorted_enumeration_exists(init, lt);
        let f = choose|f: Seq<DeviceId>| strictly_sorted_by(f, lt) && f.to_set() == init.to_set();
        assert(s =~= init.push(x));
        init.lemma_push_to_set_commute(x);
        if f.contains(x) {
            assert(f.to_set().contains(x));
            assert(f.to_set() =~= s.to_set());
        } else {
            let p = lemma_insertion_point(f, x, lt);
            lemma_insert_strictly_sorted(f, p, x, lt);
            let g = f.insert(p, x);
            assert(strictly_sorted_by(g, lt) && g.to_set() == s.to_set());
        }
    }
}

} // verus!
