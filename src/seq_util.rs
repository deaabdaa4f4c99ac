use vstd::prelude::*;

verus! {

/// The list with every occurrence of `x` taken out, order kept.
pub open spec fn without(s: Seq<u64>, x: u64) -> Seq<u64> {
    s.filter(differs_from(x))
}

/// The test "differs from `x`".
pub open spec fn differs_from(x: u64) -> spec_fn(u64) -> bool {
    |y: u64| y != x
}

pub proof fn lemma_push_contains(s: Seq<u64>, x: u64, y: u64)
    ensures
        s.push(x).contains(y) <==> (s.contains(y) || y == x),
{
    if s.contains(y) {
        let i = choose|i: int| 0 <= i < s.len() && s[i] == y;
        assert(s.push(x)[i] == y);
    }
    assert(s.push(x)[s.len() as int] == x);
}

pub proof fn lemma_push_no_duplicates(s: Seq<u64>, x: u64)
    requires
        s.no_duplicates(),
        !s.contains(x),
    ensures
        s.push(x).no_duplicates(),
{
    assert forall|i: int, j: int|
        0 <= i < s.push(x).len() && 0 <= j < s.push(x).len() && i != j implies s.push(x)[i]
        != s.push(x)[j] by {
        if i < s.len() && j < s.len() {
        } else if i < s.len() {
            assert(s.contains(s[i]));
        } else if j < s.len() {
            assert(s.contains(s[j]));
        }
    }
}

pub proof fn lemma_without_contains(s: Seq<u64>, x: u64, y: u64)
    ensures
        without(s, x).contains(y) <==> (s.contains(y) && y != x),
{
    let p = differs_from(x);
    if s.contains(y) && y != x {
        let i = choose|i: int| 0 <= i < s.len() && s[i] == y;
        s.lemma_filter_contains(p, i);
    }
    if s.filter(p).contains(y) {
        s.lemma_filter_contains_rev(p, y);
        let j = choose|j: int| 0 <= j < s.filter(p).len() && s.filter(p)[j] == y;
        s.lemma_filter_pred(p, j);
    }
}

pub proof fn lemma_without_no_duplicates(s: Seq<u64>, x: u64)
    requires
        s.no_duplicates(),
    ensures
        without(s, x).no_duplicates(),
    decreases s.len(),
{
    reveal_with_fuel(Seq::filter, 1);
    if s.len() > 0 {
        let sub = s.drop_last();
        assert(sub.no_duplicates()) by {
            assert forall|i: int, j: int|
                0 <= i < sub.len() && 0 <= j < sub.len() && i != j implies sub[i] != sub[j] by {
                assert(sub[i] == s[i] && sub[j] == s[j]);
            }
        }
        lemma_without_no_duplicates(sub, x);
        assert(without(s, x) == if s.last() != x {
            without(sub, x).push(s.last())
        } else {
            without(sub, x)
        });
        if s.last() != x {
            assert(!without(sub, x).contains(s.last())) by {
                lemma_without_contains(sub, x, s.last());
                if sub.contains(s.last()) {
                    let i = choose|i: int| 0 <= i < sub.len() && sub[i] == s.last();
                    assert(s[i] == s[s.len() - 1]);
                }
            }
            lemma_push_no_duplicates(without(sub, x), s.last());
        }
    }
}

/// Removes every occurrence of `x`, keeping the order of the rest.
pub fn remove_value(v: &mut Vec<u64>, x: u64)
    ensures
        final(v)@ == without(old(v)@, x),
{
    let mut out: Vec<u64> = Vec::new();
    let mut i: usize = 0;
    while i < v.len()
        invariant
            i <= v@.len(),
            out@ == without(v@.take(i as int), x),
        decreases v@.len() - i,
    {
        let y = v[i];
        proof {
            reveal_with_fuel(Seq::filter, 1);
            assert(v@.take(i as int + 1).drop_last() =~= v@.take(i as int));
            assert(v@.take(i as int + 1).last() == y);
        }
        if y != x {
            out.push(y);
        }
        i = i + 1;
    }
    assert(v@.take(v@.len() as int) =~= v@);
    *v = out;
}

} // verus!
