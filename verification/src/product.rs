use vstd::prelude::*;

verus! {

/// Every way to extend `prefix` by one index below each size, in lexicographic order.
pub open spec fn extensions(prefix: Seq<usize>, sizes: Seq<usize>) -> Seq<Seq<usize>>
    decreases sizes.len(), 1nat, 0nat,
{
    if sizes.len() == 0 {
        seq![prefix]
    } else {
        extensions_below(prefix, sizes, sizes[0] as nat)
    }
}

/// The extensions of `prefix` whose next index is below `n`, in lexicographic order.
pub open spec fn extensions_below(prefix: Seq<usize>, sizes: Seq<usize>, n: nat) -> Seq<Seq<usize>>
    decreases sizes.len(), 0nat, n,
{
    if sizes.len() == 0 || n == 0 {
        Seq::empty()
    } else {
        extensions_below(prefix, sizes, (n - 1) as nat) + extensions(prefix.push((n - 1) as usize), sizes.drop_first())
    }
}

/// All choices of one index per size, in lexicographic order: the first size
/// varies slowest, the last fastest. No sizes give the single empty choice.
pub open spec fn product(sizes: Seq<usize>) -> Seq<Seq<usize>> {
    extensions(Seq::empty(), sizes)
}

/// `c` picks one index below each size.
pub open spec fn choice_ok(sizes: Seq<usize>, c: Seq<usize>) -> bool {
    &&& c.len() == sizes.len()
    &&& forall|k: int| 0 <= k < c.len() ==> c[k] < sizes[k]
}

/// The product of the sizes.
pub open spec fn size_product(sizes: Seq<usize>) -> nat
    decreases sizes.len(),
{
    if sizes.len() == 0 {
        1
    } else {
        sizes[0] as nat * size_product(sizes.drop_first())
    }
}

pub open spec fn no_duplicates<T>(s: Seq<T>) -> bool {
    forall|i: int, j: int| 0 <= i < j < s.len() ==> s[i] != s[j]
}

/// `c` extends `prefix` by a choice of one index below each size.
pub open spec fn is_extension(prefix: Seq<usize>, sizes: Seq<usize>, c: Seq<usize>) -> bool {
    &&& c.len() == prefix.len() + sizes.len()
    &&& c.take(prefix.len() as int) == prefix
    &&& choice_ok(sizes, c.skip(prefix.len() as int))
}

pub proof fn lemma_extensions(prefix: Seq<usize>, sizes: Seq<usize>)
    ensures
        forall|c: Seq<usize>| #[trigger] extensions(prefix, sizes).contains(c) <==> is_extension(prefix, sizes, c),
        no_duplicates(extensions(prefix, sizes)),
        extensions(prefix, sizes).len() == size_product(sizes),
    decreases sizes.len(), 1nat, 0nat,
{
    if sizes.len() == 0 {
        assert forall|c: Seq<usize>| #[trigger] extensions(prefix, sizes).contains(c) <==> is_extension(prefix, sizes, c) by {
            if is_extension(prefix, sizes, c) {
                assert(c =~= prefix);
                assert(extensions(prefix, sizes)[0] == c);
            }
            if extensions(prefix, sizes).contains(c) {
                assert(c == prefix);
                assert(c.take(prefix.len() as int) =~= prefix);
            }
        }
    } else {
        lemma_extensions_below(prefix, sizes, sizes[0] as nat);
        assert forall|c: Seq<usize>| #[trigger] extensions(prefix, sizes).contains(c) <==> is_extension(prefix, sizes, c) by {
            let p = prefix.len() as int;
            if is_extension(prefix, sizes, c) {
                assert(c.skip(p)[0] == c[p]);
                assert forall|k: int| 0 <= k < c.skip(p + 1).len() implies c.skip(p + 1)[k] < sizes.drop_first()[k] by {
                    assert(c.skip(p + 1)[k] == c.skip(p)[k + 1]);
                }
            }
            if extensions(prefix, sizes).contains(c) {
                assert forall|k: int| 0 <= k < c.skip(p).len() implies c.skip(p)[k] < sizes[k] by {
                    if k > 0 {
                        assert(c.skip(p)[k] == c.skip(p + 1)[k - 1]);
                    } else {
                        assert(c.skip(p)[0] == c[p]);
                    }
                }
            }
        }
    }
}

pub proof fn lemma_extensions_below(prefix: Seq<usize>, sizes: Seq<usize>, n: nat)
    requires
        sizes.len() > 0,
        n <= sizes[0],
    ensures
        forall|c: Seq<usize>| #[trigger] extensions_below(prefix, sizes, n).contains(c) <==> {
            &&& c.len() == prefix.len() + sizes.len()
            &&& c.take(prefix.len() as int) == prefix
            &&& c[prefix.len() as int] < n
            &&& choice_ok(sizes.drop_first(), c.skip(prefix.len() as int + 1))
        },
        no_duplicates(extensions_below(prefix, sizes, n)),
        extensions_below(prefix, sizes, n).len() == n * size_product(sizes.drop_first()),
    decreases sizes.len(), 0nat, n,
{
    let p = prefix.len() as int;
    let rest = sizes.drop_first();
    if n == 0 {
        assert(extensions_below(prefix, sizes, n) =~= Seq::<Seq<usize>>::empty());
    } else {
        let m = (n - 1) as nat;
        let q = prefix.push(m as usize);
        lemma_extensions_below(prefix, sizes, m);
        lemma_extensions(q, rest);
        let a = extensions_below(prefix, sizes, m);
        let b = extensions(q, rest);
        assert(extensions_below(prefix, sizes, n) == a + b);
        assert forall|c: Seq<usize>| #[trigger] (a + b).contains(c) <==> {
            &&& c.len() == prefix.len() + sizes.len()
            &&& c.take(p) == prefix
            &&& c[p] < n
            &&& choice_ok(rest, c.skip(p + 1))
        } by {
            if (a + b).contains(c) {
                let i = choose|i: int| 0 <= i < (a + b).len() && (a + b)[i] == c;
                if i < a.len() {
                    assert(a[i] == c);
                    assert(a.contains(c));
                } else {
                    assert(b[i - a.len()] == c);
                    assert(b.contains(c));
                    assert(c.take(p + 1) == q);
                    assert(c.take(p) =~= c.take(p + 1).take(p));
                    assert(c.take(p) =~= prefix);
                    assert(c[p] == c.take(p + 1)[p]);
                    assert(c.skip(p + 1) =~= c.skip(q.len() as int));
                }
            }
            if c.len() == prefix.len() + sizes.len() && c.take(p) == prefix && c[p] < n && choice_ok(rest, c.skip(p + 1)) {
                if c[p] < m {
                    assert(a.contains(c));
                    let i = choose|i: int| 0 <= i < a.len() && a[i] == c;
                    assert((a + b)[i] == c);
                } else {
                    assert(c.take(p + 1) =~= q);
                    assert(c.skip(p + 1) =~= c.skip(q.len() as int));
                    assert(is_extension(q, rest, c));
                    assert(b.contains(c));
                    let i = choose|i: int| 0 <= i < b.len() && b[i] == c;
                    assert((a + b)[i + a.len()] == c);
                }
            }
        }
        assert forall|i: int, j: int| 0 <= i < j < (a + b).len() implies (a + b)[i] != (a + b)[j] by {
            if j < a.len() {
                assert((a + b)[i] == a[i]);
                assert((a + b)[j] == a[j]);
            } else if i < a.len() && j >= a.len() {
                assert((a + b)[i] == a[i]);
                assert((a + b)[j] == b[j - a.len()]);
                let x = a[i];
                let y = b[j - a.len()];
                assert(a.contains(x));
                assert(b.contains(y));
                assert(y.take(p + 1) == q);
                assert(y[p] == y.take(p + 1)[p]);
                assert(x[p] < m);
            } else if i >= a.len() {
                assert((a + b)[i] == b[i - a.len()]);
                assert((a + b)[j] == b[j - a.len()]);
            }
        }
        assert(n * size_product(rest) == m * size_product(rest) + size_product(rest)) by (nonlinear_arith)
            requires
                n == m + 1,
        ;
    }
}

pub proof fn lemma_product(sizes: Seq<usize>)
    ensures
        forall|c: Seq<usize>| #[trigger] product(sizes).contains(c) <==> choice_ok(sizes, c),
        no_duplicates(product(sizes)),
        product(sizes).len() == size_product(sizes),
{
    lemma_extensions(Seq::empty(), sizes);
    assert forall|c: Seq<usize>| #[trigger] product(sizes).contains(c) <==> choice_ok(sizes, c) by {
        assert(c.skip(0) =~= c);
        assert(c.take(0) =~= Seq::<usize>::empty());
    }
}

fn copy_choice(v: &Vec<usize>) -> (r: Vec<usize>)
    ensures
        r@ == v@,
{
    let mut r: Vec<usize> = Vec::new();
    let mut i: usize = 0;
    while i < v.len()
        invariant
            i <= v@.len(),
            r@ == v@.take(i as int),
        decreases v@.len() - i,
    {
        r.push(v[i]);
        i = i + 1;
        proof {
            assert(r@ =~= v@.take(i as int));
        }
    }
    proof {
        assert(v@.take(v@.len() as int) =~= v@);
    }
    r
}

pub open spec fn choices_view(out: Seq<Vec<usize>>) -> Seq<Seq<usize>> {
    out.map_values(|v: Vec<usize>| v@)
}

/// Appends to `out` every extension of `current` by the sizes from `idx` on.
fn extend(sizes: &Vec<usize>, idx: usize, current: &mut Vec<usize>, out: &mut Vec<Vec<usize>>)
    requires
        idx <= sizes@.len(),
    ensures
        final(current)@ == old(current)@,
        choices_view(final(out)@) == choices_view(old(out)@) + extensions(old(current)@, sizes@.skip(idx as int)),
    decreases sizes@.len() - idx,
{
    let ghost out0 = choices_view(out@);
    let ghost cur0 = current@;
    if idx == sizes.len() {
        out.push(copy_choice(current));
        proof {
            assert(sizes@.skip(idx as int) =~= Seq::<usize>::empty());
            assert(choices_view(out@) =~= out0 + seq![cur0]);
        }
        return;
    }
    let ghost rest = sizes@.skip(idx as int);
    proof {
        assert(rest.drop_first() =~= sizes@.skip(idx + 1));
        assert(rest[0] == sizes@[idx as int]);
    }
    let n = sizes[idx];
    let len = sizes.len();
    let mut v: usize = 0;
    while v < n
        invariant
            idx < sizes@.len(),
            len == sizes@.len(),
            n == sizes@[idx as int],
            v <= n,
            rest == sizes@.skip(idx as int),
            rest.drop_first() == sizes@.skip(idx + 1),
            current@ == cur0,
            choices_view(out@) == out0 + extensions_below(cur0, rest, v as nat),
        decreases n - v,
    {
        current.push(v);
        extend(sizes, idx + 1, current, out);
        current.pop();
        proof {
            assert(current@ =~= cur0);
            assert(choices_view(out@) =~= out0 + extensions_below(cur0, rest, (v + 1) as nat));
        }
        v = v + 1;
    }
}

/// Every combination of one variant per section, given the number of variants of
/// each section, as variant indices in section order; the first section varies
/// slowest. No sections give the single empty combination.
pub fn cartesian_product(sizes: &Vec<usize>) -> (r: Vec<Vec<usize>>)
    ensures
        choices_view(r@) == product(sizes@),
{
    let mut out: Vec<Vec<usize>> = Vec::new();
    let mut current: Vec<usize> = Vec::new();
    extend(sizes, 0, &mut current, &mut out);
    proof {
        assert(sizes@.skip(0) =~= sizes@);
        assert(choices_view(Seq::<Vec<usize>>::empty()) =~= Seq::<Seq<usize>>::empty());
        assert(current@ =~= Seq::<usize>::empty());
    }
    out
}

} // verus!
