use vstd::prelude::*;

verus! {

/// The character sequences of a list of strings.
pub open spec fn views_of(s: Seq<String>) -> Seq<Seq<char>> {
    s.map_values(|v: String| v@)
}

/// The decimal digit for `d < 10`.
pub open spec fn spec_digit(d: nat) -> char {
    if d == 0 { '0' }
    else if d == 1 { '1' }
    else if d == 2 { '2' }
    else if d == 3 { '3' }
    else if d == 4 { '4' }
    else if d == 5 { '5' }
    else if d == 6 { '6' }
    else if d == 7 { '7' }
    else if d == 8 { '8' }
    else { '9' }
}

/// The decimal notation of `n`, without leading zeros.
pub open spec fn spec_decimal(n: nat) -> Seq<char>
    decreases n,
{
    if n < 10 {
        seq![spec_digit(n)]
    } else {
        spec_decimal(n / 10).push(spec_digit(n % 10))
    }
}

fn digit_str(d: usize) -> (s: &'static str)
    requires
        d < 10,
    ensures
        s@ == seq![spec_digit(d as nat)],
{
    if d == 0 {
        proof { reveal_strlit("0"); }
        "0"
    } else if d == 1 {
        proof { reveal_strlit("1"); }
        "1"
    } else if d == 2 {
        proof { reveal_strlit("2"); }
        "2"
    } else if d == 3 {
        proof { reveal_strlit("3"); }
        "3"
    } else if d == 4 {
        proof { reveal_strlit("4"); }
        "4"
    } else if d == 5 {
        proof { reveal_strlit("5"); }
        "5"
    } else if d == 6 {
        proof { reveal_strlit("6"); }
        "6"
    } else if d == 7 {
        proof { reveal_strlit("7"); }
        "7"
    } else if d == 8 {
        proof { reveal_strlit("8"); }
        "8"
    } else {
        proof { reveal_strlit("9"); }
        "9"
    }
}

/// Writes `n` in decimal.
pub fn decimal(n: usize) -> (s: String)
    ensures
        s@ == spec_decimal(n as nat),
    decreases n,
{
    if n < 10 {
        String::from_str(digit_str(n))
    } else {
        let mut s = decimal(n / 10);
        s.append(digit_str(n % 10));
        s
    }
}

/// Lexicographic order of character sequences, by code point. Since UTF-8 keeps
/// the order of code points, this is the order of `String`s.
pub open spec fn seq_less(a: Seq<char>, b: Seq<char>) -> bool
    decreases a.len(),
{
    if a.len() == 0 {
        b.len() > 0
    } else if b.len() == 0 {
        false
    } else if (a[0] as int) < (b[0] as int) {
        true
    } else if a[0] == b[0] {
        seq_less(a.drop_first(), b.drop_first())
    } else {
        false
    }
}

pub proof fn lemma_seq_less_total(a: Seq<char>, b: Seq<char>)
    requires
        a != b,
    ensures
        seq_less(a, b) || seq_less(b, a),
    decreases a.len(),
{
    if a.len() > 0 && b.len() > 0 && a[0] == b[0] {
        if a.drop_first() == b.drop_first() {
            assert(a =~= seq![a[0]] + a.drop_first());
            assert(b =~= seq![b[0]] + b.drop_first());
        }
        lemma_seq_less_total(a.drop_first(), b.drop_first());
    } else if a.len() == 0 && b.len() == 0 {
        assert(a =~= b);
    } else if a.len() > 0 && b.len() > 0 {
        assert(a[0] as int != b[0] as int);
    }
}

pub proof fn lemma_seq_less_asymmetric(a: Seq<char>, b: Seq<char>)
    requires
        seq_less(a, b),
    ensures
        !seq_less(b, a),
    decreases a.len(),
{
    if a.len() > 0 && b.len() > 0 && a[0] == b[0] {
        lemma_seq_less_asymmetric(a.drop_first(), b.drop_first());
    }
}

pub proof fn lemma_seq_less_transitive(a: Seq<char>, b: Seq<char>, c: Seq<char>)
    requires
        seq_less(a, b),
        seq_less(b, c),
    ensures
        seq_less(a, c),
    decreases a.len(),
{
    if a.len() > 0 && b.len() > 0 && c.len() > 0 && a[0] == b[0] && b[0] == c[0] {
        lemma_seq_less_transitive(a.drop_first(), b.drop_first(), c.drop_first());
    }
}

/// Whether `a` comes before `b` as strings.
pub fn str_less(a: &String, b: &String) -> (r: bool)
    ensures
        r == seq_less(a@, b@),
{
    let sa = a.as_str();
    let sb = b.as_str();
    let la = sa.unicode_len();
    let lb = sb.unicode_len();
    let mut i: usize = 0;
    proof {
        assert(a@.skip(0) =~= a@);
        assert(b@.skip(0) =~= b@);
    }
    while i < la && i < lb
        invariant
            la == a@.len(),
            lb == b@.len(),
            sa@ == a@,
            sb@ == b@,
            i <= la,
            i <= lb,
            seq_less(a@, b@) == seq_less(a@.skip(i as int), b@.skip(i as int)),
        decreases la - i,
    {
        let ca = sa.get_char(i);
        let cb = sb.get_char(i);
        proof {
            assert(a@.skip(i as int)[0] == ca);
            assert(b@.skip(i as int)[0] == cb);
            assert(a@.skip(i as int).drop_first() =~= a@.skip(i + 1));
            assert(b@.skip(i as int).drop_first() =~= b@.skip(i + 1));
        }
        if ca < cb {
            return true;
        } else if ca != cb {
            return false;
        }
        i = i + 1;
    }
    i == la && i < lb
}

/// The names joined by `_`.
pub open spec fn spec_join(names: Seq<Seq<char>>) -> Seq<char>
    decreases names.len(),
{
    if names.len() == 0 {
        Seq::empty()
    } else if names.len() == 1 {
        names[0]
    } else {
        spec_join(names.drop_last()) + seq!['_'] + names.last()
    }
}

/// The name of a generated function: `__`, the template's name, `_` and the
/// chosen variants' names joined by `_`.
pub open spec fn spec_function_name(fn_name: Seq<char>, variants: Seq<Seq<char>>) -> Seq<char> {
    seq!['_', '_'] + fn_name + seq!['_'] + spec_join(variants)
}

/// Cutting two sequences at their last `_` gives equal parts when the sequences are equal.
proof fn lemma_split_at_last_separator(s1: Seq<char>, x: Seq<char>, s2: Seq<char>, y: Seq<char>)
    requires
        s1 + seq!['_'] + x == s2 + seq!['_'] + y,
        !x.contains('_'),
        !y.contains('_'),
    ensures
        x == y,
        s1 == s2,
{
    let u1 = s1 + seq!['_'];
    let u2 = s2 + seq!['_'];
    let a = u1 + x;
    let b = u2 + y;
    assert(a.len() == b.len());
    if x.len() < y.len() {
        let q = s1.len() as int;
        assert(q >= u2.len());
        assert(u1[q] == '_');
        assert(a[q] == '_');
        assert(b[q] == y[q - u2.len()]);
        assert(y.contains('_'));
    } else if y.len() < x.len() {
        let q = s2.len() as int;
        assert(q >= u1.len());
        assert(u2[q] == '_');
        assert(b[q] == '_');
        assert(a[q] == x[q - u1.len()]);
        assert(x.contains('_'));
    } else {
        assert forall|i: int| 0 <= i < x.len() implies x[i] == y[i] by {
            assert(a[s1.len() + 1 + i] == x[i]);
            assert(b[s2.len() + 1 + i] == y[i]);
        }
        assert(x =~= y);
        assert forall|i: int| 0 <= i < s1.len() implies s1[i] == s2[i] by {
            assert(a[i] == s1[i]);
            assert(b[i] == s2[i]);
        }
        assert(s1 =~= s2);
    }
}

/// Names without `_`, as many on each side, joined by `_` give the same text only
/// when they are the same names.
pub proof fn lemma_join_injective(a: Seq<Seq<char>>, b: Seq<Seq<char>>)
    requires
        a.len() == b.len(),
        forall|i: int| 0 <= i < a.len() ==> !(#[trigger] a[i]).contains('_'),
        forall|i: int| 0 <= i < b.len() ==> !(#[trigger] b[i]).contains('_'),
        spec_join(a) == spec_join(b),
    ensures
        a == b,
    decreases a.len(),
{
    if a.len() == 0 {
        assert(a =~= b);
    } else if a.len() == 1 {
        assert(a =~= b);
    } else {
        let a1 = a.drop_last();
        let b1 = b.drop_last();
        assert(!a[a.len() - 1].contains('_'));
        assert(!b[b.len() - 1].contains('_'));
        lemma_split_at_last_separator(spec_join(a1), a.last(), spec_join(b1), b.last());
        assert forall|i: int| 0 <= i < a1.len() implies !(#[trigger] a1[i]).contains('_') by {
            assert(a1[i] == a[i]);
        }
        assert forall|i: int| 0 <= i < b1.len() implies !(#[trigger] b1[i]).contains('_') by {
            assert(b1[i] == b[i]);
        }
        lemma_join_injective(a1, b1);
        assert(a =~= a1.push(a.last()));
        assert(b =~= b1.push(b.last()));
    }
}

/// Two generated names are equal only when their variant names are, provided
/// there are as many on each side and none holds `_`.
pub proof fn lemma_function_name_injective(fn_name: Seq<char>, a: Seq<Seq<char>>, b: Seq<Seq<char>>)
    requires
        a.len() == b.len(),
        forall|i: int| 0 <= i < a.len() ==> !(#[trigger] a[i]).contains('_'),
        forall|i: int| 0 <= i < b.len() ==> !(#[trigger] b[i]).contains('_'),
        spec_function_name(fn_name, a) == spec_function_name(fn_name, b),
    ensures
        a == b,
{
    let head = seq!['_', '_'] + fn_name + seq!['_'];
    assert(spec_function_name(fn_name, a) == head + spec_join(a));
    assert(spec_function_name(fn_name, b) == head + spec_join(b));
    assert(spec_join(a) =~= (head + spec_join(a)).skip(head.len() as int));
    assert(spec_join(b) =~= (head + spec_join(b)).skip(head.len() as int));
    lemma_join_injective(a, b);
}

/// The name of the module that holds the generated functions.
pub open spec fn spec_module_name(fn_name: Seq<char>) -> Seq<char> {
    seq!['_', '_', 'v', 'a', 'r', 'i', 'a', 'n', 't', 's', '_'] + fn_name
}

/// Builds the name of a generated function from the template's name and the
/// names of the chosen variants, in the order given.
pub fn function_name(fn_name: &String, variants: &Vec<String>) -> (r: String)
    ensures
        r@ == spec_function_name(fn_name@, views_of(variants@)),
{
    let ghost views = views_of(variants@);
    proof {
        reveal_strlit("__");
        reveal_strlit("_");
    }
    let mut r = String::from_str("__");
    r.append(fn_name.as_str());
    r.append("_");
    let ghost head = r@;
    let mut i: usize = 0;
    while i < variants.len()
        invariant
            i <= variants@.len(),
            views == views_of(variants@),
            head == seq!['_', '_'] + fn_name@ + seq!['_'],
            r@ == head + spec_join(views.take(i as int)),
            "_"@ == seq!['_'],
        decreases variants@.len() - i,
    {
        proof {
            assert(views.take(i + 1).drop_last() =~= views.take(i as int));
        }
        if i > 0 {
            r.append("_");
        }
        r.append(variants[i].as_str());
        proof {
            if i == 0 {
                assert(views.take(1) =~= seq![views[0]]);
            }
            assert(r@ =~= head + spec_join(views.take(i + 1)));
        }
        i = i + 1;
    }
    proof {
        assert(views.take(variants@.len() as int) =~= views);
    }
    r
}

/// Builds the name of the module that holds the generated functions.
pub fn module_name(fn_name: &String) -> (r: String)
    ensures
        r@ == spec_module_name(fn_name@),
{
    proof {
        reveal_strlit("__variants_");
    }
    let mut r = String::from_str("__variants_");
    r.append(fn_name.as_str());
    proof {
        assert(r@ =~= spec_module_name(fn_name@));
    }
    r
}

/// No two names are equal.
pub open spec fn names_distinct(names: Seq<Seq<char>>) -> bool {
    forall|i: int, j: int| 0 <= i < j < names.len() ==> names[i] != names[j]
}

/// `order` lists each of the first `k` indices of `names` once, by increasing name.
pub open spec fn is_sorted_prefix_order(names: Seq<Seq<char>>, order: Seq<usize>, k: nat) -> bool {
    &&& order.len() == k
    &&& forall|i: int| 0 <= i < order.len() ==> #[trigger] order[i] < k
    &&& forall|i: int, j: int| 0 <= i < j < order.len() ==> order[i] != order[j]
    &&& forall|x: usize| x < k ==> #[trigger] order.contains(x)
    &&& forall|i: int, j: int| 0 <= i < j < order.len() ==> seq_less(names[order[i] as int], names[order[j] as int])
}

/// `order` lists each index of `names` once, by increasing name.
pub open spec fn is_sorted_order(names: Seq<Seq<char>>, order: Seq<usize>) -> bool {
    is_sorted_prefix_order(names, order, names.len())
}

/// Inserting index `k` before the first name after `names[k]` keeps the order sorted.
pub proof fn lemma_insert_sorted(names: Seq<Seq<char>>, order: Seq<usize>, k: usize, p: int)
    requires
        names_distinct(names),
        k < names.len(),
        is_sorted_prefix_order(names, order, k as nat),
        0 <= p <= order.len(),
        forall|i: int| 0 <= i < p ==> !seq_less(names[k as int], #[trigger] names[order[i] as int]),
        p < order.len() ==> seq_less(names[k as int], names[order[p] as int]),
    ensures
        is_sorted_prefix_order(names, order.insert(p, k), (k + 1) as nat),
{
    let old_order = order;
    let order = old_order.insert(p, k);
    assert forall|x: usize| x < k + 1 implies #[trigger] order.contains(x) by {
        if x == k {
            assert(order[p] == k);
        } else {
            assert(old_order.contains(x));
            let i = choose|i: int| 0 <= i < old_order.len() && old_order[i] == x;
            if i < p {
                assert(order[i] == x);
            } else {
                assert(order[i + 1] == x);
            }
        }
    }
    assert forall|i: int| 0 <= i < order.len() implies #[trigger] order[i] < k + 1 by {
        if i < p {
            assert(order[i] == old_order[i]);
        } else if i > p {
            assert(order[i] == old_order[i - 1]);
        }
    }
    assert forall|i: int, j: int| 0 <= i < j < order.len() implies order[i] != order[j] by {
        if i < p && j < p {
            assert(order[i] == old_order[i] && order[j] == old_order[j]);
        } else if i < p && j == p {
            assert(order[i] == old_order[i]);
        } else if i < p && j > p {
            assert(order[i] == old_order[i] && order[j] == old_order[j - 1]);
        } else if i == p {
            assert(order[j] == old_order[j - 1]);
        } else {
            assert(order[i] == old_order[i - 1] && order[j] == old_order[j - 1]);
        }
    }
    assert forall|i: int, j: int| 0 <= i < j < order.len() implies
        seq_less(names[order[i] as int], names[order[j] as int]) by {
        let vk = names[k as int];
        if i < p {
            let vi = names[old_order[i] as int];
            assert(order[i] == old_order[i]);
            assert(vi != vk);
            lemma_seq_less_total(vi, vk);
            assert(seq_less(vi, vk));
            if j == p {
            } else if j < p {
                assert(order[j] == old_order[j]);
            } else {
                assert(order[j] == old_order[j - 1]);
                if p < old_order.len() {
                    let vp = names[old_order[p] as int];
                    assert(seq_less(vk, vp));
                    lemma_seq_less_transitive(vi, vk, vp);
                    if j - 1 > p {
                        lemma_seq_less_transitive(vi, vp, names[old_order[j - 1] as int]);
                    }
                }
            }
        } else if i == p {
            assert(order[j] == old_order[j - 1]);
            let vp = names[old_order[p] as int];
            assert(seq_less(vk, vp));
            if j - 1 > p {
                lemma_seq_less_transitive(vk, vp, names[old_order[j - 1] as int]);
            }
        } else {
            assert(order[i] == old_order[i - 1] && order[j] == old_order[j - 1]);
        }
    }
}

/// The first position from `i` on whose name comes after `names[k]`.
pub open spec fn first_after(names: Seq<Seq<char>>, order: Seq<usize>, k: int, i: int) -> int
    decreases order.len() - i,
{
    if i < 0 || i >= order.len() {
        order.len() as int
    } else if seq_less(names[k], names[order[i] as int]) {
        i
    } else {
        first_after(names, order, k, i + 1)
    }
}

proof fn lemma_first_after(names: Seq<Seq<char>>, order: Seq<usize>, k: int, i: int)
    requires
        0 <= i <= order.len(),
    ensures
        i <= first_after(names, order, k, i) <= order.len(),
        forall|j: int| i <= j < first_after(names, order, k, i) ==> !seq_less(names[k], #[trigger] names[order[j] as int]),
        first_after(names, order, k, i) < order.len() ==> seq_less(names[k], names[order[first_after(names, order, k, i)] as int]),
    decreases order.len() - i,
{
    if i < order.len() && !seq_less(names[k], names[order[i] as int]) {
        lemma_first_after(names, order, k, i + 1);
    }
}

/// Distinct names have an order by name.
pub proof fn lemma_sorted_prefix_order_exists(names: Seq<Seq<char>>, k: nat)
    requires
        names_distinct(names),
        k <= names.len(),
        names.len() <= usize::MAX,
    ensures
        exists|o: Seq<usize>| #[trigger] is_sorted_prefix_order(names, o, k),
    decreases k,
{
    if k == 0 {
        assert(is_sorted_prefix_order(names, Seq::<usize>::empty(), 0));
    } else {
        lemma_sorted_prefix_order_exists(names, (k - 1) as nat);
        let o = choose|o: Seq<usize>| #[trigger] is_sorted_prefix_order(names, o, (k - 1) as nat);
        lemma_first_after(names, o, k - 1, 0);
        let p = first_after(names, o, k - 1, 0);
        lemma_insert_sorted(names, o, (k - 1) as usize, p);
        assert(is_sorted_prefix_order(names, o.insert(p, (k - 1) as usize), k));
    }
}

/// A list of distinct names has only one order by name.
pub proof fn lemma_sorted_order_unique(names: Seq<Seq<char>>, o1: Seq<usize>, o2: Seq<usize>)
    requires
        is_sorted_order(names, o1),
        is_sorted_order(names, o2),
    ensures
        o1 == o2,
{
    assert forall|k: int| 0 <= k < o1.len() implies o1[k] == o2[k] by {
        lemma_sorted_orders_agree_at(names, o1, o2, k);
    }
    assert(o1 =~= o2);
}

proof fn lemma_sorted_orders_agree_at(names: Seq<Seq<char>>, o1: Seq<usize>, o2: Seq<usize>, k: int)
    requires
        is_sorted_order(names, o1),
        is_sorted_order(names, o2),
        0 <= k < o1.len(),
    ensures
        o1[k] == o2[k],
    decreases k,
{
    assert forall|i: int| 0 <= i < k implies o1[i] == o2[i] by {
        lemma_sorted_orders_agree_at(names, o1, o2, i);
    }
    let a = o1[k];
    let b = o2[k];
    if a != b {
        assert(o2.contains(a));
        let j = choose|j: int| 0 <= j < o2.len() && o2[j] == a;
        assert(o1.contains(b));
        let j2 = choose|j: int| 0 <= j < o1.len() && o1[j] == b;
        if j < k {
            assert(o1[j] == o2[j]);
        }
        if j2 < k {
            assert(o1[j2] == o2[j2]);
        }
        assert(seq_less(names[b as int], names[a as int]));
        assert(seq_less(names[a as int], names[b as int]));
        lemma_seq_less_asymmetric(names[a as int], names[b as int]);
    }
}

/// The order by name of distinct names.
pub open spec fn name_order(names: Seq<Seq<char>>) -> Seq<usize> {
    choose|o: Seq<usize>| is_sorted_order(names, o)
}

/// The indices of distinct names, ordered by name.
pub fn sorted_order(names: &Vec<String>) -> (order: Vec<usize>)
    requires
        names_distinct(views_of(names@)),
    ensures
        is_sorted_order(views_of(names@), order@),
        order@ == name_order(views_of(names@)),
{
    let ghost views = views_of(names@);
    let mut order: Vec<usize> = Vec::new();
    let mut k: usize = 0;
    while k < names.len()
        invariant
            k <= names@.len(),
            views == views_of(names@),
            names_distinct(views),
            is_sorted_prefix_order(views, order@, k as nat),
        decreases names@.len() - k,
    {
        // the first position whose name comes after names[k]
        let mut p: usize = 0;
        while p < order.len() && !str_less(&names[k], &names[order[p]])
            invariant
                p <= order@.len(),
                k < names@.len(),
                views == views_of(names@),
                forall|i: int| 0 <= i < order@.len() ==> #[trigger] order@[i] < k,
                forall|i: int| 0 <= i < p ==> !seq_less(views[k as int], #[trigger] views[order@[i] as int]),
            decreases order@.len() - p,
        {
            p = p + 1;
        }
        proof {
            lemma_insert_sorted(views, order@, k, p as int);
        }
        order.insert(p, k);
        k = k + 1;
    }
    proof {
        assert(is_sorted_order(views, order@));
        lemma_sorted_order_unique(views, order@, name_order(views));
    }
    order
}

} // verus!
