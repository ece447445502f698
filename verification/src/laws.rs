use vstd::prelude::*;

use crate::compose::{
    chosen_names, find_section, lemma_find_section_bound, section_sizes, spec_compose, spec_outcome,
    spec_replace_errors, spec_substitutions, Substitution,
};
use crate::names::{
    is_sorted_order, is_sorted_prefix_order, lemma_function_name_injective, lemma_sorted_prefix_order_exists, name_order,
    names_distinct,
};
use crate::expand::{lemma_sections_kinds, spec_mozart};
use crate::mapping::spec_mapping_run;
use crate::model::{FnSignature, Placeholder, Position};
use crate::product::{choice_ok, lemma_product, product, size_product};
use crate::names::spec_decimal;
use crate::sections::{
    first_duplicate, lemma_variant_names_prefix, nameless_count, nameless_name, section_names,
    sections_distinct, spec_sections, variant_names, RawSection, SectionView,
};

verus! {

/// As many functions are generated as there are combinations of one variant per
/// section: the product of the sections' variant counts.
pub proof fn law_function_count(sig: FnSignature, ps: Seq<Placeholder>, secs: Seq<SectionView>)
    requires
        spec_compose(sig, ps, secs) is Ok,
    ensures
        spec_compose(sig, ps, secs)->Ok_0.functions.len() == size_product(section_sizes(secs)),
{
    lemma_product(section_sizes(secs));
}

/// Every combination of one variant per section is generated exactly once.
pub proof fn law_each_combination_once(sig: FnSignature, ps: Seq<Placeholder>, secs: Seq<SectionView>)
    requires
        spec_compose(sig, ps, secs) is Ok,
    ensures
        ({
            let fs = spec_compose(sig, ps, secs)->Ok_0.functions;
            &&& forall|k: int| 0 <= k < fs.len() ==> choice_ok(section_sizes(secs), #[trigger] fs[k].choice)
            &&& forall|c: Seq<usize>| choice_ok(section_sizes(secs), c) ==> exists|k: int| 0 <= k < fs.len() && #[trigger] fs[k].choice == c
            &&& forall|k1: int, k2: int| 0 <= k1 < k2 < fs.len() ==> fs[k1].choice != fs[k2].choice
        }),
{
    let sizes = section_sizes(secs);
    lemma_product(sizes);
    let combos = product(sizes);
    let fs = spec_compose(sig, ps, secs)->Ok_0.functions;
    assert forall|k: int| 0 <= k < fs.len() implies choice_ok(sizes, #[trigger] fs[k].choice) by {
        assert(fs[k].choice == combos[k]);
        assert(combos.contains(combos[k]));
    }
    assert forall|c: Seq<usize>| choice_ok(sizes, c) implies exists|k: int| 0 <= k < fs.len() && #[trigger] fs[k].choice == c by {
        assert(combos.contains(c));
        let k = choose|k: int| 0 <= k < combos.len() && combos[k] == c;
        assert(fs[k].choice == c);
    }
    assert forall|k1: int, k2: int| 0 <= k1 < k2 < fs.len() implies fs[k1].choice != fs[k2].choice by {
        assert(fs[k1].choice == combos[k1]);
        assert(fs[k2].choice == combos[k2]);
    }
}

/// What each substitution says of its placeholder.
pub open spec fn substitution_fits(ps: Seq<Placeholder>, secs: Seq<SectionView>, choice: Seq<usize>, sub: Substitution) -> bool {
    &&& sub.placeholder < ps.len()
    &&& ps[sub.placeholder as int].position != Position::Other
    &&& spec_outcome(ps[sub.placeholder as int], secs) == Ok::<(usize, crate::compose::Form), crate::model::PlaceholderErrorKind>((sub.section, sub.form))
    &&& sub.variant == choice[sub.section as int]
}

proof fn lemma_substitutions(ps: Seq<Placeholder>, secs: Seq<SectionView>, choice: Seq<usize>)
    requires
        ps.len() <= usize::MAX,
    ensures
        forall|t: int| 0 <= t < spec_substitutions(ps, secs, choice).len() ==>
            substitution_fits(ps, secs, choice, #[trigger] spec_substitutions(ps, secs, choice)[t]),
        spec_replace_errors(ps, secs).len() == 0 ==> forall|i: int| 0 <= i < ps.len() && #[trigger] ps[i].position != Position::Other ==>
            exists|t: int| 0 <= t < spec_substitutions(ps, secs, choice).len()
                && (#[trigger] spec_substitutions(ps, secs, choice)[t]).placeholder == i,
    decreases ps.len(),
{
    if ps.len() > 0 {
        let t = ps.drop_last();
        lemma_substitutions(t, secs, choice);
        let prev = spec_substitutions(t, secs, choice);
        let cur = spec_substitutions(ps, secs, choice);
        assert forall|u: int| 0 <= u < cur.len() implies substitution_fits(ps, secs, choice, #[trigger] cur[u]) by {
            if u < prev.len() {
                assert(cur[u] == prev[u]);
                assert(ps[prev[u].placeholder as int] == t[prev[u].placeholder as int]);
            }
        }
        if spec_replace_errors(ps, secs).len() == 0 {
            assert(spec_replace_errors(t, secs).len() == 0) by {
                if spec_replace_errors(t, secs).len() > 0 {
                    assert(spec_replace_errors(ps, secs).len() >= spec_replace_errors(t, secs).len());
                }
            }
            assert forall|i: int| 0 <= i < ps.len() && #[trigger] ps[i].position != Position::Other implies
                exists|u: int| 0 <= u < cur.len() && (#[trigger] cur[u]).placeholder == i by {
                if i < ps.len() - 1 {
                    assert(t[i] == ps[i]);
                    let u = choose|u: int| 0 <= u < prev.len() && (#[trigger] prev[u]).placeholder == i;
                    assert(cur[u] == prev[u]);
                } else {
                    assert(cur[cur.len() - 1].placeholder == i);
                }
            }
        }
    }
}

/// One generated function's substitutions follow its choice.
proof fn lemma_function_follows_choice(ps: Seq<Placeholder>, secs: Seq<SectionView>, c: Seq<usize>)
    requires
        ps.len() <= usize::MAX,
        secs.len() <= usize::MAX,
        choice_ok(section_sizes(secs), c),
    ensures
        forall|t: int| 0 <= t < spec_substitutions(ps, secs, c).len() ==> {
            let sub = #[trigger] spec_substitutions(ps, secs, c)[t];
            let p = ps[sub.placeholder as int];
            &&& sub.placeholder < ps.len()
            &&& p.position != Position::Other
            &&& p.name is Some
            &&& sub.section < secs.len()
            &&& secs[sub.section as int].name == p.name->Some_0@
            &&& sub.variant == c[sub.section as int]
            &&& sub.variant < secs[sub.section as int].variants.len()
        },
        spec_replace_errors(ps, secs).len() == 0 ==> forall|i: int| 0 <= i < ps.len() && #[trigger] ps[i].position != Position::Other ==>
            exists|t: int| 0 <= t < spec_substitutions(ps, secs, c).len()
                && (#[trigger] spec_substitutions(ps, secs, c)[t]).placeholder == i,
{
    let sizes = section_sizes(secs);
    lemma_substitutions(ps, secs, c);
    assert forall|t: int| 0 <= t < spec_substitutions(ps, secs, c).len() implies {
        let sub = #[trigger] spec_substitutions(ps, secs, c)[t];
        let p = ps[sub.placeholder as int];
        &&& sub.placeholder < ps.len()
        &&& p.position != Position::Other
        &&& p.name is Some
        &&& sub.section < secs.len()
        &&& secs[sub.section as int].name == p.name->Some_0@
        &&& sub.variant == c[sub.section as int]
        &&& sub.variant < secs[sub.section as int].variants.len()
    } by {
        let sub = spec_substitutions(ps, secs, c)[t];
        assert(substitution_fits(ps, secs, c, sub));
        let p = ps[sub.placeholder as int];
        let n = p.name->Some_0@;
        lemma_find_section_bound(secs, n, 0);
        assert(find_section(secs, n) == Some(sub.section));
        assert(sizes[sub.section as int] == secs[sub.section as int].variants.len() as usize);
    }
}

/// In every generated function, each replaced placeholder becomes the variant
/// chosen, in that function, for the section that the placeholder names; and when
/// the composition succeeds, every placeholder in expression, type or statement
/// position is replaced.
pub proof fn law_placeholders_follow_choice(sig: FnSignature, ps: Seq<Placeholder>, secs: Seq<SectionView>, k: int)
    requires
        spec_compose(sig, ps, secs) is Ok,
        0 <= k < spec_compose(sig, ps, secs)->Ok_0.functions.len(),
        ps.len() <= usize::MAX,
        secs.len() <= usize::MAX,
    ensures
        ({
            let f = spec_compose(sig, ps, secs)->Ok_0.functions[k];
            &&& forall|t: int| 0 <= t < f.substitutions.len() ==> {
                let sub = #[trigger] f.substitutions[t];
                let p = ps[sub.placeholder as int];
                &&& sub.placeholder < ps.len()
                &&& p.position != Position::Other
                &&& p.name is Some
                &&& sub.section < secs.len()
                &&& secs[sub.section as int].name == p.name->Some_0@
                &&& sub.variant == f.choice[sub.section as int]
                &&& sub.variant < secs[sub.section as int].variants.len()
            }
            &&& forall|i: int| 0 <= i < ps.len() && #[trigger] ps[i].position != Position::Other
                ==> exists|t: int| 0 <= t < f.substitutions.len() && (#[trigger] f.substitutions[t]).placeholder == i
        }),
{
    let sizes = section_sizes(secs);
    lemma_product(sizes);
    let combos = product(sizes);
    let c = combos[k];
    assert(combos.contains(c));
    lemma_function_follows_choice(ps, secs, c);
}

/// Different combinations give differently named functions, as long as no variant
/// name holds `_` (the separator of the names). Sections must have distinct names
/// and distinct variant names, as checked sections do.
pub proof fn law_function_names_distinct(sig: FnSignature, ps: Seq<Placeholder>, secs: Seq<SectionView>)
    requires
        spec_compose(sig, ps, secs) is Ok,
        sections_distinct(secs),
        secs.len() <= usize::MAX,
        forall|j: int| 0 <= j < secs.len() ==> names_distinct(#[trigger] secs[j].variants),
        forall|j: int, v: int| 0 <= j < secs.len() && 0 <= v < secs[j].variants.len()
            ==> !(#[trigger] secs[j].variants[v]).contains('_'),
    ensures
        ({
            let fs = spec_compose(sig, ps, secs)->Ok_0.functions;
            forall|k1: int, k2: int| 0 <= k1 < k2 < fs.len() ==> fs[k1].name != fs[k2].name
        }),
{
    let sizes = section_sizes(secs);
    lemma_product(sizes);
    let combos = product(sizes);
    let fs = spec_compose(sig, ps, secs)->Ok_0.functions;
    let names = section_names(secs);
    lemma_sorted_prefix_order_exists(names, names.len());
    let w = choose|o: Seq<usize>| #[trigger] is_sorted_prefix_order(names, o, names.len());
    assert(is_sorted_order(names, w));
    let o = name_order(names);
    assert(is_sorted_order(names, o));
    assert forall|k1: int, k2: int| 0 <= k1 < k2 < fs.len() implies fs[k1].name != fs[k2].name by {
        let c1 = combos[k1];
        let c2 = combos[k2];
        assert(combos.contains(c1));
        assert(combos.contains(c2));
        assert(c1 != c2);
        let s = choose|s: int| 0 <= s < c1.len() && c1[s] != c2[s];
        assert(exists|s: int| 0 <= s < c1.len() && c1[s] != c2[s]) by {
            if forall|s: int| 0 <= s < c1.len() ==> c1[s] == c2[s] {
                assert(c1 =~= c2);
            }
        }
        assert(o.contains(s as usize));
        let t = choose|t: int| 0 <= t < o.len() && o[t] == s as usize;
        let a = chosen_names(secs, c1);
        let b = chosen_names(secs, c2);
        assert(sizes[s] == secs[s].variants.len() as usize);
        assert(a[t] == secs[s].variants[c1[s] as int]);
        assert(b[t] == secs[s].variants[c2[s] as int]);
        assert(names_distinct(secs[s].variants));
        assert(a[t] != b[t]);
        assert forall|i: int| 0 <= i < a.len() implies !(#[trigger] a[i]).contains('_') by {
            let j = o[i] as int;
            assert(0 <= j < secs.len());
            assert(sizes[j] == secs[j].variants.len() as usize);
        }
        assert forall|i: int| 0 <= i < b.len() implies !(#[trigger] b[i]).contains('_') by {
            let j = o[i] as int;
            assert(sizes[j] == secs[j].variants.len() as usize);
        }
        if fs[k1].name == fs[k2].name {
            lemma_function_name_injective(sig.name@, a, b);
        }
    }
}

/// A name that repeats nowhere earlier in the list makes the list distinct.
pub proof fn lemma_first_duplicate_none(names: Seq<Seq<char>>)
    requires
        first_duplicate(names) is None,
    ensures
        names_distinct(names),
    decreases names.len(),
{
    if names.len() > 0 {
        let t = names.drop_last();
        lemma_first_duplicate_none(t);
        assert forall|i: int, j: int| 0 <= i < j < names.len() implies names[i] != names[j] by {
            if j == names.len() - 1 {
                assert(t[i] == names[i]);
                if names[i] == names[j] {
                    assert(t.contains(names.last()));
                }
            } else {
                assert(t[i] == names[i] && t[j] == names[j]);
            }
        }
    }
}

pub proof fn lemma_decimal_has_no_underscore(n: nat)
    ensures
        !spec_decimal(n).contains('_'),
    decreases n,
{
    if n >= 10 {
        lemma_decimal_has_no_underscore(n / 10);
        let d = spec_decimal(n);
        assert forall|i: int| 0 <= i < d.len() implies d[i] != '_' by {
            if i < d.len() - 1 {
                assert(d[i] == spec_decimal(n / 10)[i]);
            }
        }
    }
}

/// Unnamed variants get names without `_`; named ones keep theirs.
pub proof fn lemma_variant_names_no_underscore(items: Seq<Option<String>>)
    requires
        forall|v: int| 0 <= v < items.len() && (#[trigger] items[v]) is Some ==> !items[v]->Some_0@.contains('_'),
    ensures
        forall|v: int| 0 <= v < variant_names(items).len() ==> !(#[trigger] variant_names(items)[v]).contains('_'),
    decreases items.len(),
{
    if items.len() > 0 {
        let t = items.drop_last();
        assert forall|v: int| 0 <= v < t.len() && (#[trigger] t[v]) is Some implies !t[v]->Some_0@.contains('_') by {
            assert(t[v] == items[v]);
        }
        lemma_variant_names_no_underscore(t);
        let names = variant_names(items);
        lemma_decimal_has_no_underscore(nameless_count(t));
        assert forall|v: int| 0 <= v < names.len() implies !(#[trigger] names[v]).contains('_') by {
            if v < names.len() - 1 {
                assert(names[v] == variant_names(t)[v]);
            } else {
                assert(items[items.len() - 1] == items.last());
                if items.last() is None {
                    let nm = nameless_name(nameless_count(t));
                    assert forall|i: int| 0 <= i < nm.len() implies nm[i] != '_' by {
                        if i > 0 {
                            assert(nm[i] == spec_decimal(nameless_count(t))[i - 1]);
                        }
                    }
                }
            }
        }
    }
}

/// The composition of checked sections names its functions distinctly, as long as
/// no variant is given a name holding `_`.
pub proof fn law_generated_names_distinct(sig: FnSignature, ps: Seq<Placeholder>, raw: Seq<RawSection>)
    requires
        spec_mozart(sig, ps, raw) is Ok,
        raw.len() <= usize::MAX,
        forall|j: int, v: int| 0 <= j < raw.len() && 0 <= v < raw[j].variants@.len() && (#[trigger] raw[j].variants@[v]) is Some
            ==> !raw[j].variants@[v]->Some_0@.contains('_'),
    ensures
        ({
            let fs = spec_mozart(sig, ps, raw)->Ok_0.functions;
            forall|k1: int, k2: int| 0 <= k1 < k2 < fs.len() ==> fs[k1].name != fs[k2].name
        }),
{
    let m = spec_mapping_run(ps).0;
    let secs = spec_sections(m, raw)->Ok_0;
    lemma_sections_kinds(m, raw);
    assert forall|j: int| 0 <= j < secs.len() implies names_distinct(#[trigger] secs[j].variants) by {
        lemma_first_duplicate_none(secs[j].variants);
    }
    assert forall|j: int, v: int| 0 <= j < secs.len() && 0 <= v < secs[j].variants.len()
        implies !(#[trigger] secs[j].variants[v]).contains('_') by {
        let items = raw[j].variants@;
        assert forall|w: int| 0 <= w < items.len() && (#[trigger] items[w]) is Some implies !items[w]->Some_0@.contains('_') by {
            assert(raw[j].variants@[w] == items[w]);
        }
        lemma_variant_names_no_underscore(items);
        assert(secs[j].variants == variant_names(items));
    }
    law_function_names_distinct(sig, ps, secs);
}

/// The number of variants each section declares.
pub open spec fn declared_sizes(raw: Seq<RawSection>) -> Seq<usize> {
    raw.map_values(|r: RawSection| r.variants@.len() as usize)
}

/// A successful composition generates as many functions as the product of the
/// numbers of variants that the sections declare: three sections of two variants
/// give eight functions.
pub proof fn law_generated_function_count(sig: FnSignature, ps: Seq<Placeholder>, raw: Seq<RawSection>)
    requires
        spec_mozart(sig, ps, raw) is Ok,
    ensures
        spec_mozart(sig, ps, raw)->Ok_0.functions.len() == size_product(declared_sizes(raw)),
{
    let m = spec_mapping_run(ps).0;
    let secs = spec_sections(m, raw)->Ok_0;
    lemma_sections_kinds(m, raw);
    assert forall|j: int| 0 <= j < secs.len() implies section_sizes(secs)[j] == declared_sizes(raw)[j] by {
        lemma_variant_names_prefix(raw[j].variants@, 0);
    }
    assert(section_sizes(secs) =~= declared_sizes(raw));
    law_function_count(sig, ps, secs);
}

} // verus!
