use vstd::prelude::*;

use crate::compose::{
    find_section, find_section_from, section_sizes, spec_compose, spec_outcome, spec_replace_errors,
    Form, PlanView,
};
use crate::expand::lemma_sections_kinds;
use crate::mapping::spec_mapping_run;
use crate::model::{
    spec_kind_of_delimiter, Delimiter, FnSignature, MozartErrorView, Placeholder, PlaceholderError, PlaceholderErrorKind, Position,
    SectionError, VariantKind,
};
use crate::names::{names_distinct, spec_decimal, spec_digit, spec_function_name, spec_module_name};
use crate::product::product;
use crate::sections::{
    first_duplicate, lemma_variant_names_prefix, nameless_count, section_names, sections_distinct,
    spec_sections, variant_names, RawSection, SectionView,
};

verus! {

// ---------------------------------------------------------------------------
// Collecting the groups

/// Every group in the mapping comes from a placeholder that names it, and has the
/// kind of that placeholder's delimiter.
proof fn lemma_mapping_origin(ps: Seq<Placeholder>)
    ensures
        forall|n: Seq<char>| #[trigger] spec_mapping_run(ps).0.contains_key(n) ==> exists|i: int|
            0 <= i < ps.len() && (#[trigger] ps[i]).name is Some && ps[i].name->Some_0@ == n
                && spec_mapping_run(ps).0[n] == spec_kind_of_delimiter(ps[i].delimiter),
    decreases ps.len(),
{
    if ps.len() > 0 {
        let t = ps.drop_last();
        lemma_mapping_origin(t);
        let m0 = spec_mapping_run(t).0;
        let m = spec_mapping_run(ps).0;
        assert forall|n: Seq<char>| #[trigger] m.contains_key(n) implies exists|i: int|
            0 <= i < ps.len() && (#[trigger] ps[i]).name is Some && ps[i].name->Some_0@ == n
                && m[n] == spec_kind_of_delimiter(ps[i].delimiter) by {
            let p = ps.last();
            if p.name is Some && p.name->Some_0@ == n && !m0.contains_key(n) {
                assert(ps[ps.len() - 1] == p);
            } else {
                assert(m0.contains_key(n));
                let i = choose|i: int| 0 <= i < t.len() && (#[trigger] t[i]).name is Some && t[i].name->Some_0@ == n
                    && m0[n] == spec_kind_of_delimiter(t[i].delimiter);
                assert(ps[i] == t[i]);
            }
        }
    }
}

/// Every error reported while collecting the groups is justified: a placeholder
/// without a single identifier, or a placeholder whose group an earlier
/// placeholder already gave a different kind.
pub proof fn law_mapping_errors_justified(ps: Seq<Placeholder>)
    requires
        ps.len() <= usize::MAX,
    ensures
        forall|k: int| 0 <= k < spec_mapping_run(ps).1.len() ==> {
            let e = #[trigger] spec_mapping_run(ps).1[k];
            &&& e.placeholder < ps.len()
            &&& e.kind == PlaceholderErrorKind::NameTokenMismatch ==> ps[e.placeholder as int].name is None
            &&& e.kind == PlaceholderErrorKind::UsedWithMultipleKinds ==> {
                &&& ps[e.placeholder as int].name is Some
                &&& exists|j: int| 0 <= j < e.placeholder && (#[trigger] ps[j]).name is Some
                    && ps[j].name->Some_0@ == ps[e.placeholder as int].name->Some_0@
                    && spec_kind_of_delimiter(ps[j].delimiter) != spec_kind_of_delimiter(ps[e.placeholder as int].delimiter)
            }
            &&& e.kind == PlaceholderErrorKind::NameTokenMismatch || e.kind == PlaceholderErrorKind::UsedWithMultipleKinds
        },
    decreases ps.len(),
{
    if ps.len() > 0 {
        let t = ps.drop_last();
        law_mapping_errors_justified(t);
        lemma_mapping_origin(t);
        let errs0 = spec_mapping_run(t).1;
        let errs = spec_mapping_run(ps).1;
        let last = (ps.len() - 1) as int;
        assert forall|k: int| 0 <= k < errs.len() implies {
            let e = #[trigger] errs[k];
            &&& e.placeholder < ps.len()
            &&& e.kind == PlaceholderErrorKind::NameTokenMismatch ==> ps[e.placeholder as int].name is None
            &&& e.kind == PlaceholderErrorKind::UsedWithMultipleKinds ==> {
                &&& ps[e.placeholder as int].name is Some
                &&& exists|j: int| 0 <= j < e.placeholder && (#[trigger] ps[j]).name is Some
                    && ps[j].name->Some_0@ == ps[e.placeholder as int].name->Some_0@
                    && spec_kind_of_delimiter(ps[j].delimiter) != spec_kind_of_delimiter(ps[e.placeholder as int].delimiter)
            }
            &&& e.kind == PlaceholderErrorKind::NameTokenMismatch || e.kind == PlaceholderErrorKind::UsedWithMultipleKinds
        } by {
            if k < errs0.len() {
                let e = errs0[k];
                assert(errs[k] == e);
                assert(ps[e.placeholder as int] == t[e.placeholder as int]);
                if e.kind == PlaceholderErrorKind::UsedWithMultipleKinds {
                    let j = choose|j: int| 0 <= j < e.placeholder && (#[trigger] t[j]).name is Some
                        && t[j].name->Some_0@ == t[e.placeholder as int].name->Some_0@
                        && spec_kind_of_delimiter(t[j].delimiter) != spec_kind_of_delimiter(t[e.placeholder as int].delimiter);
                    assert(ps[j] == t[j]);
                }
            } else {
                let p = ps.last();
                assert(ps[last] == p);
                if p.name is Some {
                    let n = p.name->Some_0@;
                    let m0 = spec_mapping_run(t).0;
                    assert(m0.contains_key(n));
                    let j = choose|j: int| 0 <= j < t.len() && (#[trigger] t[j]).name is Some && t[j].name->Some_0@ == n
                        && m0[n] == spec_kind_of_delimiter(t[j].delimiter);
                    assert(ps[j] == t[j]);
                }
            }
        }
    }
}

/// When every placeholder names its group with a single identifier and all the
/// placeholders of a group ask for the same kind, collecting the groups reports no
/// error, however often a group is used, and each group gets that kind.
pub proof fn law_consistent_placeholders_map(ps: Seq<Placeholder>)
    requires
        ps.len() <= usize::MAX,
        forall|i: int| 0 <= i < ps.len() ==> (#[trigger] ps[i]).name is Some,
        forall|i: int, j: int| 0 <= i < ps.len() && 0 <= j < ps.len() && ps[i].name->Some_0@ == ps[j].name->Some_0@
            ==> spec_kind_of_delimiter(#[trigger] ps[i].delimiter) == spec_kind_of_delimiter(#[trigger] ps[j].delimiter),
    ensures
        spec_mapping_run(ps).1.len() == 0,
        forall|i: int| 0 <= i < ps.len() ==> spec_mapping_run(ps).0.contains_key((#[trigger] ps[i]).name->Some_0@)
            && spec_mapping_run(ps).0[ps[i].name->Some_0@] == spec_kind_of_delimiter(ps[i].delimiter),
{
    law_mapping_errors_justified(ps);
    let errs = spec_mapping_run(ps).1;
    if errs.len() > 0 {
        let e = errs[0];
        assert(ps[e.placeholder as int].name is Some);
        if e.kind == PlaceholderErrorKind::UsedWithMultipleKinds {
            let j = choose|j: int| 0 <= j < e.placeholder && (#[trigger] ps[j]).name is Some
                && ps[j].name->Some_0@ == ps[e.placeholder as int].name->Some_0@
                && spec_kind_of_delimiter(ps[j].delimiter) != spec_kind_of_delimiter(ps[e.placeholder as int].delimiter);
        }
    }
    crate::expand::lemma_mapping_kinds(ps);
}

// ---------------------------------------------------------------------------
// Replacing the placeholders

proof fn lemma_find_named(secs: Seq<SectionView>, n: Seq<char>, j: int, k: int)
    requires
        sections_distinct(secs),
        0 <= k <= j < secs.len(),
        secs[j].name == n,
        secs.len() <= usize::MAX,
    ensures
        find_section_from(secs, n, k) == Some(j as usize),
    decreases j - k,
{
    if k < j {
        assert(section_names(secs)[k] != section_names(secs)[j]);
        lemma_find_named(secs, n, j, k + 1);
    }
}

proof fn lemma_find_absent(secs: Seq<SectionView>, n: Seq<char>, k: int)
    requires
        forall|j: int| 0 <= j < secs.len() ==> (#[trigger] secs[j]).name != n,
        0 <= k,
    ensures
        find_section_from(secs, n, k) is None,
    decreases secs.len() - k,
{
    if k < secs.len() {
        lemma_find_absent(secs, n, k + 1);
    }
}

/// What a placeholder becomes, given the section that carries its group's name:
/// brackets make an expression (or a statement ended by `;`), braces a block
/// expression or statement, parentheses a type. A placeholder whose group has no
/// section, or whose delimiter does not fit its position, is an error.
pub proof fn law_outcome(p: Placeholder, secs: Seq<SectionView>)
    requires
        sections_distinct(secs),
        secs.len() <= usize::MAX,
        p.position != Position::Other,
    ensures
        p.name is None ==> spec_outcome(p, secs) == Err::<(usize, Form), PlaceholderErrorKind>(PlaceholderErrorKind::NameParse),
        p.name is Some && (forall|j: int| 0 <= j < secs.len() ==> (#[trigger] secs[j]).name != p.name->Some_0@)
            ==> spec_outcome(p, secs) == Err::<(usize, Form), PlaceholderErrorKind>(
                if p.position == Position::Expr { PlaceholderErrorKind::UnknownExprGroup }
                else if p.position == Position::Type { PlaceholderErrorKind::UnknownTypeGroup }
                else { PlaceholderErrorKind::UnknownStmtGroup }),
        forall|j: int| 0 <= j < secs.len() && p.name is Some && (#[trigger] secs[j]).name == p.name->Some_0@ ==> {
            let s = j as usize;
            let r = spec_outcome(p, secs);
            &&& (p.position == Position::Expr && p.delimiter == Delimiter::Bracket) ==> r == Ok::<(usize, Form), PlaceholderErrorKind>((s, Form::Expr))
            &&& (p.position == Position::Expr && p.delimiter == Delimiter::Paren) ==> r == Err::<(usize, Form), PlaceholderErrorKind>(PlaceholderErrorKind::TypeVariantInExpr)
            &&& (p.position == Position::Expr && p.delimiter == Delimiter::Brace) ==> r == (if secs[j].kind == VariantKind::Block {
                Ok::<(usize, Form), PlaceholderErrorKind>((s, Form::Expr))
            } else {
                Err(PlaceholderErrorKind::BlockKindMismatch)
            })
            &&& (p.position == Position::Type && p.delimiter == Delimiter::Paren) ==> r == Ok::<(usize, Form), PlaceholderErrorKind>((s, Form::Type))
            &&& (p.position == Position::Type && p.delimiter != Delimiter::Paren) ==> r == Err::<(usize, Form), PlaceholderErrorKind>(PlaceholderErrorKind::NonTypeInType)
            &&& (p.position == Position::Stmt && p.delimiter == Delimiter::Brace) ==> r == Ok::<(usize, Form), PlaceholderErrorKind>((s, Form::Stmt))
            &&& (p.position == Position::Stmt && p.delimiter == Delimiter::Bracket) ==> r == Ok::<(usize, Form), PlaceholderErrorKind>((s, Form::StmtWithSemicolon))
            &&& (p.position == Position::Stmt && p.delimiter == Delimiter::Paren) ==> r == Err::<(usize, Form), PlaceholderErrorKind>(PlaceholderErrorKind::TypeVariantInStmt)
        },
{
    if p.name is Some {
        let n = p.name->Some_0@;
        if forall|j: int| 0 <= j < secs.len() ==> (#[trigger] secs[j]).name != n {
            lemma_find_absent(secs, n, 0);
        }
        assert forall|j: int| 0 <= j < secs.len() && (#[trigger] secs[j]).name == n implies find_section(secs, n) == Some(j as usize) by {
            lemma_find_named(secs, n, j, 0);
        }
    }
}

proof fn lemma_find_same_names(a: Seq<SectionView>, b: Seq<SectionView>, n: Seq<char>, k: int)
    requires
        a.len() == b.len(),
        forall|j: int| 0 <= j < a.len() ==> (#[trigger] a[j]).name == b[j].name,
    ensures
        find_section_from(a, n, k) == find_section_from(b, n, k),
    decreases a.len() - k,
{
    if 0 <= k < a.len() {
        assert(a[k].name == b[k].name);
        lemma_find_same_names(a, b, n, k + 1);
    }
}

/// What a placeholder becomes depends only on the names and kinds of the sections,
/// not on their variants: two section lists with the same names and kinds give
/// every placeholder the same outcome, whatever their variants.
pub proof fn law_outcome_ignores_variants(p: Placeholder, a: Seq<SectionView>, b: Seq<SectionView>)
    requires
        a.len() == b.len(),
        a.len() <= usize::MAX,
        forall|j: int| 0 <= j < a.len() ==> (#[trigger] a[j]).name == b[j].name && a[j].kind == b[j].kind,
    ensures
        spec_outcome(p, a) == spec_outcome(p, b),
{
    if p.name is Some {
        lemma_find_same_names(a, b, p.name->Some_0@, 0);
        crate::compose::lemma_find_section_bound(a, p.name->Some_0@, 0);
        let f = find_section(a, p.name->Some_0@);
        if f is Some {
            let s = f->Some_0 as int;
            if 0 <= s < a.len() {
                assert(a[s].kind == b[s].kind);
            }
        }
    }
}

/// Every replacement error belongs to a placeholder in expression, type or
/// statement position whose own outcome is that error; so when every such
/// placeholder has a replacement, no error is reported, however often a group
/// is used.
pub proof fn law_replace_errors_justified(ps: Seq<Placeholder>, secs: Seq<SectionView>)
    requires
        ps.len() <= usize::MAX,
    ensures
        forall|k: int| 0 <= k < spec_replace_errors(ps, secs).len() ==> {
            let e = #[trigger] spec_replace_errors(ps, secs)[k];
            &&& e.placeholder < ps.len()
            &&& ps[e.placeholder as int].position != Position::Other
            &&& spec_outcome(ps[e.placeholder as int], secs) == Err::<(usize, Form), PlaceholderErrorKind>(e.kind)
        },
        (forall|i: int| 0 <= i < ps.len() && (#[trigger] ps[i]).position != Position::Other ==> spec_outcome(ps[i], secs) is Ok)
            ==> spec_replace_errors(ps, secs).len() == 0,
    decreases ps.len(),
{
    if ps.len() > 0 {
        let t = ps.drop_last();
        law_replace_errors_justified(t, secs);
        let errs0 = spec_replace_errors(t, secs);
        let errs = spec_replace_errors(ps, secs);
        assert forall|k: int| 0 <= k < errs.len() implies {
            let e = #[trigger] errs[k];
            &&& e.placeholder < ps.len()
            &&& ps[e.placeholder as int].position != Position::Other
            &&& spec_outcome(ps[e.placeholder as int], secs) == Err::<(usize, Form), PlaceholderErrorKind>(e.kind)
        } by {
            if k < errs0.len() {
                assert(errs[k] == errs0[k]);
                assert(ps[errs0[k].placeholder as int] == t[errs0[k].placeholder as int]);
            } else {
                assert(ps[ps.len() - 1] == ps.last());
            }
        }
        if forall|i: int| 0 <= i < ps.len() && (#[trigger] ps[i]).position != Position::Other ==> spec_outcome(ps[i], secs) is Ok {
            assert forall|i: int| 0 <= i < t.len() && (#[trigger] t[i]).position != Position::Other implies spec_outcome(t[i], secs) is Ok by {
                assert(t[i] == ps[i]);
            }
            assert(ps[ps.len() - 1] == ps.last());
        }
    }
}

/// Every placeholder in expression, type or statement position that cannot be
/// replaced is reported.
pub proof fn law_replace_errors_complete(ps: Seq<Placeholder>, secs: Seq<SectionView>)
    requires
        ps.len() <= usize::MAX,
    ensures
        forall|i: int| 0 <= i < ps.len() && (#[trigger] ps[i]).position != Position::Other && spec_outcome(ps[i], secs) is Err
            ==> exists|k: int| 0 <= k < spec_replace_errors(ps, secs).len()
                && (#[trigger] spec_replace_errors(ps, secs)[k]).placeholder == i,
    decreases ps.len(),
{
    if ps.len() > 0 {
        let t = ps.drop_last();
        law_replace_errors_complete(t, secs);
        let errs0 = spec_replace_errors(t, secs);
        let errs = spec_replace_errors(ps, secs);
        assert forall|i: int| 0 <= i < ps.len() && (#[trigger] ps[i]).position != Position::Other && spec_outcome(ps[i], secs) is Err
            implies exists|k: int| 0 <= k < errs.len() && (#[trigger] errs[k]).placeholder == i by {
            if i < ps.len() - 1 {
                assert(t[i] == ps[i]);
                let k = choose|k: int| 0 <= k < errs0.len() && (#[trigger] errs0[k]).placeholder == i;
                assert(errs[k] == errs0[k]);
            } else {
                assert(ps[i] == ps.last());
                assert(errs[errs.len() - 1].placeholder == i);
            }
        }
    }
}

/// The template is refused when it is generic, then when it is async, then when a
/// placeholder in expression, type or statement position cannot be replaced (as
/// long as there is a combination to generate), then when it is a method; in every
/// other case the functions are planned.
pub proof fn law_compose_accepts(sig: FnSignature, ps: Seq<Placeholder>, secs: Seq<SectionView>)
    requires
        ps.len() <= usize::MAX,
    ensures
        ({
            let r = spec_compose(sig, ps, secs);
            let some_combination = product(section_sizes(secs)).len() > 0;
            let replaceable = forall|i: int| 0 <= i < ps.len() && (#[trigger] ps[i]).position != Position::Other
                ==> spec_outcome(ps[i], secs) is Ok;
            &&& sig.has_generics ==> r == Err::<PlanView, MozartErrorView>(MozartErrorView::GenericFunction)
            &&& !sig.has_generics && sig.is_async ==> r == Err::<PlanView, MozartErrorView>(MozartErrorView::AsyncFunction)
            &&& !sig.has_generics && !sig.is_async && some_combination && !replaceable ==> (r matches Err(MozartErrorView::Replace(es)) && es.len() > 0)
            &&& !sig.has_generics && !sig.is_async && (!some_combination || replaceable) && sig.has_receiver
                ==> r == Err::<PlanView, MozartErrorView>(MozartErrorView::Method)
            &&& !sig.has_generics && !sig.is_async && (!some_combination || replaceable) && !sig.has_receiver
                ==> r is Ok && r->Ok_0.functions.len() == product(section_sizes(secs)).len()
        }),
{
    law_replace_errors_justified(ps, secs);
    law_replace_errors_complete(ps, secs);
    let replaceable = forall|i: int| 0 <= i < ps.len() && (#[trigger] ps[i]).position != Position::Other
        ==> spec_outcome(ps[i], secs) is Ok;
    if !replaceable {
        let i = choose|i: int| !(0 <= i < ps.len() && (#[trigger] ps[i]).position != Position::Other
            ==> spec_outcome(ps[i], secs) is Ok);
        assert(0 <= i < ps.len() && ps[i].position != Position::Other && spec_outcome(ps[i], secs) is Err);
    }
}

// ---------------------------------------------------------------------------
// Names

/// The value of a text of decimal digits.
pub open spec fn decimal_value(s: Seq<char>) -> int
    decreases s.len(),
{
    if s.len() == 0 {
        0
    } else {
        decimal_value(s.drop_last()) * 10 + (s.last() as int - 48)
    }
}

/// The decimal notation of `n` is made of digits, has no leading zero, and reads back as `n`.
pub proof fn law_decimal(n: nat)
    ensures
        spec_decimal(n).len() > 0,
        forall|i: int| 0 <= i < spec_decimal(n).len() ==> 48 <= (#[trigger] spec_decimal(n)[i]) as int <= 57,
        n > 0 ==> spec_decimal(n)[0] != '0',
        decimal_value(spec_decimal(n)) == n,
    decreases n,
{
    let d = spec_decimal(n);
    assert(spec_digit(n % 10) as int - 48 == n % 10);
    if n < 10 {
        assert(d.drop_last() =~= Seq::<char>::empty());
        assert(decimal_value(d.drop_last()) == 0);
    }
    if n >= 10 {
        law_decimal(n / 10);
        let h = spec_decimal(n / 10);
        assert(d.drop_last() =~= h);
        assert forall|i: int| 0 <= i < d.len() implies 48 <= (#[trigger] d[i]) as int <= 57 by {
            if i < d.len() - 1 {
                assert(d[i] == h[i]);
            }
        }
        assert(d[0] == h[0]);
        assert(d.last() == spec_digit(n % 10));
        assert((n / 10) * 10 + n % 10 == n);
    }
}

/// The number of unnamed variants among `items`.
pub open spec fn count_unnamed(items: Seq<Option<String>>) -> nat {
    items.filter(|x: Option<String>| x is None).len()
}

proof fn lemma_nameless_count(items: Seq<Option<String>>)
    ensures
        nameless_count(items) == count_unnamed(items),
    decreases items.len(),
{
    reveal(Seq::filter);
    if items.len() > 0 {
        lemma_nameless_count(items.drop_last());
    }
}

/// A variant written with a name keeps it; an unnamed variant is called `v`
/// followed by the number of unnamed variants before it.
pub proof fn law_variant_names(items: Seq<Option<String>>)
    ensures
        variant_names(items).len() == items.len(),
        forall|j: int| 0 <= j < items.len() && (#[trigger] items[j]) is Some ==> variant_names(items)[j] == items[j]->Some_0@,
        forall|j: int| 0 <= j < items.len() && (#[trigger] items[j]) is None
            ==> variant_names(items)[j] == seq!['v'] + spec_decimal(count_unnamed(items.take(j))),
{
    lemma_variant_names_prefix(items, 0);
    assert forall|j: int| 0 <= j < items.len() implies {
        &&& (#[trigger] items[j]) is Some ==> variant_names(items)[j] == items[j]->Some_0@
        &&& items[j] is None ==> variant_names(items)[j] == seq!['v'] + spec_decimal(count_unnamed(items.take(j)))
    } by {
        let t = items.take(j + 1);
        lemma_variant_names_prefix(items, j + 1);
        assert(variant_names(items)[j] == variant_names(t)[j]);
        assert(t.drop_last() =~= items.take(j));
        assert(t.last() == items[j]);
        lemma_variant_names_prefix(t, j);
        lemma_nameless_count(items.take(j));
    }
}

// ---------------------------------------------------------------------------
// Names

/// The module is called `__variants_` followed by the template's name, character
/// for character.
pub proof fn law_module_name(fn_name: Seq<char>)
    ensures
        spec_module_name(fn_name).len() == 11 + fn_name.len(),
        spec_module_name(fn_name).take(11) == seq!['_', '_', 'v', 'a', 'r', 'i', 'a', 'n', 't', 's', '_'],
        spec_module_name(fn_name).skip(11) == fn_name,
{
    assert(spec_module_name(fn_name).take(11) =~= seq!['_', '_', 'v', 'a', 'r', 'i', 'a', 'n', 't', 's', '_']);
    assert(spec_module_name(fn_name).skip(11) =~= fn_name);
}

/// A generated function is called `__`, the template's name character for
/// character, `_`, then the chosen variants' names; with one variant that is its
/// name, character for character.
pub proof fn law_function_name(fn_name: Seq<char>, variants: Seq<Seq<char>>)
    ensures
        spec_function_name(fn_name, variants).take(2) == seq!['_', '_'],
        spec_function_name(fn_name, variants).subrange(2, 2 + fn_name.len() as int) == fn_name,
        spec_function_name(fn_name, variants)[(2 + fn_name.len()) as int] == '_',
        variants.len() == 0 ==> spec_function_name(fn_name, variants).len() == 3 + fn_name.len(),
        variants.len() == 1 ==> spec_function_name(fn_name, variants).skip(3 + fn_name.len() as int) == variants[0],
        variants.len() >= 2 ==> spec_function_name(fn_name, variants) == spec_function_name(fn_name, variants.drop_last())
            + seq!['_'] + variants.last(),
{
    let r = spec_function_name(fn_name, variants);
    assert(r.take(2) =~= seq!['_', '_']);
    assert(r.subrange(2, 2 + fn_name.len() as int) =~= fn_name);
    if variants.len() == 1 {
        assert(r.skip(3 + fn_name.len() as int) =~= variants[0]);
    }
    if variants.len() >= 2 {
        assert(r =~= spec_function_name(fn_name, variants.drop_last()) + seq!['_'] + variants.last());
    }
}

// ---------------------------------------------------------------------------
// Checking the sections

proof fn lemma_distinct_no_duplicate(names: Seq<Seq<char>>)
    requires
        names_distinct(names),
    ensures
        first_duplicate(names) is None,
    decreases names.len(),
{
    if names.len() > 0 {
        let t = names.drop_last();
        assert(names_distinct(t)) by {
            assert forall|i: int, j: int| 0 <= i < j < t.len() implies t[i] != t[j] by {
                assert(t[i] == names[i] && t[j] == names[j]);
            }
        }
        lemma_distinct_no_duplicate(t);
        if t.contains(names.last()) {
            let i = choose|i: int| 0 <= i < t.len() && t[i] == names.last();
            assert(names[i] == names[names.len() - 1]);
        }
    }
}

proof fn lemma_first_duplicate_repeats(names: Seq<Seq<char>>)
    ensures
        first_duplicate(names) matches Some(v) ==> v < names.len() && names.take(v as int).contains(names[v as int]),
    decreases names.len(),
{
    if names.len() > 0 {
        let t = names.drop_last();
        lemma_first_duplicate_repeats(t);
        match first_duplicate(t) {
            Some(v) => {
                assert(t.take(v as int) =~= names.take(v as int));
                assert(t[v as int] == names[v as int]);
            },
            None => {
                assert(names.take(names.len() - 1) =~= t);
            },
        }
    }
}

/// Sections whose names are new, which have variants, which a placeholder names,
/// and whose variant names are distinct within each section, check out, whatever
/// names other sections give their variants; each keeps its name, gets its
/// group's kind, and keeps its variants' names in order.
pub proof fn law_valid_sections_accepted(m: Map<Seq<char>, VariantKind>, raw: Seq<RawSection>)
    requires
        forall|i: int, j: int| 0 <= i < j < raw.len() ==> (#[trigger] raw[i]).name@ != (#[trigger] raw[j]).name@,
        forall|j: int| 0 <= j < raw.len() ==> (#[trigger] raw[j]).variants@.len() > 0,
        forall|j: int| 0 <= j < raw.len() ==> m.contains_key((#[trigger] raw[j]).name@),
        forall|j: int| 0 <= j < raw.len() ==> names_distinct(variant_names((#[trigger] raw[j]).variants@)),
    ensures
        spec_sections(m, raw) is Ok,
        spec_sections(m, raw)->Ok_0.len() == raw.len(),
        forall|j: int| 0 <= j < raw.len() ==> {
            let s = #[trigger] spec_sections(m, raw)->Ok_0[j];
            &&& s.name == raw[j].name@
            &&& s.kind == m[raw[j].name@]
            &&& s.variants == variant_names(raw[j].variants@)
        },
    decreases raw.len(),
{
    if raw.len() > 0 {
        let t = raw.drop_last();
        assert forall|i: int, j: int| 0 <= i < j < t.len() implies (#[trigger] t[i]).name@ != (#[trigger] t[j]).name@ by {
            assert(t[i] == raw[i] && t[j] == raw[j]);
        }
        assert forall|j: int| 0 <= j < t.len() implies (#[trigger] t[j]).variants@.len() > 0 && m.contains_key(t[j].name@)
            && names_distinct(variant_names(t[j].variants@)) by {
            assert(t[j] == raw[j]);
        }
        law_valid_sections_accepted(m, t);
        let prev = spec_sections(m, t)->Ok_0;
        let r = raw.last();
        let i = raw.len() - 1;
        assert(raw[i] == r);
        assert(!exists|j: int| 0 <= j < prev.len() && prev[j].name == r.name@) by {
            if exists|j: int| 0 <= j < prev.len() && prev[j].name == r.name@ {
                let j = choose|j: int| 0 <= j < prev.len() && prev[j].name == r.name@;
                assert(prev[j].name == t[j].name@);
                assert(t[j] == raw[j]);
            }
        }
        lemma_distinct_no_duplicate(variant_names(r.variants@));
        let secs = spec_sections(m, raw)->Ok_0;
        assert forall|j: int| 0 <= j < raw.len() implies {
            let s = #[trigger] secs[j];
            &&& s.name == raw[j].name@
            &&& s.kind == m[raw[j].name@]
            &&& s.variants == variant_names(raw[j].variants@)
        } by {
            if j < raw.len() - 1 {
                assert(secs[j] == prev[j]);
                assert(t[j] == raw[j]);
            }
        }
    }
}

/// The section that an error names shows the error's cause.
pub open spec fn section_error_justified(m: Map<Seq<char>, VariantKind>, raw: Seq<RawSection>, e: SectionError) -> bool {
    match e {
        SectionError::DuplicateSection { section } => section < raw.len()
            && exists|j: int| 0 <= j < section && (#[trigger] raw[j]).name@ == raw[section as int].name@,
        SectionError::EmptySection { section } => section < raw.len() && raw[section as int].variants@.len() == 0,
        SectionError::UnmappedSection { section } => section < raw.len() && !m.contains_key(raw[section as int].name@),
        SectionError::DuplicateVariant { section, variant } => section < raw.len()
            && variant < raw[section as int].variants@.len()
            && variant_names(raw[section as int].variants@).take(variant as int).contains(
                variant_names(raw[section as int].variants@)[variant as int]),
    }
}

/// Every section error is justified by the section it names: its name was used by
/// an earlier section, it has no variants, no placeholder names it, or the variant
/// it names repeats an earlier variant name of the same section.
pub proof fn law_section_errors_justified(m: Map<Seq<char>, VariantKind>, raw: Seq<RawSection>)
    requires
        raw.len() <= usize::MAX,
        forall|j: int| 0 <= j < raw.len() ==> (#[trigger] raw[j]).variants@.len() <= usize::MAX,
    ensures
        spec_sections(m, raw) matches Err(e) ==> section_error_justified(m, raw, e),
    decreases raw.len(),
{
    if raw.len() > 0 {
        let t = raw.drop_last();
        assert forall|j: int| 0 <= j < t.len() implies (#[trigger] t[j]).variants@.len() <= usize::MAX by {
            assert(t[j] == raw[j]);
        }
        law_section_errors_justified(m, t);
        let i = raw.len() - 1;
        assert(raw[i] == raw.last());
        match spec_sections(m, t) {
            Err(e) => {
                assert(section_error_justified(m, t, e));
                assert(spec_sections(m, raw) == Err::<Seq<SectionView>, SectionError>(e));
                match e {
                    SectionError::DuplicateSection { section } => {
                        let j = choose|j: int| 0 <= j < section && (#[trigger] t[j]).name@ == t[section as int].name@;
                        assert(t[j] == raw[j]);
                        assert(t[section as int] == raw[section as int]);
                    },
                    SectionError::EmptySection { section } => {
                        assert(t[section as int] == raw[section as int]);
                    },
                    SectionError::UnmappedSection { section } => {
                        assert(t[section as int] == raw[section as int]);
                    },
                    SectionError::DuplicateVariant { section, variant } => {
                        assert(t[section as int] == raw[section as int]);
                    },
                }
                assert(section_error_justified(m, raw, e));
            },
            Ok(prev) => {
                lemma_sections_kinds(m, t);
                let r = raw.last();
                if exists|j: int| 0 <= j < prev.len() && prev[j].name == r.name@ {
                    let j = choose|j: int| 0 <= j < prev.len() && prev[j].name == r.name@;
                    assert(prev[j].name == t[j].name@);
                    assert(t[j] == raw[j]);
                    assert(raw[j].name@ == raw[i].name@);
                    assert(section_error_justified(m, raw, spec_sections(m, raw)->Err_0));
                } else {
                    let names = variant_names(r.variants@);
                    lemma_first_duplicate_repeats(names);
                    crate::sections::lemma_variant_names_prefix(r.variants@, 0);
                    assert(names.len() == r.variants@.len());
                    if r.variants@.len() > 0 && m.contains_key(r.name@) && first_duplicate(names) is Some {
                        let v = first_duplicate(names)->Some_0;
                        assert(spec_sections(m, raw) == Err::<Seq<SectionView>, SectionError>(
                            SectionError::DuplicateVariant { section: i as usize, variant: v as usize }));
                        assert(v < names.len());
                        assert(names.take(v as int).contains(names[v as int]));
                    }
                }
            },
        }
    }
}

} // verus!
