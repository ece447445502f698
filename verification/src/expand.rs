use vstd::prelude::*;

use crate::compose::{
    compose, find_section, kinds_agree, lemma_find_section_bound, spec_compose, spec_kind_clash,
    spec_outcome, Plan, PlanView,
};
use crate::mapping::{build_mapping, spec_mapping_run};
use crate::model::{
    spec_kind_of_delimiter, FnSignature, MozartError, MozartErrorView, Placeholder,
    Position, VariantKind,
};
use crate::sections::{
    build_sections, first_duplicate, section_names, sections_distinct, spec_sections, variant_names,
    RawSection,
};

verus! {

/// The whole composition: collect the groups of the placeholders, check the
/// sections against them, then plan the generated functions.
pub open spec fn spec_mozart(sig: FnSignature, ps: Seq<Placeholder>, raw: Seq<RawSection>) -> Result<PlanView, MozartErrorView> {
    let (m, errs) = spec_mapping_run(ps);
    if errs.len() > 0 {
        Err(MozartErrorView::Mapping(errs))
    } else {
        match spec_sections(m, raw) {
            Err(e) => Err(MozartErrorView::Section(e)),
            Ok(secs) => spec_compose(sig, ps, secs),
        }
    }
}

/// When collecting the groups raised no error, every placeholder that names a
/// group gives it the kind of its delimiter.
pub proof fn lemma_mapping_kinds(ps: Seq<Placeholder>)
    requires
        spec_mapping_run(ps).1.len() == 0,
    ensures
        forall|i: int| #![trigger ps[i]] 0 <= i < ps.len() && ps[i].name is Some ==> {
            let n = ps[i].name->Some_0@;
            &&& spec_mapping_run(ps).0.contains_key(n)
            &&& spec_mapping_run(ps).0[n] == spec_kind_of_delimiter(ps[i].delimiter)
        },
    decreases ps.len(),
{
    if ps.len() > 0 {
        let t = ps.drop_last();
        let prev = spec_mapping_run(t);
        let p = ps.last();
        assert(prev.1.len() == 0) by {
            if prev.1.len() > 0 {
                assert(spec_mapping_run(ps).1.len() >= prev.1.len());
            }
        }
        lemma_mapping_kinds(t);
        assert forall|i: int| #![trigger ps[i]] 0 <= i < ps.len() && ps[i].name is Some implies {
            let n = ps[i].name->Some_0@;
            &&& spec_mapping_run(ps).0.contains_key(n)
            &&& spec_mapping_run(ps).0[n] == spec_kind_of_delimiter(ps[i].delimiter)
        } by {
            if i < ps.len() - 1 {
                assert(t[i] == ps[i]);
            }
        }
    }
}

/// When the sections check out, they have distinct names, a placeholder names
/// each of them, and each has the kind of its group.
pub proof fn lemma_sections_kinds(m: Map<Seq<char>, VariantKind>, raw: Seq<RawSection>)
    requires
        spec_sections(m, raw) is Ok,
    ensures
        ({
            let secs = spec_sections(m, raw)->Ok_0;
            &&& secs.len() == raw.len()
            &&& sections_distinct(secs)
            &&& forall|j: int| 0 <= j < secs.len() ==> m.contains_key(#[trigger] secs[j].name) && secs[j].kind == m[secs[j].name]
            &&& forall|j: int| 0 <= j < secs.len() ==> (#[trigger] secs[j]).variants == variant_names(raw[j].variants@)
                && first_duplicate(secs[j].variants) is None && secs[j].name == raw[j].name@
        }),
    decreases raw.len(),
{
    if raw.len() > 0 {
        lemma_sections_kinds(m, raw.drop_last());
        let prev = spec_sections(m, raw.drop_last())->Ok_0;
        let secs = spec_sections(m, raw)->Ok_0;
        assert(secs == prev.push(secs.last()));
        assert forall|i: int, j: int| 0 <= i < j < secs.len() implies section_names(secs)[i] != section_names(secs)[j] by {
            if j == secs.len() - 1 {
                assert(secs[i] == prev[i]);
                assert(section_names(secs)[i] == prev[i].name);
            } else {
                assert(section_names(prev)[i] == section_names(secs)[i]);
                assert(section_names(prev)[j] == section_names(secs)[j]);
            }
        }
        assert forall|j: int| 0 <= j < secs.len() implies m.contains_key(#[trigger] secs[j].name) && secs[j].kind == m[secs[j].name] by {
            if j < secs.len() - 1 {
                assert(secs[j] == prev[j]);
            }
        }
        assert forall|j: int| 0 <= j < secs.len() implies (#[trigger] secs[j]).variants == variant_names(raw[j].variants@)
            && first_duplicate(secs[j].variants) is None && secs[j].name == raw[j].name@ by {
            if j < secs.len() - 1 {
                assert(secs[j] == prev[j]);
                assert(raw.drop_last()[j] == raw[j]);
            }
        }
    }
}

/// After the groups were collected without error and the sections checked out,
/// no placeholder asks for a variant of a kind its section does not have: the
/// replacement never meets a type where it needs an expression, or the reverse.
pub proof fn lemma_kinds_agree(ps: Seq<Placeholder>, raw: Seq<RawSection>)
    requires
        spec_mapping_run(ps).1.len() == 0,
        spec_sections(spec_mapping_run(ps).0, raw) is Ok,
        raw.len() <= usize::MAX,
    ensures
        kinds_agree(ps, spec_sections(spec_mapping_run(ps).0, raw)->Ok_0),
        sections_distinct(spec_sections(spec_mapping_run(ps).0, raw)->Ok_0),
{
    let m = spec_mapping_run(ps).0;
    let secs = spec_sections(m, raw)->Ok_0;
    lemma_mapping_kinds(ps);
    lemma_sections_kinds(m, raw);
    assert forall|i: int| 0 <= i < ps.len() implies !spec_kind_clash(#[trigger] ps[i], secs) by {
        let p = ps[i];
        if p.position != Position::Other && spec_outcome(p, secs) is Ok {
            let n = p.name->Some_0@;
            lemma_find_section_bound(secs, n, 0);
            let s = find_section(secs, n)->Some_0;
            assert(secs[s as int].name == n);
            assert(secs[s as int].kind == spec_kind_of_delimiter(p.delimiter));
        }
    }
}

/// Composes the function variants: checks the placeholders' groups, then the
/// sections, then plans one generated function per combination of variants.
pub fn mozart(sig: &FnSignature, placeholders: &Vec<Placeholder>, raw: &Vec<RawSection>) -> (r: Result<Plan, MozartError>)
    ensures
        match spec_mozart(*sig, placeholders@, raw@) {
            Ok(p) => r matches Ok(q) && q@ == p,
            Err(e) => r matches Err(f) && f@ == e,
        },
{
    let mapping = match build_mapping(placeholders) {
        Err(e) => {
            return Err(MozartError::Mapping(e));
        },
        Ok(m) => m,
    };
    // The number of sections fits in a usize, as the section indices must.
    let _count = raw.len();
    match build_sections(mapping, raw) {
        Err(e) => Err(MozartError::Section(e)),
        Ok(sections) => {
            proof {
                lemma_kinds_agree(placeholders@, raw@);
            }
            compose(sig, placeholders, &sections)
        },
    }
}

} // verus!
