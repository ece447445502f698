use vstd::prelude::*;

use crate::model::{
    Delimiter, FnSignature, MozartError, MozartErrorView, Placeholder, PlaceholderError,
    PlaceholderErrorKind, Position, VariantKind,
};
use crate::names::{
    function_name, module_name, name_order, sorted_order, spec_function_name, views_of,
    spec_module_name,
};
use crate::product::{cartesian_product, choice_ok, choices_view, lemma_product, product};
use crate::sections::{section_names, sections_distinct, sections_view, Section, SectionView};

verus! {

/// How a chosen variant takes a placeholder's place: as an expression, as a type,
/// as a statement, or as an expression statement ended by `;`.
#[derive(Clone, Copy, Debug, PartialEq, Eq, Structural)]
pub enum Form {
    Expr,
    Type,
    Stmt,
    StmtWithSemicolon,
}

/// Placeholder `placeholder` becomes variant `variant` of section `section`, in the given form.
#[derive(Clone, Copy, Debug, PartialEq, Eq, Structural)]
pub struct Substitution {
    pub placeholder: usize,
    pub section: usize,
    pub variant: usize,
    pub form: Form,
}

/// One generated function: its name, the variant chosen in each section (in
/// section order), and what each replaced placeholder becomes (in template order).
#[derive(Clone, Debug, PartialEq, Eq)]
pub struct PlannedFunction {
    pub name: String,
    pub choice: Vec<usize>,
    pub substitutions: Vec<Substitution>,
}

pub ghost struct PlannedFunctionView {
    pub name: Seq<char>,
    pub choice: Seq<usize>,
    pub substitutions: Seq<Substitution>,
}

impl View for PlannedFunction {
    type V = PlannedFunctionView;

    open spec fn view(&self) -> PlannedFunctionView {
        PlannedFunctionView { name: self.name@, choice: self.choice@, substitutions: self.substitutions@ }
    }
}

/// All generated functions, in the order of the combinations, and the module that holds them.
#[derive(Clone, Debug, PartialEq, Eq)]
pub struct Plan {
    pub module_name: String,
    pub functions: Vec<PlannedFunction>,
}

pub ghost struct PlanView {
    pub module_name: Seq<char>,
    pub functions: Seq<PlannedFunctionView>,
}

impl View for Plan {
    type V = PlanView;

    open spec fn view(&self) -> PlanView {
        PlanView { module_name: self.module_name@, functions: self.functions@.map_values(|f: PlannedFunction| f@) }
    }
}

/// The first section from `j` on with the given name.
pub open spec fn find_section_from(secs: Seq<SectionView>, name: Seq<char>, j: int) -> Option<usize>
    decreases secs.len() - j,
{
    if j < 0 || j >= secs.len() {
        None
    } else if secs[j].name == name {
        Some(j as usize)
    } else {
        find_section_from(secs, name, j + 1)
    }
}

pub open spec fn find_section(secs: Seq<SectionView>, name: Seq<char>) -> Option<usize> {
    find_section_from(secs, name, 0)
}

/// What a placeholder in expression, type or statement position becomes: the
/// section it names and the form of the replacement, or the error it raises.
pub open spec fn spec_outcome(p: Placeholder, secs: Seq<SectionView>) -> Result<(usize, Form), PlaceholderErrorKind> {
    match p.name {
        None => Err(PlaceholderErrorKind::NameParse),
        Some(n) => match find_section(secs, n@) {
            None => Err(
                match p.position {
                    Position::Expr => PlaceholderErrorKind::UnknownExprGroup,
                    Position::Type => PlaceholderErrorKind::UnknownTypeGroup,
                    _ => PlaceholderErrorKind::UnknownStmtGroup,
                },
            ),
            Some(s) => match p.position {
                Position::Expr => match p.delimiter {
                    Delimiter::Bracket => Ok((s, Form::Expr)),
                    Delimiter::Paren => Err(PlaceholderErrorKind::TypeVariantInExpr),
                    Delimiter::Brace => if secs[s as int].kind == VariantKind::Block {
                        Ok((s, Form::Expr))
                    } else {
                        Err(PlaceholderErrorKind::BlockKindMismatch)
                    },
                },
                Position::Type => match p.delimiter {
                    Delimiter::Paren => Ok((s, Form::Type)),
                    _ => Err(PlaceholderErrorKind::NonTypeInType),
                },
                _ => match p.delimiter {
                    Delimiter::Brace => Ok((s, Form::Stmt)),
                    Delimiter::Bracket => Ok((s, Form::StmtWithSemicolon)),
                    Delimiter::Paren => Err(PlaceholderErrorKind::TypeVariantInStmt),
                },
            },
        },
    }
}

/// The replacement cannot be built from a variant of its section's kind: a type
/// variant as an expression or statement, or a non-type variant as a type.
pub open spec fn spec_kind_clash(p: Placeholder, secs: Seq<SectionView>) -> bool {
    p.position != Position::Other && match spec_outcome(p, secs) {
        Ok((s, f)) => {
            let k = secs[s as int].kind;
            ||| (f == Form::Expr || f == Form::Stmt || f == Form::StmtWithSemicolon) && k == VariantKind::Type
            ||| f == Form::Type && k != VariantKind::Type
        },
        Err(_) => false,
    }
}

/// No placeholder asks for a variant of a kind its section does not have.
pub open spec fn kinds_agree(ps: Seq<Placeholder>, secs: Seq<SectionView>) -> bool {
    forall|i: int| 0 <= i < ps.len() ==> !spec_kind_clash(#[trigger] ps[i], secs)
}

/// The errors raised while replacing the placeholders, in template order; they do
/// not depend on which variants are chosen.
pub open spec fn spec_replace_errors(ps: Seq<Placeholder>, secs: Seq<SectionView>) -> Seq<PlaceholderError>
    decreases ps.len(),
{
    if ps.len() == 0 {
        Seq::empty()
    } else {
        let prev = spec_replace_errors(ps.drop_last(), secs);
        let p = ps.last();
        if p.position != Position::Other && spec_outcome(p, secs) is Err {
            prev.push(PlaceholderError { placeholder: (ps.len() - 1) as usize, kind: spec_outcome(p, secs)->Err_0 })
        } else {
            prev
        }
    }
}

/// The substitutions of the replaced placeholders, in template order, for the
/// given choice of variants.
pub open spec fn spec_substitutions(ps: Seq<Placeholder>, secs: Seq<SectionView>, choice: Seq<usize>) -> Seq<Substitution>
    decreases ps.len(),
{
    if ps.len() == 0 {
        Seq::empty()
    } else {
        let prev = spec_substitutions(ps.drop_last(), secs, choice);
        let p = ps.last();
        if p.position != Position::Other && spec_outcome(p, secs) is Ok {
            let (s, f) = spec_outcome(p, secs)->Ok_0;
            prev.push(Substitution { placeholder: (ps.len() - 1) as usize, section: s, variant: choice[s as int], form: f })
        } else {
            prev
        }
    }
}

pub open spec fn section_sizes(secs: Seq<SectionView>) -> Seq<usize> {
    secs.map_values(|s: SectionView| s.variants.len() as usize)
}

/// The names of the chosen variants, ordered by the names of their sections.
pub open spec fn chosen_names(secs: Seq<SectionView>, choice: Seq<usize>) -> Seq<Seq<char>> {
    let o = name_order(section_names(secs));
    Seq::new(o.len(), |k: int| secs[o[k] as int].variants[choice[o[k] as int] as int])
}

pub open spec fn spec_planned_function(
    sig: FnSignature,
    ps: Seq<Placeholder>,
    secs: Seq<SectionView>,
    choice: Seq<usize>,
) -> PlannedFunctionView {
    PlannedFunctionView {
        name: spec_function_name(sig.name@, chosen_names(secs, choice)),
        choice: choice,
        substitutions: spec_substitutions(ps, secs, choice),
    }
}

/// The composition of the checked sections: one function per combination of
/// variants, unless the template is generic or async, a placeholder cannot be
/// replaced, or the template is a method.
pub open spec fn spec_compose(sig: FnSignature, ps: Seq<Placeholder>, secs: Seq<SectionView>) -> Result<PlanView, MozartErrorView> {
    let combos = product(section_sizes(secs));
    if sig.has_generics {
        Err(MozartErrorView::GenericFunction)
    } else if sig.is_async {
        Err(MozartErrorView::AsyncFunction)
    } else if combos.len() > 0 && spec_replace_errors(ps, secs).len() > 0 {
        Err(MozartErrorView::Replace(spec_replace_errors(ps, secs)))
    } else if sig.has_receiver {
        Err(MozartErrorView::Method)
    } else {
        Ok(PlanView {
            module_name: spec_module_name(sig.name@),
            functions: Seq::new(combos.len(), |k: int| spec_planned_function(sig, ps, secs, combos[k])),
        })
    }
}

fn find_section_exec(sections: &Vec<Section>, name: &String) -> (r: Option<usize>)
    ensures
        r == find_section(sections_view(sections@), name@),
{
    let ghost secs = sections_view(sections@);
    let mut j: usize = 0;
    while j < sections.len()
        invariant
            j <= sections@.len(),
            secs == sections_view(sections@),
            find_section(secs, name@) == find_section_from(secs, name@, j as int),
        decreases sections@.len() - j,
    {
        if sections[j].name == *name {
            return Some(j);
        }
        j = j + 1;
    }
    None
}

/// What a placeholder in expression, type or statement position becomes.
pub fn outcome(p: &Placeholder, sections: &Vec<Section>) -> (r: Result<(usize, Form), PlaceholderErrorKind>)
    ensures
        r == spec_outcome(*p, sections_view(sections@)),
        r matches Ok((s, _)) ==> s < sections@.len(),
{
    let ghost secs = sections_view(sections@);
    match &p.name {
        None => Err(PlaceholderErrorKind::NameParse),
        Some(n) => match find_section_exec(sections, n) {
            None => Err(
                match p.position {
                    Position::Expr => PlaceholderErrorKind::UnknownExprGroup,
                    Position::Type => PlaceholderErrorKind::UnknownTypeGroup,
                    _ => PlaceholderErrorKind::UnknownStmtGroup,
                },
            ),
            Some(s) => {
                // The number of sections fits in a usize, as the index found must.
                let _count = sections.len();
                proof {
                    lemma_find_section_bound(secs, n@, 0);
                }
                match p.position {
                    Position::Expr => match p.delimiter {
                        Delimiter::Bracket => Ok((s, Form::Expr)),
                        Delimiter::Paren => Err(PlaceholderErrorKind::TypeVariantInExpr),
                        Delimiter::Brace => if sections[s].kind == VariantKind::Block {
                            Ok((s, Form::Expr))
                        } else {
                            Err(PlaceholderErrorKind::BlockKindMismatch)
                        },
                    },
                    Position::Type => match p.delimiter {
                        Delimiter::Paren => Ok((s, Form::Type)),
                        _ => Err(PlaceholderErrorKind::NonTypeInType),
                    },
                    _ => match p.delimiter {
                        Delimiter::Brace => Ok((s, Form::Stmt)),
                        Delimiter::Bracket => Ok((s, Form::StmtWithSemicolon)),
                        Delimiter::Paren => Err(PlaceholderErrorKind::TypeVariantInStmt),
                    },
                }
            },
        },
    }
}

pub proof fn lemma_find_section_bound(secs: Seq<SectionView>, name: Seq<char>, j: int)
    requires
        secs.len() <= usize::MAX,
    ensures
        find_section_from(secs, name, j) matches Some(s) ==> j <= s < secs.len() && secs[s as int].name == name,
    decreases secs.len() - j,
{
    if 0 <= j < secs.len() && secs[j].name != name {
        lemma_find_section_bound(secs, name, j + 1);
    }
}

/// Whether some placeholder asks for a variant of a kind its section does not have.
pub fn check_kinds_agree(placeholders: &Vec<Placeholder>, sections: &Vec<Section>) -> (r: bool)
    ensures
        r == kinds_agree(placeholders@, sections_view(sections@)),
{
    let ghost secs = sections_view(sections@);
    let mut i: usize = 0;
    while i < placeholders.len()
        invariant
            i <= placeholders@.len(),
            secs == sections_view(sections@),
            forall|j: int| 0 <= j < i ==> !spec_kind_clash(#[trigger] placeholders@[j], secs),
        decreases placeholders@.len() - i,
    {
        let p = &placeholders[i];
        if p.position != Position::Other {
            match outcome(p, sections) {
                Ok((s, f)) => {
                    let k = sections[s].kind;
                    let clash = ((f == Form::Expr || f == Form::Stmt || f == Form::StmtWithSemicolon) && k == VariantKind::Type)
                        || (f == Form::Type && k != VariantKind::Type);
                    if clash {
                        return false;
                    }
                },
                Err(_) => {},
            }
        }
        i = i + 1;
    }
    true
}

/// Decides what each placeholder becomes for one choice of variants, and collects
/// the errors of the placeholders that cannot be replaced.
pub fn replace_placeholders(placeholders: &Vec<Placeholder>, sections: &Vec<Section>, choice: &Vec<usize>) -> (r: (
    Vec<Substitution>,
    Vec<PlaceholderError>,
))
    requires
        choice_ok(section_sizes(sections_view(sections@)), choice@),
    ensures
        r.0@ == spec_substitutions(placeholders@, sections_view(sections@), choice@),
        r.1@ == spec_replace_errors(placeholders@, sections_view(sections@)),
{
    let ghost secs = sections_view(sections@);
    let mut subs: Vec<Substitution> = Vec::new();
    let mut errs: Vec<PlaceholderError> = Vec::new();
    let mut i: usize = 0;
    while i < placeholders.len()
        invariant
            i <= placeholders@.len(),
            secs == sections_view(sections@),
            choice_ok(section_sizes(secs), choice@),
            subs@ == spec_substitutions(placeholders@.take(i as int), secs, choice@),
            errs@ == spec_replace_errors(placeholders@.take(i as int), secs),
        decreases placeholders@.len() - i,
    {
        proof {
            assert(placeholders@.take(i + 1).drop_last() =~= placeholders@.take(i as int));
            assert(placeholders@.take(i + 1).last() == placeholders@[i as int]);
        }
        let p = &placeholders[i];
        if p.position != Position::Other {
            match outcome(p, sections) {
                Ok((s, f)) => {
                    proof {
                        assert(section_sizes(secs)[s as int] == secs[s as int].variants.len() as usize);
                    }
                    subs.push(Substitution { placeholder: i, section: s, variant: choice[s], form: f });
                },
                Err(k) => {
                    errs.push(PlaceholderError { placeholder: i, kind: k });
                },
            }
        }
        i = i + 1;
    }
    proof {
        assert(placeholders@.take(placeholders@.len() as int) =~= placeholders@);
    }
    (subs, errs)
}

fn copy_indices(v: &Vec<usize>) -> (r: Vec<usize>)
    ensures
        r@ == v@,
{
    let mut r: Vec<usize> = Vec::new();
    let mut i: usize = 0;
    while i < v.len()
        invariant
            i <= v@.len(),
            r@ == v@.take(i as int),
        decreases v@.len() - i,
    {
        r.push(v[i]);
        i = i + 1;
        proof {
            assert(r@ =~= v@.take(i as int));
        }
    }
    proof {
        assert(v@.take(v@.len() as int) =~= v@);
    }
    r
}

/// Plans the generated functions: one per combination of variants, in the order
/// of the combinations, each named after its chosen variants and with every
/// placeholder replaced by the variant chosen for its group.
pub fn compose(sig: &FnSignature, placeholders: &Vec<Placeholder>, sections: &Vec<Section>) -> (r: Result<Plan, MozartError>)
    requires
        sections_distinct(sections_view(sections@)),
        kinds_agree(placeholders@, sections_view(sections@)),
    ensures
        match spec_compose(*sig, placeholders@, sections_view(sections@)) {
            Ok(p) => r matches Ok(q) && q@ == p,
            Err(e) => r matches Err(f) && f@ == e,
        },
{
    let ghost secs = sections_view(sections@);
    let mut sizes: Vec<usize> = Vec::new();
    let mut names: Vec<String> = Vec::new();
    let mut i: usize = 0;
    while i < sections.len()
        invariant
            i <= sections@.len(),
            secs == sections_view(sections@),
            sizes@ == section_sizes(secs).take(i as int),
            views_of(names@) == section_names(secs).take(i as int),
        decreases sections@.len() - i,
    {
        let ghost old_names = names@;
        sizes.push(sections[i].variants.len());
        names.push(sections[i].name.clone());
        proof {
            assert(views_of(names@) =~= views_of(old_names).push(sections@[i as int].name@));
            assert(section_names(secs)[i as int] == sections@[i as int].name@);
            assert(section_sizes(secs)[i as int] == sections@[i as int].variants@.len() as usize);
        }
        i = i + 1;
        proof {
            assert(sizes@ =~= section_sizes(secs).take(i as int));
            assert(views_of(names@) =~= section_names(secs).take(i as int));
        }
    }
    proof {
        assert(sizes@ =~= section_sizes(secs));
        assert(views_of(names@) =~= section_names(secs));
    }
    let combos = cartesian_product(&sizes);
    let ghost cv = choices_view(combos@);
    proof {
        lemma_product(sizes@);
    }
    if sig.has_generics {
        return Err(MozartError::GenericFunction);
    }
    if sig.is_async {
        return Err(MozartError::AsyncFunction);
    }
    let order = sorted_order(&names);
    let ghost o = order@;
    let mut functions: Vec<PlannedFunction> = Vec::new();
    let mut k: usize = 0;
    while k < combos.len()
        invariant
            k <= combos@.len(),
            secs == sections_view(sections@),
            cv == choices_view(combos@),
            cv == product(section_sizes(secs)),
            forall|c: Seq<usize>| #[trigger] product(section_sizes(secs)).contains(c) <==> choice_ok(section_sizes(secs), c),
            o == order@,
            o == name_order(section_names(secs)),
            o.len() == secs.len(),
            forall|t: int| 0 <= t < o.len() ==> #[trigger] o[t] < secs.len(),
            !sig.has_generics,
            !sig.is_async,
            k > 0 ==> spec_replace_errors(placeholders@, secs).len() == 0,
            functions@.len() == k,
            forall|t: int| 0 <= t < k ==> #[trigger] functions@[t]@ == spec_planned_function(*sig, placeholders@, secs, cv[t]),
        decreases combos@.len() - k,
    {
        let choice = &combos[k];
        proof {
            assert(cv[k as int] == choice@);
            assert(product(section_sizes(secs)).contains(cv[k as int]));
        }
        let (subs, errs) = replace_placeholders(placeholders, sections, choice);
        if errs.len() > 0 {
            return Err(MozartError::Replace(errs));
        }
        let mut chosen: Vec<String> = Vec::new();
        let mut t: usize = 0;
        while t < order.len()
            invariant
                t <= order@.len(),
                o == order@,
                o == name_order(section_names(secs)),
                o.len() == secs.len(),
                secs == sections_view(sections@),
                forall|u: int| 0 <= u < o.len() ==> #[trigger] o[u] < secs.len(),
                choice_ok(section_sizes(secs), choice@),
                views_of(chosen@) == chosen_names(secs, choice@).take(t as int),
            decreases order@.len() - t,
        {
            let s = order[t];
            proof {
                assert(section_sizes(secs)[s as int] == secs[s as int].variants.len() as usize);
            }
            let ghost old_chosen = chosen@;
            chosen.push(sections[s].variants[choice[s]].clone());
            proof {
                assert(views_of(chosen@) =~= views_of(old_chosen).push(sections@[s as int].variants@[choice@[s as int] as int]@));
                assert(secs[s as int].variants[choice@[s as int] as int] == sections@[s as int].variants@[choice@[s as int] as int]@);
                assert(chosen_names(secs, choice@)[t as int] == secs[s as int].variants[choice@[s as int] as int]);
            }
            t = t + 1;
            proof {
                assert(views_of(chosen@) =~= chosen_names(secs, choice@).take(t as int));
            }
        }
        proof {
            assert(views_of(chosen@) =~= chosen_names(secs, choice@));
        }
        let name = function_name(&sig.name, &chosen);
        let f = PlannedFunction { name, choice: copy_indices(choice), substitutions: subs };
        functions.push(f);
        proof {
            assert(functions@[k as int]@ == spec_planned_function(*sig, placeholders@, secs, cv[k as int]));
        }
        k = k + 1;
    }
    if sig.has_receiver {
        return Err(MozartError::Method);
    }
    let plan = Plan { module_name: module_name(&sig.name), functions };
    proof {
        assert(plan@.functions =~= Seq::new(cv.len(), |k: int| spec_planned_function(*sig, placeholders@, secs, cv[k])));
    }
    Ok(plan)
}

} // verus!
