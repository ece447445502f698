use vstd::prelude::*;

use crate::mapping::VariantMapping;
use crate::model::{SectionError, VariantKind};
use crate::names::{decimal, names_distinct, spec_decimal, views_of};

verus! {

/// A variant section as the input declares it: its name and, in order, its
/// variants, each with the name written before `=>` or none.
#[derive(Debug)]
pub struct RawSection {
    pub name: String,
    pub variants: Vec<Option<String>>,
}

/// A checked variant section: its name, the kind of its group, and the names of
/// its variants in declaration order.
#[derive(Debug)]
pub struct Section {
    pub name: String,
    pub kind: VariantKind,
    pub variants: Vec<String>,
}

pub ghost struct SectionView {
    pub name: Seq<char>,
    pub kind: VariantKind,
    pub variants: Seq<Seq<char>>,
}

impl View for Section {
    type V = SectionView;

    open spec fn view(&self) -> SectionView {
        SectionView { name: self.name@, kind: self.kind, variants: views_of(self.variants@) }
    }
}

pub open spec fn sections_view(s: Seq<Section>) -> Seq<SectionView> {
    s.map_values(|x: Section| x@)
}

pub open spec fn section_names(secs: Seq<SectionView>) -> Seq<Seq<char>> {
    secs.map_values(|s: SectionView| s.name)
}

/// The sections have distinct names.
pub open spec fn sections_distinct(secs: Seq<SectionView>) -> bool {
    names_distinct(section_names(secs))
}

/// The number of unnamed variants among `items`.
pub open spec fn nameless_count(items: Seq<Option<String>>) -> nat
    decreases items.len(),
{
    if items.len() == 0 {
        0
    } else {
        nameless_count(items.drop_last()) + if items.last() is None { 1nat } else { 0nat }
    }
}

/// The name an unnamed variant gets: `v` and the number of unnamed variants before it.
pub open spec fn nameless_name(count: nat) -> Seq<char> {
    seq!['v'] + spec_decimal(count)
}

/// The names of the variants: a written name is kept, the n-th unnamed variant
/// (counting from 0) is called `v` followed by n.
pub open spec fn variant_names(items: Seq<Option<String>>) -> Seq<Seq<char>>
    decreases items.len(),
{
    if items.len() == 0 {
        Seq::empty()
    } else {
        let prev = items.drop_last();
        variant_names(prev).push(
            match items.last() {
                Some(n) => n@,
                None => nameless_name(nameless_count(prev)),
            },
        )
    }
}

/// The first position whose name already occurs before it.
pub open spec fn first_duplicate(names: Seq<Seq<char>>) -> Option<nat>
    decreases names.len(),
{
    if names.len() == 0 {
        None
    } else {
        match first_duplicate(names.drop_last()) {
            Some(j) => Some(j),
            None => if names.drop_last().contains(names.last()) {
                Some((names.len() - 1) as nat)
            } else {
                None
            },
        }
    }
}

/// Checks section `i` after the sections `prev`: its name must be new, it must
/// have variants, a placeholder must name it, and its variant names must be
/// distinct.
pub open spec fn spec_section(
    m: Map<Seq<char>, VariantKind>,
    prev: Seq<SectionView>,
    i: nat,
    r: RawSection,
) -> Result<SectionView, SectionError> {
    if exists|j: int| 0 <= j < prev.len() && prev[j].name == r.name@ {
        Err(SectionError::DuplicateSection { section: i as usize })
    } else if r.variants@.len() == 0 {
        Err(SectionError::EmptySection { section: i as usize })
    } else if !m.contains_key(r.name@) {
        Err(SectionError::UnmappedSection { section: i as usize })
    } else {
        match first_duplicate(variant_names(r.variants@)) {
            Some(j) => Err(SectionError::DuplicateVariant { section: i as usize, variant: j as usize }),
            None => Ok(SectionView { name: r.name@, kind: m[r.name@], variants: variant_names(r.variants@) }),
        }
    }
}

/// Checks the sections in order and stops at the first error.
pub open spec fn spec_sections(m: Map<Seq<char>, VariantKind>, raw: Seq<RawSection>) -> Result<Seq<SectionView>, SectionError>
    decreases raw.len(),
{
    if raw.len() == 0 {
        Ok(Seq::empty())
    } else {
        match spec_sections(m, raw.drop_last()) {
            Err(e) => Err(e),
            Ok(prev) => match spec_section(m, prev, (raw.len() - 1) as nat, raw.last()) {
                Err(e) => Err(e),
                Ok(s) => Ok(prev.push(s)),
            },
        }
    }
}

pub proof fn lemma_variant_names_prefix(items: Seq<Option<String>>, k: int)
    requires
        0 <= k <= items.len(),
    ensures
        variant_names(items.take(k)) == variant_names(items).take(k),
        variant_names(items).len() == items.len(),
    decreases items.len(),
{
    if items.len() > 0 {
        lemma_variant_names_prefix(items.drop_last(), if k < items.len() { k } else { 0 });
    }
    if k == items.len() {
        assert(items.take(k) =~= items);
        assert(variant_names(items).take(k) =~= variant_names(items));
    } else {
        assert(items.drop_last().take(k) =~= items.take(k));
        assert(variant_names(items).take(k) =~= variant_names(items.drop_last()).take(k));
    }
}

pub proof fn lemma_first_duplicate_extend(names: Seq<Seq<char>>, k: int)
    requires
        0 <= k <= names.len(),
        first_duplicate(names.take(k)) is Some,
    ensures
        first_duplicate(names) == first_duplicate(names.take(k)),
    decreases names.len(),
{
    if k == names.len() {
        assert(names.take(k) =~= names);
    } else {
        assert(names.drop_last().take(k) =~= names.take(k));
        lemma_first_duplicate_extend(names.drop_last(), k);
    }
}

/// When the item at `j` is the first whose name repeats, that is the first duplicate of the section.
proof fn lemma_first_duplicate_prefix(items: Seq<Option<String>>, j: int)
    requires
        0 <= j < items.len(),
        first_duplicate(variant_names(items.take(j))) is None,
        variant_names(items.take(j)).contains(variant_names(items.take(j + 1)).last()),
    ensures
        first_duplicate(variant_names(items)) == Some(j as nat),
{
    let t = items.take(j + 1);
    assert(t.drop_last() =~= items.take(j));
    lemma_variant_names_prefix(t, j);
    assert(variant_names(t).drop_last() =~= variant_names(items.take(j)));
    assert(first_duplicate(variant_names(t)) == Some(j as nat));
    lemma_variant_names_prefix(items, j + 1);
    lemma_first_duplicate_extend(variant_names(items), j + 1);
}

pub proof fn lemma_sections_error_persists(m: Map<Seq<char>, VariantKind>, raw: Seq<RawSection>, k: int)
    requires
        0 <= k <= raw.len(),
        spec_sections(m, raw.take(k)) is Err,
    ensures
        spec_sections(m, raw) == spec_sections(m, raw.take(k)),
    decreases raw.len(),
{
    if k == raw.len() {
        assert(raw.take(k) =~= raw);
    } else {
        assert(raw.drop_last().take(k) =~= raw.take(k));
        lemma_sections_error_persists(m, raw.drop_last(), k);
    }
}

/// An error in section `i`, after the sections before it passed, is the error of all the sections.
proof fn lemma_take_prefix_error(m: Map<Seq<char>, VariantKind>, raw: Seq<RawSection>, i: int, e: SectionError)
    requires
        0 <= i < raw.len(),
        spec_sections(m, raw.take(i)) is Ok,
        spec_section(m, spec_sections(m, raw.take(i))->Ok_0, i as nat, raw[i]) == Err::<SectionView, SectionError>(e),
    ensures
        spec_sections(m, raw) == Err::<Seq<SectionView>, SectionError>(e),
{
    assert(raw.take(i + 1).drop_last() =~= raw.take(i));
    assert(raw.take(i + 1).last() == raw[i]);
    lemma_sections_error_persists(m, raw, i + 1);
}

/// Where a [`SectionParser`] stands: between sections, after a section's name, or
/// inside a section's variants.
#[derive(Clone, Copy, Debug, PartialEq, Eq, Structural)]
pub enum Phase {
    BetweenSections,
    AfterName,
    InVariants,
}

/// Checks the variant sections one step at a time, in the order in which they are
/// read, so that each error comes out where reading reaches it.
pub struct SectionParser {
    mapping: VariantMapping,
    sections: Vec<Section>,
    phase: Phase,
    name: String,
    kind: VariantKind,
    variants: Vec<String>,
    nameless: usize,
}

impl SectionParser {
    pub closed spec fn wf(&self) -> bool {
        &&& self.mapping.wf()
        &&& self.nameless <= self.variants@.len()
        &&& sections_distinct(sections_view(self.sections@))
        &&& self.phase != Phase::BetweenSections ==> forall|j: int|
            0 <= j < self.sections@.len() ==> #[trigger] self.sections@[j].name@ != self.name@
    }

    pub closed spec fn mapping(&self) -> Map<Seq<char>, VariantKind> {
        self.mapping@
    }

    /// The sections read so far.
    pub closed spec fn done(&self) -> Seq<SectionView> {
        sections_view(self.sections@)
    }

    pub closed spec fn phase(&self) -> Phase {
        self.phase
    }

    pub closed spec fn current_name(&self) -> Seq<char> {
        self.name@
    }

    pub closed spec fn current_kind(&self) -> VariantKind {
        self.kind
    }

    /// The names of the variants read so far in the current section.
    pub closed spec fn current_variants(&self) -> Seq<Seq<char>> {
        views_of(self.variants@)
    }

    /// The number of unnamed variants read so far in the current section.
    pub closed spec fn nameless(&self) -> nat {
        self.nameless as nat
    }

    pub fn new(mapping: VariantMapping) -> (p: Self)
        requires
            mapping.wf(),
        ensures
            p.wf(),
            p.mapping() == mapping@,
            p.done() == Seq::<SectionView>::empty(),
            p.phase() == Phase::BetweenSections,
    {
        let p = SectionParser {
            mapping,
            sections: Vec::new(),
            phase: Phase::BetweenSections,
            name: String::new(),
            kind: VariantKind::Expr,
            variants: Vec::new(),
            nameless: 0,
        };
        proof {
            assert(sections_view(p.sections@) =~= Seq::<SectionView>::empty());
        }
        p
    }

    pub fn phase_exec(&self) -> (r: Phase)
        ensures
            r == self.phase(),
    {
        self.phase
    }

    /// Starts a section with the given name; fails if a section of that name was read.
    pub fn begin_section(&mut self, name: String) -> (r: Result<(), SectionError>)
        requires
            old(self).wf(),
            old(self).phase() == Phase::BetweenSections,
        ensures
            final(self).wf(),
            final(self).mapping() == old(self).mapping(),
            final(self).done() == old(self).done(),
            r == (if exists|j: int| 0 <= j < old(self).done().len() && old(self).done()[j].name == name@ {
                Err::<(), SectionError>(SectionError::DuplicateSection { section: old(self).done().len() as usize })
            } else {
                Ok::<(), SectionError>(())
            }),
            r is Ok ==> final(self).phase() == Phase::AfterName && final(self).current_name() == name@,
            r is Err ==> final(self).phase() == old(self).phase(),
    {
        let mut j: usize = 0;
        while j < self.sections.len()
            invariant
                j <= self.sections@.len(),
                self.wf(),
                *self == *old(self),
                forall|k: int| 0 <= k < j ==> self.sections@[k].name@ != name@,
            decreases self.sections@.len() - j,
        {
            if self.sections[j].name == name {
                proof {
                    assert(sections_view(self.sections@)[j as int].name == name@);
                }
                return Err(SectionError::DuplicateSection { section: self.sections.len() });
            }
            j = j + 1;
        }
        proof {
            assert forall|k: int| 0 <= k < self.done().len() implies self.done()[k].name != name@ by {
                assert(self.done()[k].name == self.sections@[k].name@);
            }
        }
        self.name = name;
        self.phase = Phase::AfterName;
        Ok(())
    }

    /// Opens the current section's variants, given whether they are empty; returns
    /// the kind of the section's group, or fails if the section is empty or no
    /// placeholder names it.
    pub fn open_variants(&mut self, is_empty: bool) -> (r: Result<VariantKind, SectionError>)
        requires
            old(self).wf(),
            old(self).phase() == Phase::AfterName,
        ensures
            final(self).wf(),
            final(self).mapping() == old(self).mapping(),
            final(self).done() == old(self).done(),
            final(self).current_name() == old(self).current_name(),
            r == (if is_empty {
                Err::<VariantKind, SectionError>(SectionError::EmptySection { section: old(self).done().len() as usize })
            } else if !old(self).mapping().contains_key(old(self).current_name()) {
                Err(SectionError::UnmappedSection { section: old(self).done().len() as usize })
            } else {
                Ok(old(self).mapping()[old(self).current_name()])
            }),
            r matches Ok(k) ==> final(self).phase() == Phase::InVariants && final(self).current_kind() == k
                && final(self).current_variants() == Seq::<Seq<char>>::empty() && final(self).nameless() == 0,
            r is Err ==> final(self).phase() == old(self).phase(),
    {
        if is_empty {
            return Err(SectionError::EmptySection { section: self.sections.len() });
        }
        match self.mapping.kind_of(&self.name) {
            None => Err(SectionError::UnmappedSection { section: self.sections.len() }),
            Some(k) => {
                self.kind = k;
                self.variants = Vec::new();
                self.nameless = 0;
                self.phase = Phase::InVariants;
                proof {
                    assert(self.current_variants() =~= Seq::<Seq<char>>::empty());
                }
                Ok(k)
            },
        }
    }

    /// Reads the next variant of the current section, with its written name if it
    /// has one; fails if its name is already taken in the section.
    pub fn add_variant(&mut self, name: Option<String>) -> (r: Result<(), SectionError>)
        requires
            old(self).wf(),
            old(self).phase() == Phase::InVariants,
        ensures
            final(self).wf(),
            final(self).mapping() == old(self).mapping(),
            final(self).done() == old(self).done(),
            final(self).phase() == old(self).phase(),
            final(self).current_name() == old(self).current_name(),
            final(self).current_kind() == old(self).current_kind(),
            ({
                let n = match name {
                    Some(s) => s@,
                    None => nameless_name(old(self).nameless()),
                };
                &&& r == (if old(self).current_variants().contains(n) {
                    Err::<(), SectionError>(SectionError::DuplicateVariant {
                        section: old(self).done().len() as usize,
                        variant: old(self).current_variants().len() as usize,
                    })
                } else {
                    Ok::<(), SectionError>(())
                })
                &&& r is Ok ==> final(self).current_variants() == old(self).current_variants().push(n)
                &&& r is Ok ==> final(self).nameless() == old(self).nameless() + if name is None { 1nat } else { 0nat }
            }),
    {
        let ghost old_views = self.current_variants();
        let unnamed = name.is_none();
        let ghost n_spec = if name is Some {
            name->Some_0@
        } else {
            nameless_name(self.nameless as nat)
        };
        let n = match &name {
            Some(s) => s.clone(),
            None => {
                let mut s = String::from_str("v");
                proof {
                    reveal_strlit("v");
                }
                s.append(decimal(self.nameless).as_str());
                proof {
                    assert(s@ =~= nameless_name(self.nameless as nat));
                }
                s
            },
        };
        let mut j: usize = 0;
        while j < self.variants.len()
            invariant
                j <= self.variants@.len(),
                self.wf(),
                *self == *old(self),
                old_views == self.current_variants(),
                n@ == n_spec,
                n_spec == (match name { Some(s) => s@, None => nameless_name(old(self).nameless()) }),
                forall|k: int| 0 <= k < j ==> self.variants@[k]@ != n@,
            decreases self.variants@.len() - j,
        {
            if self.variants[j] == n {
                proof {
                    assert(old_views[j as int] == n@);
                    assert(old_views.contains(n@));
                }
                return Err(SectionError::DuplicateVariant { section: self.sections.len(), variant: self.variants.len() });
            }
            j = j + 1;
        }
        proof {
            assert(!old_views.contains(n@)) by {
                if old_views.contains(n@) {
                    let k = choose|k: int| 0 <= k < old_views.len() && old_views[k] == n@;
                    assert(self.variants@[k]@ == n@);
                }
            }
        }
        self.variants.push(n);
        // The count of unnamed variants stays below the number of variants, which fits in a usize.
        let _count = self.variants.len();
        if unnamed {
            self.nameless = self.nameless + 1;
        }
        proof {
            assert(self.current_variants() =~= old_views.push(n@));
        }
        Ok(())
    }

    /// Closes the current section.
    pub fn end_section(&mut self)
        requires
            old(self).wf(),
            old(self).phase() == Phase::InVariants,
        ensures
            final(self).wf(),
            final(self).mapping() == old(self).mapping(),
            final(self).phase() == Phase::BetweenSections,
            final(self).done() == old(self).done().push(SectionView {
                name: old(self).current_name(),
                kind: old(self).current_kind(),
                variants: old(self).current_variants(),
            }),
    {
        let ghost old_done = self.done();
        let ghost old_sections = self.sections@;
        let ghost current = self.name@;
        let mut name = String::new();
        std::mem::swap(&mut name, &mut self.name);
        let mut variants: Vec<String> = Vec::new();
        std::mem::swap(&mut variants, &mut self.variants);
        let section = Section { name, kind: self.kind, variants };
        self.sections.push(section);
        self.nameless = 0;
        self.phase = Phase::BetweenSections;
        proof {
            assert(self.done() =~= old_done.push(section@));
            let ns = section_names(self.done());
            assert forall|i: int, j: int| 0 <= i < j < ns.len() implies ns[i] != ns[j] by {
                assert(self.sections@[i] == old_sections[i] || i == old_sections.len());
                if j == ns.len() - 1 {
                    assert(ns[j] == current);
                    assert(ns[i] == old_sections[i].name@);
                } else {
                    assert(ns[i] == section_names(old_done)[i]);
                    assert(ns[j] == section_names(old_done)[j]);
                }
            }
        }
    }

    /// The sections read.
    pub fn finish(self) -> (r: Vec<Section>)
        requires
            self.wf(),
        ensures
            sections_view(r@) == self.done(),
            sections_distinct(sections_view(r@)),
    {
        self.sections
    }
}

/// Checks the variant sections against the groups of the placeholders.
pub fn build_sections(mapping: VariantMapping, raw: &Vec<RawSection>) -> (r: Result<Vec<Section>, SectionError>)
    requires
        mapping.wf(),
    ensures
        match spec_sections(mapping@, raw@) {
            Ok(s) => r matches Ok(v) && sections_view(v@) == s,
            Err(e) => r == Err::<Vec<Section>, SectionError>(e),
        },
{
    let ghost m = mapping@;
    let mut parser = SectionParser::new(mapping);
    let mut i: usize = 0;
    while i < raw.len()
        invariant
            i <= raw@.len(),
            parser.wf(),
            parser.mapping() == m,
            parser.phase() == Phase::BetweenSections,
            spec_sections(m, raw@.take(i as int)) == Ok::<Seq<SectionView>, SectionError>(parser.done()),
            parser.done().len() == i,
            m == mapping@,
        decreases raw@.len() - i,
    {
        let r = &raw[i];
        proof {
            assert(raw@.take(i + 1).drop_last() =~= raw@.take(i as int));
            assert(raw@.take(i + 1).last() == raw@[i as int]);
        }
        let ghost prev = parser.done();
        let name = r.name.clone();
        match parser.begin_section(name) {
            Err(e) => {
                proof {
                    lemma_take_prefix_error(m, raw@, i as int, e);
                }
                return Err(e);
            },
            Ok(()) => {},
        }
        match parser.open_variants(r.variants.len() == 0) {
            Err(e) => {
                proof {
                    lemma_take_prefix_error(m, raw@, i as int, e);
                }
                return Err(e);
            },
            Ok(_) => {},
        }
        let mut j: usize = 0;
        while j < r.variants.len()
            invariant
                j <= r.variants@.len(),
                parser.wf(),
                parser.mapping() == m,
                parser.done() == prev,
                parser.phase() == Phase::InVariants,
                parser.current_name() == r.name@,
                parser.current_kind() == m[r.name@],
                m.contains_key(r.name@),
                r.variants@.len() > 0,
                r == raw@[i as int],
                forall|k: int| 0 <= k < prev.len() ==> prev[k].name != r.name@,
                spec_sections(m, raw@.take(i as int)) == Ok::<Seq<SectionView>, SectionError>(prev),
                prev.len() == i,
                i < raw@.len(),
                m == mapping@,
                parser.current_variants() == variant_names(r.variants@.take(j as int)),
                parser.nameless() == nameless_count(r.variants@.take(j as int)),
                first_duplicate(variant_names(r.variants@.take(j as int))) is None,
            decreases r.variants@.len() - j,
        {
            proof {
                assert(r.variants@.take(j + 1).drop_last() =~= r.variants@.take(j as int));
            }
            let v = r.variants[j].clone();
            proof {
                lemma_variant_names_prefix(r.variants@.take(j + 1), j as int);
                assert(r.variants@.take(j + 1).take(j as int) =~= r.variants@.take(j as int));
                assert(r.variants@.take(j + 1).last() == r.variants@[j as int]);
            }
            match parser.add_variant(v) {
                Err(e) => {
                    proof {
                        lemma_first_duplicate_prefix(r.variants@, j as int);
                        lemma_take_prefix_error(m, raw@, i as int, e);
                    }
                    return Err(e);
                },
                Ok(()) => {},
            }
            j = j + 1;
        }
        proof {
            assert(r.variants@.take(r.variants@.len() as int) =~= r.variants@);
        }
        parser.end_section();
        i = i + 1;
    }
    proof {
        assert(raw@.take(raw@.len() as int) =~= raw@);
    }
    Ok(parser.finish())
}

} // verus!
