use vstd::prelude::*;

use crate::model::{spec_kind_of_delimiter, kind_of_delimiter, Placeholder, PlaceholderError, PlaceholderErrorKind, VariantKind};

verus! {

/// The kind of every variant group named by a placeholder of the template.
pub struct VariantMapping {
    entries: Vec<(String, VariantKind)>,
}

/// The map that a list of (name, kind) entries stands for.
pub open spec fn entries_map(s: Seq<(String, VariantKind)>) -> Map<Seq<char>, VariantKind>
    decreases s.len(),
{
    if s.len() == 0 {
        Map::empty()
    } else {
        entries_map(s.drop_last()).insert(s.last().0@, s.last().1)
    }
}

/// No name occurs twice among the entries.
pub open spec fn entries_distinct(s: Seq<(String, VariantKind)>) -> bool {
    forall|i: int, j: int| 0 <= i < j < s.len() ==> s[i].0@ != s[j].0@
}

pub proof fn lemma_entries_map(s: Seq<(String, VariantKind)>)
    requires
        entries_distinct(s),
    ensures
        forall|k: Seq<char>| #[trigger]
            entries_map(s).contains_key(k) <==> exists|i: int| 0 <= i < s.len() && s[i].0@ == k,
        forall|i: int| 0 <= i < s.len() ==> #[trigger] entries_map(s)[s[i].0@] == s[i].1,
    decreases s.len(),
{
    if s.len() > 0 {
        let t = s.drop_last();
        let last = s.last();
        assert(entries_distinct(t)) by {
            assert forall|i: int, j: int| 0 <= i < j < t.len() implies t[i].0@ != t[j].0@ by {
                assert(t[i] == s[i] && t[j] == s[j]);
            }
        }
        lemma_entries_map(t);
        assert forall|k: Seq<char>| #[trigger]
            entries_map(s).contains_key(k) <==> exists|i: int| 0 <= i < s.len() && s[i].0@ == k by {
            if entries_map(s).contains_key(k) {
                if k == last.0@ {
                    assert(s[s.len() - 1].0@ == k);
                } else {
                    assert(entries_map(t).contains_key(k));
                    let i = choose|i: int| 0 <= i < t.len() && t[i].0@ == k;
                    assert(t[i] == s[i]);
                    assert(s[i].0@ == k);
                }
            }
            if exists|i: int| 0 <= i < s.len() && s[i].0@ == k {
                let i = choose|i: int| 0 <= i < s.len() && s[i].0@ == k;
                if i < s.len() - 1 {
                    assert(t[i] == s[i]);
                    assert(t[i].0@ == k);
                    assert(entries_map(t).contains_key(k));
                }
            }
        }
        assert forall|i: int| 0 <= i < s.len() implies #[trigger] entries_map(s)[s[i].0@] == s[i].1 by {
            if i < s.len() - 1 {
                assert(t[i] == s[i]);
                assert(s[i].0@ != last.0@);
                assert(entries_map(t)[t[i].0@] == t[i].1);
            }
        }
    }
}

/// One placeholder's effect on the mapping and the list of errors: a placeholder
/// without a single identifier is an error; a new name takes the kind of the
/// placeholder's delimiter; a known name used with another kind is an error and
/// keeps its first kind.
pub open spec fn spec_mapping_step(
    m: Map<Seq<char>, VariantKind>,
    errs: Seq<PlaceholderError>,
    i: int,
    p: Placeholder,
) -> (Map<Seq<char>, VariantKind>, Seq<PlaceholderError>) {
    match p.name {
        None => (m, errs.push(PlaceholderError { placeholder: i as usize, kind: PlaceholderErrorKind::NameTokenMismatch })),
        Some(n) => {
            let k = spec_kind_of_delimiter(p.delimiter);
            if !m.contains_key(n@) {
                (m.insert(n@, k), errs)
            } else if m[n@] != k {
                (m, errs.push(PlaceholderError { placeholder: i as usize, kind: PlaceholderErrorKind::UsedWithMultipleKinds }))
            } else {
                (m, errs)
            }
        },
    }
}

/// The mapping and the errors after reading the placeholders in order.
pub open spec fn spec_mapping_run(ps: Seq<Placeholder>) -> (Map<Seq<char>, VariantKind>, Seq<PlaceholderError>)
    decreases ps.len(),
{
    if ps.len() == 0 {
        (Map::empty(), Seq::empty())
    } else {
        let prev = spec_mapping_run(ps.drop_last());
        spec_mapping_step(prev.0, prev.1, ps.len() - 1, ps.last())
    }
}

impl View for VariantMapping {
    type V = Map<Seq<char>, VariantKind>;

    closed spec fn view(&self) -> Map<Seq<char>, VariantKind> {
        entries_map(self.entries@)
    }
}

impl VariantMapping {
    pub closed spec fn wf(&self) -> bool {
        entries_distinct(self.entries@)
    }

    /// The position of `name` among the entries, if it is there.
    fn find(&self, name: &String) -> (r: Option<usize>)
        requires
            self.wf(),
        ensures
            r is None ==> !self@.contains_key(name@),
            r matches Some(i) ==> i < self.entries@.len() && self.entries@[i as int].0@ == name@
                && self@.contains_key(name@) && self@[name@] == self.entries@[i as int].1,
    {
        proof {
            lemma_entries_map(self.entries@);
        }
        let mut i: usize = 0;
        while i < self.entries.len()
            invariant
                i <= self.entries@.len(),
                self.wf(),
                forall|j: int| 0 <= j < i ==> self.entries@[j].0@ != name@,
            decreases self.entries@.len() - i,
        {
            if self.entries[i].0 == *name {
                proof {
                    lemma_entries_map(self.entries@);
                    let e = self.entries@[i as int];
                    assert(e.0@ == name@);
                    assert(entries_map(self.entries@)[e.0@] == e.1);
                }
                return Some(i);
            }
            i = i + 1;
        }
        None
    }

    /// The kind of the group called `name`, if a placeholder names it.
    pub fn kind_of(&self, name: &String) -> (r: Option<VariantKind>)
        requires
            self.wf(),
        ensures
            r == (if self@.contains_key(name@) { Some(self@[name@]) } else { None }),
    {
        match self.find(name) {
            Some(i) => Some(self.entries[i].1),
            None => None,
        }
    }
}

/// Collects the group of every placeholder with the kind its delimiter asks for.
/// Fails with all the errors, in order, when a placeholder does not hold a single
/// identifier or a group is used with two kinds.
pub fn build_mapping(placeholders: &Vec<Placeholder>) -> (r: Result<VariantMapping, Vec<PlaceholderError>>)
    ensures
        match r {
            Ok(m) => m.wf() && m@ == spec_mapping_run(placeholders@).0 && spec_mapping_run(placeholders@).1.len() == 0,
            Err(e) => e@ == spec_mapping_run(placeholders@).1 && e@.len() > 0,
        },
{
    let mut mapping = VariantMapping { entries: Vec::new() };
    let mut errors: Vec<PlaceholderError> = Vec::new();
    let mut i: usize = 0;
    while i < placeholders.len()
        invariant
            i <= placeholders@.len(),
            mapping.wf(),
            mapping@ == spec_mapping_run(placeholders@.take(i as int)).0,
            errors@ == spec_mapping_run(placeholders@.take(i as int)).1,
        decreases placeholders@.len() - i,
    {
        proof {
            assert(placeholders@.take(i + 1).drop_last() =~= placeholders@.take(i as int));
        }
        let p = &placeholders[i];
        match &p.name {
            None => {
                errors.push(PlaceholderError { placeholder: i, kind: PlaceholderErrorKind::NameTokenMismatch });
            },
            Some(n) => {
                let k = kind_of_delimiter(p.delimiter);
                match mapping.find(n) {
                    None => {
                        proof {
                            lemma_entries_map(mapping.entries@);
                        }
                        let ghost old_entries = mapping.entries@;
                        mapping.entries.push((n.clone(), k));
                        proof {
                            assert(mapping.entries@.drop_last() =~= old_entries);
                            assert forall|a: int, b: int| 0 <= a < b < mapping.entries@.len()
                                implies mapping.entries@[a].0@ != mapping.entries@[b].0@ by {
                                if b == mapping.entries@.len() - 1 {
                                    assert(old_entries[a] == mapping.entries@[a]);
                                }
                            }
                        }
                    },
                    Some(j) => {
                        if mapping.entries[j].1 != k {
                            errors.push(PlaceholderError { placeholder: i, kind: PlaceholderErrorKind::UsedWithMultipleKinds });
                        }
                    },
                }
            },
        }
        i = i + 1;
    }
    proof {
        assert(placeholders@.take(placeholders@.len() as int) =~= placeholders@);
    }
    if errors.len() == 0 {
        Ok(mapping)
    } else {
        Err(errors)
    }
}

} // verus!
