//! The code system and the reconciliation of proposed concepts against it.
use vstd::prelude::*;
use crate::thesaurus::{Thesaurus, ThesaurusRowView};
use crate::concept::{
    Concept,
    ConceptView,
    designations,
    display_matches,
    same_term,
    synonym_of,
    with_designation,
};

verus! {

/// The concepts of a list, each as its view.
pub open spec fn concepts_view(v: Vec<Concept>) -> Seq<ConceptView> {
    views_of(v@)
}

pub open spec fn views_of(s: Seq<Concept>) -> Seq<ConceptView> {
    s.map_values(|c: Concept| c@)
}

/// Where the first concept with `code` stands, if any does.
pub open spec fn code_index(cs: Seq<ConceptView>, code: Seq<char>) -> Option<int>
    decreases cs.len(),
{
    if cs.len() == 0 {
        None
    } else {
        match code_index(cs.drop_last(), code) {
            Some(i) => Some(i),
            None => if cs.last().code == code {
                Some(cs.len() - 1)
            } else {
                None
            },
        }
    }
}

pub proof fn lemma_code_index_found(cs: Seq<ConceptView>, code: Seq<char>)
    ensures
        code_index(cs, code) matches Some(i) ==> 0 <= i < cs.len() && cs[i].code == code,
        code_index(cs, code) is None ==> forall|j: int| 0 <= j < cs.len() ==> cs[j].code != code,
    decreases cs.len(),
{
    if cs.len() > 0 {
        lemma_code_index_found(cs.drop_last(), code);
        if code_index(cs, code) is None {
            assert forall|j: int| 0 <= j < cs.len() implies cs[j].code != code by {
                if j < cs.len() - 1 {
                    assert(cs.drop_last()[j] == cs[j]);
                }
            }
        }
    }
}

proof fn lemma_concepts_update(v: Seq<Concept>)
    ensures
        forall|i: int, x: Concept|
            0 <= i < v.len() ==> #[trigger] views_of(v.update(i, x)) == views_of(v).update(i, x@),
{
    assert forall|i: int, x: Concept| 0 <= i < v.len() implies #[trigger] views_of(v.update(i, x))
        == views_of(v).update(i, x@) by {
        assert(views_of(v.update(i, x)) =~= views_of(v).update(i, x@));
    }
}

pub proof fn lemma_code_index_push(cs: Seq<ConceptView>, c: ConceptView, code: Seq<char>)
    ensures
        code_index(cs.push(c), code) == (match code_index(cs, code) {
            Some(i) => Some(i),
            None => if c.code == code {
                Some(cs.len() as int)
            } else {
                None
            },
        }),
{
    assert(cs.push(c).drop_last() =~= cs);
}

pub proof fn lemma_code_index_update(cs: Seq<ConceptView>, i: int, c: ConceptView, code: Seq<char>)
    requires
        0 <= i < cs.len(),
        cs[i].code == c.code,
    ensures
        code_index(cs.update(i, c), code) == code_index(cs, code),
    decreases cs.len(),
{
    let u = cs.update(i, c);
    if i == cs.len() - 1 {
        assert(u.drop_last() =~= cs.drop_last());
    } else {
        assert(u.drop_last() =~= cs.drop_last().update(i, c));
        lemma_code_index_update(cs.drop_last(), i, c, code);
    }
}

proof fn lemma_code_index_prefix(cs: Seq<ConceptView>, m: int, code: Seq<char>)
    requires
        0 <= m <= cs.len(),
        code_index(cs.take(m), code) is Some,
    ensures
        code_index(cs, code) == code_index(cs.take(m), code),
    decreases cs.len(),
{
    if m == cs.len() {
        assert(cs.take(m) =~= cs);
    } else {
        assert(cs.drop_last().take(m) =~= cs.take(m));
        lemma_code_index_prefix(cs.drop_last(), m, code);
    }
}

/// The terminology resource: header fields and the list of concepts.
#[derive(Debug)]
pub struct CodeSystem {
    pub id: String,
    pub resource_type: String,
    pub url: String,
    pub name: String,
    pub title: String,
    pub status: String,
    pub experimental: bool,
    pub date: String,
    pub publisher: String,
    pub description: String,
    pub copyright: String,
    pub case_sensitive: bool,
    pub content: String,
    pub concept: Vec<Concept>,
}

/// Everything but the concepts agrees.
pub open spec fn same_header(a: CodeSystem, b: CodeSystem) -> bool {
    &&& a.id == b.id
    &&& a.resource_type == b.resource_type
    &&& a.url == b.url
    &&& a.name == b.name
    &&& a.title == b.title
    &&& a.status == b.status
    &&& a.experimental == b.experimental
    &&& a.date == b.date
    &&& a.publisher == b.publisher
    &&& a.description == b.description
    &&& a.copyright == b.copyright
    &&& a.case_sensitive == b.case_sensitive
    &&& a.content == b.content
}

impl CodeSystem {
    pub open spec fn concepts(&self) -> Seq<ConceptView> {
        concepts_view(self.concept)
    }

    /// The first concept with `code`, to change in place.
    pub fn get_mutable_concept_by_code(&mut self, code: &String) -> (r: Option<&mut Concept>)
        ensures
            r is Some <==> code_index(old(self).concepts(), code@) is Some,
            r matches Some(c) ==> ({
                let i = code_index(old(self).concepts(), code@)->Some_0;
                &&& c@ == old(self).concepts()[i]
                &&& final(self).concepts() == old(self).concepts().update(i, final(c)@)
                &&& same_header(*old(self), *final(self))
            }),
            r is None ==> *final(self) == *old(self),
    {
        let ghost cs = self.concepts();
        let mut i: usize = 0;
        while i < self.concept.len()
            invariant
                i <= self.concept@.len(),
                *self == *old(self),
                cs == self.concepts(),
                code_index(cs.take(i as int), code@) is None,
            decreases self.concept@.len() - i,
        {
            proof {
                assert(cs.take(i + 1) =~= cs.take(i as int).push(cs[i as int]));
                lemma_code_index_push(cs.take(i as int), cs[i as int], code@);
            }
            if self.concept[i].code == *code {
                proof {
                    lemma_code_index_prefix(cs, i + 1, code@);
                    lemma_concepts_update(self.concept@);
                }
                return Some(&mut self.concept[i]);
            }
            i = i + 1;
        }
        assert(cs.take(i as int) =~= cs);
        None
    }

    /// Appends a concept.
    pub fn add_concept(&mut self, concept: Concept)
        ensures
            final(self).concepts() == old(self).concepts().push(concept@),
            same_header(*old(self), *final(self)),
    {
        let ghost c = concept;
        self.concept.push(concept);
        assert(self.concepts() =~= old(self).concepts().push(c@));
    }
}


/// Some designation of `c` is the same term as `text`.
pub open spec fn has_synonym(c: ConceptView, text: Seq<char>) -> bool {
    exists|j: int| 0 <= j < designations(c).len() && same_term(#[trigger] designations(c)[j].value, text)
}

/// Whether some designation of `c` is the same term as `text`.
pub fn has_designation_value(c: &Concept, text: &String) -> (r: bool)
    ensures
        r == has_synonym(c@, text@),
{
    match &c.designation {
        Some(v) => {
            let mut j: usize = 0;
            while j < v.len()
                invariant
                    j <= v@.len(),
                    c.designation == Some(*v),
                    forall|k: int| 0 <= k < j ==> !same_term(#[trigger] designations(c@)[k].value, text@),
                decreases v@.len() - j,
            {
                if display_matches(&v[j].value, text) {
                    assert(same_term(designations(c@)[j as int].value, text@));
                    return true;
                }
                j = j + 1;
            }
            false
        },
        None => false,
    }
}

/// How a proposed concept is resolved.
#[derive(Debug, Clone, Copy, PartialEq, Eq, Structural)]
pub enum Resolution {
    /// The code is present and the display is already known.
    Unchanged,
    /// The code is present and the display was added as a synonym.
    SynonymAdded,
    /// The code was new and is now in the collection.
    Added,
    /// The code is neither present nor in the thesaurus.
    Rejected,
}

/// The preferred term of a thesaurus row.
pub open spec fn preferred(row: ThesaurusRowView) -> Seq<char> {
    row.synonyms[0]
}

/// How `p` is resolved against the concepts `cs`, where `entry` is what the
/// thesaurus holds for its code.
pub open spec fn resolve(cs: Seq<ConceptView>, p: ConceptView, entry: Option<ThesaurusRowView>) -> Resolution {
    match code_index(cs, p.code) {
        Some(i) => if same_term(cs[i].display, p.display) || has_synonym(cs[i], p.display) {
            Resolution::Unchanged
        } else {
            Resolution::SynonymAdded
        },
        None => if entry is Some {
            Resolution::Added
        } else {
            Resolution::Rejected
        },
    }
}

/// The concepts once `p` is resolved.
pub open spec fn apply(cs: Seq<ConceptView>, p: ConceptView, entry: Option<ThesaurusRowView>) -> Seq<ConceptView> {
    match code_index(cs, p.code) {
        Some(i) => if resolve(cs, p, entry) == Resolution::SynonymAdded {
            cs.update(i, with_designation(cs[i], synonym_of(p.display)))
        } else {
            cs
        },
        None => match entry {
            Some(row) => cs.push(crate::concept::adopted(p, preferred(row))),
            None => cs,
        },
    }
}

/// Run-time choices.
pub struct Settings {
    /// Leave out the notes on concepts that are already present.
    pub suppress_info_level: bool,
}

/// Counts of how the proposed concepts were resolved.
#[derive(Debug, Clone, Copy, PartialEq, Eq, Structural)]
pub struct Statistics {
    /// Codes found in the collection, whether or not a synonym was added.
    pub already_exists: usize,
    /// Codes found with another display, which became a synonym.
    pub wrong_display: usize,
    /// Codes found neither in the collection nor in the thesaurus.
    pub not_ncit_code: usize,
    /// Codes added to the collection.
    pub new_code: usize,
}

/// No counter is at its largest value.
pub open spec fn can_count(s: Statistics) -> bool {
    &&& s.already_exists < usize::MAX
    &&& s.wrong_display < usize::MAX
    &&& s.not_ncit_code < usize::MAX
    &&& s.new_code < usize::MAX
}

/// The counts once one more concept is resolved as `k`.
pub open spec fn tally(s: Statistics, k: Resolution) -> Statistics {
    Statistics {
        already_exists: if k == Resolution::Unchanged || k == Resolution::SynonymAdded {
            (s.already_exists + 1) as usize
        } else {
            s.already_exists
        },
        wrong_display: if k == Resolution::SynonymAdded {
            (s.wrong_display + 1) as usize
        } else {
            s.wrong_display
        },
        not_ncit_code: if k == Resolution::Rejected {
            (s.not_ncit_code + 1) as usize
        } else {
            s.not_ncit_code
        },
        new_code: if k == Resolution::Added {
            (s.new_code + 1) as usize
        } else {
            s.new_code
        },
    }
}

impl Statistics {
    pub fn new() -> (r: Statistics)
        ensures
            r == (Statistics { already_exists: 0, wrong_display: 0, not_ncit_code: 0, new_code: 0 }),
    {
        Statistics { already_exists: 0, wrong_display: 0, not_ncit_code: 0, new_code: 0 }
    }
}

/// How serious a diagnostic is.
#[derive(Debug, Clone, Copy, PartialEq, Eq, Structural)]
pub enum Severity {
    Info,
    Warning,
    Error,
}

/// A note on how one proposed concept was resolved.
#[derive(Debug)]
pub enum Diagnostic {
    /// The code is present with a display that is already known.
    AlreadyPresent { code: String },
    /// The code is present with another display, now kept as a synonym.
    MismatchedDisplay { code: String, previous: String, proposed: String },
    /// A new code whose proposed display gave way to the preferred term.
    TermReplaced { code: String, proposed: String, preferred: String },
    /// A new code that the thesaurus does not know; it was left out.
    NotInThesaurus { code: String, display: String },
}

pub enum DiagnosticView {
    AlreadyPresent { code: Seq<char> },
    MismatchedDisplay { code: Seq<char>, previous: Seq<char>, proposed: Seq<char> },
    TermReplaced { code: Seq<char>, proposed: Seq<char>, preferred: Seq<char> },
    NotInThesaurus { code: Seq<char>, display: Seq<char> },
}

impl View for Diagnostic {
    type V = DiagnosticView;

    open spec fn view(&self) -> DiagnosticView {
        match self {
            Diagnostic::AlreadyPresent { code } => DiagnosticView::AlreadyPresent { code: code@ },
            Diagnostic::MismatchedDisplay { code, previous, proposed } => DiagnosticView::MismatchedDisplay {
                code: code@,
                previous: previous@,
                proposed: proposed@,
            },
            Diagnostic::TermReplaced { code, proposed, preferred } => DiagnosticView::TermReplaced {
                code: code@,
                proposed: proposed@,
                preferred: preferred@,
            },
            Diagnostic::NotInThesaurus { code, display } => DiagnosticView::NotInThesaurus {
                code: code@,
                display: display@,
            },
        }
    }
}

impl Diagnostic {
    pub fn severity(&self) -> (r: Severity)
        ensures
            r == (match self {
                Diagnostic::AlreadyPresent { .. } => Severity::Info,
                Diagnostic::MismatchedDisplay { .. } => Severity::Warning,
                Diagnostic::TermReplaced { .. } => Severity::Warning,
                Diagnostic::NotInThesaurus { .. } => Severity::Error,
            }),
    {
        match self {
            Diagnostic::AlreadyPresent { .. } => Severity::Info,
            Diagnostic::MismatchedDisplay { .. } => Severity::Warning,
            Diagnostic::TermReplaced { .. } => Severity::Warning,
            Diagnostic::NotInThesaurus { .. } => Severity::Error,
        }
    }
}

/// The note that resolving `p` gives, if any.
pub open spec fn diagnostic_of(
    cs: Seq<ConceptView>,
    p: ConceptView,
    entry: Option<ThesaurusRowView>,
    quiet: bool,
) -> Option<DiagnosticView> {
    match code_index(cs, p.code) {
        Some(i) => if resolve(cs, p, entry) == Resolution::SynonymAdded {
            Some(DiagnosticView::MismatchedDisplay { code: p.code, previous: cs[i].display, proposed: p.display })
        } else if quiet {
            None
        } else {
            Some(DiagnosticView::AlreadyPresent { code: p.code })
        },
        None => match entry {
            Some(row) => if same_term(p.display, preferred(row)) {
                None
            } else {
                Some(DiagnosticView::TermReplaced { code: p.code, proposed: p.display, preferred: preferred(row) })
            },
            None => Some(DiagnosticView::NotInThesaurus { code: p.code, display: p.display }),
        },
    }
}

pub open spec fn opt_diagnostic_view(d: Option<Diagnostic>) -> Option<DiagnosticView> {
    match d {
        Some(d) => Some(d@),
        None => None,
    }
}

impl CodeSystem {
    /// Resolves one proposed concept: a present code may gain the proposed
    /// display as a synonym, a new code known to the thesaurus is added under
    /// its preferred term, any other is rejected. Only the display of a
    /// proposed concept whose code is present is read.
    pub fn check_and_add_concept(
        &mut self,
        concept: Concept,
        stats: &mut Statistics,
        settings: &Settings,
        thesaurus: &Thesaurus,
    ) -> (r: Option<Diagnostic>)
        requires
            can_count(*old(stats)),
            thesaurus.well_formed(),
        ensures
            final(self).concepts() == apply(old(self).concepts(), concept@, thesaurus.entry(concept.code@)),
            same_header(*old(self), *final(self)),
            *final(stats) == tally(*old(stats), resolve(old(self).concepts(), concept@, thesaurus.entry(concept.code@))),
            opt_diagnostic_view(r) == diagnostic_of(
                old(self).concepts(),
                concept@,
                thesaurus.entry(concept.code@),
                settings.suppress_info_level,
            ),
    {
        let ghost cs = self.concepts();
        let ghost p = concept@;
        proof {
            lemma_code_index_found(cs, p.code);
        }
        match self.get_mutable_concept_by_code(&concept.code) {
            Some(existing) => {
                stats.already_exists = stats.already_exists + 1;
                let known = display_matches(&existing.display, &concept.display)
                    || has_designation_value(existing, &concept.display);
                if known {
                    if settings.suppress_info_level {
                        None
                    } else {
                        Some(Diagnostic::AlreadyPresent { code: concept.code })
                    }
                } else {
                    let previous = existing.display.clone();
                    let proposed = concept.display.clone();
                    existing.add_synonym(concept.display);
                    stats.wrong_display = stats.wrong_display + 1;
                    Some(Diagnostic::MismatchedDisplay { code: concept.code, previous, proposed })
                }
            },
            None => {
                match thesaurus.get(&concept.code) {
                    Some(row) => {
                        let term = row.get_ncit_preferred_term();
                        let note = if display_matches(&concept.display, &term) {
                            None
                        } else {
                            Some(Diagnostic::TermReplaced {
                                code: concept.code.clone(),
                                proposed: concept.display.clone(),
                                preferred: term.clone(),
                            })
                        };
                        self.add_concept(concept.replace_display_with_new_term(term));
                        stats.new_code = stats.new_code + 1;
                        note
                    },
                    None => {
                        stats.not_ncit_code = stats.not_ncit_code + 1;
                        Some(Diagnostic::NotInThesaurus { code: concept.code, display: concept.display })
                    },
                }
            },
        }
    }
}


/// The concepts once every concept of `ps` is resolved, in order.
pub open spec fn run(cs: Seq<ConceptView>, ps: Seq<ConceptView>, th: Thesaurus) -> Seq<ConceptView>
    decreases ps.len(),
{
    if ps.len() == 0 {
        cs
    } else {
        apply(run(cs, ps.drop_last(), th), ps.last(), th.entry(ps.last().code))
    }
}

/// How many concepts of `ps` are resolved as `k`.
pub open spec fn count(cs: Seq<ConceptView>, ps: Seq<ConceptView>, th: Thesaurus, k: Resolution) -> nat
    decreases ps.len(),
{
    if ps.len() == 0 {
        0
    } else {
        let before = run(cs, ps.drop_last(), th);
        count(cs, ps.drop_last(), th, k) + if resolve(before, ps.last(), th.entry(ps.last().code)) == k {
            1nat
        } else {
            0nat
        }
    }
}

/// The notes that resolving every concept of `ps` gives, in order.
pub open spec fn notes(cs: Seq<ConceptView>, ps: Seq<ConceptView>, th: Thesaurus, quiet: bool) -> Seq<
    DiagnosticView,
>
    decreases ps.len(),
{
    if ps.len() == 0 {
        Seq::empty()
    } else {
        let before = run(cs, ps.drop_last(), th);
        let earlier = notes(cs, ps.drop_last(), th, quiet);
        match diagnostic_of(before, ps.last(), th.entry(ps.last().code), quiet) {
            Some(d) => earlier.push(d),
            None => earlier,
        }
    }
}

/// The counts after resolving every concept of `ps`.
pub open spec fn counted(s: Statistics, cs: Seq<ConceptView>, ps: Seq<ConceptView>, th: Thesaurus) -> bool {
    &&& s.already_exists == count(cs, ps, th, Resolution::Unchanged) + count(cs, ps, th, Resolution::SynonymAdded)
    &&& s.wrong_display == count(cs, ps, th, Resolution::SynonymAdded)
    &&& s.not_ncit_code == count(cs, ps, th, Resolution::Rejected)
    &&& s.new_code == count(cs, ps, th, Resolution::Added)
}

pub open spec fn diagnostics_view(v: Vec<Diagnostic>) -> Seq<DiagnosticView> {
    diagnostic_views(v@)
}

pub open spec fn diagnostic_views(s: Seq<Diagnostic>) -> Seq<DiagnosticView> {
    s.map_values(|d: Diagnostic| d@)
}

proof fn lemma_run_step(cs: Seq<ConceptView>, ps: Seq<ConceptView>, i: int, th: Thesaurus, quiet: bool)
    requires
        0 <= i < ps.len(),
    ensures
        run(cs, ps.take(i + 1), th) == apply(run(cs, ps.take(i), th), ps[i], th.entry(ps[i].code)),
        notes(cs, ps.take(i + 1), th, quiet) == (match diagnostic_of(
            run(cs, ps.take(i), th),
            ps[i],
            th.entry(ps[i].code),
            quiet,
        ) {
            Some(d) => notes(cs, ps.take(i), th, quiet).push(d),
            None => notes(cs, ps.take(i), th, quiet),
        }),
        forall|k: Resolution| #[trigger] count(cs, ps.take(i + 1), th, k) == count(cs, ps.take(i), th, k) + if resolve(
            run(cs, ps.take(i), th),
            ps[i],
            th.entry(ps[i].code),
        ) == k {
            1nat
        } else {
            0nat
        },
{
    assert(ps.take(i + 1).drop_last() =~= ps.take(i));
    assert(ps.take(i + 1).last() == ps[i]);
}

impl CodeSystem {
    /// Resolves each proposed concept in turn; a concept added early is
    /// found by later ones with the same code.
    pub fn reconcile(&mut self, proposed: Vec<Concept>, settings: &Settings, thesaurus: &Thesaurus) -> (r: (
        Statistics,
        Vec<Diagnostic>,
    ))
        requires
            thesaurus.well_formed(),
        ensures
            final(self).concepts() == run(old(self).concepts(), views_of(proposed@), *thesaurus),
            same_header(*old(self), *final(self)),
            counted(r.0, old(self).concepts(), views_of(proposed@), *thesaurus),
            diagnostics_view(r.1) == notes(
                old(self).concepts(),
                views_of(proposed@),
                *thesaurus,
                settings.suppress_info_level,
            ),
    {
        let ghost cs = self.concepts();
        let ghost ps = views_of(proposed@);
        let total = proposed.len();
        let ghost n = total as nat;
        let ghost quiet = settings.suppress_info_level;
        let mut rest = proposed;
        let mut stats = Statistics::new();
        let mut notes_out: Vec<Diagnostic> = Vec::new();
        let mut i: usize = 0;
        assert(ps.take(0) =~= Seq::<ConceptView>::empty());
        assert(views_of(rest@) =~= ps.skip(0));
        while rest.len() > 0
            invariant
                i + rest@.len() == n,
                n <= usize::MAX,
                quiet == settings.suppress_info_level,
                ps.len() == n,
                views_of(rest@) == ps.skip(i as int),
                thesaurus.well_formed(),
                self.concepts() == run(cs, ps.take(i as int), *thesaurus),
                same_header(*old(self), *self),
                counted(stats, cs, ps.take(i as int), *thesaurus),
                stats.already_exists <= i && stats.wrong_display <= i,
                stats.not_ncit_code <= i && stats.new_code <= i,
                diagnostics_view(notes_out) == notes(cs, ps.take(i as int), *thesaurus, quiet),
            decreases rest@.len(),
        {
            let ghost before = rest@;
            let concept = rest.remove(0);
            proof {
                assert(views_of(before)[0] == ps.skip(i as int)[0]);
                assert(concept@ == ps[i as int]);
                assert(views_of(rest@) =~= views_of(before).skip(1));
                assert(views_of(rest@) =~= ps.skip(i + 1));
                lemma_run_step(cs, ps, i as int, *thesaurus, quiet);
            }
            let note = self.check_and_add_concept(concept, &mut stats, settings, thesaurus);
            match note {
                Some(d) => {
                    let ghost earlier = notes_out@;
                    let ghost dv = d@;
                    notes_out.push(d);
                    assert(diagnostic_views(notes_out@) =~= diagnostic_views(earlier).push(dv));
                },
                None => {},
            }
            i = i + 1;
        }
        assert(ps.take(i as int) =~= ps);
        (stats, notes_out)
    }
}

} // verus!
