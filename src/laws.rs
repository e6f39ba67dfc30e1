//! Laws of reconciliation, proved over the spec functions that the
//! operations' contracts use.
use vstd::prelude::*;
use crate::concept::{ConceptView, designations, same_term, synonym_of, with_designation};
use crate::code_system::{
    Resolution,
    Statistics,
    apply,
    code_index,
    count,
    has_synonym,
    lemma_code_index_found,
    lemma_code_index_push,
    lemma_code_index_update,
    resolve,
    run,
    tally,
};
use crate::thesaurus::Thesaurus;

verus! {

/// A proposed concept whose code is in neither the collection nor the
/// thesaurus is rejected: the collection stays as it is, holds no concept
/// with that code, and only the rejection count goes up, by one.
pub proof fn lemma_unknown_code_rejected(cs: Seq<ConceptView>, p: ConceptView, th: Thesaurus, s: Statistics)
    requires
        code_index(cs, p.code) is None,
        th.entry(p.code) is None,
    ensures
        resolve(cs, p, th.entry(p.code)) == Resolution::Rejected,
        apply(cs, p, th.entry(p.code)) == cs,
        forall|j: int| 0 <= j < cs.len() ==> cs[j].code != p.code,
        tally(s, resolve(cs, p, th.entry(p.code))) == (Statistics {
            not_ncit_code: (s.not_ncit_code + 1) as usize,
            ..s
        }),
{
    lemma_code_index_found(cs, p.code);
}

/// A proposed concept whose code is present with the same display, up to
/// case, changes nothing, and only the count of present codes goes up.
pub proof fn lemma_same_display_unchanged(cs: Seq<ConceptView>, p: ConceptView, th: Thesaurus, s: Statistics)
    requires
        code_index(cs, p.code) matches Some(i) && same_term(cs[i].display, p.display),
    ensures
        resolve(cs, p, th.entry(p.code)) == Resolution::Unchanged,
        apply(cs, p, th.entry(p.code)) == cs,
        tally(s, resolve(cs, p, th.entry(p.code))) == (Statistics {
            already_exists: (s.already_exists + 1) as usize,
            ..s
        }),
{
}

/// A proposed concept whose code is present with another display that is
/// no designation yet adds exactly that display as a synonym of the
/// present concept, and the count of corrected displays goes up.
pub proof fn lemma_new_display_becomes_synonym(
    cs: Seq<ConceptView>,
    p: ConceptView,
    th: Thesaurus,
    s: Statistics,
)
    requires
        code_index(cs, p.code) matches Some(i) && !same_term(cs[i].display, p.display) && !has_synonym(
            cs[i],
            p.display,
        ),
    ensures
        ({
            let i = code_index(cs, p.code)->Some_0;
            let after = apply(cs, p, th.entry(p.code));
            &&& resolve(cs, p, th.entry(p.code)) == Resolution::SynonymAdded
            &&& after == cs.update(i, with_designation(cs[i], synonym_of(p.display)))
            &&& designations(after[i]) == designations(cs[i]).push(synonym_of(p.display))
        }),
        tally(s, resolve(cs, p, th.entry(p.code))) == (Statistics {
            already_exists: (s.already_exists + 1) as usize,
            wrong_display: (s.wrong_display + 1) as usize,
            ..s
        }),
{
    lemma_code_index_found(cs, p.code);
}

/// `p` would change nothing if resolved against `cs`.
pub open spec fn settled(cs: Seq<ConceptView>, p: ConceptView, th: Thesaurus) -> bool {
    match code_index(cs, p.code) {
        Some(i) => same_term(cs[i].display, p.display) || has_synonym(cs[i], p.display),
        None => th.entry(p.code) is None,
    }
}

proof fn lemma_settled_no_change(cs: Seq<ConceptView>, p: ConceptView, th: Thesaurus)
    requires
        settled(cs, p, th),
    ensures
        apply(cs, p, th.entry(p.code)) == cs,
        resolve(cs, p, th.entry(p.code)) == Resolution::Unchanged || resolve(cs, p, th.entry(p.code))
            == Resolution::Rejected,
{
}

proof fn lemma_synonym_kept(c: ConceptView, d: crate::concept::DesignationView, text: Seq<char>)
    requires
        has_synonym(c, text),
    ensures
        has_synonym(with_designation(c, d), text),
{
    let j = choose|j: int| 0 <= j < designations(c).len() && same_term(#[trigger] designations(c)[j].value, text);
    assert(designations(with_designation(c, d))[j] == designations(c)[j]);
}

proof fn lemma_synonym_added(c: ConceptView, text: Seq<char>)
    ensures
        has_synonym(with_designation(c, synonym_of(text)), text),
{
    let w = with_designation(c, synonym_of(text));
    let k = designations(c).len() as int;
    assert(designations(w)[k] == synonym_of(text));
    assert(same_term(designations(w)[k].value, text));
}

proof fn lemma_apply_settles(cs: Seq<ConceptView>, p: ConceptView, th: Thesaurus)
    ensures
        settled(apply(cs, p, th.entry(p.code)), p, th),
{
    lemma_code_index_found(cs, p.code);
    match code_index(cs, p.code) {
        Some(i) => {
            if resolve(cs, p, th.entry(p.code)) == Resolution::SynonymAdded {
                let w = with_designation(cs[i], synonym_of(p.display));
                lemma_code_index_update(cs, i, w, p.code);
                lemma_synonym_added(cs[i], p.display);
            }
        },
        None => {
            if let Some(row) = th.entry(p.code) {
                let a = crate::concept::adopted(p, crate::code_system::preferred(row));
                lemma_code_index_push(cs, a, p.code);
                if !same_term(p.display, crate::code_system::preferred(row)) {
                    let base = ConceptView {
                        display: crate::code_system::preferred(row),
                        definition: None,
                        ..p
                    };
                    lemma_synonym_added(base, p.display);
                }
            }
        },
    }
}

proof fn lemma_apply_keeps_settled(cs: Seq<ConceptView>, p: ConceptView, q: ConceptView, th: Thesaurus)
    requires
        settled(cs, p, th),
    ensures
        settled(apply(cs, q, th.entry(q.code)), p, th),
{
    lemma_code_index_found(cs, q.code);
    lemma_code_index_found(cs, p.code);
    match code_index(cs, q.code) {
        Some(iq) => {
            if resolve(cs, q, th.entry(q.code)) == Resolution::SynonymAdded {
                let w = with_designation(cs[iq], synonym_of(q.display));
                lemma_code_index_update(cs, iq, w, p.code);
                if let Some(i) = code_index(cs, p.code) {
                    if i == iq && has_synonym(cs[i], p.display) {
                        lemma_synonym_kept(cs[i], synonym_of(q.display), p.display);
                    }
                }
            }
        },
        None => {
            if let Some(row) = th.entry(q.code) {
                let a = crate::concept::adopted(q, crate::code_system::preferred(row));
                lemma_code_index_push(cs, a, p.code);
            }
        },
    }
}

proof fn lemma_run_settles(cs: Seq<ConceptView>, ps: Seq<ConceptView>, th: Thesaurus)
    ensures
        forall|k: int| 0 <= k < ps.len() ==> settled(run(cs, ps, th), #[trigger] ps[k], th),
    decreases ps.len(),
{
    if ps.len() > 0 {
        let rest = ps.drop_last();
        lemma_run_settles(cs, rest, th);
        let before = run(cs, rest, th);
        assert forall|k: int| 0 <= k < ps.len() implies settled(run(cs, ps, th), #[trigger] ps[k], th) by {
            if k == ps.len() - 1 {
                lemma_apply_settles(before, ps.last(), th);
            } else {
                assert(rest[k] == ps[k]);
                lemma_apply_keeps_settled(before, ps[k], ps.last(), th);
            }
        }
    }
}

proof fn lemma_run_when_settled(cs: Seq<ConceptView>, ps: Seq<ConceptView>, th: Thesaurus)
    requires
        forall|k: int| 0 <= k < ps.len() ==> settled(cs, #[trigger] ps[k], th),
    ensures
        run(cs, ps, th) == cs,
        count(cs, ps, th, Resolution::SynonymAdded) == 0,
        count(cs, ps, th, Resolution::Added) == 0,
    decreases ps.len(),
{
    if ps.len() > 0 {
        let rest = ps.drop_last();
        assert forall|k: int| 0 <= k < rest.len() implies settled(cs, #[trigger] rest[k], th) by {
            assert(rest[k] == ps[k]);
        }
        lemma_run_when_settled(cs, rest, th);
        lemma_settled_no_change(cs, ps.last(), th);
    }
}

/// Reconciling the same proposed concepts again, against the result of a
/// first reconciliation, changes nothing: no display is corrected and no
/// code is added.
pub proof fn lemma_reconcile_idempotent(cs: Seq<ConceptView>, ps: Seq<ConceptView>, th: Thesaurus)
    ensures
        run(run(cs, ps, th), ps, th) == run(cs, ps, th),
        count(run(cs, ps, th), ps, th, Resolution::SynonymAdded) == 0,
        count(run(cs, ps, th), ps, th, Resolution::Added) == 0,
{
    lemma_run_settles(cs, ps, th);
    lemma_run_when_settled(run(cs, ps, th), ps, th);
}

/// In a second reconciliation of the same proposed concepts, against the
/// result of the first, each single step finds the collection as the first
/// run left it and leaves it so: the concept is resolved as unchanged or
/// rejected, so neither the corrected-display nor the new-code count moves.
pub proof fn lemma_second_run_step(
    cs: Seq<ConceptView>,
    ps: Seq<ConceptView>,
    th: Thesaurus,
    k: int,
    s: Statistics,
)
    requires
        0 <= k < ps.len(),
    ensures
        ({
            let first = run(cs, ps, th);
            let before = run(first, ps.take(k), th);
            let r = resolve(before, ps[k], th.entry(ps[k].code));
            &&& before == first
            &&& apply(before, ps[k], th.entry(ps[k].code)) == first
            &&& r == Resolution::Unchanged || r == Resolution::Rejected
            &&& tally(s, r).wrong_display == s.wrong_display
            &&& tally(s, r).new_code == s.new_code
        }),
{
    let first = run(cs, ps, th);
    lemma_run_settles(cs, ps, th);
    let pre = ps.take(k);
    assert forall|j: int| 0 <= j < pre.len() implies settled(first, #[trigger] pre[j], th) by {
        assert(pre[j] == ps[j]);
    }
    lemma_run_when_settled(first, pre, th);
    lemma_settled_no_change(first, ps[k], th);
}

} // verus!
