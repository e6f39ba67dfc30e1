//! Concepts, their designations, and the operations that change them.
use vstd::prelude::*;
use vstd::string::*;

verus! {

broadcast use vstd::string::to_string_from_display_ensures_for_str;

/// What `str::to_lowercase` makes of a string of characters.
pub uninterp spec fn lower_of(s: Seq<char>) -> Seq<char>;

/// Relies on `str::to_lowercase`: the result depends on the characters alone.
#[verifier::external_body]
fn lowercase(s: &str) -> (r: String)
    ensures
        r@ == lower_of(s@),
{
    s.to_lowercase()
}

/// Two texts are the same term when they agree once lower-cased.
pub open spec fn same_term(a: Seq<char>, b: Seq<char>) -> bool {
    lower_of(a) == lower_of(b)
}

/// Compares two texts without regard to case.
pub fn display_matches(a: &str, b: &str) -> (r: bool)
    ensures
        r == same_term(a@, b@),
{
    let la = lowercase(a);
    let lb = lowercase(b);
    la == lb
}

/// The coding-scheme reference that marks a designation as a synonym.
#[derive(Debug)]
pub struct Use {
    pub system: String,
    pub code: String,
}

pub struct UseView {
    pub system: Seq<char>,
    pub code: Seq<char>,
}

impl View for Use {
    type V = UseView;

    open spec fn view(&self) -> UseView {
        UseView { system: self.system@, code: self.code@ }
    }
}

/// The synonym classifier: SNOMED CT's "synonym" designation type.
pub open spec fn synonym_use() -> UseView {
    UseView { system: "http://snomed.info/sct"@, code: "900000000000013009"@ }
}

impl Use {
    pub fn synonym() -> (r: Use)
        ensures
            r@ == synonym_use(),
    {
        proof {
            reveal_strlit("http://snomed.info/sct");
            reveal_strlit("900000000000013009");
        }
        Use { system: "http://snomed.info/sct".to_string(), code: "900000000000013009".to_string() }
    }
}


/// An alternate name of a concept, tagged with what kind of name it is.
#[derive(Debug)]
pub struct Designation {
    pub use_: Option<Use>,
    pub value: String,
}

pub struct DesignationView {
    pub use_: Option<UseView>,
    pub value: Seq<char>,
}

impl View for Designation {
    type V = DesignationView;

    open spec fn view(&self) -> DesignationView {
        DesignationView {
            use_: match self.use_ {
                Some(u) => Some(u@),
                None => None,
            },
            value: self.value@,
        }
    }
}

/// A designation that records `text` as a synonym.
pub open spec fn synonym_of(text: Seq<char>) -> DesignationView {
    DesignationView { use_: Some(synonym_use()), value: text }
}

impl Designation {
    pub fn synonym(synonym: String) -> (r: Designation)
        ensures
            r@ == synonym_of(synonym@),
    {
        Designation { use_: Some(Use::synonym()), value: synonym }
    }
}

/// One entry of a code system. Nested concepts are carried along unread.
#[derive(Debug)]
pub struct Concept {
    pub code: String,
    pub display: String,
    pub designation: Option<Vec<Designation>>,
    pub definition: Option<String>,
    pub concept: Option<Vec<Concept>>,
}

pub struct ConceptView {
    pub code: Seq<char>,
    pub display: Seq<char>,
    pub designation: Option<Seq<DesignationView>>,
    pub definition: Option<Seq<char>>,
    pub concept: Option<Vec<Concept>>,
}

pub open spec fn designation_view(v: Vec<Designation>) -> Seq<DesignationView> {
    v@.map_values(|d: Designation| d@)
}

impl View for Concept {
    type V = ConceptView;

    open spec fn view(&self) -> ConceptView {
        ConceptView {
            code: self.code@,
            display: self.display@,
            designation: match self.designation {
                Some(v) => Some(designation_view(v)),
                None => None,
            },
            definition: match self.definition {
                Some(d) => Some(d@),
                None => None,
            },
            concept: self.concept,
        }
    }
}

/// The designations of a concept, none when the list is absent.
pub open spec fn designations(c: ConceptView) -> Seq<DesignationView> {
    match c.designation {
        Some(s) => s,
        None => Seq::empty(),
    }
}

/// `c` with `d` appended to its designations.
pub open spec fn with_designation(c: ConceptView, d: DesignationView) -> ConceptView {
    ConceptView { designation: Some(designations(c).push(d)), ..c }
}

/// What a proposed concept becomes once the authoritative term `preferred`
/// is its display: the definition is dropped, and a display that is not the
/// same term is kept as a synonym.
pub open spec fn adopted(c: ConceptView, preferred: Seq<char>) -> ConceptView {
    let base = ConceptView { display: preferred, definition: None, ..c };
    if same_term(c.display, preferred) {
        base
    } else {
        with_designation(base, synonym_of(c.display))
    }
}

impl Concept {
    pub fn add_designation(&mut self, designation: Designation)
        ensures
            final(self)@ == with_designation(old(self)@, designation@),
    {
        let ghost d = designation;
        match &mut self.designation {
            Some(v) => {
                let ghost old_v = *v;
                v.push(designation);
                proof {
                    assert(designation_view(*v) =~= designation_view(old_v).push(d@));
                }
            },
            None => {
                self.designation = Some(vec![designation]);
                proof {
                    assert(designation_view(self.designation.unwrap()) =~= Seq::empty().push(d@));
                }
            },
        }
    }

    pub fn add_synonym(&mut self, synonym: String)
        ensures
            final(self)@ == with_designation(old(self)@, synonym_of(synonym@)),
    {
        self.add_designation(Designation::synonym(synonym));
    }

    /// Makes `new_display` the display, dropping the definition; a former
    /// display that is another term stays on as a synonym.
    pub fn replace_display_with_new_term(self, new_display: String) -> (r: Concept)
        ensures
            r@ == adopted(self@, new_display@),
    {
        if display_matches(&self.display, &new_display) {
            Concept { display: new_display, definition: None, ..self }
        } else {
            let former = self.display.clone();
            let mut c = Concept { display: new_display, definition: None, ..self };
            c.add_synonym(former);
            c
        }
    }
}

} // verus!
