use terminology_merge::code_system::{CodeSystem, Diagnostic, Settings, Severity, Statistics};
use terminology_merge::concept::{display_matches, Concept, Designation, Use};
use terminology_merge::thesaurus::{thesaurus_from_text, Thesaurus};

fn concept(code: &str, display: &str) -> Concept {
    Concept {
        code: code.to_string(),
        display: display.to_string(),
        designation: None,
        definition: None,
        concept: None,
    }
}

fn system(concepts: Vec<Concept>) -> CodeSystem {
    CodeSystem {
        id: "nci-thesaurus".to_string(),
        resource_type: "CodeSystem".to_string(),
        url: "http://ncimeta.nci.nih.gov".to_string(),
        name: "NCIThesaurus".to_string(),
        title: "NCI Thesaurus".to_string(),
        status: "active".to_string(),
        experimental: false,
        date: "2023-01-01".to_string(),
        publisher: "NCI".to_string(),
        description: "fragment".to_string(),
        copyright: "none".to_string(),
        case_sensitive: true,
        content: "fragment".to_string(),
        concept: concepts,
    }
}

fn row(code: &str, synonyms: &str) -> String {
    format!("{code}\thttp://x/{code}\tC1|C2\t{synonyms}\tsome definition\t\t\tDisease\t")
}

fn thesaurus(lines: &[String]) -> Thesaurus {
    thesaurus_from_text(&lines.join("\n")).expect("thesaurus")
}

fn loud() -> Settings {
    Settings { suppress_info_level: false }
}

fn values(c: &Concept) -> Vec<String> {
    c.designation.as_ref().map(|v| v.iter().map(|d| d.value.clone()).collect()).unwrap_or_default()
}

#[test]
fn existing_code_with_new_display_gains_synonym() {
    let mut cs = system(vec![concept("C123", "Tumor")]);
    let th = thesaurus(&[row("C123", "Neoplasm")]);
    let (stats, notes) = cs.reconcile(vec![concept("C123", "Neoplasm")], &loud(), &th);
    assert_eq!(cs.concept.len(), 1);
    assert_eq!(cs.concept[0].display, "Tumor");
    assert_eq!(values(&cs.concept[0]), vec!["Neoplasm".to_string()]);
    assert_eq!(stats.wrong_display, 1);
    assert_eq!(stats.already_exists, 1);
    assert_eq!(stats.new_code, 0);
    assert_eq!(stats.not_ncit_code, 0);
    assert_eq!(notes.len(), 1);
    match &notes[0] {
        Diagnostic::MismatchedDisplay { code, previous, proposed } => {
            assert_eq!(code, "C123");
            assert_eq!(previous, "Tumor");
            assert_eq!(proposed, "Neoplasm");
        }
        other => panic!("unexpected {other:?}"),
    }
    assert_eq!(notes[0].severity(), Severity::Warning);
}

#[test]
fn unknown_code_is_rejected() {
    let mut cs = system(vec![concept("C123", "Tumor")]);
    let th = thesaurus(&[row("C123", "Neoplasm")]);
    let (stats, notes) = cs.reconcile(vec![concept("C999", "Widget")], &loud(), &th);
    assert_eq!(cs.concept.len(), 1);
    assert_eq!(cs.concept[0].code, "C123");
    assert!(cs.concept[0].designation.is_none());
    assert_eq!(stats.not_ncit_code, 1);
    assert_eq!(stats.already_exists + stats.wrong_display + stats.new_code, 0);
    match &notes[0] {
        Diagnostic::NotInThesaurus { code, display } => {
            assert_eq!(code, "C999");
            assert_eq!(display, "Widget");
        }
        other => panic!("unexpected {other:?}"),
    }
    assert_eq!(notes[0].severity(), Severity::Error);
}

#[test]
fn new_code_takes_preferred_term() {
    let mut cs = system(vec![concept("C123", "Tumor")]);
    let th = thesaurus(&[row("C555", "Kidney Failure|Renal Failure")]);
    let mut p = concept("C555", "Renal Failure");
    p.definition = Some("loss of kidney function".to_string());
    let (stats, notes) = cs.reconcile(vec![p], &loud(), &th);
    assert_eq!(cs.concept.len(), 2);
    let added = &cs.concept[1];
    assert_eq!(added.code, "C555");
    assert_eq!(added.display, "Kidney Failure");
    assert_eq!(added.definition, None);
    let d = added.designation.as_ref().expect("designations");
    assert_eq!(d.len(), 1);
    assert_eq!(d[0].value, "Renal Failure");
    let u = d[0].use_.as_ref().expect("use");
    assert_eq!(u.system, "http://snomed.info/sct");
    assert_eq!(u.code, "900000000000013009");
    assert_eq!(stats.new_code, 1);
    assert_eq!(stats.already_exists + stats.wrong_display + stats.not_ncit_code, 0);
    match &notes[0] {
        Diagnostic::TermReplaced { code, proposed, preferred } => {
            assert_eq!(code, "C555");
            assert_eq!(proposed, "Renal Failure");
            assert_eq!(preferred, "Kidney Failure");
        }
        other => panic!("unexpected {other:?}"),
    }
}

#[test]
fn new_code_with_preferred_display_adds_no_synonym() {
    let mut cs = system(vec![]);
    let th = thesaurus(&[row("C555", "Kidney Failure|Renal Failure")]);
    let (stats, notes) = cs.reconcile(vec![concept("C555", "kidney failure")], &loud(), &th);
    assert_eq!(cs.concept[0].display, "Kidney Failure");
    assert!(cs.concept[0].designation.is_none());
    assert_eq!(stats.new_code, 1);
    assert!(notes.is_empty());
}

#[test]
fn same_display_ignoring_case_changes_nothing() {
    let mut cs = system(vec![concept("C123", "Tumor")]);
    let th = thesaurus(&[row("C123", "Neoplasm")]);
    let (stats, notes) = cs.reconcile(vec![concept("C123", "TUMOR")], &loud(), &th);
    assert_eq!(cs.concept[0].display, "Tumor");
    assert!(cs.concept[0].designation.is_none());
    assert_eq!(stats, Statistics { already_exists: 1, wrong_display: 0, not_ncit_code: 0, new_code: 0 });
    match &notes[0] {
        Diagnostic::AlreadyPresent { code } => assert_eq!(code, "C123"),
        other => panic!("unexpected {other:?}"),
    }
    assert_eq!(notes[0].severity(), Severity::Info);
}

#[test]
fn quiet_settings_drop_info_notes() {
    let mut cs = system(vec![concept("C123", "Tumor")]);
    let th = thesaurus(&[row("C123", "Neoplasm")]);
    let quiet = Settings { suppress_info_level: true };
    let (stats, notes) = cs.reconcile(vec![concept("C123", "tumor")], &quiet, &th);
    assert_eq!(stats.already_exists, 1);
    assert!(notes.is_empty());
}

#[test]
fn known_synonym_is_not_added_twice() {
    let mut c = concept("C123", "Tumor");
    c.add_synonym("Neoplasm".to_string());
    let mut cs = system(vec![c]);
    let th = thesaurus(&[row("C123", "Neoplasm")]);
    let (stats, _) = cs.reconcile(vec![concept("C123", "NEOPLASM")], &loud(), &th);
    assert_eq!(values(&cs.concept[0]), vec!["Neoplasm".to_string()]);
    assert_eq!(stats.already_exists, 1);
    assert_eq!(stats.wrong_display, 0);
}

#[test]
fn later_duplicate_sees_earlier_addition() {
    let mut cs = system(vec![]);
    let th = thesaurus(&[row("C555", "Kidney Failure")]);
    let batch = vec![concept("C555", "Kidney Failure"), concept("C555", "Renal Failure")];
    let (stats, _) = cs.reconcile(batch, &loud(), &th);
    assert_eq!(cs.concept.len(), 1);
    assert_eq!(values(&cs.concept[0]), vec!["Renal Failure".to_string()]);
    assert_eq!(stats, Statistics { already_exists: 1, wrong_display: 1, not_ncit_code: 0, new_code: 1 });
}

#[test]
fn second_run_changes_nothing() {
    let th = thesaurus(&[row("C123", "Neoplasm"), row("C555", "Kidney Failure|Renal Failure")]);
    let batch = || {
        vec![
            concept("C123", "Neoplasm"),
            concept("C555", "Renal Failure"),
            concept("C999", "Widget"),
            concept("C123", "Growth"),
        ]
    };
    let mut cs = system(vec![concept("C123", "Tumor")]);
    let (first, _) = cs.reconcile(batch(), &loud(), &th);
    assert_eq!(first, Statistics { already_exists: 2, wrong_display: 2, not_ncit_code: 1, new_code: 1 });
    let snapshot = format!("{:?}", cs.concept);
    let (second, _) = cs.reconcile(batch(), &loud(), &th);
    assert_eq!(second.wrong_display, 0);
    assert_eq!(second.new_code, 0);
    assert_eq!(second.not_ncit_code, 1);
    assert_eq!(format!("{:?}", cs.concept), snapshot);
}

#[test]
fn check_and_add_concept_counts_one_concept() {
    let mut cs = system(vec![]);
    let th = thesaurus(&[row("C1", "One")]);
    let mut stats = Statistics::new();
    let note = cs.check_and_add_concept(concept("C1", "One"), &mut stats, &loud(), &th);
    assert!(note.is_none());
    assert_eq!(stats.new_code, 1);
    assert_eq!(cs.concept[0].display, "One");
}

#[test]
fn lookup_by_code_finds_first_match() {
    let mut cs = system(vec![concept("A", "first"), concept("B", "second"), concept("A", "third")]);
    let found = cs.get_mutable_concept_by_code(&"A".to_string()).expect("present");
    found.display = "changed".to_string();
    assert_eq!(cs.concept[0].display, "changed");
    assert_eq!(cs.concept[2].display, "third");
    assert!(cs.get_mutable_concept_by_code(&"a".to_string()).is_none());
    cs.add_concept(concept("Z", "last"));
    assert_eq!(cs.concept[3].code, "Z");
}

#[test]
fn case_insensitive_comparison() {
    assert!(display_matches("TUMOR", "tumor"));
    assert!(display_matches("Straße", "STRAßE"));
    assert!(!display_matches("Tumor", "Tumour"));
}

#[test]
fn replace_display_keeps_other_term_as_synonym() {
    let mut c = concept("C5", "Renal Failure");
    c.definition = Some("text".to_string());
    let r = c.replace_display_with_new_term("Kidney Failure".to_string());
    assert_eq!(r.display, "Kidney Failure");
    assert_eq!(r.definition, None);
    assert_eq!(values(&r), vec!["Renal Failure".to_string()]);
    let same = concept("C5", "KIDNEY failure").replace_display_with_new_term("Kidney Failure".to_string());
    assert_eq!(same.display, "Kidney Failure");
    assert!(same.designation.is_none());
}

#[test]
fn designations_are_appended_in_order() {
    let mut c = concept("C1", "x");
    c.add_designation(Designation { use_: None, value: "a".to_string() });
    c.add_synonym("b".to_string());
    assert_eq!(values(&c), vec!["a".to_string(), "b".to_string()]);
    assert!(c.designation.as_ref().unwrap()[0].use_.is_none());
    let u = Use::synonym();
    assert_eq!(u.system, "http://snomed.info/sct");
    assert_eq!(u.code, "900000000000013009");
    let d = Designation::synonym("s".to_string());
    assert_eq!(d.value, "s");
}
