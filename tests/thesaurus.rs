use terminology_merge::code_system::Statistics;
use terminology_merge::concept::Concept;
use terminology_merge::thesaurus::{thesaurus_from_records, thesaurus_from_text, ThesaurusError, ThesaurusRow};

fn fields(v: &[&str]) -> Vec<String> {
    v.iter().map(|s| s.to_string()).collect()
}

#[test]
fn row_fields_are_split_on_pipes() {
    let r = ThesaurusRow::from_record(&fields(&[
        "C5", "http://x/C5", "C1|C2", "Kidney Failure|Renal Failure", "def", "", "Retired", "Disease", "",
    ]))
    .expect("nine fields");
    assert_eq!(r.code, "C5");
    assert_eq!(r.parent, fields(&["C1", "C2"]));
    assert_eq!(r.synonyms, fields(&["Kidney Failure", "Renal Failure"]));
    assert_eq!(r.display_name, None);
    assert_eq!(r.concept_status, Some("Retired".to_string()));
    assert_eq!(r.concept_in_subset, fields(&[""]));
    assert_eq!(r.get_ncit_preferred_term(), "Kidney Failure");
}

#[test]
fn empty_pieces_are_kept() {
    let r = ThesaurusRow::from_record(&fields(&["C", "i", "a||b", "s", "d", "n", "", "t", "x|"])).unwrap();
    assert_eq!(r.parent, fields(&["a", "", "b"]));
    assert_eq!(r.concept_in_subset, fields(&["x", ""]));
    assert_eq!(r.display_name, Some("n".to_string()));
}

#[test]
fn record_of_wrong_length_is_no_row() {
    assert!(ThesaurusRow::from_record(&fields(&["C1", "iri"])).is_none());
}

#[test]
fn text_with_short_row_is_refused() {
    let text = "C1\ti\tp\tOne\td\t\t\tt\t\nC2\ti\tp\n";
    match thesaurus_from_text(text) {
        Err(e) => assert_eq!(e, ThesaurusError::WrongColumnCount { row: 1, found: 3 }),
        Ok(_) => panic!("short row accepted"),
    }
}

#[test]
fn records_with_long_row_are_refused() {
    let recs = vec![fields(&["a"; 10])];
    match thesaurus_from_records(&recs) {
        Err(e) => assert_eq!(e, ThesaurusError::WrongColumnCount { row: 0, found: 10 }),
        Ok(_) => panic!("long row accepted"),
    }
}

#[test]
fn last_row_for_a_code_wins() {
    let text = "C1\ti\tp\tFirst\td\t\t\tt\t\nC2\ti\tp\tOther\td\t\t\tt\t\nC1\ti\tp\tSecond|Alt\td\t\t\tt\t\n";
    let th = thesaurus_from_text(text).expect("thesaurus");
    assert_eq!(th.get(&"C1".to_string()).unwrap().get_ncit_preferred_term(), "Second");
    assert_eq!(th.get(&"C2".to_string()).unwrap().synonyms, fields(&["Other"]));
    assert!(th.get(&"c1".to_string()).is_none());
    assert!(th.get(&" C1".to_string()).is_none());
}

#[test]
fn empty_text_gives_empty_thesaurus() {
    let th = thesaurus_from_text("").expect("thesaurus");
    assert!(th.get(&"C1".to_string()).is_none());
}

#[test]
fn report_lists_counts_in_order() {
    let s = Statistics { already_exists: 12, wrong_display: 0, not_ncit_code: 1234, new_code: 7 };
    assert_eq!(
        s.report(),
        "STATISTICS:\npre-existing codes:\t12\nwrong displays:\t\t0\nnon-NCIT codes:\t\t1234\nnew codes:\t\t7\n"
    );
    assert_eq!(
        Statistics::new().report(),
        "STATISTICS:\npre-existing codes:\t0\nwrong displays:\t\t0\nnon-NCIT codes:\t\t0\nnew codes:\t\t0\n"
    );
}

#[test]
fn concept_label_quotes_display() {
    let c = Concept {
        code: "C999".to_string(),
        display: "Widget".to_string(),
        designation: None,
        definition: None,
        concept: None,
    };
    assert_eq!(c.label(), "C999 \"Widget\"");
}
