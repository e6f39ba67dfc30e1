//! The authoritative thesaurus: rows of tab-separated text, keyed by code.
use vstd::prelude::*;

verus! {

/// The characters of each string, in order.
pub open spec fn strings_view(v: Vec<String>) -> Seq<Seq<char>> {
    v@.map_values(|s: String| s@)
}

/// The pieces of `s` between occurrences of `sep`, in order, empty pieces
/// included: `a||b` has three.
pub open spec fn split_on(s: Seq<char>, sep: char) -> Seq<Seq<char>>
    decreases s.len(),
{
    if s.len() == 0 {
        seq![Seq::empty()]
    } else {
        let rest = split_on(s.drop_last(), sep);
        if s.last() == sep {
            rest.push(Seq::empty())
        } else {
            rest.update(rest.len() - 1, rest.last().push(s.last()))
        }
    }
}

pub proof fn lemma_split_on_not_empty(s: Seq<char>, sep: char)
    ensures
        split_on(s, sep).len() >= 1,
    decreases s.len(),
{
    if s.len() > 0 {
        lemma_split_on_not_empty(s.drop_last(), sep);
    }
}

/// Relies on `str::split` with a `char` pattern, which yields the pieces
/// between separators in order, empty ones included.
#[verifier::external_body]
fn split_pipes(s: &str) -> (r: Vec<String>)
    ensures
        strings_view(r) == split_on(s@, '|'),
{
    s.split('|').map(|x| x.to_string()).collect()
}

/// The number of fields of a thesaurus row.
pub const COLUMNS: usize = 9;

/// One row of the thesaurus. The first synonym is the preferred term.
#[derive(Debug)]
pub struct ThesaurusRow {
    pub code: String,
    pub iri: String,
    pub parent: Vec<String>,
    pub synonyms: Vec<String>,
    pub definition: String,
    pub display_name: Option<String>,
    pub concept_status: Option<String>,
    pub semantic_type: String,
    pub concept_in_subset: Vec<String>,
}

pub struct ThesaurusRowView {
    pub code: Seq<char>,
    pub iri: Seq<char>,
    pub parent: Seq<Seq<char>>,
    pub synonyms: Seq<Seq<char>>,
    pub definition: Seq<char>,
    pub display_name: Option<Seq<char>>,
    pub concept_status: Option<Seq<char>>,
    pub semantic_type: Seq<char>,
    pub concept_in_subset: Seq<Seq<char>>,
}

pub open spec fn opt_view(o: Option<String>) -> Option<Seq<char>> {
    match o {
        Some(s) => Some(s@),
        None => None,
    }
}

impl View for ThesaurusRow {
    type V = ThesaurusRowView;

    open spec fn view(&self) -> ThesaurusRowView {
        ThesaurusRowView {
            code: self.code@,
            iri: self.iri@,
            parent: strings_view(self.parent),
            synonyms: strings_view(self.synonyms),
            definition: self.definition@,
            display_name: opt_view(self.display_name),
            concept_status: opt_view(self.concept_status),
            semantic_type: self.semantic_type@,
            concept_in_subset: strings_view(self.concept_in_subset),
        }
    }
}

/// A field that may be left empty: empty means absent.
pub open spec fn nullable(f: Seq<char>) -> Option<Seq<char>> {
    if f.len() == 0 {
        None
    } else {
        Some(f)
    }
}

/// The row that a record of nine fields stands for: parents, synonyms and
/// subsets are split on `|`, empty optional fields are absent.
pub open spec fn row_of(f: Seq<Seq<char>>) -> ThesaurusRowView {
    ThesaurusRowView {
        code: f[0],
        iri: f[1],
        parent: split_on(f[2], '|'),
        synonyms: split_on(f[3], '|'),
        definition: f[4],
        display_name: nullable(f[5]),
        concept_status: nullable(f[6]),
        semantic_type: f[7],
        concept_in_subset: split_on(f[8], '|'),
    }
}

fn nullable_field(f: &String) -> (r: Option<String>)
    ensures
        opt_view(r) == nullable(f@),
{
    if f.as_str().is_empty() {
        None
    } else {
        Some(f.clone())
    }
}

impl ThesaurusRow {
    /// Builds a row from the fields of one record; a record of another
    /// length is no row.
    pub fn from_record(fields: &Vec<String>) -> (r: Option<ThesaurusRow>)
        ensures
            r is Some <==> fields@.len() == COLUMNS,
            r matches Some(row) ==> row@ == row_of(strings_view(*fields)),
    {
        if fields.len() != COLUMNS {
            return None;
        }
        let ghost f = strings_view(*fields);
        let row = ThesaurusRow {
            code: fields[0].clone(),
            iri: fields[1].clone(),
            parent: split_pipes(fields[2].as_str()),
            synonyms: split_pipes(fields[3].as_str()),
            definition: fields[4].clone(),
            display_name: nullable_field(&fields[5]),
            concept_status: nullable_field(&fields[6]),
            semantic_type: fields[7].clone(),
            concept_in_subset: split_pipes(fields[8].as_str()),
        };
        assert(row@ == row_of(f));
        Some(row)
    }

    /// The preferred term: the first synonym.
    pub fn get_ncit_preferred_term(&self) -> (r: String)
        requires
            self.synonyms@.len() > 0,
        ensures
            r@ == self@.synonyms[0],
    {
        self.synonyms[0].clone()
    }
}


/// The row of the last record with `code`, as in a map filled in order.
pub open spec fn find_row(rows: Seq<ThesaurusRowView>, code: Seq<char>) -> Option<ThesaurusRowView>
    decreases rows.len(),
{
    if rows.len() == 0 {
        None
    } else if rows.last().code == code {
        Some(rows.last())
    } else {
        find_row(rows.drop_last(), code)
    }
}

/// The lookup from code to authoritative row. A later row for a code
/// replaces an earlier one.
pub struct Thesaurus {
    rows: Vec<ThesaurusRow>,
}

impl Thesaurus {
    /// The rows in the order they were added.
    pub closed spec fn rows_view(&self) -> Seq<ThesaurusRowView> {
        self.rows@.map_values(|r: ThesaurusRow| r@)
    }

    /// The row that a lookup of `code` finds.
    pub open spec fn entry(&self, code: Seq<char>) -> Option<ThesaurusRowView> {
        find_row(self.rows_view(), code)
    }

    /// Every row has a preferred term.
    pub closed spec fn well_formed(&self) -> bool {
        forall|i: int| 0 <= i < self.rows@.len() ==> #[trigger] self.rows@[i]@.synonyms.len() > 0
    }

    pub fn new() -> (r: Thesaurus)
        ensures
            r.well_formed(),
            r.rows_view() == Seq::<ThesaurusRowView>::empty(),
    {
        let r = Thesaurus { rows: Vec::new() };
        assert(r.rows_view() =~= Seq::<ThesaurusRowView>::empty());
        r
    }

    pub fn insert(&mut self, row: ThesaurusRow)
        requires
            old(self).well_formed(),
            row@.synonyms.len() > 0,
        ensures
            final(self).well_formed(),
            final(self).rows_view() == old(self).rows_view().push(row@),
    {
        let ghost r = row;
        self.rows.push(row);
        assert(self.rows_view() =~= old(self).rows_view().push(r@));
    }

    /// Looks up a code, exactly as written.
    pub fn get(&self, code: &String) -> (r: Option<&ThesaurusRow>)
        requires
            self.well_formed(),
        ensures
            r matches Some(row) ==> Some(row@) == self.entry(code@) && row@.synonyms.len() > 0,
            r is None ==> self.entry(code@) is None,
    {
        let ghost rv = self.rows_view();
        let mut i: usize = self.rows.len();
        assert(rv.take(i as int) =~= rv);
        while i > 0
            invariant
                i <= self.rows@.len(),
                rv == self.rows_view(),
                self.well_formed(),
                find_row(rv, code@) == find_row(rv.take(i as int), code@),
            decreases i,
        {
            let ghost t = rv.take(i as int);
            assert(t.last() == self.rows@[i - 1]@);
            assert(t.drop_last() =~= rv.take(i - 1));
            if self.rows[i - 1].code == *code {
                return Some(&self.rows[i - 1]);
            }
            i = i - 1;
        }
        None
    }
}

/// What an error of the csv reader amounts to here.
#[verifier::external_type_specification]
#[verifier::external_body]
pub struct ExCsvError(csv::Error);

/// The fields of each record.
pub open spec fn records_view(v: Vec<Vec<String>>) -> Seq<Seq<Seq<char>>> {
    v@.map_values(|r: Vec<String>| strings_view(r))
}

/// The records that the csv reader finds in tab-separated text with no
/// header row.
pub uninterp spec fn tab_records(text: Seq<char>) -> Seq<Seq<Seq<char>>>;

/// Relies on csv's `Reader::records` (tab delimiter, no header row, records
/// of any length): the records of `text`, each as its fields. It does not
/// fail here: a byte slice gives no I/O error, records of unequal length are
/// refused only when the reader is not flexible, and fields cut from a `str`
/// at ASCII bytes stay valid UTF-8.
#[verifier::external_body]
fn read_tab_records(text: &str) -> (r: Result<Vec<Vec<String>>, csv::Error>)
    ensures
        r is Ok,
        r matches Ok(v) ==> records_view(v) == tab_records(text@),
{
    let mut reader = csv::ReaderBuilder::new()
        .has_headers(false)
        .delimiter(b'\t')
        .flexible(true)
        .from_reader(text.as_bytes());
    reader.records().map(|rec| rec.map(|rec| rec.iter().map(|f| f.to_string()).collect())).collect()
}

/// Why a thesaurus could not be built.
#[derive(Debug, PartialEq, Eq, Structural)]
pub enum ThesaurusError {
    /// The text is no tab-separated data.
    Unreadable,
    /// A record (counted from 0) has `found` fields instead of nine.
    WrongColumnCount { row: usize, found: usize },
}

/// Every record has nine fields.
pub open spec fn all_complete(recs: Seq<Seq<Seq<char>>>) -> bool {
    forall|i: int| 0 <= i < recs.len() ==> (#[trigger] recs[i]).len() == COLUMNS
}

/// The rows that complete records stand for, in order.
pub open spec fn rows_of(recs: Seq<Seq<Seq<char>>>) -> Seq<ThesaurusRowView> {
    recs.map_values(|f: Seq<Seq<char>>| row_of(f))
}

/// The outcome of building from records: the first incomplete record is
/// reported, otherwise every record becomes a row.
pub open spec fn built_from(recs: Seq<Seq<Seq<char>>>, r: Result<Thesaurus, ThesaurusError>) -> bool {
    match r {
        Ok(t) => all_complete(recs) && t.well_formed() && t.rows_view() == rows_of(recs),
        Err(ThesaurusError::WrongColumnCount { row, found }) => {
            &&& row < recs.len()
            &&& recs[row as int].len() == found
            &&& found != COLUMNS
            &&& all_complete(recs.take(row as int))
        },
        Err(ThesaurusError::Unreadable) => false,
    }
}

/// Builds the lookup from records; all or nothing.
pub fn thesaurus_from_records(records: &Vec<Vec<String>>) -> (r: Result<Thesaurus, ThesaurusError>)
    ensures
        built_from(records_view(*records), r),
{
    let ghost recs = records_view(*records);
    let mut t = Thesaurus::new();
    let mut i: usize = 0;
    while i < records.len()
        invariant
            i <= records@.len(),
            recs == records_view(*records),
            t.well_formed(),
            all_complete(recs.take(i as int)),
            t.rows_view() == rows_of(recs.take(i as int)),
        decreases records@.len() - i,
    {
        match ThesaurusRow::from_record(&records[i]) {
            Some(row) => {
                proof {
                    lemma_split_on_not_empty(recs[i as int][3], '|');
                }
                t.insert(row);
                assert(recs.take(i + 1) =~= recs.take(i as int).push(recs[i as int]));
                assert(rows_of(recs.take(i + 1)) =~= rows_of(recs.take(i as int)).push(row_of(recs[i as int])));
                i = i + 1;
            },
            None => {
                return Err(ThesaurusError::WrongColumnCount { row: i, found: records[i].len() });
            },
        }
    }
    assert(recs.take(i as int) =~= recs);
    Ok(t)
}

/// Reads the thesaurus from tab-separated text, one row per line.
pub fn thesaurus_from_text(text: &str) -> (r: Result<Thesaurus, ThesaurusError>)
    ensures
        built_from(tab_records(text@), r),
{
    match read_tab_records(text) {
        Ok(records) => thesaurus_from_records(&records),
        Err(_) => Err(ThesaurusError::Unreadable),
    }
}

} // verus!
