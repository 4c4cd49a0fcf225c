//! The diagnostics index: bulk load from comma-separated tabular text and
//! the four query operations (exact lookup, filter by system, filter by
//! severity, keyword search).

use vstd::prelude::*;
use vstd::string::StringExecFns;

use crate::record::Record;
use crate::record::RecordModel;
use crate::strutil::contains_seq;
use crate::strutil::contains_sub;
use crate::strutil::lower_of;
use crate::strutil::lowercase;

verus! {

/// Why a bulk load failed. Queries never fail: an absent code or an empty
/// result is a normal outcome, not an error.
#[derive(Debug, Clone, Copy, PartialEq, Eq)]
pub enum LoadError {
    /// The tabular text itself is malformed (for example, a row with a
    /// different number of fields than the header).
    Syntax,
    /// The header names no column for one of the six record fields.
    MissingColumn,
}

/// The index of the first element of `s` satisfying `p`, or -1 if none does.
pub open spec fn first_match<T>(s: Seq<T>, p: spec_fn(T) -> bool) -> int
    decreases s.len(),
{
    if s.len() == 0 {
        -1
    } else if p(s[0]) {
        0
    } else {
        let r = first_match(s.drop_first(), p);
        if r == -1 {
            -1
        } else {
            r + 1
        }
    }
}

proof fn lemma_first_match_props<T>(s: Seq<T>, p: spec_fn(T) -> bool)
    ensures
        -1 <= first_match(s, p) < s.len(),
        first_match(s, p) == -1 ==> forall|k: int| 0 <= k < s.len() ==> !p(s[k]),
        first_match(s, p) >= 0 ==> p(s[first_match(s, p)]),
        first_match(s, p) >= 0 ==> forall|k: int| 0 <= k < first_match(s, p) ==> !p(s[k]),
    decreases s.len(),
{
    if s.len() > 0 && !p(s[0]) {
        lemma_first_match_props(s.drop_first(), p);
        if first_match(s, p) == -1 {
            assert forall|k: int| 0 <= k < s.len() implies !p(s[k]) by {
                if k > 0 {
                    assert(s.drop_first()[k - 1] == s[k]);
                }
            }
        } else {
            assert forall|k: int| 0 <= k < first_match(s, p) implies !p(s[k]) by {
                if k > 0 {
                    assert(s.drop_first()[k - 1] == s[k]);
                }
            }
        }
    }
}

proof fn lemma_first_match_at<T>(s: Seq<T>, p: spec_fn(T) -> bool, i: int)
    requires
        0 <= i < s.len(),
        p(s[i]),
        forall|k: int| 0 <= k < i ==> !p(s[k]),
    ensures
        first_match(s, p) == i,
    decreases s.len(),
{
    if i > 0 {
        assert forall|k: int| 0 <= k < i - 1 implies !p(s.drop_first()[k]) by {
            assert(s.drop_first()[k] == s[k + 1]);
        }
        assert(s.drop_first()[i - 1] == s[i]);
        lemma_first_match_at(s.drop_first(), p, i - 1);
    }
}

proof fn lemma_first_match_none<T>(s: Seq<T>, p: spec_fn(T) -> bool)
    requires
        forall|k: int| 0 <= k < s.len() ==> !p(s[k]),
    ensures
        first_match(s, p) == -1,
    decreases s.len(),
{
    if s.len() > 0 {
        assert forall|k: int| 0 <= k < s.drop_first().len() implies !p(s.drop_first()[k]) by {
            assert(s.drop_first()[k] == s[k + 1]);
        }
        lemma_first_match_none(s.drop_first(), p);
    }
}

/// Matching a record by exact code.
pub open spec fn by_code(c: Seq<char>) -> spec_fn(RecordModel) -> bool {
    |m: RecordModel| m.code == c
}

/// Matching a header field by exact name.
pub open spec fn by_name(n: Seq<char>) -> spec_fn(Seq<char>) -> bool {
    |x: Seq<char>| x == n
}

/// The position of the record with code `c`, or -1 if none holds it.
pub open spec fn idx_of_code(s: Seq<RecordModel>, c: Seq<char>) -> int {
    first_match(s, by_code(c))
}

/// The record with code `c`, if any.
pub open spec fn find_by_code(s: Seq<RecordModel>, c: Seq<char>) -> Option<RecordModel> {
    if idx_of_code(s, c) == -1 {
        None
    } else {
        Some(s[idx_of_code(s, c)])
    }
}

/// Keyed insertion: a record replaces the one already holding its code, or
/// is appended when its code is new (last write wins).
pub open spec fn insert_model(s: Seq<RecordModel>, m: RecordModel) -> Seq<RecordModel> {
    if idx_of_code(s, m.code) == -1 {
        s.push(m)
    } else {
        s.update(idx_of_code(s, m.code), m)
    }
}

/// The index contents after inserting `rows` in order, each keyed by code.
pub open spec fn load_model(rows: Seq<RecordModel>) -> Seq<RecordModel>
    decreases rows.len(),
{
    if rows.len() == 0 {
        Seq::<RecordModel>::empty()
    } else {
        insert_model(load_model(rows.drop_last()), rows.last())
    }
}

/// No two records share a code.
pub open spec fn codes_unique(s: Seq<RecordModel>) -> bool {
    forall|i: int, j: int|
        #![trigger s[i], s[j]]
        0 <= i < j < s.len() ==> s[i].code != s[j].code
}

/// Case-insensitive equality of the record's system with the query.
pub open spec fn sys_match(m: RecordModel, q: Seq<char>) -> bool {
    lower_of(m.system) == lower_of(q)
}

/// Case-insensitive equality of the record's severity with the query.
pub open spec fn sev_match(m: RecordModel, q: Seq<char>) -> bool {
    lower_of(m.severity) == lower_of(q)
}

/// Case-insensitive substring match of the keyword against the description
/// or against either raw delimited multi-value field.
pub open spec fn kw_match(m: RecordModel, q: Seq<char>) -> bool {
    ||| contains_seq(lower_of(m.description), lower_of(q))
    ||| contains_seq(lower_of(m.possible_causes), lower_of(q))
    ||| contains_seq(lower_of(m.recommended_actions), lower_of(q))
}

pub open spec fn by_system(q: Seq<char>) -> spec_fn(RecordModel) -> bool {
    |m: RecordModel| sys_match(m, q)
}

pub open spec fn by_severity(q: Seq<char>) -> spec_fn(RecordModel) -> bool {
    |m: RecordModel| sev_match(m, q)
}

pub open spec fn by_keyword(q: Seq<char>) -> spec_fn(RecordModel) -> bool {
    |m: RecordModel| kw_match(m, q)
}

/// The subsequence of `s` whose elements satisfy `p`, in their original
/// order.
pub open spec fn filtered(s: Seq<RecordModel>, p: spec_fn(RecordModel) -> bool) -> Seq<RecordModel>
    decreases s.len(),
{
    if s.len() == 0 {
        Seq::<RecordModel>::empty()
    } else if p(s.last()) {
        filtered(s.drop_last(), p).push(s.last())
    } else {
        filtered(s.drop_last(), p)
    }
}

proof fn lemma_filtered_total(s: Seq<RecordModel>, p: spec_fn(RecordModel) -> bool)
    requires
        forall|k: int| 0 <= k < s.len() ==> p(s[k]),
    ensures
        filtered(s, p) == s,
    decreases s.len(),
{
    if s.len() > 0 {
        lemma_filtered_total(s.drop_last(), p);
        assert(filtered(s.drop_last(), p).push(s.last()) =~= s);
    }
}

/// The table that CSV parsing yields for `s`: every line including the
/// header, each as its sequence of fields; `None` when the text is not
/// well-formed CSV.
pub uninterp spec fn csv_table_of(s: Seq<char>) -> Option<Seq<Seq<Seq<char>>>>;

/// Relies on `csv::ReaderBuilder` and `csv::Reader` (csv crate): the rows
/// parsed out of the text are a function of the text alone; a malformed
/// input (such as rows of unequal field counts, which the default strict
/// mode refuses) yields an error instead of rows.
#[verifier::external_body]
fn parse_csv(data: &str) -> (r: Option<Vec<Vec<String>>>)
    ensures
        match r {
            Some(t) => csv_table_of(data@) == Some(t.deep_view()),
            None => csv_table_of(data@) is None,
        },
{
    let mut rdr = csv::ReaderBuilder::new().has_headers(false).from_reader(data.as_bytes());
    let mut table: Vec<Vec<String>> = Vec::new();
    for rec in rdr.records() {
        match rec {
            Ok(row) => table.push(row.iter().map(|f| f.to_string()).collect()),
            Err(_) => return None,
        }
    }
    Some(table)
}

/// Whether the header names every required record field.
pub open spec fn cols_ok(h: Seq<Seq<char>>) -> bool {
    &&& first_match(h, by_name("code"@)) >= 0
    &&& first_match(h, by_name("description"@)) >= 0
    &&& first_match(h, by_name("severity"@)) >= 0
    &&& first_match(h, by_name("system"@)) >= 0
    &&& first_match(h, by_name("possible_causes"@)) >= 0
    &&& first_match(h, by_name("recommended_actions"@)) >= 0
}

/// The record read out of one data row under header `h`, binding each field
/// by column name.
pub open spec fn record_of_row(h: Seq<Seq<char>>, row: Seq<Seq<char>>) -> RecordModel {
    RecordModel {
        code: row[first_match(h, by_name("code"@))],
        description: row[first_match(h, by_name("description"@))],
        severity: row[first_match(h, by_name("severity"@))],
        system: row[first_match(h, by_name("system"@))],
        possible_causes: row[first_match(h, by_name("possible_causes"@))],
        recommended_actions: row[first_match(h, by_name("recommended_actions"@))],
    }
}

/// The records read out of every data row of `t` (row 0 is the header).
pub open spec fn table_models(t: Seq<Seq<Seq<char>>>) -> Seq<RecordModel> {
    Seq::new((t.len() - 1) as nat, |i: int| record_of_row(t[0], t[i + 1]))
}

/// Whether a data row has a field for every required column of header `h`.
pub open spec fn row_fits(h: Seq<Seq<char>>, row: Seq<Seq<char>>) -> bool {
    &&& first_match(h, by_name("code"@)) < row.len()
    &&& first_match(h, by_name("description"@)) < row.len()
    &&& first_match(h, by_name("severity"@)) < row.len()
    &&& first_match(h, by_name("system"@)) < row.len()
    &&& first_match(h, by_name("possible_causes"@)) < row.len()
    &&& first_match(h, by_name("recommended_actions"@)) < row.len()
}

/// What building from a parsed table yields: the folded index contents, or
/// the load error. A table with no data rows builds as empty, whatever its
/// header.
pub open spec fn build_spec(t: Seq<Seq<Seq<char>>>) -> Result<Seq<RecordModel>, LoadError> {
    if t.len() <= 1 {
        Ok(Seq::<RecordModel>::empty())
    } else if !cols_ok(t[0]) {
        Err(LoadError::MissingColumn)
    } else if exists|i: int| 1 <= i < t.len() && !(#[trigger] row_fits(t[0], t[i])) {
        Err(LoadError::Syntax)
    } else {
        Ok(load_model(table_models(t)))
    }
}

/// Finds the first column of `hdr` named `name`.
fn find_col(hdr: &Vec<String>, name: &String) -> (r: Option<usize>)
    ensures
        match r {
            Some(i) => first_match(hdr.deep_view(), by_name(name@)) == i && i < hdr.len(),
            None => first_match(hdr.deep_view(), by_name(name@)) == -1,
        },
{
    let mut j: usize = 0;
    while j < hdr.len()
        invariant
            j <= hdr.len(),
            forall|k: int| 0 <= k < j ==> hdr.deep_view()[k] != name@,
        decreases hdr.len() - j,
    {
        if hdr[j] == *name {
            proof {
                lemma_first_match_at(hdr.deep_view(), by_name(name@), j as int);
            }
            return Some(j);
        }
        j += 1;
    }
    proof {
        lemma_first_match_none(hdr.deep_view(), by_name(name@));
    }
    None
}

/// Keyed insertion into the backing vector: replaces the record holding the
/// same code, or appends.
#[verifier::loop_isolation(false)]
fn insert_record(v: &mut Vec<Record>, rec: Record)
    ensures
        final (v).deep_view() == insert_model(old(v).deep_view(), rec@),
{
    let ghost s0 = v.deep_view();
    let mut j: usize = 0;
    while j < v.len()
        invariant
            j <= v.len(),
            v.deep_view() == s0,
            forall|k: int| 0 <= k < j ==> s0[k].code != rec@.code,
        decreases v.len() - j,
    {
        if v[j].code == rec.code {
            proof {
                lemma_first_match_at(s0, by_code(rec@.code), j as int);
            }
            v.set(j, rec);
            proof {
                assert(v.deep_view() =~= s0.update(j as int, rec@));
            }
            return ;
        }
        j += 1;
    }
    proof {
        lemma_first_match_none(s0, by_code(rec@.code));
    }
    v.push(rec);
    proof {
        assert(v.deep_view() =~= s0.push(rec@));
    }
}

/// The in-memory diagnostics index: a code-unique collection of records,
/// built once by `load` and then queried read-only.
pub struct DiagnosticsIndex {
    records: Vec<Record>,
}

impl View for DiagnosticsIndex {
    type V = Seq<RecordModel>;

    closed spec fn view(&self) -> Seq<RecordModel> {
        self.records.deep_view()
    }
}

impl DiagnosticsIndex {
    /// Creates an empty index.
    pub fn new() -> (r: DiagnosticsIndex)
        ensures
            r@ == Seq::<RecordModel>::empty(),
    {
        let idx = DiagnosticsIndex { records: Vec::new() };
        proof {
            assert(idx@ =~= Seq::<RecordModel>::empty());
        }
        idx
    }

    /// How many records the index holds.
    pub fn record_count(&self) -> (n: usize)
        ensures
            n == self@.len(),
    {
        self.records.len()
    }

    /// Builds an index from already-parsed tabular rows, row 0 being the
    /// header. All-or-nothing: a missing required column or a data row too
    /// short for the bound columns fails the whole build.
    #[verifier::loop_isolation(false)]
    pub fn from_rows(table: &Vec<Vec<String>>) -> (r: Result<DiagnosticsIndex, LoadError>)
        ensures
            match build_spec(table.deep_view()) {
                Ok(models) => r is Ok && r->Ok_0@ == models && codes_unique(r->Ok_0@),
                Err(e) => r == Err::<DiagnosticsIndex, LoadError>(e),
            },
    {
        let ghost tv = table.deep_view();
        if table.len() <= 1 {
            proof {
                assert(build_spec(tv) == Ok::<Seq<RecordModel>, LoadError>(
                    Seq::<RecordModel>::empty(),
                ));
            }
            return Ok(DiagnosticsIndex::new());
        }
        let name_code = String::from_str("code");
        let name_description = String::from_str("description");
        let name_severity = String::from_str("severity");
        let name_system = String::from_str("system");
        let name_causes = String::from_str("possible_causes");
        let name_actions = String::from_str("recommended_actions");
        let hdr = &table[0];
        proof {
            assert(hdr.deep_view() == tv[0]);
        }
        let c_code = match find_col(hdr, &name_code) {
            Some(i) => i,
            None => {
                return Err(LoadError::MissingColumn);
            },
        };
        let c_description = match find_col(hdr, &name_description) {
            Some(i) => i,
            None => {
                return Err(LoadError::MissingColumn);
            },
        };
        let c_severity = match find_col(hdr, &name_severity) {
            Some(i) => i,
            None => {
                return Err(LoadError::MissingColumn);
            },
        };
        let c_system = match find_col(hdr, &name_system) {
            Some(i) => i,
            None => {
                return Err(LoadError::MissingColumn);
            },
        };
        let c_causes = match find_col(hdr, &name_causes) {
            Some(i) => i,
            None => {
                return Err(LoadError::MissingColumn);
            },
        };
        let c_actions = match find_col(hdr, &name_actions) {
            Some(i) => i,
            None => {
                return Err(LoadError::MissingColumn);
            },
        };
        proof {
            assert(cols_ok(tv[0]));
        }
        let ghost ms = table_models(tv);
        let mut recs: Vec<Record> = Vec::new();
        let mut i: usize = 1;
        proof {
            assert(recs.deep_view() =~= Seq::<RecordModel>::empty());
            assert(ms.subrange(0, 0) =~= Seq::<RecordModel>::empty());
        }
        while i < table.len()
            invariant
                1 <= i <= table.len(),
                tv == table.deep_view(),
                ms == table_models(tv),
                tv.len() == table.len(),
                tv.len() > 1,
                c_code == first_match(tv[0], by_name("code"@)) && c_code < tv[0].len(),
                c_description == first_match(tv[0], by_name("description"@)) && c_description
                    < tv[0].len(),
                c_severity == first_match(tv[0], by_name("severity"@)) && c_severity
                    < tv[0].len(),
                c_system == first_match(tv[0], by_name("system"@)) && c_system < tv[0].len(),
                c_causes == first_match(tv[0], by_name("possible_causes"@)) && c_causes
                    < tv[0].len(),
                c_actions == first_match(tv[0], by_name("recommended_actions"@)) && c_actions
                    < tv[0].len(),
                forall|k: int| 1 <= k < i ==> #[trigger] row_fits(tv[0], tv[k]),
                recs.deep_view() == load_model(ms.subrange(0, i - 1)),
            decreases table.len() - i,
        {
            let row = &table[i];
            proof {
                assert(row.deep_view() == tv[i as int]);
            }
            if row.len() <= c_code || row.len() <= c_description || row.len() <= c_severity
                || row.len() <= c_system || row.len() <= c_causes || row.len() <= c_actions {
                proof {
                    assert(!row_fits(tv[0], tv[i as int]));
                }
                return Err(LoadError::Syntax);
            }
            let rec = Record {
                code: row[c_code].clone(),
                description: row[c_description].clone(),
                severity: row[c_severity].clone(),
                system: row[c_system].clone(),
                possible_causes: row[c_causes].clone(),
                recommended_actions: row[c_actions].clone(),
            };
            proof {
                assert(rec@ == record_of_row(tv[0], tv[i as int]));
            }
            insert_record(&mut recs, rec);
            proof {
                assert(ms.subrange(0, i as int).drop_last() =~= ms.subrange(0, i - 1));
                assert(ms.subrange(0, i as int).last() == ms[i - 1]);
                assert(ms[i - 1] == record_of_row(tv[0], tv[i as int]));
            }
            i += 1;
        }
        proof {
            assert(ms.subrange(0, ms.len() as int) =~= ms);
            lemma_load_unique(ms);
        }
        Ok(DiagnosticsIndex { records: recs })
    }

    /// Bulk-loads the index from comma-separated tabular text whose first
    /// line is the header. All-or-nothing: malformed tabular text or a
    /// missing required column fails the whole load and leaves the index
    /// empty. On success returns the number of records held (after
    /// last-write-wins replacement of duplicated codes).
    pub fn load(&mut self, data: &str) -> (r: Result<usize, LoadError>)
        ensures
            match csv_table_of(data@) {
                None => r == Err::<usize, LoadError>(LoadError::Syntax) && final (self)@
                    == Seq::<RecordModel>::empty(),
                Some(t) => match build_spec(t) {
                    Ok(models) => final (self)@ == models && r is Ok && r->Ok_0 == models.len(),
                    Err(e) => r == Err::<usize, LoadError>(e) && final (self)@
                        == Seq::<RecordModel>::empty(),
                },
            },
            codes_unique(final (self)@),
    {
        self.records = Vec::new();
        proof {
            assert(self@ =~= Seq::<RecordModel>::empty());
        }
        let table = match parse_csv(data) {
            Some(t) => t,
            None => {
                return Err(LoadError::Syntax);
            },
        };
        match Self::from_rows(&table) {
            Ok(idx) => {
                let count = idx.record_count();
                *self = idx;
                Ok(count)
            },
            Err(e) => Err(e),
        }
    }

    /// Exact, case-sensitive lookup of a record by its code.
    pub fn lookup(&self, code: &str) -> (r: Option<Record>)
        ensures
            match r {
                Some(rec) => find_by_code(self@, code@) == Some(rec@),
                None => find_by_code(self@, code@) is None,
            },
    {
        let key = String::from_str(code);
        let mut j: usize = 0;
        while j < self.records.len()
            invariant
                j <= self.records.len(),
                key@ == code@,
                forall|k: int| 0 <= k < j ==> self@[k].code != code@,
            decreases self.records.len() - j,
        {
            if self.records[j].code == key {
                proof {
                    lemma_first_match_at(self@, by_code(code@), j as int);
                }
                return Some(self.records[j].clone());
            }
            j += 1;
        }
        proof {
            lemma_first_match_none(self@, by_code(code@));
        }
        None
    }

    /// Every record whose system equals the argument case-insensitively, in
    /// index order.
    pub fn list_by_system(&self, system: &str) -> (r: Vec<Record>)
        ensures
            r.deep_view() == filtered(self@, by_system(system@)),
    {
        let q = lowercase(system);
        let mut out: Vec<Record> = Vec::new();
        let mut j: usize = 0;
        proof {
            assert(out.deep_view() =~= Seq::<RecordModel>::empty());
            assert(self@.subrange(0, 0) =~= Seq::<RecordModel>::empty());
        }
        while j < self.records.len()
            invariant
                j <= self.records.len(),
                q@ == lower_of(system@),
                out.deep_view() == filtered(self@.subrange(0, j as int), by_system(system@)),
            decreases self.records.len() - j,
        {
            let ghost out0 = out.deep_view();
            proof {
                assert(self@.subrange(0, j + 1).drop_last() =~= self@.subrange(0, j as int));
                assert(self@.subrange(0, j + 1).last() == self@[j as int]);
            }
            let low = lowercase(self.records[j].system.as_str());
            if low == q {
                out.push(self.records[j].clone());
                proof {
                    assert(out.deep_view() =~= out0.push(self@[j as int]));
                }
            }
            j += 1;
        }
        proof {
            assert(self@.subrange(0, self.records.len() as int) =~= self@);
        }
        out
    }

    /// Every record whose severity equals the argument case-insensitively,
    /// in index order.
    pub fn list_by_severity(&self, severity: &str) -> (r: Vec<Record>)
        ensures
            r.deep_view() == filtered(self@, by_severity(severity@)),
    {
        let q = lowercase(severity);
        let mut out: Vec<Record> = Vec::new();
        let mut j: usize = 0;
        proof {
            assert(out.deep_view() =~= Seq::<RecordModel>::empty());
            assert(self@.subrange(0, 0) =~= Seq::<RecordModel>::empty());
        }
        while j < self.records.len()
            invariant
                j <= self.records.len(),
                q@ == lower_of(severity@),
                out.deep_view() == filtered(self@.subrange(0, j as int), by_severity(severity@)),
            decreases self.records.len() - j,
        {
            let ghost out0 = out.deep_view();
            proof {
                assert(self@.subrange(0, j + 1).drop_last() =~= self@.subrange(0, j as int));
                assert(self@.subrange(0, j + 1).last() == self@[j as int]);
            }
            let low = lowercase(self.records[j].severity.as_str());
            if low == q {
                out.push(self.records[j].clone());
                proof {
                    assert(out.deep_view() =~= out0.push(self@[j as int]));
                }
            }
            j += 1;
        }
        proof {
            assert(self@.subrange(0, self.records.len() as int) =~= self@);
        }
        out
    }

    /// Every record where the keyword appears case-insensitively as a
    /// substring of the description or of either raw delimited multi-value
    /// field. An empty keyword matches every record.
    pub fn search(&self, keyword: &str) -> (r: Vec<Record>)
        ensures
            r.deep_view() == filtered(self@, by_keyword(keyword@)),
            keyword@.len() == 0 ==> r.deep_view() == self@,
    {
        let q = lowercase(keyword);
        let mut out: Vec<Record> = Vec::new();
        let mut j: usize = 0;
        proof {
            assert(out.deep_view() =~= Seq::<RecordModel>::empty());
            assert(self@.subrange(0, 0) =~= Seq::<RecordModel>::empty());
        }
        while j < self.records.len()
            invariant
                j <= self.records.len(),
                q@ == lower_of(keyword@),
                out.deep_view() == filtered(self@.subrange(0, j as int), by_keyword(keyword@)),
            decreases self.records.len() - j,
        {
            let ghost out0 = out.deep_view();
            proof {
                assert(self@.subrange(0, j + 1).drop_last() =~= self@.subrange(0, j as int));
                assert(self@.subrange(0, j + 1).last() == self@[j as int]);
            }
            let low_description = lowercase(self.records[j].description.as_str());
            let low_causes = lowercase(self.records[j].possible_causes.as_str());
            let low_actions = lowercase(self.records[j].recommended_actions.as_str());
            let hit = contains_sub(low_description.as_str(), q.as_str()) || contains_sub(
                low_causes.as_str(),
                q.as_str(),
            ) || contains_sub(low_actions.as_str(), q.as_str());
            if hit {
                out.push(self.records[j].clone());
                proof {
                    assert(out.deep_view() =~= out0.push(self@[j as int]));
                }
            }
            j += 1;
        }
        proof {
            assert(self@.subrange(0, self.records.len() as int) =~= self@);
            if keyword@.len() == 0 {
                assert forall|k: int| 0 <= k < self@.len() implies #[trigger] by_keyword(keyword@)(
                    self@[k],
                ) by {
                    let hay = lower_of(self@[k].description);
                    assert(hay.subrange(0, 0 + lower_of(keyword@).len() as int) =~= lower_of(
                        keyword@,
                    ));
                }
                lemma_filtered_total(self@, by_keyword(keyword@));
            }
        }
        out
    }
}

proof fn lemma_insert_find(s: Seq<RecordModel>, m: RecordModel)
    ensures
        find_by_code(insert_model(s, m), m.code) == Some(m),
{
    lemma_first_match_props(s, by_code(m.code));
    let i = first_match(s, by_code(m.code));
    if i == -1 {
        lemma_first_match_at(s.push(m), by_code(m.code), s.len() as int);
    } else {
        lemma_first_match_at(s.update(i, m), by_code(m.code), i);
    }
}

proof fn lemma_insert_find_other(s: Seq<RecordModel>, m: RecordModel, c: Seq<char>)
    requires
        c != m.code,
    ensures
        find_by_code(insert_model(s, m), c) == find_by_code(s, c),
{
    lemma_first_match_props(s, by_code(m.code));
    lemma_first_match_props(s, by_code(c));
    let im = first_match(s, by_code(m.code));
    let ic = first_match(s, by_code(c));
    let s2 = insert_model(s, m);
    if ic == -1 {
        lemma_first_match_none(s2, by_code(c));
    } else {
        lemma_first_match_at(s2, by_code(c), ic);
    }
}

proof fn lemma_insert_unique(s: Seq<RecordModel>, m: RecordModel)
    requires
        codes_unique(s),
    ensures
        codes_unique(insert_model(s, m)),
{
    lemma_first_match_props(s, by_code(m.code));
    let i = first_match(s, by_code(m.code));
    let s2 = insert_model(s, m);
    if i == -1 {
        assert forall|a: int, b: int|
            #![trigger s2[a], s2[b]]
            0 <= a < b < s2.len() implies s2[a].code != s2[b].code by {
            if b == s.len() {
                assert(!by_code(m.code)(s[a]));
            }
        }
    } else {
        assert forall|a: int, b: int|
            #![trigger s2[a], s2[b]]
            0 <= a < b < s2.len() implies s2[a].code != s2[b].code by {
            assert(by_code(m.code)(s[i]));
            assert(s2[a].code == s[a].code);
            assert(s2[b].code == s[b].code);
        }
    }
}

/// Law: loading any sequence of rows leaves the index code-unique.
pub proof fn lemma_load_unique(rows: Seq<RecordModel>)
    ensures
        codes_unique(load_model(rows)),
    decreases rows.len(),
{
    if rows.len() > 0 {
        lemma_load_unique(rows.drop_last());
        lemma_insert_unique(load_model(rows.drop_last()), rows.last());
    }
}

/// Law (last write wins): when row `i` is the last row bearing its code,
/// looking that code up in the loaded index yields exactly row `i`.
pub proof fn lemma_last_write_wins(rows: Seq<RecordModel>, i: int)
    requires
        0 <= i < rows.len(),
        forall|k: int| i < k < rows.len() ==> rows[k].code != rows[i].code,
    ensures
        find_by_code(load_model(rows), rows[i].code) == Some(rows[i]),
    decreases rows.len(),
{
    let pre = rows.drop_last();
    let last = rows.last();
    if i == rows.len() - 1 {
        lemma_insert_find(load_model(pre), last);
    } else {
        lemma_last_write_wins(pre, i);
        assert(rows[rows.len() - 1].code != rows[i].code);
        lemma_insert_find_other(load_model(pre), last, rows[i].code);
    }
}

} // verus!
