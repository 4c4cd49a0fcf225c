use car_diagnostics::index::DiagnosticsIndex;
use car_diagnostics::index::LoadError;

const HEADER: &str = "code,description,severity,system,possible_causes,recommended_actions\n";

fn loaded(rows: &str) -> DiagnosticsIndex {
    let mut idx = DiagnosticsIndex::new();
    let data = format!("{}{}", HEADER, rows);
    let n = idx.load(&data);
    assert!(n.is_ok());
    idx
}

#[test]
fn load_counts_records() {
    let idx = loaded("P0100,Mass airflow fault,High,Engine,dirty sensor,clean sensor\nP0500,Speed sensor fault,Medium,Transmission,worn wiring,replace wiring\n");
    assert_eq!(idx.record_count(), 2);
}

#[test]
fn load_empty_input_yields_empty_index() {
    let mut idx = DiagnosticsIndex::new();
    assert_eq!(idx.load(""), Ok(0));
    assert_eq!(idx.record_count(), 0);
}

#[test]
fn load_header_only_yields_empty_index() {
    let mut idx = DiagnosticsIndex::new();
    assert_eq!(idx.load(HEADER), Ok(0));
    assert_eq!(idx.record_count(), 0);
}

#[test]
fn lookup_finds_exact_code() {
    let idx = loaded("P0100,Mass airflow fault,High,Engine,dirty sensor,clean sensor\n");
    let rec = idx.lookup("P0100").unwrap();
    assert_eq!(rec.code, "P0100");
    assert_eq!(rec.description, "Mass airflow fault");
    assert_eq!(rec.severity, "High");
    assert_eq!(rec.system, "Engine");
}

#[test]
fn lookup_is_case_sensitive() {
    let idx = loaded("P0100,Mass airflow fault,High,Engine,dirty sensor,clean sensor\n");
    assert!(idx.lookup("p0100").is_none());
}

#[test]
fn lookup_missing_code_is_none() {
    let idx = loaded("P0100,Mass airflow fault,High,Engine,dirty sensor,clean sensor\n");
    assert!(idx.lookup("P9999").is_none());
}

#[test]
fn last_write_wins_on_duplicate_codes() {
    let mut idx = DiagnosticsIndex::new();
    let data = format!(
        "{}P0100,first description,Low,Engine,a,b\nP0100,second description,High,Brakes,c,d\n",
        HEADER
    );
    assert_eq!(idx.load(&data), Ok(1));
    let rec = idx.lookup("P0100").unwrap();
    assert_eq!(rec.description, "second description");
    assert_eq!(rec.severity, "High");
    assert_eq!(rec.system, "Brakes");
}

#[test]
fn list_by_system_is_case_insensitive() {
    let idx = loaded("P0100,Mass airflow fault,High,Engine,dirty sensor,clean sensor\nP0500,Speed sensor fault,Medium,Transmission,worn wiring,replace wiring\n");
    for query in ["engine", "ENGINE", "Engine"] {
        let hits = idx.list_by_system(query);
        assert_eq!(hits.len(), 1);
        assert_eq!(hits[0].code, "P0100");
    }
    assert!(idx.list_by_system("Hydraulics").is_empty());
    assert!(idx.list_by_system("").is_empty());
}

#[test]
fn list_by_severity_is_case_insensitive() {
    let idx = loaded("P0100,Mass airflow fault,High,Engine,dirty sensor,clean sensor\nP0500,Speed sensor fault,Medium,Transmission,worn wiring,replace wiring\n");
    for query in ["high", "HIGH", "High"] {
        let hits = idx.list_by_severity(query);
        assert_eq!(hits.len(), 1);
        assert_eq!(hits[0].code, "P0100");
    }
    assert!(idx.list_by_severity("Critical").is_empty());
}

#[test]
fn search_scans_description_causes_and_actions() {
    let idx = loaded("T0001,turbo lag detected,Medium,Engine,worn seal|low boost,replace seal\n");
    assert_eq!(idx.search("seal").len(), 1);
    assert_eq!(idx.search("TURBO").len(), 1);
    assert_eq!(idx.search("boost").len(), 1);
    assert!(idx.search("zzz").is_empty());
}

#[test]
fn search_does_not_match_across_joined_segments() {
    let idx = loaded("T0001,turbo lag detected,Medium,Engine,worn seal|low boost,replace seal\n");
    assert!(idx.search("seal low").is_empty());
}

#[test]
fn empty_keyword_matches_every_record() {
    let idx = loaded("P0100,Mass airflow fault,High,Engine,dirty sensor,clean sensor\nP0500,Speed sensor fault,Medium,Transmission,worn wiring,replace wiring\nT0001,turbo lag detected,Medium,Engine,worn seal,replace seal\n");
    assert_eq!(idx.search("").len(), 3);
}

#[test]
fn malformed_row_fails_whole_load() {
    let mut idx = DiagnosticsIndex::new();
    let data = format!(
        "{}P0101,good row,Low,Engine,a,b\nP0102,short row,Low\n",
        HEADER
    );
    let r = idx.load(&data);
    assert_eq!(r, Err(LoadError::Syntax));
    assert!(idx.lookup("P0101").is_none());
    assert_eq!(idx.record_count(), 0);
}

#[test]
fn missing_required_column_fails_load() {
    let mut idx = DiagnosticsIndex::new();
    let data = "code,description,severity,system,possible_causes\nP0101,desc,Low,Engine,a\n";
    assert_eq!(idx.load(data), Err(LoadError::MissingColumn));
    assert_eq!(idx.record_count(), 0);
}

#[test]
fn failed_load_clears_previous_contents() {
    let mut idx = DiagnosticsIndex::new();
    let good = format!("{}P0100,desc,Low,Engine,a,b\n", HEADER);
    assert_eq!(idx.load(&good), Ok(1));
    let bad = format!("{}P0200,unbalanced \"quote,Low,Engine,a\n", HEADER);
    assert!(idx.load(&bad).is_err());
    assert_eq!(idx.record_count(), 0);
    assert!(idx.lookup("P0100").is_none());
}

#[test]
fn columns_bind_by_name_not_position() {
    let mut idx = DiagnosticsIndex::new();
    let data = "severity,code,system,description,recommended_actions,possible_causes\nLow,P0300,Ignition,misfire detected,check plugs,worn plugs\n";
    assert_eq!(idx.load(data), Ok(1));
    let rec = idx.lookup("P0300").unwrap();
    assert_eq!(rec.description, "misfire detected");
    assert_eq!(rec.severity, "Low");
    assert_eq!(rec.system, "Ignition");
    assert_eq!(rec.possible_causes, "worn plugs");
    assert_eq!(rec.recommended_actions, "check plugs");
}

#[test]
fn extra_columns_are_ignored() {
    let mut idx = DiagnosticsIndex::new();
    let data = "code,description,severity,system,possible_causes,recommended_actions,notes\nP0400,egr flow fault,Medium,Emissions,clogged valve,clean valve,seen twice\n";
    assert_eq!(idx.load(data), Ok(1));
    assert_eq!(idx.lookup("P0400").unwrap().system, "Emissions");
}

#[test]
fn quoted_fields_keep_embedded_commas() {
    let mut idx = DiagnosticsIndex::new();
    let data = format!(
        "{}P0500,\"speed sensor, rear\",Medium,Transmission,worn wiring,replace wiring\n",
        HEADER
    );
    assert_eq!(idx.load(&data), Ok(1));
    assert_eq!(idx.lookup("P0500").unwrap().description, "speed sensor, rear");
}

fn string_row(fields: &[&str]) -> Vec<String> {
    fields.iter().map(|f| String::from(*f)).collect()
}

#[test]
fn from_rows_builds_index() {
    let table = vec![
        string_row(&["code", "description", "severity", "system", "possible_causes", "recommended_actions"]),
        string_row(&["P0100", "Mass airflow fault", "High", "Engine", "dirty sensor", "clean sensor"]),
        string_row(&["P0100", "updated fault", "Low", "Engine", "dirty sensor", "clean sensor"]),
    ];
    let idx = DiagnosticsIndex::from_rows(&table).unwrap();
    assert_eq!(idx.record_count(), 1);
    assert_eq!(idx.lookup("P0100").unwrap().description, "updated fault");
}

#[test]
fn from_rows_rejects_short_row() {
    let table = vec![
        string_row(&["code", "description", "severity", "system", "possible_causes", "recommended_actions"]),
        string_row(&["P0100", "only a description"]),
    ];
    assert!(matches!(DiagnosticsIndex::from_rows(&table), Err(LoadError::Syntax)));
}

#[test]
fn from_rows_rejects_missing_column() {
    let table = vec![
        string_row(&["code", "description", "severity", "system", "possible_causes"]),
        string_row(&["P0100", "desc", "Low", "Engine", "a"]),
    ];
    assert!(matches!(DiagnosticsIndex::from_rows(&table), Err(LoadError::MissingColumn)));
}

#[test]
fn queries_on_empty_index_are_empty() {
    let idx = DiagnosticsIndex::new();
    assert!(idx.lookup("P0100").is_none());
    assert!(idx.list_by_system("Engine").is_empty());
    assert!(idx.list_by_severity("High").is_empty());
    assert!(idx.search("anything").is_empty());
    assert!(idx.search("").is_empty());
}
