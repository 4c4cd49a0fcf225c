use car_diagnostics::index::DiagnosticsIndex;
use car_diagnostics::record::Record;

fn sample() -> Record {
    Record {
        code: String::from("X1"),
        description: String::from("demo fault"),
        severity: String::from("Low"),
        system: String::from("Engine"),
        possible_causes: String::from("a|b|c"),
        recommended_actions: String::from("r"),
    }
}

#[test]
fn text_rendering_is_exact() {
    let expected = "Error Code: X1\nDescription: demo fault\nSeverity: Low\nSystem: Engine\n\nPossible Causes:\n  - a\n  - b\n  - c\n\nRecommended Actions:\n  - r\n";
    assert_eq!(sample().render_text(), expected);
}

#[test]
fn html_rendering_is_exact() {
    let expected = "<div class='error-code'>\n<h2>Error Code: X1</h2>\n<p><strong>Description:</strong> demo fault</p>\n<p><strong>Severity:</strong> Low</p>\n<p><strong>System:</strong> Engine</p>\n<h3>Possible Causes:</h3>\n<ul>\n<li>a</li>\n<li>b</li>\n<li>c</li>\n</ul>\n<h3>Recommended Actions:</h3>\n<ul>\n<li>r</li>\n</ul>\n</div>\n";
    assert_eq!(sample().render_html_fragment(), expected);
}

#[test]
fn delimited_fields_render_one_bullet_per_segment() {
    let text = sample().render_text();
    let causes_part = text
        .split("Possible Causes:\n")
        .nth(1)
        .unwrap()
        .split("\nRecommended Actions:")
        .next()
        .unwrap();
    assert_eq!(causes_part, "  - a\n  - b\n  - c\n");
    let html = sample().render_html_fragment();
    assert_eq!(html.matches("<li>").count(), 4);
}

#[test]
fn segments_are_trimmed_of_surrounding_whitespace() {
    let mut rec = sample();
    rec.possible_causes = String::from(" worn seal | low boost ");
    let text = rec.render_text();
    assert!(text.contains("  - worn seal\n  - low boost\n"));
}

#[test]
fn empty_segments_render_as_blank_bullets() {
    let mut rec = sample();
    rec.possible_causes = String::from("a||");
    let text = rec.render_text();
    assert!(text.contains("Possible Causes:\n  - a\n  - \n  - \n"));
}

#[test]
fn field_without_delimiter_is_one_segment() {
    let mut rec = sample();
    rec.recommended_actions = String::from("replace the seal");
    let text = rec.render_text();
    assert!(text.contains("Recommended Actions:\n  - replace the seal\n"));
}

#[test]
fn rendered_text_carries_fields_verbatim() {
    let mut idx = DiagnosticsIndex::new();
    let data = "code,description,severity,system,possible_causes,recommended_actions\nP0171,system too lean,Critical,Fuel,vacuum leak|weak pump,smoke test|check pressure\n";
    assert_eq!(idx.load(data), Ok(1));
    let text = idx.lookup("P0171").unwrap().render_text();
    for field in ["P0171", "system too lean", "Critical", "Fuel"] {
        assert!(text.contains(field));
    }
}
