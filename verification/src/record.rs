//! The value type for one diagnostic entry and its plain-text and HTML
//! renderings.

use vstd::prelude::*;
use vstd::string::StrSliceExecFns;
use vstd::string::StringExecFns;

use crate::strutil::contains_seq;
use crate::strutil::split_pipe;
use crate::strutil::split_segments;
use crate::strutil::trim_spec;
use crate::strutil::trimmed;

verus! {

/// The mathematical model of a record: the character sequences of its six
/// fields.
pub ghost struct RecordModel {
    pub code: Seq<char>,
    pub description: Seq<char>,
    pub severity: Seq<char>,
    pub system: Seq<char>,
    pub possible_causes: Seq<char>,
    pub recommended_actions: Seq<char>,
}

/// One diagnostic entry. `code` is the primary key; `possible_causes` and
/// `recommended_actions` hold `|`-delimited lists of segments.
pub struct Record {
    pub code: String,
    pub description: String,
    pub severity: String,
    pub system: String,
    pub possible_causes: String,
    pub recommended_actions: String,
}

impl View for Record {
    type V = RecordModel;

    open spec fn view(&self) -> RecordModel {
        RecordModel {
            code: self.code@,
            description: self.description@,
            severity: self.severity@,
            system: self.system@,
            possible_causes: self.possible_causes@,
            recommended_actions: self.recommended_actions@,
        }
    }
}

impl DeepView for Record {
    type V = RecordModel;

    open spec fn deep_view(&self) -> RecordModel {
        self.view()
    }
}

impl Clone for Record {
    fn clone(&self) -> (r: Self)
        ensures
            r == *self,
    {
        Record {
            code: self.code.clone(),
            description: self.description.clone(),
            severity: self.severity.clone(),
            system: self.system.clone(),
            possible_causes: self.possible_causes.clone(),
            recommended_actions: self.recommended_actions.clone(),
        }
    }
}

/// One line `  - seg\n` per segment, each segment trimmed of surrounding
/// white space. Empty segments still yield their own (blank) line.
pub open spec fn bullet_block(segs: Seq<Seq<char>>) -> Seq<char>
    decreases segs.len(),
{
    if segs.len() == 0 {
        Seq::<char>::empty()
    } else {
        bullet_block(segs.drop_last()) + "  - "@ + trim_spec(segs.last()) + "\n"@
    }
}

/// One HTML list item `<li>seg</li>\n` per segment, each segment trimmed.
pub open spec fn li_block(segs: Seq<Seq<char>>) -> Seq<char>
    decreases segs.len(),
{
    if segs.len() == 0 {
        Seq::<char>::empty()
    } else {
        li_block(segs.drop_last()) + "<li>"@ + trim_spec(segs.last()) + "</li>\n"@
    }
}

/// The plain-text rendering of a record: a fixed-order dump of all fields,
/// with a bulleted line per cause and per action.
pub open spec fn text_of(m: RecordModel) -> Seq<char> {
    "Error Code: "@ + m.code + "\n"@ + "Description: "@ + m.description + "\n"@ + "Severity: "@
        + m.severity + "\n"@ + "System: "@ + m.system + "\n"@ + "\nPossible Causes:\n"@
        + bullet_block(split_pipe(m.possible_causes)) + "\nRecommended Actions:\n"@ + bullet_block(
        split_pipe(m.recommended_actions),
    )
}

/// The HTML fragment rendering of a record: a container with a heading per
/// field and an unordered list per multi-valued field. Field values are
/// inserted verbatim, without HTML escaping.
pub open spec fn html_of(m: RecordModel) -> Seq<char> {
    "<div class='error-code'>\n"@ + "<h2>Error Code: "@ + m.code + "</h2>\n"@
        + "<p><strong>Description:</strong> "@ + m.description + "</p>\n"@
        + "<p><strong>Severity:</strong> "@ + m.severity + "</p>\n"@
        + "<p><strong>System:</strong> "@ + m.system + "</p>\n"@
        + "<h3>Possible Causes:</h3>\n<ul>\n"@ + li_block(split_pipe(m.possible_causes))
        + "</ul>\n"@ + "<h3>Recommended Actions:</h3>\n<ul>\n"@ + li_block(
        split_pipe(m.recommended_actions),
    ) + "</ul>\n"@ + "</div>\n"@
}

/// Appends one `  - seg\n` line per `|`-separated segment of `field`.
fn append_bullets(out: &mut String, field: &str)
    ensures
        final (out)@ == old(out)@ + bullet_block(split_pipe(field@)),
{
    let ghost base = out@;
    let segs = split_segments(field);
    let mut k: usize = 0;
    proof {
        assert(base + bullet_block(segs.deep_view().subrange(0, 0)) =~= base);
    }
    while k < segs.len()
        invariant
            k <= segs.len(),
            segs.deep_view() == split_pipe(field@),
            out@ == base + bullet_block(segs.deep_view().subrange(0, k as int)),
        decreases segs.len() - k,
    {
        out.append("  - ");
        let t = trimmed(segs[k].as_str());
        out.append(t);
        out.append("\n");
        proof {
            let dv = segs.deep_view();
            assert(dv.subrange(0, k + 1).drop_last() =~= dv.subrange(0, k as int));
            assert(dv.subrange(0, k + 1).last() == dv[k as int]);
            assert(out@ =~= base + bullet_block(dv.subrange(0, k + 1)));
        }
        k += 1;
    }
    proof {
        assert(segs.deep_view().subrange(0, segs.len() as int) =~= segs.deep_view());
    }
}

/// Appends one `<li>seg</li>\n` item per `|`-separated segment of `field`.
fn append_items(out: &mut String, field: &str)
    ensures
        final (out)@ == old(out)@ + li_block(split_pipe(field@)),
{
    let ghost base = out@;
    let segs = split_segments(field);
    let mut k: usize = 0;
    proof {
        assert(base + li_block(segs.deep_view().subrange(0, 0)) =~= base);
    }
    while k < segs.len()
        invariant
            k <= segs.len(),
            segs.deep_view() == split_pipe(field@),
            out@ == base + li_block(segs.deep_view().subrange(0, k as int)),
        decreases segs.len() - k,
    {
        out.append("<li>");
        let t = trimmed(segs[k].as_str());
        out.append(t);
        out.append("</li>\n");
        proof {
            let dv = segs.deep_view();
            assert(dv.subrange(0, k + 1).drop_last() =~= dv.subrange(0, k as int));
            assert(dv.subrange(0, k + 1).last() == dv[k as int]);
            assert(out@ =~= base + li_block(dv.subrange(0, k + 1)));
        }
        k += 1;
    }
    proof {
        assert(segs.deep_view().subrange(0, segs.len() as int) =~= segs.deep_view());
    }
}

impl Record {
    /// The plain-text report for this record, exactly `text_of(self@)`.
    pub fn render_text(&self) -> (r: String)
        ensures
            r@ == text_of(self@),
    {
        let mut out = String::new();
        out.append("Error Code: ");
        out.append(self.code.as_str());
        out.append("\n");
        out.append("Description: ");
        out.append(self.description.as_str());
        out.append("\n");
        out.append("Severity: ");
        out.append(self.severity.as_str());
        out.append("\n");
        out.append("System: ");
        out.append(self.system.as_str());
        out.append("\n");
        out.append("\nPossible Causes:\n");
        append_bullets(&mut out, self.possible_causes.as_str());
        out.append("\nRecommended Actions:\n");
        append_bullets(&mut out, self.recommended_actions.as_str());
        proof {
            assert(out@ =~= text_of(self@));
        }
        out
    }

    /// The HTML fragment for this record, exactly `html_of(self@)`.
    pub fn render_html_fragment(&self) -> (r: String)
        ensures
            r@ == html_of(self@),
    {
        let mut out = String::new();
        out.append("<div class='error-code'>\n");
        out.append("<h2>Error Code: ");
        out.append(self.code.as_str());
        out.append("</h2>\n");
        out.append("<p><strong>Description:</strong> ");
        out.append(self.description.as_str());
        out.append("</p>\n");
        out.append("<p><strong>Severity:</strong> ");
        out.append(self.severity.as_str());
        out.append("</p>\n");
        out.append("<p><strong>System:</strong> ");
        out.append(self.system.as_str());
        out.append("</p>\n");
        out.append("<h3>Possible Causes:</h3>\n<ul>\n");
        append_items(&mut out, self.possible_causes.as_str());
        out.append("</ul>\n");
        out.append("<h3>Recommended Actions:</h3>\n<ul>\n");
        append_items(&mut out, self.recommended_actions.as_str());
        out.append("</ul>\n");
        out.append("</div>\n");
        proof {
            assert(out@ =~= html_of(self@));
        }
        out
    }
}

proof fn lemma_embedded(t: Seq<char>, a: Seq<char>, x: Seq<char>, b: Seq<char>)
    requires
        t == a + x + b,
    ensures
        contains_seq(t, x),
{
    assert(t.subrange(a.len() as int, a.len() as int + x.len() as int) =~= x);
    assert(0 <= a.len() <= t.len() - x.len());
}

/// Law: the plain-text rendering carries the record's `code`, `description`,
/// `severity` and `system` values verbatim as substrings.
#[verifier::rlimit(60)]
pub proof fn lemma_render_text_contains_fields(m: RecordModel)
    ensures
        contains_seq(text_of(m), m.code),
        contains_seq(text_of(m), m.description),
        contains_seq(text_of(m), m.severity),
        contains_seq(text_of(m), m.system),
{
    let t = text_of(m);
    let tail_code = "\n"@ + "Description: "@ + m.description + "\n"@ + "Severity: "@ + m.severity
        + "\n"@ + "System: "@ + m.system + "\n"@ + "\nPossible Causes:\n"@ + bullet_block(
        split_pipe(m.possible_causes),
    ) + "\nRecommended Actions:\n"@ + bullet_block(split_pipe(m.recommended_actions));
    assert(t =~= "Error Code: "@ + m.code + tail_code);
    lemma_embedded(t, "Error Code: "@, m.code, tail_code);

    let pre_desc = "Error Code: "@ + m.code + "\n"@ + "Description: "@;
    let tail_desc = "\n"@ + "Severity: "@ + m.severity + "\n"@ + "System: "@ + m.system + "\n"@
        + "\nPossible Causes:\n"@ + bullet_block(split_pipe(m.possible_causes))
        + "\nRecommended Actions:\n"@ + bullet_block(split_pipe(m.recommended_actions));
    assert(t =~= pre_desc + m.description + tail_desc);
    lemma_embedded(t, pre_desc, m.description, tail_desc);

    let pre_sev = pre_desc + m.description + "\n"@ + "Severity: "@;
    let tail_sev = "\n"@ + "System: "@ + m.system + "\n"@ + "\nPossible Causes:\n"@ + bullet_block(
        split_pipe(m.possible_causes),
    ) + "\nRecommended Actions:\n"@ + bullet_block(split_pipe(m.recommended_actions));
    assert(t =~= pre_sev + m.severity + tail_sev);
    lemma_embedded(t, pre_sev, m.severity, tail_sev);

    let pre_sys = pre_sev + m.severity + "\n"@ + "System: "@;
    let tail_sys = "\n"@ + "\nPossible Causes:\n"@ + bullet_block(split_pipe(m.possible_causes))
        + "\nRecommended Actions:\n"@ + bullet_block(split_pipe(m.recommended_actions));
    assert(t =~= pre_sys + m.system + tail_sys);
    lemma_embedded(t, pre_sys, m.system, tail_sys);
}

} // verus!
