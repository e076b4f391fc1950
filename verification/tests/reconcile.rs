use sendgrid_manager::ActiveClassification;
use sendgrid_manager::CheckOutcome;
use sendgrid_manager::ContentField;
use sendgrid_manager::PlanEntry;
use sendgrid_manager::RemoteTemplateRecord;
use sendgrid_manager::ResolvedVersion;
use sendgrid_manager::SyncDecision;
use sendgrid_manager::Template;
use sendgrid_manager::TemplateError;
use sendgrid_manager::VersionRecord;
use sendgrid_manager::build_candidate;
use sendgrid_manager::build_local_set;
use sendgrid_manager::check_templates;
use sendgrid_manager::classify_active;
use sendgrid_manager::decide_sync_action;
use sendgrid_manager::pending_filename;
use sendgrid_manager::plan_fetches;
use sendgrid_manager::sync_filename;

fn version(id: &str, active: u8) -> VersionRecord {
    VersionRecord { id: id.to_string(), active }
}

fn record(id: &str, name: &str, versions: Vec<VersionRecord>) -> RemoteTemplateRecord {
    RemoteTemplateRecord {
        id: id.to_string(),
        name: name.to_string(),
        versions,
    }
}

fn template(name: &str, plain: &str, html: &str) -> Template {
    Template {
        name: name.to_string(),
        plain_body: plain.to_string(),
        html_body: html.to_string(),
    }
}

fn resolved(id: &str, name: &str, plain: Option<&str>, html: Option<&str>) -> ResolvedVersion {
    ResolvedVersion {
        template_id: id.to_string(),
        name: name.to_string(),
        plain_content: plain.map(|s| s.to_string()),
        html_content: html.map(|s| s.to_string()),
    }
}

#[test]
fn classify_no_versions() {
    assert_eq!(classify_active(&Vec::new()), ActiveClassification::NoVersions);
}

#[test]
fn classify_none_active() {
    let vs = vec![version("v1", 0), version("v2", 0)];
    assert_eq!(classify_active(&vs), ActiveClassification::NoActive);
}

#[test]
fn classify_one_active() {
    let vs = vec![version("v1", 0), version("v2", 1), version("v3", 0)];
    assert_eq!(classify_active(&vs), ActiveClassification::OneActive(1));
}

#[test]
fn classify_multiple_active() {
    let vs = vec![version("v1", 1), version("v2", 1)];
    assert_eq!(classify_active(&vs), ActiveClassification::MultipleActive);
}

#[test]
fn batch_survives_one_anomalous_record() {
    // Three remote templates; the middle one has versions but none active.
    // The plan still holds one entry per record: two fetches, one report.
    let records = vec![
        record("t1", "first", vec![version("v1", 1)]),
        record("t2", "second", vec![version("v2", 0), version("v3", 0)]),
        record("t3", "third", vec![version("v4", 0), version("v5", 1)]),
    ];
    let plan = plan_fetches(&records);
    assert_eq!(plan.len(), 3);
    assert!(matches!(&plan[0], PlanEntry::Fetch { template_id, version_id }
        if template_id == "t1" && version_id == "v1"));
    assert!(matches!(plan[1], PlanEntry::ReportNoActive));
    assert!(matches!(&plan[2], PlanEntry::Fetch { template_id, version_id }
        if template_id == "t3" && version_id == "v5"));
}

#[test]
fn plan_skips_and_reports() {
    let records = vec![
        record("t1", "a", Vec::new()),
        record("t2", "b", vec![version("v1", 1), version("v2", 1)]),
    ];
    let plan = plan_fetches(&records);
    assert_eq!(plan.len(), 2);
    assert!(matches!(plan[0], PlanEntry::SkipNoVersions));
    assert!(matches!(plan[1], PlanEntry::ReportMultipleActive));
}

#[test]
fn candidate_needs_both_bodies() {
    let ok = build_candidate("n".to_string(), Some("p".to_string()), Some("h".to_string()));
    assert_eq!(ok, Ok(template("n", "p", "h")));
    let no_plain = build_candidate("n".to_string(), None, Some("h".to_string()));
    assert_eq!(no_plain, Err(ContentField::Plain));
    let no_html = build_candidate("n".to_string(), Some("p".to_string()), None);
    assert_eq!(no_html, Err(ContentField::Html));
    let neither = build_candidate("n".to_string(), None, None);
    assert_eq!(neither, Err(ContentField::Plain));
}

#[test]
fn decide_writes_new_file_when_local_absent() {
    let candidate = template("name", "p", "h");
    let d = decide_sync_action(&candidate, None);
    assert!(matches!(d, SyncDecision::WriteNew));
}

#[test]
fn decide_unchanged_when_local_equal() {
    let candidate = template("name", "p", "h");
    let mut stored = String::new();
    candidate.write_to(&mut stored);
    let d = decide_sync_action(&candidate, Some(&stored));
    assert!(matches!(d, SyncDecision::Unchanged));
}

#[test]
fn decide_reports_corrupt_local_file() {
    let candidate = template("name", "p", "h");
    let d = decide_sync_action(&candidate, Some("not a template"));
    assert!(matches!(
        d,
        SyncDecision::CorruptLocal(TemplateError::HeaderInvalidFormat)
    ));
}

#[test]
fn no_clobber_on_divergence() {
    // The local file decodes to a template that differs from the remote
    // candidate: the decision never overwrites it, it asks for the pending
    // sibling file, and that sibling's name differs from the original's.
    let local = template("a", "X", "Y");
    let mut stored = String::new();
    local.write_to(&mut stored);
    let stored_before = stored.clone();

    let candidate = template("a", "X", "Z");
    let d = decide_sync_action(&candidate, Some(&stored));
    assert!(matches!(
        d,
        SyncDecision::WritePending { plain_differs: false, html_differs: true }
    ));
    assert_eq!(stored, stored_before);
    let id = "d-12345".to_string();
    assert_ne!(pending_filename(&id), sync_filename(&id));
}

#[test]
fn decide_reports_both_fields_differing() {
    let local = template("a", "X", "Y");
    let mut stored = String::new();
    local.write_to(&mut stored);
    let candidate = template("a", "P", "Q");
    let d = decide_sync_action(&candidate, Some(&stored));
    assert!(matches!(
        d,
        SyncDecision::WritePending { plain_differs: true, html_differs: true }
    ));
}

#[test]
fn new_file_write_round_trips() {
    // An empty local directory and one well-formed remote template: the
    // sync plan fetches its one active version, the candidate is written
    // as a new file whose text decodes back to the candidate, under a
    // filename derived from the remote id.
    let locals = build_local_set(&Vec::new());
    assert!(locals.is_empty());

    let records = vec![record("d-1", "welcome", vec![version("v9", 1)])];
    let plan = plan_fetches(&records);
    assert_eq!(plan.len(), 1);
    let (template_id, _version_id) = match &plan[0] {
        PlanEntry::Fetch { template_id, version_id } => (template_id.clone(), version_id.clone()),
        other => panic!("expected a fetch, got {:?}", other),
    };

    let candidate = build_candidate(
        "welcome".to_string(),
        Some("plain text".to_string()),
        Some("<p>html</p>".to_string()),
    )
    .unwrap();
    let d = decide_sync_action(&candidate, None);
    assert!(matches!(d, SyncDecision::WriteNew));

    let mut written = String::new();
    candidate.write_to(&mut written);
    assert_eq!(Template::parse(&written), Ok(candidate));
    assert_eq!(sync_filename(&template_id), "d-1.mailtemplate");
}

#[test]
fn filenames_derive_from_id() {
    let id = "d-abc".to_string();
    assert_eq!(sync_filename(&id), "d-abc.mailtemplate");
    assert_eq!(pending_filename(&id), "d-abc.mailtemplate.tmp");
}

#[test]
fn check_reports_html_mismatch() {
    // Local {a, X, Y} against a resolved remote with plain X and html Z:
    // the content does not match, and the HTML field is the one that
    // differs.
    let locals = vec![template("a", "X", "Y")];
    let remotes = vec![resolved("123", "a", Some("X"), Some("Z"))];
    let outcomes = check_templates(&locals, &remotes);
    assert_eq!(outcomes.len(), 1);
    match &outcomes[0] {
        CheckOutcome::Found { template_id, plain_matches, html_matches } => {
            assert_eq!(template_id, "123");
            assert!(*plain_matches);
            assert!(!*html_matches);
            let content_match = *plain_matches && *html_matches;
            assert!(!content_match);
        }
        other => panic!("expected a match, got {:?}", other),
    }
}

#[test]
fn check_reports_missing_remote() {
    let locals = vec![template("a", "X", "Y")];
    let remotes = vec![resolved("123", "other", Some("X"), Some("Y"))];
    let outcomes = check_templates(&locals, &remotes);
    assert_eq!(outcomes.len(), 1);
    assert!(matches!(outcomes[0], CheckOutcome::NoRemote));
}

#[test]
fn check_absent_remote_fields_compare_as_empty() {
    let locals = vec![template("a", "", ""), template("b", "p", "")];
    let remotes = vec![
        resolved("1", "a", None, None),
        resolved("2", "b", None, Some("")),
    ];
    let outcomes = check_templates(&locals, &remotes);
    assert_eq!(outcomes.len(), 2);
    assert!(matches!(
        outcomes[0],
        CheckOutcome::Found { plain_matches: true, html_matches: true, .. }
    ));
    assert!(matches!(
        outcomes[1],
        CheckOutcome::Found { plain_matches: false, html_matches: true, .. }
    ));
}

#[test]
fn check_finds_first_remote_of_name() {
    let locals = vec![template("a", "X", "Y")];
    let remotes = vec![
        resolved("1", "a", Some("no"), Some("no")),
        resolved("2", "a", Some("X"), Some("Y")),
    ];
    let outcomes = check_templates(&locals, &remotes);
    assert!(matches!(
        &outcomes[0],
        CheckOutcome::Found { template_id, plain_matches: false, html_matches: false }
            if template_id == "1"
    ));
}

#[test]
fn local_set_later_entry_wins_on_name_collision() {
    let mut first = String::new();
    template("same", "old", "old").write_to(&mut first);
    let mut second = String::new();
    template("same", "new", "new").write_to(&mut second);
    let set = build_local_set(&vec![first, second]);
    assert_eq!(set.len(), 1);
    assert_eq!(set[0], template("same", "new", "new"));
}

#[test]
fn add_template_replaces_entry_of_same_name() {
    let mut set = vec![template("a", "1", "1"), template("b", "2", "2")];
    sendgrid_manager::add_template(&mut set, template("a", "9", "9"));
    assert_eq!(set.len(), 2);
    assert_eq!(set[0], template("a", "9", "9"));
    assert_eq!(set[1], template("b", "2", "2"));
    sendgrid_manager::add_template(&mut set, template("c", "3", "3"));
    assert_eq!(set.len(), 3);
    assert_eq!(set[2], template("c", "3", "3"));
}

#[test]
fn local_set_passes_over_unreadable_text() {
    let mut good = String::new();
    template("good", "p", "h").write_to(&mut good);
    let set = build_local_set(&vec!["garbage".to_string(), good]);
    assert_eq!(set.len(), 1);
    assert_eq!(set[0].name, "good");
}
