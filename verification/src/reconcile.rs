//! Reconciliation of remote template records with locally stored templates.
//!
//! The remote provider reports, per template, an identifier, a name and a
//! list of versions, each flagged active or not. The functions here classify
//! those records (exactly one version may be active), plan which version
//! contents to fetch, decide per template whether a fetched candidate is
//! new, unchanged or diverged from the local file, and compare local
//! templates against resolved remote content. They perform no I/O: the
//! caller scans directories, fetches content and writes files.

use vstd::prelude::*;

use crate::codec::Template;
use crate::codec::TemplateError;
use crate::codec::TemplateView;
use crate::codec::spec_parse;

verus! {

/// One version of a remote template, as the provider lists it.
#[derive(Debug, Clone)]
pub struct VersionRecord {
    /// Provider-assigned version identifier.
    pub id: String,
    /// The provider's active flag: `1` marks the live version.
    pub active: u8,
}

/// The mathematical value of a [`VersionRecord`].
pub struct VersionRecordView {
    pub id: Seq<char>,
    pub active: u8,
}

impl View for VersionRecord {
    type V = VersionRecordView;

    open spec fn view(&self) -> VersionRecordView {
        VersionRecordView { id: self.id@, active: self.active }
    }
}

impl DeepView for VersionRecord {
    type V = VersionRecordView;

    open spec fn deep_view(&self) -> VersionRecordView {
        self.view()
    }
}

/// A remote template record: metadata without body content.
#[derive(Debug, Clone)]
pub struct RemoteTemplateRecord {
    /// Provider-assigned template identifier; local filenames derive from
    /// it.
    pub id: String,
    /// Template name.
    pub name: String,
    /// The versions the provider lists for this template.
    pub versions: Vec<VersionRecord>,
}

/// The mathematical value of a [`RemoteTemplateRecord`].
pub struct RemoteTemplateRecordView {
    pub id: Seq<char>,
    pub name: Seq<char>,
    pub versions: Seq<VersionRecordView>,
}

impl View for RemoteTemplateRecord {
    type V = RemoteTemplateRecordView;

    open spec fn view(&self) -> RemoteTemplateRecordView {
        RemoteTemplateRecordView {
            id: self.id@,
            name: self.name@,
            versions: self.versions.deep_view(),
        }
    }
}

impl DeepView for RemoteTemplateRecord {
    type V = RemoteTemplateRecordView;

    open spec fn deep_view(&self) -> RemoteTemplateRecordView {
        self.view()
    }
}

/// The full content of a remote template's active version, as fetched.
/// Either content field may be absent from the provider's answer.
#[derive(Debug, Clone)]
pub struct ResolvedVersion {
    /// Identifier of the template this version belongs to.
    pub template_id: String,
    /// Version name (the provider names versions after the template).
    pub name: String,
    /// Plain-text body, if the provider sent one.
    pub plain_content: Option<String>,
    /// HTML body, if the provider sent one.
    pub html_content: Option<String>,
}

/// The mathematical value of a [`ResolvedVersion`].
pub struct ResolvedVersionView {
    pub template_id: Seq<char>,
    pub name: Seq<char>,
    pub plain_content: Option<Seq<char>>,
    pub html_content: Option<Seq<char>>,
}

impl View for ResolvedVersion {
    type V = ResolvedVersionView;

    open spec fn view(&self) -> ResolvedVersionView {
        ResolvedVersionView {
            template_id: self.template_id@,
            name: self.name@,
            plain_content: self.plain_content.deep_view(),
            html_content: self.html_content.deep_view(),
        }
    }
}

impl DeepView for ResolvedVersion {
    type V = ResolvedVersionView;

    open spec fn deep_view(&self) -> ResolvedVersionView {
        self.view()
    }
}

/// How many versions carry the active flag.
pub open spec fn active_count(vs: Seq<VersionRecordView>) -> nat
    decreases vs.len(),
{
    if vs.len() == 0 {
        0
    } else {
        active_count(vs.drop_last()) + if vs.last().active == 1 {
            1nat
        } else {
            0nat
        }
    }
}

/// How a record's version list stands with respect to the one-active-version
/// invariant.
#[derive(Debug, Clone, Copy, PartialEq, Eq, Structural)]
pub enum ActiveClassification {
    /// The record lists no versions at all.
    NoVersions,
    /// Versions exist but none is active.
    NoActive,
    /// More than one version is active.
    MultipleActive,
    /// Exactly one version is active: the one at this index.
    OneActive(usize),
}

/// Classify a record's version list: a template is synchronisable exactly
/// when one single version is active.
pub fn classify_active(versions: &Vec<VersionRecord>) -> (r: ActiveClassification)
    ensures
        ({
            let vs = versions.deep_view();
            match r {
                ActiveClassification::NoVersions => vs.len() == 0,
                ActiveClassification::NoActive => vs.len() > 0 && active_count(vs) == 0,
                ActiveClassification::MultipleActive => active_count(vs) > 1,
                ActiveClassification::OneActive(i) => {
                    &&& active_count(vs) == 1
                    &&& 0 <= i < vs.len()
                    &&& vs[i as int].active == 1
                    &&& forall|k: int|
                        0 <= k < vs.len() && k != i ==> (#[trigger] vs[k].active) != 1
                },
            }
        }),
{
    let ghost vs = versions.deep_view();
    let n = versions.len();
    if n == 0 {
        return ActiveClassification::NoVersions;
    }
    let mut count: usize = 0;
    let mut found: usize = 0;
    let mut i: usize = 0;
    while i < n
        invariant
            0 <= i <= n,
            n == vs.len(),
            vs == versions.deep_view(),
            count == active_count(vs.subrange(0, i as int)),
            count <= i,
            count >= 1 ==> 0 <= found < i && vs[found as int].active == 1,
            count == 1 ==> forall|k: int|
                0 <= k < i && k != found ==> (#[trigger] vs[k].active) != 1,
            count == 0 ==> forall|k: int| 0 <= k < i ==> (#[trigger] vs[k].active) != 1,
        decreases n - i,
    {
        proof {
            assert(vs.subrange(0, i + 1).drop_last() =~= vs.subrange(0, i as int));
            assert(vs.subrange(0, i + 1).last() == vs[i as int]);
        }
        if versions[i].active == 1 {
            count = count + 1;
            found = i;
        }
        i = i + 1;
    }
    proof {
        assert(vs.subrange(0, n as int) =~= vs);
    }
    if count == 0 {
        ActiveClassification::NoActive
    } else if count > 1 {
        ActiveClassification::MultipleActive
    } else {
        ActiveClassification::OneActive(found)
    }
}

/// One entry of a synchronisation plan: what to do about one remote record
/// before any content is fetched.
#[derive(Debug, Clone)]
pub enum PlanEntry {
    /// The record lists no versions: nothing to do, nothing to report.
    SkipNoVersions,
    /// Versions exist but none is active: report, skip.
    ReportNoActive,
    /// More than one active version: report, skip.
    ReportMultipleActive,
    /// Exactly one active version: fetch its content.
    Fetch {
        /// The record's template identifier.
        template_id: String,
        /// The active version's identifier.
        version_id: String,
    },
}

/// The mathematical value of a [`PlanEntry`].
pub enum PlanEntryView {
    SkipNoVersions,
    ReportNoActive,
    ReportMultipleActive,
    Fetch { template_id: Seq<char>, version_id: Seq<char> },
}

impl View for PlanEntry {
    type V = PlanEntryView;

    open spec fn view(&self) -> PlanEntryView {
        match self {
            PlanEntry::SkipNoVersions => PlanEntryView::SkipNoVersions,
            PlanEntry::ReportNoActive => PlanEntryView::ReportNoActive,
            PlanEntry::ReportMultipleActive => PlanEntryView::ReportMultipleActive,
            PlanEntry::Fetch { template_id, version_id } => PlanEntryView::Fetch {
                template_id: template_id@,
                version_id: version_id@,
            },
        }
    }
}

impl DeepView for PlanEntry {
    type V = PlanEntryView;

    open spec fn deep_view(&self) -> PlanEntryView {
        self.view()
    }
}

/// The plan entry a record calls for: a report for each anomaly, a fetch of
/// the one active version's content otherwise.
pub open spec fn plan_entry_matches(e: PlanEntryView, rec: RemoteTemplateRecordView) -> bool {
    match e {
        PlanEntryView::SkipNoVersions => rec.versions.len() == 0,
        PlanEntryView::ReportNoActive => rec.versions.len() > 0 && active_count(rec.versions)
            == 0,
        PlanEntryView::ReportMultipleActive => active_count(rec.versions) > 1,
        PlanEntryView::Fetch { template_id, version_id } => {
            &&& active_count(rec.versions) == 1
            &&& template_id == rec.id
            &&& exists|k: int|
                0 <= k < rec.versions.len() && (#[trigger] rec.versions[k]).active == 1
                    && version_id == rec.versions[k].id
        },
    }
}

/// Build the synchronisation plan: one entry per record, in order. Records
/// with anomalies are reported, never fetched; one bad record never
/// disturbs the others.
pub fn plan_fetches(records: &Vec<RemoteTemplateRecord>) -> (r: Vec<PlanEntry>)
    ensures
        r.deep_view().len() == records.deep_view().len(),
        forall|i: int|
            0 <= i < records.deep_view().len() ==> plan_entry_matches(
                #[trigger] r.deep_view()[i],
                records.deep_view()[i],
            ),
{
    let n = records.len();
    let mut r: Vec<PlanEntry> = Vec::new();
    let mut i: usize = 0;
    while i < n
        invariant
            0 <= i <= n,
            n == records.deep_view().len(),
            r.deep_view().len() == i,
            forall|j: int|
                0 <= j < i ==> plan_entry_matches(
                    #[trigger] r.deep_view()[j],
                    records.deep_view()[j],
                ),
        decreases n - i,
    {
        let ghost old_r = r.deep_view();
        let entry = match classify_active(&records[i].versions) {
            ActiveClassification::NoVersions => PlanEntry::SkipNoVersions,
            ActiveClassification::NoActive => PlanEntry::ReportNoActive,
            ActiveClassification::MultipleActive => PlanEntry::ReportMultipleActive,
            ActiveClassification::OneActive(a) => PlanEntry::Fetch {
                template_id: records[i].id.clone(),
                version_id: records[i].versions[a].id.clone(),
            },
        };
        r.push(entry);
        proof {
            assert(r.deep_view() =~= old_r.push(r.deep_view().last()));
        }
        i = i + 1;
    }
    r
}

/// One anomalous record (versions present, none active) does not disturb
/// the batch: the plan still holds one entry per record, a report for the
/// anomalous one, a fetch for every other.
pub proof fn lemma_batch_resilience(
    plan: Seq<PlanEntryView>,
    records: Seq<RemoteTemplateRecordView>,
    k: int,
)
    requires
        plan.len() == records.len(),
        forall|i: int|
            0 <= i < records.len() ==> plan_entry_matches(#[trigger] plan[i], records[i]),
        0 <= k < records.len(),
        records[k].versions.len() > 0,
        active_count(records[k].versions) == 0,
        forall|i: int|
            0 <= i < records.len() && i != k ==> active_count(
                (#[trigger] records[i]).versions,
            ) == 1,
    ensures
        plan[k] is ReportNoActive,
        forall|i: int| 0 <= i < plan.len() && i != k ==> (#[trigger] plan[i]) is Fetch,
{
    assert(plan_entry_matches(plan[k], records[k]));
    assert forall|i: int| 0 <= i < plan.len() && i != k implies (#[trigger] plan[i]) is Fetch by {
        assert(plan_entry_matches(plan[i], records[i]));
    }
}

/// Which content field a fetched version lacked.
#[derive(Debug, Clone, Copy, PartialEq, Eq, Structural)]
pub enum ContentField {
    /// The plain-text body was absent.
    Plain,
    /// The HTML body was absent.
    Html,
}

/// Build the candidate template from a fetched version's fields. A missing
/// body is a per-template failure (the plain one is checked first), to be
/// reported without disturbing the rest of the batch.
pub fn build_candidate(
    name: String,
    plain_content: Option<String>,
    html_content: Option<String>,
) -> (r: Result<Template, ContentField>)
    ensures
        match r {
            Ok(t) => {
                &&& plain_content matches Some(p) && t@.plain_body == p@
                &&& html_content matches Some(h) && t@.html_body == h@
                &&& t@.name == name@
            },
            Err(f) => match f {
                ContentField::Plain => plain_content is None,
                ContentField::Html => plain_content is Some && html_content is None,
            },
        },
{
    match plain_content {
        None => Err(ContentField::Plain),
        Some(plain_body) => match html_content {
            None => Err(ContentField::Html),
            Some(html_body) => Ok(Template { name, plain_body, html_body }),
        },
    }
}

/// What the synchronisation is to do about one remote candidate, given the
/// text of the local file under the candidate's filename, if that file
/// exists.
#[derive(Debug, Clone)]
pub enum SyncDecision {
    /// No local file: write the candidate as a new file.
    WriteNew,
    /// The local file decodes to exactly the candidate: write nothing.
    Unchanged,
    /// The local file decodes to a different template: leave it untouched
    /// and write the candidate to the sibling pending file.
    WritePending {
        /// Whether the plain bodies differ.
        plain_differs: bool,
        /// Whether the HTML bodies differ.
        html_differs: bool,
    },
    /// The local file does not decode: report, write nothing.
    CorruptLocal(TemplateError),
}

/// The mathematical value of a [`SyncDecision`].
pub enum SyncDecisionView {
    WriteNew,
    Unchanged,
    WritePending { plain_differs: bool, html_differs: bool },
    CorruptLocal(crate::codec::TemplateErrorView),
}

impl View for SyncDecision {
    type V = SyncDecisionView;

    open spec fn view(&self) -> SyncDecisionView {
        match self {
            SyncDecision::WriteNew => SyncDecisionView::WriteNew,
            SyncDecision::Unchanged => SyncDecisionView::Unchanged,
            SyncDecision::WritePending { plain_differs, html_differs } => (
            SyncDecisionView::WritePending {
                plain_differs: *plain_differs,
                html_differs: *html_differs,
            }),
            SyncDecision::CorruptLocal(e) => SyncDecisionView::CorruptLocal(e@),
        }
    }
}

impl DeepView for SyncDecision {
    type V = SyncDecisionView;

    open spec fn deep_view(&self) -> SyncDecisionView {
        self.view()
    }
}

/// The decision [`decide_sync_action`] returns: a missing local file is
/// written new; a local file that does not parse is reported corrupt; a
/// parsed local template equal to the candidate needs nothing; any other
/// gets the candidate written beside it, with the differing fields named.
pub open spec fn spec_decide(candidate: TemplateView, local: Option<Seq<char>>) -> SyncDecisionView {
    match local {
        None => SyncDecisionView::WriteNew,
        Some(content) => match spec_parse(content) {
            Err(e) => SyncDecisionView::CorruptLocal(e),
            Ok(t) => if t == candidate {
                SyncDecisionView::Unchanged
            } else {
                SyncDecisionView::WritePending {
                    plain_differs: t.plain_body != candidate.plain_body,
                    html_differs: t.html_body != candidate.html_body,
                }
            },
        },
    }
}

/// Decide what to do about one candidate template, given the local file's
/// text (`None` where no local file exists).
pub fn decide_sync_action(candidate: &Template, local_content: Option<&str>) -> (d: SyncDecision)
    ensures
        d@ == spec_decide(candidate@, local_content.deep_view()),
{
    match local_content {
        None => SyncDecision::WriteNew,
        Some(content) => match Template::parse(content) {
            Err(e) => SyncDecision::CorruptLocal(e),
            Ok(t) => {
                if t == *candidate {
                    SyncDecision::Unchanged
                } else {
                    SyncDecision::WritePending {
                        plain_differs: t.plain_body != candidate.plain_body,
                        html_differs: t.html_body != candidate.html_body,
                    }
                }
            },
        },
    }
}

/// The filename a remote template is stored under: its identifier plus the
/// fixed extension.
pub open spec fn spec_sync_filename(id: Seq<char>) -> Seq<char> {
    id + ".mailtemplate"@
}

/// The sibling filename a diverged candidate is written to instead of the
/// stored file.
pub open spec fn spec_pending_filename(id: Seq<char>) -> Seq<char> {
    id + ".mailtemplate.tmp"@
}

/// The filename a remote template is stored under.
pub fn sync_filename(id: &String) -> (r: String)
    ensures
        r@ == spec_sync_filename(id@),
{
    id.clone().concat(".mailtemplate")
}

/// The sibling filename a diverged candidate is written to.
pub fn pending_filename(id: &String) -> (r: String)
    ensures
        r@ == spec_pending_filename(id@),
{
    id.clone().concat(".mailtemplate.tmp")
}

/// No clobber: where a local file exists, the decision is never to write
/// the file anew, and the pending filename a diverged candidate goes to is
/// never the stored file's own.
pub proof fn lemma_no_clobber(candidate: TemplateView, content: Seq<char>, id: Seq<char>)
    ensures
        !(spec_decide(candidate, Some(content)) is WriteNew),
        spec_pending_filename(id) != spec_sync_filename(id),
{
    reveal_strlit(".mailtemplate");
    reveal_strlit(".mailtemplate.tmp");
    assert(spec_pending_filename(id).len() != spec_sync_filename(id).len());
}

/// What the read-only check reports about one local template.
#[derive(Debug, Clone)]
pub enum CheckOutcome {
    /// No resolved remote template carries this local template's name.
    NoRemote,
    /// The first resolved remote template of the same name, and whether
    /// each body matches it byte for byte (an absent remote field compares
    /// against the empty string).
    Found {
        /// The matching remote template's identifier.
        template_id: String,
        /// Whether the plain bodies agree.
        plain_matches: bool,
        /// Whether the HTML bodies agree.
        html_matches: bool,
    },
}

/// The mathematical value of a [`CheckOutcome`].
pub enum CheckOutcomeView {
    NoRemote,
    Found { template_id: Seq<char>, plain_matches: bool, html_matches: bool },
}

impl View for CheckOutcome {
    type V = CheckOutcomeView;

    open spec fn view(&self) -> CheckOutcomeView {
        match self {
            CheckOutcome::NoRemote => CheckOutcomeView::NoRemote,
            CheckOutcome::Found { template_id, plain_matches, html_matches } => (
            CheckOutcomeView::Found {
                template_id: template_id@,
                plain_matches: *plain_matches,
                html_matches: *html_matches,
            }),
        }
    }
}

impl DeepView for CheckOutcome {
    type V = CheckOutcomeView;

    open spec fn deep_view(&self) -> CheckOutcomeView {
        self.view()
    }
}

/// An absent content field compares as the empty string.
pub open spec fn unwrap_or_empty(o: Option<Seq<char>>) -> Seq<char> {
    match o {
        Some(s) => s,
        None => Seq::empty(),
    }
}

/// The outcome the check owes one local template: `NoRemote` exactly when
/// no resolved remote carries its name; otherwise the first remote of that
/// name, with the per-body comparisons.
pub open spec fn check_outcome_matches(
    e: CheckOutcomeView,
    local: TemplateView,
    remotes: Seq<ResolvedVersionView>,
) -> bool {
    match e {
        CheckOutcomeView::NoRemote => forall|j: int|
            0 <= j < remotes.len() ==> (#[trigger] remotes[j]).name != local.name,
        CheckOutcomeView::Found { template_id, plain_matches, html_matches } => exists|j: int|
            {
                &&& 0 <= j < remotes.len()
                &&& (#[trigger] remotes[j]).name == local.name
                &&& forall|k: int| 0 <= k < j ==> (#[trigger] remotes[k]).name != local.name
                &&& template_id == remotes[j].template_id
                &&& plain_matches == (local.plain_body == unwrap_or_empty(
                    remotes[j].plain_content,
                ))
                &&& html_matches == (local.html_body == unwrap_or_empty(remotes[j].html_content))
            },
    }
}

/// Whether a local body equals a remote content field, an absent field
/// counting as empty.
fn matches_content(body: &String, content: &Option<String>) -> (r: bool)
    ensures
        r == (body@ == unwrap_or_empty(content.deep_view())),
{
    match content {
        Some(s) => *body == *s,
        None => {
            let e = body.as_str().is_empty();
            proof {
                if body@.len() == 0 {
                    assert(body@ =~= Seq::<char>::empty());
                }
            }
            e
        },
    }
}

/// The read-only check: one outcome per local template, in order; each is
/// matched by name against the resolved remote templates.
pub fn check_templates(locals: &Vec<Template>, remotes: &Vec<ResolvedVersion>) -> (r: Vec<
    CheckOutcome,
>)
    ensures
        r.deep_view().len() == locals.deep_view().len(),
        forall|i: int|
            0 <= i < locals.deep_view().len() ==> check_outcome_matches(
                #[trigger] r.deep_view()[i],
                locals.deep_view()[i],
                remotes.deep_view(),
            ),
{
    let n = locals.len();
    let m = remotes.len();
    let mut r: Vec<CheckOutcome> = Vec::new();
    let mut i: usize = 0;
    while i < n
        invariant
            0 <= i <= n,
            n == locals.deep_view().len(),
            m == remotes.deep_view().len(),
            r.deep_view().len() == i,
            forall|j: int|
                0 <= j < i ==> check_outcome_matches(
                    #[trigger] r.deep_view()[j],
                    locals.deep_view()[j],
                    remotes.deep_view(),
                ),
        decreases n - i,
    {
        let ghost old_r = r.deep_view();
        let local = &locals[i];
        let mut j: usize = 0;
        let mut outcome: Option<CheckOutcome> = None;
        while j < m
            invariant_except_break
                outcome is None,
            invariant
                0 <= j <= m,
                m == remotes.deep_view().len(),
                forall|k: int|
                    0 <= k < j ==> (#[trigger] remotes.deep_view()[k]).name != local@.name,
            ensures
                0 <= j <= m,
                match outcome {
                    None => j == m && forall|k: int|
                        0 <= k < m ==> (#[trigger] remotes.deep_view()[k]).name != local@.name,
                    Some(o) => check_outcome_matches(
                        o@,
                        local@,
                        remotes.deep_view(),
                    ),
                },
            decreases m - j,
        {
            if remotes[j].name == local.name {
                let found = CheckOutcome::Found {
                    template_id: remotes[j].template_id.clone(),
                    plain_matches: matches_content(&local.plain_body, &remotes[j].plain_content),
                    html_matches: matches_content(&local.html_body, &remotes[j].html_content),
                };
                proof {
                    let rv = remotes.deep_view();
                    assert(check_outcome_matches(found@, local@, rv)) by {
                        assert((#[trigger] rv[j as int]).name == local@.name);
                    }
                }
                outcome = Some(found);
                break ;
            }
            j = j + 1;
        }
        let entry = match outcome {
            Some(o) => o,
            None => CheckOutcome::NoRemote,
        };
        r.push(entry);
        proof {
            assert(r.deep_view() =~= old_r.push(r.deep_view().last()));
        }
        i = i + 1;
    }
    r
}

/// Whether no two templates in the set share a name.
pub open spec fn names_unique(s: Seq<TemplateView>) -> bool {
    forall|j: int, k: int|
        0 <= j < k < s.len() ==> (#[trigger] s[j]).name != (#[trigger] s[k]).name
}

/// Adding a template to the set: it replaces the entry of its name, or is
/// appended where no entry carries its name. The later entry wins, as in
/// the stored directory's documented behaviour.
pub open spec fn spec_add(s: Seq<TemplateView>, t: TemplateView) -> Seq<TemplateView> {
    if exists|j: int| 0 <= j < s.len() && (#[trigger] s[j]).name == t.name {
        s.update(choose|j: int| 0 <= j < s.len() && (#[trigger] s[j]).name == t.name, t)
    } else {
        s.push(t)
    }
}

/// Put one template into the set, replacing any entry of the same name
/// (the later entry wins).
#[verifier::loop_isolation(false)]
pub fn add_template(set: &mut Vec<Template>, t: Template)
    requires
        names_unique(old(set).deep_view()),
    ensures
        final(set).deep_view() == spec_add(old(set).deep_view(), t@),
        names_unique(final(set).deep_view()),
{
    let ghost sv = set.deep_view();
    let n = set.len();
    let mut j: usize = 0;
    while j < n
        invariant
            0 <= j <= n,
            n == sv.len(),
            sv == set.deep_view(),
            names_unique(sv),
            forall|k: int| 0 <= k < j ==> (#[trigger] sv[k]).name != t@.name,
        decreases n - j,
    {
        if set[j].name == t.name {
            set[j] = t;
            proof {
                assert(sv[j as int].name == t@.name);
                assert(set.deep_view() =~= sv.update(j as int, t@));
                let w = choose|w: int| 0 <= w < sv.len() && (#[trigger] sv[w]).name == t@.name;
                if w != j {
                    assert(sv[j as int].name != sv[w].name);
                }
                assert(spec_add(sv, t@) == sv.update(j as int, t@));
            }
            return ;
        }
        j = j + 1;
    }
    set.push(t);
    proof {
        assert(set.deep_view() =~= sv.push(t@));
    }
}

/// The set the directory's readable files yield, in reading order: each
/// text that parses is added (the later of two same-named templates wins),
/// each that does not is passed over.
pub open spec fn spec_local_set(cs: Seq<Seq<char>>) -> Seq<TemplateView>
    decreases cs.len(),
{
    if cs.len() == 0 {
        Seq::empty()
    } else {
        let prev = spec_local_set(cs.drop_last());
        match spec_parse(cs.last()) {
            Ok(t) => spec_add(prev, t),
            Err(_) => prev,
        }
    }
}

/// Build the local template set from the texts of the directory's files,
/// in reading order. Texts that do not parse are passed over; of two
/// templates with one name the later wins.
pub fn build_local_set(contents: &Vec<String>) -> (r: Vec<Template>)
    ensures
        r.deep_view() == spec_local_set(contents.deep_view()),
        names_unique(r.deep_view()),
{
    let n = contents.len();
    let mut r: Vec<Template> = Vec::new();
    let mut i: usize = 0;
    while i < n
        invariant
            0 <= i <= n,
            n == contents.deep_view().len(),
            r.deep_view() == spec_local_set(contents.deep_view().subrange(0, i as int)),
            names_unique(r.deep_view()),
        decreases n - i,
    {
        let ghost cs = contents.deep_view();
        proof {
            assert(cs.subrange(0, i + 1).drop_last() =~= cs.subrange(0, i as int));
            assert(cs.subrange(0, i + 1).last() == cs[i as int]);
        }
        match Template::parse(contents[i].as_str()) {
            Ok(t) => {
                add_template(&mut r, t);
            },
            Err(_) => {},
        }
        i = i + 1;
    }
    proof {
        assert(contents.deep_view().subrange(0, n as int) =~= contents.deep_view());
    }
    r
}

} // verus!
