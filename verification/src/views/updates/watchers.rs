//! Watchers of upstream versions: what a watcher is, the form that creates or
//! edits one, and the checks that turn the form into a watcher or explain, in
//! French, what is missing.
use vstd::prelude::*;

use crate::text::{
    chars_of, is_blank, join_strings, joined, opt_view, push_str, split_chars, split_fields,
    string_from_range, trim, trim_bounds, trimmed, views_of,
};
use crate::views::graph::clone_strings;
use crate::views::settings::{field_value, vide_en_none};
use crate::views::updates::SourceMode;

verus! {

// ---------------------------------------------------------------------------
// Model
// ---------------------------------------------------------------------------

/// Release channel a watcher follows.
#[derive(Debug, Clone, Copy, PartialEq, Eq)]
pub enum UpdateChannel {
    Major,
    Minor,
    Patch,
    Prerelease,
    Pinned,
}

/// Word shown for a channel.
pub open spec fn channel_word(c: UpdateChannel) -> Seq<char> {
    match c {
        UpdateChannel::Major => "majeure"@,
        UpdateChannel::Minor => "mineure"@,
        UpdateChannel::Patch => "correctif"@,
        UpdateChannel::Prerelease => "pré-version"@,
        UpdateChannel::Pinned => "figée"@,
    }
}

/// Word shown for a channel.
pub fn canal_libelle(c: UpdateChannel) -> (s: &'static str)
    ensures
        s@ == channel_word(c),
{
    match c {
        UpdateChannel::Major => "majeure",
        UpdateChannel::Minor => "mineure",
        UpdateChannel::Patch => "correctif",
        UpdateChannel::Prerelease => "pré-version",
        UpdateChannel::Pinned => "figée",
    }
}

/// How far a detected version is from the one deployed.
#[derive(Debug, Clone, Copy, PartialEq, Eq)]
pub enum UpdateSeverity {
    Major,
    Minor,
    Patch,
    Unknown,
}

/// Badge shown for a severity.
pub open spec fn severity_badge(s: UpdateSeverity) -> Seq<char> {
    match s {
        UpdateSeverity::Major => " MAJEURE "@,
        UpdateSeverity::Minor => " MINEURE "@,
        UpdateSeverity::Patch => " CORRECTIF "@,
        UpdateSeverity::Unknown => " INCONNUE "@,
    }
}

/// Badge shown for a severity.
pub fn severite_libelle(s: UpdateSeverity) -> (b: &'static str)
    ensures
        b@ == severity_badge(s),
{
    match s {
        UpdateSeverity::Major => " MAJEURE ",
        UpdateSeverity::Minor => " MINEURE ",
        UpdateSeverity::Patch => " CORRECTIF ",
        UpdateSeverity::Unknown => " INCONNUE ",
    }
}

/// How new versions are selected and applied.
#[derive(Debug, Clone, PartialEq, Eq)]
pub struct UpdatePolicy {
    /// Channel followed.
    pub channel: UpdateChannel,
    /// Semver constraint (`>=1.2, <2`).
    pub constraint: Option<String>,
    /// Versions never proposed.
    pub ignore: Vec<String>,
    /// UTC maintenance window `HH:MM-HH:MM`.
    pub maintenance_window: Option<String>,
    /// Period between two checks, in seconds.
    pub check_interval_seconds: u64,
    /// Pre-releases are accepted.
    pub allow_prerelease: bool,
    /// Detected updates are applied without asking.
    pub auto_apply: bool,
}

/// Shortest period between two checks, in seconds.
pub const MIN_CHECK_INTERVAL: u64 = 60;

/// Period between two checks of a policy that was never edited, in seconds.
pub const DEFAULT_CHECK_INTERVAL: u64 = 3600;

impl Default for UpdatePolicy {
    /// Minor channel, no constraint, no exclusion, no window, hourly checks,
    /// no pre-release, nothing applied without asking.
    fn default() -> (p: Self)
        ensures
            p.channel == UpdateChannel::Minor,
            p.constraint is None,
            p.ignore@.len() == 0,
            p.maintenance_window is None,
            p.check_interval_seconds == DEFAULT_CHECK_INTERVAL,
            !p.allow_prerelease,
            !p.auto_apply,
    {
        UpdatePolicy {
            channel: UpdateChannel::Minor,
            constraint: None,
            ignore: Vec::new(),
            maintenance_window: None,
            check_interval_seconds: DEFAULT_CHECK_INTERVAL,
            allow_prerelease: false,
            auto_apply: false,
        }
    }
}

/// Two policies say the same thing.
pub open spec fn same_policy(a: UpdatePolicy, b: UpdatePolicy) -> bool {
    &&& a.channel == b.channel
    &&& opt_view(a.constraint) == opt_view(b.constraint)
    &&& views_of(a.ignore@) == views_of(b.ignore@)
    &&& opt_view(a.maintenance_window) == opt_view(b.maintenance_window)
    &&& a.check_interval_seconds == b.check_interval_seconds
    &&& a.allow_prerelease == b.allow_prerelease
    &&& a.auto_apply == b.auto_apply
}

fn copy_opt(a: &Option<String>) -> (r: Option<String>)
    ensures
        opt_view(r) == opt_view(*a),
{
    match a {
        Some(s) => Some(s.clone()),
        None => None,
    }
}

/// A copy of a policy.
pub fn copy_policy(p: &UpdatePolicy) -> (r: UpdatePolicy)
    ensures
        same_policy(r, *p),
{
    UpdatePolicy {
        channel: p.channel,
        constraint: copy_opt(&p.constraint),
        ignore: clone_strings(&p.ignore),
        maintenance_window: copy_opt(&p.maintenance_window),
        check_interval_seconds: p.check_interval_seconds,
        allow_prerelease: p.allow_prerelease,
        auto_apply: p.auto_apply,
    }
}

/// The object of the cluster a watcher follows.
#[derive(Debug, Clone, PartialEq, Eq)]
pub struct WatchTarget {
    /// Namespace; `None` for a cluster-wide object.
    pub namespace: Option<String>,
    /// Kind of the object.
    pub kind: String,
    /// Name of the object.
    pub name: String,
}

/// `namespace/Kind/name`, or `Kind/name` for a cluster-wide object.
pub open spec fn target_label(t: WatchTarget) -> Seq<char> {
    match t.namespace {
        Some(ns) => ns@ + "/"@ + t.kind@ + "/"@ + t.name@,
        None => t.kind@ + "/"@ + t.name@,
    }
}

impl WatchTarget {
    /// A target from its kind, namespace and name.
    pub fn new(kind: &str, namespace: Option<String>, name: &str) -> (t: Self)
        ensures
            t.kind@ == kind@,
            t.namespace == namespace,
            t.name@ == name@,
    {
        WatchTarget { namespace, kind: kind.to_owned(), name: name.to_owned() }
    }

    /// Readable label of the target.
    pub fn label(&self) -> (out: String)
        ensures
            out@ == target_label(*self),
    {
        let mut out = String::new();
        if let Some(ns) = &self.namespace {
            push_str(&mut out, ns.as_str());
            push_str(&mut out, "/");
        }
        push_str(&mut out, self.kind.as_str());
        push_str(&mut out, "/");
        push_str(&mut out, self.name.as_str());
        out
    }
}

/// Where upstream versions come from.
#[derive(Debug, Clone, PartialEq, Eq)]
pub enum UpdateSource {
    /// Releases of a GitHub repository.
    GithubRelease {
        owner: String,
        repo: String,
        /// Prefix removed from tags before they are read as versions.
        tag_prefix: Option<String>,
    },
    /// Tags of a container image.
    ContainerRegistry { image: String },
    /// Versions of a Helm chart.
    HelmChart { repo: String, chart: String },
}

/// A declared watcher.
#[derive(Debug, Clone, PartialEq, Eq)]
pub struct WatcherSpec {
    /// Identifier, a random UUID in text.
    pub id: String,
    /// Readable name.
    pub name: String,
    /// The watcher is active.
    pub enabled: bool,
    /// Cluster holding the target.
    pub cluster: String,
    /// Object followed.
    pub target: WatchTarget,
    /// Container followed; `None` for the first one.
    pub container: Option<String>,
    /// Origin of the versions.
    pub source: UpdateSource,
    /// Selection and application policy.
    pub policy: UpdatePolicy,
    /// Creation time, in microseconds since the Unix epoch (UTC).
    pub created_at: i64,
    /// Time of the last check, in microseconds since the Unix epoch (UTC).
    pub last_checked_at: Option<i64>,
    /// Last version seen upstream.
    pub last_known_version: Option<String>,
}

/// A lower-case hexadecimal digit.
pub open spec fn is_hex_lower(c: char) -> bool {
    ('0' <= c && c <= '9') || ('a' <= c && c <= 'f')
}

/// The hyphenated lower-case text of a random (version 4, RFC 9562 variant)
/// UUID: `xxxxxxxx-xxxx-4xxx-Yxxx-xxxxxxxxxxxx` with `Y` in `8`, `9`, `a`, `b`.
pub open spec fn is_v4_text(s: Seq<char>) -> bool {
    &&& s.len() == 36
    &&& forall|i: int|
        0 <= i < 36 ==> if i == 8 || i == 13 || i == 18 || i == 23 {
            s[i] == '-'
        } else {
            is_hex_lower(#[trigger] s[i])
        }
    &&& s[14] == '4'
    &&& (s[19] == '8' || s[19] == '9' || s[19] == 'a' || s[19] == 'b')
}

/// A random identifier in text, as `uuid::Uuid::new_v4` makes one: sixteen
/// bytes from the operating system's random source (`getrandom::fill`),
/// given the version and variant bits by `uuid::Builder::from_random_bytes`,
/// written in the hyphenated lower-case form. `None` when the operating
/// system gives no random bytes, where `new_v4` would panic. Which
/// identifier comes out is not stated.
#[verifier::external_body]
fn new_watcher_id() -> (id: Option<String>)
    ensures
        match id {
            Some(t) => is_v4_text(t@),
            None => true,
        },
{
    let mut bytes = [0u8; 16];
    match getrandom::fill(&mut bytes) {
        Ok(()) => Some(uuid::Builder::from_random_bytes(bytes).into_uuid().to_string()),
        Err(_) => None,
    }
}

/// The current time in microseconds since the Unix epoch, as
/// `chrono::Utc::now().timestamp_micros()` gives it: the machine's clock read
/// by `SystemTime::now`, turned into a date by
/// `chrono::DateTime::from_timestamp`. Where `Utc::now` would panic (a clock
/// before 1970, or out of chrono's range) the result is `0`. The time is the
/// machine's: nothing is stated of it.
#[verifier::external_body]
fn now_micros() -> i64 {
    let since = match std::time::SystemTime::now().duration_since(std::time::UNIX_EPOCH) {
        Ok(d) => d,
        Err(_) => return 0,
    };
    match chrono::DateTime::from_timestamp(since.as_secs() as i64, since.subsec_nanos()) {
        Some(t) => t.timestamp_micros(),
        None => 0,
    }
}

impl WatcherSpec {
    /// A new active watcher, with a fresh identifier, created now; `None` when
/// no random identifier can be drawn.
    pub fn new(
        name: &str,
        cluster: &str,
        target: WatchTarget,
        source: UpdateSource,
        policy: UpdatePolicy,
    ) -> (r: Option<Self>)
        ensures
            r matches Some(w) ==> {
                &&& is_v4_text(w.id@)
                &&& w.name@ == name@
                &&& w.enabled
                &&& w.cluster@ == cluster@
                &&& w.target == target
                &&& w.container is None
                &&& w.source == source
                &&& w.policy == policy
                &&& w.last_checked_at is None
                &&& w.last_known_version is None
            },
    {
        let id = match new_watcher_id() {
            Some(id) => id,
            None => return None,
        };
        Some(WatcherSpec {
            id,
            name: name.to_owned(),
            enabled: true,
            cluster: cluster.to_owned(),
            target,
            container: None,
            source,
            policy,
            created_at: now_micros(),
            last_checked_at: None,
            last_known_version: None,
        })
    }
}


// ---------------------------------------------------------------------------
// Form
// ---------------------------------------------------------------------------

/// Form that creates or edits a watcher.
#[derive(Debug, Clone)]
pub struct WatcherForm {
    /// The panel is shown.
    pub open: bool,
    /// Identifier of the watcher edited; `None` for a creation.
    pub editing: Option<String>,
    /// Readable name.
    pub name: String,
    /// The watcher is active.
    pub enabled: bool,
    /// Cluster holding the target.
    pub cluster: String,
    /// Kind of the object followed.
    pub kind: String,
    /// Namespace of the object (blank for a cluster-wide object).
    pub namespace: String,
    /// Name of the object followed.
    pub target_name: String,
    /// Container followed (blank for the first one).
    pub container: String,
    /// Origin of the versions.
    pub source_mode: SourceMode,
    /// Owner of the GitHub repository.
    pub gh_owner: String,
    /// Name of the GitHub repository.
    pub gh_repo: String,
    /// Tag prefix removed before versions are read.
    pub gh_tag_prefix: String,
    /// Image reference followed.
    pub image: String,
    /// Helm chart repository.
    pub chart_repo: String,
    /// Helm chart name.
    pub chart_name: String,
    /// Selection and application policy.
    pub policy: UpdatePolicy,
    /// Semver constraint typed (blank for none).
    pub constraint: String,
    /// Excluded versions, one per line.
    pub ignore_text: String,
    /// Maintenance window `HH:MM-HH:MM` (blank for none).
    pub maintenance_window: String,
    /// Last validation message.
    pub error: Option<String>,
}

/// The message that refuses a form, or `None` when the form is complete: a
/// name, a cluster, a kind, an object name, and what the chosen source needs.
pub open spec fn form_error(f: WatcherForm) -> Option<Seq<char>> {
    if trim(f.name@).len() == 0 {
        Some("Donnez un nom à la surveillance."@)
    } else if trim(f.cluster@).len() == 0 {
        Some("Choisissez le cluster qui porte la cible."@)
    } else if trim(f.kind@).len() == 0 {
        Some("Choisissez le type de l'objet surveillé."@)
    } else if trim(f.target_name@).len() == 0 {
        Some("Indiquez le nom de l'objet surveillé."@)
    } else {
        match f.source_mode {
            SourceMode::Github => if trim(f.gh_owner@).len() == 0 || trim(f.gh_repo@).len() == 0 {
                Some("Renseignez le propriétaire et le nom du dépôt GitHub."@)
            } else {
                None
            },
            SourceMode::Image => if trim(f.image@).len() == 0 {
                Some("Indiquez la référence d'image à suivre."@)
            } else {
                None
            },
            SourceMode::Chart => if trim(f.chart_repo@).len() == 0 || trim(f.chart_name@).len()
                == 0 {
                Some("Renseignez le dépôt et le nom du chart Helm."@)
            } else {
                None
            },
        }
    }
}

/// The excluded versions a text gives: its lines trimmed, blank ones dropped.
pub open spec fn kept_lines(lines: Seq<Seq<char>>) -> Seq<Seq<char>>
    decreases lines.len(),
{
    if lines.len() == 0 {
        Seq::empty()
    } else {
        let rest = kept_lines(lines.drop_last());
        if trim(lines.last()).len() == 0 {
            rest
        } else {
            rest.push(trim(lines.last()))
        }
    }
}

/// The target the form describes.
pub open spec fn target_built(t: WatchTarget, f: WatcherForm) -> bool {
    &&& opt_view(t.namespace) == field_value(f.namespace@)
    &&& t.kind@ == trim(f.kind@)
    &&& t.name@ == trim(f.target_name@)
}

/// The source the form describes, for its chosen mode.
pub open spec fn source_built(s: UpdateSource, f: WatcherForm) -> bool {
    match f.source_mode {
        SourceMode::Github => match s {
            UpdateSource::GithubRelease { owner, repo, tag_prefix } => {
                &&& owner@ == trim(f.gh_owner@)
                &&& repo@ == trim(f.gh_repo@)
                &&& opt_view(tag_prefix) == field_value(f.gh_tag_prefix@)
            },
            _ => false,
        },
        SourceMode::Image => match s {
            UpdateSource::ContainerRegistry { image } => image@ == trim(f.image@),
            _ => false,
        },
        SourceMode::Chart => match s {
            UpdateSource::HelmChart { repo, chart } => {
                &&& repo@ == trim(f.chart_repo@)
                &&& chart@ == trim(f.chart_name@)
            },
            _ => false,
        },
    }
}

/// The policy the form describes: that of the form, with the typed
/// constraint, window and exclusions, and a period of at least a minute.
pub open spec fn policy_built(p: UpdatePolicy, f: WatcherForm) -> bool {
    &&& p.channel == f.policy.channel
    &&& p.allow_prerelease == f.policy.allow_prerelease
    &&& p.auto_apply == f.policy.auto_apply
    &&& p.check_interval_seconds == if f.policy.check_interval_seconds < MIN_CHECK_INTERVAL {
        MIN_CHECK_INTERVAL
    } else {
        f.policy.check_interval_seconds
    }
    &&& opt_view(p.constraint) == field_value(f.constraint@)
    &&& opt_view(p.maintenance_window) == field_value(f.maintenance_window@)
    &&& views_of(p.ignore@) == kept_lines(split_fields(f.ignore_text@, '\n'))
}

/// The watcher the form describes, but for its identity and history.
pub open spec fn watcher_built(f: WatcherForm, w: WatcherSpec) -> bool {
    &&& w.name@ == trim(f.name@)
    &&& w.enabled == f.enabled
    &&& w.cluster@ == trim(f.cluster@)
    &&& target_built(w.target, f)
    &&& opt_view(w.container) == field_value(f.container@)
    &&& source_built(w.source, f)
    &&& policy_built(w.policy, f)
}

/// An edited watcher keeps its identifier and its history; a new one takes
/// the identifier and the time given, and has no history.
pub open spec fn identity_kept(
    existing: Option<&WatcherSpec>,
    fresh_id: Seq<char>,
    now: i64,
    w: WatcherSpec,
) -> bool {
    match existing {
        Some(e) => {
            &&& w.id@ == e.id@
            &&& w.created_at == e.created_at
            &&& w.last_checked_at == e.last_checked_at
            &&& opt_view(w.last_known_version) == opt_view(e.last_known_version)
        },
        None => {
            &&& w.id@ == fresh_id
            &&& w.created_at == now
            &&& w.last_checked_at is None
            &&& w.last_known_version is None
        },
    }
}

/// A trimmed copy of `s`.
fn trimmed_text(s: &String) -> (out: String)
    ensures
        out@ == trim(s@),
{
    trimmed(s.as_str())
}

/// The excluded versions of a text: its lines trimmed, blank ones dropped.
fn exclusions(text: &String) -> (out: Vec<String>)
    ensures
        views_of(out@) == kept_lines(split_fields(text@, '\n')),
{
    let chars = chars_of(text.as_str());
    let lines = split_chars(&chars, '\n');
    let ghost parts = lines@.map_values(|l: Vec<char>| l@);
    let mut out: Vec<String> = Vec::new();
    let mut i: usize = 0;
    while i < lines.len()
        invariant
            i <= lines@.len(),
            parts == lines@.map_values(|l: Vec<char>| l@),
            views_of(out@) == kept_lines(parts.take(i as int)),
        decreases lines@.len() - i,
    {
        let (a, b) = trim_bounds(&lines[i]);
        proof {
            assert(parts.take(i + 1).drop_last() =~= parts.take(i as int));
            assert(parts.take(i + 1).last() == lines@[i as int]@);
        }
        if a < b {
            let t = string_from_range(&lines[i], a, b);
            let ghost before = out@;
            out.push(t);
            proof {
                assert(views_of(out@) =~= views_of(before).push(t@));
            }
        }
        i += 1;
    }
    assert(parts.take(lines@.len() as int) =~= parts);
    out
}

/// Builds the watcher a complete form describes, with the identity of the
/// edited watcher when there is one, else `fresh_id` and `now`; or gives the
/// message that explains what is missing.
pub fn assembler_watcher(
    f: &WatcherForm,
    existing: Option<&WatcherSpec>,
    fresh_id: String,
    now: i64,
) -> (r: Result<WatcherSpec, String>)
    ensures
        match r {
            Ok(w) => form_error(*f) is None && watcher_built(*f, w) && identity_kept(
                existing,
                fresh_id@,
                now,
                w,
            ),
            Err(e) => form_error(*f) == Some(e@),
        },
{
    if is_blank(f.name.as_str()) {
        return Err("Donnez un nom à la surveillance.".to_owned());
    }
    if is_blank(f.cluster.as_str()) {
        return Err("Choisissez le cluster qui porte la cible.".to_owned());
    }
    if is_blank(f.kind.as_str()) {
        return Err("Choisissez le type de l'objet surveillé.".to_owned());
    }
    if is_blank(f.target_name.as_str()) {
        return Err("Indiquez le nom de l'objet surveillé.".to_owned());
    }
    let source = match f.source_mode {
        SourceMode::Github => {
            if is_blank(f.gh_owner.as_str()) || is_blank(f.gh_repo.as_str()) {
                return Err("Renseignez le propriétaire et le nom du dépôt GitHub.".to_owned());
            }
            UpdateSource::GithubRelease {
                owner: trimmed_text(&f.gh_owner),
                repo: trimmed_text(&f.gh_repo),
                tag_prefix: vide_en_none(f.gh_tag_prefix.as_str()),
            }
        },
        SourceMode::Image => {
            if is_blank(f.image.as_str()) {
                return Err("Indiquez la référence d'image à suivre.".to_owned());
            }
            UpdateSource::ContainerRegistry { image: trimmed_text(&f.image) }
        },
        SourceMode::Chart => {
            if is_blank(f.chart_repo.as_str()) || is_blank(f.chart_name.as_str()) {
                return Err("Renseignez le dépôt et le nom du chart Helm.".to_owned());
            }
            UpdateSource::HelmChart {
                repo: trimmed_text(&f.chart_repo),
                chart: trimmed_text(&f.chart_name),
            }
        },
    };
    let interval = if f.policy.check_interval_seconds < MIN_CHECK_INTERVAL {
        MIN_CHECK_INTERVAL
    } else {
        f.policy.check_interval_seconds
    };
    let policy = UpdatePolicy {
        channel: f.policy.channel,
        constraint: vide_en_none(f.constraint.as_str()),
        ignore: exclusions(&f.ignore_text),
        maintenance_window: vide_en_none(f.maintenance_window.as_str()),
        check_interval_seconds: interval,
        allow_prerelease: f.policy.allow_prerelease,
        auto_apply: f.policy.auto_apply,
    };
    let target = WatchTarget {
        namespace: vide_en_none(f.namespace.as_str()),
        kind: trimmed_text(&f.kind),
        name: trimmed_text(&f.target_name),
    };
    let (id, created_at, last_checked_at, last_known_version) = match existing {
        Some(e) => (e.id.clone(), e.created_at, e.last_checked_at, copy_opt(&e.last_known_version)),
        None => (fresh_id, now, None, None),
    };
    Ok(
        WatcherSpec {
            id,
            name: trimmed_text(&f.name),
            enabled: f.enabled,
            cluster: trimmed_text(&f.cluster),
            target,
            container: vide_en_none(f.container.as_str()),
            source,
            policy,
            created_at,
            last_checked_at,
            last_known_version,
        },
    )
}

/// Message given when no random identifier can be drawn for a new watcher.
pub open spec fn id_unavailable() -> Seq<char> {
    "Impossible de tirer un identifiant aléatoire : la surveillance n'est pas enregistrée."@
}

/// What is missing in the form, in French, or `None` when it is complete.
pub fn form_problem(f: &WatcherForm) -> (r: Option<String>)
    ensures
        opt_view(r) == form_error(*f),
{
    if is_blank(f.name.as_str()) {
        return Some("Donnez un nom à la surveillance.".to_owned());
    }
    if is_blank(f.cluster.as_str()) {
        return Some("Choisissez le cluster qui porte la cible.".to_owned());
    }
    if is_blank(f.kind.as_str()) {
        return Some("Choisissez le type de l'objet surveillé.".to_owned());
    }
    if is_blank(f.target_name.as_str()) {
        return Some("Indiquez le nom de l'objet surveillé.".to_owned());
    }
    match f.source_mode {
        SourceMode::Github => if is_blank(f.gh_owner.as_str()) || is_blank(f.gh_repo.as_str()) {
            Some("Renseignez le propriétaire et le nom du dépôt GitHub.".to_owned())
        } else {
            None
        },
        SourceMode::Image => if is_blank(f.image.as_str()) {
            Some("Indiquez la référence d'image à suivre.".to_owned())
        } else {
            None
        },
        SourceMode::Chart => if is_blank(f.chart_repo.as_str()) || is_blank(f.chart_name.as_str()) {
            Some("Renseignez le dépôt et le nom du chart Helm.".to_owned())
        } else {
            None
        },
    }
}

/// Builds the watcher to save, or explains in French what is missing. An
/// edited watcher keeps its identifier and its history; a new one gets a
/// random identifier and the current time, drawn once the form is known to
/// be complete.
pub fn construire_watcher(f: &WatcherForm, existing: Option<&WatcherSpec>) -> (r: Result<
    WatcherSpec,
    String,
>)
    ensures
        match r {
            Ok(w) => {
                &&& form_error(*f) is None
                &&& watcher_built(*f, w)
                &&& match existing {
                    Some(e) => identity_kept(existing, e.id@, e.created_at, w),
                    None => is_v4_text(w.id@) && w.last_checked_at is None
                        && w.last_known_version is None,
                }
            },
            Err(e) => match form_error(*f) {
                Some(m) => e@ == m,
                None => existing is None && e@ == id_unavailable(),
            },
        },
{
    match existing {
        Some(_) => assembler_watcher(f, existing, String::new(), 0),
        None => {
            if let Some(problem) = form_problem(f) {
                return Err(problem);
            }
            let id = match new_watcher_id() {
                Some(id) => id,
                None => {
                    return Err(
                        "Impossible de tirer un identifiant aléatoire : la surveillance n'est pas enregistrée.".to_owned(),
                    );
                },
            };
            let now = now_micros();
            assembler_watcher(f, existing, id, now)
        },
    }
}


/// Settings of the update module that the form reads.
#[derive(Debug, Clone)]
pub struct UpdaterSettings {
    /// Policy given to new watchers.
    pub default_policy: UpdatePolicy,
}

/// Text of an optional string, empty when absent.
pub open spec fn or_empty(o: Option<String>) -> Seq<char> {
    match o {
        Some(s) => s@,
        None => Seq::empty(),
    }
}

/// The fields of the source that the form shows for `source`; the others are
/// empty.
pub open spec fn source_shown(f: WatcherForm, source: UpdateSource) -> bool {
    match source {
        UpdateSource::GithubRelease { owner, repo, tag_prefix } => {
            &&& f.source_mode == SourceMode::Github
            &&& f.gh_owner@ == owner@
            &&& f.gh_repo@ == repo@
            &&& f.gh_tag_prefix@ == or_empty(tag_prefix)
            &&& f.image@.len() == 0
            &&& f.chart_repo@.len() == 0
            &&& f.chart_name@.len() == 0
        },
        UpdateSource::ContainerRegistry { image } => {
            &&& f.source_mode == SourceMode::Image
            &&& f.image@ == image@
            &&& f.gh_owner@.len() == 0
            &&& f.gh_repo@.len() == 0
            &&& f.gh_tag_prefix@.len() == 0
            &&& f.chart_repo@.len() == 0
            &&& f.chart_name@.len() == 0
        },
        UpdateSource::HelmChart { repo, chart } => {
            &&& f.source_mode == SourceMode::Chart
            &&& f.chart_repo@ == repo@
            &&& f.chart_name@ == chart@
            &&& f.gh_owner@.len() == 0
            &&& f.gh_repo@.len() == 0
            &&& f.gh_tag_prefix@.len() == 0
            &&& f.image@.len() == 0
        },
    }
}

/// The form that edits `w`: its fields as they are, exclusions one per line.
pub open spec fn form_of(w: WatcherSpec, f: WatcherForm) -> bool {
    &&& f.open
    &&& opt_view(f.editing) == Some(w.id@)
    &&& f.name@ == w.name@
    &&& f.enabled == w.enabled
    &&& f.cluster@ == w.cluster@
    &&& f.kind@ == w.target.kind@
    &&& f.namespace@ == or_empty(w.target.namespace)
    &&& f.target_name@ == w.target.name@
    &&& f.container@ == or_empty(w.container)
    &&& same_policy(f.policy, w.policy)
    &&& f.constraint@ == or_empty(w.policy.constraint)
    &&& f.ignore_text@ == joined(views_of(w.policy.ignore@), "\n"@)
    &&& f.maintenance_window@ == or_empty(w.policy.maintenance_window)
    &&& f.error is None
    &&& source_shown(f, w.source)
}

fn text_or_empty(o: &Option<String>) -> (out: String)
    ensures
        out@ == or_empty(*o),
{
    match o {
        Some(s) => s.clone(),
        None => String::new(),
    }
}

/// The form that edits an existing watcher.
pub fn formulaire_depuis(w: &WatcherSpec) -> (f: WatcherForm)
    ensures
        form_of(*w, f),
{
    let mut f = WatcherForm {
        open: true,
        editing: Some(w.id.clone()),
        name: w.name.clone(),
        enabled: w.enabled,
        cluster: w.cluster.clone(),
        kind: w.target.kind.clone(),
        namespace: text_or_empty(&w.target.namespace),
        target_name: w.target.name.clone(),
        container: text_or_empty(&w.container),
        source_mode: SourceMode::Image,
        gh_owner: String::new(),
        gh_repo: String::new(),
        gh_tag_prefix: String::new(),
        image: String::new(),
        chart_repo: String::new(),
        chart_name: String::new(),
        policy: copy_policy(&w.policy),
        constraint: text_or_empty(&w.policy.constraint),
        ignore_text: join_strings(&w.policy.ignore, "\n"),
        maintenance_window: text_or_empty(&w.policy.maintenance_window),
        error: None,
    };
    match &w.source {
        UpdateSource::GithubRelease { owner, repo, tag_prefix } => {
            f.source_mode = SourceMode::Github;
            f.gh_owner = owner.clone();
            f.gh_repo = repo.clone();
            f.gh_tag_prefix = text_or_empty(tag_prefix);
        },
        UpdateSource::ContainerRegistry { image } => {
            f.source_mode = SourceMode::Image;
            f.image = image.clone();
        },
        UpdateSource::HelmChart { repo, chart } => {
            f.source_mode = SourceMode::Chart;
            f.chart_repo = repo.clone();
            f.chart_name = chart.clone();
        },
    }
    f
}

/// A blank form for a new watcher: the given cluster, a `Deployment` followed
/// through its image, and the default policy of the settings (or the default
/// policy when there are no settings).
pub fn nouveau_formulaire(cluster: String, reglages: Option<&UpdaterSettings>) -> (f: WatcherForm)
    ensures
        f.open,
        f.editing is None,
        f.name@.len() == 0,
        f.enabled,
        f.cluster@ == cluster@,
        f.kind@ == "Deployment"@,
        f.namespace@.len() == 0,
        f.target_name@.len() == 0,
        f.container@.len() == 0,
        f.source_mode == SourceMode::Image,
        f.gh_owner@.len() == 0,
        f.gh_repo@.len() == 0,
        f.gh_tag_prefix@.len() == 0,
        f.image@.len() == 0,
        f.chart_repo@.len() == 0,
        f.chart_name@.len() == 0,
        match reglages {
            Some(s) => same_policy(f.policy, s.default_policy),
            None => {
                &&& f.policy.channel == UpdateChannel::Minor
                &&& f.policy.constraint is None
                &&& f.policy.ignore@.len() == 0
                &&& f.policy.maintenance_window is None
                &&& f.policy.check_interval_seconds == DEFAULT_CHECK_INTERVAL
                &&& !f.policy.allow_prerelease
                &&& !f.policy.auto_apply
            },
        },
        f.constraint@.len() == 0,
        f.ignore_text@.len() == 0,
        f.maintenance_window@.len() == 0,
        f.error is None,
{
    let policy = match reglages {
        Some(s) => copy_policy(&s.default_policy),
        None => UpdatePolicy::default(),
    };
    WatcherForm {
        open: true,
        editing: None,
        name: String::new(),
        enabled: true,
        cluster,
        kind: "Deployment".to_owned(),
        namespace: String::new(),
        target_name: String::new(),
        container: String::new(),
        source_mode: SourceMode::Image,
        gh_owner: String::new(),
        gh_repo: String::new(),
        gh_tag_prefix: String::new(),
        image: String::new(),
        chart_repo: String::new(),
        chart_name: String::new(),
        policy,
        constraint: String::new(),
        ignore_text: String::new(),
        maintenance_window: String::new(),
        error: None,
    }
}


// ---------------------------------------------------------------------------
// Laws
// ---------------------------------------------------------------------------

/// A text the checks leave as it is: trimmed, and not blank.
pub open spec fn settled(s: Seq<char>) -> bool {
    trim(s) == s && s.len() > 0
}

/// An optional text the checks leave as it is.
pub open spec fn settled_opt(o: Option<String>) -> bool {
    match o {
        Some(s) => settled(s@),
        None => true,
    }
}

/// A watcher as the checks of the form produce it: its texts trimmed and not
/// blank, each exclusion on one line, a period of at least a minute.
pub open spec fn settled_watcher(w: WatcherSpec) -> bool {
    &&& settled(w.name@)
    &&& settled(w.cluster@)
    &&& settled(w.target.kind@)
    &&& settled(w.target.name@)
    &&& settled_opt(w.target.namespace)
    &&& settled_opt(w.container)
    &&& match w.source {
        UpdateSource::GithubRelease { owner, repo, tag_prefix } => settled(owner@) && settled(
            repo@,
        ) && settled_opt(tag_prefix),
        UpdateSource::ContainerRegistry { image } => settled(image@),
        UpdateSource::HelmChart { repo, chart } => settled(repo@) && settled(chart@),
    }
    &&& settled_opt(w.policy.constraint)
    &&& settled_opt(w.policy.maintenance_window)
    &&& w.policy.check_interval_seconds >= MIN_CHECK_INTERVAL
    &&& forall|i: int|
        0 <= i < w.policy.ignore@.len() ==> settled(#[trigger] w.policy.ignore@[i]@)
            && !w.policy.ignore@[i]@.contains('\n')
}

proof fn lemma_trim_empty()
    ensures
        trim(Seq::<char>::empty()).len() == 0,
{
    reveal_with_fuel(crate::text::lead_white, 2);
    reveal_with_fuel(crate::text::trail_white, 2);
}

proof fn lemma_field_of_settled(o: Option<String>)
    requires
        settled_opt(o),
    ensures
        field_value(or_empty(o)) == opt_view(o),
{
    lemma_trim_empty();
}

proof fn lemma_kept_lines_settled(lines: Seq<Seq<char>>)
    requires
        forall|i: int| 0 <= i < lines.len() ==> settled(#[trigger] lines[i]),
    ensures
        kept_lines(lines) == lines,
    decreases lines.len(),
{
    if lines.len() > 0 {
        assert forall|i: int| 0 <= i < lines.drop_last().len() implies settled(
            #[trigger] lines.drop_last()[i],
        ) by {
            assert(lines.drop_last()[i] == lines[i]);
        }
        lemma_kept_lines_settled(lines.drop_last());
        assert(settled(lines[lines.len() - 1]));
        assert(lines.drop_last().push(lines.last()) =~= lines);
    }
}

/// Editing a watcher and saving the form untouched gives the watcher back:
/// the form passes the checks, and the watcher it describes, with the
/// identity and history kept, is `w` itself.
pub proof fn lemma_edit_round_trip(w: WatcherSpec, f: WatcherForm)
    requires
        settled_watcher(w),
        form_of(w, f),
    ensures
        form_error(f) is None,
        watcher_built(f, w),
        identity_kept(Some(&w), w.id@, w.created_at, w),
{
    lemma_field_of_settled(w.target.namespace);
    lemma_field_of_settled(w.container);
    lemma_field_of_settled(w.policy.constraint);
    lemma_field_of_settled(w.policy.maintenance_window);
    match w.source {
        UpdateSource::GithubRelease { owner, repo, tag_prefix } => {
            lemma_field_of_settled(tag_prefix);
        },
        _ => {},
    }
    let parts = views_of(w.policy.ignore@);
    reveal_strlit("\n");
    assert("\n"@ =~= seq!['\n']);
    assert forall|i: int| 0 <= i < parts.len() implies settled(#[trigger] parts[i]) by {
        assert(parts[i] == w.policy.ignore@[i]@);
    }
    if parts.len() == 0 {
        assert(joined(parts, "\n"@) == Seq::<char>::empty());
        assert(split_fields(Seq::<char>::empty(), '\n') =~= seq![Seq::<char>::empty()]);
        lemma_trim_empty();
        let one = seq![Seq::<char>::empty()];
        assert(one.drop_last() =~= Seq::<Seq<char>>::empty());
        assert(kept_lines(Seq::<Seq<char>>::empty()) == Seq::<Seq<char>>::empty());
        assert(kept_lines(one) =~= Seq::<Seq<char>>::empty());
    } else {
        assert forall|i: int, k: int| 0 <= i < parts.len() && 0 <= k < parts[i].len() implies #[trigger] parts[i][k]
            != '\n' by {
            assert(parts[i] == w.policy.ignore@[i]@);
            if parts[i][k] == '\n' {
                assert(w.policy.ignore@[i]@.contains('\n'));
            }
        }
        crate::text::lemma_split_joined(parts, '\n');
        lemma_kept_lines_settled(parts);
    }
    assert(views_of(w.policy.ignore@) == kept_lines(split_fields(f.ignore_text@, '\n')));
    assert(target_built(w.target, f));
    assert(source_built(w.source, f));
    assert(policy_built(w.policy, f));
}

} // verus!
