//! The deployment request the hub's form edits, and its final assembly:
//! fields trimmed, blank rows left out, node constraints gathered into a map.
use vstd::prelude::*;

use crate::text::{
    before_first, before_first_bounds, chars_of, is_blank, lemma_lex_sign_flip,
    lemma_lex_sign_zero, lex_compare, lex_sign, opt_view, push_decimal, push_str, same_text,
    string_from_range, trim, trimmed, views_of, decimal,
};
use crate::views::hub::{label_of, nom_court_depuis_reference, sanitize_name, short_name};
use crate::widgets::confirm::ResourceRef;

verus! {

// ---------------------------------------------------------------------------
// Model
// ---------------------------------------------------------------------------

/// A port the container listens on.
#[derive(Debug, Clone, Copy, PartialEq, Eq, Default)]
pub struct PortSpec {
    /// Port number; `0` is a row still being filled.
    pub container_port: u16,
}

/// A persistent volume requested for the application.
#[derive(Debug, Clone, PartialEq, Eq, Default)]
pub struct PvcSpec {
    /// Size, as a Kubernetes quantity (`10Gi`).
    pub size: String,
    /// Mount point in the container.
    pub mount_path: String,
    /// Storage class; `None` for the cluster's default.
    pub storage_class: Option<String>,
}

/// What to deploy, and how.
#[derive(Debug, Clone, PartialEq, Eq)]
pub struct DeployRequest {
    pub name: String,
    pub namespace: String,
    pub image: String,
    pub replicas: i32,
    pub ports: Vec<PortSpec>,
    /// Environment variables, in order.
    pub env: Vec<(String, String)>,
    pub command: Vec<String>,
    pub args: Vec<String>,
    /// Node constraints, sorted by key, each key once.
    pub node_selector: Vec<(String, String)>,
    pub pvc: Option<PvcSpec>,
    pub service_type: Option<String>,
    pub ingress_host: Option<String>,
    pub ingress_class: Option<String>,
    pub ingress_tls_secret: Option<String>,
    pub cpu_request: Option<String>,
    pub cpu_limit: Option<String>,
    pub memory_request: Option<String>,
    pub memory_limit: Option<String>,
    pub image_pull_secret: Option<String>,
    pub service_account: Option<String>,
}

impl Default for DeployRequest {
    /// An empty request for one replica.
    fn default() -> (r: Self)
        ensures
            empty_request(r),
    {
        DeployRequest {
            name: String::new(),
            namespace: String::new(),
            image: String::new(),
            replicas: 1,
            ports: Vec::new(),
            env: Vec::new(),
            command: Vec::new(),
            args: Vec::new(),
            node_selector: Vec::new(),
            pvc: None,
            service_type: None,
            ingress_host: None,
            ingress_class: None,
            ingress_tls_secret: None,
            cpu_request: None,
            cpu_limit: None,
            memory_request: None,
            memory_limit: None,
            image_pull_secret: None,
            service_account: None,
        }
    }
}

/// Nothing filled in, one replica.
pub open spec fn empty_request(r: DeployRequest) -> bool {
    &&& r.name@.len() == 0
    &&& r.namespace@.len() == 0
    &&& r.image@.len() == 0
    &&& r.replicas == 1
    &&& r.ports@.len() == 0
    &&& r.env@.len() == 0
    &&& r.command@.len() == 0
    &&& r.args@.len() == 0
    &&& r.node_selector@.len() == 0
    &&& r.pvc is None
    &&& optional_fields_empty(r)
}

/// The optional texts of a request are all absent.
pub open spec fn optional_fields_empty(r: DeployRequest) -> bool {
    &&& r.service_type is None
    &&& r.ingress_host is None
    &&& r.ingress_class is None
    &&& r.ingress_tls_secret is None
    &&& r.cpu_request is None
    &&& r.cpu_limit is None
    &&& r.memory_request is None
    &&& r.memory_limit is None
    &&& r.image_pull_secret is None
    &&& r.service_account is None
}

/// Views of a list of pairs of strings.
pub open spec fn pairs_view(s: Seq<(String, String)>) -> Seq<(Seq<char>, Seq<char>)> {
    s.map_values(|p: (String, String)| (p.0@, p.1@))
}

/// View of a volume request.
pub open spec fn pvc_view(p: Option<PvcSpec>) -> Option<(Seq<char>, Seq<char>, Option<Seq<char>>)> {
    match p {
        Some(v) => Some((v.size@, v.mount_path@, opt_view(v.storage_class))),
        None => None,
    }
}

/// The fields that the assembly of a request leaves as they are.
pub open spec fn same_settings(a: DeployRequest, b: DeployRequest) -> bool {
    &&& a.replicas == b.replicas
    &&& pvc_view(a.pvc) == pvc_view(b.pvc)
    &&& opt_view(a.service_type) == opt_view(b.service_type)
    &&& opt_view(a.ingress_host) == opt_view(b.ingress_host)
    &&& opt_view(a.ingress_class) == opt_view(b.ingress_class)
    &&& opt_view(a.ingress_tls_secret) == opt_view(b.ingress_tls_secret)
    &&& opt_view(a.cpu_request) == opt_view(b.cpu_request)
    &&& opt_view(a.cpu_limit) == opt_view(b.cpu_limit)
    &&& opt_view(a.memory_request) == opt_view(b.memory_request)
    &&& opt_view(a.memory_limit) == opt_view(b.memory_limit)
    &&& opt_view(a.image_pull_secret) == opt_view(b.image_pull_secret)
    &&& opt_view(a.service_account) == opt_view(b.service_account)
}

fn copy_opt(a: &Option<String>) -> (r: Option<String>)
    ensures
        opt_view(r) == opt_view(*a),
{
    match a {
        Some(s) => Some(s.clone()),
        None => None,
    }
}

pub(crate) fn copy_pvc(p: &Option<PvcSpec>) -> (r: Option<PvcSpec>)
    ensures
        pvc_view(r) == pvc_view(*p),
{
    match p {
        Some(v) => Some(
            PvcSpec {
                size: v.size.clone(),
                mount_path: v.mount_path.clone(),
                storage_class: copy_opt(&v.storage_class),
            },
        ),
        None => None,
    }
}

// ---------------------------------------------------------------------------
// Node constraints
// ---------------------------------------------------------------------------

/// The constraints a list of rows gives: rows with a blank key left out, key
/// and value trimmed, a later row winning over an earlier one with its key.
pub open spec fn selector_of(rows: Seq<(String, String)>) -> Map<Seq<char>, Seq<char>>
    decreases rows.len(),
{
    if rows.len() == 0 {
        Map::empty()
    } else {
        let m = selector_of(rows.drop_last());
        let last = rows.last();
        if trim(last.0@).len() == 0 {
            m
        } else {
            m.insert(trim(last.0@), trim(last.1@))
        }
    }
}

/// `s` holds exactly the entries of `m`.
pub open spec fn holds_map(s: Seq<(String, String)>, m: Map<Seq<char>, Seq<char>>) -> bool {
    &&& forall|i: int|
        #![trigger s[i]]
        0 <= i < s.len() ==> m.contains_key(s[i].0@) && m[s[i].0@] == s[i].1@
    &&& forall|k: Seq<char>|
        #[trigger] m.contains_key(k) ==> exists|i: int| 0 <= i < s.len() && s[i].0@ == k
}

/// Keys come in increasing order, each once.
pub open spec fn keys_sorted(s: Seq<(String, String)>) -> bool {
    forall|i: int| 0 <= i < s.len() - 1 ==> #[trigger] lex_sign(s[i].0@, s[i + 1].0@) < 0
}

/// No key occurs twice.
pub open spec fn keys_distinct(s: Seq<(String, String)>) -> bool {
    forall|i: int, j: int| 0 <= i < j < s.len() ==> s[i].0@ != s[j].0@
}

/// Sets `key` to `value` in a sorted list of distinct keys.
fn put_constraint(
    sel: &mut Vec<(String, String)>,
    key: String,
    value: String,
    Ghost(m): Ghost<Map<Seq<char>, Seq<char>>>,
)
    requires
        keys_sorted(old(sel)@),
        keys_distinct(old(sel)@),
        holds_map(old(sel)@, m),
    ensures
        keys_sorted(final(sel)@),
        keys_distinct(final(sel)@),
        holds_map(final(sel)@, m.insert(key@, value@)),
{
    let ghost k = key@;
    let ghost v = value@;
    let ghost before = sel@;
    let mut i: usize = 0;
    while i < sel.len() && !same_text(sel[i].0.as_str(), key.as_str())
        invariant
            i <= sel@.len(),
            sel@ == before,
            key@ == k,
            forall|j: int| 0 <= j < i ==> sel@[j].0@ != k,
        decreases sel@.len() - i,
    {
        i += 1;
    }
    if i < sel.len() {
        sel.set(i, (key, value));
        proof {
            let after = sel@;
            assert(after =~= before.update(i as int, after[i as int]));
            assert forall|a: int, b: int| 0 <= a < b < after.len() implies after[a].0@
                != after[b].0@ by {
                assert(after[a].0@ == before[a].0@);
                assert(after[b].0@ == before[b].0@);
            }
            assert forall|j: int| 0 <= j < after.len() - 1 implies #[trigger] lex_sign(
                after[j].0@,
                after[j + 1].0@,
            ) < 0 by {
                assert(after[j].0@ == before[j].0@);
                assert(after[j + 1].0@ == before[j + 1].0@);
            }
            let m2 = m.insert(k, v);
            assert forall|j: int| #![trigger after[j]] 0 <= j < after.len() implies m2.contains_key(
                after[j].0@,
            ) && m2[after[j].0@] == after[j].1@ by {
                if j != i {
                    assert(after[j] == before[j]);
                    assert(before[j].0@ != before[i as int].0@);
                }
            }
            assert forall|q: Seq<char>| #[trigger] m2.contains_key(q) implies exists|j: int|
                0 <= j < after.len() && after[j].0@ == q by {
                if q == k {
                    assert(after[i as int].0@ == q);
                } else {
                    let j = choose|j: int| 0 <= j < before.len() && before[j].0@ == q;
                    assert(after[j].0@ == before[j].0@);
                }
            }
        }
    } else {
        let mut p: usize = 0;
        while p < sel.len() && lex_compare(sel[p].0.as_str(), key.as_str()) < 0
            invariant
                p <= sel@.len(),
                sel@ == before,
                key@ == k,
                forall|j: int| 0 <= j < p ==> lex_sign(#[trigger] sel@[j].0@, k) < 0,
            decreases sel@.len() - p,
        {
            p += 1;
        }
        proof {
            if p < sel@.len() {
                lemma_lex_sign_flip(sel@[p as int].0@, k);
                if lex_sign(sel@[p as int].0@, k) == 0 {
                    lemma_lex_sign_zero(sel@[p as int].0@, k);
                }
                assert(lex_sign(k, sel@[p as int].0@) < 0);
            }
        }
        sel.insert(p, (key, value));
        proof {
            let after = sel@;
            assert(after =~= before.insert(p as int, after[p as int]));
            assert forall|a: int, b: int| 0 <= a < b < after.len() implies after[a].0@
                != after[b].0@ by {
                if a < p && b < p {
                } else if a < p && b == p {
                } else if a < p {
                    assert(after[b] == before[b - 1]);
                } else if a == p {
                    assert(after[b] == before[b - 1]);
                } else {
                    assert(after[a] == before[a - 1]);
                    assert(after[b] == before[b - 1]);
                }
            }
            assert forall|j: int| 0 <= j < after.len() - 1 implies #[trigger] lex_sign(
                after[j].0@,
                after[j + 1].0@,
            ) < 0 by {
                if j < p as int - 1 {
                    assert(after[j] == before[j]);
                    assert(after[j + 1] == before[j + 1]);
                } else if j == p as int - 1 {
                    assert(after[j] == before[j]);
                } else if j == p {
                } else {
                    assert(after[j] == before[j - 1]);
                    assert(after[j + 1] == before[j]);
                    let t = j - 1;
                    assert(lex_sign(before[t].0@, before[t + 1].0@) < 0);
                    assert(t + 1 == j);
                }
            }
            let m2 = m.insert(k, v);
            assert forall|j: int| #![trigger after[j]] 0 <= j < after.len() implies m2.contains_key(
                after[j].0@,
            ) && m2[after[j].0@] == after[j].1@ by {
                if j < p {
                    assert(after[j] == before[j]);
                } else if j > p {
                    assert(after[j] == before[j - 1]);
                }
            }
            assert forall|q: Seq<char>| #[trigger] m2.contains_key(q) implies exists|j: int|
                0 <= j < after.len() && after[j].0@ == q by {
                if q == k {
                    assert(after[p as int].0@ == q);
                } else {
                    let j = choose|j: int| 0 <= j < before.len() && before[j].0@ == q;
                    if j < p {
                        assert(after[j] == before[j]);
                    } else {
                        assert(after[j + 1] == before[j]);
                    }
                }
            }
        }
    }
}

/// The node constraints of the form's rows: blank keys left out, keys and
/// values trimmed, the last row winning for a key, sorted by key.
pub fn gather_constraints(rows: &Vec<(String, String)>) -> (sel: Vec<(String, String)>)
    ensures
        keys_sorted(sel@),
        keys_distinct(sel@),
        holds_map(sel@, selector_of(rows@)),
{
    let mut sel: Vec<(String, String)> = Vec::new();
    let mut i: usize = 0;
    assert(rows@.take(0) =~= Seq::<(String, String)>::empty());
    while i < rows.len()
        invariant
            i <= rows@.len(),
            keys_sorted(sel@),
            keys_distinct(sel@),
            holds_map(sel@, selector_of(rows@.take(i as int))),
        decreases rows@.len() - i,
    {
        proof {
            assert(rows@.take(i + 1).drop_last() =~= rows@.take(i as int));
            assert(rows@.take(i + 1).last() == rows@[i as int]);
        }
        if !is_blank(rows[i].0.as_str()) {
            let k = trimmed(rows[i].0.as_str());
            let v = trimmed(rows[i].1.as_str());
            put_constraint(&mut sel, k, v, Ghost(selector_of(rows@.take(i as int))));
        }
        i += 1;
    }
    assert(rows@.take(rows@.len() as int) =~= rows@);
    sel
}


// ---------------------------------------------------------------------------
// Outcome of an application
// ---------------------------------------------------------------------------

/// What applying a manifest did to one object.
#[derive(Debug, Clone, Copy, PartialEq, Eq)]
pub enum ApplyAction {
    Created,
    Configured,
    Unchanged,
    DryRun,
    Deleted,
    Failed,
}

/// Word shown for an action.
pub open spec fn action_word(a: ApplyAction) -> Seq<char> {
    match a {
        ApplyAction::Created => "créé"@,
        ApplyAction::Configured => "configuré"@,
        ApplyAction::Unchanged => "inchangé"@,
        ApplyAction::DryRun => "simulé"@,
        ApplyAction::Deleted => "supprimé"@,
        ApplyAction::Failed => "échec"@,
    }
}

impl ApplyAction {
    /// Word shown for the action.
    pub fn label(self) -> (s: &'static str)
        ensures
            s@ == action_word(self),
    {
        match self {
            ApplyAction::Created => "créé",
            ApplyAction::Configured => "configuré",
            ApplyAction::Unchanged => "inchangé",
            ApplyAction::DryRun => "simulé",
            ApplyAction::Deleted => "supprimé",
            ApplyAction::Failed => "échec",
        }
    }
}

/// One object of an applied manifest.
#[derive(Debug, Clone, PartialEq, Eq)]
pub struct ApplyItem {
    /// What was done.
    pub action: ApplyAction,
    /// The object.
    pub resource: ResourceRef,
    /// Message of the server, for a failure.
    pub message: Option<String>,
}

/// What applying a manifest did.
#[derive(Debug, Clone, PartialEq, Eq, Default)]
pub struct ApplyOutcome {
    /// One entry per document.
    pub items: Vec<ApplyItem>,
    /// Number of failed documents.
    pub failed: usize,
}

/// Headline of an outcome: documents handled, and failures if any.
pub open spec fn outcome_headline(total: nat, failed: nat) -> Seq<char> {
    if failed == 0 {
        decimal(total) + " document(s) traité(s), aucun échec"@
    } else {
        decimal(total) + " document(s) traité(s), "@ + decimal(failed) + " en échec"@
    }
}

/// Headline shown over the outcome of an application.
pub fn outcome_summary(outcome: &ApplyOutcome) -> (out: String)
    ensures
        out@ == outcome_headline(outcome.items@.len(), outcome.failed as nat),
{
    let mut out = String::new();
    push_decimal(&mut out, outcome.items.len() as u64);
    if outcome.failed == 0 {
        push_str(&mut out, " document(s) traité(s), aucun échec");
    } else {
        push_str(&mut out, " document(s) traité(s), ");
        push_decimal(&mut out, outcome.failed as u64);
        push_str(&mut out, " en échec");
    }
    out
}

// ---------------------------------------------------------------------------
// Form of the hub
// ---------------------------------------------------------------------------

/// The deployment form: the request being edited and what surrounds it.
#[derive(Debug, Clone)]
pub struct DeployForm {
    /// The panel is shown.
    pub open: bool,
    /// Request being edited.
    pub request: DeployRequest,
    /// Node constraints, edited as a list of (key, value) rows: editing the
    /// key of a map entry would make the row vanish at each keystroke.
    pub node_selector: Vec<(String, String)>,
    /// Server-side simulation instead of a real write.
    pub dry_run: bool,
    /// Manifest rendered by the backend.
    pub preview: Option<String>,
    /// Outcome of the last application.
    pub outcome: Option<ApplyOutcome>,
}

impl Default for DeployForm {
    /// A closed form with an empty request. A user's first deployment is a
    /// simulation: the cluster is only touched on an explicit gesture.
    fn default() -> (f: Self)
        ensures
            !f.open,
            empty_request(f.request),
            f.node_selector@.len() == 0,
            f.dry_run,
            f.preview is None,
            f.outcome is None,
    {
        DeployForm {
            open: false,
            request: DeployRequest::default(),
            node_selector: Vec::new(),
            dry_run: true,
            preview: None,
            outcome: None,
        }
    }
}

/// Ports with a number, in order.
pub open spec fn numbered_ports(p: Seq<PortSpec>) -> Seq<PortSpec>
    decreases p.len(),
{
    if p.len() == 0 {
        Seq::empty()
    } else {
        let r = numbered_ports(p.drop_last());
        if p.last().container_port == 0 {
            r
        } else {
            r.push(p.last())
        }
    }
}

/// Variables with a name, in order: blank names left out, names trimmed,
/// values as they are.
pub open spec fn named_env(e: Seq<(String, String)>) -> Seq<(Seq<char>, Seq<char>)>
    decreases e.len(),
{
    if e.len() == 0 {
        Seq::empty()
    } else {
        let r = named_env(e.drop_last());
        if trim(e.last().0@).len() == 0 {
            r
        } else {
            r.push((trim(e.last().0@), e.last().1@))
        }
    }
}

/// Words that are not blank, as they are, in order.
pub open spec fn nonblank_words(w: Seq<String>) -> Seq<Seq<char>>
    decreases w.len(),
{
    if w.len() == 0 {
        Seq::empty()
    } else {
        let r = nonblank_words(w.drop_last());
        if trim(w.last()@).len() == 0 {
            r
        } else {
            r.push(w.last()@)
        }
    }
}

/// The namespace a request goes to: `default` when none is given.
pub open spec fn namespace_or_default(ns: Seq<char>) -> Seq<char> {
    if trim(ns).len() == 0 {
        "default"@
    } else {
        trim(ns)
    }
}

/// The final request of a form: texts trimmed, blank rows left out, the node
/// constraints of the form's rows, the rest as it is.
pub open spec fn request_built(form: DeployForm, r: DeployRequest) -> bool {
    &&& r.name@ == trim(form.request.name@)
    &&& r.namespace@ == namespace_or_default(form.request.namespace@)
    &&& r.image@ == trim(form.request.image@)
    &&& r.ports@ == numbered_ports(form.request.ports@)
    &&& pairs_view(r.env@) == named_env(form.request.env@)
    &&& views_of(r.command@) == nonblank_words(form.request.command@)
    &&& views_of(r.args@) == nonblank_words(form.request.args@)
    &&& keys_sorted(r.node_selector@)
    &&& keys_distinct(r.node_selector@)
    &&& holds_map(r.node_selector@, selector_of(form.node_selector@))
    &&& same_settings(r, form.request)
}

pub(crate) fn kept_ports(p: &Vec<PortSpec>) -> (out: Vec<PortSpec>)
    ensures
        out@ == numbered_ports(p@),
{
    let mut out: Vec<PortSpec> = Vec::new();
    let mut i: usize = 0;
    while i < p.len()
        invariant
            i <= p@.len(),
            out@ == numbered_ports(p@.take(i as int)),
        decreases p@.len() - i,
    {
        proof {
            assert(p@.take(i + 1).drop_last() =~= p@.take(i as int));
        }
        if p[i].container_port != 0 {
            out.push(p[i]);
        }
        i += 1;
    }
    assert(p@.take(p@.len() as int) =~= p@);
    out
}

pub(crate) fn kept_env(e: &Vec<(String, String)>) -> (out: Vec<(String, String)>)
    ensures
        pairs_view(out@) == named_env(e@),
{
    let mut out: Vec<(String, String)> = Vec::new();
    let mut i: usize = 0;
    while i < e.len()
        invariant
            i <= e@.len(),
            pairs_view(out@) == named_env(e@.take(i as int)),
        decreases e@.len() - i,
    {
        proof {
            assert(e@.take(i + 1).drop_last() =~= e@.take(i as int));
            assert(e@.take(i + 1).last() == e@[i as int]);
        }
        if !is_blank(e[i].0.as_str()) {
            let k = trimmed(e[i].0.as_str());
            let v = e[i].1.clone();
            let ghost before = out@;
            out.push((k, v));
            proof {
                assert(pairs_view(out@) =~= pairs_view(before).push((k@, v@)));
            }
        }
        i += 1;
    }
    assert(e@.take(e@.len() as int) =~= e@);
    out
}

fn kept_words(w: &Vec<String>) -> (out: Vec<String>)
    ensures
        views_of(out@) == nonblank_words(w@),
{
    let mut out: Vec<String> = Vec::new();
    let mut i: usize = 0;
    while i < w.len()
        invariant
            i <= w@.len(),
            views_of(out@) == nonblank_words(w@.take(i as int)),
        decreases w@.len() - i,
    {
        proof {
            assert(w@.take(i + 1).drop_last() =~= w@.take(i as int));
            assert(w@.take(i + 1).last() == w@[i as int]);
        }
        if !is_blank(w[i].as_str()) {
            let t = w[i].clone();
            let ghost before = out@;
            out.push(t);
            proof {
                assert(views_of(out@) =~= views_of(before).push(t@));
            }
        }
        i += 1;
    }
    assert(w@.take(w@.len() as int) =~= w@);
    out
}

/// The final request: texts trimmed, blank rows left out. Blank rows stay in
/// the form, where the user may be filling them; they never reach the
/// manifest generator.
pub fn build_request(form: &DeployForm) -> (r: DeployRequest)
    ensures
        request_built(*form, r),
{
    let q = &form.request;
    let namespace = if is_blank(q.namespace.as_str()) {
        "default".to_owned()
    } else {
        trimmed(q.namespace.as_str())
    };
    DeployRequest {
        name: trimmed(q.name.as_str()),
        namespace,
        image: trimmed(q.image.as_str()),
        replicas: q.replicas,
        ports: kept_ports(&q.ports),
        env: kept_env(&q.env),
        command: kept_words(&q.command),
        args: kept_words(&q.args),
        node_selector: gather_constraints(&form.node_selector),
        pvc: copy_pvc(&q.pvc),
        service_type: copy_opt(&q.service_type),
        ingress_host: copy_opt(&q.ingress_host),
        ingress_class: copy_opt(&q.ingress_class),
        ingress_tls_secret: copy_opt(&q.ingress_tls_secret),
        cpu_request: copy_opt(&q.cpu_request),
        cpu_limit: copy_opt(&q.cpu_limit),
        memory_request: copy_opt(&q.memory_request),
        memory_limit: copy_opt(&q.memory_limit),
        image_pull_secret: copy_opt(&q.image_pull_secret),
        service_account: copy_opt(&q.service_account),
    }
}

// ---------------------------------------------------------------------------
// Prefilling
// ---------------------------------------------------------------------------

/// An application of the embedded catalogue, as the form reads it.
#[derive(Debug, Clone, PartialEq, Eq)]
pub struct CatalogApp {
    /// Identifier (`postgresql`).
    pub id: String,
    /// Image reference.
    pub image: String,
    /// Port the application listens on.
    pub default_port: Option<u16>,
    /// Environment variables it needs.
    pub env: Vec<(String, String)>,
    /// True when it keeps data and needs a volume.
    pub needs_pvc: bool,
}

/// `KEY=value` split at the first `=`; `None` without one.
pub open spec fn env_split(e: Seq<char>) -> Option<(Seq<char>, Seq<char>)> {
    let k = before_first(e, '=');
    if k.len() < e.len() {
        Some((k, e.skip(k.len() as int + 1)))
    } else {
        None
    }
}

/// The variables of `KEY=value` entries, in order; entries without `=` left
/// out.
pub open spec fn env_pairs(entries: Seq<String>) -> Seq<(Seq<char>, Seq<char>)>
    decreases entries.len(),
{
    if entries.len() == 0 {
        Seq::empty()
    } else {
        let r = env_pairs(entries.drop_last());
        match env_split(entries.last()@) {
            Some(p) => r.push(p),
            None => r,
        }
    }
}

/// Ports of a list of numbers, in order.
pub open spec fn ports_of(ports: Seq<u16>) -> Seq<PortSpec> {
    ports.map_values(|p: u16| PortSpec { container_port: p })
}

fn split_entry(e: &String) -> (r: Option<(String, String)>)
    ensures
        match r {
            Some(p) => env_split(e@) == Some((p.0@, p.1@)),
            None => env_split(e@) is None,
        },
{
    let chars = chars_of(e.as_str());
    let n = chars.len();
    let k = before_first_bounds(&chars, 0, n, '=');
    assert(chars@.subrange(0, n as int) =~= chars@);
    if k < n {
        let key = string_from_range(&chars, 0, k);
        let value = string_from_range(&chars, k + 1, n);
        assert(chars@.subrange(k + 1, n as int) =~= e@.skip(k + 1));
        Some((key, value))
    } else {
        None
    }
}

pub(crate) fn ports_from(ports: &[u16]) -> (out: Vec<PortSpec>)
    ensures
        out@ == ports_of(ports@),
{
    let mut out: Vec<PortSpec> = Vec::new();
    let mut i: usize = 0;
    while i < ports.len()
        invariant
            i <= ports@.len(),
            out@ == ports_of(ports@.take(i as int)),
        decreases ports@.len() - i,
    {
        out.push(PortSpec { container_port: ports[i] });
        proof {
            assert(ports_of(ports@.take(i + 1)) =~= ports_of(ports@.take(i as int)).push(
                PortSpec { container_port: ports@[i as int] },
            ));
        }
        i += 1;
    }
    assert(ports@.take(ports@.len() as int) =~= ports@);
    out
}

fn env_from(entries: &[String]) -> (out: Vec<(String, String)>)
    ensures
        pairs_view(out@) == env_pairs(entries@),
{
    let mut out: Vec<(String, String)> = Vec::new();
    let mut i: usize = 0;
    while i < entries.len()
        invariant
            i <= entries@.len(),
            pairs_view(out@) == env_pairs(entries@.take(i as int)),
        decreases entries@.len() - i,
    {
        proof {
            assert(entries@.take(i + 1).drop_last() =~= entries@.take(i as int));
            assert(entries@.take(i + 1).last() == entries@[i as int]);
        }
        match split_entry(&entries[i]) {
            Some(p) => {
                let ghost before = out@;
                let ghost pv = (p.0@, p.1@);
                out.push(p);
                proof {
                    assert(pairs_view(out@) =~= pairs_view(before).push(pv));
                }
            },
            None => {},
        }
        i += 1;
    }
    assert(entries@.take(entries@.len() as int) =~= entries@);
    out
}

/// A fresh request for one replica, with the given identity, ports and
/// variables; the other fields empty.
pub open spec fn fresh_request(
    r: DeployRequest,
    name: Seq<char>,
    namespace: Seq<char>,
    image: Seq<char>,
) -> bool {
    &&& r.name@ == name
    &&& r.namespace@ == namespace
    &&& r.image@ == image
    &&& r.replicas == 1
    &&& r.command@.len() == 0
    &&& r.args@.len() == 0
    &&& r.node_selector@.len() == 0
    &&& optional_fields_empty(r)
}

/// Prefills the form from an inspected image: a name derived from the
/// reference, its exposed ports, and its default variables, which the user
/// can keep or override. The namespace chosen stays.
pub fn prefill_from_image(form: &mut DeployForm, reference: &str, ports: &[u16], env: &[String])
    ensures
        fresh_request(
            final(form).request,
            label_of(short_name(reference@)),
            old(form).request.namespace@,
            reference@,
        ),
        final(form).request.ports@ == ports_of(ports@),
        pairs_view(final(form).request.env@) == env_pairs(env@),
        final(form).request.pvc is None,
        final(form).node_selector@.len() == 0,
        final(form).preview is None,
        final(form).outcome is None,
        final(form).open == old(form).open,
        final(form).dry_run == old(form).dry_run,
{
    let name = sanitize_name(nom_court_depuis_reference(reference));
    let namespace = form.request.namespace.clone();
    let mut request = DeployRequest::default();
    request.name = name;
    request.namespace = namespace;
    request.image = reference.to_owned();
    request.replicas = 1;
    request.ports = ports_from(ports);
    request.env = env_from(env);
    form.request = request;
    form.node_selector = Vec::new();
    form.preview = None;
    form.outcome = None;
}

/// Prefills the form from an application of the catalogue: its identifier as
/// the name, its image, port and variables, and a 10 Gi volume on `/data`
/// when it keeps data. The namespace chosen stays.
pub fn prefill_from_catalog(form: &mut DeployForm, app: &CatalogApp)
    ensures
        fresh_request(final(form).request, label_of(app.id@), old(form).request.namespace@, app.image@),
        final(form).request.ports@ == match app.default_port {
            Some(p) => seq![PortSpec { container_port: p }],
            None => Seq::empty(),
        },
        pairs_view(final(form).request.env@) == pairs_view(app.env@),
        pvc_view(final(form).request.pvc) == if app.needs_pvc {
            Some(("10Gi"@, "/data"@, None::<Seq<char>>))
        } else {
            None
        },
        final(form).node_selector@.len() == 0,
        final(form).preview is None,
        final(form).outcome is None,
        final(form).open == old(form).open,
        final(form).dry_run == old(form).dry_run,
{
    let name = sanitize_name(app.id.as_str());
    let namespace = form.request.namespace.clone();
    let mut request = DeployRequest::default();
    request.name = name;
    request.namespace = namespace;
    request.image = app.image.clone();
    request.replicas = 1;
    let mut ports: Vec<PortSpec> = Vec::new();
    if let Some(p) = app.default_port {
        ports.push(PortSpec { container_port: p });
    }
    request.ports = ports;
    request.env = copy_pairs(&app.env);
    request.pvc = if app.needs_pvc {
        Some(PvcSpec { size: "10Gi".to_owned(), mount_path: "/data".to_owned(), storage_class: None })
    } else {
        None
    };
    form.request = request;
    form.node_selector = Vec::new();
    form.preview = None;
    form.outcome = None;
}

pub(crate) fn copy_pairs(e: &Vec<(String, String)>) -> (out: Vec<(String, String)>)
    ensures
        pairs_view(out@) == pairs_view(e@),
{
    let mut out: Vec<(String, String)> = Vec::new();
    let mut i: usize = 0;
    while i < e.len()
        invariant
            i <= e@.len(),
            pairs_view(out@) == pairs_view(e@.take(i as int)),
        decreases e@.len() - i,
    {
        let k = e[i].0.clone();
        let v = e[i].1.clone();
        let ghost before = out@;
        out.push((k, v));
        proof {
            assert(pairs_view(out@) =~= pairs_view(before).push((k@, v@)));
            assert(pairs_view(e@.take(i + 1)) =~= pairs_view(e@.take(i as int)).push(
                (e@[i as int].0@, e@[i as int].1@),
            ));
        }
        i += 1;
    }
    assert(e@.take(e@.len() as int) =~= e@);
    out
}

} // verus!
