//! State of the deployment wizard: the step shown, the simplified settings
//! the user handles, and the request they are written back into.
use vstd::prelude::*;

use crate::text::{clone_opt, decimal, is_blank, opt_view, push_decimal, push_str, trim, trimmed, views_of};
use crate::views::deploy::{exposure_service_type, Exposure, Source, Step};
use crate::views::graph::clone_strings;
use crate::views::hub::request::{
    copy_pairs, copy_pvc, kept_env, kept_ports, named_env, namespace_or_default, numbered_ports,
    optional_fields_empty, pairs_view, ports_from, ports_of, pvc_view, same_settings,
    ApplyOutcome, CatalogApp,
};
use crate::views::hub::{label_of, nom_court_depuis_reference, sanitize_name, short_name};
use crate::views::hub::{DeployRequest, PortSpec, PvcSpec};

verus! {

/// Complete state of the wizard.
///
/// `request` is the source of truth: the fields around it are only the form
/// in which the user handles it, and [`WizardState::sync`] writes them back
/// into it.
#[derive(Debug)]
pub struct WizardState {
    /// Step shown.
    pub step: Step,
    /// Furthest step reached, which bounds the clickable trail.
    pub reached: Step,
    /// Where the application comes from.
    pub source: Source,
    /// Text filter of the catalogue grid.
    pub filter: String,
    /// Category kept; `None` for all.
    pub category: Option<String>,
    /// Identifier of the application picked in the catalogue.
    pub picked: Option<String>,
    /// Image reference typed by hand.
    pub image_input: String,
    /// The request being built.
    pub request: DeployRequest,
    /// Exposure chosen.
    pub exposure: Exposure,
    /// Domain name, when the exposure is an Ingress.
    pub host: String,
    /// A persistent volume is asked for.
    pub storage: bool,
    /// Size of the volume, in gibibytes.
    pub storage_gib: u32,
    /// Mount point of the volume.
    pub storage_path: String,
    /// Manifest rendered by the backend.
    pub preview: Option<String>,
    /// Manifest unfolded under the forecast.
    pub show_yaml: bool,
    /// Outcome of the last application.
    pub outcome: Option<ApplyOutcome>,
    /// True when that outcome comes from a simulation.
    pub outcome_was_dry_run: bool,
    /// Help or error shown under the actions.
    pub message: Option<String>,
}

/// Position of a step in the trail.
pub open spec fn step_rank(s: Step) -> nat {
    match s {
        Step::What => 0,
        Step::How => 1,
        Step::Preview => 2,
        Step::Result => 3,
    }
}

/// A request with nothing filled in but its namespace, for one replica.
pub open spec fn blank_request_in(r: DeployRequest, namespace: Seq<char>) -> bool {
    &&& r.name@.len() == 0
    &&& r.namespace@ == namespace
    &&& r.image@.len() == 0
    &&& r.replicas == 1
    &&& r.ports@.len() == 0
    &&& r.env@.len() == 0
    &&& r.command@.len() == 0
    &&& r.args@.len() == 0
    &&& r.node_selector@.len() == 0
    &&& r.pvc is None
    &&& optional_fields_empty(r)
}

/// The wizard at its first step, nothing chosen, its request blank but for
/// the namespace.
pub open spec fn wizard_start(w: WizardState, namespace: Seq<char>) -> bool {
    &&& w.step == Step::What
    &&& w.reached == Step::What
    &&& w.source == Source::Catalog
    &&& w.filter@.len() == 0
    &&& w.category is None
    &&& w.picked is None
    &&& w.image_input@.len() == 0
    &&& blank_request_in(w.request, namespace)
    &&& w.exposure == Exposure::Internal
    &&& w.host@.len() == 0
    &&& !w.storage
    &&& w.storage_gib == 10
    &&& w.storage_path@ == "/data"@
    &&& w.preview is None
    &&& !w.show_yaml
    &&& w.outcome is None
    &&& !w.outcome_was_dry_run
    &&& w.message is None
}

/// The domain an exposure writes into a request: the trimmed host for a
/// domain exposure, when it holds something.
pub open spec fn synced_host(e: Exposure, host: Seq<char>) -> Option<Seq<char>> {
    if e == Exposure::Domain && trim(host).len() > 0 {
        Some(trim(host))
    } else {
        None
    }
}

/// The volume the storage settings write into a request: the size in
/// gibibytes (at least one), the trimmed mount point or `/data`, the storage
/// class of the volume already asked for.
pub open spec fn synced_pvc(
    storage: bool,
    gib: u32,
    path: Seq<char>,
    before: Option<PvcSpec>,
) -> Option<(Seq<char>, Seq<char>, Option<Seq<char>>)> {
    if storage {
        Some(
            (
                decimal(if gib < 1 { 1 } else { gib as nat }) + "Gi"@,
                if trim(path).len() == 0 { "/data"@ } else { trim(path) },
                match before {
                    Some(p) => opt_view(p.storage_class),
                    None => None,
                },
            ),
        )
    } else {
        None
    }
}

/// `after` is `before` with the wizard's exposure and storage written into
/// it, every other field as it was.
pub open spec fn request_synced(
    before: DeployRequest,
    after: DeployRequest,
    exposure: Exposure,
    host: Seq<char>,
    storage: bool,
    gib: u32,
    path: Seq<char>,
) -> bool {
    &&& opt_view(after.service_type) == Some(exposure_service_type(exposure))
    &&& opt_view(after.ingress_host) == synced_host(exposure, host)
    &&& pvc_view(after.pvc) == synced_pvc(storage, gib, path, before.pvc)
    &&& after == (DeployRequest {
        service_type: after.service_type,
        ingress_host: after.ingress_host,
        pvc: after.pvc,
        ..before
    })
}

/// Writing the settings back is stable: a second write, with the same
/// settings, changes nothing that the first one wrote, so the wizard can
/// write them back at every frame.
pub proof fn lemma_sync_twice(
    before: DeployRequest,
    once: DeployRequest,
    twice: DeployRequest,
    exposure: Exposure,
    host: Seq<char>,
    storage: bool,
    gib: u32,
    path: Seq<char>,
)
    requires
        request_synced(before, once, exposure, host, storage, gib, path),
        request_synced(once, twice, exposure, host, storage, gib, path),
    ensures
        opt_view(twice.service_type) == opt_view(once.service_type),
        opt_view(twice.ingress_host) == opt_view(once.ingress_host),
        pvc_view(twice.pvc) == pvc_view(once.pvc),
        twice == (DeployRequest {
            service_type: twice.service_type,
            ingress_host: twice.ingress_host,
            pvc: twice.pvc,
            ..once
        }),
{
}

/// The request a prefilled wizard starts from: identity, one replica, no
/// command, the exposure inside the cluster, nothing else set.
pub open spec fn prefilled_request(
    r: DeployRequest,
    name: Seq<char>,
    namespace: Seq<char>,
    image: Seq<char>,
) -> bool {
    &&& r.name@ == name
    &&& r.namespace@ == namespace
    &&& r.image@ == image
    &&& r.replicas == 1
    &&& r.command@.len() == 0
    &&& r.args@.len() == 0
    &&& r.node_selector@.len() == 0
    &&& optional_fields_empty(DeployRequest { service_type: None, ..r })
    &&& opt_view(r.service_type) == Some("ClusterIP"@)
}

/// The settings a prefill resets, the choice of step and catalogue view
/// kept from `before`.
pub open spec fn prefill_kept(before: WizardState, after: WizardState) -> bool {
    &&& after.step == before.step
    &&& after.reached == before.reached
    &&& after.source == before.source
    &&& after.filter == before.filter
    &&& after.category == before.category
    &&& after.show_yaml == before.show_yaml
    &&& after.outcome_was_dry_run == before.outcome_was_dry_run
    &&& after.exposure == Exposure::Internal
    &&& after.host@.len() == 0
    &&& after.preview is None
    &&& after.outcome is None
    &&& after.message is None
}

impl Default for WizardState {
    /// The first step, nothing chosen, a 10 GiB volume on `/data` offered.
    fn default() -> (w: Self)
        ensures
            wizard_start(w, Seq::empty()),
    {
        let w = WizardState {
            step: Step::What,
            reached: Step::What,
            source: Source::Catalog,
            filter: String::new(),
            category: None,
            picked: None,
            image_input: String::new(),
            request: DeployRequest::default(),
            exposure: Exposure::Internal,
            host: String::new(),
            storage: false,
            storage_gib: 10,
            storage_path: "/data".to_owned(),
            preview: None,
            show_yaml: false,
            outcome: None,
            outcome_was_dry_run: false,
            message: None,
        };
        assert(w.request.namespace@ =~= Seq::<char>::empty());
        w
    }
}

impl WizardState {
    /// Back to the first step, the application chosen forgotten; the
    /// namespace stays, so that a second deployment goes to the same place.
    pub fn restart(&mut self)
        ensures
            wizard_start(*final(self), old(self).request.namespace@),
    {
        let namespace = self.request.namespace.clone();
        let mut fresh = WizardState::default();
        fresh.request.namespace = namespace;
        *self = fresh;
    }

    /// Goes to a step, remembering the furthest reached.
    pub fn go(&mut self, step: Step)
        ensures
            *final(self) == (WizardState {
                step,
                reached: if step_rank(step) > step_rank(old(self).reached) {
                    step
                } else {
                    old(self).reached
                },
                ..*old(self)
            }),
    {
        self.step = step;
        if step_rank_of(step) > step_rank_of(self.reached) {
            self.reached = step;
        }
    }

    /// Writes the exposure and the storage settings back into the request.
    /// The fields the wizard does not show keep their value, that of the
    /// advanced form for example.
    pub fn sync(&mut self)
        ensures
            request_synced(
                old(self).request,
                final(self).request,
                old(self).exposure,
                old(self).host@,
                old(self).storage,
                old(self).storage_gib,
                old(self).storage_path@,
            ),
            *final(self) == (WizardState { request: final(self).request, ..*old(self) }),
    {
        let service_type = self.exposure.service_type().to_owned();
        let ingress_host = match self.exposure {
            Exposure::Domain => if is_blank(self.host.as_str()) {
                None
            } else {
                Some(trimmed(self.host.as_str()))
            },
            _ => None,
        };
        let pvc = if self.storage {
            let storage_class = match &self.request.pvc {
                Some(p) => clone_opt(&p.storage_class),
                None => None,
            };
            let gib: u32 = if self.storage_gib < 1 {
                1
            } else {
                self.storage_gib
            };
            let mut size = String::new();
            push_decimal(&mut size, gib as u64);
            push_str(&mut size, "Gi");
            let mount_path = if is_blank(self.storage_path.as_str()) {
                "/data".to_owned()
            } else {
                trimmed(self.storage_path.as_str())
            };
            Some(PvcSpec { size, mount_path, storage_class })
        } else {
            None
        };
        self.request.service_type = Some(service_type);
        self.request.ingress_host = ingress_host;
        self.request.pvc = pvc;
    }

    /// The cleaned request, as it is sent to the cluster: identity trimmed,
    /// `default` for a blank namespace, ports without a number and variables
    /// without a name left out.
    pub fn built(&self) -> (r: DeployRequest)
        ensures
            r.name@ == trim(self.request.name@),
            r.namespace@ == namespace_or_default(self.request.namespace@),
            r.image@ == trim(self.request.image@),
            r.ports@ == numbered_ports(self.request.ports@),
            pairs_view(r.env@) == named_env(self.request.env@),
            views_of(r.command@) == views_of(self.request.command@),
            views_of(r.args@) == views_of(self.request.args@),
            pairs_view(r.node_selector@) == pairs_view(self.request.node_selector@),
            same_settings(r, self.request),
    {
        let q = &self.request;
        let namespace = if is_blank(q.namespace.as_str()) {
            "default".to_owned()
        } else {
            trimmed(q.namespace.as_str())
        };
        DeployRequest {
            name: trimmed(q.name.as_str()),
            namespace,
            image: trimmed(q.image.as_str()),
            replicas: q.replicas,
            ports: kept_ports(&q.ports),
            env: kept_env(&q.env),
            command: clone_strings(&q.command),
            args: clone_strings(&q.args),
            node_selector: copy_pairs(&q.node_selector),
            pvc: copy_pvc(&q.pvc),
            service_type: clone_opt(&q.service_type),
            ingress_host: clone_opt(&q.ingress_host),
            ingress_class: clone_opt(&q.ingress_class),
            ingress_tls_secret: clone_opt(&q.ingress_tls_secret),
            cpu_request: clone_opt(&q.cpu_request),
            cpu_limit: clone_opt(&q.cpu_limit),
            memory_request: clone_opt(&q.memory_request),
            memory_limit: clone_opt(&q.memory_limit),
            image_pull_secret: clone_opt(&q.image_pull_secret),
            service_account: clone_opt(&q.service_account),
        }
    }
}

/// Position of a step in the trail.
fn step_rank_of(s: Step) -> (r: u8)
    ensures
        r == step_rank(s),
{
    match s {
        Step::What => 0,
        Step::How => 1,
        Step::Preview => 2,
        Step::Result => 3,
    }
}

/// A request for one replica of `image`, its name and namespace given, the
/// rest empty.
fn fresh_in(name: String, namespace: String, image: String) -> (r: DeployRequest)
    ensures
        r.name@ == name@,
        r.namespace@ == namespace@,
        r.image@ == image@,
        r.replicas == 1,
        r.ports@.len() == 0,
        r.env@.len() == 0,
        r.command@.len() == 0,
        r.args@.len() == 0,
        r.node_selector@.len() == 0,
        r.pvc is None,
        optional_fields_empty(r),
{
    let mut r = DeployRequest::default();
    r.name = name;
    r.namespace = namespace;
    r.image = image;
    r
}

/// Prepares the wizard for an application of the catalogue: its identifier
/// as the name, its image, port and variables, a volume when it keeps data,
/// the exposure inside the cluster. The namespace chosen stays.
pub fn prefill_from_catalog(w: &mut WizardState, app: &CatalogApp)
    ensures
        prefilled_request(final(w).request, label_of(app.id@), old(w).request.namespace@, app.image@),
        final(w).request.ports@ == match app.default_port {
            Some(p) => seq![PortSpec { container_port: p }],
            None => Seq::empty(),
        },
        pairs_view(final(w).request.env@) == pairs_view(app.env@),
        pvc_view(final(w).request.pvc) == synced_pvc(app.needs_pvc, 10, "/data"@, None),
        opt_view(final(w).picked) == Some(app.id@),
        final(w).image_input@ == app.image@,
        final(w).storage == app.needs_pvc,
        final(w).storage_gib == 10,
        final(w).storage_path@ == "/data"@,
        prefill_kept(*old(w), *final(w)),
{
    let namespace = w.request.namespace.clone();
    w.picked = Some(app.id.clone());
    w.image_input = app.image.clone();
    w.exposure = Exposure::Internal;
    w.host = String::new();
    w.storage = app.needs_pvc;
    w.storage_gib = 10;
    w.storage_path = "/data".to_owned();
    w.preview = None;
    w.outcome = None;
    w.message = None;
    let mut request = fresh_in(sanitize_name(app.id.as_str()), namespace, app.image.clone());
    let mut ports: Vec<PortSpec> = Vec::new();
    if let Some(p) = app.default_port {
        ports.push(PortSpec { container_port: p });
    }
    request.ports = ports;
    request.env = copy_pairs(&app.env);
    w.request = request;
    w.sync();
}

/// Prepares the wizard for an image typed by hand: a name derived from the
/// reference, its ports, no volume, the exposure inside the cluster. The
/// namespace chosen stays.
pub fn prefill_from_image(w: &mut WizardState, reference: &str, ports: &[u16])
    ensures
        prefilled_request(
            final(w).request,
            label_of(short_name(reference@)),
            old(w).request.namespace@,
            reference@,
        ),
        final(w).request.ports@ == ports_of(ports@),
        final(w).request.env@.len() == 0,
        final(w).request.pvc is None,
        final(w).picked is None,
        !final(w).storage,
        final(w).image_input == old(w).image_input,
        final(w).storage_gib == old(w).storage_gib,
        final(w).storage_path == old(w).storage_path,
        prefill_kept(*old(w), *final(w)),
{
    let namespace = w.request.namespace.clone();
    w.picked = None;
    w.exposure = Exposure::Internal;
    w.host = String::new();
    w.storage = false;
    w.preview = None;
    w.outcome = None;
    w.message = None;
    let mut request = fresh_in(
        sanitize_name(nom_court_depuis_reference(reference)),
        namespace,
        reference.to_owned(),
    );
    request.ports = ports_from(ports);
    w.request = request;
    w.sync();
}

} // verus!
