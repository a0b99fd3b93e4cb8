//! What the resources screen does with a user's intention: the sort, the
//! kind and namespace shown, the selection, the paging of the list, and the
//! confirmation that every destructive action goes through. The screen sends
//! nothing itself: it gives back the requests to make, in order.
use vstd::prelude::*;

use crate::text::{ascii_lower_seq, clone_opt, opt_view, push_str, same_opt_text, same_text};
use crate::views::graph::ObjectSummary;
use crate::views::resources::{default_shell, is_pod};
use crate::widgets::confirm::{Confirm, ConfirmAction, ResourceRef};

verus! {

/// The state of the screen that its intentions change.
#[derive(Debug)]
pub struct ResourcesScreen {
    /// Sorted column and direction (`true` for ascending).
    pub sort: (usize, bool),
    /// Plural of the kind listed.
    pub selected_kind: String,
    /// Namespace listed; all of them when absent.
    pub namespace: Option<String>,
    /// Selected object.
    pub selected: Option<ResourceRef>,
    /// Objects listed so far.
    pub rows: Vec<ObjectSummary>,
    /// Paging token of the last page received; `None` once the list is whole.
    pub continue_token: Option<String>,
    /// Text filter of the table.
    pub filter: String,
    /// Confirmation box shown.
    pub confirm: Option<Confirm>,
}

/// An intention collected while the screen was drawn.
#[derive(Debug)]
pub enum ScreenAction {
    /// Click on the header of a column.
    Sort(usize),
    /// Another kind, by its plural.
    SelectKind(String),
    /// Another namespace; all of them when absent.
    SelectNamespace(Option<String>),
    /// Select an object.
    Select(ResourceRef),
    /// Open an object: its YAML, and its containers for a pod.
    Open(ResourceRef),
    /// Show the YAML of an object.
    ShowYaml(ResourceRef),
    /// Edit an object in the YAML view.
    Edit(ResourceRef),
    /// Follow the logs of a pod.
    Logs(ResourceRef),
    /// Open a terminal in a pod.
    Terminal(ResourceRef),
    /// Restart a workload.
    Restart(ResourceRef),
    /// Bring a workload back to its previous revision.
    Rollback(ResourceRef),
    /// Delete an object.
    Delete(ResourceRef),
    /// Ask the number of replicas, from the current one.
    AskScale(ResourceRef, i32),
    /// Ask a new image, from the current one.
    AskImage(ResourceRef, String),
    /// Close (`true`) or open (`false`) a node to scheduling.
    Cordon(ResourceRef, bool),
    /// Drain a node.
    Drain(ResourceRef),
    /// Empty the filter.
    ClearFilter,
    /// List again from the first page.
    Refresh,
    /// Ask the next page.
    LoadMore,
}

/// A request the screen gives back to the application.
#[derive(Debug)]
pub enum ScreenEffect {
    /// List a kind in a namespace, `limit` objects per page, from a paging
    /// token or from the start.
    ListResources { kind: String, namespace: Option<String>, limit: u32, continue_token: Option<String> },
    /// Load the kinds and the namespaces, when not loaded yet.
    LoadBasics,
    /// Read the YAML of an object.
    LoadYaml(ResourceRef),
    /// Read the containers of a pod.
    LoadContainers(ResourceRef),
    /// Switch to the YAML view.
    OpenYamlView,
    /// Follow the logs of a pod, from its last 500 lines.
    StartLogs(ResourceRef),
    /// Run a command in a pod.
    StartExec(ResourceRef, Vec<String>),
    /// Close or open a node to scheduling.
    Cordon { node: String, on: bool },
    /// Open the box asking the number of replicas.
    OpenScale(ResourceRef, i32),
    /// Open the box asking a new image.
    OpenImage(ResourceRef, String),
}

/// Number of objects asked per page.
pub const PAGE_SIZE: u32 = 500;

/// An object reference as values.
pub type RefView = (Seq<char>, Seq<char>, Seq<char>, Seq<char>, Option<Seq<char>>, Seq<char>);

/// The values of a reference.
pub open spec fn ref_view(r: ResourceRef) -> RefView {
    (r.group@, r.version@, r.kind@, r.plural@, opt_view(r.namespace), r.name@)
}

/// A request as values.
pub enum FxView {
    /// A list request of `PAGE_SIZE` objects per page.
    List(Seq<char>, Option<Seq<char>>, Option<Seq<char>>),
    /// A list request of another size.
    OtherList,
    Basics,
    Yaml(RefView),
    Containers(RefView),
    YamlView,
    Logs(RefView),
    Exec(RefView, Seq<Seq<char>>),
    Cordon(Seq<char>, bool),
    Scale(RefView, i32),
    Image(RefView, Seq<char>),
}

/// The values of a request.
pub open spec fn fx_view(e: ScreenEffect) -> FxView {
    match e {
        ScreenEffect::ListResources { kind, namespace, limit, continue_token } => if limit == PAGE_SIZE {
            FxView::List(kind@, opt_view(namespace), opt_view(continue_token))
        } else {
            FxView::OtherList
        },
        ScreenEffect::LoadBasics => FxView::Basics,
        ScreenEffect::LoadYaml(r) => FxView::Yaml(ref_view(r)),
        ScreenEffect::LoadContainers(r) => FxView::Containers(ref_view(r)),
        ScreenEffect::OpenYamlView => FxView::YamlView,
        ScreenEffect::StartLogs(r) => FxView::Logs(ref_view(r)),
        ScreenEffect::StartExec(r, c) => FxView::Exec(ref_view(r), c@.map_values(|s: String| s@)),
        ScreenEffect::Cordon { node, on } => FxView::Cordon(node@, on),
        ScreenEffect::OpenScale(r, n) => FxView::Scale(ref_view(r), n),
        ScreenEffect::OpenImage(r, i) => FxView::Image(ref_view(r), i@),
    }
}

/// The shell a terminal runs: `bash` when there is one, `sh` otherwise.
pub open spec fn shell_command() -> Seq<Seq<char>> {
    seq!["/bin/sh"@, "-c"@, "command -v bash >/dev/null 2>&1 && exec bash || exec sh"@]
}

/// How an object is named in a message: `namespace/name`, or its name alone
/// for a cluster-wide object.
pub open spec fn shown_ref(r: ResourceRef) -> Seq<char> {
    match r.namespace {
        Some(ns) => ns@ + "/"@ + r.name@,
        None => r.name@,
    }
}

/// Body of the restart confirmation.
pub open spec fn restart_body(r: ResourceRef) -> Seq<char> {
    "Redémarrage progressif de "@ + shown_ref(r) + " ("@ + r.kind@ + "). Les pods seront recréés un à un."@
}

/// Body of the rollback confirmation.
pub open spec fn rollback_body(r: ResourceRef) -> Seq<char> {
    "Retour de "@ + shown_ref(r) + " à la révision précédente. L'opération est irréversible."@
}

/// Body of the drain confirmation.
pub open spec fn drain_body(r: ResourceRef) -> Seq<char> {
    "Vidange de "@ + r.name@ + DRAIN_TAIL@
}

/// Body of the delete confirmation.
pub open spec fn delete_body(r: ResourceRef) -> Seq<char> {
    "Suppression définitive de "@ + shown_ref(r) + " ("@ + r.kind@ + ") et de ses dépendances."@
}

/// End of the drain confirmation's body.
pub const DRAIN_TAIL: &'static str = " : le nœud est d'abord fermé à l'ordonnancement,                  puis tous ses pods sont évincés. Les charges non répliquées                  seront interrompues.";

/// `c` is a confirmation box just opened, nothing typed, asking `name` to
/// be typed again.
pub open spec fn asked(c: Option<Confirm>, title: Seq<char>, body: Seq<char>, name: Seq<char>, danger: bool) -> bool {
    &&& c matches Some(b)
    &&& b.title@ == title
    &&& b.body@ == body
    &&& b.danger == danger
    &&& opt_view(b.require_text) == Some(name)
    &&& b.typed@.len() == 0
}

/// The sort after a click on column `c`: the same column flips its
/// direction, another one sorts ascending.
pub open spec fn sorted_by(sort: (usize, bool), c: usize) -> (usize, bool) {
    if sort.0 == c {
        (c, !sort.1)
    } else {
        (c, true)
    }
}

/// The requests the screen gives back for `a` in state `s`.
pub open spec fn expected_fx(s: ResourcesScreen, a: ScreenAction, connected: bool) -> Seq<FxView> {
    match a {
        ScreenAction::SelectKind(p) => if connected && p@ != s.selected_kind@ {
            seq![FxView::List(p@, opt_view(s.namespace), None)]
        } else {
            Seq::empty()
        },
        ScreenAction::SelectNamespace(ns) => if connected && opt_view(ns) != opt_view(s.namespace) {
            seq![FxView::List(s.selected_kind@, opt_view(ns), None)]
        } else {
            Seq::empty()
        },
        ScreenAction::Open(r) => if !connected {
            Seq::empty()
        } else if ascii_lower_seq(r.kind@) == "pod"@ {
            seq![FxView::Yaml(ref_view(r)), FxView::Containers(ref_view(r))]
        } else {
            seq![FxView::Yaml(ref_view(r))]
        },
        ScreenAction::ShowYaml(r) => if connected {
            seq![FxView::Yaml(ref_view(r))]
        } else {
            Seq::empty()
        },
        ScreenAction::Edit(r) => if connected {
            seq![FxView::Yaml(ref_view(r)), FxView::YamlView]
        } else {
            seq![FxView::YamlView]
        },
        ScreenAction::Logs(r) => if connected {
            seq![FxView::Containers(ref_view(r)), FxView::Logs(ref_view(r))]
        } else {
            Seq::empty()
        },
        ScreenAction::Terminal(r) => if connected {
            seq![FxView::Containers(ref_view(r)), FxView::Exec(ref_view(r), shell_command())]
        } else {
            Seq::empty()
        },
        ScreenAction::AskScale(r, n) => seq![FxView::Scale(ref_view(r), n)],
        ScreenAction::AskImage(r, i) => seq![FxView::Image(ref_view(r), i@)],
        ScreenAction::Cordon(r, on) => if connected {
            seq![FxView::Cordon(r.name@, on)]
        } else {
            Seq::empty()
        },
        ScreenAction::Refresh => if connected {
            seq![FxView::Basics, FxView::List(s.selected_kind@, opt_view(s.namespace), None)]
        } else {
            Seq::empty()
        },
        ScreenAction::LoadMore => match s.continue_token {
            Some(t) => if connected {
                seq![FxView::List(s.selected_kind@, opt_view(s.namespace), Some(t@))]
            } else {
                Seq::empty()
            },
            None => Seq::empty(),
        },
        _ => Seq::empty(),
    }
}

/// `after` is `before` with the selection set to `r`.
pub open spec fn selecting(before: ResourcesScreen, after: ResourcesScreen, r: ResourceRef) -> bool {
    after == (ResourcesScreen { selected: Some(r), ..before })
}

/// `after` is `before` with the confirmation box changed.
pub open spec fn confirming(before: ResourcesScreen, after: ResourcesScreen) -> bool {
    after == (ResourcesScreen { confirm: after.confirm, ..before })
}

/// The state of the screen after `a`.
pub open spec fn screen_after(s: ResourcesScreen, a: ScreenAction, connected: bool, t: ResourcesScreen) -> bool {
    match a {
        ScreenAction::Sort(c) => t == (ResourcesScreen { sort: sorted_by(s.sort, c), ..s }),
        ScreenAction::SelectKind(p) => if p@ != s.selected_kind@ {
            &&& t == (ResourcesScreen {
                selected_kind: p,
                selected: None,
                rows: t.rows,
                continue_token: None,
                ..s
            })
            &&& t.rows@.len() == 0
        } else {
            t == s
        },
        ScreenAction::SelectNamespace(ns) => if opt_view(ns) != opt_view(s.namespace) {
            &&& t == (ResourcesScreen {
                namespace: ns,
                selected: None,
                rows: t.rows,
                continue_token: None,
                ..s
            })
            &&& t.rows@.len() == 0
        } else {
            t == s
        },
        ScreenAction::Select(r) => selecting(s, t, r),
        ScreenAction::Open(r) => selecting(s, t, r),
        ScreenAction::ShowYaml(r) => selecting(s, t, r),
        ScreenAction::Edit(r) => selecting(s, t, r),
        ScreenAction::Logs(r) => selecting(s, t, r),
        ScreenAction::Terminal(r) => selecting(s, t, r),
        ScreenAction::Restart(r) => if connected {
            &&& confirming(s, t)
            &&& asked(t.confirm, "Redémarrer"@, restart_body(r), r.name@, false)
            &&& t.confirm->0.on_confirm == ConfirmAction::RestartWorkload(r)
        } else {
            t == s
        },
        ScreenAction::Rollback(r) => if connected {
            &&& confirming(s, t)
            &&& asked(t.confirm, "Rollback"@, rollback_body(r), r.name@, false)
            &&& t.confirm->0.on_confirm == ConfirmAction::RollbackWorkload(r)
        } else {
            t == s
        },
        ScreenAction::Drain(r) => if connected {
            &&& confirming(s, t)
            &&& asked(t.confirm, "Vider le nœud"@, drain_body(r), r.name@, true)
            &&& t.confirm->0.on_confirm matches ConfirmAction::DrainNode(n) && n@ == r.name@
        } else {
            t == s
        },
        ScreenAction::Delete(r) => if connected {
            &&& confirming(s, t)
            &&& asked(t.confirm, "Supprimer"@, delete_body(r), r.name@, true)
            &&& t.confirm->0.on_confirm == ConfirmAction::DeleteResource(r)
        } else {
            t == s
        },
        ScreenAction::ClearFilter => {
            &&& t == (ResourcesScreen { filter: t.filter, ..s })
            &&& t.filter@.len() == 0
        },
        ScreenAction::Refresh => t == (ResourcesScreen { continue_token: None, ..s }),
        ScreenAction::LoadMore => t == (ResourcesScreen { continue_token: None, ..s }),
        _ => t == s,
    }
}

/// Every list the screen asks for is the one it then shows: the kind and the
/// namespace of each list request are those the screen holds after the
/// step. Only asking the next page hands over a paging token, the one the
/// screen held, which is then spent.
pub proof fn lemma_lists_follow_screen(s: ResourcesScreen, a: ScreenAction, connected: bool, t: ResourcesScreen)
    requires
        screen_after(s, a, connected, t),
    ensures
        forall|k: int|
            #![trigger expected_fx(s, a, connected)[k]]
            0 <= k < expected_fx(s, a, connected).len() ==> (expected_fx(s, a, connected)[k] matches FxView::List(
                kind,
                ns,
                token,
            ) ==> {
                &&& kind == t.selected_kind@
                &&& ns == opt_view(t.namespace)
                &&& (token is Some ==> a is LoadMore && token == opt_view(s.continue_token))
                &&& t.continue_token is None
            }),
{
}

/// A confirmation box just opened for `r`: it asks the object's name to be
/// typed again, nothing is typed yet, and it is dangerous as `danger` says.
pub open spec fn asks_name(c: Option<Confirm>, r: ResourceRef, danger: bool) -> bool {
    &&& c is Some
    &&& opt_view(c->0.require_text) == Some(r.name@)
    &&& c->0.typed@.len() == 0
    &&& c->0.danger == danger
}

/// Every destructive action, while a cluster is current, opens a
/// confirmation that asks the object's name to be typed again, and touches
/// nothing else; drain and delete are marked dangerous, restart and
/// rollback are not. Without a cluster the screen stays as it was. Nothing
/// is asked of the cluster before the user confirms.
pub proof fn lemma_destructive_actions_confirmed(s: ResourcesScreen, a: ScreenAction, connected: bool, t: ResourcesScreen)
    requires
        screen_after(s, a, connected, t),
        a is Restart || a is Rollback || a is Drain || a is Delete,
    ensures
        (connected && a is Restart) ==> asks_name(t.confirm, a->Restart_0, false),
        (connected && a is Rollback) ==> asks_name(t.confirm, a->Rollback_0, false),
        (connected && a is Drain) ==> asks_name(t.confirm, a->Drain_0, true),
        (connected && a is Delete) ==> asks_name(t.confirm, a->Delete_0, true),
        connected ==> t == (ResourcesScreen { confirm: t.confirm, ..s }),
        !connected ==> t == s,
        expected_fx(s, a, connected).len() == 0,
{
}

/// Two clicks on the same column give back the first direction; a click on
/// any column sorts by it.
pub proof fn lemma_sort_clicks(sort: (usize, bool), c: usize)
    ensures
        sorted_by(sort, c).0 == c,
        sorted_by(sorted_by(sort, c), c).1 == !sorted_by(sort, c).1,
        sort.0 == c ==> sorted_by(sorted_by(sort, c), c) == sort,
        sort.0 != c ==> sorted_by(sort, c).1,
{
}

/// A copy of a reference.
pub fn copy_ref(r: &ResourceRef) -> (c: ResourceRef)
    ensures
        ref_view(c) == ref_view(*r),
{
    ResourceRef {
        group: r.group.clone(),
        version: r.version.clone(),
        kind: r.kind.clone(),
        plural: r.plural.clone(),
        namespace: clone_opt(&r.namespace),
        name: r.name.clone(),
    }
}

/// How a reference is named in a message.
fn push_shown_ref(out: &mut String, r: &ResourceRef)
    ensures
        final(out)@ == old(out)@ + shown_ref(*r),
{
    match &r.namespace {
        Some(ns) => {
            push_str(out, ns.as_str());
            push_str(out, "/");
            push_str(out, r.name.as_str());
            assert(final(out)@ =~= old(out)@ + shown_ref(*r));
        },
        None => push_str(out, r.name.as_str()),
    }
}

/// A confirmation box asking `name` to be typed again.
fn ask(title: &str, body: String, name: String, danger: bool, action: ConfirmAction) -> (c: Confirm)
    ensures
        asked(Some(c), title@, body@, name@, danger),
        c.on_confirm == action,
{
    let b = Confirm::new(title.to_owned(), body, action).require_text(name);
    if danger {
        b.danger()
    } else {
        b
    }
}

/// Applies an intention to the screen and gives back the requests to make,
/// in order. `connected` tells whether a cluster is current: without one,
/// nothing is asked of it and no destructive action is proposed.
///
/// Every destructive action (restart, rollback, drain, delete) goes through
/// a confirmation box that asks the object's name to be typed again; drain
/// and delete are marked dangerous. A change of kind or namespace forgets
/// the rows, the paging token and the selection, and lists again from the
/// first page. Asking the next page spends the paging token.
pub fn resources_step(st: &mut ResourcesScreen, action: ScreenAction, connected: bool) -> (fx: Vec<ScreenEffect>)
    ensures
        screen_after(*old(st), action, connected, *final(st)),
        fx@.map_values(|e: ScreenEffect| fx_view(e)) == expected_fx(*old(st), action, connected),
{
    let ghost s0 = *st;
    let ghost a0 = action;
    let mut fx: Vec<ScreenEffect> = Vec::new();
    match action {
        ScreenAction::Sort(column) => {
            if st.sort.0 == column {
                st.sort.1 = !st.sort.1;
            } else {
                st.sort = (column, true);
            }
        },
        ScreenAction::SelectKind(plural) => {
            if !same_text(plural.as_str(), st.selected_kind.as_str()) {
                if connected {
                    fx.push(
                        ScreenEffect::ListResources {
                            kind: plural.clone(),
                            namespace: clone_opt(&st.namespace),
                            limit: PAGE_SIZE,
                            continue_token: None,
                        },
                    );
                }
                st.selected_kind = plural;
                st.selected = None;
                st.rows = Vec::new();
                st.continue_token = None;
            }
        },
        ScreenAction::SelectNamespace(namespace) => {
            if !same_opt_text(&namespace, &st.namespace) {
                if connected {
                    fx.push(
                        ScreenEffect::ListResources {
                            kind: st.selected_kind.clone(),
                            namespace: clone_opt(&namespace),
                            limit: PAGE_SIZE,
                            continue_token: None,
                        },
                    );
                }
                st.namespace = namespace;
                st.selected = None;
                st.rows = Vec::new();
                st.continue_token = None;
            }
        },
        ScreenAction::Select(reference) => {
            st.selected = Some(reference);
        },
        ScreenAction::Open(reference) => {
            if connected {
                fx.push(ScreenEffect::LoadYaml(copy_ref(&reference)));
                if is_pod(&reference) {
                    fx.push(ScreenEffect::LoadContainers(copy_ref(&reference)));
                }
            }
            st.selected = Some(reference);
        },
        ScreenAction::ShowYaml(reference) => {
            if connected {
                fx.push(ScreenEffect::LoadYaml(copy_ref(&reference)));
            }
            st.selected = Some(reference);
        },
        ScreenAction::Edit(reference) => {
            if connected {
                fx.push(ScreenEffect::LoadYaml(copy_ref(&reference)));
            }
            fx.push(ScreenEffect::OpenYamlView);
            st.selected = Some(reference);
        },
        ScreenAction::Logs(reference) => {
            if connected {
                fx.push(ScreenEffect::LoadContainers(copy_ref(&reference)));
                fx.push(ScreenEffect::StartLogs(copy_ref(&reference)));
            }
            st.selected = Some(reference);
        },
        ScreenAction::Terminal(reference) => {
            if connected {
                fx.push(ScreenEffect::LoadContainers(copy_ref(&reference)));
                let shell = default_shell();
                proof {
                    assert(shell@.map_values(|s: String| s@) =~= shell_command());
                }
                fx.push(ScreenEffect::StartExec(copy_ref(&reference), shell));
            }
            st.selected = Some(reference);
        },
        ScreenAction::Restart(reference) => {
            if connected {
                let mut body = "Redémarrage progressif de ".to_owned();
                push_shown_ref(&mut body, &reference);
                push_str(&mut body, " (");
                push_str(&mut body, reference.kind.as_str());
                push_str(&mut body, "). Les pods seront recréés un à un.");
                let name = reference.name.clone();
                st.confirm = Some(ask("Redémarrer", body, name, false, ConfirmAction::RestartWorkload(reference)));
            }
        },
        ScreenAction::Rollback(reference) => {
            if connected {
                let mut body = "Retour de ".to_owned();
                push_shown_ref(&mut body, &reference);
                push_str(&mut body, " à la révision précédente. L'opération est irréversible.");
                let name = reference.name.clone();
                st.confirm = Some(ask("Rollback", body, name, false, ConfirmAction::RollbackWorkload(reference)));
            }
        },
        ScreenAction::Drain(reference) => {
            if connected {
                let mut body = "Vidange de ".to_owned();
                push_str(&mut body, reference.name.as_str());
                push_str(&mut body, DRAIN_TAIL);
                let name = reference.name.clone();
                let target = reference.name.clone();
                st.confirm = Some(ask("Vider le nœud", body, name, true, ConfirmAction::DrainNode(target)));
            }
        },
        ScreenAction::Delete(reference) => {
            if connected {
                let mut body = "Suppression définitive de ".to_owned();
                push_shown_ref(&mut body, &reference);
                push_str(&mut body, " (");
                push_str(&mut body, reference.kind.as_str());
                push_str(&mut body, ") et de ses dépendances.");
                let name = reference.name.clone();
                st.confirm = Some(ask("Supprimer", body, name, true, ConfirmAction::DeleteResource(reference)));
            }
        },
        ScreenAction::AskScale(reference, current) => {
            fx.push(ScreenEffect::OpenScale(reference, current));
        },
        ScreenAction::AskImage(reference, current) => {
            fx.push(ScreenEffect::OpenImage(reference, current));
        },
        ScreenAction::Cordon(reference, on) => {
            if connected {
                fx.push(ScreenEffect::Cordon { node: reference.name.clone(), on });
            }
        },
        ScreenAction::ClearFilter => {
            st.filter = String::new();
        },
        ScreenAction::Refresh => {
            st.continue_token = None;
            if connected {
                fx.push(ScreenEffect::LoadBasics);
                fx.push(
                    ScreenEffect::ListResources {
                        kind: st.selected_kind.clone(),
                        namespace: clone_opt(&st.namespace),
                        limit: PAGE_SIZE,
                        continue_token: None,
                    },
                );
            }
        },
        ScreenAction::LoadMore => {
            let token = clone_opt(&st.continue_token);
            if token.is_some() {
                st.continue_token = None;
                if connected {
                    fx.push(
                        ScreenEffect::ListResources {
                            kind: st.selected_kind.clone(),
                            namespace: clone_opt(&st.namespace),
                            limit: PAGE_SIZE,
                            continue_token: token,
                        },
                    );
                }
            }
        },
    }
    proof {
        assert(fx@.map_values(|e: ScreenEffect| fx_view(e)) =~= expected_fx(s0, a0, connected));
    }
    fx
}

} // verus!
