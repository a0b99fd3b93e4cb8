//! Settings screen: tabs, preferences and the rules that clean what is typed
//! in the forms.
use vstd::prelude::*;

use crate::text::{is_blank, trim, trimmed};

verus! {

/// Active tab of the settings.
#[derive(Debug, Clone, Copy, PartialEq, Eq, Default)]
pub enum SettingsTab {
    /// Saved clusters and new connections.
    #[default]
    Clusters,
    /// Theme, scale, density.
    Appearance,
    /// Refresh, logs, confirmations.
    Behavior,
    /// Version, platform, state directory, shortcuts.
    About,
}

/// How a cluster is added.
#[derive(Debug, Clone, Copy, PartialEq, Eq, Default)]
pub enum AddClusterMode {
    /// A kubeconfig file picked on disk.
    #[default]
    Kubeconfig,
    /// A kubeconfig pasted in a text area.
    Paste,
    /// An API server reached directly (URL, token, certificates).
    Remote,
}

/// Theme preference.
#[derive(Debug, Clone, Copy, PartialEq, Eq, Default)]
pub enum ThemeChoice {
    /// Follows the system.
    #[default]
    System,
    /// Always light.
    Light,
    /// Always dark.
    Dark,
}

/// Density of tables and controls.
#[derive(Debug, Clone, Copy, PartialEq, Eq, Default)]
pub enum Density {
    /// Tight rows, for large tables.
    Compact,
    /// The toolkit's own spacing.
    #[default]
    Normal,
    /// Airy rows.
    Comfortable,
}

/// Destructive action waiting for a confirmation.
#[derive(Debug, Clone, PartialEq, Eq)]
pub enum SettingsConfirm {
    /// Removal of a cluster from the list.
    RemoveCluster {
        /// Name of the cluster.
        name: String,
    },
}

/// What a trimmed text field holds: nothing when it is blank, else the
/// trimmed text.
pub open spec fn field_value(s: Seq<char>) -> Option<Seq<char>> {
    if trim(s).len() == 0 {
        None
    } else {
        Some(trim(s))
    }
}

/// `None` for a blank input, else the trimmed value.
pub fn vide_en_none(s: &str) -> (r: Option<String>)
    ensures
        match r {
            None => field_value(s@) is None,
            Some(t) => field_value(s@) == Some(t@),
        },
{
    if is_blank(s) {
        None
    } else {
        Some(trimmed(s))
    }
}

/// Explicit kubeconfig path, or `None` to let the default location apply.
pub fn chemin_kubeconfig(saisi: &str) -> (r: Option<String>)
    ensures
        match r {
            None => field_value(saisi@) is None,
            Some(t) => field_value(saisi@) == Some(t@),
        },
{
    vide_en_none(saisi)
}

} // verus!
