//! The unit entity of a scan: one record per accepted filesystem entry.

use vstd::prelude::*;

verus! {

/// The on-disk packaging convention a plugin was recognised under.
#[derive(Clone, Copy, Debug, PartialEq, Eq, Structural, Hash)]
pub enum PluginType {
    VST2,
    VST3,
    AU,
    AAX,
}

/// One scanned plugin. `path` is the identity key within a scan result:
/// no two records of one scan share a path.
#[derive(Debug)]
pub struct Plugin {
    /// Display name; never empty (falls back to the filename stem).
    pub name: String,
    /// Manufacturer string: raw as extracted, canonical after normalization.
    pub manufacturer: String,
    /// Declared version, absent when undeterminable.
    pub version: Option<String>,
    /// The scanned path, kept exactly as handed in.
    pub path: String,
    pub plugin_type: PluginType,
}

/// Mathematical image of a `Plugin`: every text field as a `Seq<char>`.
pub struct PluginModel {
    pub name: Seq<char>,
    pub manufacturer: Seq<char>,
    pub version: Option<Seq<char>>,
    pub path: Seq<char>,
    pub plugin_type: PluginType,
}

impl View for Plugin {
    type V = PluginModel;

    open spec fn view(&self) -> PluginModel {
        PluginModel {
            name: self.name@,
            manufacturer: self.manufacturer@,
            version: match self.version {
                Some(v) => Some(v@),
                None => None,
            },
            path: self.path@,
            plugin_type: self.plugin_type,
        }
    }
}

impl Plugin {
    /// A record is well formed when its display name is non-empty.
    pub open spec fn wf(&self) -> bool {
        self@.name.len() > 0
    }
}

impl Clone for Plugin {
    fn clone(&self) -> (r: Self)
        ensures
            r@ == self@,
    {
        Plugin {
            name: self.name.clone(),
            manufacturer: self.manufacturer.clone(),
            version: match &self.version {
                Some(v) => Some(v.clone()),
                None => None,
            },
            path: self.path.clone(),
            plugin_type: self.plugin_type,
        }
    }
}

/// One inventory group: every record of one manufacturer, already carrying
/// the canonical display name.
#[derive(Debug)]
pub struct ManufacturerGroup {
    /// The canonical display name shared by all records of the group.
    pub manufacturer: String,
    /// The group's records, sorted case-insensitively by `name`.
    pub plugins: Vec<Plugin>,
}

/// Mathematical image of a `ManufacturerGroup`.
pub struct GroupModel {
    pub manufacturer: Seq<char>,
    pub plugins: Seq<PluginModel>,
}

impl View for ManufacturerGroup {
    type V = GroupModel;

    open spec fn view(&self) -> GroupModel {
        GroupModel { manufacturer: self.manufacturer@, plugins: models(self.plugins@) }
    }
}

/// The mathematical image of a sequence of records.
pub open spec fn models(s: Seq<Plugin>) -> Seq<PluginModel> {
    s.map_values(|p: Plugin| p@)
}

/// The mathematical image of a sequence of groups.
pub open spec fn group_models(s: Seq<ManufacturerGroup>) -> Seq<GroupModel> {
    s.map_values(|g: ManufacturerGroup| g@)
}

/// The same record with its manufacturer field rewritten.
pub open spec fn with_manufacturer(p: PluginModel, m: Seq<char>) -> PluginModel {
    PluginModel {
        name: p.name,
        manufacturer: m,
        version: p.version,
        path: p.path,
        plugin_type: p.plugin_type,
    }
}

} // verus!
