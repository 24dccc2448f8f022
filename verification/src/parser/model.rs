//! What a parsed module says, as mathematical values.
use vstd::prelude::*;

use crate::collections::KeySet;
use crate::order::Key;
use crate::parser::syntax::text_view;
use crate::parser::{
    ImportBinding, ImportedName, ParsedModule, ReExport, RegistryEntryInfo, RegistryInfo, RuntimeLoad,
    SourceLocation, SymbolInfo,
};

verus! {

pub type Text = Seq<char>;

#[verifier::ext_equal]
pub ghost struct SymbolModel {
    pub fingerprint: Text,
    pub dependencies: Set<Text>,
    pub dependency_locations: Map<Text, SourceLocation>,
    pub keyed_dependencies: Map<Text, Set<Text>>,
    pub type_dependencies: Set<Text>,
    pub type_dependency_locations: Map<Text, SourceLocation>,
    pub runtime: bool,
}

pub open spec fn set_views<K, T: Key>(m: Map<K, KeySet<T>>) -> Map<K, Set<T::M>> {
    m.map_values(|s: KeySet<T>| s@)
}

impl View for SymbolInfo {
    type V = SymbolModel;

    open spec fn view(&self) -> SymbolModel {
        SymbolModel {
            fingerprint: self.fingerprint@,
            dependencies: self.dependencies@,
            dependency_locations: self.dependency_locations@,
            keyed_dependencies: set_views(self.keyed_dependencies@),
            type_dependencies: self.type_dependencies@,
            type_dependency_locations: self.type_dependency_locations@,
            runtime: self.runtime,
        }
    }
}

#[verifier::ext_equal]
pub ghost struct EntryInfoModel {
    pub fingerprint: Text,
    pub dependency: Option<Text>,
    pub location: SourceLocation,
}

impl View for RegistryEntryInfo {
    type V = EntryInfoModel;

    open spec fn view(&self) -> EntryInfoModel {
        EntryInfoModel {
            fingerprint: self.fingerprint@,
            dependency: text_view(self.dependency),
            location: self.location,
        }
    }
}

#[verifier::ext_equal]
pub ghost struct RegistryInfoModel {
    pub full_fingerprint: Text,
    pub entry_order: Seq<Text>,
    pub entries: Map<Text, EntryInfoModel>,
}

pub open spec fn texts(list: Seq<String>) -> Seq<Text> {
    list.map_values(|s: String| s@)
}

pub open spec fn entry_info_views(m: Map<Text, RegistryEntryInfo>) -> Map<Text, EntryInfoModel> {
    m.map_values(|e: RegistryEntryInfo| e@)
}

impl View for RegistryInfo {
    type V = RegistryInfoModel;

    open spec fn view(&self) -> RegistryInfoModel {
        RegistryInfoModel {
            full_fingerprint: self.full_fingerprint@,
            entry_order: texts(self.entry_order@),
            entries: entry_info_views(self.entries@),
        }
    }
}

/// What an import takes: one export, or the namespace with the members that are read.
#[verifier::ext_equal]
pub ghost enum ImportedModel {
    Named(Text),
    Namespace(Option<Set<Text>>),
}

impl View for ImportedName {
    type V = ImportedModel;

    open spec fn view(&self) -> ImportedModel {
        match self {
            ImportedName::Named(name) => ImportedModel::Named(name@),
            ImportedName::Namespace { members: Some(members) } => ImportedModel::Namespace(
                Some(members@),
            ),
            ImportedName::Namespace { members: None } => ImportedModel::Namespace(None),
        }
    }
}

#[verifier::ext_equal]
pub ghost struct BindingModel {
    pub source: Text,
    pub imported: ImportedModel,
    pub location: SourceLocation,
}

impl View for ImportBinding {
    type V = BindingModel;

    open spec fn view(&self) -> BindingModel {
        BindingModel { source: self.source@, imported: self.imported@, location: self.location }
    }
}

#[verifier::ext_equal]
pub ghost struct ReExportModel {
    pub exported: Text,
    pub source: Text,
    pub imported: ImportedModel,
}

impl View for ReExport {
    type V = ReExportModel;

    open spec fn view(&self) -> ReExportModel {
        ReExportModel { exported: self.exported@, source: self.source@, imported: self.imported@ }
    }
}

#[verifier::ext_equal]
pub ghost struct LoadModel {
    pub source: Text,
    pub consumers: Set<Text>,
    pub location: SourceLocation,
}

impl View for RuntimeLoad {
    type V = LoadModel;

    open spec fn view(&self) -> LoadModel {
        LoadModel { source: self.source@, consumers: self.consumers@, location: self.location }
    }
}

#[verifier::ext_equal]
pub ghost struct ModuleModel {
    pub symbols: Map<Text, SymbolModel>,
    pub registries: Map<Text, RegistryInfoModel>,
    pub indexed_registry_dependencies: Set<Text>,
    pub imports: Map<Text, BindingModel>,
    pub type_imports: Map<Text, BindingModel>,
    pub local_exports: Map<Text, Text>,
    pub type_local_exports: Map<Text, Text>,
    pub re_exports: Seq<ReExportModel>,
    pub type_re_exports: Seq<ReExportModel>,
    pub star_exports: Seq<Text>,
    pub type_star_exports: Seq<Text>,
    pub module_requests: Set<Text>,
    pub runtime_loads: Seq<LoadModel>,
    pub unresolved_dynamic_imports: Seq<Text>,
}

pub open spec fn symbol_infos(m: Map<Text, SymbolInfo>) -> Map<Text, SymbolModel> {
    m.map_values(|s: SymbolInfo| s@)
}

pub open spec fn registry_infos(m: Map<Text, RegistryInfo>) -> Map<Text, RegistryInfoModel> {
    m.map_values(|r: RegistryInfo| r@)
}

pub open spec fn binding_views(m: Map<Text, ImportBinding>) -> Map<Text, BindingModel> {
    m.map_values(|b: ImportBinding| b@)
}

pub open spec fn text_values(m: Map<Text, String>) -> Map<Text, Text> {
    m.map_values(|s: String| s@)
}

pub open spec fn re_export_models(list: Seq<ReExport>) -> Seq<ReExportModel> {
    list.map_values(|r: ReExport| r@)
}

pub open spec fn load_views(list: Seq<RuntimeLoad>) -> Seq<LoadModel> {
    list.map_values(|l: RuntimeLoad| l@)
}

impl View for ParsedModule {
    type V = ModuleModel;

    open spec fn view(&self) -> ModuleModel {
        ModuleModel {
            symbols: symbol_infos(self.symbols@),
            registries: registry_infos(self.registries@),
            indexed_registry_dependencies: self.indexed_registry_dependencies@,
            imports: binding_views(self.imports@),
            type_imports: binding_views(self.type_imports@),
            local_exports: text_values(self.local_exports@),
            type_local_exports: text_values(self.type_local_exports@),
            re_exports: re_export_models(self.re_exports@),
            type_re_exports: re_export_models(self.type_re_exports@),
            star_exports: texts(self.star_exports@),
            type_star_exports: texts(self.type_star_exports@),
            module_requests: self.module_requests@,
            runtime_loads: load_views(self.runtime_loads@),
            unresolved_dynamic_imports: texts(self.unresolved_dynamic_imports@),
        }
    }
}

} // verus!
