//! The Common Package Specification: the package document, its components
//! and their configurations, and the rules that a package must meet.

use crate::table::distinct_keys;
use crate::text::{lemma_prefix_len, lemma_prefix_len_is_first, prefix_len};
use vstd::prelude::*;

verus! {

/// The version of the specification that packages are written to.
pub const CPS_VERSION: &'static str = "0.11.0";

/// A JSON value of the `serde_json` crate: what a package holds in the place
/// of a component of a kind that is not known here.
#[verifier::external_type_specification]
#[verifier::external_body]
pub struct ExJsonValue(serde_json::Value);

/// The platform that a package was built for.
#[derive(Debug)]
pub struct Platform {
    pub c_runtime_vendor: Option<String>,
    pub c_runtime_version: Option<String>,
    pub clr_vendor: Option<String>,
    pub clr_version: Option<String>,
    pub cpp_runtime_vendor: Option<String>,
    pub cpp_runtime_version: Option<String>,
    pub isa: Option<String>,
    pub jvm_vendor: Option<String>,
    pub jvm_version: Option<String>,
    pub kernel: Option<String>,
    pub kernel_version: Option<String>,
}

/// The mathematical value of a `Platform`.
pub ghost struct PlatformView {
    pub c_runtime_vendor: Option<Seq<char>>,
    pub c_runtime_version: Option<Seq<char>>,
    pub clr_vendor: Option<Seq<char>>,
    pub clr_version: Option<Seq<char>>,
    pub cpp_runtime_vendor: Option<Seq<char>>,
    pub cpp_runtime_version: Option<Seq<char>>,
    pub isa: Option<Seq<char>>,
    pub jvm_vendor: Option<Seq<char>>,
    pub jvm_version: Option<Seq<char>>,
    pub kernel: Option<Seq<char>>,
    pub kernel_version: Option<Seq<char>>,
}

impl View for Platform {
    type V = PlatformView;

    open spec fn view(&self) -> PlatformView {
        PlatformView {
            c_runtime_vendor: self.c_runtime_vendor.deep_view(),
            c_runtime_version: self.c_runtime_version.deep_view(),
            clr_vendor: self.clr_vendor.deep_view(),
            clr_version: self.clr_version.deep_view(),
            cpp_runtime_vendor: self.cpp_runtime_vendor.deep_view(),
            cpp_runtime_version: self.cpp_runtime_version.deep_view(),
            isa: self.isa.deep_view(),
            jvm_vendor: self.jvm_vendor.deep_view(),
            jvm_version: self.jvm_version.deep_view(),
            kernel: self.kernel.deep_view(),
            kernel_version: self.kernel_version.deep_view(),
        }
    }
}

impl DeepView for Platform {
    type V = PlatformView;

    open spec fn deep_view(&self) -> PlatformView {
        self@
    }
}

impl PlatformView {
    /// The platform of which nothing is said.
    pub open spec fn empty() -> PlatformView {
        PlatformView {
            c_runtime_vendor: None,
            c_runtime_version: None,
            clr_vendor: None,
            clr_version: None,
            cpp_runtime_vendor: None,
            cpp_runtime_version: None,
            isa: None,
            jvm_vendor: None,
            jvm_version: None,
            kernel: None,
            kernel_version: None,
        }
    }
}

impl Default for Platform {
    fn default() -> (r: Platform)
        ensures
            r@ == PlatformView::empty(),
    {
        Platform {
            c_runtime_vendor: None,
            c_runtime_version: None,
            clr_vendor: None,
            clr_version: None,
            cpp_runtime_vendor: None,
            cpp_runtime_version: None,
            isa: None,
            jvm_vendor: None,
            jvm_version: None,
            kernel: None,
            kernel_version: None,
        }
    }
}

/// What a package needs of another package.
#[derive(Debug)]
pub struct Requirement {
    pub components: Option<Vec<String>>,
    pub hints: Option<Vec<String>>,
    pub version: Option<String>,
}

/// The mathematical value of a `Requirement`.
pub ghost struct RequirementView {
    pub components: Option<Seq<Seq<char>>>,
    pub hints: Option<Seq<Seq<char>>>,
    pub version: Option<Seq<char>>,
}

impl View for Requirement {
    type V = RequirementView;

    open spec fn view(&self) -> RequirementView {
        RequirementView {
            components: self.components.deep_view(),
            hints: self.hints.deep_view(),
            version: self.version.deep_view(),
        }
    }
}

impl DeepView for Requirement {
    type V = RequirementView;

    open spec fn deep_view(&self) -> RequirementView {
        self@
    }
}

impl RequirementView {
    /// The requirement that asks for nothing in particular.
    pub open spec fn empty() -> RequirementView {
        RequirementView {
            components: None,
            hints: None,
            version: None,
        }
    }
}

impl Default for Requirement {
    fn default() -> (r: Requirement)
        ensures
            r@ == RequirementView::empty(),
    {
        Requirement {
            components: None,
            hints: None,
            version: None,
        }
    }
}

/// A list of strings that applies to every language, or one list for each
/// language.
#[derive(Debug)]
pub enum LanguageStringList {
    /// The lists by language, no language twice.
    LanguageMap(Vec<(String, Vec<String>)>),
    List(Vec<String>),
}

/// The mathematical value of a `LanguageStringList`.
pub ghost enum LanguageStringListView {
    LanguageMap(Seq<(Seq<char>, Seq<Seq<char>>)>),
    List(Seq<Seq<char>>),
}

impl View for LanguageStringList {
    type V = LanguageStringListView;

    open spec fn view(&self) -> LanguageStringListView {
        match self {
            LanguageStringList::LanguageMap(lists) => LanguageStringListView::LanguageMap(
                lists.deep_view(),
            ),
            LanguageStringList::List(list) => LanguageStringListView::List(list.deep_view()),
        }
    }
}

impl DeepView for LanguageStringList {
    type V = LanguageStringListView;

    open spec fn deep_view(&self) -> LanguageStringListView {
        self@
    }
}

impl LanguageStringListView {
    /// No language occurs twice.
    pub open spec fn well_formed(self) -> bool {
        match self {
            LanguageStringListView::LanguageMap(lists) => distinct_keys(lists),
            LanguageStringListView::List(_) => true,
        }
    }
}

/// Whether a list that may be missing is well formed.
pub open spec fn lists_well_formed(lists: Option<LanguageStringListView>) -> bool {
    match lists {
        Some(lists) => lists.well_formed(),
        None => true,
    }
}

/// The language under which a list applies to every language.
pub const ANY_LANGUAGE: &'static str = "*";

impl LanguageStringList {
    /// The list that applies to every language, as a map.
    pub fn any_language_map(list: Vec<String>) -> (r: LanguageStringList)
        ensures
            r@ == LanguageStringListView::LanguageMap(seq![(ANY_LANGUAGE@, list.deep_view())]),
            r@.well_formed(),
    {
        let mut lists: Vec<(String, Vec<String>)> = Vec::new();
        let ghost entry = (ANY_LANGUAGE@, list.deep_view());
        lists.push((String::from_str(ANY_LANGUAGE), list));
        assert(lists.deep_view() =~= seq![entry]);
        LanguageStringList::LanguageMap(lists)
    }
}

/// A named variant of the fields of a component.
#[derive(Debug)]
pub struct Configuration {
    pub location: Option<String>,
    pub requires: Option<Vec<String>>,
    pub compile_features: Option<Vec<String>>,
    pub compile_flags: Option<LanguageStringList>,
    pub definitions: Option<LanguageStringList>,
    pub includes: Option<LanguageStringList>,
    pub link_features: Option<Vec<String>>,
    pub link_flags: Option<Vec<String>>,
    pub link_languages: Option<Vec<String>>,
    pub link_libraries: Option<Vec<String>>,
    pub link_location: Option<String>,
    pub link_requires: Option<String>,
}

/// The mathematical value of a `Configuration`.
pub ghost struct ConfigurationView {
    pub location: Option<Seq<char>>,
    pub requires: Option<Seq<Seq<char>>>,
    pub compile_features: Option<Seq<Seq<char>>>,
    pub compile_flags: Option<LanguageStringListView>,
    pub definitions: Option<LanguageStringListView>,
    pub includes: Option<LanguageStringListView>,
    pub link_features: Option<Seq<Seq<char>>>,
    pub link_flags: Option<Seq<Seq<char>>>,
    pub link_languages: Option<Seq<Seq<char>>>,
    pub link_libraries: Option<Seq<Seq<char>>>,
    pub link_location: Option<Seq<char>>,
    pub link_requires: Option<Seq<char>>,
}

impl View for Configuration {
    type V = ConfigurationView;

    open spec fn view(&self) -> ConfigurationView {
        ConfigurationView {
            location: self.location.deep_view(),
            requires: self.requires.deep_view(),
            compile_features: self.compile_features.deep_view(),
            compile_flags: self.compile_flags.deep_view(),
            definitions: self.definitions.deep_view(),
            includes: self.includes.deep_view(),
            link_features: self.link_features.deep_view(),
            link_flags: self.link_flags.deep_view(),
            link_languages: self.link_languages.deep_view(),
            link_libraries: self.link_libraries.deep_view(),
            link_location: self.link_location.deep_view(),
            link_requires: self.link_requires.deep_view(),
        }
    }
}

impl DeepView for Configuration {
    type V = ConfigurationView;

    open spec fn deep_view(&self) -> ConfigurationView {
        self@
    }
}

impl ConfigurationView {
    /// The configuration that changes nothing.
    pub open spec fn empty() -> ConfigurationView {
        ConfigurationView {
            location: None,
            requires: None,
            compile_features: None,
            compile_flags: None,
            definitions: None,
            includes: None,
            link_features: None,
            link_flags: None,
            link_languages: None,
            link_libraries: None,
            link_location: None,
            link_requires: None,
        }
    }
}

impl Default for Configuration {
    fn default() -> (r: Configuration)
        ensures
            r@ == ConfigurationView::empty(),
    {
        Configuration {
            location: None,
            requires: None,
            compile_features: None,
            compile_flags: None,
            definitions: None,
            includes: None,
            link_features: None,
            link_flags: None,
            link_languages: None,
            link_libraries: None,
            link_location: None,
            link_requires: None,
        }
    }
}

/// The fields that the components of every kind have.
#[derive(Debug)]
pub struct ComponentFields {
    pub location: Option<String>,
    pub requires: Option<Vec<String>>,
    /// The configurations by name, no name twice.
    pub configurations: Option<Vec<(String, Configuration)>>,
    pub compile_features: Option<Vec<String>>,
    pub compile_flags: Option<LanguageStringList>,
    pub definitions: Option<LanguageStringList>,
    pub includes: Option<LanguageStringList>,
    pub link_features: Option<Vec<String>>,
    pub link_flags: Option<Vec<String>>,
    pub link_languages: Option<Vec<String>>,
    pub link_libraries: Option<Vec<String>>,
    pub link_location: Option<String>,
    pub link_requires: Option<String>,
}

/// The mathematical value of a `ComponentFields`.
pub ghost struct ComponentFieldsView {
    pub location: Option<Seq<char>>,
    pub requires: Option<Seq<Seq<char>>>,
    pub configurations: Option<Seq<(Seq<char>, ConfigurationView)>>,
    pub compile_features: Option<Seq<Seq<char>>>,
    pub compile_flags: Option<LanguageStringListView>,
    pub definitions: Option<LanguageStringListView>,
    pub includes: Option<LanguageStringListView>,
    pub link_features: Option<Seq<Seq<char>>>,
    pub link_flags: Option<Seq<Seq<char>>>,
    pub link_languages: Option<Seq<Seq<char>>>,
    pub link_libraries: Option<Seq<Seq<char>>>,
    pub link_location: Option<Seq<char>>,
    pub link_requires: Option<Seq<char>>,
}

impl View for ComponentFields {
    type V = ComponentFieldsView;

    open spec fn view(&self) -> ComponentFieldsView {
        ComponentFieldsView {
            location: self.location.deep_view(),
            requires: self.requires.deep_view(),
            configurations: self.configurations.deep_view(),
            compile_features: self.compile_features.deep_view(),
            compile_flags: self.compile_flags.deep_view(),
            definitions: self.definitions.deep_view(),
            includes: self.includes.deep_view(),
            link_features: self.link_features.deep_view(),
            link_flags: self.link_flags.deep_view(),
            link_languages: self.link_languages.deep_view(),
            link_libraries: self.link_libraries.deep_view(),
            link_location: self.link_location.deep_view(),
            link_requires: self.link_requires.deep_view(),
        }
    }
}

impl DeepView for ComponentFields {
    type V = ComponentFieldsView;

    open spec fn deep_view(&self) -> ComponentFieldsView {
        self@
    }
}

impl ComponentFieldsView {
    /// The fields of a component of which nothing is said.
    pub open spec fn empty() -> ComponentFieldsView {
        ComponentFieldsView {
            location: None,
            requires: None,
            configurations: None,
            compile_features: None,
            compile_flags: None,
            definitions: None,
            includes: None,
            link_features: None,
            link_flags: None,
            link_languages: None,
            link_libraries: None,
            link_location: None,
            link_requires: None,
        }
    }
}

impl Default for ComponentFields {
    fn default() -> (r: ComponentFields)
        ensures
            r@ == ComponentFieldsView::empty(),
    {
        ComponentFields {
            location: None,
            requires: None,
            configurations: None,
            compile_features: None,
            compile_flags: None,
            definitions: None,
            includes: None,
            link_features: None,
            link_flags: None,
            link_languages: None,
            link_libraries: None,
            link_location: None,
            link_requires: None,
        }
    }
}

impl ConfigurationView {
    /// In none of its lists by language does a language occur twice.
    pub open spec fn well_formed(self) -> bool {
        &&& lists_well_formed(self.compile_flags)
        &&& lists_well_formed(self.definitions)
        &&& lists_well_formed(self.includes)
    }
}

impl ComponentFieldsView {
    /// No configuration occurs twice, each configuration is well formed,
    /// and in none of the lists by language does a language occur twice.
    pub open spec fn well_formed(self) -> bool {
        &&& lists_well_formed(self.compile_flags)
        &&& lists_well_formed(self.definitions)
        &&& lists_well_formed(self.includes)
        &&& self.configurations is Some ==> {
            &&& distinct_keys(self.configurations->Some_0)
            &&& forall|i: int|
                0 <= i < self.configurations->Some_0.len() ==> (
                #[trigger] self.configurations->Some_0[i]).1.well_formed()
        }
    }

    /// Whether the component has a location: of its own, or in every one of
    /// its configurations, of which there is one at least.
    pub open spec fn has_location(self) -> bool {
        self.location is Some || (self.configurations is Some
            && self.configurations->Some_0.len() > 0 && forall|i: int|
            0 <= i < self.configurations->Some_0.len() ==> (
            #[trigger] self.configurations->Some_0[i]).1.location is Some)
    }
}

impl ComponentFields {
    /// Whether the component has a location: of its own, or in every one of
    /// its configurations, of which there is one at least.
    pub fn has_location(&self) -> (r: bool)
        ensures
            r == self@.has_location(),
    {
        if self.location.is_some() {
            return true;
        }
        match &self.configurations {
            Some(configurations) => {
                let ghost all = configurations.deep_view();
                let mut i: usize = 0;
                while i < configurations.len()
                    invariant
                        i <= configurations.len(),
                        all == configurations.deep_view(),
                        self@.location is None,
                        self@.configurations == Some(all),
                        forall|j: int| 0 <= j < i ==> (#[trigger] all[j]).1.location is Some,
                    decreases configurations.len() - i,
                {
                    assert(all[i as int] == configurations@[i as int].deep_view());
                    if configurations[i].1.location.is_none() {
                        assert(all[i as int].1.location is None);
                        return false;
                    }
                    i += 1;
                }
                configurations.len() > 0
            },
            None => false,
        }
    }
}

/// A component: its kind, and its fields.
#[derive(Debug, Default)]
pub enum Component {
    Archive(ComponentFields),
    Dylib(ComponentFields),
    Module(ComponentFields),
    Jar(ComponentFields),
    Interface(ComponentFields),
    Symbolic(ComponentFields),
    /// A component of which not even the kind is said.
    #[default]
    Unknwon,
}

/// The mathematical value of a `Component`.
pub ghost enum ComponentView {
    Archive(ComponentFieldsView),
    Dylib(ComponentFieldsView),
    Module(ComponentFieldsView),
    Jar(ComponentFieldsView),
    Interface(ComponentFieldsView),
    Symbolic(ComponentFieldsView),
    Unknwon,
}

impl View for Component {
    type V = ComponentView;

    open spec fn view(&self) -> ComponentView {
        match self {
            Component::Archive(fields) => ComponentView::Archive(fields@),
            Component::Dylib(fields) => ComponentView::Dylib(fields@),
            Component::Module(fields) => ComponentView::Module(fields@),
            Component::Jar(fields) => ComponentView::Jar(fields@),
            Component::Interface(fields) => ComponentView::Interface(fields@),
            Component::Symbolic(fields) => ComponentView::Symbolic(fields@),
            Component::Unknwon => ComponentView::Unknwon,
        }
    }
}

impl DeepView for Component {
    type V = ComponentView;

    open spec fn deep_view(&self) -> ComponentView {
        self@
    }
}

/// What stands in the place of a component: a component of a kind known
/// here, or any other value.
#[derive(Debug)]
pub enum MaybeComponent {
    Component(Component),
    Other(serde_json::Value),
}

/// The mathematical value of a `MaybeComponent`.
pub ghost enum MaybeComponentView {
    Component(ComponentView),
    Other(serde_json::Value),
}

impl View for MaybeComponent {
    type V = MaybeComponentView;

    open spec fn view(&self) -> MaybeComponentView {
        match self {
            MaybeComponent::Component(component) => MaybeComponentView::Component(component@),
            MaybeComponent::Other(value) => MaybeComponentView::Other(*value),
        }
    }
}

impl DeepView for MaybeComponent {
    type V = MaybeComponentView;

    open spec fn deep_view(&self) -> MaybeComponentView {
        self@
    }
}

impl MaybeComponentView {
    /// The fields of the component, where it is of a kind that has fields.
    pub open spec fn fields(self) -> Option<ComponentFieldsView> {
        match self {
            MaybeComponentView::Component(ComponentView::Archive(fields)) => Some(fields),
            MaybeComponentView::Component(ComponentView::Dylib(fields)) => Some(fields),
            MaybeComponentView::Component(ComponentView::Module(fields)) => Some(fields),
            MaybeComponentView::Component(ComponentView::Jar(fields)) => Some(fields),
            MaybeComponentView::Component(ComponentView::Interface(fields)) => Some(fields),
            MaybeComponentView::Component(ComponentView::Symbolic(fields)) => Some(fields),
            _ => None,
        }
    }

    /// The fields of the component, if it has any, are well formed.
    pub open spec fn well_formed(self) -> bool {
        match self.fields() {
            Some(fields) => fields.well_formed(),
            None => true,
        }
    }

    /// Whether the rules ask for a location: they do of an archive, a shared
    /// object, a module and a jar.
    pub open spec fn needs_location(self) -> bool {
        match self {
            MaybeComponentView::Component(ComponentView::Archive(_)) => true,
            MaybeComponentView::Component(ComponentView::Dylib(_)) => true,
            MaybeComponentView::Component(ComponentView::Module(_)) => true,
            MaybeComponentView::Component(ComponentView::Jar(_)) => true,
            _ => false,
        }
    }

    /// Whether a location is asked for and there is none.
    pub open spec fn lacks_location(self) -> bool {
        match self {
            MaybeComponentView::Component(ComponentView::Archive(fields)) => !fields.has_location(),
            MaybeComponentView::Component(ComponentView::Dylib(fields)) => !fields.has_location(),
            MaybeComponentView::Component(ComponentView::Module(fields)) => !fields.has_location(),
            MaybeComponentView::Component(ComponentView::Jar(fields)) => !fields.has_location(),
            _ => false,
        }
    }
}

impl MaybeComponent {
    /// The shared object at `location`, with nothing else said of it.
    pub fn from_dylib_location(location: &str) -> (r: MaybeComponent)
        ensures
            r@ == MaybeComponentView::Component(
                ComponentView::Dylib(
                    ComponentFieldsView { location: Some(location@), ..ComponentFieldsView::empty() },
                ),
            ),
    {
        let mut fields = ComponentFields::default();
        fields.location = Some(String::from_str(location));
        MaybeComponent::Component(Component::Dylib(fields))
    }

    /// The archive at `location`, with nothing else said of it.
    pub fn from_archive_location(location: &str) -> (r: MaybeComponent)
        ensures
            r@ == MaybeComponentView::Component(
                ComponentView::Archive(
                    ComponentFieldsView { location: Some(location@), ..ComponentFieldsView::empty() },
                ),
            ),
    {
        let mut fields = ComponentFields::default();
        fields.location = Some(String::from_str(location));
        MaybeComponent::Component(Component::Archive(fields))
    }

    /// Whether a location is asked for and there is none.
    pub fn lacks_location(&self) -> (r: bool)
        ensures
            r == self@.lacks_location(),
    {
        match self {
            MaybeComponent::Component(Component::Archive(fields)) => !fields.has_location(),
            MaybeComponent::Component(Component::Dylib(fields)) => !fields.has_location(),
            MaybeComponent::Component(Component::Module(fields)) => !fields.has_location(),
            MaybeComponent::Component(Component::Jar(fields)) => !fields.has_location(),
            _ => false,
        }
    }
}

/// A package document.
#[derive(Debug)]
pub struct Package {
    pub name: String,
    pub cps_version: String,
    /// The components by name, no name twice.
    pub components: Vec<(String, MaybeComponent)>,
    pub platform: Option<Platform>,
    pub configuration: Option<String>,
    pub configurations: Option<Vec<String>>,
    pub cps_path: Option<String>,
    pub version: Option<String>,
    pub version_schema: Option<String>,
    pub description: Option<String>,
    pub default_components: Option<Vec<String>>,
    /// The packages that this one needs, by name, no name twice.
    pub requires: Option<Vec<(String, Requirement)>>,
    pub compat_version: Option<String>,
}

/// The mathematical value of a `Package`.
pub ghost struct PackageView {
    pub name: Seq<char>,
    pub cps_version: Seq<char>,
    pub components: Seq<(Seq<char>, MaybeComponentView)>,
    pub platform: Option<PlatformView>,
    pub configuration: Option<Seq<char>>,
    pub configurations: Option<Seq<Seq<char>>>,
    pub cps_path: Option<Seq<char>>,
    pub version: Option<Seq<char>>,
    pub version_schema: Option<Seq<char>>,
    pub description: Option<Seq<char>>,
    pub default_components: Option<Seq<Seq<char>>>,
    pub requires: Option<Seq<(Seq<char>, RequirementView)>>,
    pub compat_version: Option<Seq<char>>,
}

impl View for Package {
    type V = PackageView;

    open spec fn view(&self) -> PackageView {
        PackageView {
            name: self.name@,
            cps_version: self.cps_version@,
            components: self.components.deep_view(),
            platform: self.platform.deep_view(),
            configuration: self.configuration.deep_view(),
            configurations: self.configurations.deep_view(),
            cps_path: self.cps_path.deep_view(),
            version: self.version.deep_view(),
            version_schema: self.version_schema.deep_view(),
            description: self.description.deep_view(),
            default_components: self.default_components.deep_view(),
            requires: self.requires.deep_view(),
            compat_version: self.compat_version.deep_view(),
        }
    }
}

impl DeepView for Package {
    type V = PackageView;

    open spec fn deep_view(&self) -> PackageView {
        self@
    }
}

impl PackageView {
    /// The package without a name or components, written to the supported
    /// version of the specification.
    pub open spec fn empty() -> PackageView {
        PackageView {
            name: Seq::empty(),
            cps_version: CPS_VERSION@,
            components: Seq::empty(),
            platform: None,
            configuration: None,
            configurations: None,
            cps_path: None,
            version: None,
            version_schema: None,
            description: None,
            default_components: None,
            requires: None,
            compat_version: None,
        }
    }

    /// The tables of the package are tables: no component occurs twice, no
    /// required package occurs twice, and every component is well formed.
    pub open spec fn well_formed(self) -> bool {
        &&& distinct_keys(self.components)
        &&& self.requires is Some ==> distinct_keys(self.requires->Some_0)
        &&& forall|i: int|
            0 <= i < self.components.len() ==> (#[trigger] self.components[i]).1.well_formed()
    }

    /// The first component, in order, that lacks the location that is asked
    /// of it; the number of components where there is none.
    pub open spec fn first_without_location(self) -> int {
        prefix_len(self.components, |c: (Seq<char>, MaybeComponentView)| !c.1.lacks_location())
    }

    /// The rule that the package breaks, if any: its version is not the
    /// supported one, or else a component lacks the location that is asked
    /// of it, the first such component being named.
    pub open spec fn violation(self) -> Option<ValidationErrorView> {
        if self.cps_version != CPS_VERSION@ {
            Some(ValidationErrorView::UnsupportedVersion(self.cps_version))
        } else {
            let i = self.first_without_location();
            if 0 <= i < self.components.len() {
                Some(ValidationErrorView::MissingLocation(self.components[i].0))
            } else {
                None
            }
        }
    }

    /// The package meets the rules.
    pub open spec fn valid(self) -> bool {
        &&& self.cps_version == CPS_VERSION@
        &&& forall|i: int|
            0 <= i < self.components.len() ==> !(#[trigger] self.components[i]).1.lacks_location()
    }
}

/// The rule that a package breaks.
#[derive(Debug, PartialEq, Eq)]
pub enum ValidationError {
    /// The package is written to the version named, which is not supported.
    UnsupportedVersion(String),
    /// The component named lacks a location, of its own and in one of its
    /// configurations at least.
    MissingLocation(String),
}

/// The mathematical value of a `ValidationError`.
pub ghost enum ValidationErrorView {
    UnsupportedVersion(Seq<char>),
    MissingLocation(Seq<char>),
}

impl View for ValidationError {
    type V = ValidationErrorView;

    open spec fn view(&self) -> ValidationErrorView {
        match self {
            ValidationError::UnsupportedVersion(version) => ValidationErrorView::UnsupportedVersion(
                version@,
            ),
            ValidationError::MissingLocation(name) => ValidationErrorView::MissingLocation(name@),
        }
    }
}

impl ValidationErrorView {
    /// The error in words.
    pub open spec fn message(self) -> Seq<char> {
        match self {
            ValidationErrorView::UnsupportedVersion(version) => "Unsupported CPS version: "@
                + version,
            ValidationErrorView::MissingLocation(name) => "Component `"@ + name
                + "` is missing attribute `location`"@,
        }
    }
}

impl ValidationError {
    /// The error in words.
    pub fn message(&self) -> (r: String)
        ensures
            r@ == self@.message(),
    {
        match self {
            ValidationError::UnsupportedVersion(version) => String::from_str(
                "Unsupported CPS version: ",
            ).concat(version.as_str()),
            ValidationError::MissingLocation(name) => String::from_str("Component `").concat(
                name.as_str(),
            ).concat("` is missing attribute `location`"),
        }
    }
}

impl Default for Package {
    fn default() -> (r: Package)
        ensures
            r@ == PackageView::empty(),
            r@.well_formed(),
            r@.valid(),
    {
        let components: Vec<(String, MaybeComponent)> = Vec::new();
        assert(components.deep_view() =~= Seq::empty());
        Package {
            name: String::new(),
            cps_version: String::from_str(CPS_VERSION),
            components,
            platform: None,
            configuration: None,
            configurations: None,
            cps_path: None,
            version: None,
            version_schema: None,
            description: None,
            default_components: None,
            requires: None,
            compat_version: None,
        }
    }
}

impl Package {
    /// Holds the package to the rules of the specification.
    pub fn validate(&self) -> (r: Result<(), ValidationError>)
        ensures
            match r {
                Ok(_) => self@.violation() is None,
                Err(e) => self@.violation() == Some(e@),
            },
    {
        if !(self.cps_version == String::from_str(CPS_VERSION)) {
            return Err(ValidationError::UnsupportedVersion(self.cps_version.clone()));
        }
        let ghost all = self@.components;
        let mut i: usize = 0;
        while i < self.components.len()
            invariant
                i <= self.components.len(),
                all == self@.components,
                self@.cps_version == CPS_VERSION@,
                forall|j: int| 0 <= j < i ==> !(#[trigger] all[j]).1.lacks_location(),
            decreases self.components.len() - i,
        {
            assert(all[i as int] == self.components@[i as int].deep_view());
            if self.components[i].1.lacks_location() {
                proof {
                    lemma_prefix_len(
                        all,
                        |c: (Seq<char>, MaybeComponentView)| !c.1.lacks_location(),
                        i as int,
                    );
                }
                return Err(ValidationError::MissingLocation(self.components[i].0.clone()));
            }
            i += 1;
        }
        proof {
            lemma_prefix_len(
                all,
                |c: (Seq<char>, MaybeComponentView)| !c.1.lacks_location(),
                all.len() as int,
            );
        }
        Ok(())
    }
}

/// A package breaks no rule exactly where it is valid: it is written to the
/// supported version, and no component lacks the location asked of it.
pub proof fn lemma_violation_none_iff_valid(package: PackageView)
    ensures
        package.violation() is None <==> package.valid(),
{
    let located = |c: (Seq<char>, MaybeComponentView)| !c.1.lacks_location();
    lemma_prefix_len_is_first(package.components, located);
    if package.valid() {
        let i = package.first_without_location();
        if i < package.components.len() {
            assert(!package.components[i].1.lacks_location());
        }
    } else if package.cps_version == CPS_VERSION@ && package.violation() is None {
        assert forall|i: int| 0 <= i < package.components.len() implies !(
        #[trigger] package.components[i]).1.lacks_location() by {
            assert(located(package.components[i]));
        }
    }
}

/// A package written to another version than the supported one is refused,
/// whatever else it holds.
pub proof fn lemma_other_version_refused(package: PackageView)
    requires
        package.cps_version != CPS_VERSION@,
    ensures
        package.violation() == Some(ValidationErrorView::UnsupportedVersion(package.cps_version)),
{
}

/// An archive without a location of its own needs one from its
/// configurations: with no configurations at all, or with one that has no
/// location, the package is refused; with one configuration at least and a
/// location in every one, the archive is in order.
pub proof fn lemma_archive_location(package: PackageView, i: int, fields: ComponentFieldsView)
    requires
        0 <= i < package.components.len(),
        package.components[i].1 == MaybeComponentView::Component(ComponentView::Archive(fields)),
        fields.location is None,
    ensures
        fields.configurations is None ==> package.violation() is Some,
        (fields.configurations is Some && fields.configurations->Some_0.len() == 0)
            ==> package.violation() is Some,
        (fields.configurations is Some && exists|k: int|
            0 <= k < fields.configurations->Some_0.len() && (
            #[trigger] fields.configurations->Some_0[k]).1.location is None)
            ==> package.violation() is Some,
        (fields.configurations is Some && fields.configurations->Some_0.len() > 0 && forall|k: int|
            0 <= k < fields.configurations->Some_0.len() ==> (
            #[trigger] fields.configurations->Some_0[k]).1.location is Some)
            ==> !package.components[i].1.lacks_location(),
{
    lemma_violation_none_iff_valid(package);
}

} // verus!
