//! From a pkg-config record and the artifacts of its libraries to a package.

use crate::cps::{
    ANY_LANGUAGE, Component, ComponentFields, ComponentFieldsView, ComponentView, Configuration,
    ConfigurationView, LanguageStringList, LanguageStringListView, lemma_violation_none_iff_valid,
    MaybeComponent, MaybeComponentView, Package, PackageView, Requirement, RequirementView,
};
use crate::lib_search::{
    find_locations, LibraryLocation, LibraryLocationView, located_all, ResolveError,
    ResolveErrorView,
};
use crate::pkg_config::{
    Dependency, DependencyView, parsed, ParseError, ParseErrorView, PkgConfigFile,
    PkgConfigFileView,
};
use crate::table::{
    distinct_keys, has_entry, has_key, insert, inserted, lemma_inserted, lemma_inserted_all,
    lemma_inserted_entries,
};
use crate::text::{chars_of, matches_at, occurs_at, slice_of, string_of};
use vstd::prelude::*;

verus! {

/// The name of the configuration that links the shared object.
pub const SHARED: &'static str = "shared";

/// The name of the configuration that links the archive.
pub const STATIC: &'static str = "static";

/// What ends the name of the component that holds the shared object.
pub const SHARED_SUFFIX: &'static str = "-shared";

/// What ends the name of the component that holds the archive.
pub const STATIC_SUFFIX: &'static str = "-static";

/// What begins a reference to a component of the same package.
pub const LOCAL_PREFIX: &'static str = ":";

/// What ends the path of a shared object.
pub const DYLIB_SUFFIX: &'static str = ".so";

/// The names of the packages that `deps` name, in order.
pub open spec fn names(deps: Seq<DependencyView>) -> Seq<Seq<char>> {
    Seq::new(deps.len(), |i: int| deps[i].name)
}

/// The references to the components that stand for `libraries`, in order.
pub open spec fn local_references(libraries: Seq<(Seq<char>, LibraryLocationView)>) -> Seq<
    Seq<char>,
> {
    Seq::new(libraries.len(), |i: int| LOCAL_PREFIX@ + libraries[i].0)
}

/// What is asked of a package of which the version `version` is needed.
pub open spec fn of_version(version: Seq<char>) -> RequirementView {
    RequirementView { version: Some(version), ..RequirementView::empty() }
}

/// What is asked of the packages that `deps` name with a version, by name.
pub open spec fn versioned(deps: Seq<DependencyView>) -> Seq<(Seq<char>, RequirementView)>
    decreases deps.len(),
{
    if deps.len() == 0 {
        Seq::empty()
    } else {
        match deps.last().version {
            Some(version) => inserted(
                versioned(deps.drop_last()),
                deps.last().name,
                of_version(version),
            ),
            None => versioned(deps.drop_last()),
        }
    }
}

/// A table, or nothing where it is empty.
pub open spec fn unless_empty<T>(items: Seq<T>) -> Option<Seq<T>> {
    if items.len() == 0 {
        None
    } else {
        Some(items)
    }
}

/// A list that applies to every language, or nothing where it is empty.
pub open spec fn for_any_language(list: Seq<Seq<char>>) -> Option<LanguageStringListView> {
    if list.len() == 0 {
        None
    } else {
        Some(LanguageStringListView::LanguageMap(seq![(ANY_LANGUAGE@, list)]))
    }
}

/// The fields that the default component has of the record whatever its
/// kind: the flags to compile with, the definitions, the directories to
/// include from, and the flags to link with.
pub open spec fn metadata(file: PkgConfigFileView) -> ComponentFieldsView {
    ComponentFieldsView {
        compile_flags: for_any_language(file.compile_flags),
        definitions: for_any_language(file.definitions),
        includes: for_any_language(file.includes),
        link_flags: unless_empty(file.link_flags),
        ..ComponentFieldsView::empty()
    }
}

/// Whether `s` ends with `suffix`.
pub open spec fn ends_with(s: Seq<char>, suffix: Seq<char>) -> bool {
    occurs_at(s, suffix, s.len() - suffix.len())
}

/// The component that stands for the artifact at `path`: a shared object
/// where the path ends as one, an archive where it does not.
pub open spec fn artifact(path: Seq<char>) -> MaybeComponentView {
    let fields = ComponentFieldsView { location: Some(path), ..ComponentFieldsView::empty() };
    if ends_with(path, DYLIB_SUFFIX@) {
        MaybeComponentView::Component(ComponentView::Dylib(fields))
    } else {
        MaybeComponentView::Component(ComponentView::Archive(fields))
    }
}

/// `components` with one more for each of `libraries`, in order, under the
/// library's name.
pub open spec fn with_libraries(
    components: Seq<(Seq<char>, MaybeComponentView)>,
    libraries: Seq<(Seq<char>, LibraryLocationView)>,
    prefer_dylib: bool,
) -> Seq<(Seq<char>, MaybeComponentView)>
    decreases libraries.len(),
{
    if libraries.len() == 0 {
        components
    } else {
        inserted(
            with_libraries(components, libraries.drop_last(), prefer_dylib),
            libraries.last().0,
            artifact(libraries.last().1.preferred_path(prefer_dylib)),
        )
    }
}

/// The configuration that needs `needed` and changes nothing else.
pub open spec fn needing(needed: Seq<Seq<char>>) -> ConfigurationView {
    ConfigurationView { requires: Some(needed), ..ConfigurationView::empty() }
}

/// The package that a record and the artifacts of its libraries make.
///
/// The first library is the primary one, and gives the default component
/// its name; without libraries the package's own name does.
///
/// - Without libraries the default component is an interface that needs the
///   packages which the record requires.
/// - Where the primary library is a shared object or an archive alone, the
///   default component is of that kind and at that location. It needs the
///   components of the other libraries and then the required packages.
/// - Where the primary library is both, the default component is an
///   interface with the configurations `shared` and `static`. Each needs
///   the component that holds its artifact, then the components of the
///   other libraries, then the required packages.
///
/// Each other library gets a component of its own. Of two artifacts it
/// links the shared object where the primary library is a shared object
/// alone, and the archive where it is not.
pub open spec fn converted(
    file: PkgConfigFileView,
    locations: Seq<(Seq<char>, LibraryLocationView)>,
) -> PackageView {
    let remote = names(file.requires);
    let base = PackageView {
        name: file.name,
        version: Some(file.version),
        description: Some(file.description),
        requires: unless_empty(versioned(file.requires)),
        ..PackageView::empty()
    };
    if locations.len() == 0 {
        let fields = ComponentFieldsView { requires: Some(remote), ..metadata(file) };
        PackageView {
            default_components: Some(seq![file.name]),
            components: seq![
                (file.name, MaybeComponentView::Component(ComponentView::Interface(fields))),
            ],
            ..base
        }
    } else {
        let name = locations[0].0;
        let others = locations.skip(1);
        let merged = local_references(others) + remote;
        match locations[0].1 {
            LibraryLocationView::Dylib(path) => {
                let fields = ComponentFieldsView {
                    location: Some(path),
                    requires: Some(merged),
                    ..metadata(file)
                };
                PackageView {
                    default_components: Some(seq![name]),
                    components: with_libraries(
                        seq![(name, MaybeComponentView::Component(ComponentView::Dylib(fields)))],
                        others,
                        true,
                    ),
                    ..base
                }
            },
            LibraryLocationView::Archive(path) => {
                let fields = ComponentFieldsView {
                    location: Some(path),
                    requires: Some(merged),
                    ..metadata(file)
                };
                PackageView {
                    default_components: Some(seq![name]),
                    components: with_libraries(
                        seq![(name, MaybeComponentView::Component(ComponentView::Archive(fields)))],
                        others,
                        false,
                    ),
                    ..base
                }
            },
            LibraryLocationView::Both { archive, dylib } => {
                let shared = name + SHARED_SUFFIX@;
                let fixed = name + STATIC_SUFFIX@;
                let fields = ComponentFieldsView {
                    configurations: Some(
                        seq![
                            (SHARED@, needing(seq![LOCAL_PREFIX@ + shared] + merged)),
                            (STATIC@, needing(seq![LOCAL_PREFIX@ + fixed] + merged)),
                        ],
                    ),
                    ..metadata(file)
                };
                PackageView {
                    default_components: Some(seq![name]),
                    configurations: Some(seq![SHARED@, STATIC@]),
                    components: with_libraries(
                        inserted(
                            inserted(
                                seq![
                                    (
                                        name,
                                        MaybeComponentView::Component(
                                            ComponentView::Interface(fields),
                                        ),
                                    ),
                                ],
                                shared,
                                MaybeComponentView::Component(
                                    ComponentView::Dylib(
                                        ComponentFieldsView {
                                            location: Some(dylib),
                                            ..ComponentFieldsView::empty()
                                        },
                                    ),
                                ),
                            ),
                            fixed,
                            MaybeComponentView::Component(
                                ComponentView::Archive(
                                    ComponentFieldsView {
                                        location: Some(archive),
                                        ..ComponentFieldsView::empty()
                                    },
                                ),
                            ),
                        ),
                        others,
                        false,
                    ),
                    ..base
                }
            },
        }
    }
}

/// The names of the packages that `deps` name.
pub fn dependency_names(deps: &Vec<Dependency>) -> (r: Vec<String>)
    ensures
        r.deep_view() == names(deps.deep_view()),
{
    let mut out: Vec<String> = Vec::new();
    let mut k: usize = 0;
    assert(out.deep_view() =~= names(deps.deep_view()).take(0));
    while k < deps.len()
        invariant
            k <= deps.len(),
            out.deep_view() == names(deps.deep_view()).take(k as int),
        decreases deps.len() - k,
    {
        let ghost before = out.deep_view();
        out.push(deps[k].name.clone());
        assert(deps.deep_view()[k as int] == deps@[k as int]@);
        assert(out.deep_view() =~= before.push(deps@[k as int]@.name));
        assert(before.push(deps@[k as int]@.name) =~= names(deps.deep_view()).take(k + 1));
        k += 1;
    }
    assert(names(deps.deep_view()).take(deps.len() as int) =~= names(deps.deep_view()));
    out
}

/// What is asked of the packages that `deps` name with a version.
pub fn versioned_requirements(deps: &Vec<Dependency>) -> (r: Option<Vec<(String, Requirement)>>)
    ensures
        r.deep_view() == unless_empty(versioned(deps.deep_view())),
{
    let ghost all = deps.deep_view();
    let mut out: Vec<(String, Requirement)> = Vec::new();
    let mut k: usize = 0;
    assert(all.take(0) =~= Seq::empty());
    assert(out.deep_view() =~= Seq::empty());
    while k < deps.len()
        invariant
            k <= deps.len(),
            all == deps.deep_view(),
            out.deep_view() == versioned(all.take(k as int)),
        decreases deps.len() - k,
    {
        proof {
            let upto = all.take(k + 1);
            assert(upto.drop_last() =~= all.take(k as int));
            assert(upto.last() == deps@[k as int]@);
        }
        match &deps[k].version {
            Some(version) => {
                let mut asked = Requirement::default();
                asked.version = Some(version.clone());
                insert(&mut out, deps[k].name.clone(), asked);
            },
            None => {},
        }
        k += 1;
    }
    assert(all.take(deps.len() as int) =~= all);
    if out.len() == 0 {
        None
    } else {
        Some(out)
    }
}

/// A list of flags, or nothing where it is empty.
pub fn flag_list(list: Vec<String>) -> (r: Option<Vec<String>>)
    ensures
        r.deep_view() == unless_empty(list.deep_view()),
{
    if list.len() == 0 {
        None
    } else {
        Some(list)
    }
}

/// A list that applies to every language, or nothing where it is empty.
pub fn language_lists(list: Vec<String>) -> (r: Option<LanguageStringList>)
    ensures
        r.deep_view() == for_any_language(list.deep_view()),
{
    if list.len() == 0 {
        None
    } else {
        Some(LanguageStringList::any_language_map(list))
    }
}

/// Whether `s` ends with `suffix`.
pub fn has_suffix(s: &str, suffix: &str) -> (r: bool)
    ensures
        r == ends_with(s@, suffix@),
{
    let text = chars_of(s);
    let end = chars_of(suffix);
    if end.len() > text.len() {
        false
    } else {
        matches_at(&text, &end, text.len() - end.len())
    }
}

/// The component that stands for the artifact at `path`.
pub fn artifact_component(path: String) -> (r: MaybeComponent)
    ensures
        r@ == artifact(path@),
{
    let dylib = has_suffix(path.as_str(), DYLIB_SUFFIX);
    let mut fields = ComponentFields::default();
    fields.location = Some(path);
    if dylib {
        MaybeComponent::Component(Component::Dylib(fields))
    } else {
        MaybeComponent::Component(Component::Archive(fields))
    }
}

/// Enters a component for each of `locations` but the first.
fn add_libraries(
    components: &mut Vec<(String, MaybeComponent)>,
    locations: &Vec<(String, LibraryLocation)>,
    prefer_dylib: bool,
)
    requires
        locations.len() > 0,
    ensures
        final(components).deep_view() == with_libraries(
            old(components).deep_view(),
            locations.deep_view().skip(1),
            prefer_dylib,
        ),
{
    let ghost before = components.deep_view();
    let ghost others = locations.deep_view().skip(1);
    let mut k: usize = 1;
    assert(others.take(0) =~= Seq::empty());
    while k < locations.len()
        invariant
            1 <= k <= locations.len(),
            others == locations.deep_view().skip(1),
            components.deep_view() == with_libraries(before, others.take(k - 1), prefer_dylib),
        decreases locations.len() - k,
    {
        proof {
            let upto = others.take(k as int);
            assert(upto.drop_last() =~= others.take(k - 1));
            assert(upto.last() == locations@[k as int].deep_view());
        }
        let path = locations[k].1.preferred_path(prefer_dylib);
        insert(components, locations[k].0.clone(), artifact_component(path));
        k += 1;
    }
    assert(others.take(locations.len() - 1) =~= others);
}

/// The references to the components that stand for all of `locations` but
/// the first, and after them `remote`.
fn merged_requires(locations: &Vec<(String, LibraryLocation)>, remote: Vec<String>) -> (r: Vec<
    String,
>)
    requires
        locations.len() > 0,
    ensures
        r.deep_view() == local_references(locations.deep_view().skip(1)) + remote.deep_view(),
{
    let ghost local = local_references(locations.deep_view().skip(1));
    let mut out: Vec<String> = Vec::new();
    let mut k: usize = 1;
    assert(out.deep_view() =~= local.take(0));
    while k < locations.len()
        invariant
            1 <= k <= locations.len(),
            local == local_references(locations.deep_view().skip(1)),
            out.deep_view() == local.take(k - 1),
        decreases locations.len() - k,
    {
        let ghost before = out.deep_view();
        let reference = String::from_str(LOCAL_PREFIX).concat(locations[k].0.as_str());
        assert(locations.deep_view().skip(1)[k - 1] == locations@[k as int].deep_view());
        assert(reference@ == local[k - 1]);
        out.push(reference);
        assert(out.deep_view() =~= before.push(local[k - 1]));
        assert(before.push(local[k - 1]) =~= local.take(k as int));
        k += 1;
    }
    assert(local.take(locations.len() - 1) =~= local);
    let mut j: usize = 0;
    assert(out.deep_view() =~= local + remote.deep_view().take(0));
    while j < remote.len()
        invariant
            j <= remote.len(),
            out.deep_view() == local + remote.deep_view().take(j as int),
        decreases remote.len() - j,
    {
        let ghost before = out.deep_view();
        out.push(remote[j].clone());
        assert(out.deep_view() =~= before.push(remote@[j as int]@));
        assert(before.push(remote@[j as int]@) =~= local + remote.deep_view().take(j + 1));
        j += 1;
    }
    assert(remote.deep_view().take(remote.len() as int) =~= remote.deep_view());
    out
}

/// The configuration that needs the component `target` of the same
/// package, and after it `merged`.
fn configuration_needing(target: &str, merged: &Vec<String>) -> (r: Configuration)
    ensures
        r@ == needing(seq![LOCAL_PREFIX@ + target@] + merged.deep_view()),
{
    let mut needed: Vec<String> = Vec::new();
    needed.push(String::from_str(LOCAL_PREFIX).concat(target));
    let ghost first = seq![LOCAL_PREFIX@ + target@];
    assert(needed.deep_view() =~= first + merged.deep_view().take(0));
    let mut j: usize = 0;
    while j < merged.len()
        invariant
            j <= merged.len(),
            needed.deep_view() == first + merged.deep_view().take(j as int),
        decreases merged.len() - j,
    {
        let ghost before = needed.deep_view();
        needed.push(merged[j].clone());
        assert(needed.deep_view() =~= before.push(merged@[j as int]@));
        assert(before.push(merged@[j as int]@) =~= first + merged.deep_view().take(j + 1));
        j += 1;
    }
    assert(merged.deep_view().take(merged.len() as int) =~= merged.deep_view());
    let mut configuration = Configuration::default();
    configuration.requires = Some(needed);
    configuration
}

/// The fields that the default component has of the record whatever its
/// kind.
fn metadata_fields(
    compile_flags: Vec<String>,
    definitions: Vec<String>,
    includes: Vec<String>,
    link_flags: Vec<String>,
) -> (r: ComponentFields)
    ensures
        r@ == (ComponentFieldsView {
            compile_flags: for_any_language(compile_flags.deep_view()),
            definitions: for_any_language(definitions.deep_view()),
            includes: for_any_language(includes.deep_view()),
            link_flags: unless_empty(link_flags.deep_view()),
            ..ComponentFieldsView::empty()
        }),
{
    let mut fields = ComponentFields::default();
    fields.compile_flags = language_lists(compile_flags);
    fields.definitions = language_lists(definitions);
    fields.includes = language_lists(includes);
    fields.link_flags = flag_list(link_flags);
    fields
}

/// Makes the package of a record and the artifacts of its libraries.
pub fn convert(pkg_config: PkgConfigFile, locations: Vec<(String, LibraryLocation)>) -> (r: Package)
    ensures
        r@ == converted(pkg_config@, locations.deep_view()),
        r@.well_formed(),
        r@.violation() is None,
{
    let ghost file = pkg_config@;
    let ghost locs = locations.deep_view();
    let remote = dependency_names(&pkg_config.requires);
    let needs = versioned_requirements(&pkg_config.requires);
    let mut fields = metadata_fields(
        pkg_config.compile_flags,
        pkg_config.definitions,
        pkg_config.includes,
        pkg_config.link_flags,
    );
    assert(fields@ == metadata(file));
    let mut package = Package::default();
    let mut components: Vec<(String, MaybeComponent)> = Vec::new();
    let default_name: String;
    if locations.len() == 0 {
        default_name = pkg_config.name.clone();
        fields.requires = Some(remote);
        let ghost entry = (
            file.name,
            MaybeComponentView::Component(ComponentView::Interface(fields@)),
        );
        components.push(
            (default_name.clone(), MaybeComponent::Component(Component::Interface(fields))),
        );
        assert(components.deep_view() =~= seq![entry]);
    } else {
        assert(locs[0] == locations@[0].deep_view());
        default_name = locations[0].0.clone();
        let merged = merged_requires(&locations, remote);
        match &locations[0].1 {
            LibraryLocation::Dylib(path) => {
                fields.location = Some(path.clone());
                fields.requires = Some(merged);
                let ghost entry = (
                    locs[0].0,
                    MaybeComponentView::Component(ComponentView::Dylib(fields@)),
                );
                components.push(
                    (default_name.clone(), MaybeComponent::Component(Component::Dylib(fields))),
                );
                assert(components.deep_view() =~= seq![entry]);
                add_libraries(&mut components, &locations, true);
            },
            LibraryLocation::Archive(path) => {
                fields.location = Some(path.clone());
                fields.requires = Some(merged);
                let ghost entry = (
                    locs[0].0,
                    MaybeComponentView::Component(ComponentView::Archive(fields@)),
                );
                components.push(
                    (default_name.clone(), MaybeComponent::Component(Component::Archive(fields))),
                );
                assert(components.deep_view() =~= seq![entry]);
                add_libraries(&mut components, &locations, false);
            },
            LibraryLocation::Both { archive, dylib } => {
                let shared = default_name.clone().concat(SHARED_SUFFIX);
                let fixed = default_name.clone().concat(STATIC_SUFFIX);
                let mut configurations: Vec<(String, Configuration)> = Vec::new();
                let first = configuration_needing(shared.as_str(), &merged);
                let second = configuration_needing(fixed.as_str(), &merged);
                let ghost both = seq![(SHARED@, first@), (STATIC@, second@)];
                configurations.push((String::from_str(SHARED), first));
                configurations.push((String::from_str(STATIC), second));
                assert(configurations.deep_view() =~= both);
                fields.configurations = Some(configurations);
                let ghost entry = (
                    locs[0].0,
                    MaybeComponentView::Component(ComponentView::Interface(fields@)),
                );
                components.push(
                    (default_name.clone(), MaybeComponent::Component(Component::Interface(fields))),
                );
                assert(components.deep_view() =~= seq![entry]);
                insert(
                    &mut components,
                    shared,
                    MaybeComponent::from_dylib_location(dylib.as_str()),
                );
                insert(
                    &mut components,
                    fixed,
                    MaybeComponent::from_archive_location(archive.as_str()),
                );
                add_libraries(&mut components, &locations, false);
                let mut both_names: Vec<String> = Vec::new();
                both_names.push(String::from_str(SHARED));
                both_names.push(String::from_str(STATIC));
                assert(both_names.deep_view() =~= seq![SHARED@, STATIC@]);
                package.configurations = Some(both_names);
            },
        }
    }
    let mut defaults: Vec<String> = Vec::new();
    let ghost default_view = default_name@;
    defaults.push(default_name);
    assert(defaults.deep_view() =~= seq![default_view]);
    package.name = pkg_config.name;
    package.version = Some(pkg_config.version);
    package.description = Some(pkg_config.description);
    package.requires = needs;
    package.default_components = Some(defaults);
    package.components = components;
    proof {
        lemma_converted_in_order(file, locs);
    }
    package
}

/// The name of the default component: that of the primary library, and the
/// package's own where there is no library.
pub open spec fn default_name(
    file: PkgConfigFileView,
    locations: Seq<(Seq<char>, LibraryLocationView)>,
) -> Seq<char> {
    if locations.len() == 0 {
        file.name
    } else {
        locations[0].0
    }
}

/// The components of the libraries are in order, and disturb nothing that
/// was in order: the names stay distinct, the components that were there
/// stay, and no component lacks the location asked of it.
pub proof fn lemma_with_libraries(
    components: Seq<(Seq<char>, MaybeComponentView)>,
    libraries: Seq<(Seq<char>, LibraryLocationView)>,
    prefer_dylib: bool,
)
    requires
        distinct_keys(components),
        forall|i: int| 0 <= i < components.len() ==> !(#[trigger] components[i]).1.lacks_location(),
        forall|i: int| 0 <= i < components.len() ==> (#[trigger] components[i]).1.well_formed(),
    ensures
        distinct_keys(with_libraries(components, libraries, prefer_dylib)),
        forall|i: int|
            0 <= i < with_libraries(components, libraries, prefer_dylib).len() ==> (
            #[trigger] with_libraries(components, libraries, prefer_dylib)[i]).1.well_formed(),
        forall|i: int|
            0 <= i < with_libraries(components, libraries, prefer_dylib).len() ==> !(
            #[trigger] with_libraries(components, libraries, prefer_dylib)[i]).1.lacks_location(),
        forall|key: Seq<char>|
            has_key(components, key) ==> #[trigger] has_key(
                with_libraries(components, libraries, prefer_dylib),
                key,
            ),
    decreases libraries.len(),
{
    if libraries.len() > 0 {
        let init = with_libraries(components, libraries.drop_last(), prefer_dylib);
        lemma_with_libraries(components, libraries.drop_last(), prefer_dylib);
        let name = libraries.last().0;
        let entered = artifact(libraries.last().1.preferred_path(prefer_dylib));
        lemma_inserted(init, name, entered);
        lemma_inserted_all(init, name, entered, |c: MaybeComponentView| !c.lacks_location());
        lemma_inserted_all(init, name, entered, |c: MaybeComponentView| c.well_formed());
    }
}

/// No package is asked for twice.
pub proof fn lemma_versioned_distinct(deps: Seq<DependencyView>)
    ensures
        distinct_keys(versioned(deps)),
    decreases deps.len(),
{
    if deps.len() > 0 {
        lemma_versioned_distinct(deps.drop_last());
        if deps.last().version is Some {
            lemma_inserted(
                versioned(deps.drop_last()),
                deps.last().name,
                of_version(deps.last().version->Some_0),
            );
        }
    }
}

/// The package that conversion makes is in order: it meets the rules of the
/// specification, its tables are well formed, so that no two of its
/// components have the same name, and its one default component is among
/// them.
pub proof fn lemma_converted_in_order(
    file: PkgConfigFileView,
    locations: Seq<(Seq<char>, LibraryLocationView)>,
)
    ensures
        converted(file, locations).valid(),
        converted(file, locations).violation() is None,
        converted(file, locations).well_formed(),
        converted(file, locations).default_components == Some(
            seq![default_name(file, locations)],
        ),
        has_key(converted(file, locations).components, default_name(file, locations)),
{
    let package = converted(file, locations);
    let name = default_name(file, locations);
    lemma_versioned_distinct(file.requires);
    assert(metadata(file).well_formed());
    if locations.len() == 0 {
        assert(package.components[0].0 == name);
    } else {
        let others = locations.skip(1);
        let merged = local_references(others) + names(file.requires);
        match locations[0].1 {
            LibraryLocationView::Dylib(path) => {
                let first = seq![
                    (
                        name,
                        MaybeComponentView::Component(
                            ComponentView::Dylib(
                                ComponentFieldsView {
                                    location: Some(path),
                                    requires: Some(merged),
                                    ..metadata(file)
                                },
                            ),
                        ),
                    ),
                ];
                assert(first[0].0 == name);
                lemma_with_libraries(first, others, true);
            },
            LibraryLocationView::Archive(path) => {
                let first = seq![
                    (
                        name,
                        MaybeComponentView::Component(
                            ComponentView::Archive(
                                ComponentFieldsView {
                                    location: Some(path),
                                    requires: Some(merged),
                                    ..metadata(file)
                                },
                            ),
                        ),
                    ),
                ];
                assert(first[0].0 == name);
                lemma_with_libraries(first, others, false);
            },
            LibraryLocationView::Both { archive, dylib } => {
                let shared = name + SHARED_SUFFIX@;
                let fixed = name + STATIC_SUFFIX@;
                let fields = ComponentFieldsView {
                    configurations: Some(
                        seq![
                            (SHARED@, needing(seq![LOCAL_PREFIX@ + shared] + merged)),
                            (STATIC@, needing(seq![LOCAL_PREFIX@ + fixed] + merged)),
                        ],
                    ),
                    ..metadata(file)
                };
                let first = seq![
                    (name, MaybeComponentView::Component(ComponentView::Interface(fields))),
                ];
                let for_dylib = MaybeComponentView::Component(
                    ComponentView::Dylib(
                        ComponentFieldsView { location: Some(dylib), ..ComponentFieldsView::empty() },
                    ),
                );
                let for_archive = MaybeComponentView::Component(
                    ComponentView::Archive(
                        ComponentFieldsView {
                            location: Some(archive),
                            ..ComponentFieldsView::empty()
                        },
                    ),
                );
                let located = |c: MaybeComponentView| !c.lacks_location();
                let formed = |c: MaybeComponentView| c.well_formed();
                assert(first[0].0 == name);
                assert(SHARED@ != STATIC@) by {
                    reveal_strlit("shared");
                    reveal_strlit("static");
                    assert(SHARED@[1] != STATIC@[1]);
                }
                assert(fields.well_formed());
                lemma_inserted(first, shared, for_dylib);
                lemma_inserted_all(first, shared, for_dylib, located);
                lemma_inserted_all(first, shared, for_dylib, formed);
                let second = inserted(first, shared, for_dylib);
                lemma_inserted(second, fixed, for_archive);
                lemma_inserted_all(second, fixed, for_archive, located);
                lemma_inserted_all(second, fixed, for_archive, formed);
                lemma_with_libraries(inserted(second, fixed, for_archive), others, false);
            },
        }
    }
    lemma_violation_none_iff_valid(package);
}

/// The components of the libraries leave in place what stands under a name
/// that none of the libraries bears.
pub proof fn lemma_with_libraries_keeps(
    components: Seq<(Seq<char>, MaybeComponentView)>,
    libraries: Seq<(Seq<char>, LibraryLocationView)>,
    prefer_dylib: bool,
    key: Seq<char>,
    value: MaybeComponentView,
)
    requires
        has_entry(components, key, value),
        forall|i: int| 0 <= i < libraries.len() ==> (#[trigger] libraries[i]).0 != key,
    ensures
        has_entry(with_libraries(components, libraries, prefer_dylib), key, value),
    decreases libraries.len(),
{
    if libraries.len() > 0 {
        let init = libraries.drop_last();
        assert forall|i: int| 0 <= i < init.len() implies (#[trigger] init[i]).0 != key by {
            assert(init[i] == libraries[i]);
        }
        lemma_with_libraries_keeps(components, init, prefer_dylib, key, value);
        assert(libraries.last() == libraries[libraries.len() - 1]);
        lemma_inserted_entries(
            with_libraries(components, init, prefer_dylib),
            libraries.last().0,
            artifact(libraries.last().1.preferred_path(prefer_dylib)),
        );
    }
}

/// Where the primary library is both a shared object and an archive, the
/// package holds a component for each, named after the library with
/// `-shared` and `-static` behind it, unless another library bears one of
/// these names: its component then stands under that name.
pub proof fn lemma_both_components(
    file: PkgConfigFileView,
    locations: Seq<(Seq<char>, LibraryLocationView)>,
    archive: Seq<char>,
    dylib: Seq<char>,
)
    requires
        locations.len() > 0,
        locations[0].1 == (LibraryLocationView::Both { archive, dylib }),
        forall|i: int|
            1 <= i < locations.len() ==> (#[trigger] locations[i]).0 != locations[0].0
                + SHARED_SUFFIX@ && locations[i].0 != locations[0].0 + STATIC_SUFFIX@,
    ensures
        has_entry(
            converted(file, locations).components,
            locations[0].0 + SHARED_SUFFIX@,
            MaybeComponentView::Component(
                ComponentView::Dylib(
                    ComponentFieldsView { location: Some(dylib), ..ComponentFieldsView::empty() },
                ),
            ),
        ),
        has_entry(
            converted(file, locations).components,
            locations[0].0 + STATIC_SUFFIX@,
            MaybeComponentView::Component(
                ComponentView::Archive(
                    ComponentFieldsView { location: Some(archive), ..ComponentFieldsView::empty() },
                ),
            ),
        ),
{
    let name = locations[0].0;
    let others = locations.skip(1);
    let merged = local_references(others) + names(file.requires);
    let shared = name + SHARED_SUFFIX@;
    let fixed = name + STATIC_SUFFIX@;
    let fields = ComponentFieldsView {
        configurations: Some(
            seq![
                (SHARED@, needing(seq![LOCAL_PREFIX@ + shared] + merged)),
                (STATIC@, needing(seq![LOCAL_PREFIX@ + fixed] + merged)),
            ],
        ),
        ..metadata(file)
    };
    let first = seq![(name, MaybeComponentView::Component(ComponentView::Interface(fields)))];
    let for_dylib = MaybeComponentView::Component(
        ComponentView::Dylib(
            ComponentFieldsView { location: Some(dylib), ..ComponentFieldsView::empty() },
        ),
    );
    let for_archive = MaybeComponentView::Component(
        ComponentView::Archive(
            ComponentFieldsView { location: Some(archive), ..ComponentFieldsView::empty() },
        ),
    );
    assert(shared != fixed) by {
        reveal_strlit("-shared");
        reveal_strlit("-static");
        assert(shared[name.len() as int + 2] == 'h');
        assert(fixed[name.len() as int + 2] == 't');
    }
    let second = inserted(first, shared, for_dylib);
    lemma_inserted_entries(first, shared, for_dylib);
    let third = inserted(second, fixed, for_archive);
    lemma_inserted_entries(second, fixed, for_archive);
    assert forall|i: int| 0 <= i < others.len() implies (#[trigger] others[i]).0 != shared
        && others[i].0 != fixed by {
        assert(others[i] == locations[i + 1]);
    }
    lemma_with_libraries_keeps(third, others, false, shared, for_dylib);
    lemma_with_libraries_keeps(third, others, false, fixed, for_archive);
}

/// A package with one library has one default component, named after the
/// library.
pub proof fn lemma_single_library(
    file: PkgConfigFileView,
    locations: Seq<(Seq<char>, LibraryLocationView)>,
)
    requires
        locations.len() == 1,
    ensures
        converted(file, locations).default_components == Some(seq![locations[0].0]),
        converted(file, locations).default_components->Some_0.len() == 1,
        has_key(converted(file, locations).components, locations[0].0),
{
    lemma_converted_in_order(file, locations);
}

/// What finding the libraries of a record and converting it comes to.
pub open spec fn generated(
    file: PkgConfigFileView,
    multiarch: Seq<Seq<char>>,
    present: Seq<Seq<char>>,
) -> Result<PackageView, ResolveErrorView> {
    match located_all(file.link_libraries, file.link_locations, multiarch, present) {
        Ok(locations) => Ok(converted(file, locations)),
        Err(e) => Err(e),
    }
}

/// The mathematical value of what finding and converting returns.
pub open spec fn generated_view(r: Result<Package, ResolveError>) -> Result<
    PackageView,
    ResolveErrorView,
> {
    match r {
        Ok(package) => Ok(package@),
        Err(e) => Err(e@),
    }
}

impl Package {
    /// Finds the libraries of a record among `present`, the paths that
    /// exist, and makes the package. Fails where a library cannot be found.
    pub fn try_from_pkg_config(
        pkg_config: PkgConfigFile,
        multiarch: &[String],
        present: &[String],
    ) -> (r: Result<Package, ResolveError>)
        ensures
            generated_view(r) == generated(pkg_config@, multiarch.deep_view(), present.deep_view()),
    {
        match find_locations(&pkg_config, multiarch, present) {
            Ok(locations) => Ok(convert(pkg_config, locations)),
            Err(e) => Err(e),
        }
    }
}

/// Why no package could be made of a document.
#[derive(Debug, PartialEq, Eq)]
pub enum GenerateError {
    /// The document could not be parsed.
    Parse(ParseError),
    /// A library that the document links could not be found.
    Resolve(ResolveError),
}

/// The mathematical value of a `GenerateError`.
pub ghost enum GenerateErrorView {
    Parse(ParseErrorView),
    Resolve(ResolveErrorView),
}

impl View for GenerateError {
    type V = GenerateErrorView;

    open spec fn view(&self) -> GenerateErrorView {
        match self {
            GenerateError::Parse(e) => GenerateErrorView::Parse(e@),
            GenerateError::Resolve(e) => GenerateErrorView::Resolve(e@),
        }
    }
}

impl GenerateError {
    /// The error in words.
    pub fn message(&self) -> (r: String)
        ensures
            r@ == match self@ {
                GenerateErrorView::Parse(e) => e.message(),
                GenerateErrorView::Resolve(e) => e.message(),
            },
    {
        match self {
            GenerateError::Parse(e) => e.message(),
            GenerateError::Resolve(e) => e.message(),
        }
    }
}

/// What a document comes to: it is parsed, its libraries are found, and the
/// package is made.
pub open spec fn generated_from(
    data: Seq<char>,
    multiarch: Seq<Seq<char>>,
    present: Seq<Seq<char>>,
) -> Result<PackageView, GenerateErrorView> {
    match parsed(data) {
        Ok(file) => match generated(file, multiarch, present) {
            Ok(package) => Ok(package),
            Err(e) => Err(GenerateErrorView::Resolve(e)),
        },
        Err(e) => Err(GenerateErrorView::Parse(e)),
    }
}

/// The mathematical value of what `generate_from_pkg_config` returns.
pub open spec fn generate_view(r: Result<Package, GenerateError>) -> Result<
    PackageView,
    GenerateErrorView,
> {
    match r {
        Ok(package) => Ok(package@),
        Err(e) => Err(e@),
    }
}

/// Makes the package of a pkg-config document. `multiarch` holds the
/// directories to search after those that the document names, and `present`
/// the paths that exist.
pub fn generate_from_pkg_config(data: &str, multiarch: &[String], present: &[String]) -> (r: Result<
    Package,
    GenerateError,
>)
    ensures
        generate_view(r) == generated_from(data@, multiarch.deep_view(), present.deep_view()),
{
    let pkg_config = match PkgConfigFile::parse(data) {
        Ok(file) => file,
        Err(e) => {
            return Err(GenerateError::Parse(e));
        },
    };
    match Package::try_from_pkg_config(pkg_config, multiarch, present) {
        Ok(package) => Ok(package),
        Err(e) => Err(GenerateError::Resolve(e)),
    }
}

/// What ends the name of a pkg-config document.
pub const PC_EXTENSION: &'static str = ".pc";

/// What ends the name of a package document.
pub const CPS_EXTENSION: &'static str = ".cps";

/// The name of the package document that belongs to the pkg-config
/// document `name`: the extension is replaced. A name that does not end as
/// a pkg-config document is left as it is.
pub open spec fn cps_name(name: Seq<char>) -> Seq<char> {
    if ends_with(name, PC_EXTENSION@) {
        name.take(name.len() - PC_EXTENSION@.len()) + CPS_EXTENSION@
    } else {
        name
    }
}

/// The name of the package document that belongs to the pkg-config
/// document `name`.
pub fn cps_file_name(name: &str) -> (r: String)
    ensures
        r@ == cps_name(name@),
{
    if has_suffix(name, PC_EXTENSION) {
        let text = chars_of(name);
        let end = chars_of(PC_EXTENSION);
        let stem = slice_of(&text, 0, text.len() - end.len());
        string_of(&stem).concat(CPS_EXTENSION)
    } else {
        String::from_str(name)
    }
}

} // verus!
