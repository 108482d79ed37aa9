use cps_deps::cps::{
    Component, ComponentFields, LanguageStringList, MaybeComponent, Package, Requirement,
};
use cps_deps::generate_from_pkg_config::{
    artifact_component, convert, cps_file_name, generate_from_pkg_config, has_suffix,
    GenerateError,
};
use cps_deps::lib_search::{LibraryLocation, ResolveError};
use cps_deps::pkg_config::{Dependency, ParseError, PkgConfigFile};

fn strings(items: &[&str]) -> Vec<String> {
    items.iter().map(|s| s.to_string()).collect()
}

fn record() -> PkgConfigFile {
    PkgConfigFile {
        name: "Pkg".to_string(),
        version: "1.2".to_string(),
        description: "A package".to_string(),
        includes: strings(&["/usr/include/pkg"]),
        definitions: strings(&["PKG=1"]),
        compile_flags: strings(&["-std=c++11"]),
        link_flags: strings(&["-pthread"]),
        requires: vec![
            Dependency { name: "plain".to_string(), op: None, version: None },
            Dependency {
                name: "pinned".to_string(),
                op: Some(">=".to_string()),
                version: Some("2.0".to_string()),
            },
        ],
        ..PkgConfigFile::default()
    }
}

fn fields_of<'a>(package: &'a Package, name: &str) -> (&'a str, &'a ComponentFields) {
    let found = package.components.iter().find(|(n, _)| n == name);
    match found {
        Some((_, MaybeComponent::Component(Component::Archive(f)))) => ("archive", f),
        Some((_, MaybeComponent::Component(Component::Dylib(f)))) => ("dylib", f),
        Some((_, MaybeComponent::Component(Component::Interface(f)))) => ("interface", f),
        other => panic!("no component `{}`: {:?}", name, other),
    }
}

fn names_of(package: &Package) -> Vec<String> {
    package.components.iter().map(|(n, _)| n.clone()).collect()
}

fn any_language(list: &Option<LanguageStringList>) -> Vec<String> {
    match list {
        Some(LanguageStringList::LanguageMap(lists)) => {
            assert_eq!(lists.len(), 1);
            assert_eq!(lists[0].0, "*");
            lists[0].1.clone()
        }
        other => panic!("unexpected: {:?}", other),
    }
}

fn check_metadata(package: &Package, fields: &ComponentFields) {
    assert_eq!(package.name, "Pkg");
    assert_eq!(package.cps_version, "0.11.0");
    assert_eq!(package.version, Some("1.2".to_string()));
    assert_eq!(package.description, Some("A package".to_string()));
    assert_eq!(any_language(&fields.compile_flags), strings(&["-std=c++11"]));
    assert_eq!(any_language(&fields.definitions), strings(&["PKG=1"]));
    assert_eq!(any_language(&fields.includes), strings(&["/usr/include/pkg"]));
    assert_eq!(fields.link_flags, Some(strings(&["-pthread"])));
    match &package.requires {
        Some(needs) => {
            assert_eq!(needs.len(), 1);
            assert_eq!(needs[0].0, "pinned");
            let Requirement { components, hints, version } = &needs[0].1;
            assert_eq!(version, &Some("2.0".to_string()));
            assert!(components.is_none() && hints.is_none());
        }
        None => panic!("no requirements"),
    }
    assert_eq!(package.validate(), Ok(()));
}

#[test]
fn without_libraries_the_package_is_an_interface() {
    let package = convert(record(), vec![]);
    assert_eq!(package.default_components, Some(strings(&["Pkg"])));
    assert_eq!(names_of(&package), strings(&["Pkg"]));
    let (kind, fields) = fields_of(&package, "Pkg");
    assert_eq!(kind, "interface");
    assert_eq!(fields.location, None);
    assert_eq!(fields.requires, Some(strings(&["plain", "pinned"])));
    assert!(fields.configurations.is_none());
    assert!(package.configurations.is_none());
    check_metadata(&package, fields);
}

#[test]
fn empty_lists_are_left_out() {
    let file = PkgConfigFile {
        name: "n".to_string(),
        version: "1".to_string(),
        description: "d".to_string(),
        ..PkgConfigFile::default()
    };
    let package = convert(file, vec![]);
    let (_, fields) = fields_of(&package, "n");
    assert!(fields.compile_flags.is_none());
    assert!(fields.definitions.is_none());
    assert!(fields.includes.is_none());
    assert!(fields.link_flags.is_none());
    assert_eq!(fields.requires, Some(vec![]));
    assert!(package.requires.is_none());
}

#[test]
fn one_library_gives_one_default_component() {
    let locations = vec![("z".to_string(), LibraryLocation::Dylib("/lib/libz.so".to_string()))];
    let package = convert(record(), locations);
    assert_eq!(package.default_components, Some(strings(&["z"])));
    assert_eq!(package.default_components.as_ref().unwrap().len(), 1);
    assert_eq!(names_of(&package), strings(&["z"]));
    let (kind, fields) = fields_of(&package, "z");
    assert_eq!(kind, "dylib");
    assert_eq!(fields.location, Some("/lib/libz.so".to_string()));
    assert_eq!(fields.requires, Some(strings(&["plain", "pinned"])));
    check_metadata(&package, fields);
}

#[test]
fn an_archive_alone_gives_an_archive() {
    let locations = vec![("z".to_string(), LibraryLocation::Archive("/lib/libz.a".to_string()))];
    let package = convert(record(), locations);
    assert_eq!(package.default_components, Some(strings(&["z"])));
    let (kind, fields) = fields_of(&package, "z");
    assert_eq!(kind, "archive");
    assert_eq!(fields.location, Some("/lib/libz.a".to_string()));
    assert!(package.configurations.is_none());
    check_metadata(&package, fields);
}

#[test]
fn other_libraries_follow_a_shared_primary() {
    let locations = vec![
        ("nss3".to_string(), LibraryLocation::Dylib("/lib/libnss3.so".to_string())),
        (
            "nssutil3".to_string(),
            LibraryLocation::Both {
                archive: "/lib/libnssutil3.a".to_string(),
                dylib: "/lib/libnssutil3.so".to_string(),
            },
        ),
        ("smime3".to_string(), LibraryLocation::Archive("/lib/libsmime3.a".to_string())),
    ];
    let package = convert(record(), locations);
    assert_eq!(package.default_components, Some(strings(&["nss3"])));
    assert_eq!(names_of(&package), strings(&["nss3", "nssutil3", "smime3"]));
    let (kind, fields) = fields_of(&package, "nss3");
    assert_eq!(kind, "dylib");
    assert_eq!(
        fields.requires,
        Some(strings(&[":nssutil3", ":smime3", "plain", "pinned"]))
    );
    check_metadata(&package, fields);
    let (kind, fields) = fields_of(&package, "nssutil3");
    assert_eq!(kind, "dylib");
    assert_eq!(fields.location, Some("/lib/libnssutil3.so".to_string()));
    assert!(fields.requires.is_none() && fields.compile_flags.is_none());
    let (kind, fields) = fields_of(&package, "smime3");
    assert_eq!(kind, "archive");
    assert_eq!(fields.location, Some("/lib/libsmime3.a".to_string()));
}

#[test]
fn other_libraries_follow_a_static_primary() {
    let locations = vec![
        ("a".to_string(), LibraryLocation::Archive("/lib/liba.a".to_string())),
        (
            "b".to_string(),
            LibraryLocation::Both {
                archive: "/lib/libb.a".to_string(),
                dylib: "/lib/libb.so".to_string(),
            },
        ),
        ("c".to_string(), LibraryLocation::Dylib("/lib/libc.so".to_string())),
    ];
    let package = convert(record(), locations);
    let (kind, fields) = fields_of(&package, "b");
    assert_eq!(kind, "archive");
    assert_eq!(fields.location, Some("/lib/libb.a".to_string()));
    let (kind, fields) = fields_of(&package, "c");
    assert_eq!(kind, "dylib");
    assert_eq!(fields.location, Some("/lib/libc.so".to_string()));
    assert_eq!(package.validate(), Ok(()));
}

#[test]
fn both_artifacts_give_two_configurations() {
    let locations = vec![
        (
            "z".to_string(),
            LibraryLocation::Both {
                archive: "/lib/libz.a".to_string(),
                dylib: "/lib/libz.so".to_string(),
            },
        ),
        ("m".to_string(), LibraryLocation::Dylib("/lib/libm.so".to_string())),
    ];
    let package = convert(record(), locations);
    assert_eq!(package.default_components, Some(strings(&["z"])));
    assert_eq!(package.configurations, Some(strings(&["shared", "static"])));
    assert_eq!(names_of(&package), strings(&["z", "z-shared", "z-static", "m"]));
    let (kind, fields) = fields_of(&package, "z");
    assert_eq!(kind, "interface");
    assert_eq!(fields.location, None);
    assert_eq!(fields.requires, None);
    check_metadata(&package, fields);
    let configurations = fields.configurations.as_ref().unwrap();
    assert_eq!(configurations.len(), 2);
    assert_eq!(configurations[0].0, "shared");
    assert_eq!(
        configurations[0].1.requires,
        Some(strings(&[":z-shared", ":m", "plain", "pinned"]))
    );
    assert_eq!(configurations[0].1.location, None);
    assert_eq!(configurations[1].0, "static");
    assert_eq!(
        configurations[1].1.requires,
        Some(strings(&[":z-static", ":m", "plain", "pinned"]))
    );
    let (kind, fields) = fields_of(&package, "z-shared");
    assert_eq!(kind, "dylib");
    assert_eq!(fields.location, Some("/lib/libz.so".to_string()));
    let (kind, fields) = fields_of(&package, "z-static");
    assert_eq!(kind, "archive");
    assert_eq!(fields.location, Some("/lib/libz.a".to_string()));
    let (kind, _) = fields_of(&package, "m");
    assert_eq!(kind, "dylib");
}

#[test]
fn a_later_pinned_version_takes_the_place_of_an_earlier() {
    let mut file = record();
    file.requires.push(Dependency {
        name: "pinned".to_string(),
        op: Some("=".to_string()),
        version: Some("3.0".to_string()),
    });
    let package = convert(file, vec![]);
    let needs = package.requires.unwrap();
    assert_eq!(needs.len(), 1);
    assert_eq!(needs[0].0, "pinned");
    assert_eq!(needs[0].1.version, Some("3.0".to_string()));
}

#[test]
fn a_library_named_like_the_shared_component_takes_its_place() {
    let locations = vec![
        (
            "z".to_string(),
            LibraryLocation::Both { archive: "z.a".to_string(), dylib: "z.so".to_string() },
        ),
        ("z-shared".to_string(), LibraryLocation::Archive("other.a".to_string())),
    ];
    let package = convert(record(), locations);
    assert_eq!(names_of(&package), strings(&["z", "z-shared", "z-static"]));
    let (kind, fields) = fields_of(&package, "z-shared");
    assert_eq!(kind, "archive");
    assert_eq!(fields.location, Some("other.a".to_string()));
}

#[test]
fn the_kind_of_an_artifact_goes_by_its_path() {
    assert!(has_suffix("/lib/libz.so", ".so"));
    assert!(!has_suffix("/lib/libzso", ".so"));
    assert!(!has_suffix("so", ".so"));
    assert!(has_suffix("anything", ""));
    assert!(matches!(
        artifact_component("/lib/libz.so".to_string()),
        MaybeComponent::Component(Component::Dylib(_))
    ));
    assert!(matches!(
        artifact_component("/lib/libz.so.1".to_string()),
        MaybeComponent::Component(Component::Archive(_))
    ));
}

#[test]
fn cps_file_name_replaces_the_extension() {
    assert_eq!(cps_file_name("zlib.pc"), "zlib.cps");
    assert_eq!(cps_file_name("a.pc.pc"), "a.pc.cps");
    assert_eq!(cps_file_name(".pc"), ".cps");
    assert_eq!(cps_file_name("zlib.txt"), "zlib.txt");
    assert_eq!(cps_file_name(""), "");
}

#[test]
fn a_document_becomes_a_package() {
    let data = "prefix=/usr\nlibdir=${prefix}/lib\n\nName: Z\nDescription: zlib\nVersion: 1.3\n\
                Requires: a >= 1.0, b\nLibs: -L${libdir} -lz -lm\nCflags: -I${prefix}/include";
    let multiarch = strings(&["/usr/lib/x86_64-linux-gnu"]);
    let present =
        strings(&["/usr/lib/libz.so", "/usr/lib/x86_64-linux-gnu/libm.so", "/usr/lib/libm.a"]);
    let package = generate_from_pkg_config(data, &multiarch, &present).unwrap();
    assert_eq!(package.name, "Z");
    assert_eq!(package.default_components, Some(strings(&["z"])));
    assert_eq!(names_of(&package), strings(&["z", "m"]));
    let (kind, fields) = fields_of(&package, "z");
    assert_eq!(kind, "dylib");
    assert_eq!(fields.location, Some("/usr/lib/libz.so".to_string()));
    assert_eq!(fields.requires, Some(strings(&[":m", "a", "b"])));
    assert_eq!(any_language(&fields.includes), strings(&["/usr/include"]));
    let (kind, fields) = fields_of(&package, "m");
    assert_eq!(kind, "dylib");
    assert_eq!(fields.location, Some("/usr/lib/x86_64-linux-gnu/libm.so".to_string()));
    let needs = package.requires.as_ref().unwrap();
    assert_eq!(needs.len(), 1);
    assert_eq!(needs[0].0, "a");
    assert_eq!(needs[0].1.version, Some("1.0".to_string()));
    assert_eq!(package.validate(), Ok(()));
}

#[test]
fn a_document_that_does_not_parse_gives_no_package() {
    let error = generate_from_pkg_config("Name: x", &[], &[]).unwrap_err();
    assert_eq!(
        error,
        GenerateError::Parse(ParseError::MissingRequiredProperty("Version".to_string()))
    );
    assert_eq!(error.message(), "missing required property `Version`");
}

#[test]
fn a_missing_library_gives_no_package() {
    let data = "Name: x\nVersion: 1\nDescription: d\nLibs: -L/lib -lgone";
    let error = generate_from_pkg_config(data, &[], &[]).unwrap_err();
    assert_eq!(
        error,
        GenerateError::Resolve(ResolveError::LibraryNotFound {
            library: "gone".to_string(),
            dylib_paths: strings(&["/lib/libgone.so"]),
            archive_paths: strings(&["/lib/libgone.a"]),
        })
    );
}

#[test]
fn try_from_pkg_config_finds_and_converts() {
    let file = PkgConfigFile {
        name: "x".to_string(),
        version: "1".to_string(),
        description: "d".to_string(),
        link_locations: strings(&["/lib"]),
        link_libraries: strings(&["x"]),
        ..PkgConfigFile::default()
    };
    let present = strings(&["/lib/libx.a"]);
    let package = Package::try_from_pkg_config(file, &[], &present).unwrap();
    let (kind, fields) = fields_of(&package, "x");
    assert_eq!(kind, "archive");
    assert_eq!(fields.location, Some("/lib/libx.a".to_string()));
}
