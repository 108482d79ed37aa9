use cps_deps::cps::{
    Component, ComponentFields, Configuration, LanguageStringList, MaybeComponent, Package,
    Platform, Requirement, ValidationError, CPS_VERSION,
};

fn strings(items: &[&str]) -> Vec<String> {
    items.iter().map(|s| s.to_string()).collect()
}

fn located(location: &str) -> Configuration {
    Configuration { location: Some(location.to_string()), ..Configuration::default() }
}

fn requiring(target: &str) -> Configuration {
    Configuration { requires: Some(strings(&[target])), ..Configuration::default() }
}

fn package(components: Vec<(String, MaybeComponent)>) -> Package {
    Package { name: "p".to_string(), components, ..Package::default() }
}

fn component(name: &str, component: Component) -> (String, MaybeComponent) {
    (name.to_string(), MaybeComponent::Component(component))
}

#[test]
fn test_parse_sample_cps() {
    let tool: serde_json::Value =
        serde_json::from_str(r#"{"type": "exe", "location": "@prefix@/bin/sample-tool"}"#)
            .unwrap();
    let sample = Package {
        name: "sample".to_string(),
        description: Some("Sample CPS".to_string()),
        version: Some("1.2.0".to_string()),
        compat_version: Some("0.8.0".to_string()),
        cps_version: "0.11.0".to_string(),
        platform: Some(Platform {
            isa: Some("x86_64".to_string()),
            kernel: Some("linux".to_string()),
            c_runtime_vendor: Some("gnu".to_string()),
            c_runtime_version: Some("2.20".to_string()),
            jvm_version: Some("1.6".to_string()),
            ..Platform::default()
        }),
        configurations: Some(strings(&["optimized", "debug"])),
        default_components: Some(strings(&["sample"])),
        components: vec![
            component(
                "sample-core",
                Component::Interface(ComponentFields {
                    definitions: Some(LanguageStringList::List(strings(&["SAMPLE"]))),
                    includes: Some(LanguageStringList::List(strings(&["@prefix@/include"]))),
                    ..ComponentFields::default()
                }),
            ),
            component(
                "sample",
                Component::Interface(ComponentFields {
                    configurations: Some(vec![
                        ("shared".to_string(), requiring(":sample-shared")),
                        ("static".to_string(), requiring(":sample-static")),
                    ]),
                    ..ComponentFields::default()
                }),
            ),
            component(
                "sample-shared",
                Component::Dylib(ComponentFields {
                    requires: Some(strings(&[":sample-core"])),
                    configurations: Some(vec![
                        ("optimized".to_string(), located("@prefix@/lib64/libsample.so.1.2.0")),
                        ("debug".to_string(), located("@prefix@/lib64/libsample_d.so.1.2.0")),
                    ]),
                    ..ComponentFields::default()
                }),
            ),
            component(
                "sample-static",
                Component::Archive(ComponentFields {
                    definitions: Some(LanguageStringList::List(strings(&["SAMPLE_STATIC"]))),
                    requires: Some(strings(&[":sample-core"])),
                    configurations: Some(vec![
                        ("optimized".to_string(), located("@prefix@/lib64/libsample.a")),
                        ("debug".to_string(), located("@prefix@/lib64/libsample_d.a")),
                    ]),
                    ..ComponentFields::default()
                }),
            ),
            ("sample-tool".to_string(), MaybeComponent::Other(tool)),
            component(
                "sample-java",
                Component::Jar(ComponentFields {
                    location: Some("@prefix@/share/java/sample.jar".to_string()),
                    ..ComponentFields::default()
                }),
            ),
        ],
        ..Package::default()
    };
    assert_eq!(sample.validate(), Ok(()));
}

#[test]
fn default_package_is_stamped_with_the_supported_version() {
    let package = Package::default();
    assert_eq!(package.cps_version, "0.11.0");
    assert_eq!(package.cps_version, CPS_VERSION);
    assert_eq!(package.name, "");
    assert!(package.components.is_empty());
    assert!(package.version.is_none());
    assert!(package.default_components.is_none());
    assert_eq!(package.validate(), Ok(()));
}

#[test]
fn another_version_is_refused() {
    let mut package = package(vec![component(
        "a",
        Component::Archive(ComponentFields {
            location: Some("/lib/liba.a".to_string()),
            ..ComponentFields::default()
        }),
    )]);
    assert_eq!(package.validate(), Ok(()));
    package.cps_version = "0.10.0".to_string();
    assert_eq!(
        package.validate(),
        Err(ValidationError::UnsupportedVersion("0.10.0".to_string()))
    );
    package.cps_version = String::new();
    assert_eq!(package.validate(), Err(ValidationError::UnsupportedVersion(String::new())));
}

#[test]
fn another_version_is_refused_before_a_missing_location() {
    let mut package = package(vec![component("a", Component::Archive(ComponentFields::default()))]);
    package.cps_version = "1.0.0".to_string();
    assert_eq!(
        package.validate(),
        Err(ValidationError::UnsupportedVersion("1.0.0".to_string()))
    );
}

#[test]
fn archive_without_location_is_refused() {
    let package = package(vec![component("a", Component::Archive(ComponentFields::default()))]);
    assert_eq!(package.validate(), Err(ValidationError::MissingLocation("a".to_string())));
}

#[test]
fn archive_with_location_in_every_configuration_is_accepted() {
    let fields = ComponentFields {
        configurations: Some(vec![
            ("debug".to_string(), located("/lib/liba_d.a")),
            ("release".to_string(), located("/lib/liba.a")),
        ]),
        ..ComponentFields::default()
    };
    assert!(fields.has_location());
    let package = package(vec![component("a", Component::Archive(fields))]);
    assert_eq!(package.validate(), Ok(()));
}

#[test]
fn archive_with_location_in_some_configurations_is_refused() {
    let fields = ComponentFields {
        configurations: Some(vec![
            ("debug".to_string(), located("/lib/liba_d.a")),
            ("release".to_string(), Configuration::default()),
        ]),
        ..ComponentFields::default()
    };
    assert!(!fields.has_location());
    let package = package(vec![component("a", Component::Archive(fields))]);
    assert_eq!(package.validate(), Err(ValidationError::MissingLocation("a".to_string())));
}

#[test]
fn has_location_looks_at_the_component_first() {
    let fields = ComponentFields {
        location: Some("/lib/liba.a".to_string()),
        configurations: Some(vec![("debug".to_string(), Configuration::default())]),
        ..ComponentFields::default()
    };
    assert!(fields.has_location());
    assert!(!ComponentFields::default().has_location());
    let none_given = ComponentFields { configurations: Some(vec![]), ..ComponentFields::default() };
    assert!(!none_given.has_location());
}

#[test]
fn archive_with_an_empty_table_of_configurations_is_refused() {
    let fields = ComponentFields { configurations: Some(vec![]), ..ComponentFields::default() };
    let package = package(vec![component("a", Component::Archive(fields))]);
    assert_eq!(package.validate(), Err(ValidationError::MissingLocation("a".to_string())));
}

#[test]
fn every_kind_with_an_artifact_needs_a_location() {
    for (kind, needed) in [
        (Component::Archive(ComponentFields::default()), true),
        (Component::Dylib(ComponentFields::default()), true),
        (Component::Module(ComponentFields::default()), true),
        (Component::Jar(ComponentFields::default()), true),
        (Component::Interface(ComponentFields::default()), false),
        (Component::Symbolic(ComponentFields::default()), false),
        (Component::Unknwon, false),
    ] {
        let package = package(vec![component("c", kind)]);
        if needed {
            assert_eq!(package.validate(), Err(ValidationError::MissingLocation("c".to_string())));
        } else {
            assert_eq!(package.validate(), Ok(()));
        }
    }
}

#[test]
fn other_values_need_no_location() {
    let other = MaybeComponent::Other(serde_json::Value::Null);
    assert!(!other.lacks_location());
    let package = package(vec![("x".to_string(), other)]);
    assert_eq!(package.validate(), Ok(()));
}

#[test]
fn the_first_component_without_location_is_named() {
    let package = package(vec![
        component("ok", Component::Interface(ComponentFields::default())),
        component("first", Component::Dylib(ComponentFields::default())),
        component("second", Component::Jar(ComponentFields::default())),
    ]);
    assert_eq!(package.validate(), Err(ValidationError::MissingLocation("first".to_string())));
}

#[test]
fn any_language_map_files_the_list_under_the_star() {
    match LanguageStringList::any_language_map(strings(&["-O2", "-g"])) {
        LanguageStringList::LanguageMap(lists) => {
            assert_eq!(lists, vec![("*".to_string(), strings(&["-O2", "-g"]))]);
        }
        other => panic!("unexpected: {:?}", other),
    }
}

#[test]
fn components_from_a_location() {
    match MaybeComponent::from_dylib_location("/lib/libz.so") {
        MaybeComponent::Component(Component::Dylib(fields)) => {
            assert_eq!(fields.location, Some("/lib/libz.so".to_string()));
            assert!(fields.requires.is_none());
            assert!(fields.configurations.is_none());
        }
        other => panic!("unexpected: {:?}", other),
    }
    match MaybeComponent::from_archive_location("/lib/libz.a") {
        MaybeComponent::Component(Component::Archive(fields)) => {
            assert_eq!(fields.location, Some("/lib/libz.a".to_string()));
            assert!(fields.link_flags.is_none());
        }
        other => panic!("unexpected: {:?}", other),
    }
}

#[test]
fn defaults_say_nothing() {
    let requirement = Requirement::default();
    assert!(requirement.version.is_none() && requirement.components.is_none());
    assert!(requirement.hints.is_none());
    let platform = Platform::default();
    assert!(platform.isa.is_none() && platform.kernel.is_none());
    let configuration = Configuration::default();
    assert!(configuration.location.is_none() && configuration.requires.is_none());
}

#[test]
fn validation_messages() {
    assert_eq!(
        ValidationError::UnsupportedVersion("0.9.0".to_string()).message(),
        "Unsupported CPS version: 0.9.0"
    );
    assert_eq!(
        ValidationError::MissingLocation("z".to_string()).message(),
        "Component `z` is missing attribute `location`"
    );
}
