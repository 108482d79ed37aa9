use cps_deps::lib_search::{
    find_library, find_locations, is_present, join_path, library_candidates, multiarch_lib_paths,
    probe_paths, LibraryLocation, ResolveError,
};
use cps_deps::pkg_config::PkgConfigFile;

fn strings(items: &[&str]) -> Vec<String> {
    items.iter().map(|s| s.to_string()).collect()
}

fn package(locations: &[&str], libraries: &[&str]) -> PkgConfigFile {
    PkgConfigFile {
        name: "pkg".to_string(),
        version: "1".to_string(),
        description: "d".to_string(),
        link_locations: strings(locations),
        link_libraries: strings(libraries),
        ..PkgConfigFile::default()
    }
}

#[test]
fn multiarch_path_is_under_usr_lib() {
    assert_eq!(
        multiarch_lib_paths(Some("x86_64-linux-gnu\n")),
        strings(&["/usr/lib/x86_64-linux-gnu"])
    );
    assert_eq!(multiarch_lib_paths(Some("")), strings(&["/usr/lib/"]));
    assert_eq!(multiarch_lib_paths(None), Vec::<String>::new());
}

#[test]
fn join_path_adds_a_separator_where_one_is_missing() {
    assert_eq!(join_path("/usr/lib", "libz.so"), "/usr/lib/libz.so");
    assert_eq!(join_path("/usr/lib/", "libz.so"), "/usr/lib/libz.so");
    assert_eq!(join_path("", "libz.so"), "libz.so");
    assert_eq!(join_path("/", "libz.so"), "/libz.so");
    for dir in ["/usr/lib", "/usr/lib/", "", "/", "rel", "a/b/"] {
        let expected = std::path::Path::new(dir).join("libz.a");
        assert_eq!(join_path(dir, "libz.a"), expected.to_str().unwrap());
    }
}

#[test]
fn candidates_follow_the_search_order() {
    let paths = library_candidates(
        "z",
        "so",
        &strings(&["/opt/lib", "/usr/local/lib/"]),
        &strings(&["/usr/lib/x86_64-linux-gnu"]),
    );
    assert_eq!(
        paths,
        strings(&[
            "/opt/lib/libz.so",
            "/usr/local/lib/libz.so",
            "/usr/lib/x86_64-linux-gnu/libz.so"
        ])
    );
    assert_eq!(library_candidates("z", "a", &[], &[]), Vec::<String>::new());
}

#[test]
fn is_present_compares_whole_paths() {
    let present = strings(&["/a/libz.so", "/b/libz.a"]);
    assert!(is_present(&present, &"/a/libz.so".to_string()));
    assert!(!is_present(&present, &"/a/libz.s".to_string()));
    assert!(!is_present(&[], &"/a/libz.so".to_string()));
}

#[test]
fn find_library_takes_the_first_that_exists() {
    let search = strings(&["/one", "/two"]);
    let multiarch = strings(&["/usr/lib/arch"]);
    let present = strings(&["/usr/lib/arch/libz.so", "/two/libz.so"]);
    assert_eq!(
        find_library("z", "so", &search, &multiarch, &present),
        Ok("/two/libz.so".to_string())
    );
    let only_multiarch = strings(&["/usr/lib/arch/libz.so"]);
    assert_eq!(
        find_library("z", "so", &search, &multiarch, &only_multiarch),
        Ok("/usr/lib/arch/libz.so".to_string())
    );
}

#[test]
fn find_library_names_every_path_it_tried() {
    let search = strings(&["/one", "/two"]);
    let multiarch = strings(&["/usr/lib/arch"]);
    let present = strings(&["/one/libz.so"]);
    assert_eq!(
        find_library("z", "a", &search, &multiarch, &present),
        Err(ResolveError::ArtifactNotFound {
            library: "z".to_string(),
            paths: strings(&["/one/libz.a", "/two/libz.a", "/usr/lib/arch/libz.a"]),
        })
    );
}

#[test]
fn find_gives_dylib_when_only_the_shared_object_exists() {
    let search = strings(&["/lib"]);
    let present = strings(&["/lib/libz.so"]);
    assert_eq!(
        LibraryLocation::find("z", &search, &[], &present),
        Ok(LibraryLocation::Dylib("/lib/libz.so".to_string()))
    );
}

#[test]
fn find_gives_archive_when_only_the_archive_exists() {
    let search = strings(&["/lib"]);
    let present = strings(&["/lib/libz.a"]);
    assert_eq!(
        LibraryLocation::find("z", &search, &[], &present),
        Ok(LibraryLocation::Archive("/lib/libz.a".to_string()))
    );
}

#[test]
fn find_gives_both_when_both_exist() {
    let search = strings(&["/lib", "/other"]);
    let present = strings(&["/other/libz.a", "/lib/libz.so"]);
    assert_eq!(
        LibraryLocation::find("z", &search, &[], &present),
        Ok(LibraryLocation::Both {
            archive: "/other/libz.a".to_string(),
            dylib: "/lib/libz.so".to_string()
        })
    );
}

#[test]
fn find_fails_when_neither_exists() {
    let search = strings(&["/lib"]);
    let multiarch = strings(&["/usr/lib/arch"]);
    let present = strings(&["/lib/liby.so"]);
    let error = LibraryLocation::find("z", &search, &multiarch, &present).unwrap_err();
    assert_eq!(
        error,
        ResolveError::LibraryNotFound {
            library: "z".to_string(),
            dylib_paths: strings(&["/lib/libz.so", "/usr/lib/arch/libz.so"]),
            archive_paths: strings(&["/lib/libz.a", "/usr/lib/arch/libz.a"]),
        }
    );
    assert_eq!(
        error.message(),
        "Could not find required library `z` at paths: `/lib/libz.so, /usr/lib/arch/libz.so`\n\
         Could not find required library `z` at paths: `/lib/libz.a, /usr/lib/arch/libz.a`"
    );
}

#[test]
fn artifact_not_found_message() {
    let error = ResolveError::ArtifactNotFound { library: "z".to_string(), paths: vec![] };
    assert_eq!(error.message(), "Could not find required library `z` at paths: ``");
}

#[test]
fn preferred_path_takes_the_wanted_kind_of_two() {
    let both = LibraryLocation::Both { archive: "x.a".to_string(), dylib: "x.so".to_string() };
    assert_eq!(both.preferred_path(true), "x.so");
    assert_eq!(both.preferred_path(false), "x.a");
    assert_eq!(LibraryLocation::Archive("y.a".to_string()).preferred_path(true), "y.a");
    assert_eq!(LibraryLocation::Dylib("y.so".to_string()).preferred_path(false), "y.so");
}

#[test]
fn find_locations_keeps_the_link_order() {
    let file = package(&["/lib"], &["b", "a", "b"]);
    let present = strings(&["/lib/liba.a", "/lib/libb.so"]);
    assert_eq!(
        find_locations(&file, &[], &present),
        Ok(vec![
            ("b".to_string(), LibraryLocation::Dylib("/lib/libb.so".to_string())),
            ("a".to_string(), LibraryLocation::Archive("/lib/liba.a".to_string())),
        ])
    );
    assert_eq!(find_locations(&package(&["/lib"], &[]), &[], &present), Ok(vec![]));
}

#[test]
fn find_locations_fails_with_the_first_library_that_is_missing() {
    let file = package(&["/lib"], &["a", "m1", "m2"]);
    let present = strings(&["/lib/liba.a"]);
    assert_eq!(
        find_locations(&file, &[], &present),
        Err(ResolveError::LibraryNotFound {
            library: "m1".to_string(),
            dylib_paths: strings(&["/lib/libm1.so"]),
            archive_paths: strings(&["/lib/libm1.a"]),
        })
    );
}

#[test]
fn probe_paths_lists_every_candidate() {
    let file = package(&["/lib"], &["a", "b"]);
    assert_eq!(
        probe_paths(&file, &strings(&["/m"])),
        strings(&[
            "/lib/liba.so",
            "/m/liba.so",
            "/lib/liba.a",
            "/m/liba.a",
            "/lib/libb.so",
            "/m/libb.so",
            "/lib/libb.a",
            "/m/libb.a"
        ])
    );
}

#[test]
fn only_the_probed_paths_matter() {
    let file = package(&["/lib"], &["a", "b"]);
    let multiarch = strings(&["/m"]);
    let all = strings(&["/lib/liba.so", "/elsewhere/liba.a", "/m/libb.a", "/lib/libc.so"]);
    let probed = probe_paths(&file, &multiarch);
    let seen: Vec<String> = all.iter().filter(|p| probed.contains(p)).cloned().collect();
    assert_eq!(seen, strings(&["/lib/liba.so", "/m/libb.a"]));
    assert_eq!(
        find_locations(&file, &multiarch, &all),
        find_locations(&file, &multiarch, &seen)
    );
    assert_eq!(
        find_locations(&file, &multiarch, &seen),
        Ok(vec![
            ("a".to_string(), LibraryLocation::Dylib("/lib/liba.so".to_string())),
            ("b".to_string(), LibraryLocation::Archive("/m/libb.a".to_string())),
        ])
    );
}
