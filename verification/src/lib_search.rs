//! Resolution of library names: which artifacts stand for a library, given
//! the directories to search and the files that exist.
//!
//! Nothing here touches a file system. A caller names the candidate paths
//! with `library_candidates`, finds out which of them exist, and hands those
//! back as `present`.

use crate::pkg_config::PkgConfigFile;
use crate::table::{distinct_keys, insert, inserted, lemma_inserted};
use crate::text::{
    chars_of, join, join_strings, lemma_prefix_len, lemma_prefix_len_is_first, prefix_len,
    string_of, trim, trim_chars,
};
use vstd::prelude::*;

verus! {

/// The artifacts that stand for one library.
#[derive(Debug, PartialEq, Eq)]
pub enum LibraryLocation {
    Archive(String),
    Dylib(String),
    Both { archive: String, dylib: String },
}

/// The mathematical value of a `LibraryLocation`.
pub ghost enum LibraryLocationView {
    Archive(Seq<char>),
    Dylib(Seq<char>),
    Both { archive: Seq<char>, dylib: Seq<char> },
}

impl View for LibraryLocation {
    type V = LibraryLocationView;

    open spec fn view(&self) -> LibraryLocationView {
        match self {
            LibraryLocation::Archive(path) => LibraryLocationView::Archive(path@),
            LibraryLocation::Dylib(path) => LibraryLocationView::Dylib(path@),
            LibraryLocation::Both { archive, dylib } => LibraryLocationView::Both {
                archive: archive@,
                dylib: dylib@,
            },
        }
    }
}

impl DeepView for LibraryLocation {
    type V = LibraryLocationView;

    open spec fn deep_view(&self) -> LibraryLocationView {
        self@
    }
}

/// Why a library could not be resolved.
#[derive(Debug, PartialEq, Eq)]
pub enum ResolveError {
    /// None of the paths at which one kind of artifact was looked for exists.
    ArtifactNotFound { library: String, paths: Vec<String> },
    /// Neither a shared object nor an archive exists for the library. Holds
    /// the paths at which each was looked for.
    LibraryNotFound { library: String, dylib_paths: Vec<String>, archive_paths: Vec<String> },
}

/// The mathematical value of a `ResolveError`.
pub ghost enum ResolveErrorView {
    ArtifactNotFound { library: Seq<char>, paths: Seq<Seq<char>> },
    LibraryNotFound {
        library: Seq<char>,
        dylib_paths: Seq<Seq<char>>,
        archive_paths: Seq<Seq<char>>,
    },
}

impl View for ResolveError {
    type V = ResolveErrorView;

    open spec fn view(&self) -> ResolveErrorView {
        match self {
            ResolveError::ArtifactNotFound { library, paths } => ResolveErrorView::ArtifactNotFound {
                library: library@,
                paths: paths.deep_view(),
            },
            ResolveError::LibraryNotFound {
                library,
                dylib_paths,
                archive_paths,
            } => ResolveErrorView::LibraryNotFound {
                library: library@,
                dylib_paths: dylib_paths.deep_view(),
                archive_paths: archive_paths.deep_view(),
            },
        }
    }
}

/// That no artifact of `library` is at any of `paths`, in words.
pub open spec fn not_found_message(library: Seq<char>, paths: Seq<Seq<char>>) -> Seq<char> {
    "Could not find required library `"@ + library + "` at paths: `"@ + join(paths, ", "@) + "`"@
}

impl ResolveErrorView {
    /// The error in words. That a library was not found is said once for
    /// its shared object and once for its archive, on a line each.
    pub open spec fn message(self) -> Seq<char> {
        match self {
            ResolveErrorView::ArtifactNotFound { library, paths } => not_found_message(
                library,
                paths,
            ),
            ResolveErrorView::LibraryNotFound { library, dylib_paths, archive_paths } => {
                not_found_message(library, dylib_paths) + "\n"@ + not_found_message(
                    library,
                    archive_paths,
                )
            },
        }
    }
}

/// That no artifact of `library` is at any of `paths`, in words.
fn not_found(library: &String, paths: &Vec<String>) -> (r: String)
    ensures
        r@ == not_found_message(library@, paths.deep_view()),
{
    String::from_str("Could not find required library `").concat(library.as_str()).concat(
        "` at paths: `",
    ).concat(join_strings(paths, ", ").as_str()).concat("`")
}

impl ResolveError {
    /// The error in words.
    pub fn message(&self) -> (r: String)
        ensures
            r@ == self@.message(),
    {
        match self {
            ResolveError::ArtifactNotFound { library, paths } => not_found(library, paths),
            ResolveError::LibraryNotFound { library, dylib_paths, archive_paths } => not_found(
                library,
                dylib_paths,
            ).concat("\n").concat(not_found(library, archive_paths).as_str()),
        }
    }
}

/// The directory that holds the libraries of the machine that `machine`
/// names, white space around the name set aside.
pub open spec fn multiarch_directory(machine: Seq<char>) -> Seq<char> {
    "/usr/lib/"@ + trim(machine)
}

/// The directories to search after those that a package names: the
/// multiarch directory of the machine that the compiler reports, and none
/// where the compiler could not be asked.
pub fn multiarch_lib_paths(machine: Option<&str>) -> (r: Vec<String>)
    ensures
        r.deep_view() == match machine {
            Some(name) => seq![multiarch_directory(name@)],
            None => Seq::empty(),
        },
{
    let mut out: Vec<String> = Vec::new();
    match machine {
        Some(name) => {
            let trimmed = string_of(&trim_chars(&chars_of(name)));
            out.push(String::from_str("/usr/lib/").concat(trimmed.as_str()));
            assert(out.deep_view() =~= seq![multiarch_directory(name@)]);
        },
        None => {
            assert(out.deep_view() =~= Seq::empty());
        },
    }
    out
}

/// The name of the file that holds `library` as an artifact with the given
/// extension.
pub open spec fn file_name(library: Seq<char>, extension: Seq<char>) -> Seq<char> {
    "lib"@ + library + "."@ + extension
}

/// The path of `file` in the directory `dir`: a separator stands between
/// them unless `dir` is empty or ends with one.
pub open spec fn joined(dir: Seq<char>, file: Seq<char>) -> Seq<char> {
    if dir.len() == 0 || dir.last() == '/' {
        dir + file
    } else {
        dir + "/"@ + file
    }
}

/// The paths at which an artifact of `library` is looked for: in each of
/// `search_paths`, then in each of `multiarch`.
pub open spec fn candidates(
    library: Seq<char>,
    extension: Seq<char>,
    search_paths: Seq<Seq<char>>,
    multiarch: Seq<Seq<char>>,
) -> Seq<Seq<char>> {
    Seq::new(
        search_paths.len() + multiarch.len(),
        |i: int|
            joined(
                if i < search_paths.len() {
                    search_paths[i]
                } else {
                    multiarch[i - search_paths.len()]
                },
                file_name(library, extension),
            ),
    )
}

/// The path of `file` in the directory `dir`.
pub fn join_path(dir: &str, file: &str) -> (r: String)
    ensures
        r@ == joined(dir@, file@),
{
    let base = chars_of(dir);
    if base.len() == 0 || base[base.len() - 1] == '/' {
        String::from_str(dir).concat(file)
    } else {
        String::from_str(dir).concat("/").concat(file)
    }
}

/// The paths at which an artifact of `library` is looked for.
pub fn library_candidates(
    library: &str,
    extension: &str,
    search_paths: &[String],
    multiarch: &[String],
) -> (r: Vec<String>)
    ensures
        r.deep_view() == candidates(
            library@,
            extension@,
            search_paths.deep_view(),
            multiarch.deep_view(),
        ),
{
    let file = String::from_str("lib").concat(library).concat(".").concat(extension);
    let ghost all = candidates(
        library@,
        extension@,
        search_paths.deep_view(),
        multiarch.deep_view(),
    );
    let mut out: Vec<String> = Vec::new();
    let mut k: usize = 0;
    assert(out.deep_view() =~= all.take(0));
    while k < search_paths.len()
        invariant
            k <= search_paths.len(),
            file@ == file_name(library@, extension@),
            all == candidates(
                library@,
                extension@,
                search_paths.deep_view(),
                multiarch.deep_view(),
            ),
            out.deep_view() == all.take(k as int),
        decreases search_paths.len() - k,
    {
        let ghost before = out.deep_view();
        let path = join_path(search_paths[k].as_str(), file.as_str());
        assert(search_paths.deep_view()[k as int] == search_paths@[k as int]@);
        assert(path@ == all[k as int]);
        out.push(path);
        assert(out.deep_view() =~= before.push(all[k as int]));
        assert(before.push(all[k as int]) =~= all.take(k + 1));
        k += 1;
    }
    let n: usize = search_paths.len();
    let mut j: usize = 0;
    while j < multiarch.len()
        invariant
            j <= multiarch.len(),
            n == search_paths.len(),
            file@ == file_name(library@, extension@),
            all == candidates(
                library@,
                extension@,
                search_paths.deep_view(),
                multiarch.deep_view(),
            ),
            out.deep_view() == all.take(n + j),
        decreases multiarch.len() - j,
    {
        let ghost before = out.deep_view();
        let path = join_path(multiarch[j].as_str(), file.as_str());
        assert(multiarch.deep_view()[j as int] == multiarch@[j as int]@);
        assert(path@ == all[n + j]);
        out.push(path);
        assert(out.deep_view() =~= before.push(all[n + j]));
        assert(before.push(all[n + j]) =~= all.take(n + j + 1));
        j += 1;
    }
    assert(all.take(n + multiarch.len()) =~= all);
    out
}

/// The first of `paths` that is among `present`.
pub open spec fn first_present(paths: Seq<Seq<char>>, present: Seq<Seq<char>>) -> Option<
    Seq<char>,
> {
    let i = prefix_len(paths, |p: Seq<char>| !present.contains(p));
    if 0 <= i < paths.len() {
        Some(paths[i])
    } else {
        None
    }
}

/// Whether `path` is among `present`.
pub fn is_present(present: &[String], path: &String) -> (r: bool)
    ensures
        r == present.deep_view().contains(path@),
{
    let ghost all = present.deep_view();
    let mut i: usize = 0;
    while i < present.len()
        invariant
            i <= present.len(),
            all == present.deep_view(),
            forall|j: int| 0 <= j < i ==> all[j] != path@,
        decreases present.len() - i,
    {
        assert(all[i as int] == present@[i as int]@);
        if present[i] == *path {
            return true;
        }
        i += 1;
    }
    false
}

/// The artifact of `library` with the given extension, as it is found.
pub open spec fn library_found(
    library: Seq<char>,
    extension: Seq<char>,
    search_paths: Seq<Seq<char>>,
    multiarch: Seq<Seq<char>>,
    present: Seq<Seq<char>>,
) -> Option<Seq<char>> {
    first_present(candidates(library, extension, search_paths, multiarch), present)
}

/// Finds the artifact of `library` with the given extension: the first of
/// its candidate paths that is among `present`, the paths that exist.
pub fn find_library(
    library: &str,
    extension: &str,
    search_paths: &[String],
    multiarch: &[String],
    present: &[String],
) -> (r: Result<String, ResolveError>)
    ensures
        match r {
            Ok(path) => library_found(
                library@,
                extension@,
                search_paths.deep_view(),
                multiarch.deep_view(),
                present.deep_view(),
            ) == Some(path@),
            Err(e) => library_found(
                library@,
                extension@,
                search_paths.deep_view(),
                multiarch.deep_view(),
                present.deep_view(),
            ) is None && e@ == (ResolveErrorView::ArtifactNotFound {
                library: library@,
                paths: candidates(
                    library@,
                    extension@,
                    search_paths.deep_view(),
                    multiarch.deep_view(),
                ),
            }),
        },
{
    let paths = library_candidates(library, extension, search_paths, multiarch);
    let ghost all = paths.deep_view();
    let ghost existing = present.deep_view();
    let mut i: usize = 0;
    while i < paths.len()
        invariant
            i <= paths.len(),
            all == paths.deep_view(),
            all == candidates(
                library@,
                extension@,
                search_paths.deep_view(),
                multiarch.deep_view(),
            ),
            existing == present.deep_view(),
            forall|j: int| 0 <= j < i ==> !existing.contains(#[trigger] all[j]),
        decreases paths.len() - i,
    {
        assert(all[i as int] == paths@[i as int]@);
        if is_present(present, &paths[i]) {
            proof {
                lemma_prefix_len(all, |p: Seq<char>| !existing.contains(p), i as int);
            }
            return Ok(paths[i].clone());
        }
        i += 1;
    }
    proof {
        lemma_prefix_len(all, |p: Seq<char>| !existing.contains(p), all.len() as int);
    }
    Err(ResolveError::ArtifactNotFound { library: String::from_str(library), paths })
}

/// What the search for `library` comes to: a shared object is looked for
/// with the extension `so`, an archive with the extension `a`.
pub open spec fn located(
    library: Seq<char>,
    search_paths: Seq<Seq<char>>,
    multiarch: Seq<Seq<char>>,
    present: Seq<Seq<char>>,
) -> Result<LibraryLocationView, ResolveErrorView> {
    let dylib = library_found(library, "so"@, search_paths, multiarch, present);
    let archive = library_found(library, "a"@, search_paths, multiarch, present);
    match (dylib, archive) {
        (Some(dylib), None) => Ok(LibraryLocationView::Dylib(dylib)),
        (None, Some(archive)) => Ok(LibraryLocationView::Archive(archive)),
        (Some(dylib), Some(archive)) => Ok(LibraryLocationView::Both { archive, dylib }),
        (None, None) => Err(
            ResolveErrorView::LibraryNotFound {
                library,
                dylib_paths: candidates(library, "so"@, search_paths, multiarch),
                archive_paths: candidates(library, "a"@, search_paths, multiarch),
            },
        ),
    }
}

/// The mathematical value of what a search for one library returns.
pub open spec fn location_view(r: Result<LibraryLocation, ResolveError>) -> Result<
    LibraryLocationView,
    ResolveErrorView,
> {
    match r {
        Ok(location) => Ok(location@),
        Err(e) => Err(e@),
    }
}

impl LibraryLocationView {
    /// The artifact to link: the only one, or of two the shared object
    /// where `prefer_dylib` holds and the archive where it does not.
    pub open spec fn preferred_path(self, prefer_dylib: bool) -> Seq<char> {
        match self {
            LibraryLocationView::Archive(path) => path,
            LibraryLocationView::Dylib(path) => path,
            LibraryLocationView::Both { archive, dylib } => if prefer_dylib {
                dylib
            } else {
                archive
            },
        }
    }
}

impl LibraryLocation {
    /// The artifact to link: the only one, or of two the shared object
    /// where `prefer_dylib` holds and the archive where it does not.
    pub fn preferred_path(&self, prefer_dylib: bool) -> (r: String)
        ensures
            r@ == self@.preferred_path(prefer_dylib),
    {
        match self {
            LibraryLocation::Archive(path) => path.clone(),
            LibraryLocation::Dylib(path) => path.clone(),
            LibraryLocation::Both { archive, dylib } => if prefer_dylib {
                dylib.clone()
            } else {
                archive.clone()
            },
        }
    }

    /// Finds the artifacts of `library`: its shared object, its archive, or
    /// both. Fails where neither exists.
    pub fn find(
        library: &str,
        search_paths: &[String],
        multiarch: &[String],
        present: &[String],
    ) -> (r: Result<LibraryLocation, ResolveError>)
        ensures
            location_view(r) == located(
                library@,
                search_paths.deep_view(),
                multiarch.deep_view(),
                present.deep_view(),
            ),
    {
        let dylib = find_library(library, "so", search_paths, multiarch, present);
        let archive = find_library(library, "a", search_paths, multiarch, present);
        match (dylib, archive) {
            (Ok(dylib), Err(_)) => Ok(LibraryLocation::Dylib(dylib)),
            (Err(_), Ok(archive)) => Ok(LibraryLocation::Archive(archive)),
            (Ok(dylib), Ok(archive)) => Ok(LibraryLocation::Both { archive, dylib }),
            (
                Err(ResolveError::ArtifactNotFound { library, paths: dylib_paths }),
                Err(ResolveError::ArtifactNotFound { library: _, paths: archive_paths }),
            ) => Err(ResolveError::LibraryNotFound { library, dylib_paths, archive_paths }),
            (Err(e), Err(_)) => Err(e),
        }
    }
}

/// What the search for the libraries `names` comes to, in order: the
/// location of each, a name that occurs twice being entered once; or the
/// error of the first that cannot be found.
pub open spec fn located_all(
    names: Seq<Seq<char>>,
    search_paths: Seq<Seq<char>>,
    multiarch: Seq<Seq<char>>,
    present: Seq<Seq<char>>,
) -> Result<Seq<(Seq<char>, LibraryLocationView)>, ResolveErrorView>
    decreases names.len(),
{
    if names.len() == 0 {
        Ok(Seq::empty())
    } else {
        match located_all(names.drop_last(), search_paths, multiarch, present) {
            Ok(table) => match located(names.last(), search_paths, multiarch, present) {
                Ok(location) => Ok(inserted(table, names.last(), location)),
                Err(e) => Err(e),
            },
            Err(e) => Err(e),
        }
    }
}

/// The mathematical value of what a search for several libraries returns.
pub open spec fn locations_view(r: Result<Vec<(String, LibraryLocation)>, ResolveError>) -> Result<
    Seq<(Seq<char>, LibraryLocationView)>,
    ResolveErrorView,
> {
    match r {
        Ok(table) => Ok(table.deep_view()),
        Err(e) => Err(e@),
    }
}

/// Finds the artifacts of each library that a package links, searching the
/// directories that the package names and then `multiarch`.
pub fn find_locations(pkg_config: &PkgConfigFile, multiarch: &[String], present: &[String]) -> (r:
    Result<Vec<(String, LibraryLocation)>, ResolveError>)
    ensures
        locations_view(r) == located_all(
            pkg_config@.link_libraries,
            pkg_config@.link_locations,
            multiarch.deep_view(),
            present.deep_view(),
        ),
        r is Ok ==> distinct_keys(r->Ok_0.deep_view()),
{
    let ghost names = pkg_config@.link_libraries;
    let ghost dirs = pkg_config@.link_locations;
    let search_paths = pkg_config.link_locations.as_slice();
    let mut out: Vec<(String, LibraryLocation)> = Vec::new();
    let mut k: usize = 0;
    assert(names.take(0) =~= Seq::empty());
    assert(out.deep_view() =~= Seq::empty());
    assert(search_paths.deep_view() =~= dirs);
    while k < pkg_config.link_libraries.len()
        invariant
            k <= pkg_config.link_libraries.len(),
            names == pkg_config@.link_libraries,
            dirs == pkg_config@.link_locations,
            search_paths.deep_view() == dirs,
            located_all(names.take(k as int), dirs, multiarch.deep_view(), present.deep_view())
                == Ok::<Seq<(Seq<char>, LibraryLocationView)>, ResolveErrorView>(out.deep_view()),
        decreases pkg_config.link_libraries.len() - k,
    {
        let name = &pkg_config.link_libraries[k];
        proof {
            let upto = names.take(k + 1);
            assert(upto.drop_last() =~= names.take(k as int));
            assert(upto.last() == name@);
        }
        match LibraryLocation::find(name.as_str(), search_paths, multiarch, present) {
            Ok(location) => {
                insert(&mut out, name.clone(), location);
            },
            Err(e) => {
                proof {
                    lemma_located_all_fails(names, k + 1, dirs, multiarch.deep_view(), present.deep_view());
                }
                return Err(e);
            },
        }
        k += 1;
    }
    assert(names.take(pkg_config.link_libraries.len() as int) =~= names);
    proof {
        lemma_located_all_distinct(names, dirs, multiarch.deep_view(), present.deep_view());
    }
    Ok(out)
}

/// Every path at which an artifact of one of the libraries `names` is looked
/// for: for each library in turn, those of its shared object and then those
/// of its archive.
pub open spec fn probed(
    names: Seq<Seq<char>>,
    search_paths: Seq<Seq<char>>,
    multiarch: Seq<Seq<char>>,
) -> Seq<Seq<char>>
    decreases names.len(),
{
    if names.len() == 0 {
        Seq::empty()
    } else {
        probed(names.drop_last(), search_paths, multiarch) + candidates(
            names.last(),
            "so"@,
            search_paths,
            multiarch,
        ) + candidates(names.last(), "a"@, search_paths, multiarch)
    }
}

/// Every path at which an artifact of a library that the package links is
/// looked for. Which of these exist is what `find_locations` needs to know.
pub fn probe_paths(pkg_config: &PkgConfigFile, multiarch: &[String]) -> (r: Vec<String>)
    ensures
        r.deep_view() == probed(
            pkg_config@.link_libraries,
            pkg_config@.link_locations,
            multiarch.deep_view(),
        ),
{
    let ghost names = pkg_config@.link_libraries;
    let ghost dirs = pkg_config@.link_locations;
    let search_paths = pkg_config.link_locations.as_slice();
    let mut out: Vec<String> = Vec::new();
    let mut k: usize = 0;
    assert(names.take(0) =~= Seq::empty());
    assert(out.deep_view() =~= Seq::empty());
    assert(search_paths.deep_view() =~= dirs);
    while k < pkg_config.link_libraries.len()
        invariant
            k <= pkg_config.link_libraries.len(),
            names == pkg_config@.link_libraries,
            search_paths.deep_view() == dirs,
            out.deep_view() == probed(names.take(k as int), dirs, multiarch.deep_view()),
        decreases pkg_config.link_libraries.len() - k,
    {
        let name = &pkg_config.link_libraries[k];
        proof {
            let upto = names.take(k + 1);
            assert(upto.drop_last() =~= names.take(k as int));
            assert(upto.last() == name@);
        }
        let mut dylibs = library_candidates(name.as_str(), "so", search_paths, multiarch);
        let mut archives = library_candidates(name.as_str(), "a", search_paths, multiarch);
        let ghost before = out.deep_view();
        let ghost first = dylibs.deep_view();
        let ghost second = archives.deep_view();
        out.append(&mut dylibs);
        assert(out.deep_view() =~= before + first);
        out.append(&mut archives);
        assert(out.deep_view() =~= before + first + second);
        k += 1;
    }
    assert(names.take(pkg_config.link_libraries.len() as int) =~= names);
    out
}

/// No library is located twice.
pub proof fn lemma_located_all_distinct(
    names: Seq<Seq<char>>,
    search_paths: Seq<Seq<char>>,
    multiarch: Seq<Seq<char>>,
    present: Seq<Seq<char>>,
)
    requires
        located_all(names, search_paths, multiarch, present) is Ok,
    ensures
        distinct_keys(located_all(names, search_paths, multiarch, present)->Ok_0),
    decreases names.len(),
{
    if names.len() > 0 {
        lemma_located_all_distinct(names.drop_last(), search_paths, multiarch, present);
        lemma_inserted(
            located_all(names.drop_last(), search_paths, multiarch, present)->Ok_0,
            names.last(),
            located(names.last(), search_paths, multiarch, present)->Ok_0,
        );
    }
}

/// Once the search has failed for the first `k` names, it has failed for
/// all of them, with the same error.
pub proof fn lemma_located_all_fails(
    names: Seq<Seq<char>>,
    k: int,
    search_paths: Seq<Seq<char>>,
    multiarch: Seq<Seq<char>>,
    present: Seq<Seq<char>>,
)
    requires
        0 <= k <= names.len(),
        located_all(names.take(k), search_paths, multiarch, present) is Err,
    ensures
        located_all(names, search_paths, multiarch, present) == located_all(
            names.take(k),
            search_paths,
            multiarch,
            present,
        ),
    decreases names.len() - k,
{
    if k < names.len() {
        let upto = names.take(k + 1);
        assert(upto.drop_last() =~= names.take(k));
        lemma_located_all_fails(names, k + 1, search_paths, multiarch, present);
    } else {
        assert(names.take(k) =~= names);
    }
}

/// `first_present` finds a path exactly where one of the paths is present.
pub proof fn lemma_first_present(paths: Seq<Seq<char>>, present: Seq<Seq<char>>)
    ensures
        first_present(paths, present) is Some <==> exists|i: int|
            0 <= i < paths.len() && present.contains(#[trigger] paths[i]),
        first_present(paths, present) is Some ==> present.contains(
            first_present(paths, present)->Some_0,
        ),
{
    let absent = |p: Seq<char>| !present.contains(p);
    lemma_prefix_len_is_first(paths, absent);
    let n = prefix_len(paths, absent);
    if n < paths.len() {
        assert(present.contains(paths[n]));
    } else {
        assert forall|i: int| 0 <= i < paths.len() implies !present.contains(
            #[trigger] paths[i],
        ) by {
            assert(absent(paths[i]));
        }
    }
}

/// Whether two lists of present paths agree on each of `paths`.
pub open spec fn agree_on(
    paths: Seq<Seq<char>>,
    present: Seq<Seq<char>>,
    other: Seq<Seq<char>>,
) -> bool {
    forall|i: int|
        0 <= i < paths.len() ==> present.contains(#[trigger] paths[i]) == other.contains(paths[i])
}

/// Which of `paths` is found depends only on which of them are present.
pub proof fn lemma_first_present_agrees(
    paths: Seq<Seq<char>>,
    present: Seq<Seq<char>>,
    other: Seq<Seq<char>>,
)
    requires
        agree_on(paths, present, other),
    ensures
        first_present(paths, present) == first_present(paths, other),
{
    lemma_prefix_len_is_first(paths, |p: Seq<char>| !present.contains(p));
    let n = prefix_len(paths, |p: Seq<char>| !present.contains(p));
    assert forall|j: int| 0 <= j < n implies (|p: Seq<char>| !other.contains(p))(
        #[trigger] paths[j],
    ) by {
        assert((|p: Seq<char>| !present.contains(p))(paths[j]));
    }
    lemma_prefix_len(paths, |p: Seq<char>| !other.contains(p), n);
}

/// The search looks at nothing but the probed paths: two lists of present
/// paths that agree on them give the same outcome.
pub proof fn lemma_located_all_looks_at_probed(
    names: Seq<Seq<char>>,
    search_paths: Seq<Seq<char>>,
    multiarch: Seq<Seq<char>>,
    present: Seq<Seq<char>>,
    other: Seq<Seq<char>>,
)
    requires
        agree_on(probed(names, search_paths, multiarch), present, other),
    ensures
        located_all(names, search_paths, multiarch, present) == located_all(
            names,
            search_paths,
            multiarch,
            other,
        ),
    decreases names.len(),
{
    if names.len() > 0 {
        let all = probed(names, search_paths, multiarch);
        let before = probed(names.drop_last(), search_paths, multiarch);
        let dylibs = candidates(names.last(), "so"@, search_paths, multiarch);
        let archives = candidates(names.last(), "a"@, search_paths, multiarch);
        assert forall|i: int| 0 <= i < before.len() implies present.contains(
            #[trigger] before[i],
        ) == other.contains(before[i]) by {
            assert(all[i] == before[i]);
        }
        assert forall|i: int| 0 <= i < dylibs.len() implies present.contains(
            #[trigger] dylibs[i],
        ) == other.contains(dylibs[i]) by {
            assert(all[before.len() + i] == dylibs[i]);
        }
        assert forall|i: int| 0 <= i < archives.len() implies present.contains(
            #[trigger] archives[i],
        ) == other.contains(archives[i]) by {
            assert(all[before.len() + dylibs.len() + i] == archives[i]);
        }
        lemma_located_all_looks_at_probed(
            names.drop_last(),
            search_paths,
            multiarch,
            present,
            other,
        );
        lemma_first_present_agrees(dylibs, present, other);
        lemma_first_present_agrees(archives, present, other);
    }
}

/// Whether an artifact of `library` with the given extension exists: one of
/// its candidate paths is present.
pub open spec fn artifact_exists(
    library: Seq<char>,
    extension: Seq<char>,
    search_paths: Seq<Seq<char>>,
    multiarch: Seq<Seq<char>>,
    present: Seq<Seq<char>>,
) -> bool {
    exists|i: int|
        0 <= i < candidates(library, extension, search_paths, multiarch).len() && present.contains(
            #[trigger] candidates(library, extension, search_paths, multiarch)[i],
        )
}

/// The outcome of a search by what exists: a shared object alone gives
/// `Dylib`, an archive alone `Archive`, both give `Both`, and neither gives
/// an error that names every path that was tried.
pub proof fn lemma_located_by_what_exists(
    library: Seq<char>,
    search_paths: Seq<Seq<char>>,
    multiarch: Seq<Seq<char>>,
    present: Seq<Seq<char>>,
)
    ensures
        ({
            let so = artifact_exists(library, "so"@, search_paths, multiarch, present);
            let a = artifact_exists(library, "a"@, search_paths, multiarch, present);
            let r = located(library, search_paths, multiarch, present);
            &&& so && !a ==> r is Ok && r->Ok_0 is Dylib
            &&& !so && a ==> r is Ok && r->Ok_0 is Archive
            &&& so && a ==> r is Ok && r->Ok_0 is Both
            &&& !so && !a ==> r == Err::<LibraryLocationView, ResolveErrorView>(
                ResolveErrorView::LibraryNotFound {
                    library,
                    dylib_paths: candidates(library, "so"@, search_paths, multiarch),
                    archive_paths: candidates(library, "a"@, search_paths, multiarch),
                },
            )
        }),
{
    lemma_first_present(candidates(library, "so"@, search_paths, multiarch), present);
    lemma_first_present(candidates(library, "a"@, search_paths, multiarch), present);
}

} // verus!
