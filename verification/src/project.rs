use vstd::prelude::*;
use crate::scanner::listed;
use crate::text::texts;

verus! {

/// The kind of project that the names of a directory's entries reveal, by the first marker file
/// found among them: `Cargo.toml`, `package.json`, `pyproject.toml`, `requirements.txt`,
/// `setup.py`, `go.mod`, `pom.xml`, `build.gradle`, `Gemfile`, `composer.json`,
/// `pubspec.yaml`, `Package.swift`; none when there is no marker.
pub open spec fn marker_type(names: Seq<Seq<char>>) -> Option<Seq<char>> {
    if names.contains("Cargo.toml"@) {
        Some("Rust"@)
    } else if names.contains("package.json"@) {
        Some("Node.js"@)
    } else if names.contains("pyproject.toml"@) || names.contains("requirements.txt"@)
        || names.contains("setup.py"@) {
        Some("Python"@)
    } else if names.contains("go.mod"@) {
        Some("Go"@)
    } else if names.contains("pom.xml"@) || names.contains("build.gradle"@) {
        Some("Java"@)
    } else if names.contains("Gemfile"@) {
        Some("Ruby"@)
    } else if names.contains("composer.json"@) {
        Some("PHP"@)
    } else if names.contains("pubspec.yaml"@) {
        Some("Dart"@)
    } else if names.contains("Package.swift"@) {
        Some("Swift"@)
    } else {
        None
    }
}

/// The kind of project shown in reports: the marker's kind, "Unknown" without one.
pub open spec fn project_type_of(names: Seq<Seq<char>>) -> Seq<char> {
    match marker_type(names) {
        Some(kind) => kind,
        None => "Unknown"@,
    }
}

/// A directory is scanned as one project, rather than as a folder of projects, when it holds a
/// marker file or a `.git` entry.
pub open spec fn is_project_root(names: Seq<Seq<char>>) -> bool {
    marker_type(names) is Some || names.contains(".git"@)
}

/// The kind of project whose root directory holds entries named `names` (see
/// `project_type_of`).
pub fn detect_project_type(names: &Vec<String>) -> (r: String)
    ensures
        r@ == project_type_of(texts(names@)),
{
    match marker(names) {
        Some(kind) => kind.to_owned(),
        None => "Unknown".to_owned(),
    }
}

/// Whether the directory holding entries named `names` is one project (see `is_project_root`).
pub fn is_single_project_root(names: &Vec<String>) -> (r: bool)
    ensures
        r == is_project_root(texts(names@)),
{
    marker(names).is_some() || listed(names, ".git")
}

fn marker(names: &Vec<String>) -> (r: Option<&'static str>)
    ensures
        match r {
            Some(kind) => marker_type(texts(names@)) == Some(kind@),
            None => marker_type(texts(names@)) is None,
        },
{
    if listed(names, "Cargo.toml") {
        Some("Rust")
    } else if listed(names, "package.json") {
        Some("Node.js")
    } else if listed(names, "pyproject.toml") || listed(names, "requirements.txt") || listed(
        names,
        "setup.py",
    ) {
        Some("Python")
    } else if listed(names, "go.mod") {
        Some("Go")
    } else if listed(names, "pom.xml") || listed(names, "build.gradle") {
        Some("Java")
    } else if listed(names, "Gemfile") {
        Some("Ruby")
    } else if listed(names, "composer.json") {
        Some("PHP")
    } else if listed(names, "pubspec.yaml") {
        Some("Dart")
    } else if listed(names, "Package.swift") {
        Some("Swift")
    } else {
        None
    }
}

} // verus!
