//! Choose the test framework from project files or a file's extension.
//!
//! A project is recognized by its marker files (`Cargo.toml`,
//! `pyproject.toml`, `package.json`, `go.mod`, ...), looked for in a
//! directory and then in each of its ancestors.

use std::path::Path;
use vstd::prelude::*;
use crate::text::str_eq;

verus! {

/// `std::path::Path`, carried through to the extension lookup.
#[verifier::external_type_specification]
#[verifier::external_body]
pub struct ExPath(Path);

/// `std::path::PathBuf`, the owned form of `Path`: Verus checks the impls
/// that tie the two together and needs both declared.
#[verifier::external_type_specification]
#[verifier::external_body]
pub struct ExPathBuf(std::path::PathBuf);

/// Supported test frameworks.
#[derive(Debug, Clone, Copy, PartialEq, Eq)]
pub enum Framework {
    /// Rust — `cargo test`
    Cargo,
    /// Python — `pytest`
    Pytest,
    /// JavaScript/TypeScript — `jest` or `vitest`
    Jest,
    /// Go — `go test`
    GoTest,
}

/// The display name of a framework.
pub open spec fn framework_name(f: Framework) -> Seq<char> {
    match f {
        Framework::Cargo => "cargo test"@,
        Framework::Pytest => "pytest"@,
        Framework::Jest => "jest/vitest"@,
        Framework::GoTest => "go test"@,
    }
}

impl Framework {
    /// Human-readable name for display in the UI.
    pub fn display_name(self) -> (r: &'static str)
        ensures
            r@ == framework_name(self),
    {
        match self {
            Framework::Cargo => "cargo test",
            Framework::Pytest => "pytest",
            Framework::Jest => "jest/vitest",
            Framework::GoTest => "go test",
        }
    }
}

/// Which marker files a directory holds.
#[derive(Debug, Clone, Copy, PartialEq, Eq)]
pub struct ProjectMarkers {
    pub cargo_toml: bool,
    pub go_mod: bool,
    pub pyproject_toml: bool,
    pub setup_py: bool,
    pub setup_cfg: bool,
    pub package_json: bool,
}

/// The framework a directory's marker files show, by priority:
/// `Cargo.toml` > `go.mod` > `pyproject.toml`/`setup.py`/`setup.cfg` >
/// `package.json`.
pub open spec fn framework_for_markers(m: ProjectMarkers) -> Option<Framework> {
    if m.cargo_toml {
        Some(Framework::Cargo)
    } else if m.go_mod {
        Some(Framework::GoTest)
    } else if m.pyproject_toml || m.setup_py || m.setup_cfg {
        Some(Framework::Pytest)
    } else if m.package_json {
        Some(Framework::Jest)
    } else {
        None
    }
}

/// The framework of the first directory, from the start upwards, whose
/// markers show one.
pub open spec fn first_framework(dirs: Seq<ProjectMarkers>) -> Option<Framework>
    decreases dirs.len(),
{
    if dirs.len() == 0 {
        None
    } else {
        match framework_for_markers(dirs[0]) {
            Some(f) => Some(f),
            None => first_framework(dirs.drop_first()),
        }
    }
}

/// Check a single directory's marker files.
///
/// Priority order: Cargo.toml > go.mod > pyproject.toml/setup.py > package.json
pub fn detect_in_dir(markers: &ProjectMarkers) -> (r: Option<Framework>)
    ensures
        r == framework_for_markers(*markers),
{
    if markers.cargo_toml {
        return Some(Framework::Cargo);
    }
    if markers.go_mod {
        return Some(Framework::GoTest);
    }
    if markers.pyproject_toml || markers.setup_py || markers.setup_cfg {
        return Some(Framework::Pytest);
    }
    if markers.package_json {
        return Some(Framework::Jest);
    }
    None
}

/// Walk up the directory tree looking for framework markers: `dirs` holds
/// the markers of a directory and then of each of its ancestors in turn.
pub fn detect_in_ancestors(dirs: &[ProjectMarkers]) -> (r: Option<Framework>)
    ensures
        r == first_framework(dirs@),
{
    let mut i: usize = 0;
    assert(dirs@.skip(0) =~= dirs@);
    while i < dirs.len()
        invariant
            i <= dirs@.len(),
            first_framework(dirs@) == first_framework(dirs@.skip(i as int)),
        decreases dirs@.len() - i,
    {
        assert(dirs@.skip(i as int)[0] == dirs@[i as int]);
        match detect_in_dir(&dirs[i]) {
            Some(f) => {
                return Some(f);
            },
            None => {},
        }
        assert(dirs@.skip(i as int).drop_first() =~= dirs@.skip(i + 1));
        i = i + 1;
    }
    None
}

/// The framework a file extension shows.
pub open spec fn framework_for_ext(ext: Seq<char>) -> Option<Framework> {
    if ext == "rs"@ {
        Some(Framework::Cargo)
    } else if ext == "py"@ {
        Some(Framework::Pytest)
    } else if ext == "js"@ || ext == "jsx"@ || ext == "ts"@ || ext == "tsx"@ || ext == "mjs"@
        || ext == "cjs"@ {
        Some(Framework::Jest)
    } else if ext == "go"@ {
        Some(Framework::GoTest)
    } else {
        None
    }
}

/// The framework a file extension (without its dot) shows.
pub fn framework_for_extension(ext: &str) -> (r: Option<Framework>)
    ensures
        r == framework_for_ext(ext@),
{
    if str_eq(ext, "rs") {
        Some(Framework::Cargo)
    } else if str_eq(ext, "py") {
        Some(Framework::Pytest)
    } else if str_eq(ext, "js") || str_eq(ext, "jsx") || str_eq(ext, "ts") || str_eq(ext, "tsx")
        || str_eq(ext, "mjs") || str_eq(ext, "cjs") {
        Some(Framework::Jest)
    } else if str_eq(ext, "go") {
        Some(Framework::GoTest)
    } else {
        None
    }
}

/// The extension of a path, without its dot, as `Path::extension` finds it,
/// when there is one and it is valid UTF-8 (`OsStr::to_str`).
pub uninterp spec fn path_ext(path: &Path) -> Option<Seq<char>>;

/// Calls `Path::extension` and `OsStr::to_str`; the contract names the text
/// found (or its absence) as [`path_ext`] of the path and claims nothing more
/// about it.
#[verifier::external_body]
fn path_extension(path: &Path) -> (r: Option<String>)
    ensures
        r.deep_view() == path_ext(path),
{
    path.extension().and_then(|e| e.to_str()).map(|e| e.to_string())
}

/// Detect framework from a file extension alone (fallback when no
/// project marker is found).
pub fn detect_from_extension(path: &Path) -> (r: Option<Framework>)
    ensures
        r == (match path_ext(path) {
            Some(e) => framework_for_ext(e),
            None => None,
        }),
{
    match path_extension(path) {
        Some(ext) => framework_for_extension(ext.as_str()),
        None => None,
    }
}

// ---------------------------------------------------------------------------
// Laws

/// Marker priority: `Cargo.toml` decides for Rust; otherwise `go.mod` for Go;
/// otherwise any one of `pyproject.toml`, `setup.py` or `setup.cfg` makes a
/// Python project; otherwise `package.json` a JavaScript one; a directory
/// with none of these shows no framework.
pub proof fn law_marker_priority(m: ProjectMarkers)
    ensures
        m.cargo_toml ==> framework_for_markers(m) == Some(Framework::Cargo),
        !m.cargo_toml && m.go_mod ==> framework_for_markers(m) == Some(Framework::GoTest),
        !m.cargo_toml && !m.go_mod && m.pyproject_toml ==> framework_for_markers(m) == Some(
            Framework::Pytest,
        ),
        !m.cargo_toml && !m.go_mod && m.setup_py ==> framework_for_markers(m) == Some(
            Framework::Pytest,
        ),
        !m.cargo_toml && !m.go_mod && m.setup_cfg ==> framework_for_markers(m) == Some(
            Framework::Pytest,
        ),
        !m.cargo_toml && !m.go_mod && !m.pyproject_toml && !m.setup_py && !m.setup_cfg
            && m.package_json ==> framework_for_markers(m) == Some(Framework::Jest),
        !m.cargo_toml && !m.go_mod && !m.pyproject_toml && !m.setup_py && !m.setup_cfg
            && !m.package_json ==> framework_for_markers(m) is None,
{
}

/// The nearest directory with a marker decides: directories before it that
/// show no framework are passed over, and those after it are not looked at.
pub proof fn law_nearest_marker_decides(dirs: Seq<ProjectMarkers>, i: int)
    requires
        0 <= i < dirs.len(),
        framework_for_markers(dirs[i]) is Some,
        forall|j: int| 0 <= j < i ==> framework_for_markers(#[trigger] dirs[j]) is None,
    ensures
        first_framework(dirs) == framework_for_markers(dirs[i]),
    decreases i,
{
    if i > 0 {
        let rest = dirs.drop_first();
        assert forall|j: int| 0 <= j < i - 1 implies framework_for_markers(#[trigger] rest[j]) is None by {
            assert(rest[j] == dirs[j + 1]);
        }
        assert(framework_for_markers(dirs[0]) is None);
        law_nearest_marker_decides(rest, i - 1);
    }
}

} // verus!
