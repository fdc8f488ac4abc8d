//! The skeleton of a new package.
//!
//! A package is laid out in a directory that must be empty. The layout is
//! fixed but for the package's name, and is given here as a plan: the
//! steps to take, in order, each with a path below the package's root.
//! Taking them is the caller's part, and so is turning the build
//! descriptor into text.

use vstd::prelude::*;
use std::collections::HashMap;

verus! {

/// The text of the entry-point module, `main.py`.
pub const MAIN_CONTENTS: &'static str =
    "def main():\n    print(\"Hello, world!\")\n\nif __name__ == \"__main__\":\n    main()\n";

/// The text of the sample test, `test_sample.py`.
pub const TEST_SAMPLE_CONTENTS: &'static str =
    "import pytest\n\ndef inc(x):\n    return x + 1\n\n@pytest.mark.xfail(reason = \"Bug with arithmetic\")\ndef test_answer():\n    assert inc(3) == 5\n";

/// The text of `setup.py`.
pub const SETUP_PY_CONTENTS: &'static str =
    "from setuptools import setup\n\nif __name__ == \"__main__\":\n    setup()\n";

/// The `build-system` table of the build descriptor.
#[derive(Debug, PartialEq, Eq)]
pub struct BuildSystem {
    pub requires: Vec<String>,
    pub build_backend: String,
}

/// The `project` table of the build descriptor.
#[derive(Debug, PartialEq, Eq)]
pub struct Project {
    pub name: String,
    pub version: String,
    pub authors: Option<Vec<String>>,
    pub description: String,
    pub readme: String,
    pub license: Option<HashMap<String, String>>,
    pub requires_python: String,
    pub classifiers: Vec<String>,
}

/// The build descriptor of a package, `pyproject.toml`.
#[derive(Debug, PartialEq, Eq)]
pub struct PyProject {
    pub build_system: BuildSystem,
    pub project: Project,
}

/// One step of laying out a package. A path is given by its components,
/// from the package's root down.
#[derive(Debug, PartialEq, Eq)]
pub enum ScaffoldStep {
    /// Create the directory at `path`, and those above it that are
    /// missing.
    CreateDirAll { path: Vec<String> },
    /// Create the directory at `path`, below a directory that exists.
    CreateDir { path: Vec<String> },
    /// Create the file at `path` and write `contents` to it.
    WriteFile { path: Vec<String>, contents: String },
    /// Create the file at `path` and write the descriptor to it, as TOML.
    WriteDescriptor { path: Vec<String>, descriptor: PyProject },
    /// Make the package's root a version-control repository.
    InitRepository,
}

/// Why a package is not laid out.
#[derive(Clone, Copy, Debug, PartialEq, Eq, Structural)]
pub enum ScaffoldError {
    /// The directory for the package holds something already.
    DirectoryNotEmpty,
}

impl ScaffoldError {
    /// One line that tells a person what went wrong.
    pub fn message(&self) -> (text: &'static str)
        ensures
            text@ == "Directory is not empty"@,
    {
        "Directory is not empty"
    }
}

/// A `build-system` table, its strings as sequences of characters.
pub struct BuildSystemView {
    pub requires: Seq<Seq<char>>,
    pub build_backend: Seq<char>,
}

/// A `project` table, its strings as sequences of characters.
pub struct ProjectView {
    pub name: Seq<char>,
    pub version: Seq<char>,
    pub authors: Option<Seq<Seq<char>>>,
    pub description: Seq<char>,
    pub readme: Seq<char>,
    pub license: Option<Map<Seq<char>, Seq<char>>>,
    pub requires_python: Seq<char>,
    pub classifiers: Seq<Seq<char>>,
}

/// A build descriptor, its strings as sequences of characters.
pub struct PyProjectView {
    pub build_system: BuildSystemView,
    pub project: ProjectView,
}

/// A step, its path and its texts as sequences of characters.
pub enum ScaffoldStepView {
    CreateDirAll { path: Seq<Seq<char>> },
    CreateDir { path: Seq<Seq<char>> },
    WriteFile { path: Seq<Seq<char>>, contents: Seq<char> },
    WriteDescriptor { path: Seq<Seq<char>>, descriptor: PyProjectView },
    InitRepository,
}

impl View for BuildSystem {
    type V = BuildSystemView;

    open spec fn view(&self) -> BuildSystemView {
        BuildSystemView {
            requires: self.requires.deep_view(),
            build_backend: self.build_backend@,
        }
    }
}

impl View for Project {
    type V = ProjectView;

    open spec fn view(&self) -> ProjectView {
        ProjectView {
            name: self.name@,
            version: self.version@,
            authors: match self.authors {
                Some(authors) => Some(authors.deep_view()),
                None => None,
            },
            description: self.description@,
            readme: self.readme@,
            license: match self.license {
                Some(license) => Some(license.deep_view()),
                None => None,
            },
            requires_python: self.requires_python@,
            classifiers: self.classifiers.deep_view(),
        }
    }
}

impl View for PyProject {
    type V = PyProjectView;

    open spec fn view(&self) -> PyProjectView {
        PyProjectView { build_system: self.build_system@, project: self.project@ }
    }
}

impl View for ScaffoldStep {
    type V = ScaffoldStepView;

    open spec fn view(&self) -> ScaffoldStepView {
        match *self {
            ScaffoldStep::CreateDirAll { path } => ScaffoldStepView::CreateDirAll {
                path: path.deep_view(),
            },
            ScaffoldStep::CreateDir { path } => ScaffoldStepView::CreateDir {
                path: path.deep_view(),
            },
            ScaffoldStep::WriteFile { path, contents } => ScaffoldStepView::WriteFile {
                path: path.deep_view(),
                contents: contents@,
            },
            ScaffoldStep::WriteDescriptor { path, descriptor } => ScaffoldStepView::WriteDescriptor {
                path: path.deep_view(),
                descriptor: descriptor@,
            },
            ScaffoldStep::InitRepository => ScaffoldStepView::InitRepository,
        }
    }
}

impl DeepView for ScaffoldStep {
    type V = ScaffoldStepView;

    open spec fn deep_view(&self) -> ScaffoldStepView {
        self@
    }
}

/// The build descriptor that a new package named `name` starts with:
/// built by setuptools, at version 0.1.0, for Python 3.7 and later, with
/// no authors and no license named yet.
pub open spec fn descriptor_of(name: Seq<char>) -> PyProjectView {
    PyProjectView {
        build_system: BuildSystemView {
            requires: seq!["setuptools>=61.0"@, "wheel"@],
            build_backend: "setuptools.build_meta"@,
        },
        project: ProjectView {
            name,
            version: "0.1.0"@,
            authors: None,
            description: ""@,
            readme: ""@,
            license: None,
            requires_python: ">=3.7"@,
            classifiers: seq!["Programming Language :: Python :: 3"@],
        },
    }
}

/// The steps that lay out a package named `name`: the source module with
/// its entry point, the tests with a sample, the build descriptor,
/// `setup.py`, the repository, and last an empty manifest.
pub open spec fn plan_of(name: Seq<char>) -> Seq<ScaffoldStepView> {
    seq![
        ScaffoldStepView::CreateDirAll { path: seq!["src"@, name] },
        ScaffoldStepView::WriteFile { path: seq!["src"@, name, "__init__.py"@], contents: ""@ },
        ScaffoldStepView::WriteFile {
            path: seq!["src"@, name, "main.py"@],
            contents: MAIN_CONTENTS@,
        },
        ScaffoldStepView::CreateDir { path: seq!["tests"@] },
        ScaffoldStepView::WriteFile { path: seq!["tests"@, "__init__.py"@], contents: ""@ },
        ScaffoldStepView::WriteFile {
            path: seq!["tests"@, "test_sample.py"@],
            contents: TEST_SAMPLE_CONTENTS@,
        },
        ScaffoldStepView::WriteDescriptor {
            path: seq!["pyproject.toml"@],
            descriptor: descriptor_of(name),
        },
        ScaffoldStepView::WriteFile { path: seq!["setup.py"@], contents: SETUP_PY_CONTENTS@ },
        ScaffoldStepView::InitRepository,
        ScaffoldStepView::WriteFile { path: seq!["requirements.txt"@], contents: ""@ },
    ]
}

/// A path of one component.
fn path1(a: &str) -> (path: Vec<String>)
    ensures
        path.deep_view() == seq![a@],
{
    let mut path: Vec<String> = Vec::new();
    path.push(a.to_owned());
    assert(path.deep_view() =~= seq![a@]);
    path
}

/// A path of two components.
fn path2(a: &str, b: &str) -> (path: Vec<String>)
    ensures
        path.deep_view() == seq![a@, b@],
{
    let mut path = path1(a);
    let ghost before = path.deep_view();
    path.push(b.to_owned());
    assert(path.deep_view() =~= before.push(b@));
    assert(seq![a@].push(b@) =~= seq![a@, b@]);
    path
}

/// A path of three components.
fn path3(a: &str, b: &str, c: &str) -> (path: Vec<String>)
    ensures
        path.deep_view() == seq![a@, b@, c@],
{
    let mut path = path2(a, b);
    let ghost before = path.deep_view();
    path.push(c.to_owned());
    assert(path.deep_view() =~= before.push(c@));
    assert(seq![a@, b@].push(c@) =~= seq![a@, b@, c@]);
    path
}

/// Builds the descriptor that a new package named `name` starts with.
pub fn default_descriptor(name: &str) -> (descriptor: PyProject)
    ensures
        descriptor@ == descriptor_of(name@),
{
    PyProject {
        build_system: BuildSystem {
            requires: path2("setuptools>=61.0", "wheel"),
            build_backend: "setuptools.build_meta".to_owned(),
        },
        project: Project {
            name: name.to_owned(),
            version: "0.1.0".to_owned(),
            authors: None,
            description: "".to_owned(),
            readme: "".to_owned(),
            license: None,
            requires_python: ">=3.7".to_owned(),
            classifiers: path1("Programming Language :: Python :: 3"),
        },
    }
}

/// Plans the layout of a package named `name` in a directory that holds
/// `entries` entries. A directory that holds anything is refused;
/// otherwise the plan is that of `plan_of`.
pub fn initialize_package(name: &str, entries: usize) -> (plan: Result<
    Vec<ScaffoldStep>,
    ScaffoldError,
>)
    ensures
        entries > 0 ==> plan == Err::<Vec<ScaffoldStep>, ScaffoldError>(
            ScaffoldError::DirectoryNotEmpty,
        ),
        entries == 0 ==> plan is Ok && plan->Ok_0.deep_view() == plan_of(name@),
{
    if entries > 0 {
        return Err(ScaffoldError::DirectoryNotEmpty);
    }
    let mut steps: Vec<ScaffoldStep> = Vec::new();
    steps.push(ScaffoldStep::CreateDirAll { path: path2("src", name) });
    steps.push(
        ScaffoldStep::WriteFile { path: path3("src", name, "__init__.py"), contents: "".to_owned() },
    );
    steps.push(
        ScaffoldStep::WriteFile {
            path: path3("src", name, "main.py"),
            contents: MAIN_CONTENTS.to_owned(),
        },
    );
    steps.push(ScaffoldStep::CreateDir { path: path1("tests") });
    steps.push(
        ScaffoldStep::WriteFile { path: path2("tests", "__init__.py"), contents: "".to_owned() },
    );
    steps.push(
        ScaffoldStep::WriteFile {
            path: path2("tests", "test_sample.py"),
            contents: TEST_SAMPLE_CONTENTS.to_owned(),
        },
    );
    steps.push(
        ScaffoldStep::WriteDescriptor {
            path: path1("pyproject.toml"),
            descriptor: default_descriptor(name),
        },
    );
    steps.push(
        ScaffoldStep::WriteFile { path: path1("setup.py"), contents: SETUP_PY_CONTENTS.to_owned() },
    );
    steps.push(ScaffoldStep::InitRepository);
    steps.push(ScaffoldStep::WriteFile { path: path1("requirements.txt"), contents: "".to_owned() });
    assert(steps.deep_view() =~= plan_of(name@));
    Ok(steps)
}

} // verus!
