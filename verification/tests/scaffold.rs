use carpy::scaffold::{
    default_descriptor, initialize_package, ScaffoldError, ScaffoldStep, MAIN_CONTENTS,
    SETUP_PY_CONTENTS, TEST_SAMPLE_CONTENTS,
};

fn path(items: &[&str]) -> Vec<String> {
    items.iter().map(|s| s.to_string()).collect()
}

fn file(items: &[&str], contents: &str) -> ScaffoldStep {
    ScaffoldStep::WriteFile { path: path(items), contents: contents.to_string() }
}

#[test]
fn a_directory_that_holds_something_is_refused() {
    assert_eq!(initialize_package("demo", 1), Err(ScaffoldError::DirectoryNotEmpty));
    assert_eq!(initialize_package("demo", usize::MAX), Err(ScaffoldError::DirectoryNotEmpty));
    assert_eq!(ScaffoldError::DirectoryNotEmpty.message(), "Directory is not empty");
}

#[test]
fn an_empty_directory_gets_the_whole_layout() {
    let plan = initialize_package("demo", 0).unwrap();
    let expected = vec![
        ScaffoldStep::CreateDirAll { path: path(&["src", "demo"]) },
        file(&["src", "demo", "__init__.py"], ""),
        file(
            &["src", "demo", "main.py"],
            "def main():\n    print(\"Hello, world!\")\n\nif __name__ == \"__main__\":\n    main()\n",
        ),
        ScaffoldStep::CreateDir { path: path(&["tests"]) },
        file(&["tests", "__init__.py"], ""),
        file(
            &["tests", "test_sample.py"],
            "import pytest\n\ndef inc(x):\n    return x + 1\n\n@pytest.mark.xfail(reason = \"Bug with arithmetic\")\ndef test_answer():\n    assert inc(3) == 5\n",
        ),
        ScaffoldStep::WriteDescriptor {
            path: path(&["pyproject.toml"]),
            descriptor: default_descriptor("demo"),
        },
        file(&["setup.py"], "from setuptools import setup\n\nif __name__ == \"__main__\":\n    setup()\n"),
        ScaffoldStep::InitRepository,
        file(&["requirements.txt"], ""),
    ];
    assert_eq!(plan, expected);
}

#[test]
fn the_layout_follows_the_name() {
    let plan = initialize_package("other_pkg", 0).unwrap();
    assert_eq!(plan[0], ScaffoldStep::CreateDirAll { path: path(&["src", "other_pkg"]) });
    assert_eq!(plan[2], file(&["src", "other_pkg", "main.py"], MAIN_CONTENTS));
    assert_eq!(plan[5], file(&["tests", "test_sample.py"], TEST_SAMPLE_CONTENTS));
    assert_eq!(plan[7], file(&["setup.py"], SETUP_PY_CONTENTS));
    assert_eq!(plan.len(), 10);
}

#[test]
fn the_descriptor_starts_with_setuptools_and_version_0_1_0() {
    let descriptor = default_descriptor("demo");
    assert_eq!(descriptor.build_system.requires, path(&["setuptools>=61.0", "wheel"]));
    assert_eq!(descriptor.build_system.build_backend, "setuptools.build_meta");
    assert_eq!(descriptor.project.name, "demo");
    assert_eq!(descriptor.project.version, "0.1.0");
    assert_eq!(descriptor.project.authors, None);
    assert_eq!(descriptor.project.description, "");
    assert_eq!(descriptor.project.readme, "");
    assert_eq!(descriptor.project.license, None);
    assert_eq!(descriptor.project.requires_python, ">=3.7");
    assert_eq!(
        descriptor.project.classifiers,
        path(&["Programming Language :: Python :: 3"])
    );
}
