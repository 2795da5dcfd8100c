use zed_intellij::buildfiles::is_build_file_path;

#[test]
fn detects() {
    assert!(is_build_file_path("/x/pom.xml"));
    assert!(is_build_file_path("/x/y/build.gradle.kts"));
    assert!(is_build_file_path("/x/MODULE.bazel"));
    assert!(is_build_file_path("/x/tools/defs.bzl"));
    assert!(is_build_file_path("/x/gradle.properties"));
    assert!(is_build_file_path("/x/gradle/wrapper/gradle-wrapper.properties"));
    assert!(!is_build_file_path("/x/build.gradle.kts.bak"));
    assert!(!is_build_file_path("/x/build.gradlex"));
    assert!(!is_build_file_path("/x/BUILDING"));
}

#[test]
fn detects_windows_separators_and_bare_names() {
    assert!(is_build_file_path("C:\\work\\app\\pom.xml"));
    assert!(is_build_file_path("pom.xml"));
    assert!(is_build_file_path("BUILD.bazel"));
    assert!(!is_build_file_path(""));
    assert!(!is_build_file_path("/x/pom.xml/"));
}
