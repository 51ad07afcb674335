use cargo_ohrs::prepare::{holds_arg, init_args, prepare, type_def_file, PackageInfo};

fn package(name: &str, manifest_path: &str) -> PackageInfo {
    PackageInfo { name: name.to_string(), manifest_path: manifest_path.to_string() }
}

#[test]
fn file_name_holds_the_first_eight_digits_of_the_digest() {
    assert_eq!(type_def_file("pkg", "abc"), "pkg-ba7816bf.napi_type_def.tmp");
    assert_eq!(type_def_file("", ""), "-e3b0c442.napi_type_def.tmp");
    assert_ne!(type_def_file("pkg", "/a/Cargo.toml"), type_def_file("pkg", "/b/Cargo.toml"));
}

#[test]
fn release_is_added_only_beside_given_arguments_that_lack_it() {
    assert_eq!(init_args(true, &None), vec!["build".to_string()]);
    assert_eq!(init_args(false, &None), vec!["build".to_string()]);
    assert_eq!(
        init_args(true, &Some(vec![])),
        vec!["build".to_string(), "--release".to_string()]
    );
    assert_eq!(
        init_args(true, &Some(vec!["--verbose".to_string()])),
        vec!["build".to_string(), "--release".to_string()]
    );
    assert_eq!(
        init_args(true, &Some(vec!["-v".to_string(), "--release".to_string()])),
        vec!["build".to_string()]
    );
    assert_eq!(init_args(false, &Some(vec!["-v".to_string()])), vec!["build".to_string()]);
}

#[test]
fn arguments_are_compared_whole() {
    let args = vec!["--release-fast".to_string(), "x".to_string()];
    assert!(!holds_arg(&args, "--release"));
    assert!(holds_arg(&args, "x"));
    assert!(!holds_arg(&Vec::new(), "x"));
}

#[test]
fn the_first_package_with_the_manifest_is_prepared() {
    let packages = vec![
        package("other", "/w/other/Cargo.toml"),
        package("mine", "/w/./Cargo.toml"),
        package("twin", "/w/./Cargo.toml"),
    ];
    let got = prepare(&packages, "/w/./Cargo.toml", true, &Some(vec![])).unwrap();
    assert_eq!(got.package, 1);
    assert_eq!(got.init_args, vec!["build".to_string(), "--release".to_string()]);
    assert_eq!(got.type_def_file, type_def_file("mine", "/w/./Cargo.toml"));
}

#[test]
fn without_a_package_there_is_nothing_to_prepare() {
    let packages = vec![package("other", "/w/other/Cargo.toml")];
    assert!(prepare(&packages, "/w/./Cargo.toml", false, &None).is_none());
    assert!(prepare(&Vec::new(), "", false, &None).is_none());
}
