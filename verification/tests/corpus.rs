use noisy_clippy::corpus::parse_crate_file_path;
use noisy_clippy::corpus::reconstruct_crate_file_path;
use noisy_clippy::corpus::record_release;
use noisy_clippy::corpus::relative_path;
use noisy_clippy::corpus::wants_entry;
use noisy_clippy::corpus::MAX_SOURCE_SIZE;
use noisy_clippy::name::Crate;
use noisy_clippy::version::Version;

fn path(text: &str) -> Vec<String> {
    text.split('/').map(|s| s.to_owned()).collect()
}

fn archive(name: &str, version: &str) -> String {
    reconstruct_crate_file_path(&Crate::new(name.to_owned()), &Version::parse(version).unwrap()).join("/")
}

fn parsed(text: &str) -> Option<(String, String)> {
    parse_crate_file_path(&path(text)).map(|(krate, version)| (krate.as_str().to_owned(), version.to_text()))
}

#[test]
fn archives_lie_in_the_directories_of_their_packages() {
    assert_eq!(archive("a", "1.0.0"), "1/a/a-1.0.0.crate");
    assert_eq!(archive("Ab", "0.1.0"), "2/ab/Ab-0.1.0.crate");
    assert_eq!(archive("syn", "2.0.119"), "3/s/syn/syn-2.0.119.crate");
    assert_eq!(archive("SYN", "2.0.119"), "3/s/syn/SYN-2.0.119.crate");
    assert_eq!(archive("rand", "0.10.3"), "ra/nd/rand/rand-0.10.3.crate");
    assert_eq!(archive("Serde_JSON", "1.0.0-rc.1+b"), "se/rd/serde_json/Serde_JSON-1.0.0-rc.1+b.crate");
    assert_eq!(archive("proc-macro2", "1.0.107"), "pr/oc/proc-macro2/proc-macro2-1.0.107.crate");
}

#[test]
fn archive_paths_give_package_and_version() {
    assert_eq!(parsed("1/a/a-1.0.0.crate"), Some(("a".to_owned(), "1.0.0".to_owned())));
    assert_eq!(parsed("3/s/syn/SYN-2.0.119.crate"), Some(("SYN".to_owned(), "2.0.119".to_owned())));
    assert_eq!(
        parsed("pr/oc/proc-macro2/proc-macro2-1.0.107.crate"),
        Some(("proc-macro2".to_owned(), "1.0.107".to_owned()))
    );
    assert_eq!(
        parsed("se/rd/serde_json/Serde_JSON-1.0.0-rc.1+b.crate"),
        Some(("Serde_JSON".to_owned(), "1.0.0-rc.1+b".to_owned()))
    );
    for (name, version) in [("x", "0.0.1"), ("xy", "1.2.3"), ("xyz", "1.0.0-alpha"), ("wxyz", "10.20.30"), ("a-b-c", "1.0.0")] {
        assert_eq!(parsed(&archive(name, version)), Some((name.to_owned(), version.to_owned())));
    }
}

#[test]
fn other_paths_give_nothing() {
    let cases = [
        "",
        "se/rd/serde/serde-1.0.0.tar",
        "se/rd/serde/serde-1.0.0",
        "se/rd/serde/serde-1.0.0.crate.bak",
        "se/rd/serde/.crate",
        "se/rd/serde/serde.crate",
        "se/rd/serde/serde-1.0.crate",
        "se/rd/serde/serde-01.0.0.crate",
        "se/rd/serde/serde_1.0.0.crate",
        "se/rd/serde/-1.0.0.crate",
        "-1.0.0.crate",
        "serde-1.0.0.crate",
        "se/rd/serde-1.0.0.crate",
        "se/rd/Serde/serde-1.0.0.crate",
        "se/rd/serde/other-1.0.0.crate",
        "se/rx/serde/serde-1.0.0.crate",
        "x/se/rd/serde/serde-1.0.0.crate",
        "3/s/syn/syn-2.0.0.crate/",
        "4/s/syn/syn-2.0.0.crate",
        "3/y/syn/syn-2.0.0.crate",
        "ée/ée/éeée/éeée-1.0.0.crate",
    ];
    for text in cases {
        assert_eq!(parsed(text), None);
    }
}

#[test]
fn entries_that_are_read() {
    assert!(wants_entry(0, &path("serde-1.0.0/src/lib.rs")));
    assert!(wants_entry(MAX_SOURCE_SIZE, &path("serde-1.0.0/build.rs")));
    assert!(wants_entry(10 * 1024 * 1024, &path("a.rs")));
    assert!(wants_entry(1, &path("a/..rs")));
    assert!(!wants_entry(MAX_SOURCE_SIZE + 1, &path("serde-1.0.0/src/lib.rs")));
    assert!(!wants_entry(u64::MAX, &path("serde-1.0.0/src/lib.rs")));
    assert!(!wants_entry(1, &path("serde-1.0.0/Cargo.toml")));
    assert!(!wants_entry(1, &path("serde-1.0.0/src/lib.rs.orig")));
    assert!(!wants_entry(1, &path("serde-1.0.0/src/rs")));
    assert!(!wants_entry(1, &path("serde-1.0.0/src/.rs")));
    assert!(!wants_entry(1, &path("serde-1.0.0/src/lib.RS")));
    assert!(!wants_entry(1, &Vec::new()));
}

#[test]
fn relative_paths_leave_the_first_component_out() {
    assert_eq!(relative_path(&path("serde-1.0.0/src/de/mod.rs")), path("src/de/mod.rs"));
    assert_eq!(relative_path(&path("serde-1.0.0")), Vec::<String>::new());
    assert_eq!(relative_path(&Vec::new()), Vec::<String>::new());
}

#[test]
fn the_newest_release_of_each_package_stays() {
    let mut releases = Vec::new();
    for (name, version) in [
        ("syn", "1.0.0"),
        ("Serde", "1.0.1"),
        ("anyhow", "1.0.0"),
        ("serde", "1.0.0"),
        ("SYN", "2.0.0"),
        ("syn", "2.0.0-rc.1"),
        ("serde", "1.0.1"),
        ("a_b", "0.1.0"),
        ("a-b", "0.1.0+later"),
        ("zz", "0.0.0"),
    ] {
        record_release(&mut releases, Crate::new(name.to_owned()), Version::parse(version).unwrap());
    }
    let listed: Vec<(String, String)> =
        releases.iter().map(|(krate, version)| (krate.as_str().to_owned(), version.to_text())).collect();
    let expected: Vec<(String, String)> = [
        ("a_b", "0.1.0+later"),
        ("anyhow", "1.0.0"),
        ("Serde", "1.0.1"),
        ("syn", "2.0.0"),
        ("zz", "0.0.0"),
    ]
    .iter()
    .map(|(a, b)| ((*a).to_owned(), (*b).to_owned()))
    .collect();
    assert_eq!(listed, expected);
}
