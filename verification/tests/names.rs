use noisy_clippy::name::fold;
use noisy_clippy::name::Crate;
use noisy_clippy::source::compare_paths;
use noisy_clippy::source::LineColumn;
use noisy_clippy::source::SourceFile;
use noisy_clippy::source::Span;
use noisy_clippy::text::Order;
use noisy_clippy::version::Version;

fn krate(name: &str) -> Crate {
    Crate::new(name.to_owned())
}

fn version(text: &str) -> Version {
    Version::parse(text).unwrap()
}

#[test]
fn names_compare_without_case_and_with_hyphen_for_underscore() {
    assert_eq!(krate("serde_json").compare(&krate("Serde-JSON")), Order::Same);
    assert!(krate("serde_json").same_package(&krate("SERDE_JSON")));
    assert!(krate("").same_package(&krate("")));
    assert!(!krate("serde").same_package(&krate("serde_")));
    assert_eq!(krate("a").compare(&krate("B")), Order::Before);
    assert_eq!(krate("B").compare(&krate("a")), Order::After);
    assert_eq!(krate("ab").compare(&krate("abc")), Order::Before);
    assert_eq!(krate("a_c").compare(&krate("a0c")), Order::Before);
    assert_eq!(krate("a_c").compare(&krate("a-d")), Order::Before);
    assert_eq!(krate("Z").compare(&krate("_")), Order::After);
    assert_eq!(krate("é").compare(&krate("É")), Order::After);
}

#[test]
fn fold_changes_capitals_and_underscore_only() {
    assert_eq!(fold(b'A'), b'a');
    assert_eq!(fold(b'Z'), b'z');
    assert_eq!(fold(b'_'), b'-');
    assert_eq!(fold(b'@'), b'@');
    assert_eq!(fold(b'['), b'[');
    assert_eq!(fold(b'a'), b'a');
    assert_eq!(fold(b'-'), b'-');
    assert_eq!(fold(0xC9), 0xC9);
    for b in 0..=255u8 {
        let expected = if b == b'_' { b'-' } else { b.to_ascii_lowercase() };
        assert_eq!(fold(b), expected);
    }
}

#[test]
fn name_in_lower_case() {
    assert_eq!(krate("Serde_JSON").to_ascii_lowercase(), "serde_json");
    assert_eq!(krate("ÉA-z9").to_ascii_lowercase(), "Éa-z9");
    assert_eq!(krate("Serde_JSON").as_str(), "Serde_JSON");
}

#[test]
fn versions_parse_into_their_parts() {
    let v = version("1.20.3-alpha.1+build.5");
    assert_eq!((v.major, v.minor, v.patch), (1, 20, 3));
    assert_eq!(v.pre, "alpha.1");
    assert_eq!(v.build, "build.5");
    let v = version("0.0.0");
    assert_eq!((v.major, v.minor, v.patch), (0, 0, 0));
    assert_eq!(v.pre, "");
    assert_eq!(v.build, "");
    for text in ["", "1", "1.2", "1.2.3.4", "01.2.3", "1.2.3-", "a.b.c", " 1.2.3", "1.2.3-01"] {
        assert!(Version::parse(text).is_none());
    }
}

#[test]
fn versions_give_their_text() {
    for text in ["0.0.0", "1.2.3", "10.200.3000", "18446744073709551615.0.1", "1.0.0-alpha.1", "1.0.0+b", "1.0.0-rc.1+build.5"] {
        assert_eq!(version(text).to_text(), text);
    }
    assert_eq!(Version::new(1, 2, 3).to_text(), "1.2.3");
}

#[test]
fn versions_compare_as_semantic_versions() {
    let ascending = [
        "0.9.9",
        "1.0.0-1",
        "1.0.0-2",
        "1.0.0-11",
        "1.0.0-alpha",
        "1.0.0-alpha.1",
        "1.0.0-alpha.beta",
        "1.0.0-beta",
        "1.0.0-beta.2",
        "1.0.0-beta.11",
        "1.0.0-rc.1",
        "1.0.0",
        "1.0.0+0",
        "1.0.0+00",
        "1.0.0+1",
        "1.0.0+10",
        "1.0.0+a",
        "1.0.1",
        "1.1.0",
        "2.0.0",
        "10.0.0",
    ];
    for (i, a) in ascending.iter().enumerate() {
        for (j, b) in ascending.iter().enumerate() {
            let expected = if i < j {
                Order::Before
            } else if i == j {
                Order::Same
            } else {
                Order::After
            };
            assert_eq!(version(a).compare(&version(b)), expected);
        }
    }
}

#[test]
fn versions_with_long_parts_compare_as_semantic_versions() {
    let a = "1.0.0-alphabetagamma.delta+build.metadata.of.some.length";
    let b = "1.0.0-alphabetagamma.delta+build.metadata.of.some.length.more";
    let c = "1.0.0-alphabetagamma.delta.1+build.metadata.of.some.length";
    assert_eq!(version(a).compare(&version(a)), Order::Same);
    assert_eq!(version(a).compare(&version(b)), Order::Before);
    assert_eq!(version(b).compare(&version(a)), Order::After);
    assert_eq!(version(b).compare(&version(c)), Order::Before);
    assert_eq!(version(c).compare(&version(a)), Order::After);
    assert_eq!(Version::new(1, 0, 0).compare(&version(c)), Order::After);
}

#[test]
fn paths_compare_component_by_component() {
    let path = |text: &str| -> Vec<String> { text.split('/').map(|s| s.to_owned()).collect() };
    assert_eq!(compare_paths(&path("a/b"), &path("a/b")), Order::Same);
    assert_eq!(compare_paths(&path("a"), &path("a/b")), Order::Before);
    assert_eq!(compare_paths(&path("a/b"), &path("a")), Order::After);
    assert_eq!(compare_paths(&path("a/b"), &path("a-b")), Order::Before);
    assert_eq!(compare_paths(&path("a/c"), &path("a/b/d")), Order::After);
    assert_eq!(compare_paths(&Vec::new(), &Vec::new()), Order::Same);
    assert_eq!(compare_paths(&Vec::new(), &path("a")), Order::Before);
}

#[test]
fn source_files_compare_by_package_version_and_path() {
    let unit = |name: &str, v: &str, path: &str| {
        SourceFile::new(krate(name), version(v), path.split('/').map(|s| s.to_owned()).collect())
    };
    let ascending = [
        unit("a", "2.0.0", "z"),
        unit("b", "1.0.0-pre", "z"),
        unit("B", "1.0.0", "a"),
        unit("b", "1.0.0", "a/b"),
        unit("b", "1.0.0", "b"),
        unit("b", "1.0.1", "a"),
        unit("c", "0.0.1", "a"),
    ];
    for (i, a) in ascending.iter().enumerate() {
        for (j, b) in ascending.iter().enumerate() {
            let expected = if i < j {
                Order::Before
            } else if i == j {
                Order::Same
            } else {
                Order::After
            };
            assert_eq!(a.compare(b), expected);
        }
    }
    assert_eq!(unit("Serde_Json", "1.0.0", "a").compare(&unit("serde-json", "1.0.0", "a")), Order::Same);
    let copy = ascending[3].duplicate();
    assert_eq!(copy.krate.as_str(), "b");
    assert_eq!(copy.version.to_text(), "1.0.0");
    assert_eq!(copy.relative_path, vec!["a".to_owned(), "b".to_owned()]);
}

#[test]
fn spans_compare_by_start_and_then_by_end() {
    let span = |a: usize, b: usize, c: usize, d: usize| Span::new(LineColumn::new(a, b), LineColumn::new(c, d));
    let ascending = [span(1, 0, 1, 0), span(1, 0, 1, 5), span(1, 0, 2, 0), span(1, 4, 1, 5), span(2, 0, 1, 0), span(2, 0, 2, 1)];
    for (i, a) in ascending.iter().enumerate() {
        for (j, b) in ascending.iter().enumerate() {
            let expected = if i < j {
                Order::Before
            } else if i == j {
                Order::Same
            } else {
                Order::After
            };
            assert_eq!(a.compare(b), expected);
        }
    }
    assert!(LineColumn::new(1, 9).before(&LineColumn::new(2, 0)));
    assert!(!LineColumn::new(2, 0).before(&LineColumn::new(2, 0)));
}
