use noisy_clippy::lints::former_lint_group;
use noisy_clippy::lints::Lint;
use noisy_clippy::lints::LintGroup;
use noisy_clippy::lints::LintLevel;
use noisy_clippy::lints::Registry;

#[test]
fn former_lint_group_of_moved_lints() {
    assert_eq!(former_lint_group("cognitive_complexity"), Some(LintGroup::Complexity));
    assert_eq!(former_lint_group("implicit_hasher"), Some(LintGroup::Style));
    assert_eq!(former_lint_group("inefficient_to_string"), Some(LintGroup::Perf));
    assert_eq!(former_lint_group("integer_division"), Some(LintGroup::Pedantic));
    assert_eq!(former_lint_group("transmute_undefined_repr"), Some(LintGroup::Correctness));
    assert_eq!(former_lint_group("eval_order_dependence"), Some(LintGroup::Suspicious));
    assert_eq!(former_lint_group("index_refutable_slice"), Some(LintGroup::Nursery));
    assert_eq!(former_lint_group("useless_let_if_seq"), Some(LintGroup::Style));
    assert_eq!(former_lint_group("verbose_bit_mask"), Some(LintGroup::Style));
}

#[test]
fn former_lint_group_of_other_lints() {
    assert_eq!(former_lint_group(""), None);
    assert_eq!(former_lint_group("needless_return"), None);
    assert_eq!(former_lint_group("Cognitive_Complexity"), None);
    assert_eq!(former_lint_group("cognitive_complexity "), None);
    assert_eq!(former_lint_group("try_er"), None);
}

#[test]
fn group_names_are_in_lower_case() {
    let groups = [
        (LintGroup::Cargo, "cargo"),
        (LintGroup::Complexity, "complexity"),
        (LintGroup::Correctness, "correctness"),
        (LintGroup::Deprecated, "deprecated"),
        (LintGroup::Nursery, "nursery"),
        (LintGroup::Pedantic, "pedantic"),
        (LintGroup::Perf, "perf"),
        (LintGroup::Restriction, "restriction"),
        (LintGroup::Style, "style"),
        (LintGroup::Suspicious, "suspicious"),
        (LintGroup::Unknown, "unknown"),
    ];
    for (group, name) in groups {
        assert_eq!(group.name(), name);
    }
}

fn lint(id: &str, group: LintGroup, level: LintLevel, former: &[&str]) -> Lint {
    Lint { id: id.to_owned(), group, level, former_ids: former.iter().map(|s| (*s).to_owned()).collect() }
}

#[test]
fn registry_knows_lints_by_current_and_former_names() {
    let registry = Registry::new(vec![
        lint("a", LintGroup::Style, LintLevel::Warn, &[]),
        lint("b", LintGroup::Perf, LintLevel::Allow, &["old_b", "older_b"]),
        lint("c", LintGroup::Nursery, LintLevel::Deny, &["old_c"]),
    ]);
    assert_eq!(registry.get("a").unwrap().id, "a");
    assert_eq!(registry.get("b").unwrap().id, "b");
    assert_eq!(registry.get("older_b").unwrap().id, "b");
    assert_eq!(registry.get("old_c").unwrap().id, "c");
    assert!(registry.get("d").is_none());
    assert!(registry.get("").is_none());
    assert_eq!(registry.canonical("old_b".to_owned()), "b");
    assert_eq!(registry.canonical("b".to_owned()), "b");
    assert_eq!(registry.canonical("unheard_of".to_owned()), "unheard_of");
    assert_eq!(registry.classify("older_b"), (LintGroup::Perf, LintLevel::Allow));
    assert_eq!(registry.classify("c"), (LintGroup::Nursery, LintLevel::Deny));
    assert_eq!(registry.classify("unheard_of"), (LintGroup::Unknown, LintLevel::NoLevel));
}

#[test]
fn registry_takes_the_last_lint_of_a_name() {
    let registry = Registry::new(vec![
        lint("a", LintGroup::Style, LintLevel::Warn, &[]),
        lint("b", LintGroup::Perf, LintLevel::Allow, &["a"]),
        lint("c", LintGroup::Cargo, LintLevel::Deny, &[]),
    ]);
    assert_eq!(registry.get("a").unwrap().id, "b");
    assert_eq!(registry.canonical("a".to_owned()), "b");
    assert_eq!(registry.classify("a"), (LintGroup::Perf, LintLevel::Allow));
}
