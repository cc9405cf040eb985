use noisy_clippy::findings::Findings;
use noisy_clippy::lints::Lint;
use noisy_clippy::lints::LintGroup;
use noisy_clippy::lints::LintLevel;
use noisy_clippy::lints::Registry;
use noisy_clippy::name::Crate;
use noisy_clippy::source::LineColumn;
use noisy_clippy::source::SourceFile;
use noisy_clippy::source::Span;
use noisy_clippy::table::push_row;
use noisy_clippy::table::render_table;
use noisy_clippy::token::AttrStyle;
use noisy_clippy::version::Version;
use std::sync::Arc;

fn row(id: &str, local: usize, global: usize, group: LintGroup, level: LintLevel) -> String {
    let mut out = String::new();
    push_row(&mut out, id, local, global, group, level);
    out
}

#[test]
fn row_of_a_lint_that_warns() {
    assert_eq!(
        row("needless_return", 12, 3, LintGroup::Style, LintLevel::Warn),
        "[12](https://dtolnay.github.io/noisy-clippy/needless_return.html#local) | [3](https://dtolnay.github.io/noisy-clippy/needless_return.html#global) | **[needless_return](https://rust-lang.github.io/rust-clippy/master/index.html#needless_return)** | style\n"
    );
}

#[test]
fn row_with_counts_of_zero() {
    assert_eq!(
        row("x", 0, 0, LintGroup::Unknown, LintLevel::NoLevel),
        "0 | 0 | **[x](https://rust-lang.github.io/rust-clippy/master/index.html#x)** | unknown\n"
    );
    assert_eq!(
        row("x", 0, 7, LintGroup::Cargo, LintLevel::Deny),
        "0 | [7](https://dtolnay.github.io/noisy-clippy/x.html#global) | **[x](https://rust-lang.github.io/rust-clippy/master/index.html#x)** | cargo\n"
    );
}

#[test]
fn row_of_a_lint_that_is_allowed_is_struck_out() {
    assert_eq!(
        row("x", 1, 0, LintGroup::Pedantic, LintLevel::Allow),
        "~*[1](https://dtolnay.github.io/noisy-clippy/x.html#local)*~ | ~*0*~ | ~*[x](https://rust-lang.github.io/rust-clippy/master/index.html#x)*~ | pedantic\n"
    );
}

#[test]
fn row_of_a_lint_that_was_moved_names_the_former_group() {
    assert_eq!(
        row("integer_division", 0, 0, LintGroup::Restriction, LintLevel::Allow),
        "~*0*~ | ~*0*~ | ~*[integer_division](https://rust-lang.github.io/rust-clippy/master/index.html#integer_division)*~ | ~*pedantic*~ restriction\n"
    );
    // a lint that is in its former group again names the group once
    assert_eq!(
        row("integer_division", 0, 0, LintGroup::Pedantic, LintLevel::Warn),
        "0 | 0 | **[integer_division](https://rust-lang.github.io/rust-clippy/master/index.html#integer_division)** | pedantic\n"
    );
}

#[test]
fn table_lists_the_lints_in_the_order_of_the_ranking() {
    let registry = Registry::new(vec![
        Lint { id: "b".to_owned(), group: LintGroup::Style, level: LintLevel::Warn, former_ids: Vec::new() },
        Lint { id: "c".to_owned(), group: LintGroup::Nursery, level: LintLevel::Allow, former_ids: Vec::new() },
    ]);
    let file = SourceFile::new(Crate::new("k".to_owned()), Version::new(1, 0, 0), vec!["a.rs".to_owned()]);
    let text = Arc::new(String::from("text"));
    let span = |line: usize| Span::new(LineColumn::new(line, 0), LineColumn::new(line, 1));
    let mut findings = Findings::new();
    findings.merge("a".to_owned(), &file, &text, AttrStyle::Inner, span(1));
    findings.merge("c".to_owned(), &file, &text, AttrStyle::Outer, span(1));
    findings.merge("c".to_owned(), &file, &text, AttrStyle::Outer, span(2));
    findings.merge("b".to_owned(), &file, &text, AttrStyle::Outer, span(1));
    let order = findings.rank();
    assert_eq!(order, vec![2, 0, 1]);
    let table = render_table(findings.lints(), &registry, &order);
    let expected = "local | global | lint name | category\n--- | --- | --- | ---\n\
~*[2](https://dtolnay.github.io/noisy-clippy/c.html#local)*~ | ~*0*~ | ~*[c](https://rust-lang.github.io/rust-clippy/master/index.html#c)*~ | nursery\n\
0 | [1](https://dtolnay.github.io/noisy-clippy/a.html#global) | **[a](https://rust-lang.github.io/rust-clippy/master/index.html#a)** | unknown\n\
[1](https://dtolnay.github.io/noisy-clippy/b.html#local) | 0 | **[b](https://rust-lang.github.io/rust-clippy/master/index.html#b)** | style\n";
    assert_eq!(table, expected);
    assert_eq!(
        render_table(findings.lints(), &registry, &Vec::new()),
        "local | global | lint name | category\n--- | --- | --- | ---\n"
    );
}
