use noisy_clippy::findings::Findings;
use noisy_clippy::lints::Lint;
use noisy_clippy::lints::LintGroup;
use noisy_clippy::lints::LintLevel;
use noisy_clippy::lints::Registry;
use noisy_clippy::name::Crate;
use noisy_clippy::source::LineColumn;
use noisy_clippy::source::SourceFile;
use noisy_clippy::source::Span;
use noisy_clippy::token::AttrStyle;
use noisy_clippy::token::Attribute;
use noisy_clippy::token::Token;
use noisy_clippy::token::TokenKind;
use noisy_clippy::version::Version;
use proc_macro2::Delimiter;
use proc_macro2::Spacing;
use proc_macro2::TokenStream;
use proc_macro2::TokenTree;
use std::sync::Arc;
use syn::visit::Visit;

fn place(at: proc_macro2::LineColumn) -> LineColumn {
    LineColumn::new(at.line, at.column)
}

fn span_of(span: proc_macro2::Span) -> Span {
    Span::new(place(span.start()), place(span.end()))
}

fn flatten(stream: TokenStream, out: &mut Vec<Token>) {
    for tree in stream {
        match tree {
            TokenTree::Ident(ident) => {
                out.push(Token::word(ident.to_string(), span_of(ident.span())));
            }
            TokenTree::Punct(punct) => {
                let joint = punct.spacing() == Spacing::Joint;
                out.push(Token::new(TokenKind::Punct(punct.as_char(), joint), span_of(punct.span())));
            }
            TokenTree::Literal(literal) => {
                let span = span_of(literal.span());
                let kind = match syn::Lit::new(literal) {
                    syn::Lit::Str(text) => TokenKind::Str(text.value()),
                    _ => TokenKind::Other,
                };
                out.push(Token::new(kind, span));
            }
            TokenTree::Group(group) => {
                if group.delimiter() == Delimiter::Parenthesis {
                    out.push(Token::new(TokenKind::OpenParen, span_of(group.span_open())));
                    flatten(group.stream(), out);
                    out.push(Token::new(TokenKind::CloseParen, span_of(group.span_close())));
                } else {
                    out.push(Token::new(TokenKind::Other, span_of(group.span())));
                }
            }
        }
    }
}

fn attribute_of(attr: &syn::Attribute) -> Attribute {
    let style = match attr.style {
        syn::AttrStyle::Outer => AttrStyle::Outer,
        syn::AttrStyle::Inner(_) => AttrStyle::Inner,
    };
    let name = attr.path().get_ident().map(|ident| ident.to_string());
    let tokens = match &attr.meta {
        syn::Meta::List(list) => {
            let mut out = Vec::new();
            flatten(list.tokens.clone(), &mut out);
            Some(out)
        }
        _ => None,
    };
    Attribute { style, name, tokens }
}

struct AttrVisitor<'a> {
    source_file: &'a SourceFile,
    contents: Arc<String>,
    findings: &'a mut Findings,
    registry: &'a Registry,
}

impl<'ast, 'a> Visit<'ast> for AttrVisitor<'a> {
    fn visit_attribute(&mut self, attr: &'ast syn::Attribute) {
        let attr = attribute_of(attr);
        self.findings.visit_attribute(self.registry, self.source_file, &self.contents, &attr);
    }
}

fn scan(text: &str, registry: &Registry) -> Findings {
    let source_file = SourceFile::new(
        Crate::new("test".to_owned()),
        Version::new(0, 0, 0),
        vec!["src".to_owned(), "lib.rs".to_owned()],
    );
    let mut findings = Findings::new();
    let file: syn::File = syn::parse_str(text).unwrap();
    let mut visitor = AttrVisitor {
        source_file: &source_file,
        contents: Arc::new(text.to_owned()),
        findings: &mut findings,
        registry,
    };
    visitor.visit_file(&file);
    findings
}

fn slice(text: &str, span: Span) -> String {
    assert_eq!(span.start.line, span.end.line);
    let line = text.lines().nth(span.start.line - 1).unwrap();
    line.chars().skip(span.start.column).take(span.end.column - span.start.column).collect()
}

#[test]
fn test_attr_visitor() {
    let input = "# ! [allow (clippy :: asdf)] fn main () { # [cfg_attr (feature = \"cargo-clippy\" , allow (jkl))] let _ ; }";
    let findings = scan(input, &Registry::new(Vec::new()));
    let lints = findings.lints();
    assert_eq!(lints.len(), 2);
    let asdf = lints.iter().find(|lint| lint.lint_id == "asdf").unwrap();
    let jkl = lints.iter().find(|lint| lint.lint_id == "jkl").unwrap();
    assert_eq!(asdf.files.len(), 1);
    assert_eq!(jkl.files.len(), 1);
}

#[test]
fn end_to_end_findings_of_a_source_file() {
    let text = "#![allow(clippy::asdf)]\nfn main() {\n    #[cfg_attr(feature = \"cargo-clippy\", allow(jkl))]\n    let _;\n}\n";
    let findings = scan(text, &Registry::new(Vec::new()));
    let lints = findings.lints();
    assert_eq!(lints.len(), 2);
    assert_eq!(lints[0].lint_id, "asdf");
    assert_eq!(lints[0].files.len(), 1);
    assert_eq!(lints[0].files[0].file.relative_path, vec!["src".to_owned(), "lib.rs".to_owned()]);
    assert_eq!(lints[0].files[0].locations.local, Vec::<Span>::new());
    assert_eq!(lints[0].files[0].locations.global.len(), 1);
    let span = lints[0].files[0].locations.global[0];
    assert_eq!(span, Span::new(LineColumn::new(1, 9), LineColumn::new(1, 21)));
    assert_eq!(slice(text, span), "clippy::asdf");
    assert_eq!(lints[1].lint_id, "jkl");
    assert_eq!(lints[1].files.len(), 1);
    assert_eq!(lints[1].files[0].locations.global, Vec::<Span>::new());
    assert_eq!(lints[1].files[0].locations.local.len(), 1);
    let span = lints[1].files[0].locations.local[0];
    assert_eq!(span, Span::new(LineColumn::new(3, 47), LineColumn::new(3, 50)));
    assert_eq!(slice(text, span), "jkl");
    assert_eq!(lints[1].files[0].locations.contents.as_str(), text);
}

#[test]
fn outer_allow_gives_one_local_finding_over_the_whole_path() {
    let text = "#[allow(clippy::lintname)]\nfn f() {}\n";
    let findings = scan(text, &Registry::new(Vec::new()));
    let lints = findings.lints();
    assert_eq!(lints.len(), 1);
    assert_eq!(lints[0].lint_id, "lintname");
    let locations = &lints[0].files[0].locations;
    assert!(locations.global.is_empty());
    assert_eq!(locations.local.len(), 1);
    assert_eq!(slice(text, locations.local[0]), "clippy::lintname");
}

#[test]
fn inner_allow_of_two_lints_gives_two_global_findings() {
    let text = "#![allow(clippy::a, clippy::b)]\nfn f() {}\n";
    let findings = scan(text, &Registry::new(Vec::new()));
    let lints = findings.lints();
    assert_eq!(lints.len(), 2);
    assert_eq!(lints[0].lint_id, "a");
    assert_eq!(lints[1].lint_id, "b");
    for lint in lints {
        assert_eq!(lint.files[0].locations.global.len(), 1);
        assert!(lint.files[0].locations.local.is_empty());
    }
    assert_eq!(slice(text, lints[0].files[0].locations.global[0]), "clippy::a");
    assert_eq!(slice(text, lints[1].files[0].locations.global[0]), "clippy::b");
}

#[test]
fn conditional_form_gives_local_findings_for_bare_words() {
    let text = "#[cfg_attr(feature = \"cargo-clippy\", allow(x, y))]\nfn f() {}\n";
    let findings = scan(text, &Registry::new(Vec::new()));
    let lints = findings.lints();
    assert_eq!(lints.len(), 2);
    assert_eq!(lints[0].lint_id, "x");
    assert_eq!(lints[1].lint_id, "y");
    for lint in lints {
        assert!(lint.files[0].locations.global.is_empty());
        assert_eq!(lint.files[0].locations.local.len(), 1);
    }
    assert_eq!(slice(text, lints[0].files[0].locations.local[0]), "x");
    assert_eq!(slice(text, lints[1].files[0].locations.local[0]), "y");
}

#[test]
fn conditional_form_for_another_feature_gives_nothing() {
    let text = "#[cfg_attr(feature = \"clippy\", allow(x, y))]\nfn f() {}\n";
    let findings = scan(text, &Registry::new(Vec::new()));
    assert!(findings.lints().is_empty());
}

#[test]
fn other_attributes_and_other_paths_give_nothing() {
    let text = "#![warn(clippy::a)]\n#[allow(dead_code, rustdoc::b, clippy::c::d)]\n#[allow]\n#[allow = \"x\"]\n#[derive(Clone)]\nstruct S;\n";
    let findings = scan(text, &Registry::new(Vec::new()));
    assert!(findings.lints().is_empty());
}

#[test]
fn former_names_are_recorded_under_the_current_name() {
    let registry = Registry::new(vec![Lint {
        id: "new_name".to_owned(),
        group: LintGroup::Style,
        level: LintLevel::Warn,
        former_ids: vec!["old_name".to_owned()],
    }]);
    let text = "#![allow(clippy::old_name)]\n#[allow(clippy::new_name, clippy::unheard_of)]\nfn f() {}\n";
    let findings = scan(text, &registry);
    let lints = findings.lints();
    assert_eq!(lints.len(), 2);
    assert_eq!(lints[0].lint_id, "new_name");
    assert_eq!(lints[0].files[0].locations.global.len(), 1);
    assert_eq!(lints[0].files[0].locations.local.len(), 1);
    assert_eq!(lints[1].lint_id, "unheard_of");
}

#[test]
fn visiting_a_file_twice_adds_nothing() {
    let text = "#![allow(clippy::asdf)]\n#[allow(clippy::asdf)]\nfn f() {}\n";
    let registry = Registry::new(Vec::new());
    let source_file =
        SourceFile::new(Crate::new("test".to_owned()), Version::new(0, 0, 0), vec!["lib.rs".to_owned()]);
    let mut findings = Findings::new();
    let file: syn::File = syn::parse_str(text).unwrap();
    for _ in 0..2 {
        let mut visitor = AttrVisitor {
            source_file: &source_file,
            contents: Arc::new(text.to_owned()),
            findings: &mut findings,
            registry: &registry,
        };
        visitor.visit_file(&file);
    }
    let lints = findings.lints();
    assert_eq!(lints.len(), 1);
    assert_eq!(lints[0].files.len(), 1);
    assert_eq!(lints[0].files[0].locations.global.len(), 1);
    assert_eq!(lints[0].files[0].locations.local.len(), 1);
}

#[test]
fn reserved_words_are_no_lints() {
    let text = "#![allow(clippy::type)]\n#[allow(clippy::a, clippy::fn)]\n#[cfg_attr(feature = \"cargo-clippy\", allow(a, unsafe))]\nfn f() {}\n";
    let findings = scan(text, &Registry::new(Vec::new()));
    assert!(findings.lints().is_empty());
    let text = "#[allow(self::clippy, clippy::self, clippy::r#type)]\nfn f() {}\n";
    let findings = scan(text, &Registry::new(Vec::new()));
    let ids: Vec<&str> = findings.lints().iter().map(|lint| lint.lint_id.as_str()).collect();
    assert_eq!(ids, vec!["r#type", "self"]);
}
