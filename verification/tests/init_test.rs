use archidoc::init::{generate_template, wrap_jsdoc, CommentStyle};

#[test]
fn rust_template_has_c4_marker() {
    let out = generate_template(CommentStyle::Rust);
    assert!(out.contains("//! @c4 container"));
}

#[test]
fn rust_template_has_all_sections() {
    let out = generate_template(CommentStyle::Rust);
    assert!(out.contains("# [Project Name]"));
    assert!(out.contains("## C4 Context"));
    assert!(out.contains("## Data Flow"));
    assert!(out.contains("## Concurrency & Data Patterns"));
    assert!(out.contains("## Deployment"));
    assert!(out.contains("## External Dependencies"));
}

#[test]
fn rust_template_has_mermaid_block() {
    let out = generate_template(CommentStyle::Rust);
    assert!(out.contains("```mermaid"));
    assert!(out.contains("C4Context"));
    assert!(out.contains("```"));
}

#[test]
fn rust_template_has_todo_placeholders() {
    let out = generate_template(CommentStyle::Rust);
    assert!(out.contains("TODO:"));
    assert!(out.contains("[TODO: One-line description"));
}

#[test]
fn typescript_template_uses_jsdoc_style() {
    let out = generate_template(CommentStyle::TypeScript);
    assert!(out.contains(" * @c4 container"));
    assert!(out.contains(" * ## Data Flow"));
}

#[test]
fn from_lang_parsing() {
    assert_eq!(CommentStyle::from_lang("rust"), Some(CommentStyle::Rust));
    assert_eq!(CommentStyle::from_lang("rs"), Some(CommentStyle::Rust));
    assert_eq!(CommentStyle::from_lang("ts"), Some(CommentStyle::TypeScript));
    assert_eq!(CommentStyle::from_lang("unknown"), None);
}

#[test]
fn blank_lines_are_comment_only() {
    let out = generate_template(CommentStyle::Rust);
    assert!(out.contains("\n//!\n"));
    assert!(!out.contains("//! \n"));
}

#[test]
fn jsdoc_wrapping_adds_delimiters() {
    let wrapped = wrap_jsdoc(" * line\n");
    assert_eq!(wrapped, "/**\n * line\n */\n");
}
