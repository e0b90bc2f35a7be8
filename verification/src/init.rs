//! Root-level annotation templates for a project's entry file.

use vstd::prelude::*;

use crate::text::{matches_token_ci, push_char, str_to_chars, token_ieq};

verus! {

/// Supported comment styles for different languages.
#[derive(Debug, Clone, Copy, PartialEq, Eq, Structural)]
pub enum CommentStyle {
    /// Rust doc comments: `//!`
    Rust,
    /// TypeScript and JavaScript JSDoc: `/** ... */`
    TypeScript,
}

/// What `CommentStyle::from_lang` returns for a language name, folded to
/// lower case.
pub open spec fn from_lang_spec(s: Seq<char>) -> Option<CommentStyle> {
    if matches_token_ci(s, "rust"@) || matches_token_ci(s, "rs"@) {
        Some(CommentStyle::Rust)
    } else if matches_token_ci(s, "typescript"@) || matches_token_ci(s, "ts"@)
        || matches_token_ci(s, "javascript"@) || matches_token_ci(s, "js"@) {
        Some(CommentStyle::TypeScript)
    } else {
        None
    }
}

impl CommentStyle {
    /// Resolve a language name to its comment style.
    pub fn from_lang(lang: &str) -> (r: Option<CommentStyle>)
        ensures
            r == from_lang_spec(lang@),
    {
        let lc = str_to_chars(lang);
        if token_ieq(lc.as_slice(), "rust") || token_ieq(lc.as_slice(), "rs") {
            Some(CommentStyle::Rust)
        } else if token_ieq(lc.as_slice(), "typescript") || token_ieq(lc.as_slice(), "ts")
            || token_ieq(lc.as_slice(), "javascript") || token_ieq(lc.as_slice(), "js") {
            Some(CommentStyle::TypeScript)
        } else {
            None
        }
    }
}

/// One block of the generated template.
enum Section {
    Line(String),
    Blank,
    Heading { text: String, level: u8 },
    CodeBlock { lang: String, lines: Vec<String> },
}

/// Mathematical model of a `Section`.
#[verifier::ext_equal]
pub ghost enum SectionV {
    Line(Seq<char>),
    Blank,
    Heading { text: Seq<char>, level: u8 },
    CodeBlock { lang: Seq<char>, lines: Seq<Seq<char>> },
}

impl View for Section {
    type V = SectionV;

    closed spec fn view(&self) -> SectionV {
        match self {
            Section::Line(t) => SectionV::Line(t@),
            Section::Blank => SectionV::Blank,
            Section::Heading { text, level } => SectionV::Heading { text: text@, level: *level },
            Section::CodeBlock { lang, lines } => SectionV::CodeBlock {
                lang: lang@,
                lines: lines@.map_values(|l: String| l@),
            },
        }
    }
}

impl Section {
    /// A marker heading without a hash prefix.
    fn heading(text: &str) -> (r: Section)
        ensures
            r@ == (SectionV::Heading { text: text@, level: 0u8 }),
    {
        Section::Heading { text: String::from_str(text), level: 0 }
    }

    /// Turn a heading into a top-level heading.
    fn h1(self) -> (r: Section)
        ensures
            r@ == (match self@ {
                SectionV::Heading { text, .. } => SectionV::Heading { text, level: 1u8 },
                other => other,
            }),
    {
        match self {
            Section::Heading { text, level: _ } => Section::Heading { text, level: 1 },
            other => other,
        }
    }

    /// Turn a heading into a second-level heading.
    fn h2(self) -> (r: Section)
        ensures
            r@ == (match self@ {
                SectionV::Heading { text, .. } => SectionV::Heading { text, level: 2u8 },
                other => other,
            }),
    {
        match self {
            Section::Heading { text, level: _ } => Section::Heading { text, level: 2 },
            other => other,
        }
    }

    /// A plain text line.
    fn line(text: &str) -> (r: Section)
        ensures
            r@ == (SectionV::Line(text@)),
    {
        Section::Line(String::from_str(text))
    }

    /// A blank line.
    fn blank() -> (r: Section)
        ensures
            r@ == SectionV::Blank,
    {
        Section::Blank
    }

    /// A fenced code block.
    fn code_block(lang: &str, lines: Vec<String>) -> (r: Section)
        ensures
            r@ == (SectionV::CodeBlock {
                lang: lang@,
                lines: lines@.map_values(|l: String| l@),
            }),
    {
        Section::CodeBlock { lang: String::from_str(lang), lines }
    }
}

/// One comment line of the given style.
pub open spec fn comment_line_spec(style: CommentStyle, text: Seq<char>) -> Seq<char> {
    match style {
        CommentStyle::Rust => if text.len() == 0 {
            "//!"@
        } else {
            "//! "@ + text
        },
        CommentStyle::TypeScript => if text.len() == 0 {
            " *"@
        } else {
            " * "@ + text
        },
    }
}

/// Append one comment line and its newline.
fn push_comment_line(out: &mut String, style: CommentStyle, text: &str)
    ensures
        final(out)@ == old(out)@ + comment_line_spec(style, text@) + "\n"@,
{
    match style {
        CommentStyle::Rust => {
            if text.unicode_len() == 0 {
                out.append("//!");
            } else {
                out.append("//! ");
                out.append(text);
            }
        },
        CommentStyle::TypeScript => {
            if text.unicode_len() == 0 {
                out.append(" *");
            } else {
                out.append(" * ");
                out.append(text);
            }
        },
    }
    out.append("\n");
    proof {
        assert(final(out)@ =~= old(out)@ + comment_line_spec(style, text@) + "\n"@);
    }
}

/// The hash prefix of a heading level.
pub open spec fn heading_prefix(level: u8) -> Seq<char> {
    if level == 1 {
        "# "@
    } else if level == 2 {
        "## "@
    } else if level == 3 {
        "### "@
    } else {
        ""@
    }
}

/// The rendered code lines of a fenced block.
pub open spec fn code_lines_text(style: CommentStyle, lines: Seq<Seq<char>>) -> Seq<char>
    decreases lines.len(),
{
    if lines.len() == 0 {
        Seq::empty()
    } else {
        code_lines_text(style, lines.drop_last()) + comment_line_spec(style, lines.last())
            + "\n"@
    }
}

/// The rendered text of one section.
pub open spec fn section_text(style: CommentStyle, s: SectionV) -> Seq<char> {
    match s {
        SectionV::Blank => comment_line_spec(style, ""@) + "\n"@,
        SectionV::Line(t) => comment_line_spec(style, t) + "\n"@,
        SectionV::Heading { text, level } => comment_line_spec(
            style,
            heading_prefix(level) + text,
        ) + "\n"@,
        SectionV::CodeBlock { lang, lines } => comment_line_spec(style, "```"@ + lang) + "\n"@
            + code_lines_text(style, lines) + comment_line_spec(style, "```"@) + "\n"@,
    }
}

/// The rendered text of a whole section list.
pub open spec fn render_text(style: CommentStyle, ss: Seq<SectionV>) -> Seq<char>
    decreases ss.len(),
{
    if ss.len() == 0 {
        Seq::empty()
    } else {
        render_text(style, ss.drop_last()) + section_text(style, ss.last())
    }
}

/// Render a section list as a comment block in the given style.
#[verifier::loop_isolation(false)]
#[verifier::rlimit(100)]
fn render(style: CommentStyle, sections: &Vec<Section>) -> (r: String)
    ensures
        r@ == render_text(style, sections@.map_values(|s: Section| s@)),
{
    let ghost sv = sections@.map_values(|s: Section| s@);
    let mut out = String::new();
    let mut i: usize = 0;
    proof {
        assert(sv.subrange(0, 0) =~= Seq::<SectionV>::empty());
        assert(out@ =~= render_text(style, sv.subrange(0, 0)));
    }
    while i < sections.len()
        invariant
            i <= sections@.len(),
            out@ == render_text(style, sv.subrange(0, i as int)),
        decreases sections@.len() - i,
    {
        proof {
            assert(sv[i as int] == sections@[i as int]@);
            assert(sv.subrange(0, i + 1).drop_last() =~= sv.subrange(0, i as int));
            assert(sv.subrange(0, i + 1).last() == sv[i as int]);
        }
        match &sections[i] {
            Section::Blank => {
                push_comment_line(&mut out, style, "");
                proof {
                    reveal_strlit("");
                    assert(""@ =~= Seq::<char>::empty());
                    assert(out@ =~= render_text(style, sv.subrange(0, i + 1)));
                }
            },
            Section::Line(t) => {
                push_comment_line(&mut out, style, t.as_str());
                proof {
                    assert(out@ =~= render_text(style, sv.subrange(0, i + 1)));
                }
            },
            Section::Heading { text, level } => {
                let mut h = if *level == 1 {
                    String::from_str("# ")
                } else if *level == 2 {
                    String::from_str("## ")
                } else if *level == 3 {
                    String::from_str("### ")
                } else {
                    String::from_str("")
                };
                h.append(text.as_str());
                proof {
                    assert(h@ =~= heading_prefix(sections@[i as int]->Heading_level) + text@);
                }
                push_comment_line(&mut out, style, h.as_str());
                proof {
                    assert(out@ =~= render_text(style, sv.subrange(0, i + 1)));
                }
            },
            Section::CodeBlock { lang, lines } => {
                let mut open_fence = String::from_str("```");
                open_fence.append(lang.as_str());
                proof {
                    assert(open_fence@ =~= "```"@ + lang@);
                }
                push_comment_line(&mut out, style, open_fence.as_str());
                let ghost lv = lines@.map_values(|l: String| l@);
                let ghost base = out@;
                let mut j: usize = 0;
                proof {
                    assert(lv.subrange(0, 0) =~= Seq::<Seq<char>>::empty());
                    assert(out@ =~= base + code_lines_text(style, lv.subrange(0, 0)));
                }
                while j < lines.len()
                    invariant
                        j <= lines@.len(),
                        i < sections@.len(),
                        lv == lines@.map_values(|l: String| l@),
                        out@ == base + code_lines_text(style, lv.subrange(0, j as int)),
                    decreases lines@.len() - j,
                {
                    proof {
                        assert(lv[j as int] == lines@[j as int]@);
                        assert(lv.subrange(0, j + 1).drop_last() =~= lv.subrange(0, j as int));
                        assert(lv.subrange(0, j + 1).last() == lv[j as int]);
                    }
                    push_comment_line(&mut out, style, lines[j].as_str());
                    proof {
                        assert(out@ =~= base + code_lines_text(style, lv.subrange(0, j + 1)));
                    }
                    j = j + 1;
                }
                proof {
                    assert(lv.subrange(0, lv.len() as int) =~= lv);
                }
                push_comment_line(&mut out, style, "```");
                proof {
                    assert(out@ =~= render_text(style, sv.subrange(0, i + 1)));
                }
            },
        }
        i = i + 1;
    }
    proof {
        assert(sv.subrange(0, sv.len() as int) =~= sv);
    }
    out
}

/// The fixed section list of the root-level template.
pub open spec fn template_sections() -> Seq<SectionV> {
    seq![
        SectionV::Heading { text: "@c4 container"@, level: 0u8 },
        SectionV::Heading { text: "[Project Name]"@, level: 1u8 },
        SectionV::Blank,
        SectionV::Line(
            "[TODO: One-line description \u{2014} what this system does and why it exists.]"@,
        ),
        SectionV::Blank,
        SectionV::Heading { text: "C4 Context"@, level: 2u8 },
        SectionV::Blank,
        SectionV::CodeBlock {
            lang: "mermaid"@,
            lines: seq![
                "C4Context"@,
                "    title System Context Diagram"@,
                ""@,
                "    Person(user, \"TODO: User\", \"TODO: Primary user/actor\")"@,
                "    System(system, \"TODO: System Name\", \"TODO: System purpose\")"@,
                "    System_Ext(ext1, \"TODO: External System\", \"TODO: External dependency\")"@,
                ""@,
                "    Rel(user, system, \"Uses\")"@,
                "    Rel(system, ext1, \"TODO: relationship\", \"TODO: protocol\")"@,
                ""@,
                "    UpdateLayoutConfig($c4ShapeInRow=\"3\", $c4BoundaryInRow=\"1\")"@,
            ],
        },
        SectionV::Blank,
        SectionV::Heading { text: "Data Flow"@, level: 2u8 },
        SectionV::Blank,
        SectionV::Line(
            "1. TODO: Primary command/request flow (e.g., Frontend -> API -> Service -> DB)"@,
        ),
        SectionV::Line("2. TODO: Primary data/response flow (e.g., DB -> Service -> Frontend)"@),
        SectionV::Line("3. TODO: Secondary flows (settings, config, async jobs, etc.)"@),
        SectionV::Blank,
        SectionV::Heading { text: "Concurrency & Data Patterns"@, level: 2u8 },
        SectionV::Blank,
        SectionV::Line(
            "- TODO: Key concurrency primitives (locks, channels, atomics, async, etc.)"@,
        ),
        SectionV::Line(
            "- TODO: Data access patterns (caching, buffering, connection pooling, etc.)"@,
        ),
        SectionV::Blank,
        SectionV::Heading { text: "Deployment"@, level: 2u8 },
        SectionV::Blank,
        SectionV::Line("- TODO: Where does this run? (local, cloud, hybrid, embedded)"@),
        SectionV::Line("- TODO: Key infrastructure (Docker, K8s, serverless, etc.)"@),
        SectionV::Blank,
        SectionV::Heading { text: "External Dependencies"@, level: 2u8 },
        SectionV::Blank,
        SectionV::Line("- TODO: Third-party APIs and services"@),
        SectionV::Line("- TODO: Databases and storage systems"@),
    ]
}

/// Generate a root-level annotation template for a project's entry file:
/// a comment block with the recommended architectural sections, each with
/// placeholders to fill in.
#[verifier::rlimit(100)]
pub fn generate_template(style: CommentStyle) -> (r: String)
    ensures
        r@ == render_text(style, template_sections()),
{
    let mut code: Vec<String> = Vec::new();
    code.push(String::from_str("C4Context"));
    code.push(String::from_str("    title System Context Diagram"));
    code.push(String::from_str(""));
    code.push(String::from_str("    Person(user, \"TODO: User\", \"TODO: Primary user/actor\")"));
    code.push(
        String::from_str("    System(system, \"TODO: System Name\", \"TODO: System purpose\")"),
    );
    code.push(
        String::from_str(
            "    System_Ext(ext1, \"TODO: External System\", \"TODO: External dependency\")",
        ),
    );
    code.push(String::from_str(""));
    code.push(String::from_str("    Rel(user, system, \"Uses\")"));
    code.push(String::from_str("    Rel(system, ext1, \"TODO: relationship\", \"TODO: protocol\")"));
    code.push(String::from_str(""));
    code.push(
        String::from_str("    UpdateLayoutConfig($c4ShapeInRow=\"3\", $c4BoundaryInRow=\"1\")"),
    );
    let ghost codev = code@.map_values(|l: String| l@);
    proof {
        assert(codev =~~= seq![
            "C4Context"@,
            "    title System Context Diagram"@,
            ""@,
            "    Person(user, \"TODO: User\", \"TODO: Primary user/actor\")"@,
            "    System(system, \"TODO: System Name\", \"TODO: System purpose\")"@,
            "    System_Ext(ext1, \"TODO: External System\", \"TODO: External dependency\")"@,
            ""@,
            "    Rel(user, system, \"Uses\")"@,
            "    Rel(system, ext1, \"TODO: relationship\", \"TODO: protocol\")"@,
            ""@,
            "    UpdateLayoutConfig($c4ShapeInRow=\"3\", $c4BoundaryInRow=\"1\")"@,
        ]);
    }
    let mut sections: Vec<Section> = Vec::new();
    sections.push(Section::heading("@c4 container"));
    sections.push(Section::heading("[Project Name]").h1());
    sections.push(Section::blank());
    sections.push(
        Section::line(
            "[TODO: One-line description \u{2014} what this system does and why it exists.]",
        ),
    );
    sections.push(Section::blank());
    sections.push(Section::heading("C4 Context").h2());
    sections.push(Section::blank());
    sections.push(Section::code_block("mermaid", code));
    sections.push(Section::blank());
    sections.push(Section::heading("Data Flow").h2());
    sections.push(Section::blank());
    sections.push(
        Section::line(
            "1. TODO: Primary command/request flow (e.g., Frontend -> API -> Service -> DB)",
        ),
    );
    sections.push(
        Section::line("2. TODO: Primary data/response flow (e.g., DB -> Service -> Frontend)"),
    );
    sections.push(Section::line("3. TODO: Secondary flows (settings, config, async jobs, etc.)"));
    sections.push(Section::blank());
    sections.push(Section::heading("Concurrency & Data Patterns").h2());
    sections.push(Section::blank());
    sections.push(
        Section::line("- TODO: Key concurrency primitives (locks, channels, atomics, async, etc.)"),
    );
    sections.push(
        Section::line("- TODO: Data access patterns (caching, buffering, connection pooling, etc.)"),
    );
    sections.push(Section::blank());
    sections.push(Section::heading("Deployment").h2());
    sections.push(Section::blank());
    sections.push(Section::line("- TODO: Where does this run? (local, cloud, hybrid, embedded)"));
    sections.push(Section::line("- TODO: Key infrastructure (Docker, K8s, serverless, etc.)"));
    sections.push(Section::blank());
    sections.push(Section::heading("External Dependencies").h2());
    sections.push(Section::blank());
    sections.push(Section::line("- TODO: Third-party APIs and services"));
    sections.push(Section::line("- TODO: Databases and storage systems"));
    proof {
        assert(sections@.map_values(|s: Section| s@) =~~= template_sections());
    }
    render(style, &sections)
}

/// Wrap TypeScript output in JSDoc delimiters.
pub fn wrap_jsdoc(content: &str) -> (r: String)
    ensures
        r@ == "/**\n"@ + content@ + " */\n"@,
{
    let mut out = String::from_str("/**\n");
    out.append(content);
    out.append(" */\n");
    proof {
        assert(out@ =~= "/**\n"@ + content@ + " */\n"@);
    }
    out
}

} // verus!
