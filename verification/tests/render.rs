use plainly::model::{Citation, CodeExample, Explanation, Level};
use plainly::render::{render, tone_style, Ink, Theme, Tone, ToneStyle};

fn sample() -> Explanation {
    Explanation {
        topic: "CAP theorem".into(),
        level: Level::Fifteen,
        summary: "When the network breaks, pick consistency or availability.".into(),
        plain: "First paragraph.\n\nSecond paragraph.".into(),
        analogy: "Two shopkeepers with one shared notebook.".into(),
        analogy_limits: vec!["Real systems partition partially, not totally.".into()],
        example: Some(CodeExample {
            language: "rust".into(),
            code: "fn main() {}".into(),
            commentary: "Notice nothing happens.".into(),
        }),
        corrections: vec!["Removed the claim that CA systems exist.".into()],
        caveats: vec!["Latency numbers are illustrative.".into()],
        citations: vec![],
    }
}

fn bare(topic: &str, summary: &str, plain: &str) -> Explanation {
    Explanation {
        topic: topic.into(),
        level: Level::Five,
        summary: summary.into(),
        plain: plain.into(),
        analogy: String::new(),
        analogy_limits: vec![],
        example: None,
        corrections: vec![],
        caveats: vec![],
        citations: vec![],
    }
}

#[test]
fn plain_output_has_no_ansi_escapes() {
    let theme = Theme { color: false, width: 60 };
    let out = render(&sample(), &theme);
    assert!(!out.contains('\u{1b}'), "expected no ANSI escapes: {out}");
}

#[test]
fn includes_every_section() {
    let out = render(&sample(), &Theme { color: false, width: 60 });
    for expected in [
        "CAP theorem",
        "Think of it like this",
        "Where that breaks down",
        "In code (rust)",
        "Unverified",
        "The fact-check pass changed",
    ] {
        assert!(out.contains(expected), "missing {expected} in:\n{out}");
    }
}

#[test]
fn a_bare_explanation_renders_exactly() {
    let out = render(&bare("T", "S.", "P1\n\n\n\n  P2  "), &Theme { color: false, width: 88 });
    let rule = "\u{2500}".repeat(14);
    assert_eq!(out, format!("T  (5)\n{rule}\nS.\n\nP1\n\nP2\n\n"));
}

#[test]
fn the_rule_is_no_wider_than_the_theme() {
    let out = render(&bare("A long topic name", "", ""), &Theme { color: false, width: 10 });
    let rule = "\u{2500}".repeat(10);
    assert_eq!(out, format!("A long topic name  (5)\n{rule}\n"));
}

#[test]
fn colored_output_wraps_each_part_in_its_style() {
    let out = render(&bare("T", "", ""), &Theme { color: true, width: 88 });
    let rule = "\u{2500}".repeat(14);
    assert_eq!(out, format!("\u{1b}[97;1mT  (5)\u{1b}[0m\n\u{1b}[2m{rule}\u{1b}[0m\n"));
    let mut e = bare("T", "", "");
    e.caveats = vec!["c".into()];
    let out = render(&e, &Theme { color: true, width: 88 });
    assert!(out.contains("\n\u{1b}[96;1mUnverified\u{1b}[0m\n"));
    assert!(out.contains("\u{1b}[33;1m  ?\u{1b}[0m c\n"));
}

#[test]
fn sources_list_title_link_and_claim() {
    let mut e = bare("T", "", "");
    e.citations = vec![
        Citation { title: "RFC".into(), url: Some("https://x".into()), supports: "claim".into() },
        Citation { title: "Book".into(), url: None, supports: "other".into() },
    ];
    let out = render(&e, &Theme { color: false, width: 88 });
    assert!(out.ends_with("\nSources\n  RFC\n    https://x\n    claim\n  Book\n    other\n\n"), "{out}");
}

#[test]
fn code_lines_are_indented_and_blank_commentary_is_dropped() {
    let mut e = bare("T", "", "");
    e.example = Some(CodeExample {
        language: "rust".into(),
        code: "let a = 1;\nlet b = 2;".into(),
        commentary: "   ".into(),
    });
    let out = render(&e, &Theme { color: false, width: 88 });
    assert!(out.ends_with("\nIn code (rust)\n  let a = 1;\n  let b = 2;\n\n"), "{out}");
}

#[test]
fn bullets_wrap_under_their_marker() {
    let mut e = bare("T", "", "");
    e.analogy_limits = vec!["one two three four five six seven eight nine ten".into()];
    let out = render(&e, &Theme { color: false, width: 20 });
    assert!(out.contains("Where that breaks down\n  \u{26a0} one two"), "{out}");
    assert!(out.contains("\n    "), "{out}");
    assert!(out.ends_with("ten\n\n"), "{out}");
}

#[test]
fn default_theme_is_colored_and_88_wide() {
    let t = Theme::default();
    assert!(t.color);
    assert_eq!(t.width, 88);
}

#[test]
fn each_tone_has_its_style() {
    assert_eq!(
        tone_style(Tone::Link),
        ToneStyle { ink: Some(Ink::Blue), bold: false, dimmed: false, underline: true }
    );
    assert_eq!(
        tone_style(Tone::Strong),
        ToneStyle { ink: None, bold: true, dimmed: false, underline: false }
    );
    assert_eq!(
        tone_style(Tone::Heading),
        ToneStyle { ink: Some(Ink::BrightCyan), bold: true, dimmed: false, underline: false }
    );
}
