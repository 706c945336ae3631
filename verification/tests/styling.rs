use colored_diff::style::{paint, strip_styling, Highlight};
use colored_diff::PrettyDifference;
use regex::Regex;

fn regex_stripped(text: &str) -> String {
    let re = Regex::new(r"\u{1b}\[[0-9;]*m").unwrap();
    re.replace_all(text, "").into_owned()
}

#[test]
fn paint_left_classes_red() {
    assert_eq!(paint(Highlight::UnchangedLeft, "x"), "\u{1b}[31mx\u{1b}[0m");
    assert_eq!(paint(Highlight::RemovedWhole, "x"), "\u{1b}[31mx\u{1b}[0m");
}

#[test]
fn paint_right_classes_green() {
    assert_eq!(paint(Highlight::UnchangedRight, "x"), "\u{1b}[32mx\u{1b}[0m");
    assert_eq!(paint(Highlight::AddedWhole, "x"), "\u{1b}[32mx\u{1b}[0m");
}

#[test]
fn paint_spans_bold_white_on_colour() {
    assert_eq!(paint(Highlight::RemovedSpan, "x"), "\u{1b}[1;41;37mx\u{1b}[0m");
    assert_eq!(paint(Highlight::AddedSpan, "x"), "\u{1b}[1;42;37mx\u{1b}[0m");
}

#[test]
fn paint_empty_text_still_styles() {
    assert_eq!(paint(Highlight::RemovedWhole, ""), "\u{1b}[31m\u{1b}[0m");
    assert_eq!(paint(Highlight::AddedSpan, ""), "\u{1b}[1;42;37m\u{1b}[0m");
}

#[test]
fn paint_keeps_the_text_as_it_is() {
    assert_eq!(
        paint(Highlight::UnchangedLeft, "a\nb é\u{1b}[0m"),
        "\u{1b}[31ma\nb é\u{1b}[0m\u{1b}[0m"
    );
}

#[test]
fn glyphs_of_the_classes() {
    assert_eq!(Highlight::UnchangedLeft.glyph(), "<");
    assert_eq!(Highlight::RemovedWhole.glyph(), "<");
    assert_eq!(Highlight::RemovedSpan.glyph(), "<");
    assert_eq!(Highlight::UnchangedRight.glyph(), ">");
    assert_eq!(Highlight::AddedWhole.glyph(), ">");
    assert_eq!(Highlight::AddedSpan.glyph(), ">");
}

#[test]
fn strip_removes_styling_sequences() {
    assert_eq!(strip_styling("\u{1b}[31mred\u{1b}[0m"), "red");
    assert_eq!(strip_styling("\u{1b}[1;41;37mx\u{1b}[0m y"), "x y");
    assert_eq!(strip_styling("\u{1b}[m"), "");
    assert_eq!(strip_styling("\u{1b}[;;m"), "");
}

#[test]
fn strip_keeps_text_without_styling() {
    assert_eq!(strip_styling(""), "");
    assert_eq!(strip_styling("plain text\n"), "plain text\n");
    assert_eq!(strip_styling("[31m"), "[31m");
    assert_eq!(strip_styling("é ü 漢"), "é ü 漢");
}

#[test]
fn strip_keeps_what_only_looks_like_styling() {
    assert_eq!(strip_styling("\u{1b}"), "\u{1b}");
    assert_eq!(strip_styling("\u{1b}["), "\u{1b}[");
    assert_eq!(strip_styling("\u{1b}[12"), "\u{1b}[12");
    assert_eq!(strip_styling("\u{1b}[12x"), "\u{1b}[12x");
    assert_eq!(strip_styling("\u{1b}31m"), "\u{1b}31m");
    assert_eq!(strip_styling("\u{1b}[1 m"), "\u{1b}[1 m");
}

#[test]
fn strip_resumes_right_after_a_failed_start() {
    assert_eq!(strip_styling("\u{1b}[1\u{1b}[0mx"), "\u{1b}[1x");
    assert_eq!(strip_styling("\u{1b}\u{1b}[0m"), "\u{1b}");
    assert_eq!(strip_styling("\u{1b}[\u{1b}[31m\u{1b}[0mm"), "\u{1b}[m");
}

#[test]
fn strip_agrees_with_the_pattern() {
    let samples = [
        "",
        "plain",
        "\u{1b}[31mred\u{1b}[0m",
        "\u{1b}[1;41;37mx\u{1b}[0m",
        "\u{1b}",
        "\u{1b}[",
        "\u{1b}[1",
        "\u{1b}[1;",
        "\u{1b}[m",
        "\u{1b}[1\u{1b}[0mx",
        "\u{1b}\u{1b}[0m",
        "a\u{1b}[0mb\u{1b}[12;3mc\u{1b}[xm",
        "\u{1b}[0\u{1b}[0\u{1b}[0m",
        "é\u{1b}[31mü\u{1b}[0m漢",
        "m\u{1b}[mm",
    ];
    for sample in samples {
        assert_eq!(strip_styling(sample), regex_stripped(sample));
    }
}

#[test]
fn strip_agrees_with_the_pattern_on_reports() {
    let pairs = [
        ("", ""),
        ("", "foo"),
        ("a\nb\nc", "\nb\ncc"),
        ("Hello Wrold!", "Hello World!"),
        ("one\ntwo\nthree\n", "one\n2\nthree\nfour\n"),
        ("with \u{1b}[0m inside", "with \u{1b}[ inside"),
    ];
    for (expected, actual) in pairs {
        let report = PrettyDifference { expected, actual }.to_string();
        assert_eq!(strip_styling(&report), regex_stripped(&report));
    }
}
