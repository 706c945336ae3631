use colored_diff::chunk::Chunk;
use colored_diff::render::{classify, fmt_changeset, format_add_rem, format_rows, Action};
use colored_diff::style::strip_styling;
use colored_diff::{diff, PrettyDifference};
use regex::Regex;

const RED: &str = "\u{1b}[31m";
const GREEN: &str = "\u{1b}[32m";
const ON_RED: &str = "\u{1b}[1;41;37m";
const ON_GREEN: &str = "\u{1b}[1;42;37m";
const RESET: &str = "\u{1b}[0m";

fn red(s: &str) -> String {
    format!("{}{}{}", RED, s, RESET)
}

fn green(s: &str) -> String {
    format!("{}{}{}", GREEN, s, RESET)
}

fn on_red(s: &str) -> String {
    format!("{}{}{}", ON_RED, s, RESET)
}

fn on_green(s: &str) -> String {
    format!("{}{}{}", ON_GREEN, s, RESET)
}

fn legend() -> String {
    format!("{} {} / {} {}\n", red("<"), red("left"), green(">"), green("right"))
}

fn changeset_report(changeset: &Vec<Chunk>) -> String {
    let mut out = String::new();
    fmt_changeset(&mut out, changeset);
    out
}

#[test]
fn single_add() {
    PrettyDifference {
        expected: "",
        actual: "foo",
    }
    .to_string();
}

#[test]
fn color_free_diff() {
    let diff: String = PrettyDifference {
        expected: "a\nb\nc",
        actual: "\nb\ncc",
    }
    .to_string();

    let re = Regex::new(r"\u{1b}\[[0-9;]*m").unwrap();
    assert_eq!(
        re.replace_all(&diff, ""),
        "< left / > right\n<a\n \n b\n c\n>c\n"
    );
}

#[test]
fn color_diff() {
    let diff: String = PrettyDifference {
        expected: "a\nb\nc",
        actual: "\nb\ncc",
    }
    .to_string();

    assert_eq!(diff, "\u{1b}[31m<\u{1b}[0m \u{1b}[31mleft\u{1b}[0m / \u{1b}[32m>\u{1b}[0m \u{1b}[32mright\u{1b}[0m\n\u{1b}[31m<\u{1b}[0m\u{1b}[31ma\u{1b}[0m\n \n b\n c\n\u{1b}[32m>\u{1b}[0m\u{1b}[32mc\u{1b}[0m\n");
}

#[test]
fn single_add_is_legend_then_added_line() {
    let report = PrettyDifference {
        expected: "",
        actual: "foo",
    }
    .to_string();
    assert_eq!(report, format!("{}{}{}\n", legend(), green(">"), green("foo")));
    assert!(!strip_styling(&report).contains("\n<"));
}

#[test]
fn single_removal_is_legend_then_removed_line() {
    let report = PrettyDifference {
        expected: "foo",
        actual: "",
    }
    .to_string();
    assert_eq!(report, format!("{}{}{}\n", legend(), red("<"), red("foo")));
}

#[test]
fn two_empty_texts_give_the_legend_alone() {
    let report = PrettyDifference {
        expected: "",
        actual: "",
    }
    .to_string();
    assert_eq!(report, legend());
    assert_eq!(strip_styling(&report), "< left / > right\n");
}

#[test]
fn equal_texts_give_unchanged_lines() {
    let report = PrettyDifference {
        expected: "one\ntwo",
        actual: "one\ntwo",
    }
    .to_string();
    assert_eq!(report, format!("{} one\n two\n", legend()));
}

#[test]
fn diff_appends_to_what_the_sink_holds() {
    let mut out = String::from("before\n");
    diff(&mut out, "", "foo");
    assert_eq!(out, format!("before\n{}{}{}\n", legend(), green(">"), green("foo")));
}

#[test]
fn diff_and_to_string_agree() {
    let mut out = String::new();
    diff(&mut out, "a\nb\nc", "\nb\ncc");
    let report = PrettyDifference {
        expected: "a\nb\nc",
        actual: "\nb\ncc",
    }
    .to_string();
    assert_eq!(out, report);
}

#[test]
fn empty_changeset_is_the_legend() {
    assert_eq!(changeset_report(&Vec::new()), legend());
}

#[test]
fn changeset_of_each_plain_action() {
    let changeset = vec![
        Chunk::Equal("same\nlines"),
        Chunk::Insert("new"),
        Chunk::Equal("mid"),
        Chunk::Delete("old\ngone"),
    ];
    let expected = format!(
        "{} same\n lines\n{}{}\n mid\n{}{}\n{}{}\n",
        legend(),
        green(">"),
        green("new"),
        red("<"),
        red("old"),
        red("<"),
        red("gone"),
    );
    assert_eq!(changeset_report(&changeset), expected);
}

#[test]
fn deletion_then_insertion_is_one_modified_line() {
    let changeset = vec![Chunk::Delete("Wrold"), Chunk::Insert("World")];
    let mut rows = String::new();
    format_add_rem(&mut rows, "World", "Wrold");
    let report = changeset_report(&changeset);
    assert_eq!(report, format!("{}{}", legend(), rows));
    assert_eq!(strip_styling(&report), "< left / > right\n<Wrold\n>World\n");
    assert_ne!(
        report,
        format!(
            "{}{}{}\n{}{}\n",
            legend(),
            red("<"),
            red("Wrold"),
            green(">"),
            green("World")
        )
    );
    assert!(report.contains(ON_RED));
    assert!(report.contains(ON_GREEN));
}

#[test]
fn insertion_then_deletion_is_not_paired() {
    let changeset = vec![Chunk::Insert("new"), Chunk::Delete("old")];
    let expected = format!(
        "{}{}{}\n{}{}\n",
        legend(),
        green(">"),
        green("new"),
        red("<"),
        red("old")
    );
    assert_eq!(changeset_report(&changeset), expected);
}

#[test]
fn only_the_deletion_next_to_the_insertion_is_paired() {
    let changeset = vec![
        Chunk::Delete("first"),
        Chunk::Delete("second"),
        Chunk::Insert("third"),
        Chunk::Insert("fourth"),
    ];
    let mut rows = String::new();
    format_add_rem(&mut rows, "third", "second");
    let expected = format!(
        "{}{}{}\n{}{}{}\n",
        legend(),
        red("<"),
        red("first"),
        rows,
        green(">"),
        green("fourth")
    );
    assert_eq!(changeset_report(&changeset), expected);
}

#[test]
fn shared_text_between_keeps_deletion_and_insertion_apart() {
    let changeset = vec![Chunk::Delete("a"), Chunk::Equal("\nb\nc"), Chunk::Insert("c")];
    let expected = format!(
        "{}{}{}\n \n b\n c\n{}{}\n",
        legend(),
        red("<"),
        red("a"),
        green(">"),
        green("c")
    );
    assert_eq!(changeset_report(&changeset), expected);
}

#[test]
fn classify_follows_the_neighbours() {
    let changeset = vec![
        Chunk::Equal("e"),
        Chunk::Insert("i"),
        Chunk::Delete("d"),
        Chunk::Insert("i"),
        Chunk::Insert("i"),
        Chunk::Delete("d"),
        Chunk::Delete("d"),
        Chunk::Equal("e"),
        Chunk::Delete("d"),
    ];
    let actions: Vec<Action> = (0..changeset.len()).map(|i| classify(&changeset, i)).collect();
    assert_eq!(
        actions,
        vec![
            Action::Same,
            Action::Add,
            Action::Suppress,
            Action::Refine,
            Action::Add,
            Action::Remove,
            Action::Remove,
            Action::Same,
            Action::Remove,
        ]
    );
}

#[test]
fn classify_at_the_ends() {
    assert_eq!(classify(&vec![Chunk::Insert("i")], 0), Action::Add);
    assert_eq!(classify(&vec![Chunk::Delete("d")], 0), Action::Remove);
    assert_eq!(classify(&vec![Chunk::Equal("")], 0), Action::Same);
    let pair = vec![Chunk::Delete("d"), Chunk::Insert("i")];
    assert_eq!(classify(&pair, 0), Action::Suppress);
    assert_eq!(classify(&pair, 1), Action::Refine);
}

#[test]
fn rows_of_a_modified_line_letter_by_letter() {
    let fine = vec![
        Chunk::Equal("W"),
        Chunk::Delete("r"),
        Chunk::Equal("o"),
        Chunk::Insert("r"),
        Chunk::Equal("ld"),
    ];
    let mut out = String::new();
    format_rows(&mut out, &fine);
    let expected = format!(
        "{}{}{}{}{}\n{}{}{}{}{}\n",
        red("<"),
        red("W"),
        on_red("r"),
        red("o"),
        red("ld"),
        green(">"),
        green("W"),
        green("o"),
        on_green("r"),
        green("ld"),
    );
    assert_eq!(out, expected);
}

#[test]
fn rows_repeat_the_marker_after_a_line_break() {
    let fine = vec![Chunk::Equal("a\nb"), Chunk::Delete("x\ny"), Chunk::Insert("\n")];
    let mut out = String::new();
    format_rows(&mut out, &fine);
    let expected = format!(
        "{}{}{}{}{}{}{}\n{}{}{}{}{}{}{}\n",
        red("<"),
        red("a"),
        red("\n<"),
        red("b"),
        on_red("x"),
        on_red("\n<"),
        on_red("y"),
        green(">"),
        green("a"),
        green("\n>"),
        green("b"),
        on_green(""),
        on_green("\n>"),
        on_green(""),
    );
    assert_eq!(out, expected);
    assert_eq!(strip_styling(&out), "<a\n<bx\n<y\n>a\n>b\n>\n");
}

#[test]
fn rows_of_an_empty_comparison() {
    let mut out = String::new();
    format_rows(&mut out, &Vec::new());
    assert_eq!(out, format!("{}\n{}\n", red("<"), green(">")));
}

#[test]
fn modified_line_reads_as_both_texts() {
    let mut out = String::new();
    format_add_rem(&mut out, "World", "Wrold");
    assert_eq!(strip_styling(&out), "<Wrold\n>World\n");
    assert!(out.starts_with(&red("<")));
    assert!(out.contains(&format!("\n{}", green(">"))));
    assert!(out.ends_with('\n'));
}

#[test]
fn modified_line_emphasizes_the_changed_letters() {
    let mut out = String::new();
    format_add_rem(&mut out, "World", "Wrold");
    let expected = format!(
        "{}{}{}{}{}\n{}{}{}{}{}\n",
        red("<"),
        red("W"),
        on_red("r"),
        red("o"),
        red("ld"),
        green(">"),
        green("W"),
        green("o"),
        on_green("r"),
        green("ld"),
    );
    assert_eq!(out, expected);
}

#[test]
fn modified_line_over_several_lines() {
    let mut out = String::new();
    format_add_rem(&mut out, "one\ntwo\nfive", "one\nthree\nfour");
    assert_eq!(strip_styling(&out), "<one\n<three\n<four\n>one\n>two\n>five\n");
}
