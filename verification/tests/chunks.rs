use colored_diff::chunk::{accept, diff_chunks, is_partition, Chunk};

fn left_text(chunks: &Vec<Chunk>) -> String {
    let mut text = String::new();
    for chunk in chunks {
        match chunk {
            Chunk::Equal(t) | Chunk::Delete(t) => text.push_str(t),
            Chunk::Insert(_) => {}
        }
    }
    text
}

fn right_text(chunks: &Vec<Chunk>) -> String {
    let mut text = String::new();
    for chunk in chunks {
        match chunk {
            Chunk::Equal(t) | Chunk::Insert(t) => text.push_str(t),
            Chunk::Delete(_) => {}
        }
    }
    text
}

#[test]
fn chunk_text_is_the_text_under_any_tag() {
    assert_eq!(Chunk::Equal("e").text(), "e");
    assert_eq!(Chunk::Delete("d").text(), "d");
    assert_eq!(Chunk::Insert("i").text(), "i");
}

#[test]
fn chunks_of_the_three_line_example() {
    assert_eq!(
        diff_chunks("a\nb\nc", "\nb\ncc"),
        vec![Chunk::Delete("a"), Chunk::Equal("\nb\nc"), Chunk::Insert("c")]
    );
}

#[test]
fn chunks_of_one_sided_texts() {
    assert_eq!(diff_chunks("", ""), Vec::new());
    assert_eq!(diff_chunks("", "foo"), vec![Chunk::Insert("foo")]);
    assert_eq!(diff_chunks("foo", ""), vec![Chunk::Delete("foo")]);
    assert_eq!(diff_chunks("same", "same"), vec![Chunk::Equal("same")]);
}

#[test]
fn chunks_are_a_comparison_not_the_inputs() {
    let chunks = diff_chunks("abcdef", "abcxef");
    assert_ne!(chunks, vec![Chunk::Delete("abcdef"), Chunk::Insert("abcxef")]);
    assert!(chunks.contains(&Chunk::Equal("abc")));
}

#[test]
fn chunks_partition_the_two_texts() {
    let pairs = [
        ("", ""),
        ("", "foo"),
        ("foo", ""),
        ("a\nb\nc", "\nb\ncc"),
        ("Hello Wrold!", "Hello World!"),
        ("The quick brown fox", "The quick red fox jumps"),
        ("é ü 漢字", "e ü 漢"),
        ("one\ntwo\nthree\n", "one\n2\nthree\nfour\n"),
    ];
    for (expected, actual) in pairs {
        let chunks = diff_chunks(expected, actual);
        assert_eq!(left_text(&chunks), expected);
        assert_eq!(right_text(&chunks), actual);
        assert!(is_partition(&chunks, expected, actual));
    }
}

#[test]
fn is_partition_accepts_what_makes_up_both_texts() {
    let chunks = vec![Chunk::Delete("a"), Chunk::Equal("\nb\nc"), Chunk::Insert("c")];
    assert!(is_partition(&chunks, "a\nb\nc", "\nb\ncc"));
    assert!(is_partition(&Vec::new(), "", ""));
    assert!(is_partition(&vec![Chunk::Equal(""), Chunk::Insert("x")], "", "x"));
}

#[test]
fn is_partition_refuses_missing_or_misplaced_text() {
    let chunks = vec![Chunk::Delete("a"), Chunk::Equal("b"), Chunk::Insert("c")];
    assert!(!is_partition(&chunks, "ab", "bx"));
    assert!(!is_partition(&chunks, "abc", "bc"));
    assert!(!is_partition(&chunks, "ba", "bc"));
    assert!(!is_partition(&Vec::new(), "a", ""));
    assert!(!is_partition(&Vec::new(), "", "a"));
    let swapped = vec![Chunk::Equal("b"), Chunk::Delete("a"), Chunk::Insert("c")];
    assert!(!is_partition(&swapped, "ab", "bc"));
}

#[test]
fn accept_keeps_a_changeset_that_partitions() {
    let chunks = vec![Chunk::Delete("a"), Chunk::Equal("b"), Chunk::Insert("c")];
    assert_eq!(accept(chunks.clone(), "ab", "bc"), chunks);
}

#[test]
fn accept_replaces_a_changeset_that_does_not() {
    let chunks = vec![Chunk::Delete("a"), Chunk::Equal("b"), Chunk::Insert("c")];
    assert_eq!(
        accept(chunks, "ab", "bd"),
        vec![Chunk::Delete("ab"), Chunk::Insert("bd")]
    );
    assert_eq!(accept(Vec::new(), "", "x"), vec![Chunk::Delete(""), Chunk::Insert("x")]);
}
