//! Highlight classes and the terminal styling that each one stands for.

use ansi_term::Colour;
use vstd::prelude::*;

verus! {

/// What a span of the report means; the concrete styling follows from it.
#[derive(Clone, Copy, Debug, PartialEq, Eq, Structural)]
pub enum Highlight {
    /// Text on the left row of a modified line that did not change.
    UnchangedLeft,
    /// Text on the right row of a modified line that did not change.
    UnchangedRight,
    /// A line that only the left text has.
    RemovedWhole,
    /// The exact span within a modified line that was removed.
    RemovedSpan,
    /// A line that only the right text has.
    AddedWhole,
    /// The exact span within a modified line that was added.
    AddedSpan,
}

/// The character that opens every styling sequence.
pub open spec fn escape() -> char {
    '\u{1b}'
}

/// The sequence that ends any styling: `ESC [ 0 m`.
pub open spec fn reset_code() -> Seq<char> {
    seq![escape(), '[', '0', 'm']
}

/// Red foreground: `ESC [ 3 1 m`.
pub open spec fn red_code() -> Seq<char> {
    seq![escape(), '[', '3', '1', 'm']
}

/// Green foreground: `ESC [ 3 2 m`.
pub open spec fn green_code() -> Seq<char> {
    seq![escape(), '[', '3', '2', 'm']
}

/// Bold white on a red background: `ESC [ 1 ; 4 1 ; 3 7 m`.
pub open spec fn on_red_code() -> Seq<char> {
    seq![escape(), '[', '1', ';', '4', '1', ';', '3', '7', 'm']
}

/// Bold white on a green background: `ESC [ 1 ; 4 2 ; 3 7 m`.
pub open spec fn on_green_code() -> Seq<char> {
    seq![escape(), '[', '1', ';', '4', '2', ';', '3', '7', 'm']
}

impl Highlight {
    /// Whether the class belongs to the left ("expected") text.
    pub open spec fn is_left(self) -> bool {
        self == Highlight::UnchangedLeft || self == Highlight::RemovedWhole || self
            == Highlight::RemovedSpan
    }

    /// The glyph that starts a row of this class: `<` on the left, `>` on the right.
    pub open spec fn marker(self) -> char {
        if self.is_left() {
            '<'
        } else {
            '>'
        }
    }

    /// The styling sequence that is written before text of this class.
    pub open spec fn code(self) -> Seq<char> {
        match self {
            Highlight::UnchangedLeft | Highlight::RemovedWhole => red_code(),
            Highlight::RemovedSpan => on_red_code(),
            Highlight::UnchangedRight | Highlight::AddedWhole => green_code(),
            Highlight::AddedSpan => on_green_code(),
        }
    }
}

/// A text in the styling of a class: the class's code, the text, the reset.
pub open spec fn painted(class: Highlight, text: Seq<char>) -> Seq<char> {
    class.code() + text + reset_code()
}

/// One span of the report: a text, and the class it is shown in where it has one.
pub struct Fragment {
    pub class: Option<Highlight>,
    pub text: Seq<char>,
}

impl Fragment {
    /// The characters that the span puts out: styled if it has a class.
    pub open spec fn styled(self) -> Seq<char> {
        match self.class {
            Some(class) => painted(class, self.text),
            None => self.text,
        }
    }
}

/// A span without styling.
pub open spec fn lit(text: Seq<char>) -> Fragment {
    Fragment { class: None, text }
}

/// A span in the styling of a class.
pub open spec fn hl(class: Highlight, text: Seq<char>) -> Fragment {
    Fragment { class: Some(class), text }
}

/// The styled output of a sequence of spans: each span's output, in order.
pub open spec fn styled(frags: Seq<Fragment>) -> Seq<char>
    decreases frags.len(),
{
    if frags.len() == 0 {
        Seq::empty()
    } else {
        styled(frags.drop_last()) + frags.last().styled()
    }
}

/// The text of a sequence of spans, with no styling at all.
pub open spec fn plain(frags: Seq<Fragment>) -> Seq<char>
    decreases frags.len(),
{
    if frags.len() == 0 {
        Seq::empty()
    } else {
        plain(frags.drop_last()) + frags.last().text
    }
}

/// One span alone puts out its own output and holds its own text.
pub proof fn lemma_single(a: Fragment)
    ensures
        styled(seq![a]) == a.styled(),
        plain(seq![a]) == a.text,
{
    assert(seq![a].drop_last() == Seq::<Fragment>::empty());
    assert(styled(Seq::<Fragment>::empty()) == Seq::<char>::empty());
    assert(plain(Seq::<Fragment>::empty()) == Seq::<char>::empty());
    assert(styled(seq![a]) == Seq::<char>::empty() + a.styled());
    assert(plain(seq![a]) == Seq::<char>::empty() + a.text);
}

/// Three spans put out their outputs in order, and hold their texts in order.
pub proof fn lemma_triple(a: Fragment, b: Fragment, c: Fragment)
    ensures
        styled(seq![a, b, c]) == a.styled() + b.styled() + c.styled(),
        plain(seq![a, b, c]) == a.text + b.text + c.text,
{
    lemma_single(a);
    assert(seq![a, b, c].drop_last() == seq![a, b]);
    assert(seq![a, b].drop_last() == seq![a]);
    assert(styled(seq![a, b]) == a.styled() + b.styled());
    assert(plain(seq![a, b]) == a.text + b.text);
}

/// Styled output is taken span by span, so it distributes over concatenation.
pub proof fn lemma_styled_concat(a: Seq<Fragment>, b: Seq<Fragment>)
    ensures
        styled(a + b) == styled(a) + styled(b),
    decreases b.len(),
{
    if b.len() == 0 {
        assert(a + b == a);
    } else {
        lemma_styled_concat(a, b.drop_last());
        assert((a + b).drop_last() == a + b.drop_last());
    }
}

/// Plain text is taken span by span, so it distributes over concatenation.
pub proof fn lemma_plain_concat(a: Seq<Fragment>, b: Seq<Fragment>)
    ensures
        plain(a + b) == plain(a) + plain(b),
    decreases b.len(),
{
    if b.len() == 0 {
        assert(a + b == a);
    } else {
        lemma_plain_concat(a, b.drop_last());
        assert((a + b).drop_last() == a + b.drop_last());
    }
}

/// `ansi_term::Colour::paint` on `Colour::Red`, taken through the `Display` of
/// the painted string: the prefix of a style with nothing but a red foreground,
/// then the text as it is, then the reset suffix of any style that is not plain.
#[verifier::external_body]
fn red(s: &str) -> (r: String)
    ensures
        r@ == red_code() + s@ + reset_code(),
{
    Colour::Red.paint(s).to_string()
}

/// `ansi_term::Style::paint` on the style that `Colour::White.on(Colour::Red).bold()`
/// builds, taken through the `Display` of the painted string: the prefix lists
/// bold, then the red background, then the white foreground; the text follows
/// as it is, then the reset suffix.
#[verifier::external_body]
fn on_red(s: &str) -> (r: String)
    ensures
        r@ == on_red_code() + s@ + reset_code(),
{
    Colour::White.on(Colour::Red).bold().paint(s).to_string()
}

/// `ansi_term::Colour::paint` on `Colour::Green`, taken through the `Display`
/// of the painted string: the prefix of a style with nothing but a green
/// foreground, then the text as it is, then the reset suffix.
#[verifier::external_body]
fn green(s: &str) -> (r: String)
    ensures
        r@ == green_code() + s@ + reset_code(),
{
    Colour::Green.paint(s).to_string()
}

/// `ansi_term::Style::paint` on the style that `Colour::White.on(Colour::Green).bold()`
/// builds, taken through the `Display` of the painted string: the prefix lists
/// bold, then the green background, then the white foreground; the text
/// follows as it is, then the reset suffix.
#[verifier::external_body]
fn on_green(s: &str) -> (r: String)
    ensures
        r@ == on_green_code() + s@ + reset_code(),
{
    Colour::White.on(Colour::Green).bold().paint(s).to_string()
}

impl Highlight {
    /// The marker of the class as a string.
    pub fn glyph(self) -> (r: &'static str)
        ensures
            r@ == seq![self.marker()],
    {
        proof {
            reveal_strlit("<");
            reveal_strlit(">");
        }
        match self {
            Highlight::UnchangedLeft | Highlight::RemovedWhole | Highlight::RemovedSpan => {
                assert("<"@ =~= seq!['<']);
                "<"
            },
            _ => {
                assert(">"@ =~= seq!['>']);
                ">"
            },
        }
    }
}

/// Styles a text as its highlight class asks.
pub fn paint(class: Highlight, text: &str) -> (r: String)
    ensures
        r@ == painted(class, text@),
{
    match class {
        Highlight::UnchangedLeft | Highlight::RemovedWhole => red(text),
        Highlight::RemovedSpan => on_red(text),
        Highlight::UnchangedRight | Highlight::AddedWhole => green(text),
        Highlight::AddedSpan => on_green(text),
    }
}

/// Whether a character may stand between the opening and the final `m` of a
/// styling sequence: a digit or a semicolon.
pub open spec fn is_param(c: char) -> bool {
    c == '0' || c == '1' || c == '2' || c == '3' || c == '4' || c == '5' || c == '6' || c == '7'
        || c == '8' || c == '9' || c == ';'
}

/// The number of parameter characters that a text begins with.
pub open spec fn param_run(s: Seq<char>) -> nat
    decreases s.len(),
{
    if s.len() > 0 && is_param(s[0]) {
        param_run(s.skip(1)) + 1
    } else {
        0
    }
}

/// The length of the styling sequence that a text begins with, 0 if it
/// begins with none. A styling sequence is the escape character, `[`, as many
/// parameter characters as follow, and `m`.
pub open spec fn code_len(s: Seq<char>) -> nat {
    if s.len() >= 2 && s[0] == escape() && s[1] == '[' {
        let n = param_run(s.skip(2));
        if 2 + n < s.len() && s[2 + n as int] == 'm' {
            n + 3
        } else {
            0
        }
    } else {
        0
    }
}

/// A text without its styling sequences: read from the left, every styling
/// sequence is left out and every other character is kept.
pub open spec fn stripped(s: Seq<char>) -> Seq<char>
    decreases s.len(),
{
    if s.len() == 0 {
        Seq::empty()
    } else if code_len(s) > 0 {
        stripped(s.skip(code_len(s) as int))
    } else {
        seq![s[0]] + stripped(s.skip(1))
    }
}

/// Whether a text is free of the escape character.
pub open spec fn escape_free(s: Seq<char>) -> bool {
    forall|i: int| 0 <= i < s.len() ==> s[i] != escape()
}

/// A run of parameter characters ends where something else follows.
pub proof fn lemma_param_run(params: Seq<char>, rest: Seq<char>)
    requires
        forall|i: int| 0 <= i < params.len() ==> is_param(#[trigger] params[i]),
        rest.len() == 0 || !is_param(rest[0]),
    ensures
        param_run(params + rest) == params.len(),
    decreases params.len(),
{
    if params.len() == 0 {
        assert(params + rest == rest);
    } else {
        assert((params + rest).skip(1) == params.skip(1) + rest);
        lemma_param_run(params.skip(1), rest);
    }
}

/// Stripping leaves out the styling sequence that a text begins with.
pub proof fn lemma_strip_code(params: Seq<char>, rest: Seq<char>)
    requires
        forall|i: int| 0 <= i < params.len() ==> is_param(#[trigger] params[i]),
    ensures
        stripped(seq![escape(), '['] + params + seq!['m'] + rest) == stripped(rest),
{
    let s = seq![escape(), '['] + params + seq!['m'] + rest;
    assert(s.skip(2) == params + (seq!['m'] + rest));
    lemma_param_run(params, seq!['m'] + rest);
    assert(s[2 + params.len() as int] == 'm');
    assert(code_len(s) == params.len() + 3);
    assert(s.skip(params.len() as int + 3) == rest);
}

/// Stripping leaves out the styling of every class, and the reset.
pub proof fn lemma_strip_known_codes(class: Highlight, rest: Seq<char>)
    ensures
        stripped(class.code() + rest) == stripped(rest),
        stripped(reset_code() + rest) == stripped(rest),
{
    let open = seq![escape(), '['];
    let close = seq!['m'];
    let reset = seq!['0'];
    assert(reset_code() + rest == open + reset + close + rest);
    lemma_strip_code(reset, rest);
    let params = match class {
        Highlight::UnchangedLeft | Highlight::RemovedWhole => seq!['3', '1'],
        Highlight::RemovedSpan => seq!['1', ';', '4', '1', ';', '3', '7'],
        Highlight::UnchangedRight | Highlight::AddedWhole => seq!['3', '2'],
        Highlight::AddedSpan => seq!['1', ';', '4', '2', ';', '3', '7'],
    };
    assert(class.code() + rest == open + params + close + rest);
    lemma_strip_code(params, rest);
}

/// Stripping keeps a text that is free of the escape character, whatever
/// follows it.
pub proof fn lemma_strip_escape_free(text: Seq<char>, rest: Seq<char>)
    requires
        escape_free(text),
    ensures
        stripped(text + rest) == text + stripped(rest),
    decreases text.len(),
{
    if text.len() == 0 {
        assert(text + rest == rest);
        assert(text + stripped(rest) == stripped(rest));
    } else {
        let s = text + rest;
        assert(s[0] == text[0]);
        assert(code_len(s) == 0);
        assert(s.skip(1) == text.skip(1) + rest);
        lemma_strip_escape_free(text.skip(1), rest);
        assert(seq![text[0]] + (text.skip(1) + stripped(rest)) == text + stripped(rest));
    }
}

/// Stripping the styled output of spans whose text is free of the escape
/// character gives their plain text, whatever follows the spans.
pub proof fn lemma_strip_styled_then(frags: Seq<Fragment>, rest: Seq<char>)
    requires
        escape_free(plain(frags)),
    ensures
        stripped(styled(frags) + rest) == plain(frags) + stripped(rest),
    decreases frags.len(),
{
    if frags.len() == 0 {
        assert(styled(frags) + rest == rest);
        assert(plain(frags) + stripped(rest) == stripped(rest));
    } else {
        let init = frags.drop_last();
        let last = frags.last();
        let text = last.text;
        assert(escape_free(plain(init))) by {
            assert forall|i: int| 0 <= i < plain(init).len() implies plain(init)[i] != escape() by {
                assert(plain(frags)[i] == plain(init)[i]);
            }
        }
        assert(escape_free(text)) by {
            assert forall|i: int| 0 <= i < text.len() implies text[i] != escape() by {
                assert(plain(frags)[plain(init).len() + i] == text[i]);
            }
        }
        assert(stripped(last.styled() + rest) == text + stripped(rest)) by {
            match last.class {
                Some(class) => {
                    assert(last.styled() + rest == class.code() + (text + (reset_code() + rest)));
                    lemma_strip_known_codes(class, text + (reset_code() + rest));
                    lemma_strip_escape_free(text, reset_code() + rest);
                    lemma_strip_known_codes(class, rest);
                },
                None => {
                    lemma_strip_escape_free(text, rest);
                },
            }
        }
        assert(styled(frags) + rest == styled(init) + (last.styled() + rest));
        lemma_strip_styled_then(init, last.styled() + rest);
        assert(plain(init) + (text + stripped(rest)) == plain(frags) + stripped(rest));
    }
}

/// Stripping the styled output of spans whose text is free of the escape
/// character gives exactly their plain text.
pub proof fn lemma_strip_styled(frags: Seq<Fragment>)
    requires
        escape_free(plain(frags)),
    ensures
        stripped(styled(frags)) == plain(frags),
{
    lemma_strip_styled_then(frags, Seq::empty());
    assert(styled(frags) + Seq::<char>::empty() == styled(frags));
    assert(stripped(Seq::<char>::empty()) == Seq::<char>::empty());
    assert(plain(frags) + Seq::<char>::empty() == plain(frags));
}

/// Decides whether a character is a parameter character.
fn is_param_char(c: char) -> (b: bool)
    ensures
        b == is_param(c),
{
    c == '0' || c == '1' || c == '2' || c == '3' || c == '4' || c == '5' || c == '6' || c == '7'
        || c == '8' || c == '9' || c == ';'
}

/// The characters of a text.
fn chars_of(text: &str) -> (chars: Vec<char>)
    ensures
        chars@ == text@,
{
    let mut chars: Vec<char> = Vec::new();
    for c in it: text.chars()
        invariant
            it.seq() == text@,
            chars@ == text@.take(it.index() as int),
    {
        chars.push(c);
    }
    proof {
        assert(text@.take(text@.len() as int) == text@);
    }
    chars
}

/// The number of parameter characters from index `from` on.
fn run_length(chars: &Vec<char>, from: usize) -> (n: usize)
    requires
        from <= chars.len(),
    ensures
        n == param_run(chars@.skip(from as int)),
        from + n <= chars.len(),
{
    let mut j: usize = from;
    while j < chars.len() && is_param_char(chars[j])
        invariant
            from <= j <= chars.len(),
            param_run(chars@.skip(from as int)) == (j - from) + param_run(chars@.skip(j as int)),
        decreases chars.len() - j,
    {
        proof {
            assert(chars@.skip(j as int).skip(1) == chars@.skip(j + 1));
        }
        j += 1;
    }
    j - from
}

/// The length of the styling sequence that starts at index `at`, 0 if none
/// starts there.
fn code_length(chars: &Vec<char>, at: usize) -> (n: usize)
    requires
        at < chars.len(),
    ensures
        n == code_len(chars@.skip(at as int)),
        at + n <= chars.len(),
{
    if chars[at] == '\u{1b}' && at + 1 < chars.len() && chars[at + 1] == '[' {
        let run = run_length(chars, at + 2);
        let end = at + 2 + run;
        proof {
            assert(chars@.skip(at as int).skip(2) == chars@.skip(at + 2));
        }
        if end < chars.len() && chars[end] == 'm' {
            run + 3
        } else {
            0
        }
    } else {
        0
    }
}

/// Removes every styling sequence from a text and keeps everything else.
pub fn strip_styling(text: &str) -> (plain_text: String)
    ensures
        plain_text@ == stripped(text@),
{
    let chars = chars_of(text);
    let mut out = String::new();
    let mut i: usize = 0;
    proof {
        assert(chars@.skip(0) == chars@);
    }
    while i < chars.len()
        invariant
            i <= chars.len(),
            chars@ == text@,
            stripped(text@) == out@ + stripped(chars@.skip(i as int)),
        decreases chars.len() - i,
    {
        let n = code_length(&chars, i);
        let ghost here = chars@.skip(i as int);
        if n > 0 {
            proof {
                assert(here.skip(n as int) == chars@.skip(i + n));
            }
            i += n;
        } else {
            proof {
                assert(here.skip(1) == chars@.skip(i + 1));
                assert(out@.push(chars@[i as int]) + stripped(here.skip(1)) == out@ + (seq![here[0]]
                    + stripped(here.skip(1))));
            }
            out.push(chars[i]);
            i += 1;
        }
    }
    proof {
        assert(stripped(chars@.skip(i as int)) == Seq::<char>::empty());
    }
    out
}

} // verus!
