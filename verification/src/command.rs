//! Slash commands and prompts as typed at the terminal, and the one-shot
//! chat invocation's output.

use vstd::prelude::*;

use crate::text::{char_is_white_space, chars_of, is_blank, is_white_space, push_str, str_is_blank, string_from_chars};

verus! {

/// What the process was asked to do.
#[derive(Debug, PartialEq, Eq)]
pub enum Invocation {
    /// Run one conversation turn with this literal prompt.
    Chat(String),
    Tui,
}

/// The number of leading whitespace characters of a text.
pub open spec fn leading_space(s: Seq<char>) -> nat
    decreases s.len(),
{
    if s.len() == 0 || !is_white_space(s[0]) {
        0
    } else {
        1 + leading_space(s.drop_first())
    }
}

/// The number of trailing whitespace characters of a text.
pub open spec fn trailing_space(s: Seq<char>) -> nat
    decreases s.len(),
{
    if s.len() == 0 || !is_white_space(s.last()) {
        0
    } else {
        1 + trailing_space(s.drop_last())
    }
}

/// A text without leading and trailing whitespace, as `str::trim` gives it.
pub open spec fn trim(s: Seq<char>) -> Seq<char> {
    if is_blank(s) {
        seq![]
    } else {
        s.subrange(leading_space(s) as int, s.len() - trailing_space(s))
    }
}

proof fn lemma_leading_bound(s: Seq<char>)
    ensures
        leading_space(s) <= s.len(),
        forall|i: int| 0 <= i < leading_space(s) ==> is_white_space(#[trigger] s[i]),
        leading_space(s) < s.len() ==> !is_white_space(s[leading_space(s) as int]),
    decreases s.len(),
{
    if s.len() > 0 && is_white_space(s[0]) {
        lemma_leading_bound(s.drop_first());
        assert forall|i: int| 0 <= i < leading_space(s) implies is_white_space(#[trigger] s[i]) by {
            if i > 0 {
                assert(s[i] == s.drop_first()[i - 1]);
            }
        }
    }
}

proof fn lemma_trailing_bound(s: Seq<char>)
    ensures
        trailing_space(s) <= s.len(),
        forall|i: int| s.len() - trailing_space(s) <= i < s.len() ==> is_white_space(#[trigger] s[i]),
        trailing_space(s) < s.len() ==> !is_white_space(s[s.len() - 1 - trailing_space(s)]),
    decreases s.len(),
{
    if s.len() > 0 && is_white_space(s.last()) {
        lemma_trailing_bound(s.drop_last());
        assert forall|i: int| s.len() - trailing_space(s) <= i < s.len() implies is_white_space(#[trigger] s[i]) by {
            if i < s.len() - 1 {
                assert(s[i] == s.drop_last()[i]);
            }
        }
    }
}

/// `str::trim`.
pub fn trim_text(s: &str) -> (t: String)
    ensures
        t@ == trim(s@),
{
    let cs = chars_of(s);
    let mut a: usize = 0;
    while a < cs.len() && char_is_white_space(cs[a])
        invariant
            a <= cs@.len(),
            cs@ == s@,
            a <= leading_space(cs@),
            forall|i: int| 0 <= i < a ==> is_white_space(#[trigger] cs@[i]),
        decreases cs.len() - a,
    {
        proof {
            lemma_leading_step(cs@, a as int);
        }
        a += 1;
    }
    proof {
        lemma_leading_bound(cs@);
        lemma_trailing_bound(cs@);
    }
    if a == cs.len() {
        assert(is_blank(cs@));
        return String::new();
    }
    assert(a == leading_space(cs@));
    assert(!is_blank(cs@)) by {
        assert(!is_white_space(cs@[a as int]));
    }
    let mut b: usize = cs.len();
    while b > a && char_is_white_space(cs[b - 1])
        invariant
            a < cs@.len(),
            a <= b <= cs@.len(),
            !is_white_space(cs@[a as int]),
            cs@.len() - b <= trailing_space(cs@),
            forall|i: int| b <= i < cs@.len() ==> is_white_space(#[trigger] cs@[i]),
        decreases b,
    {
        proof {
            lemma_trailing_step(cs@, (cs@.len() - b) as int);
        }
        b -= 1;
    }
    assert(b == cs@.len() - trailing_space(cs@)) by {
        if cs@.len() - b < trailing_space(cs@) {
            assert(is_white_space(cs@[b - 1]));
        }
    }
    let slice = &cs.as_slice()[a..b];
    proof {
        assert(slice@ =~= cs@.subrange(a as int, b as int));
    }
    string_from_chars(slice)
}

proof fn lemma_leading_step(s: Seq<char>, a: int)
    requires
        0 <= a < s.len(),
        a <= leading_space(s),
        forall|i: int| 0 <= i < a ==> is_white_space(#[trigger] s[i]),
        is_white_space(s[a]),
    ensures
        a + 1 <= leading_space(s),
    decreases a,
{
    if a > 0 {
        assert(is_white_space(s[0]));
        lemma_leading_step(s.drop_first(), a - 1);
    }
}

proof fn lemma_trailing_step(s: Seq<char>, n: int)
    requires
        0 <= n < s.len(),
        n <= trailing_space(s),
        forall|i: int| s.len() - n <= i < s.len() ==> is_white_space(#[trigger] s[i]),
        is_white_space(s[s.len() - 1 - n]),
    ensures
        n + 1 <= trailing_space(s),
    decreases n,
{
    if n > 0 {
        assert(is_white_space(s.last()));
        let d = s.drop_last();
        assert forall|i: int| d.len() - (n - 1) <= i < d.len() implies is_white_space(#[trigger] d[i]) by {
            assert(d[i] == s[i]);
        }
        assert(d[d.len() - 1 - (n - 1)] == s[s.len() - 1 - n]);
        lemma_trailing_step(d, n - 1);
    }
}

/// What `shlex::split` yields for a text: its words, or `None` for an
/// unmatched quote or a trailing escape.
pub uninterp spec fn shell_words_of(s: Seq<char>) -> Option<Seq<Seq<char>>>;

/// `shlex::split`: POSIX-shell-like word splitting with quotes and escapes,
/// without any expansion.
#[verifier::external_body]
fn shell_words(s: &str) -> (r: Option<Vec<String>>)
    ensures
        match r {
            Some(v) => shell_words_of(s@) == Some(v@.map_values(|w: String| w@)),
            None => shell_words_of(s@) is None,
        },
{
    shlex::split(s)
}

/// A typed line, before a command's words are matched against the grammar.
#[derive(Debug, PartialEq, Eq)]
pub enum Line {
    /// Only whitespace.
    Empty,
    /// A prompt, exactly as typed: its whitespace belongs to the user.
    Prompt(String),
    /// A slash command's words.
    Words(Vec<String>),
    /// Text to show instead of running anything.
    Notice { text: String, is_error: bool },
}

/// The notice for a command line that cannot be split into words.
pub const UNSPLITTABLE: &'static str = "invalid command: unmatched quote or trailing escape";

/// Classifies a typed line: blank lines are empty, lines whose trimmed
/// text starts with `/` are commands split into words, and everything else
/// is a prompt kept verbatim.
pub fn classify(line: &str) -> (r: Line)
    ensures
        is_blank(line@) ==> r is Empty,
        !is_blank(line@) && trim(line@)[0] != '/' ==> (r matches Line::Prompt(p) && p@ == line@),
        !is_blank(line@) && trim(line@)[0] == '/' ==> match shell_words_of(trim(line@)) {
            None => r matches Line::Notice { text, is_error } && is_error && text@ == UNSPLITTABLE@,
            Some(ws) => r matches Line::Words(v) && v@.map_values(|w: String| w@) == ws,
        },
{
    if str_is_blank(line) {
        return Line::Empty;
    }
    let trimmed = trim_text(line);
    proof {
        lemma_trim_nonempty(line@);
    }
    let cs = chars_of(trimmed.as_str());
    if cs[0] != '/' {
        return Line::Prompt(line.to_owned());
    }
    match shell_words(trimmed.as_str()) {
        None => Line::Notice { text: UNSPLITTABLE.to_owned(), is_error: true },
        Some(words) => Line::Words(words),
    }
}

/// The trim of a text that is not blank is not empty.
proof fn lemma_trim_nonempty(s: Seq<char>)
    requires
        !is_blank(s),
    ensures
        trim(s).len() > 0,
{
    lemma_leading_bound(s);
    lemma_trailing_bound(s);
    let a = leading_space(s);
    let k = choose|k: int| 0 <= k < s.len() && !is_white_space(#[trigger] s[k]);
    assert(a <= k);
    assert(k < s.len() - trailing_space(s));
}

/// A help line: the label, then the description after a dash when there is one.
pub fn entry(label: &str, description: Option<String>) -> (s: String)
    ensures
        match description {
            Some(d) => s@ == label@ + " — "@ + d@,
            None => s@ == label@,
        },
{
    match description {
        Some(d) => {
            let mut s = label.to_owned();
            push_str(&mut s, " — ");
            push_str(&mut s, d.as_str());
            s
        },
        None => label.to_owned(),
    }
}

/// The closing line of the command overview.
pub const HELP_FOOTER: &'static str = "Use /<command> --help for subcommands and arguments.";

/// The command overview: the rendered command list, then how to get more.
pub fn help_text(commands: &str) -> (s: String)
    ensures
        s@ == commands@ + "\n"@ + HELP_FOOTER@,
{
    let mut s = commands.to_owned();
    push_str(&mut s, "\n");
    push_str(&mut s, HELP_FOOTER);
    s
}

/// What an effort argument asks for.
#[derive(Debug, PartialEq, Eq)]
pub enum EffortChange {
    /// No value: show the model instead.
    Show,
    /// `clear`: use the upstream default.
    Clear,
    Assign(String),
}

/// Interprets the optional effort argument: none shows the model, `clear`
/// clears, anything else is set as an opaque value.
pub fn effort_change(value: Option<String>) -> (r: EffortChange)
    ensures
        match value {
            None => r is Show,
            Some(v) => if v@ == "clear"@ {
                r is Clear
            } else {
                r matches EffortChange::Assign(x) && x == v
            },
        },
{
    match value {
        None => EffortChange::Show,
        Some(v) => if crate::text::str_equal(v.as_str(), "clear") {
            EffortChange::Clear
        } else {
            EffortChange::Assign(v)
        },
    }
}

/// Whether a chat prompt is usable: one that trims to nothing is refused.
pub fn chat_prompt_is_empty(prompt: &str) -> (r: bool)
    ensures
        r == is_blank(prompt@),
{
    str_is_blank(prompt)
}

/// What one-shot chat writes to stdout: the final text as data, with a line
/// ending added only when the text is not empty and lacks one.
pub fn chat_stdout(text: &str) -> (s: String)
    ensures
        if text@.len() > 0 && text@.last() != '\n' {
            s@ == text@.push('\n')
        } else {
            s@ == text@
        },
{
    let cs = chars_of(text);
    let mut s = text.to_owned();
    if cs.len() > 0 && cs[cs.len() - 1] != '\n' {
        crate::text::push_char(&mut s, '\n');
    }
    s
}

} // verus!
