//! Character and string utilities with exact specifications.

use vstd::prelude::*;
use vstd::string::StringExecFns;

verus! {

/// The Unicode `White_Space` property, which `char::is_whitespace` reports.
pub open spec fn is_white_space(c: char) -> bool {
    let u = c as u32;
    ||| 0x09 <= u <= 0x0D
    ||| u == 0x20
    ||| u == 0x85
    ||| u == 0xA0
    ||| u == 0x1680
    ||| 0x2000 <= u <= 0x200A
    ||| u == 0x2028
    ||| u == 0x2029
    ||| u == 0x202F
    ||| u == 0x205F
    ||| u == 0x3000
}

/// A text is blank when trimming whitespace from it leaves nothing.
pub open spec fn is_blank(s: Seq<char>) -> bool {
    forall|i: int| 0 <= i < s.len() ==> is_white_space(#[trigger] s[i])
}

pub fn char_is_white_space(c: char) -> (r: bool)
    ensures
        r == is_white_space(c),
{
    let u = c as u32;
    (0x09 <= u && u <= 0x0D) || u == 0x20 || u == 0x85 || u == 0xA0 || u == 0x1680 || (0x2000
        <= u && u <= 0x200A) || u == 0x2028 || u == 0x2029 || u == 0x202F || u == 0x205F || u
        == 0x3000
}

/// The characters of a string slice, in order.
pub fn chars_of(s: &str) -> (v: Vec<char>)
    ensures
        v@ == s@,
{
    let mut v: Vec<char> = Vec::new();
    for c in it: s.chars()
        invariant
            v@ == it.seq().take(it.index() as int),
    {
        v.push(c);
    }
    v
}

/// Appends one character to a string.
#[verifier::external_body]
pub(crate) fn push_char(s: &mut String, c: char)
    ensures
        final(s)@ == old(s)@.push(c),
{
    s.push(c);
}

/// Appends a string slice to a string.
pub(crate) fn push_str(s: &mut String, t: &str)
    ensures
        final(s)@ == old(s)@ + t@,
{
    s.append(t);
}

/// Builds a string from a sequence of characters.
pub fn string_from_chars(v: &[char]) -> (s: String)
    ensures
        s@ == v@,
{
    let mut s = String::new();
    let mut i: usize = 0;
    while i < v.len()
        invariant
            i <= v.len(),
            s@ == v@.take(i as int),
        decreases v.len() - i,
    {
        push_char(&mut s, v[i]);
        assert(v@.take(i + 1) == v@.take(i as int).push(v@[i as int]));
        i += 1;
    }
    assert(v@.take(v.len() as int) == v@);
    s
}

/// Whether a text consists of whitespace only (including the empty text).
pub fn str_is_blank(s: &str) -> (r: bool)
    ensures
        r == is_blank(s@),
{
    let v = chars_of(s);
    let mut i: usize = 0;
    while i < v.len()
        invariant
            i <= v.len(),
            v@ == s@,
            forall|j: int| 0 <= j < i ==> is_white_space(#[trigger] v@[j]),
        decreases v.len() - i,
    {
        if !char_is_white_space(v[i]) {
            return false;
        }
        i += 1;
    }
    true
}


/// The `Cc` general category, which `char::is_control` reports.
pub open spec fn is_control(c: char) -> bool {
    let u = c as u32;
    u <= 0x1F || (0x7F <= u <= 0x9F)
}

pub fn char_is_control(c: char) -> (r: bool)
    ensures
        r == is_control(c),
{
    let u = c as u32;
    u <= 0x1F || (0x7F <= u && u <= 0x9F)
}

/// The lowercase hexadecimal digit for a value below 16.
pub open spec fn hex_char(d: nat) -> char {
    if d < 10 {
        (('0' as u32) + d) as char
    } else {
        (('a' as u32) + d - 10) as char
    }
}

/// Lowercase hexadecimal digits of `n`, without leading zeros.
pub open spec fn hex_digits(n: nat) -> Seq<char>
    decreases n,
{
    if n < 16 {
        seq![hex_char(n)]
    } else {
        hex_digits(n / 16).push(hex_char(n % 16))
    }
}

/// The decimal digit for a value below 10.
pub open spec fn decimal_char(d: nat) -> char {
    (('0' as u32) + d) as char
}

/// Decimal digits of `n`, without leading zeros: what `format!("{}", n)` writes.
pub open spec fn decimal_digits(n: nat) -> Seq<char>
    decreases n,
{
    if n < 10 {
        seq![decimal_char(n)]
    } else {
        decimal_digits(n / 10).push(decimal_char(n % 10))
    }
}

/// Decimal digits padded with zeros to at least two places: `format!("{:02}", n)`.
pub open spec fn decimal_digits_2(n: nat) -> Seq<char> {
    if n < 10 {
        seq!['0', decimal_char(n)]
    } else {
        decimal_digits(n)
    }
}

/// What `char::escape_unicode` writes: `\u{` hexadecimal digits `}`.
pub open spec fn escape_unicode(c: char) -> Seq<char> {
    seq!['\\', 'u', '{'] + hex_digits(c as u32 as nat) + seq!['}']
}

/// What `char::escape_default` writes.
pub open spec fn escape_default(c: char) -> Seq<char> {
    if c == '\t' {
        seq!['\\', 't']
    } else if c == '\r' {
        seq!['\\', 'r']
    } else if c == '\n' {
        seq!['\\', 'n']
    } else if c == '\\' || c == '\'' || c == '"' {
        seq!['\\', c]
    } else if 0x20 <= c as u32 <= 0x7E {
        seq![c]
    } else {
        escape_unicode(c)
    }
}

/// Appends the lowercase hexadecimal digits of `n`.
pub fn push_hex(out: &mut String, n: u32)
    ensures
        final(out)@ == old(out)@ + hex_digits(n as nat),
{
    let mut m: u32 = n;
    let mut suffix: Vec<char> = Vec::new();
    while m >= 16
        invariant
            hex_digits(n as nat) == hex_digits(m as nat) + suffix@,
        decreases m,
    {
        let d = m % 16;
        let c = if d < 10 {
            char_from_offset('0', d)
        } else {
            char_from_offset('a', d - 10)
        };
        assert(c == hex_char(d as nat));
        let ghost before = suffix@;
        suffix.insert(0, c);
        assert(suffix@ == seq![c] + before);
        assert(hex_digits(m as nat) == hex_digits((m / 16) as nat).push(hex_char((m % 16) as nat)));
        assert(hex_digits(m as nat) + before =~= hex_digits((m / 16) as nat) + suffix@);
        m = m / 16;
    }
    let c = if m < 10 {
        char_from_offset('0', m)
    } else {
        char_from_offset('a', m - 10)
    };
    assert(c == hex_char(m as nat));
    push_char(out, c);
    let mut i: usize = 0;
    while i < suffix.len()
        invariant
            i <= suffix.len(),
            hex_digits(n as nat) == seq![c] + suffix@,
            out@ == old(out)@ + seq![c] + suffix@.take(i as int),
        decreases suffix.len() - i,
    {
        push_char(out, suffix[i]);
        assert(suffix@.take(i + 1) == suffix@.take(i as int).push(suffix@[i as int]));
        i += 1;
    }
    assert(suffix@.take(suffix.len() as int) == suffix@);
}

/// The character `offset` places after `base`, for offsets that stay in ASCII.
pub fn char_from_offset(base: char, offset: u32) -> (c: char)
    requires
        base as u32 + offset <= 0x7F,
    ensures
        c == ((base as u32) + offset) as char,
{
    let u: u32 = base as u32 + offset;
    let b: u8 = u as u8;
    b as char
}

/// Appends the decimal digits of `n`.
pub fn push_decimal(out: &mut String, n: u64)
    ensures
        final(out)@ == old(out)@ + decimal_digits(n as nat),
{
    let mut m: u64 = n;
    let mut suffix: Vec<char> = Vec::new();
    while m >= 10
        invariant
            decimal_digits(n as nat) == decimal_digits(m as nat) + suffix@,
        decreases m,
    {
        let d = (m % 10) as u32;
        let c = char_from_offset('0', d);
        let ghost before = suffix@;
        suffix.insert(0, c);
        assert(suffix@ == seq![c] + before);
        assert(decimal_digits(m as nat) == decimal_digits((m / 10) as nat).push(
            decimal_char((m % 10) as nat),
        ));
        assert(decimal_digits(m as nat) + before =~= decimal_digits((m / 10) as nat) + suffix@);
        m = m / 10;
    }
    let c = char_from_offset('0', m as u32);
    push_char(out, c);
    let mut i: usize = 0;
    while i < suffix.len()
        invariant
            i <= suffix.len(),
            decimal_digits(n as nat) == seq![c] + suffix@,
            out@ == old(out)@ + seq![c] + suffix@.take(i as int),
        decreases suffix.len() - i,
    {
        push_char(out, suffix[i]);
        assert(suffix@.take(i + 1) == suffix@.take(i as int).push(suffix@[i as int]));
        i += 1;
    }
    assert(suffix@.take(suffix.len() as int) == suffix@);
}

/// Appends `n` padded with zeros to at least two digits.
pub fn push_decimal_2(out: &mut String, n: u64)
    ensures
        final(out)@ == old(out)@ + decimal_digits_2(n as nat),
{
    if n < 10 {
        push_char(out, '0');
    }
    push_decimal(out, n);
    if n < 10 {
        assert(decimal_digits(n as nat) == seq![decimal_char(n as nat)]);
        assert(final(out)@ =~= old(out)@ + decimal_digits_2(n as nat));
    }
}

/// Appends what `char::escape_unicode` writes for `c`.
pub fn push_escape_unicode(out: &mut String, c: char)
    ensures
        final(out)@ == old(out)@ + escape_unicode(c),
{
    push_str(out, "\\u{");
    push_hex(out, c as u32);
    push_char(out, '}');
    proof {
        reveal_strlit("\\u{");
        assert(final(out)@ =~= old(out)@ + escape_unicode(c));
    }
}

/// Appends what `char::escape_default` writes for `c`.
pub fn push_escape_default(out: &mut String, c: char)
    ensures
        final(out)@ == old(out)@ + escape_default(c),
{
    if c == '\t' {
        push_char(out, '\\');
        push_char(out, 't');
    } else if c == '\r' {
        push_char(out, '\\');
        push_char(out, 'r');
    } else if c == '\n' {
        push_char(out, '\\');
        push_char(out, 'n');
    } else if c == '\\' || c == '\'' || c == '"' {
        push_char(out, '\\');
        push_char(out, c);
    } else if 0x20 <= c as u32 && c as u32 <= 0x7E {
        push_char(out, c);
    } else {
        push_escape_unicode(out, c);
        return;
    }
    assert(final(out)@ =~= old(out)@ + escape_default(c));
}

/// Lexicographic order by code point: the order in which `str` compares,
/// since UTF-8 preserves code point order.
pub open spec fn text_less(a: Seq<char>, b: Seq<char>) -> bool
    decreases a.len(),
{
    if a.len() == 0 {
        b.len() > 0
    } else if b.len() == 0 {
        false
    } else if a[0] != b[0] {
        (a[0] as int) < (b[0] as int)
    } else {
        text_less(a.drop_first(), b.drop_first())
    }
}

/// No text precedes itself, and of two different texts one precedes the other.
pub proof fn lemma_text_less_total(a: Seq<char>, b: Seq<char>)
    ensures
        !text_less(a, a),
        a != b ==> text_less(a, b) || text_less(b, a),
        !(text_less(a, b) && text_less(b, a)),
    decreases a.len(),
{
    if a.len() > 0 && b.len() > 0 {
        lemma_text_less_total(a.drop_first(), b.drop_first());
        lemma_text_less_total(a.drop_first(), a.drop_first());
        if a[0] != b[0] {
            assert((a[0] as int) != (b[0] as int));
        }
        if a != b && a[0] == b[0] {
            assert(a.drop_first() != b.drop_first()) by {
                if a.drop_first() == b.drop_first() {
                    assert(a =~= seq![a[0]] + a.drop_first());
                    assert(b =~= seq![b[0]] + b.drop_first());
                }
            }
        }
    } else if a.len() > 0 {
        lemma_text_less_total(a.drop_first(), a.drop_first());
    } else if b.len() == 0 {
        assert(a =~= b);
    }
}

/// The order is transitive.
pub proof fn lemma_text_less_transitive(a: Seq<char>, b: Seq<char>, c: Seq<char>)
    requires
        text_less(a, b),
        text_less(b, c),
    ensures
        text_less(a, c),
    decreases a.len(),
{
    if a.len() > 0 && b.len() > 0 && c.len() > 0 && a[0] == b[0] && b[0] == c[0] {
        lemma_text_less_transitive(a.drop_first(), b.drop_first(), c.drop_first());
    }
}

/// Whether `a` precedes `b` in code point order.
pub fn str_less(a: &str, b: &str) -> (r: bool)
    ensures
        r == text_less(a@, b@),
{
    let x = chars_of(a);
    let y = chars_of(b);
    let mut i: usize = 0;
    assert(x@.skip(0) =~= x@ && y@.skip(0) =~= y@);
    while i < x.len() && i < y.len() && x[i] == y[i]
        invariant
            i <= x@.len(),
            i <= y@.len(),
            text_less(x@, y@) == text_less(x@.skip(i as int), y@.skip(i as int)),
        decreases x.len() - i,
    {
        assert(x@.skip(i + 1) =~= x@.skip(i as int).drop_first());
        assert(y@.skip(i + 1) =~= y@.skip(i as int).drop_first());
        i += 1;
    }
    if i == x.len() {
        i < y.len()
    } else if i == y.len() {
        false
    } else {
        assert(x@.skip(i as int)[0] == x@[i as int] && y@.skip(i as int)[0] == y@[i as int]);
        x[i] < y[i]
    }
}

/// Whether two texts are equal.
pub fn str_equal(a: &str, b: &str) -> (r: bool)
    ensures
        r == (a@ == b@),
{
    let x = chars_of(a);
    let y = chars_of(b);
    if x.len() != y.len() {
        assert(x@.len() != y@.len());
        return false;
    }
    let mut i: usize = 0;
    while i < x.len()
        invariant
            i <= x@.len(),
            x@ == a@,
            y@ == b@,
            x@.len() == y@.len(),
            forall|j: int| 0 <= j < i ==> x@[j] == y@[j],
        decreases x.len() - i,
    {
        if x[i] != y[i] {
            assert(x@[i as int] != y@[i as int]);
            assert(x@ != y@);
            return false;
        }
        i += 1;
    }
    assert(x@ =~= y@);
    true
}

/// `prefix`, `middle` and `suffix`, one after another.
pub fn framed(prefix: &str, middle: &str, suffix: &str) -> (s: String)
    ensures
        s@ == prefix@ + middle@ + suffix@,
{
    let mut s = prefix.to_owned();
    push_str(&mut s, middle);
    push_str(&mut s, suffix);
    s
}

} // verus!
