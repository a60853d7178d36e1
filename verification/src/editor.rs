//! Prompt editing decisions: what a terminal event does to the prompt, how
//! pasted text is made safe, and how the cursor moves over whole graphemes.

use vstd::prelude::*;

use crate::text::{char_is_control, chars_of, escape_default, is_control, push_char, push_escape_default, push_str};
use crate::unicode::{concat, graphemes, graphemes_of};

verus! {

/// A key as the editor distinguishes keys.
#[derive(Debug, Clone, Copy, PartialEq, Eq)]
pub enum KeyName {
    Char(char),
    Enter,
    Tab,
    Backspace,
    Delete,
    Left,
    Right,
    Up,
    Down,
    Home,
    End,
    Other,
}

/// The modifiers held with a key; `other` stands for any modifier beyond
/// control, alt and shift.
#[derive(Debug, Clone, Copy, PartialEq, Eq)]
pub struct Modifiers {
    pub control: bool,
    pub alt: bool,
    pub shift: bool,
    pub other: bool,
}

pub open spec fn no_modifiers(m: Modifiers) -> bool {
    !m.control && !m.alt && !m.shift && !m.other
}

/// A terminal event as the editor reads it.
#[derive(Debug)]
pub enum EditorEvent {
    Key { key: KeyName, modifiers: Modifiers, release: bool },
    Paste(String),
    Other,
}

/// What the prompt editor does with an event.
#[derive(Debug, PartialEq, Eq)]
pub enum EditCommand {
    /// Nothing changes.
    Ignore,
    /// Leave the application.
    Exit,
    /// Insert text as one edit.
    Insert(String),
    InsertChar(char),
    InsertNewline,
    /// Submit the whole prompt and start a new one.
    Submit,
    DeleteBack,
    DeleteForward,
    MoveBack,
    MoveForward,
    MoveUp,
    MoveDown,
    MoveHome,
    MoveEnd,
}

/// Line endings normalized: CRLF and lone CR both become LF.
pub open spec fn normalize_newlines(s: Seq<char>) -> Seq<char>
    decreases s.len(),
{
    if s.len() == 0 {
        seq![]
    } else if s[0] == '\r' && s.len() > 1 && s[1] == '\n' {
        seq!['\n'] + normalize_newlines(s.skip(2))
    } else if s[0] == '\r' {
        seq!['\n'] + normalize_newlines(s.skip(1))
    } else {
        seq![s[0]] + normalize_newlines(s.skip(1))
    }
}

/// Controls other than line feed and tab shown as their escapes.
pub open spec fn escape_controls(s: Seq<char>) -> Seq<char>
    decreases s.len(),
{
    if s.len() == 0 {
        seq![]
    } else {
        let c = s.last();
        escape_controls(s.drop_last()) + if is_control(c) && c != '\n' && c != '\t' {
            escape_default(c)
        } else {
            seq![c]
        }
    }
}

/// Pasted text as inserted: one edit, never a sequence of submit keys, so
/// line endings become LF and other controls become visible escapes.
pub open spec fn safe_paste(s: Seq<char>) -> Seq<char> {
    escape_controls(normalize_newlines(s))
}

/// Makes pasted text safe to insert.
pub fn sanitize_paste(text: &str) -> (s: String)
    ensures
        s@ == safe_paste(text@),
{
    let cs = chars_of(text);
    let mut norm: Vec<char> = Vec::new();
    let mut i: usize = 0;
    assert(cs@.skip(0) =~= cs@);
    assert(norm@ + normalize_newlines(cs@) =~= normalize_newlines(cs@));
    while i < cs.len()
        invariant
            i <= cs@.len(),
            cs@ == text@,
            norm@ + normalize_newlines(cs@.skip(i as int)) == normalize_newlines(cs@),
        decreases cs.len() - i,
    {
        let ghost rest = cs@.skip(i as int);
        assert(rest[0] == cs@[i as int]);
        if cs[i] == '\r' && i + 1 < cs.len() && cs[i + 1] == '\n' {
            assert(rest[1] == cs@[i + 1]);
            assert(rest.skip(2) =~= cs@.skip(i + 2));
            norm.push('\n');
            i += 2;
        } else if cs[i] == '\r' {
            assert(rest.skip(1) =~= cs@.skip(i + 1));
            norm.push('\n');
            i += 1;
        } else {
            assert(rest.skip(1) =~= cs@.skip(i + 1));
            norm.push(cs[i]);
            i += 1;
        }
        assert(norm@ + normalize_newlines(cs@.skip(i as int)) =~= normalize_newlines(cs@));
    }
    assert(norm@ =~= normalize_newlines(cs@)) by {
        assert(cs@.skip(i as int).len() == 0);
        assert(norm@ + Seq::<char>::empty() =~= norm@);
    }
    let mut s = String::new();
    let mut k: usize = 0;
    while k < norm.len()
        invariant
            k <= norm@.len(),
            s@ == escape_controls(norm@.take(k as int)),
        decreases norm.len() - k,
    {
        let c = norm[k];
        assert(norm@.take(k + 1).drop_last() =~= norm@.take(k as int));
        if char_is_control(c) && c != '\n' && c != '\t' {
            push_escape_default(&mut s, c);
        } else {
            push_char(&mut s, c);
        }
        k += 1;
    }
    assert(norm@.take(norm@.len() as int) =~= norm@);
    s
}

/// What an event does to the prompt. A key release does nothing; Ctrl+C
/// exits even while a request runs; otherwise nothing is edited while busy.
/// Enter submits, Shift+Enter and Ctrl+O insert a line break, and a paste
/// is one safe insertion.
pub open spec fn edit_command(event: EditorEvent, busy: bool) -> EditCommand {
    match event {
        EditorEvent::Key { release: true, .. } => EditCommand::Ignore,
        EditorEvent::Key { key: KeyName::Char('c'), modifiers, .. } if modifiers.control => EditCommand::Exit,
        _ => if busy {
            EditCommand::Ignore
        } else {
            match event {
                EditorEvent::Paste(_) => EditCommand::Ignore,
                EditorEvent::Key { key, modifiers, .. } => {
                    let none = no_modifiers(modifiers);
                    let shift_only = modifiers.shift && !modifiers.control && !modifiers.alt && !modifiers.other;
                    let control_only = modifiers.control && !modifiers.shift && !modifiers.alt && !modifiers.other;
                    match key {
                        KeyName::Enter => if none {
                            EditCommand::Submit
                        } else if shift_only {
                            EditCommand::InsertNewline
                        } else {
                            EditCommand::Ignore
                        },
                        KeyName::Char(c) => if c == 'o' && control_only {
                            EditCommand::InsertNewline
                        } else if !modifiers.control && !modifiers.alt {
                            EditCommand::InsertChar(c)
                        } else {
                            EditCommand::Ignore
                        },
                        KeyName::Tab => if none { EditCommand::InsertChar('\t') } else { EditCommand::Ignore },
                        KeyName::Backspace => if none { EditCommand::DeleteBack } else { EditCommand::Ignore },
                        KeyName::Delete => if none { EditCommand::DeleteForward } else { EditCommand::Ignore },
                        KeyName::Left => if none { EditCommand::MoveBack } else { EditCommand::Ignore },
                        KeyName::Right => if none { EditCommand::MoveForward } else { EditCommand::Ignore },
                        KeyName::Up => if none { EditCommand::MoveUp } else { EditCommand::Ignore },
                        KeyName::Down => if none { EditCommand::MoveDown } else { EditCommand::Ignore },
                        KeyName::Home => if none { EditCommand::MoveHome } else { EditCommand::Ignore },
                        KeyName::End => if none { EditCommand::MoveEnd } else { EditCommand::Ignore },
                        KeyName::Other => EditCommand::Ignore,
                    }
                },
                EditorEvent::Other => EditCommand::Ignore,
            }
        },
    }
}

/// Whether an event is a press of `key` with no modifier held.
pub open spec fn plain_press(event: EditorEvent, key: KeyName) -> bool {
    match event {
        EditorEvent::Key { key: k, modifiers, release } => k == key && !release && !modifiers.control
            && !modifiers.alt && !modifiers.shift && !modifiers.other,
        _ => false,
    }
}

/// Backspace deletes backward and Delete forward: an event deletes the
/// grapheme before the cursor exactly when it is a press of Backspace with
/// no modifier while no answer is streaming, and the grapheme after the
/// cursor exactly when it is such a press of Delete.
pub proof fn lemma_deletion_keys(event: EditorEvent, busy: bool)
    ensures
        edit_command(event, busy) == EditCommand::DeleteBack <==> (!busy && plain_press(event, KeyName::Backspace)),
        edit_command(event, busy) == EditCommand::DeleteForward <==> (!busy && plain_press(event, KeyName::Delete)),
{
}

/// Decides what an event does to the prompt.
pub fn decide(event: &EditorEvent, busy: bool) -> (r: EditCommand)
    ensures
        event !is Paste ==> r == edit_command(*event, busy),
        !busy && plain_press(*event, KeyName::Backspace) ==> r == EditCommand::DeleteBack,
        !busy && plain_press(*event, KeyName::Delete) ==> r == EditCommand::DeleteForward,
        r == EditCommand::DeleteBack ==> event matches EditorEvent::Key { key: KeyName::Backspace, release: false, .. },
        r == EditCommand::DeleteForward ==> event matches EditorEvent::Key { key: KeyName::Delete, release: false, .. },
        event matches EditorEvent::Paste(t) ==> if busy {
            r is Ignore
        } else {
            r matches EditCommand::Insert(s) && s@ == safe_paste(t@)
        },
{
    if let EditorEvent::Key { key, modifiers, release } = event {
        if *release {
            return EditCommand::Ignore;
        }
        if matches!(key, KeyName::Char('c')) && modifiers.control {
            return EditCommand::Exit;
        }
    }
    if busy {
        return EditCommand::Ignore;
    }
    match event {
        EditorEvent::Paste(t) => EditCommand::Insert(sanitize_paste(t.as_str())),
        EditorEvent::Key { key, modifiers, .. } => {
            let none = !modifiers.control && !modifiers.alt && !modifiers.shift && !modifiers.other;
            let shift_only = modifiers.shift && !modifiers.control && !modifiers.alt && !modifiers.other;
            let control_only = modifiers.control && !modifiers.shift && !modifiers.alt && !modifiers.other;
            match key {
                KeyName::Enter => if none {
                    EditCommand::Submit
                } else if shift_only {
                    EditCommand::InsertNewline
                } else {
                    EditCommand::Ignore
                },
                KeyName::Char(c) => if *c == 'o' && control_only {
                    EditCommand::InsertNewline
                } else if !modifiers.control && !modifiers.alt {
                    EditCommand::InsertChar(*c)
                } else {
                    EditCommand::Ignore
                },
                KeyName::Tab => if none { EditCommand::InsertChar('\t') } else { EditCommand::Ignore },
                KeyName::Backspace => if none { EditCommand::DeleteBack } else { EditCommand::Ignore },
                KeyName::Delete => if none { EditCommand::DeleteForward } else { EditCommand::Ignore },
                KeyName::Left => if none { EditCommand::MoveBack } else { EditCommand::Ignore },
                KeyName::Right => if none { EditCommand::MoveForward } else { EditCommand::Ignore },
                KeyName::Up => if none { EditCommand::MoveUp } else { EditCommand::Ignore },
                KeyName::Down => if none { EditCommand::MoveDown } else { EditCommand::Ignore },
                KeyName::Home => if none { EditCommand::MoveHome } else { EditCommand::Ignore },
                KeyName::End => if none { EditCommand::MoveEnd } else { EditCommand::Ignore },
                KeyName::Other => EditCommand::Ignore,
            }
        },
        EditorEvent::Other => EditCommand::Ignore,
    }
}

/// The prompt's lines joined with line feeds, as submitted.
pub open spec fn joined_lines(lines: Seq<String>) -> Seq<char>
    decreases lines.len(),
{
    if lines.len() == 0 {
        seq![]
    } else if lines.len() == 1 {
        lines[0]@
    } else {
        joined_lines(lines.drop_last()) + seq!['\n'] + lines.last()@
    }
}

pub fn join_lines(lines: &[String]) -> (s: String)
    ensures
        s@ == joined_lines(lines@),
{
    let mut s = String::new();
    let mut i: usize = 0;
    while i < lines.len()
        invariant
            i <= lines@.len(),
            s@ == joined_lines(lines@.take(i as int)),
        decreases lines.len() - i,
    {
        assert(lines@.take(i + 1).drop_last() =~= lines@.take(i as int));
        if i > 0 {
            push_char(&mut s, '\n');
        } else {
            assert(lines@.take(1) =~= seq![lines@[0]]);
        }
        push_str(&mut s, lines[i].as_str());
        i += 1;
    }
    assert(lines@.take(lines@.len() as int) =~= lines@);
    s
}

/// What the prompt tells the application after an event.
#[derive(Debug, PartialEq, Eq)]
pub enum Action {
    /// The prompt was edited, or nothing happened.
    Edit,
    /// The prompt's text is submitted.
    Submit(String),
    /// Leave the application.
    Exit,
}

/// The action an editor command comes to, given the prompt's lines before
/// it: a submission carries the lines joined by line feeds.
pub fn action_for(command: &EditCommand, lines: &[String]) -> (a: Action)
    ensures
        match command {
            EditCommand::Exit => a is Exit,
            EditCommand::Submit => a matches Action::Submit(t) && t@ == joined_lines(lines@),
            _ => a is Edit,
        },
{
    match command {
        EditCommand::Exit => Action::Exit,
        EditCommand::Submit => Action::Submit(join_lines(lines)),
        _ => Action::Edit,
    }
}


/// The character offsets at which the graphemes of `parts` begin, and the
/// offset of its end.
pub open spec fn boundaries_of(parts: Seq<Seq<char>>) -> Seq<nat>
    decreases parts.len(),
{
    if parts.len() == 0 {
        seq![0]
    } else {
        let b = boundaries_of(parts.drop_last());
        b.push(b.last() + parts.last().len())
    }
}

proof fn lemma_boundaries_shape(parts: Seq<Seq<char>>)
    ensures
        boundaries_of(parts).len() == parts.len() + 1,
        boundaries_of(parts)[0] == 0,
        boundaries_of(parts).last() == concat(parts).len(),
    decreases parts.len(),
{
    if parts.len() > 0 {
        lemma_boundaries_shape(parts.drop_last());
    }
}

/// The grapheme boundaries of a line, as character offsets from its start.
pub fn grapheme_boundaries(line: &str) -> (b: Vec<usize>)
    ensures
        b@.map_values(|x: usize| x as nat) == boundaries_of(graphemes_of(line@)),
{
    let total = chars_of(line).len();
    let gs = graphemes(line);
    let ghost gv = gs@.map_values(|g: String| g@);
    let mut b: Vec<usize> = Vec::new();
    b.push(0);
    let mut count: usize = 0;
    let mut i: usize = 0;
    assert(gv.take(0) =~= Seq::<Seq<char>>::empty());
    assert(b@.map_values(|x: usize| x as nat) =~= seq![0nat]);
    while i < gs.len()
        invariant
            i <= gs@.len(),
            gv == gs@.map_values(|g: String| g@),
            concat(gv) == line@,
            line@.len() == total,
            count as nat == concat(gv.take(i as int)).len(),
            b@.map_values(|x: usize| x as nat) == boundaries_of(gv.take(i as int)),
        decreases gs.len() - i,
    {
        let n = chars_of(gs[i].as_str()).len();
        proof {
            assert(gv.take(i + 1).drop_last() =~= gv.take(i as int));
            lemma_boundaries_shape(gv.take(i as int));
            lemma_concat_prefix_bound(gv, i + 1);
        }
        count = count + n;
        b.push(count);
        assert(b@.map_values(|x: usize| x as nat) =~= boundaries_of(gv.take(i + 1)));
        i += 1;
    }
    assert(gv.take(gs@.len() as int) =~= gv);
    b
}

/// A prefix of the parts is no longer than all of them together.
pub proof fn lemma_concat_bound(parts: Seq<Seq<char>>, n: int)
    requires
        0 <= n <= parts.len(),
    ensures
        concat(parts.take(n)).len() <= concat(parts).len(),
{
    lemma_concat_prefix_bound(parts, n);
}

proof fn lemma_concat_prefix_bound(parts: Seq<Seq<char>>, n: int)
    requires
        0 <= n <= parts.len(),
    ensures
        concat(parts.take(n)).len() <= concat(parts).len(),
    decreases parts.len(),
{
    if n < parts.len() {
        assert(parts.drop_last().take(n) =~= parts.take(n));
        lemma_concat_prefix_bound(parts.drop_last(), n);
    } else {
        assert(parts.take(n) =~= parts);
    }
}

/// Where a one-grapheme move from `col` lands: the nearest boundary before
/// it (backward) or after it (forward), if any.
pub fn step_target(b: &[usize], col: usize, back: bool) -> (r: Option<usize>)
    ensures
        back ==> match r {
            Some(p) => p < col && exists|i: int| 0 <= i < b@.len() && b@[i] == p && forall|j: int|
                i < j < b@.len() ==> #[trigger] b@[j] >= col,
            None => forall|j: int| 0 <= j < b@.len() ==> #[trigger] b@[j] >= col,
        },
        !back ==> match r {
            Some(p) => p > col && exists|i: int| 0 <= i < b@.len() && b@[i] == p && forall|j: int|
                0 <= j < i ==> #[trigger] b@[j] <= col,
            None => forall|j: int| 0 <= j < b@.len() ==> #[trigger] b@[j] <= col,
        },
{
    if back {
        let mut i: usize = b.len();
        while i > 0
            invariant
                back,
                i <= b@.len(),
                forall|j: int| i <= j < b@.len() ==> #[trigger] b@[j] >= col,
            decreases i,
        {
            if b[i - 1] < col {
                return Some(b[i - 1]);
            }
            i -= 1;
        }
        None
    } else {
        let mut i: usize = 0;
        while i < b.len()
            invariant
                !back,
                i <= b@.len(),
                forall|j: int| 0 <= j < i ==> #[trigger] b@[j] <= col,
            decreases b.len() - i,
        {
            if b[i] > col {
                return Some(b[i]);
            }
            i += 1;
        }
        None
    }
}

/// After a vertical move lands at `col`, the boundary at or before it.
pub fn vertical_target(b: &[usize], col: usize) -> (r: usize)
    ensures
        (r == 0 && forall|j: int| 0 <= j < b@.len() ==> #[trigger] b@[j] > col) || (r <= col && exists|i: int|
            0 <= i < b@.len() && b@[i] == r && forall|j: int| i < j < b@.len() ==> #[trigger] b@[j] > col),
{
    let mut i: usize = b.len();
    while i > 0
        invariant
            i <= b@.len(),
            forall|j: int| i <= j < b@.len() ==> #[trigger] b@[j] > col,
        decreases i,
    {
        if b[i - 1] <= col {
            return b[i - 1];
        }
        i -= 1;
    }
    0
}

/// The grapheme a deletion at `col` removes, as a character range: the one
/// ending at or after the cursor (backward) or starting at or before it
/// (forward), taking the first such pair of neighbouring boundaries.
pub fn delete_span(b: &[usize], col: usize, back: bool) -> (r: Option<(usize, usize)>)
    ensures
        match r {
            Some((s, e)) => exists|i: int|
                0 <= i < b@.len() - 1 && #[trigger] b@[i] == s && b@[i + 1] == e && (if back {
                    s < col <= e
                } else {
                    s <= col < e
                }) && forall|j: int|
                    0 <= j < i ==> !(if back {
                        #[trigger] b@[j] < col <= b@[j + 1]
                    } else {
                        b@[j] <= col < b@[j + 1]
                    }),
            None => forall|j: int|
                0 <= j < b@.len() - 1 ==> !(if back {
                    #[trigger] b@[j] < col <= b@[j + 1]
                } else {
                    b@[j] <= col < b@[j + 1]
                }),
        },
{
    let mut i: usize = 0;
    while b.len() > 0 && i < b.len() - 1
        invariant
            forall|j: int|
                0 <= j < i ==> !(if back {
                    #[trigger] b@[j] < col <= b@[j + 1]
                } else {
                    b@[j] <= col < b@[j + 1]
                }),
        decreases b.len() - i,
    {
        let hit = if back { b[i] < col && col <= b[i + 1] } else { b[i] <= col && col < b[i + 1] };
        if hit {
            return Some((b[i], b[i + 1]));
        }
        i += 1;
    }
    None
}

} // verus!
