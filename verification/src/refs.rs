//! Naming a ref on a command line.
//!
//! A ref is a file, a range and a note, and all three have to survive being
//! one shell argument:
//!
//! ```text
//! src/batch.ts:140-148 decremented *twice* when the write fails
//! ```
//!
//! File, colon, range, then — after a single space — whatever is left is the
//! note. It parses from the right rather than the left, because a Windows path
//! has a colon in it and a note may have anything in it at all.

use vstd::prelude::*;

use crate::line::LineRange;
use crate::text::{chars_of, parse_number, parse_u32, slice_of, string_of, trim, trimmed};

verus! {

/// What a `--ref` argument said.
#[derive(Debug, Clone, PartialEq, Eq)]
pub struct Named {
    /// The file, as written.
    pub file: String,
    /// The lines to light up.
    pub range: LineRange,
    /// The note, if one was given.
    pub note: Option<String>,
    /// The name the prose uses for this pane: a leading `[name]` in the note.
    pub name: Option<String>,
    /// What the range should become, when the ref is a proposed change rather
    /// than something to look at. Set by the caller, not by the syntax.
    pub after: Option<String>,
    /// What the range held before, when the ref shows a change already made.
    /// Set by the caller, not by the syntax.
    pub before: Option<String>,
}

/// Why an argument is not a ref.
#[derive(Debug, Clone, PartialEq, Eq)]
pub enum RefError {
    /// There is no `file:range` at the front of it: no colon in `target`.
    NoRange {
        /// The part before the note.
        target: String,
    },
    /// Nothing comes before the colon.
    NoFile,
    /// A line number is not a number.
    NotANumber {
        /// The text that should have been a number, as written.
        text: String,
        /// Whether it was the first line number rather than the last.
        first: bool,
    },
}

/// Where `c` first occurs in `s`.
pub open spec fn first_at(s: Seq<char>, c: char) -> Option<int> {
    if exists|i: int| 0 <= i < s.len() && s[i] == c && forall|j: int| 0 <= j < i ==> s[j] != c {
        Some(choose|i: int| 0 <= i < s.len() && s[i] == c && forall|j: int| 0 <= j < i ==> s[j] != c)
    } else {
        None
    }
}

/// Where `c` last occurs in `s`.
pub open spec fn last_at(s: Seq<char>, c: char) -> Option<int> {
    if exists|i: int| 0 <= i < s.len() && s[i] == c && forall|j: int| i < j < s.len() ==> s[j] != c {
        Some(choose|i: int| 0 <= i < s.len() && s[i] == c && forall|j: int| i < j < s.len() ==> s[j] != c)
    } else {
        None
    }
}

/// The argument before its first space.
pub open spec fn target_of(arg: Seq<char>) -> Seq<char> {
    match first_at(arg, ' ') {
        Some(i) => arg.take(i),
        None => arg,
    }
}

/// The note after the first space, trimmed, when there is a space.
pub open spec fn note_of(arg: Seq<char>) -> Option<Seq<char>> {
    match first_at(arg, ' ') {
        Some(i) => Some(trim(arg.skip(i + 1))),
        None => None,
    }
}

/// A note's leading `[name]`, when it has one: the text between a `[` at
/// its start and the first `]`, when that text is not empty.
pub open spec fn name_of(note: Seq<char>) -> Option<Seq<char>> {
    if note.len() > 0 && note[0] == '[' {
        match first_at(note, ']') {
            Some(k) => if k > 1 {
                Some(note.subrange(1, k))
            } else {
                None
            },
            None => None,
        }
    } else {
        None
    }
}

/// What is left of a note once its name is taken off, trimmed.
pub open spec fn rest_of(note: Seq<char>) -> Seq<char> {
    match name_of(note) {
        Some(name) => trim(note.skip(name.len() + 2int)),
        None => note,
    }
}

/// The text of the two line numbers in a span: either side of its first
/// `-`, or the span twice for a single line.
pub open spec fn ends_of(span: Seq<char>) -> (Seq<char>, Seq<char>) {
    match first_at(span, '-') {
        Some(d) => (span.take(d), span.skip(d + 1)),
        None => (span, span),
    }
}

/// What an argument reads as: the file, the two line numbers and the note,
/// or why it is not a ref.
pub open spec fn reads_as(arg: Seq<char>) -> Result<(Seq<char>, u32, u32, Option<Seq<char>>), RefError> {
    let target = target_of(arg);
    match last_at(target, ':') {
        None => Err(RefError::NoRange { target: arbitrary() }),
        Some(c) => {
            let file = target.take(c);
            let (a, b) = ends_of(target.skip(c + 1));
            if file.len() == 0 {
                Err(RefError::NoFile)
            } else {
                match (parse_u32(trim(a)), parse_u32(trim(b))) {
                    (None, _) => Err(RefError::NotANumber { text: arbitrary(), first: true }),
                    (Some(_), None) => Err(RefError::NotANumber { text: arbitrary(), first: false }),
                    (Some(f), Some(l)) => Ok((file, f, l, note_of(arg))),
                }
            }
        },
    }
}

/// The characters of an optional string.
pub open spec fn opt_chars(o: Option<String>) -> Option<Seq<char>> {
    match o {
        Some(s) => Some(s@),
        None => None,
    }
}

/// A note split into its leading `[name]`, if any, and the rest.
fn split_name(t: &Vec<char>) -> (r: (Option<String>, Option<String>))
    ensures
        opt_chars(r.0) == name_of(t@),
        opt_chars(r.1) == if rest_of(t@).len() > 0 {
            Some(rest_of(t@))
        } else {
            None
        },
{
    let mut name: Option<String> = None;
    let mut rest = slice_of(t, 0, t.len());
    assert(t@.take(t@.len() as int) =~= t@);
    if t.len() > 0 && t[0] == '[' {
        if let Some(k) = find(t, ']') {
            if k > 1 {
                name = Some(string_of(&slice_of(t, 1, k)));
                rest = trimmed(&tail(t, k + 1));
            }
        }
    }
    let note = if rest.len() > 0 {
        Some(string_of(&rest))
    } else {
        None
    };
    (name, note)
}

/// Where `c` first occurs in `v`.
pub fn find(v: &[char], c: char) -> (r: Option<usize>)
    ensures
        r matches Some(i) ==> i < v@.len() && v@[i as int] == c,
        match r {
            Some(i) => first_at(v@, c) == Some(i as int),
            None => first_at(v@, c) is None,
        },
{
    let mut i: usize = 0;
    while i < v.len()
        invariant
            i <= v@.len(),
            forall|j: int| 0 <= j < i ==> v@[j] != c,
        decreases v@.len() - i,
    {
        if v[i] == c {
            proof {
                let w = choose|k: int| 0 <= k < v@.len() && v@[k] == c && forall|j: int| 0 <= j < k ==> v@[j] != c;
                assert(v@[i as int] == c);
                if w < i {
                } else if w > i {
                    assert(v@[w] == c);
                }
            }
            return Some(i);
        }
        i += 1;
    }
    None
}

/// Where `c` last occurs in `v`.
pub fn rfind(v: &[char], c: char) -> (r: Option<usize>)
    ensures
        r matches Some(i) ==> i < v@.len() && v@[i as int] == c,
        match r {
            Some(i) => last_at(v@, c) == Some(i as int),
            None => last_at(v@, c) is None,
        },
{
    let mut i: usize = v.len();
    while i > 0
        invariant
            i <= v@.len(),
            forall|j: int| i <= j < v@.len() ==> v@[j] != c,
        decreases i,
    {
        if v[i - 1] == c {
            proof {
                let w = choose|k: int| 0 <= k < v@.len() && v@[k] == c && forall|j: int| k < j < v@.len() ==> v@[j] != c;
                assert(v@[i - 1] == c);
            }
            return Some(i - 1);
        }
        i -= 1;
    }
    None
}

/// The characters of `v` from `a` on.
fn tail(v: &[char], a: usize) -> (t: Vec<char>)
    requires
        a <= v@.len(),
    ensures
        t@ == v@.skip(a as int),
{
    let t = slice_of(v, a, v.len());
    assert(t@ =~= v@.skip(a as int));
    t
}

/// Read one `--ref` argument.
///
/// Fails when there is no `file:range` at the front of it, when nothing
/// comes before the colon, or when a line number is not a number. A single
/// number is a range of one line, and a backwards range is put in order.
pub fn parse(argument: &str) -> (r: Result<Named, RefError>)
    ensures
        match (r, reads_as(argument@)) {
            (Ok(n), Ok((file, f, l, note))) => {
                &&& n.file@ == file
                &&& n.range == LineRange::spec_new(f, l)
                &&& opt_chars(n.name) == match note {
                    Some(t) => name_of(t),
                    None => None,
                }
                &&& opt_chars(n.note) == match note {
                    Some(t) => if rest_of(t).len() > 0 {
                        Some(rest_of(t))
                    } else {
                        None
                    },
                    None => None,
                }
                &&& n.after is None && n.before is None
            },
            (Err(RefError::NoRange { target }), Err(RefError::NoRange { .. })) => target@ == target_of(argument@),
            (Err(RefError::NoFile), Err(RefError::NoFile)) => true,
            (Err(RefError::NotANumber { text, first }), Err(RefError::NotANumber { first: f, .. })) => {
                &&& first == f
                &&& text@ == if first {
                    ends_of(target_of(argument@).skip(last_at(target_of(argument@), ':')->0 + 1)).0
                } else {
                    ends_of(target_of(argument@).skip(last_at(target_of(argument@), ':')->0 + 1)).1
                }
            },
            _ => false,
        },
{
    let arg = chars_of(argument);
    let (target, note) = match find(&arg, ' ') {
        Some(i) => (slice_of(&arg, 0, i), Some(trimmed(&tail(&arg, i + 1)))),
        None => (slice_of(&arg, 0, arg.len()), None),
    };
    assert(arg@.take(arg@.len() as int) =~= arg@);
    let colon = match rfind(&target, ':') {
        Some(c) => c,
        None => {
            return Err(RefError::NoRange { target: string_of(&target) });
        },
    };
    let file = slice_of(&target, 0, colon);
    let span = tail(&target, colon + 1);
    if file.len() == 0 {
        return Err(RefError::NoFile);
    }
    let (first, last) = match find(&span, '-') {
        Some(d) => (slice_of(&span, 0, d), tail(&span, d + 1)),
        None => (slice_of(&span, 0, span.len()), slice_of(&span, 0, span.len())),
    };
    assert(span@.take(span@.len() as int) =~= span@);
    let f = match parse_number(&trimmed(&first)) {
        Some(n) => n,
        None => {
            return Err(RefError::NotANumber { text: string_of(&first), first: true });
        },
    };
    let l = match parse_number(&trimmed(&last)) {
        Some(n) => n,
        None => {
            return Err(RefError::NotANumber { text: string_of(&last), first: false });
        },
    };
    let (name, note) = match note {
        Some(t) => split_name(&t),
        None => (None, None),
    };
    Ok(
        Named {
            file: string_of(&file),
            range: LineRange::new(f, l),
            note,
            name,
            after: None,
            before: None,
        },
    )
}

} // verus!
