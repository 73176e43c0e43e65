//! The wire format: what an agent writes to disk, and what deck writes back.
//!
//! These types mirror the JSON field for field, and there is nothing behind
//! them: every field means one thing, so there is no second shape to convert
//! into. Unknown fields are accepted on purpose; a missing required field is
//! not, because a ref with no `range` names no location. Reading and writing
//! the JSON happens at the edge; what a name on the wire means is decided
//! here.

use vstd::prelude::*;

use crate::diagram::Diagram;
use crate::line::LineRange;
use crate::text::is_word;

verus! {

/// The protocol version every document carries in its `v` field.
pub const VERSION: u32 = 1;

/// A deck header: the `deck.json` that appears with the directory.
#[derive(Debug, Clone)]
pub struct Header {
    /// Protocol version. See [`VERSION`].
    pub v: u32,
    /// The deck's identity, which is also its directory and review filename.
    pub id: String,
    /// The project this deck was written against; `None` means any project
    /// may render it.
    pub cwd: Option<String>,
    /// The question or claim the deck answers, as a heading.
    pub title: String,
    /// How many groups the agent intends to write.
    pub total: Option<u32>,
}

/// One thing the agent wants to say, and the code that shows it.
#[derive(Debug, Clone)]
pub struct Group {
    /// Identifies the group within its deck, as `g1`, `g2`.
    pub id: String,
    /// Position in the story, counting from 1.
    pub ord: Option<u32>,
    /// The narration, as Markdown.
    pub say: String,
    /// The evidence for this one claim. One pane each.
    pub refs: Vec<Ref>,
}

/// One pane's worth of evidence: code, a picture, or a page. On the wire they
/// are told apart by what they carry.
#[derive(Debug, Clone)]
pub enum Ref {
    /// Lines of a real file.
    Code(RefSpec),
    /// A picture of something that is not in any one file.
    Diagram(DiagramRef),
    /// A small page for the one idea that only makes sense moving.
    Page(PageRef),
}

impl Ref {
    /// The id of a ref, whichever kind it is.
    pub open spec fn spec_id(self) -> Seq<char> {
        match self {
            Ref::Code(code) => code.id@,
            Ref::Diagram(diagram) => diagram.id@,
            Ref::Page(page) => page.id@,
        }
    }

    /// Identifies the ref within its deck, whichever kind it is.
    pub fn id(&self) -> (id: &str)
        ensures
            id@ == self.spec_id(),
    {
        match self {
            Ref::Code(code) => code.id.as_str(),
            Ref::Diagram(diagram) => diagram.id.as_str(),
            Ref::Page(page) => page.id.as_str(),
        }
    }
}

/// A diagram, given a pane of its own.
#[derive(Debug, Clone)]
pub struct DiagramRef {
    /// Identifies the ref within its deck, as `g1d1`.
    pub id: String,
    /// What to draw.
    pub diagram: Diagram,
    /// A short label for the band.
    pub note: Option<String>,
    /// The name the prose uses for this pane.
    pub name: Option<String>,
}

/// A page, given a pane of its own.
#[derive(Debug, Clone)]
pub struct PageRef {
    /// Identifies the ref within its deck, as `g1p1`.
    pub id: String,
    /// The page's markup.
    pub page: String,
    /// A short label for the band.
    pub note: Option<String>,
    /// The name the prose uses for this pane.
    pub name: Option<String>,
}

/// A pointer at code: lines named outright.
#[derive(Debug, Clone)]
pub struct RefSpec {
    /// Identifies the ref within its deck, as `g1r1`.
    pub id: String,
    /// The file to open, relative to the deck's `cwd` or absolute.
    pub file: String,
    /// The lines to light up. Tight ranges only.
    pub range: LineRange,
    /// A short label for the pane and the band.
    pub note: Option<String>,
    /// The name the prose uses for this pane.
    pub name: Option<String>,
    /// A proposed replacement for the range; the file on disk is never
    /// touched.
    pub after: Option<String>,
    /// What the range held before, when the ref shows a change already made.
    pub before: Option<String>,
}

/// The review, written back when the reader submits.
#[derive(Debug, Clone)]
pub struct Review {
    /// Protocol version. See [`VERSION`].
    pub v: u32,
    /// The deck being answered, by id.
    pub deck: String,
    /// Every comment, in the order they were written.
    pub comments: Vec<Comment>,
}

/// One remark: about a line of code, or about the group's claim itself, in
/// which case `ref` and `range` are absent together.
#[derive(Debug, Clone)]
pub struct Comment {
    /// The group the comment was made in.
    pub group: String,
    /// The ref the comment was made on, or `None` for the group itself.
    pub ref_id: Option<String>,
    /// The file, repeated so a comment is legible without the deck.
    pub file: Option<String>,
    /// Where the comment sits now, or `None` for a remark about the group.
    pub range: Option<LineRange>,
    /// How much to trust `range`; `None` means the client did not say.
    pub source: Option<Source>,
    /// What kind of response the comment is asking for.
    pub kind: Kind,
    /// The text the comment was pinned to when it was written.
    pub quote: String,
    /// What the reader actually said.
    pub text: String,
}

/// How a comment's range was arrived at, and so how far to trust it.
#[derive(Debug, Clone, Copy, PartialEq, Eq, Structural)]
pub enum Source {
    /// The editor tracked the range through every edit. Exact.
    Extmark,
    /// The range was replayed through a diff of the file. Reliable.
    Diff,
    /// The range was found again by matching surrounding lines. A good guess.
    Fingerprint,
    /// The range could not be confirmed. Search for `quote` instead. Also
    /// where an unrecognised value lands, and the default.
    Stale,
}

impl Default for Source {
    fn default() -> (s: Self)
        ensures
            s == Source::Stale,
    {
        Source::Stale
    }
}

/// The source a wire name reads as: anything this version does not know is
/// not to be trusted.
pub open spec fn source_named(name: Seq<char>) -> Source {
    if name == seq!['e', 'x', 't', 'm', 'a', 'r', 'k'] {
        Source::Extmark
    } else if name == seq!['d', 'i', 'f', 'f'] {
        Source::Diff
    } else if name == seq!['f', 'i', 'n', 'g', 'e', 'r', 'p', 'r', 'i', 'n', 't'] {
        Source::Fingerprint
    } else {
        Source::Stale
    }
}

/// Read from the wire, forgivingly: anything unknown reads as the default.
impl From<String> for Source {
    fn from(name: String) -> (s: Self) {
        let n = name.as_str();
        if is_word(n, &['e', 'x', 't', 'm', 'a', 'r', 'k']) {
            Source::Extmark
        } else if is_word(n, &['d', 'i', 'f', 'f']) {
            Source::Diff
        } else if is_word(n, &['f', 'i', 'n', 'g', 'e', 'r', 'p', 'r', 'i', 'n', 't']) {
            Source::Fingerprint
        } else {
            Source::Stale
        }
    }
}

impl vstd::std_specs::convert::FromSpecImpl<String> for Source {
    open spec fn obeys_from_spec() -> bool {
        true
    }

    open spec fn from_spec(name: String) -> Self {
        source_named(name@)
    }
}

/// What the reader wants done about a comment.
#[derive(Debug, Clone, Copy, PartialEq, Eq, Structural)]
pub enum Kind {
    /// Change this before going further.
    MustFix,
    /// Answer this. The default.
    Question,
    /// Worth saying, not worth blocking on.
    Nit,
}

impl Default for Kind {
    fn default() -> (k: Self)
        ensures
            k == Kind::Question,
    {
        Kind::Question
    }
}

/// The kind a wire name reads as: anything unknown is a question.
pub open spec fn kind_named(name: Seq<char>) -> Kind {
    if name == seq!['m', 'u', 's', 't', '-', 'f', 'i', 'x'] {
        Kind::MustFix
    } else if name == seq!['n', 'i', 't'] {
        Kind::Nit
    } else {
        Kind::Question
    }
}

/// Read from the wire, forgivingly: anything unknown reads as the default.
impl From<String> for Kind {
    fn from(name: String) -> (k: Self) {
        let n = name.as_str();
        if is_word(n, &['m', 'u', 's', 't', '-', 'f', 'i', 'x']) {
            Kind::MustFix
        } else if is_word(n, &['n', 'i', 't']) {
            Kind::Nit
        } else {
            Kind::Question
        }
    }
}

impl vstd::std_specs::convert::FromSpecImpl<String> for Kind {
    open spec fn obeys_from_spec() -> bool {
        true
    }

    open spec fn from_spec(name: String) -> Self {
        kind_named(name@)
    }
}

impl Source {
    /// The wire name of a source.
    pub open spec fn spec_name(self) -> Seq<char> {
        match self {
            Source::Extmark => seq!['e', 'x', 't', 'm', 'a', 'r', 'k'],
            Source::Diff => seq!['d', 'i', 'f', 'f'],
            Source::Fingerprint => seq!['f', 'i', 'n', 'g', 'e', 'r', 'p', 'r', 'i', 'n', 't'],
            Source::Stale => seq!['s', 't', 'a', 'l', 'e'],
        }
    }

    /// The wire name of a source, as a review spells it.
    pub fn name(self) -> (s: String)
        ensures
            s@ == self.spec_name(),
    {
        let v: Vec<char> = match self {
            Source::Extmark => vec!['e', 'x', 't', 'm', 'a', 'r', 'k'],
            Source::Diff => vec!['d', 'i', 'f', 'f'],
            Source::Fingerprint => vec!['f', 'i', 'n', 'g', 'e', 'r', 'p', 'r', 'i', 'n', 't'],
            Source::Stale => vec!['s', 't', 'a', 'l', 'e'],
        };
        assert(v@ =~= self.spec_name());
        crate::text::string_of(&v)
    }
}

impl Kind {
    /// The wire name of a kind.
    pub open spec fn spec_name(self) -> Seq<char> {
        match self {
            Kind::MustFix => seq!['m', 'u', 's', 't', '-', 'f', 'i', 'x'],
            Kind::Question => seq!['q', 'u', 'e', 's', 't', 'i', 'o', 'n'],
            Kind::Nit => seq!['n', 'i', 't'],
        }
    }

    /// The wire name of a kind, as a review spells it.
    pub fn name(self) -> (s: String)
        ensures
            s@ == self.spec_name(),
    {
        let v: Vec<char> = match self {
            Kind::MustFix => vec!['m', 'u', 's', 't', '-', 'f', 'i', 'x'],
            Kind::Question => vec!['q', 'u', 'e', 's', 't', 'i', 'o', 'n'],
            Kind::Nit => vec!['n', 'i', 't'],
        };
        assert(v@ =~= self.spec_name());
        crate::text::string_of(&v)
    }
}

/// A name written on the wire reads back as what it was written from.
pub proof fn lemma_names_round_trip(s: Source, k: Kind)
    ensures
        source_named(s.spec_name()) == s,
        kind_named(k.spec_name()) == k,
{
    assert(s.spec_name() =~= s.spec_name());
    if s == Source::Stale {
        assert(s.spec_name() != seq!['e', 'x', 't', 'm', 'a', 'r', 'k']);
        assert(s.spec_name() != seq!['d', 'i', 'f', 'f']);
        assert(s.spec_name() != seq!['f', 'i', 'n', 'g', 'e', 'r', 'p', 'r', 'i', 'n', 't']);
    }
    if s == Source::Diff {
        assert(s.spec_name() != seq!['e', 'x', 't', 'm', 'a', 'r', 'k']);
    }
    if s == Source::Fingerprint {
        assert(s.spec_name() != seq!['e', 'x', 't', 'm', 'a', 'r', 'k']);
        assert(s.spec_name() != seq!['d', 'i', 'f', 'f']);
    }
    if k == Kind::Question {
        assert(k.spec_name() != seq!['m', 'u', 's', 't', '-', 'f', 'i', 'x']);
        assert(k.spec_name() != seq!['n', 'i', 't']);
    }
    if k == Kind::Nit {
        assert(k.spec_name() != seq!['m', 'u', 's', 't', '-', 'f', 'i', 'x']);
    }
}

} // verus!
