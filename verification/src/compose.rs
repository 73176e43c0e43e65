//! The rules a group passes before it is written, and the group it becomes.
//!
//! An agent has a shell in every setup it runs in, so one command reaches all
//! of them: start a deck, add a group, seal it, wait for the answer. The
//! filesystem is the command's business. What a group may say, what it is
//! warned about, and the shape it is written in are decided here.

use vstd::prelude::*;

use crate::diagram::Diagram;
use crate::line::LineRange;
use crate::protocol::{DiagramRef, Group, PageRef, Ref, RefSpec};
use crate::refs::Named;
use crate::text::{
    ascii_lower, chars_of, contains, decimal, decimal_of, digit, digit_char, extend, find_at, first_from, is_at, keep_nonempty, lowered,
    nonempty, occurs, occurs_at, pieces, slice_of, split_by, string_of, trim_all, views_of,
    words, words_of, Seps,
};

verus! {

broadcast use vstd::string::group_string_axioms;

/// A picture, as a `--diagram` argument named it.
#[derive(Debug, Clone)]
pub struct Picture {
    /// What to draw.
    pub diagram: Diagram,
    /// A short label for the band.
    pub note: Option<String>,
    /// The name the prose uses for this pane.
    pub name: Option<String>,
}

/// A page, as a `--page` argument named it.
#[derive(Debug, Clone)]
pub struct Written {
    /// The page's markup.
    pub html: String,
    /// A short label for the band.
    pub note: Option<String>,
    /// The name the prose uses for this pane.
    pub name: Option<String>,
}

/// Something to point at, before it has been given an id.
///
/// Ids are minted here rather than asked for: they have to be unique across
/// the whole deck, and only this crate knows both the group's position and
/// the ref's.
#[derive(Debug, Clone)]
pub enum Pointing {
    /// Lines of a file, as a `--ref` argument named them.
    Code(Named),
    /// A picture, as a `--diagram` argument named it.
    Drawn(Picture),
    /// A page, as a `--page` argument named it.
    Written(Written),
}

/// How many words a page may show before it has become a document.
pub const WORDS: usize = 40;

/// How far apart two ranges in one file have to be to deserve separate panes.
pub const APART: u32 = 30;

/// Why a group was refused.
#[derive(Debug, Clone, PartialEq, Eq)]
pub enum Refused {
    /// The narration has a fenced code block in it.
    CodeInNarration,
    /// Two panes of one file show the same block.
    SameBlock {
        /// The file both panes show.
        file: String,
        /// The first pane's range.
        a: LineRange,
        /// The second pane's range.
        b: LineRange,
        /// The first line of the one pane that would say it once.
        first: u32,
        /// The last line of that pane.
        last: u32,
    },
    /// Two panes answer to one name.
    SameName {
        /// The name they share.
        name: String,
    },
    /// A page shows more words than a page may.
    TooManyWords {
        /// How many it shows.
        words: usize,
    },
}

/// The narration's fence: three backticks.
pub open spec fn fence() -> Seq<char> {
    seq!['`', '`', '`']
}

/// Refuse narration with a code block typed into it.
///
/// The band renders inline marks and nothing else, so a fence comes out as
/// one long wrapped paragraph with the backticks still in it. Code that exists
/// belongs in a ref; code that does not exist yet belongs in `after`.
pub fn show_code_do_not_type_it(say: &str) -> (r: Result<(), Refused>)
    ensures
        r == if occurs(say@, fence()) {
            Err::<(), Refused>(Refused::CodeInNarration)
        } else {
            Ok(())
        },
{
    let text = chars_of(say);
    if contains(&text, &['`', '`', '`']) {
        Err(Refused::CodeInNarration)
    } else {
        Ok(())
    }
}

/// The code refs among `p`, in order.
pub open spec fn codes(p: Seq<Pointing>) -> Seq<Named>
    decreases p.len(),
{
    if p.len() == 0 {
        Seq::empty()
    } else {
        match p.last() {
            Pointing::Code(n) => codes(p.drop_last()).push(n),
            _ => codes(p.drop_last()),
        }
    }
}

/// The pictures among `p`, in order.
pub open spec fn pictures(p: Seq<Pointing>) -> Seq<Picture>
    decreases p.len(),
{
    if p.len() == 0 {
        Seq::empty()
    } else {
        match p.last() {
            Pointing::Drawn(d) => pictures(p.drop_last()).push(d),
            _ => pictures(p.drop_last()),
        }
    }
}

/// The pages among `p`, in order.
pub open spec fn pages(p: Seq<Pointing>) -> Seq<Written>
    decreases p.len(),
{
    if p.len() == 0 {
        Seq::empty()
    } else {
        match p.last() {
            Pointing::Written(w) => pages(p.drop_last()).push(w),
            _ => pages(p.drop_last()),
        }
    }
}

/// Whether code refs `i` and `j` show one block of one file: the same file,
/// and the span covering both no more than [`APART`] lines.
pub open spec fn clash(code: Seq<Named>, i: int, j: int) -> bool {
    let (a, b) = (code[i], code[j]);
    let first = if a.range.first <= b.range.first {
        a.range.first
    } else {
        b.range.first
    };
    let last = if a.range.last >= b.range.last {
        a.range.last
    } else {
        b.range.last
    };
    &&& 0 <= i < j < code.len()
    &&& a.file@ == b.file@
    &&& (if last >= first {
        last - first
    } else {
        0
    }) <= APART
}

/// Whether pair `(i, j)` comes before `(k, l)`, taking `i` first.
pub open spec fn earlier(i: int, j: int, k: int, l: int) -> bool {
    i < k || (i == k && j < l)
}

/// The code refs of `p`, gathered.
fn gather_codes(p: &[Pointing]) -> (r: Vec<&Named>)
    ensures
        r@.map_values(|n: &Named| *n) == codes(p@),
{
    let mut out: Vec<&Named> = Vec::new();
    let mut i: usize = 0;
    while i < p.len()
        invariant
            i <= p@.len(),
            out@.map_values(|n: &Named| *n) == codes(p@.take(i as int)),
        decreases p@.len() - i,
    {
        assert(p@.take(i + 1).drop_last() =~= p@.take(i as int));
        match &p[i] {
            Pointing::Code(n) => {
                out.push(n);
            },
            _ => {},
        }
        assert(out@.map_values(|n: &Named| *n) =~= codes(p@.take(i + 1)));
        i += 1;
    }
    assert(p@.take(p@.len() as int) =~= p@);
    out
}

/// Refuse a group that shows one block of one file twice: two code refs of
/// one file whose ranges are within [`APART`] lines of each other. The first
/// such pair, in order, is the one reported, with the single pane that would
/// say it once.
pub fn one_pane_per_block(pointing: &[Pointing]) -> (r: Result<(), Refused>)
    ensures
        match r {
            Ok(()) => forall|i: int, j: int| !#[trigger] clash(codes(pointing@), i, j),
            Err(Refused::SameBlock { file, a, b, first, last }) => exists|i: int, j: int|
                #[trigger] clash(codes(pointing@), i, j) && file@ == codes(pointing@)[i].file@
                    && a == codes(pointing@)[i].range && b == codes(pointing@)[j].range && first == (
                    if a.first <= b.first {
                        a.first
                    } else {
                        b.first
                    }) && last == (if a.last >= b.last {
                    a.last
                } else {
                    b.last
                }) && forall|k: int, l: int| #[trigger] clash(codes(pointing@), k, l) ==> !earlier(k, l, i, j),
            Err(_) => false,
        },
{
    let code = gather_codes(pointing);
    let ghost cs = codes(pointing@);
    assert(cs.len() == code@.len());
    let mut i: usize = 0;
    while i < code.len()
        invariant
            cs == codes(pointing@),
            code@.map_values(|n: &Named| *n) == cs,
            i <= code@.len(),
            forall|k: int, l: int| #[trigger] clash(cs, k, l) ==> k >= i,
        decreases code@.len() - i,
    {
        let mut j: usize = i + 1;
        while j < code.len()
            invariant
                cs == codes(pointing@),
                code@.map_values(|n: &Named| *n) == cs,
                i < code@.len(),
                i + 1 <= j <= code@.len(),
                forall|k: int, l: int| #[trigger] clash(cs, k, l) ==> k >= i,
                forall|l: int| l < j ==> !#[trigger] clash(cs, i as int, l),
            decreases code@.len() - j,
        {
            let (a, b) = (code[i], code[j]);
            assert(*a == cs[i as int] && *b == cs[j as int]);
            if crate::text::text_eq(&a.file, &b.file) {
                let first = if a.range.first <= b.range.first {
                    a.range.first
                } else {
                    b.range.first
                };
                let last = if a.range.last >= b.range.last {
                    a.range.last
                } else {
                    b.range.last
                };
                if last.saturating_sub(first) <= APART {
                    assert(clash(cs, i as int, j as int));
                    return Err(
                        Refused::SameBlock {
                            file: a.file.clone(),
                            a: a.range,
                            b: b.range,
                            first,
                            last,
                        },
                    );
                }
            }
            j += 1;
        }
        i += 1;
    }
    Ok(())
}

/// The names the panes of `p` answer to, in order.
pub open spec fn names(p: Seq<Pointing>) -> Seq<Seq<char>>
    decreases p.len(),
{
    if p.len() == 0 {
        Seq::empty()
    } else {
        let rest = names(p.drop_last());
        let name = match p.last() {
            Pointing::Code(n) => n.name,
            Pointing::Drawn(d) => d.name,
            Pointing::Written(w) => w.name,
        };
        match name {
            Some(s) => rest.push(s@),
            None => rest,
        }
    }
}

/// Whether name `i` is answered to again later.
pub open spec fn repeated(ns: Seq<Seq<char>>, i: int) -> bool {
    exists|j: int| i < j < ns.len() && ns[j] == ns[i]
}

/// The names of `p`, gathered.
fn gather_names(p: &[Pointing]) -> (r: Vec<String>)
    ensures
        views_of_strings(r@) == names(p@),
{
    let mut out: Vec<String> = Vec::new();
    let mut i: usize = 0;
    while i < p.len()
        invariant
            i <= p@.len(),
            views_of_strings(out@) == names(p@.take(i as int)),
        decreases p@.len() - i,
    {
        assert(p@.take(i + 1).drop_last() =~= p@.take(i as int));
        let name = match &p[i] {
            Pointing::Code(n) => &n.name,
            Pointing::Drawn(d) => &d.name,
            Pointing::Written(w) => &w.name,
        };
        match name {
            Some(s) => {
                out.push(s.clone());
            },
            None => {},
        }
        assert(views_of_strings(out@) =~= names(p@.take(i + 1)));
        i += 1;
    }
    assert(p@.take(p@.len() as int) =~= p@);
    out
}

/// The texts of `v`.
pub open spec fn views_of_strings(v: Seq<String>) -> Seq<Seq<char>> {
    v.map_values(|s: String| s@)
}

/// Refuse two panes of one group with the same name: the prose names a pane
/// to say which one it means. The first name answered to twice is reported.
pub fn one_pane_per_name(pointing: &[Pointing]) -> (r: Result<(), Refused>)
    ensures
        match r {
            Ok(()) => forall|i: int| 0 <= i < names(pointing@).len() ==> !#[trigger] repeated(names(pointing@), i),
            Err(Refused::SameName { name }) => exists|i: int|
                0 <= i < names(pointing@).len() && #[trigger] repeated(names(pointing@), i) && name@
                    == names(pointing@)[i] && forall|k: int| 0 <= k < i ==> !#[trigger] repeated(names(pointing@), k),
            Err(_) => false,
        },
{
    let ns = gather_names(pointing);
    let ghost vs = names(pointing@);
    let mut i: usize = 0;
    while i < ns.len()
        invariant
            vs == names(pointing@),
            views_of_strings(ns@) == vs,
            i <= ns@.len(),
            forall|k: int| 0 <= k < i ==> !#[trigger] repeated(vs, k),
        decreases ns@.len() - i,
    {
        let mut j: usize = i + 1;
        while j < ns.len()
            invariant
                vs == names(pointing@),
                views_of_strings(ns@) == vs,
                i < ns@.len(),
                i + 1 <= j <= ns@.len(),
                forall|k: int| 0 <= k < i ==> !#[trigger] repeated(vs, k),
                forall|l: int| i < l < j ==> vs[l] != vs[i as int],
            decreases ns@.len() - j,
        {
            if crate::text::text_eq(&ns[j], &ns[i]) {
                assert(vs[j as int] == vs[i as int]);
                assert(repeated(vs, i as int));
                assert(ns@[i as int]@ == vs[i as int]);
                return Err(Refused::SameName { name: ns[i].clone() });
            }
            j += 1;
        }
        i += 1;
    }
    Ok(())
}


/// The characters of a short pattern, as a vector.
fn pattern(p: &[char]) -> (v: Vec<char>)
    ensures
        v@ == p@,
{
    slice_of(p, 0, p.len())
}

/// What a page shows, starting at `pos`: the text outside its tags, with the
/// contents of `script` and `style` taken out with them. `low` is the page in
/// ASCII lower case, where tag names are looked for.
pub open spec fn shown_from(h: Seq<char>, low: Seq<char>, pos: int) -> Seq<char>
    decreases h.len() - pos,
{
    if pos < 0 || pos > h.len() {
        Seq::empty()
    } else {
        match first_from(h, pos, seq!['<']) {
            None => h.subrange(pos, h.len() as int),
            Some(at) => {
                let before = h.subrange(pos, at);
                let cur = if occurs_at(low, at, seq!['<', 's', 'c', 'r', 'i', 'p', 't']) {
                    first_from(low, at, seq!['<', '/', 's', 'c', 'r', 'i', 'p', 't'])
                } else if occurs_at(low, at, seq!['<', 's', 't', 'y', 'l', 'e']) {
                    first_from(low, at, seq!['<', '/', 's', 't', 'y', 'l', 'e'])
                } else {
                    Some(at)
                };
                match cur {
                    None => before,
                    Some(c) => match first_from(h, c, seq!['>']) {
                        Some(e) => {
                            proof {
                                crate::text::lemma_first_from_bounds(h, pos, seq!['<']);
                                crate::text::lemma_first_from_bounds(low, at, seq!['<', '/', 's', 'c', 'r', 'i', 'p', 't']);
                                crate::text::lemma_first_from_bounds(low, at, seq!['<', '/', 's', 't', 'y', 'l', 'e']);
                                crate::text::lemma_first_from_bounds(h, c, seq!['>']);
                            }
                            before + shown_from(h, low, e + 1)
                        },
                        None => before + h.subrange(c, h.len() as int),
                    },
                }
            },
        }
    }
}

/// The text a page shows.
pub open spec fn shown(html: Seq<char>) -> Seq<char> {
    shown_from(html, ascii_lower(html), 0)
}

/// The words a page shows, which is the only thing it is rationed on.
///
/// Markup, so this is a scan and not a parse: tags come out, the contents of
/// `script` and `style` come out with them, and what is left is what a reader
/// would see.
pub fn shown_words(html: &str) -> (n: usize)
    ensures
        n == words(shown(html@)).len(),
{
    let h = chars_of(html);
    let low = lowered(&h);
    let ghost whole = shown(html@);
    let lt = pattern(&['<']);
    let gt = pattern(&['>']);
    let script = pattern(&['<', 's', 'c', 'r', 'i', 'p', 't']);
    let script_end = pattern(&['<', '/', 's', 'c', 'r', 'i', 'p', 't']);
    let style = pattern(&['<', 's', 't', 'y', 'l', 'e']);
    let style_end = pattern(&['<', '/', 's', 't', 'y', 'l', 'e']);
    assert(lt@ =~= seq!['<']);
    assert(gt@ =~= seq!['>']);
    assert(script@ =~= seq!['<', 's', 'c', 'r', 'i', 'p', 't']);
    assert(script_end@ =~= seq!['<', '/', 's', 'c', 'r', 'i', 'p', 't']);
    assert(style@ =~= seq!['<', 's', 't', 'y', 'l', 'e']);
    assert(style_end@ =~= seq!['<', '/', 's', 't', 'y', 'l', 'e']);
    let mut text: Vec<char> = Vec::new();
    let mut pos: usize = 0;
    loop
        invariant_except_break
            pos <= h@.len(),
            text@ + shown_from(h@, low@, pos as int) == whole,
        invariant
            h@ == html@,
            low@ == ascii_lower(h@),
            low@.len() == h@.len(),
            whole == shown(html@),
            lt@ == seq!['<'],
            gt@ == seq!['>'],
            script@ == seq!['<', 's', 'c', 'r', 'i', 'p', 't'],
            script_end@ == seq!['<', '/', 's', 'c', 'r', 'i', 'p', 't'],
            style@ == seq!['<', 's', 't', 'y', 'l', 'e'],
            style_end@ == seq!['<', '/', 's', 't', 'y', 'l', 'e'],
        ensures
            text@ == whole,
        decreases h@.len() - pos,
    {
        let ghost rest = shown_from(h@, low@, pos as int);
        match find_at(&h, pos, &lt) {
            None => {
                let tail = slice_of(&h, pos, h.len());
                assert(rest == h@.subrange(pos as int, h@.len() as int));
                extend(&mut text, &tail);
                assert(text@ =~= whole);
                break ;
            },
            Some(at) => {
                proof {
                    crate::text::lemma_first_from_bounds(h@, pos as int, seq!['<']);
                }
                let before = slice_of(&h, pos, at);
                extend(&mut text, &before);
                let cur = if is_at(&low, at, &script) {
                    find_at(&low, at, &script_end)
                } else if is_at(&low, at, &style) {
                    find_at(&low, at, &style_end)
                } else {
                    Some(at)
                };
                proof {
                    crate::text::lemma_first_from_bounds(low@, at as int, seq!['<', '/', 's', 'c', 'r', 'i', 'p', 't']);
                    crate::text::lemma_first_from_bounds(low@, at as int, seq!['<', '/', 's', 't', 'y', 'l', 'e']);
                }
                match cur {
                    None => {
                        assert(text@ =~= whole);
                        let ws = words_of(&text);
                        return ws.len();
                    },
                    Some(c) => {
                        match find_at(&h, c, &gt) {
                            Some(e) => {
                                proof {
                                    crate::text::lemma_first_from_bounds(h@, c as int, seq!['>']);
                                }
                                assert(e < h.len());
                                proof {
                                    assert(rest == before@ + shown_from(h@, low@, e + 1));
                                    assert(text@ + shown_from(h@, low@, e + 1) =~= whole);
                                }
                                assert(at >= pos);
                                assert(c >= at);
                                assert(e >= c);
                                pos = e + 1;
                            },
                            None => {
                                assert(c <= h.len());
                                let tail = slice_of(&h, c, h.len());
                                assert(rest == before@ + h@.subrange(c as int, h@.len() as int));
                                extend(&mut text, &tail);
                                assert(text@ =~= whole);
                                break ;
                            },
                        }
                    },
                }
            },
        }
    }
    let ws = words_of(&text);
    ws.len()
}

/// Refuse a page that has been written as a document: the first page that
/// shows more than [`WORDS`] words is reported, with its count.
pub fn a_page_is_not_a_document(pointing: &[Pointing]) -> (r: Result<(), Refused>)
    ensures
        match r {
            Ok(()) => forall|i: int|
                0 <= i < pages(pointing@).len() ==> words(shown(#[trigger] pages(pointing@)[i].html@)).len() <= WORDS,
            Err(Refused::TooManyWords { words: n }) => exists|i: int|
                0 <= i < pages(pointing@).len() && n == words(shown(#[trigger] pages(pointing@)[i].html@)).len()
                    && n > WORDS && forall|k: int|
                    0 <= k < i ==> words(shown(#[trigger] pages(pointing@)[k].html@)).len() <= WORDS,
            Err(_) => false,
        },
{
    let ghost ps = pages(pointing@);
    let mut i: usize = 0;
    while i < pointing.len()
        invariant
            ps == pages(pointing@),
            i <= pointing@.len(),
            forall|k: int|
                0 <= k < pages(pointing@.take(i as int)).len() ==> words(
                    shown(#[trigger] pages(pointing@.take(i as int))[k].html@),
                ).len() <= WORDS,
        decreases pointing@.len() - i,
    {
        proof {
            lemma_pages_prefix(pointing@, i as int);
            lemma_pages_split(pointing@, i as int);
            lemma_pages_split(pointing@, i + 1);
        }
        if let Pointing::Written(page) = &pointing[i] {
            let n = shown_words(page.html.as_str());
            if n > WORDS {
                proof {
                    let seen = pages(pointing@.take(i as int)).len() as int;
                    assert(pages(pointing@.take(i + 1))[seen] == *page);
                    assert(ps[seen] == pages(pointing@.take(i + 1))[seen]);
                    assert forall|k: int| 0 <= k < seen implies words(shown(#[trigger] ps[k].html@)).len() <= WORDS by {
                        assert(ps[k] == pages(pointing@.take(i as int))[k]);
                    }
                }
                return Err(Refused::TooManyWords { words: n });
            }
        }
        i += 1;
    }
    assert(pointing@.take(pointing@.len() as int) =~= pointing@);
    Ok(())
}

proof fn lemma_pages_prefix(p: Seq<Pointing>, i: int)
    requires
        0 <= i < p.len(),
    ensures
        pages(p.take(i + 1)) == match p[i] {
            Pointing::Written(w) => pages(p.take(i)).push(w),
            _ => pages(p.take(i)),
        },
        pages(p.take(i)).len() <= pages(p).len(),
        pages(p) == pages(p.take(i)) + pages(p.skip(i)),
{
    assert(p.take(i + 1).drop_last() =~= p.take(i));
    lemma_pages_split(p, i);
}

proof fn lemma_pages_split(p: Seq<Pointing>, i: int)
    requires
        0 <= i <= p.len(),
    ensures
        pages(p) == pages(p.take(i)) + pages(p.skip(i)),
    decreases p.len() - i,
{
    if i < p.len() {
        lemma_pages_split(p, i + 1);
        assert(p.take(i + 1).drop_last() =~= p.take(i));
        lemma_pages_front(p.skip(i));
        assert(p.skip(i).drop_first() =~= p.skip(i + 1));
        assert(p.skip(i)[0] == p[i]);
    } else {
        assert(p.take(i) =~= p);
        assert(p.skip(i) =~= Seq::<Pointing>::empty());
    }
}

proof fn lemma_pages_front(p: Seq<Pointing>)
    requires
        p.len() > 0,
    ensures
        pages(p) == match p[0] {
            Pointing::Written(w) => seq![w] + pages(p.drop_first()),
            _ => pages(p.drop_first()),
        },
    decreases p.len(),
{
    if p.len() > 1 {
        lemma_pages_front(p.drop_last());
        assert(p.drop_last().drop_first() =~= p.drop_first().drop_last());
        assert(p.drop_first().last() == p.last());
    } else {
        assert(p.drop_last() =~= Seq::<Pointing>::empty());
        assert(p.drop_first() =~= Seq::<Pointing>::empty());
    }
}

/// `[point `, which opens a point in the narration.
pub open spec fn point_mark() -> Seq<char> {
    seq!['[', 'p', 'o', 'i', 'n', 't', ' ']
}

/// Every payload a `[point ...]` in `s` carries from `pos` on, block names and
/// all: split at commas and spaces, trimmed, and the empty ones dropped.
pub open spec fn blocks_from(s: Seq<char>, pos: int) -> Seq<Seq<char>>
    decreases s.len() - pos,
{
    if pos < 0 || pos > s.len() {
        Seq::empty()
    } else {
        match first_from(s, pos, point_mark()) {
            None => Seq::empty(),
            Some(at) => match first_from(s, at + 7, seq![']']) {
                None => Seq::empty(),
                Some(end) => {
                    proof {
                        crate::text::lemma_first_from_bounds(s, pos, point_mark());
                        crate::text::lemma_first_from_bounds(s, at + 7, seq![']']);
                    }
                    nonempty(trim_all(pieces(s.subrange(at + 7, end), Seps::CommaOrSpace))) + blocks_from(s, end + 1)
                },
            },
        }
    }
}

/// Every payload a `[point ...]` in `say` carries.
pub open spec fn blocks(say: Seq<char>) -> Seq<Seq<char>> {
    blocks_from(say, 0)
}

/// Every payload a `[point ...]` in `say` carries, block names and all.
fn blocks_of(say: &Vec<char>) -> (r: Vec<Vec<char>>)
    ensures
        views_of(r@) == blocks(say@),
{
    let mark = pattern(&['[', 'p', 'o', 'i', 'n', 't', ' ']);
    let close = pattern(&[']']);
    assert(mark@ =~= point_mark());
    assert(close@ =~= seq![']']);
    let mut out: Vec<Vec<char>> = Vec::new();
    let mut pos: usize = 0;
    loop
        invariant_except_break
            pos <= say@.len(),
            views_of(out@) + blocks_from(say@, pos as int) == blocks(say@),
        invariant
            mark@ == point_mark(),
            close@ == seq![']'],
        ensures
            views_of(out@) == blocks(say@),
        decreases say@.len() - pos,
    {
        match find_at(say, pos, &mark) {
            None => {
                assert(views_of(out@) =~= blocks(say@));
                break ;
            },
            Some(at) => {
                proof {
                    crate::text::lemma_first_from_bounds(say@, pos as int, point_mark());
                }
                assert(at + 7 <= say.len());
                match find_at(say, at + 7, &close) {
                    None => {
                        assert(views_of(out@) =~= blocks(say@));
                        break ;
                    },
                    Some(end) => {
                        proof {
                            crate::text::lemma_first_from_bounds(say@, at + 7, seq![']']);
                        }
                        assert(end < say.len());
                        let inside = slice_of(say, at + 7, end);
                        let parts = split_by(&inside, Seps::CommaOrSpace);
                        let kept = keep_nonempty(&parts, true);
                        let ghost before = views_of(out@);
                        let mut k: usize = 0;
                        while k < kept.len()
                            invariant
                                k <= kept@.len(),
                                views_of(out@) == before + views_of(kept@).take(k as int),
                            decreases kept@.len() - k,
                        {
                            let ghost prev = out@;
                            let piece = slice_of(&kept[k], 0, kept[k].len());
                            assert(piece@ =~= kept@[k as int]@);
                            out.push(piece);
                            proof {
                                assert(out@ == prev.push(piece));
                                assert(views_of(out@) =~= views_of(prev).push(piece@));
                                assert(views_of(kept@).take(k + 1) =~= views_of(kept@).take(k as int).push(kept@[k as int]@));
                                assert(views_of(out@) =~= before + views_of(kept@).take(k + 1));
                            }
                            k += 1;
                        }
                        proof {
                            assert(views_of(kept@).take(kept@.len() as int) =~= views_of(kept@));
                            assert(views_of(out@) + blocks_from(say@, end + 1) =~= blocks(say@));
                        }
                        pos = end + 1;
                    },
                }
            },
        }
    }
    out
}

/// `name="deck-points"`.
pub open spec fn points_attr() -> Seq<char> {
    seq!['n', 'a', 'm', 'e', '=', '"', 'd', 'e', 'c', 'k', '-', 'p', 'o', 'i', 'n', 't', 's', '"']
}

/// `content="`.
pub open spec fn content_attr() -> Seq<char> {
    seq!['c', 'o', 'n', 't', 'e', 'n', 't', '=', '"']
}

/// `id="`.
pub open spec fn id_attr() -> Seq<char> {
    seq!['i', 'd', '=', '"']
}

/// The names a page declares in its `deck-points` meta element.
pub open spec fn declared(h: Seq<char>) -> Seq<Seq<char>> {
    match first_from(h, 0, points_attr()) {
        None => Seq::empty(),
        Some(at) => match first_from(h, at, content_attr()) {
            None => Seq::empty(),
            Some(p) => match first_from(h, p + 9, seq!['"']) {
                None => Seq::empty(),
                Some(e) => words(h.subrange(p + 9, e)),
            },
        },
    }
}

/// Every `id="..."` value in `h` from `pos` on.
pub open spec fn ids_from(h: Seq<char>, pos: int) -> Seq<Seq<char>>
    decreases h.len() - pos,
{
    if pos < 0 || pos > h.len() {
        Seq::empty()
    } else {
        match first_from(h, pos, id_attr()) {
            None => Seq::empty(),
            Some(at) => match first_from(h, at + 4, seq!['"']) {
                None => Seq::empty(),
                Some(e) => {
                    proof {
                        crate::text::lemma_first_from_bounds(h, pos, id_attr());
                        crate::text::lemma_first_from_bounds(h, at + 4, seq!['"']);
                    }
                    seq![h.subrange(at + 4, e)] + ids_from(h, e + 1)
                },
            },
        }
    }
}

/// The names a page answers to: whatever it declares, then its ids.
pub open spec fn answered(h: Seq<char>) -> Seq<Seq<char>> {
    declared(h) + ids_from(h, 0)
}

/// The names a page answers to: its ids, and whatever it declares.
fn answered_by(html: &Vec<char>) -> (r: Vec<Vec<char>>)
    ensures
        views_of(r@) == answered(html@),
{
    let name = pattern(&['n', 'a', 'm', 'e', '=', '"', 'd', 'e', 'c', 'k', '-', 'p', 'o', 'i', 'n', 't', 's', '"']);
    let content = pattern(&['c', 'o', 'n', 't', 'e', 'n', 't', '=', '"']);
    let id = pattern(&['i', 'd', '=', '"']);
    let quote = pattern(&['"']);
    assert(name@ =~= points_attr());
    assert(content@ =~= content_attr());
    assert(id@ =~= id_attr());
    assert(quote@ =~= seq!['"']);
    let mut out: Vec<Vec<char>> = Vec::new();
    if let Some(at) = find_at(html, 0, &name) {
        proof {
            crate::text::lemma_first_from_bounds(html@, 0, points_attr());
        }
        if let Some(p) = find_at(html, at, &content) {
            proof {
                crate::text::lemma_first_from_bounds(html@, at as int, content_attr());
            }
            assert(p + 9 <= html.len());
            if let Some(e) = find_at(html, p + 9, &quote) {
                proof {
                    crate::text::lemma_first_from_bounds(html@, p + 9, seq!['"']);
                }
                let inside = slice_of(html, p + 9, e);
                out = crate::text::words_of(&inside);
            }
        }
    }
    assert(views_of(out@) == declared(html@));
    let ghost first = views_of(out@);
    let mut pos: usize = 0;
    loop
        invariant_except_break
            pos <= html@.len(),
            views_of(out@) + ids_from(html@, pos as int) == answered(html@),
        invariant
            id@ == id_attr(),
            quote@ == seq!['"'],
        ensures
            views_of(out@) == answered(html@),
        decreases html@.len() - pos,
    {
        match find_at(html, pos, &id) {
            None => {
                assert(views_of(out@) =~= answered(html@));
                break ;
            },
            Some(at) => {
                proof {
                    crate::text::lemma_first_from_bounds(html@, pos as int, id_attr());
                }
                assert(at + 4 <= html.len());
                match find_at(html, at + 4, &quote) {
                    None => {
                        assert(views_of(out@) =~= answered(html@));
                        break ;
                    },
                    Some(e) => {
                        proof {
                            crate::text::lemma_first_from_bounds(html@, at + 4, seq!['"']);
                        }
                        assert(e < html.len());
                        let ghost before = views_of(out@);
                        out.push(slice_of(html, at + 4, e));
                        proof {
                            assert(views_of(out@) =~= before.push(html@.subrange(at + 4, e as int)));
                            assert(views_of(out@) + ids_from(html@, e + 1) =~= answered(html@));
                        }
                        pos = e + 1;
                    },
                }
            },
        }
    }
    out
}

/// The note for prose with no points in it while code sits beside it.
pub open spec fn no_points() -> Seq<char> {
    "no points in the say, so nothing moves while it is read: write `[point 118-121]` on the lines each sentence is about"@
}

/// The note for a point that names nothing in the group.
pub open spec fn names_nothing(block: Seq<char>) -> Seq<char> {
    "`[point "@ + block + "]` names nothing in this group: no diagram has a block by that name, and no page declares it. A page says what it answers to with `<meta name=\"deck-points\" content=\"...\">`"@
}

/// The note for several panes none of which is named.
pub open spec fn no_names() -> Seq<char> {
    "no pane is named, so the prose cannot say which one it means: put `[a-name]` at the front of a ref's note and use it in the say"@
}

/// The note for a named pane the prose never mentions.
pub open spec fn never_mentioned(name: Seq<char>) -> Seq<char> {
    "the pane named ["@ + name + "] is never mentioned in the say, so the reader has no way to know which pane it is"@
}

/// The ids of every node of every picture, in order.
pub open spec fn node_ids(ds: Seq<Picture>) -> Seq<Seq<char>>
    decreases ds.len(),
{
    if ds.len() == 0 {
        Seq::empty()
    } else {
        node_ids(ds.drop_last()) + ds.last().diagram.nodes@.map_values(|n: crate::diagram::Node| n.id@)
    }
}

/// Every name every page answers to, in order.
pub open spec fn page_answers(ws: Seq<Written>) -> Seq<Seq<char>>
    decreases ws.len(),
{
    if ws.len() == 0 {
        Seq::empty()
    } else {
        page_answers(ws.drop_last()) + answered(ws.last().html@)
    }
}

/// Whether a point's payload is line numbers: every piece between hyphens
/// reads as a number.
pub open spec fn is_lines(block: Seq<char>) -> bool {
    forall|i: int|
        0 <= i < pieces(block, Seps::Hyphen).len() ==> #[trigger] crate::text::parse_u32(
            pieces(block, Seps::Hyphen)[i],
        ) is Some
}

/// The notes for points that name nothing among `answers`.
pub open spec fn unanswered(bs: Seq<Seq<char>>, answers: Seq<Seq<char>>) -> Seq<Seq<char>>
    decreases bs.len(),
{
    if bs.len() == 0 {
        Seq::empty()
    } else {
        let rest = unanswered(bs.drop_last(), answers);
        let b = bs.last();
        if is_lines(b) || answers.contains(b) {
            rest
        } else {
            rest.push(names_nothing(b))
        }
    }
}

/// The names of code panes that have one, in order.
pub open spec fn code_names(cs: Seq<Named>) -> Seq<Seq<char>>
    decreases cs.len(),
{
    if cs.len() == 0 {
        Seq::empty()
    } else {
        match cs.last().name {
            Some(n) => code_names(cs.drop_last()).push(n@),
            None => code_names(cs.drop_last()),
        }
    }
}

/// The names of pictures that have one, in order.
pub open spec fn picture_names(ds: Seq<Picture>) -> Seq<Seq<char>>
    decreases ds.len(),
{
    if ds.len() == 0 {
        Seq::empty()
    } else {
        match ds.last().name {
            Some(n) => picture_names(ds.drop_last()).push(n@),
            None => picture_names(ds.drop_last()),
        }
    }
}

/// `[name]`, as the prose writes a pane's name.
pub open spec fn bracketed(name: Seq<char>) -> Seq<char> {
    seq!['['] + name + seq![']']
}

/// The notes for named panes the prose never mentions.
pub open spec fn unmentioned(named: Seq<Seq<char>>, say: Seq<char>) -> Seq<Seq<char>>
    decreases named.len(),
{
    if named.len() == 0 {
        Seq::empty()
    } else {
        let rest = unmentioned(named.drop_last(), say);
        if occurs(say, bracketed(named.last())) {
            rest
        } else {
            rest.push(never_mentioned(named.last()))
        }
    }
}

/// What a group writes that will never light up, in the order it is said:
/// no points while code sits beside the prose; each point naming nothing in
/// the group; several panes with no name among them; each named pane the
/// prose never mentions. Nothing at all for a group with no panes.
pub open spec fn notes(say: Seq<char>, p: Seq<Pointing>) -> Seq<Seq<char>> {
    let code = codes(p);
    let drawn = pictures(p);
    let written = pages(p);
    if code.len() == 0 && drawn.len() == 0 && written.len() == 0 {
        Seq::empty()
    } else {
        let first = if !occurs(say, point_mark()) && code.len() > 0 {
            seq![no_points()]
        } else {
            Seq::empty()
        };
        let answers = node_ids(drawn) + page_answers(written);
        let named = code_names(code) + picture_names(drawn);
        let unnamed = if named.len() == 0 && code.len() + drawn.len() > 1 {
            seq![no_names()]
        } else {
            Seq::empty()
        };
        first + unanswered(blocks(say), answers) + unnamed + unmentioned(named, say)
    }
}

/// `a` followed by `b`.
fn concat(a: &Vec<Vec<char>>, b: &Vec<Vec<char>>) -> (r: Vec<Vec<char>>)
    ensures
        views_of(r@) == views_of(a@) + views_of(b@),
{
    let mut r: Vec<Vec<char>> = Vec::new();
    let mut i: usize = 0;
    while i < a.len()
        invariant
            i <= a@.len(),
            views_of(r@) == views_of(a@).take(i as int),
        decreases a@.len() - i,
    {
        let ghost prev = r@;
        let piece = slice_of(&a[i], 0, a[i].len());
        assert(piece@ =~= a@[i as int]@);
        r.push(piece);
        proof {
            assert(views_of(r@) =~= views_of(prev).push(piece@));
            assert(views_of(a@).take(i + 1) =~= views_of(a@).take(i as int).push(a@[i as int]@));
        }
        i += 1;
    }
    let mut j: usize = 0;
    assert(views_of(a@).take(a@.len() as int) =~= views_of(a@));
    while j < b.len()
        invariant
            j <= b@.len(),
            views_of(r@) == views_of(a@) + views_of(b@).take(j as int),
        decreases b@.len() - j,
    {
        let ghost prev = r@;
        let piece = slice_of(&b[j], 0, b[j].len());
        assert(piece@ =~= b@[j as int]@);
        r.push(piece);
        proof {
            assert(views_of(r@) =~= views_of(prev).push(piece@));
            assert(views_of(b@).take(j + 1) =~= views_of(b@).take(j as int).push(b@[j as int]@));
        }
        j += 1;
    }
    assert(views_of(b@).take(b@.len() as int) =~= views_of(b@));
    r
}

/// Whether `list` holds the text `b`.
fn holds(list: &Vec<Vec<char>>, b: &Vec<char>) -> (r: bool)
    ensures
        r == views_of(list@).contains(b@),
{
    let mut i: usize = 0;
    while i < list.len()
        invariant
            i <= list@.len(),
            forall|k: int| 0 <= k < i ==> list@[k]@ != b@,
        decreases list@.len() - i,
    {
        if crate::text::same(&list[i], b) {
            assert(views_of(list@)[i as int] == b@);
            return true;
        }
        i += 1;
    }
    proof {
        if views_of(list@).contains(b@) {
            let k = choose|k: int| 0 <= k < views_of(list@).len() && views_of(list@)[k] == b@;
            assert(list@[k]@ == b@);
        }
    }
    false
}

/// Whether a point's payload is line numbers.
fn lines_named(block: &Vec<char>) -> (r: bool)
    ensures
        r == is_lines(block@),
{
    let parts = split_by(block, Seps::Hyphen);
    let mut i: usize = 0;
    while i < parts.len()
        invariant
            i <= parts@.len(),
            views_of(parts@) == pieces(block@, Seps::Hyphen),
            forall|k: int| 0 <= k < i ==> #[trigger] crate::text::parse_u32(pieces(block@, Seps::Hyphen)[k]) is Some,
        decreases parts@.len() - i,
    {
        assert(views_of(parts@)[i as int] == parts@[i as int]@);
        if crate::text::parse_number(&parts[i]).is_none() {
            return false;
        }
        i += 1;
    }
    true
}

/// `head`, then `middle`, then `end`, as one string.
fn joined(head: &str, middle: &[char], end: &str) -> (s: String)
    ensures
        s@ == head@ + middle@ + end@,
{
    let mut v = chars_of(head);
    extend(&mut v, middle);
    let e = chars_of(end);
    extend(&mut v, &e);
    string_of(&v)
}

/// The ids of every node of every picture in `p`, in order.
fn gather_node_ids(p: &[Pointing]) -> (r: Vec<Vec<char>>)
    ensures
        views_of(r@) == node_ids(pictures(p@)),
{
    let mut out: Vec<Vec<char>> = Vec::new();
    let mut i: usize = 0;
    while i < p.len()
        invariant
            i <= p@.len(),
            views_of(out@) == node_ids(pictures(p@.take(i as int))),
        decreases p@.len() - i,
    {
        assert(p@.take(i + 1).drop_last() =~= p@.take(i as int));
        assert(p@.take(i + 1).last() == p@[i as int]);
        let ghost before_pics = pictures(p@.take(i as int));
        if let Pointing::Drawn(d) = &p[i] {
            let nodes = &d.diagram.nodes;
            let ghost before = views_of(out@);
            let ghost ids = nodes@.map_values(|n: crate::diagram::Node| n.id@);
            let mut k: usize = 0;
            while k < nodes.len()
                invariant
                    k <= nodes@.len(),
                    ids == nodes@.map_values(|n: crate::diagram::Node| n.id@),
                    views_of(out@) == before + ids.take(k as int),
                decreases nodes@.len() - k,
            {
                let ghost prev = out@;
                let id = chars_of(nodes[k].id.as_str());
                out.push(id);
                proof {
                    assert(views_of(out@) =~= views_of(prev).push(id@));
                    assert(ids.take(k + 1) =~= ids.take(k as int).push(ids[k as int]));
                }
                k += 1;
            }
            proof {
                assert(ids.take(nodes@.len() as int) =~= ids);
                assert(pictures(p@.take(i + 1)) == before_pics.push(*d));
                assert(before_pics.push(*d).drop_last() =~= before_pics);
                assert(before_pics.push(*d).last() == *d);
            }
        }
        i += 1;
    }
    assert(p@.take(p@.len() as int) =~= p@);
    out
}

/// Every name every page in `p` answers to, in order.
fn gather_page_answers(p: &[Pointing]) -> (r: Vec<Vec<char>>)
    ensures
        views_of(r@) == page_answers(pages(p@)),
{
    let mut out: Vec<Vec<char>> = Vec::new();
    let mut i: usize = 0;
    while i < p.len()
        invariant
            i <= p@.len(),
            views_of(out@) == page_answers(pages(p@.take(i as int))),
        decreases p@.len() - i,
    {
        assert(p@.take(i + 1).drop_last() =~= p@.take(i as int));
        assert(p@.take(i + 1).last() == p@[i as int]);
        let ghost before_pages = pages(p@.take(i as int));
        if let Pointing::Written(w) = &p[i] {
            let page = chars_of(w.html.as_str());
            let more = answered_by(&page);
            out = concat(&out, &more);
            proof {
                assert(pages(p@.take(i + 1)) == before_pages.push(*w));
                assert(before_pages.push(*w).drop_last() =~= before_pages);
                assert(before_pages.push(*w).last() == *w);
            }
        }
        i += 1;
    }
    assert(p@.take(p@.len() as int) =~= p@);
    out
}

/// The names of the code panes and then the pictures of `p`.
fn gather_pane_names(p: &[Pointing]) -> (r: Vec<Vec<char>>)
    ensures
        views_of(r@) == code_names(codes(p@)) + picture_names(pictures(p@)),
{
    let mut code_named: Vec<Vec<char>> = Vec::new();
    let mut pic_named: Vec<Vec<char>> = Vec::new();
    let mut i: usize = 0;
    while i < p.len()
        invariant
            i <= p@.len(),
            views_of(code_named@) == code_names(codes(p@.take(i as int))),
            views_of(pic_named@) == picture_names(pictures(p@.take(i as int))),
        decreases p@.len() - i,
    {
        assert(p@.take(i + 1).drop_last() =~= p@.take(i as int));
        assert(p@.take(i + 1).last() == p@[i as int]);
        let ghost cs0 = codes(p@.take(i as int));
        let ghost ds0 = pictures(p@.take(i as int));
        match &p[i] {
            Pointing::Code(n) => {
                proof {
                    assert(codes(p@.take(i + 1)) == cs0.push(*n));
                    assert(cs0.push(*n).drop_last() =~= cs0);
                    assert(cs0.push(*n).last() == *n);
                }
                if let Some(name) = &n.name {
                    let ghost prev = code_named@;
                    let v = chars_of(name.as_str());
                    code_named.push(v);
                    proof {
                        assert(views_of(code_named@) =~= views_of(prev).push(v@));
                    }
                }
            },
            Pointing::Drawn(d) => {
                proof {
                    assert(pictures(p@.take(i + 1)) == ds0.push(*d));
                    assert(ds0.push(*d).drop_last() =~= ds0);
                    assert(ds0.push(*d).last() == *d);
                }
                if let Some(name) = &d.name {
                    let ghost prev = pic_named@;
                    let v = chars_of(name.as_str());
                    pic_named.push(v);
                    proof {
                        assert(views_of(pic_named@) =~= views_of(prev).push(v@));
                    }
                }
            },
            Pointing::Written(_) => {},
        }
        i += 1;
    }
    assert(p@.take(p@.len() as int) =~= p@);
    concat(&code_named, &pic_named)
}

/// How many code refs, pictures and pages `p` holds.
fn counts(p: &[Pointing]) -> (r: (usize, usize, usize))
    ensures
        r.0 == codes(p@).len(),
        r.1 == pictures(p@).len(),
        r.2 == pages(p@).len(),
        r.0 + r.1 + r.2 <= p@.len(),
{
    let (mut c, mut d, mut w) = (0usize, 0usize, 0usize);
    let mut i: usize = 0;
    while i < p.len()
        invariant
            i <= p@.len(),
            c == codes(p@.take(i as int)).len(),
            d == pictures(p@.take(i as int)).len(),
            w == pages(p@.take(i as int)).len(),
            c + d + w <= i,
        decreases p@.len() - i,
    {
        assert(p@.take(i + 1).drop_last() =~= p@.take(i as int));
        match &p[i] {
            Pointing::Code(_) => c += 1,
            Pointing::Drawn(_) => d += 1,
            Pointing::Written(_) => w += 1,
        }
        i += 1;
    }
    assert(p@.take(p@.len() as int) =~= p@);
    (c, d, w)
}

/// The notes for points that name nothing among `answers`.
fn unanswered_notes(bs: &Vec<Vec<char>>, answers: &Vec<Vec<char>>) -> (r: Vec<String>)
    ensures
        views_of_strings(r@) == unanswered(views_of(bs@), views_of(answers@)),
{
    let mut out: Vec<String> = Vec::new();
    let mut k: usize = 0;
    while k < bs.len()
        invariant
            k <= bs@.len(),
            views_of_strings(out@) == unanswered(views_of(bs@).take(k as int), views_of(answers@)),
        decreases bs@.len() - k,
    {
        let b = &bs[k];
        assert(views_of(bs@).take(k + 1).drop_last() =~= views_of(bs@).take(k as int));
        assert(views_of(bs@).take(k + 1).last() == b@);
        if !(lines_named(b) || holds(answers, b)) {
            let ghost prev = out@;
            let note = joined("`[point ", b, "]` names nothing in this group: no diagram has a block by that name, and no page declares it. A page says what it answers to with `<meta name=\"deck-points\" content=\"...\">`");
            out.push(note);
            proof {
                assert(views_of_strings(out@) =~= views_of_strings(prev).push(names_nothing(b@)));
            }
        }
        k += 1;
    }
    assert(views_of(bs@).take(bs@.len() as int) =~= views_of(bs@));
    out
}

/// The notes for named panes the prose never mentions.
fn unmentioned_notes(named: &Vec<Vec<char>>, text: &Vec<char>) -> (r: Vec<String>)
    ensures
        views_of_strings(r@) == unmentioned(views_of(named@), text@),
{
    let mut out: Vec<String> = Vec::new();
    let mut n: usize = 0;
    while n < named.len()
        invariant
            n <= named@.len(),
            views_of_strings(out@) == unmentioned(views_of(named@).take(n as int), text@),
        decreases named@.len() - n,
    {
        let name = &named[n];
        assert(views_of(named@).take(n + 1).drop_last() =~= views_of(named@).take(n as int));
        assert(views_of(named@).take(n + 1).last() == name@);
        let mut wanted: Vec<char> = vec!['['];
        extend(&mut wanted, name);
        extend(&mut wanted, &[']']);
        assert(wanted@ =~= bracketed(name@));
        if !contains(text, &wanted) {
            let ghost prev = out@;
            let note = joined("the pane named [", name, "] is never mentioned in the say, so the reader has no way to know which pane it is");
            out.push(note);
            proof {
                assert(views_of_strings(out@) =~= views_of_strings(prev).push(never_mentioned(name@)));
            }
        }
        n += 1;
    }
    assert(views_of(named@).take(named@.len() as int) =~= views_of(named@));
    out
}

/// `a` followed by `b`.
fn append_notes(a: Vec<String>, b: Vec<String>) -> (r: Vec<String>)
    ensures
        views_of_strings(r@) == views_of_strings(a@) + views_of_strings(b@),
{
    let mut r = a;
    let ghost start = views_of_strings(r@);
    let mut j: usize = 0;
    while j < b.len()
        invariant
            j <= b@.len(),
            views_of_strings(r@) == start + views_of_strings(b@).take(j as int),
        decreases b@.len() - j,
    {
        let ghost prev = r@;
        r.push(b[j].clone());
        proof {
            assert(views_of_strings(r@) =~= views_of_strings(prev).push(b@[j as int]@));
            assert(views_of_strings(b@).take(j + 1) =~= views_of_strings(b@).take(j as int).push(b@[j as int]@));
        }
        j += 1;
    }
    assert(views_of_strings(b@).take(b@.len() as int) =~= views_of_strings(b@));
    r
}

/// What this group writes that will never light up.
///
/// Not a refusal: a group with no points is legal and sometimes right. But the
/// common failure is prose written as it would be in a chat, with panes beside
/// it that nothing in the words points at. Said on the way past, where whoever
/// wrote the group is still listening.
pub fn what_will_not_light(say: &str, pointing: &[Pointing]) -> (r: Vec<String>)
    ensures
        views_of_strings(r@) == notes(say@, pointing@),
{
    let text = chars_of(say);
    let (code_count, drawn_count, written_count) = counts(pointing);
    if code_count == 0 && drawn_count == 0 && written_count == 0 {
        let none: Vec<String> = Vec::new();
        assert(views_of_strings(none@) =~= notes(say@, pointing@));
        return none;
    }
    let nodes = gather_node_ids(pointing);
    let pages_said = gather_page_answers(pointing);
    let answers = concat(&nodes, &pages_said);
    let named = gather_pane_names(pointing);
    let mut first: Vec<String> = Vec::new();
    let mark = pattern(&['[', 'p', 'o', 'i', 'n', 't', ' ']);
    assert(mark@ =~= point_mark());
    if !contains(&text, &mark) && code_count > 0 {
        let v = chars_of("no points in the say, so nothing moves while it is read: write `[point 118-121]` on the lines each sentence is about");
        first.push(string_of(&v));
    }
    let bs = blocks_of(&text);
    let second = unanswered_notes(&bs, &answers);
    let mut third: Vec<String> = Vec::new();
    assert(code_count + drawn_count <= pointing.len());
    if named.len() == 0 && code_count + drawn_count > 1 {
        let v = chars_of("no pane is named, so the prose cannot say which one it means: put `[a-name]` at the front of a ref's note and use it in the say");
        third.push(string_of(&v));
    }
    let fourth = unmentioned_notes(&named, &text);
    let r = append_notes(append_notes(append_notes(first, second), third), fourth);
    proof {
        let ghost want = notes(say@, pointing@);
        assert(views_of_strings(r@) =~= want);
    }
    r
}

/// A group's id: `g` and its position.
pub open spec fn group_id(ord: u32) -> Seq<char> {
    seq!['g'] + decimal(ord as nat)
}

/// A ref's id: the group's, a letter for its kind, and its place from 1.
pub open spec fn ref_id(ord: u32, kind: char, nth: int) -> Seq<char> {
    group_id(ord) + seq![kind] + decimal(nth as nat)
}

/// Whether `r` is what `one` becomes as the `nth` ref of group `ord`: its
/// id minted, everything else carried over as it was.
pub open spec fn becomes(ord: u32, nth: int, one: Pointing, r: Ref) -> bool {
    match (one, r) {
        (Pointing::Code(n), Ref::Code(c)) => {
            &&& c.id@ == ref_id(ord, 'r', nth)
            &&& c.file == n.file
            &&& c.range == n.range
            &&& c.note == n.note
            &&& c.name == n.name
            &&& c.after == n.after
            &&& c.before == n.before
        },
        (Pointing::Written(w), Ref::Page(p)) => {
            &&& p.id@ == ref_id(ord, 'p', nth)
            &&& p.page == w.html
            &&& p.note == w.note
            &&& p.name == w.name
        },
        (Pointing::Drawn(d), Ref::Diagram(g)) => {
            &&& g.id@ == ref_id(ord, 'd', nth)
            &&& g.diagram == d.diagram
            &&& g.note == d.note
            &&& g.name == d.name
        },
        _ => false,
    }
}

/// `prefix` then `n` in decimal, as a string.
fn numbered(prefix: &[char], n: u64) -> (s: String)
    ensures
        s@ == prefix@ + decimal(n as nat),
{
    let mut v = slice_of(prefix, 0, prefix.len());
    assert(v@ =~= prefix@);
    let d = decimal_of(n);
    extend(&mut v, &d);
    string_of(&v)
}

/// What one pointing becomes as the `nth` ref of group `ord`.
fn mint_ref(ord: u32, nth: usize, one: Pointing) -> (r: Ref)
    ensures
        becomes(ord, nth as int, one, r),
{
    let mut head = vec!['g'];
    let o = decimal_of(ord as u64);
    extend(&mut head, &o);
    match one {
        Pointing::Code(n) => {
            head.push('r');
            assert(head@ =~= group_id(ord) + seq!['r']);
            let id = numbered(&head, nth as u64);
            Ref::Code(
                RefSpec {
                    id,
                    file: n.file,
                    range: n.range,
                    note: n.note,
                    name: n.name,
                    after: n.after,
                    before: n.before,
                },
            )
        },
        Pointing::Written(w) => {
            head.push('p');
            assert(head@ =~= group_id(ord) + seq!['p']);
            let id = numbered(&head, nth as u64);
            Ref::Page(PageRef { id, page: w.html, note: w.note, name: w.name })
        },
        Pointing::Drawn(d) => {
            head.push('d');
            assert(head@ =~= group_id(ord) + seq!['d']);
            let id = numbered(&head, nth as u64);
            Ref::Diagram(DiagramRef { id, diagram: d.diagram, note: d.note, name: d.name })
        },
    }
}

/// The group `say` and `pointing` make as the `ord`th of a deck.
///
/// Ids are minted here: a group is `g` and its position, and each ref is the
/// group's id, a letter for its kind — `r` for code, `d` for a diagram, `p`
/// for a page — and its place among the refs, from 1. Two panes in different
/// groups can then never answer to the same id in a review.
pub fn compose(ord: u32, say: &str, pointing: Vec<Pointing>) -> (g: Group)
    ensures
        g.id@ == group_id(ord),
        g.ord == Some(ord),
        g.say@ == say@,
        g.refs@.len() == pointing@.len(),
        forall|i: int| 0 <= i < pointing@.len() ==> becomes(ord, i + 1, pointing@[i], #[trigger] g.refs@[i]),
{
    let ghost all = pointing@;
    let mut rest = pointing;
    let mut refs: Vec<Ref> = Vec::new();
    while rest.len() > 0
        invariant
            rest@.len() + refs@.len() == all.len(),
            rest@ == all.take(rest@.len() as int),
            forall|k: int| 0 <= k < refs@.len() ==> becomes(ord, rest@.len() + k + 1, all[rest@.len() + k], #[trigger] refs@[k]),
        decreases rest@.len(),
    {
        let nth = rest.len();
        let one = rest.pop().unwrap();
        assert(one == all[nth - 1]);
        let r = mint_ref(ord, nth, one);
        let ghost prev = refs@;
        refs.insert(0, r);
        proof {
            assert(rest@ =~= all.take(rest@.len() as int));
            assert forall|k: int| 0 <= k < refs@.len() implies becomes(ord, rest@.len() + k + 1, all[rest@.len() + k], #[trigger] refs@[k]) by {
                if k > 0 {
                    assert(refs@[k] == prev[k - 1]);
                }
            }
        }
    }
    let mut id = vec!['g'];
    let o = decimal_of(ord as u64);
    extend(&mut id, &o);
    let id = string_of(&id);
    let say_text = chars_of(say);
    Group { id, ord: Some(ord), say: string_of(&say_text), refs }
}

/// The position a group file's name gives it: `g`, a number, and `.json`.
pub open spec fn ord_in(name: Seq<char>) -> Option<u32> {
    if name.len() >= 6 && name[0] == 'g' && name.subrange(name.len() - 5, name.len() as int) == seq![
        '.',
        'j',
        's',
        'o',
        'n',
    ] {
        crate::text::parse_u32(name.subrange(1, name.len() - 5))
    } else {
        None
    }
}

/// The highest position among `names`, or 0 when none is a group file.
pub open spec fn highest(names: Seq<Seq<char>>) -> u32
    decreases names.len(),
{
    if names.len() == 0 {
        0
    } else {
        let rest = highest(names.drop_last());
        match ord_in(names.last()) {
            Some(n) => if n > rest {
                n
            } else {
                rest
            },
            None => rest,
        }
    }
}

/// The position a file called `name` gives a group, if it is a group file.
pub fn ord_of(name: &str) -> (r: Option<u32>)
    ensures
        r == ord_in(name@),
{
    let v = chars_of(name);
    let n = v.len();
    if n >= 6 && v[0] == 'g' && is_at(&v, n - 5, &['.', 'j', 's', 'o', 'n']) {
        let digits = slice_of(&v, 1, n - 5);
        assert(['.', 'j', 's', 'o', 'n']@ =~= seq!['.', 'j', 's', 'o', 'n']);
        crate::text::parse_number(&digits)
    } else {
        proof {
            if n >= 6 && v@[0] == 'g' {
                assert(['.', 'j', 's', 'o', 'n']@ =~= seq!['.', 'j', 's', 'o', 'n']);
            }
        }
        None
    }
}

/// The next group's position, from the names of the files already written:
/// one past the highest `g<n>.json`, or 1 in a deck with none.
pub fn next_ord(names: &[String]) -> (r: u32)
    requires
        highest(views_of_strings(names@)) < u32::MAX,
    ensures
        r == highest(views_of_strings(names@)) + 1,
{
    let mut taken: u32 = 0;
    let mut i: usize = 0;
    while i < names.len()
        invariant
            i <= names@.len(),
            taken == highest(views_of_strings(names@).take(i as int)),
        decreases names@.len() - i,
    {
        assert(views_of_strings(names@).take(i + 1).drop_last() =~= views_of_strings(names@).take(i as int));
        assert(views_of_strings(names@).take(i + 1).last() == names@[i as int]@);
        if let Some(n) = ord_of(names[i].as_str()) {
            if n > taken {
                taken = n;
            }
        }
        i += 1;
    }
    assert(views_of_strings(names@).take(names@.len() as int) =~= views_of_strings(names@));
    taken + 1
}

/// `n` in four digits, with leading zeros.
pub open spec fn four_digits(n: nat) -> Seq<char> {
    seq![digit_char(n / 1000 % 10), digit_char(n / 100 % 10), digit_char(n / 10 % 10), digit_char(n % 10)]
}

/// A deck id: `d-`, the second it was made, and four digits that tell two
/// made in the same second apart.
pub open spec fn deck_id_text(now_secs: u64, micros: u32, salt: u32) -> Seq<char> {
    seq!['d', '-'] + decimal(now_secs as nat) + seq!['-'] + four_digits(
        ((micros % 10_000) + salt) as nat % 10_000,
    )
}

/// A deck id: the second it was made, and enough after it to tell two apart.
///
/// `salt` separates ids minted inside the same instant, which is what
/// happens when two commands run together; the low digits of the clock alone
/// are the same for both. `micros` is the sub-second part of the clock, in
/// microseconds.
pub fn deck_id(now_secs: u64, micros: u32, salt: u32) -> (s: String)
    requires
        micros % 10_000 + salt <= u32::MAX,
    ensures
        s@ == deck_id_text(now_secs, micros, salt),
{
    let tick = micros % 10_000;
    let v = (tick + salt) % 10_000;
    let mut out = vec!['d', '-'];
    let secs = decimal_of(now_secs);
    extend(&mut out, &secs);
    out.push('-');
    out.push(digit((v / 1000 % 10) as u8));
    out.push(digit((v / 100 % 10) as u8));
    out.push(digit((v / 10 % 10) as u8));
    out.push(digit((v % 10) as u8));
    assert(out@ =~= deck_id_text(now_secs, micros, salt));
    string_of(&out)
}

/// Whether a file of `source` has every line `range` names.
pub fn fits_in(range: LineRange, source: &str) -> (r: bool)
    ensures
        r == (range.last <= crate::text::lines(source@).len()),
{
    let v = chars_of(source);
    let ls = crate::text::split_lines(&v);
    assert(views_of(ls@).len() == ls@.len());
    (range.last as usize) <= ls.len()
}

/// Where the last `/` of `p` is.
pub open spec fn last_slash(p: Seq<char>) -> Option<int> {
    crate::refs::last_at(p, '/')
}

/// A path's last component.
pub open spec fn file_name(p: Seq<char>) -> Seq<char> {
    match last_slash(p) {
        Some(k) => p.skip(k + 1),
        None => p,
    }
}

/// A file name without its extension: up to its last `.`, unless that `.`
/// is where the name starts.
pub open spec fn stem(name: Seq<char>) -> Seq<char> {
    match crate::refs::last_at(name, '.') {
        Some(k) => if k > 0 {
            name.take(k)
        } else {
            name
        },
        None => name,
    }
}

/// `p` without what a path can end in that names nothing: separators at the
/// end, and a `.` component at the end. A lone `/` stays.
pub open spec fn settled(p: Seq<char>) -> Seq<char>
    decreases p.len(),
{
    if p.len() > 1 && p.last() == '/' {
        settled(p.drop_last())
    } else if p.len() > 1 && p.last() == '.' && p[p.len() - 2] == '/' {
        settled(p.drop_last())
    } else {
        p
    }
}

/// Whether a path's last component is a name: not empty, `.` or `..`.
pub open spec fn is_name(name: Seq<char>) -> bool {
    name.len() > 0 && name != seq!['.'] && name != seq!['.', '.']
}

/// Where the review for the deck at `root` appears: beside the deck, named
/// for the deck's stem and ending `.review`. A root that ends in no name —
/// the file system's root, `.`, `..` — has the review inside it, named
/// `deck.review`.
pub open spec fn review_path_of(root: Seq<char>) -> Seq<char> {
    let s = settled(root);
    let name = file_name(s);
    if is_name(name) {
        let parent = match last_slash(s) {
            Some(k) => settled(s.take(k + 1)),
            None => Seq::empty(),
        };
        crate::home::joined(parent, stem(name) + ".review"@)
    } else {
        crate::home::joined(root, "deck.review"@)
    }
}

/// `v` settled, as [`settled`] says.
fn settle_path(v: &Vec<char>) -> (r: Vec<char>)
    ensures
        r@ == settled(v@),
{
    let mut n = v.len();
    assert(v@.take(n as int) =~= v@);
    while n > 1 && (v[n - 1] == '/' || (v[n - 1] == '.' && v[n - 2] == '/'))
        invariant
            n <= v@.len(),
            settled(v@) == settled(v@.take(n as int)),
        decreases n,
    {
        assert(v@.take(n as int).drop_last() =~= v@.take(n - 1));
        n -= 1;
    }
    let r = slice_of(v, 0, n);
    assert(r@ =~= v@.take(n as int));
    r
}

/// Where the review for the deck at `root` will appear: beside the deck, not
/// inside it, named for the deck.
pub fn review_path(root: &str) -> (p: String)
    ensures
        p@ == review_path_of(root@),
{
    let all = chars_of(root);
    let v = settle_path(&all);
    let start = match crate::refs::rfind(&v, '/') {
        Some(k) => {
            assert(k < v.len());
            k + 1
        },
        None => 0,
    };
    let name = slice_of(&v, start, v.len());
    assert(name@ =~= file_name(v@));
    let named = name.len() > 0 && !crate::text::same(&name, &['.']) && !crate::text::same(
        &name,
        &['.', '.'],
    );
    assert(['.']@ =~= seq!['.']);
    assert(['.', '.']@ =~= seq!['.', '.']);
    if !named {
        return crate::home::join(root, "deck.review");
    }
    let parent = if start > 0 {
        let head = slice_of(&v, 0, start);
        assert(head@ =~= v@.take(start as int));
        settle_path(&head)
    } else {
        Vec::new()
    };
    let stem_end = match crate::refs::rfind(&name, '.') {
        Some(k) => if k > 0 {
            k
        } else {
            name.len()
        },
        None => name.len(),
    };
    let mut leaf = slice_of(&name, 0, stem_end);
    assert(leaf@ =~= stem(name@));
    let suffix = chars_of(".review");
    extend(&mut leaf, &suffix);
    let p = string_of(&parent);
    let l = string_of(&leaf);
    crate::home::join(p.as_str(), l.as_str())
}

proof fn lemma_decimal_digits(n: nat)
    ensures
        decimal(n).len() >= 1,
        forall|i: int| 0 <= i < decimal(n).len() ==> crate::text::is_digit(#[trigger] decimal(n)[i]),
        crate::text::digits_value(decimal(n)) == n,
    decreases n,
{
    if n < 10 {
        assert(digit_char(n) as nat == '0' as nat + n);
        assert(decimal(n).drop_last() =~= Seq::<char>::empty());
        assert(decimal(n).last() == digit_char(n));
        assert(crate::text::digits_value(decimal(n)) == crate::text::digits_value(
            decimal(n).drop_last(),
        ) * 10 + ((decimal(n).last() as nat) - ('0' as nat)) as nat);
    } else {
        lemma_decimal_digits(n / 10);
        let d = decimal(n / 10);
        assert(decimal(n) == d.push(digit_char(n % 10)));
        assert(decimal(n).drop_last() =~= d);
        assert(digit_char(n % 10) as nat == '0' as nat + n % 10);
        assert((n / 10) * 10 + n % 10 == n) by (nonlinear_arith);
        assert(decimal(n).last() == digit_char(n % 10));
        assert(crate::text::digits_value(decimal(n)) == crate::text::digits_value(d) * 10 + ((
        decimal(n).last() as nat) - ('0' as nat)) as nat);
        assert forall|i: int| 0 <= i < decimal(n).len() implies crate::text::is_digit(
            #[trigger] decimal(n)[i],
        ) by {
            if i < d.len() {
                assert(decimal(n)[i] == d[i]);
            }
        }
    }
}

/// Whether `k` is one of the letters a ref's kind is written with.
pub open spec fn kind_letter(k: char) -> bool {
    k == 'r' || k == 'd' || k == 'p'
}

/// A ref's id names one ref in the whole deck: two refs share an id only if
/// they are the same place of the same kind in the same group. So a comment
/// that names a ref can never be read as being about another one.
pub proof fn lemma_ref_ids_are_unique(ord1: u32, k1: char, nth1: nat, ord2: u32, k2: char, nth2: nat)
    requires
        kind_letter(k1),
        kind_letter(k2),
        ref_id(ord1, k1, nth1 as int) == ref_id(ord2, k2, nth2 as int),
    ensures
        ord1 == ord2,
        k1 == k2,
        nth1 == nth2,
{
    let d1 = decimal(ord1 as nat);
    let d2 = decimal(ord2 as nat);
    let e1 = decimal(nth1);
    let e2 = decimal(nth2);
    lemma_decimal_digits(ord1 as nat);
    lemma_decimal_digits(ord2 as nat);
    lemma_decimal_digits(nth1);
    lemma_decimal_digits(nth2);
    let s = ref_id(ord1, k1, nth1 as int);
    assert(s == seq!['g'] + d1 + seq![k1] + e1);
    assert(s == seq!['g'] + d2 + seq![k2] + e2);
    assert(s[1 + d1.len() as int] == k1);
    assert(s[1 + d2.len() as int] == k2);
    if d1.len() < d2.len() {
        assert(s[1 + d1.len() as int] == d2[d1.len() as int]);
        assert(crate::text::is_digit(d2[d1.len() as int]));
    } else if d2.len() < d1.len() {
        assert(s[1 + d2.len() as int] == d1[d2.len() as int]);
        assert(crate::text::is_digit(d1[d2.len() as int]));
    }
    assert(d1.len() == d2.len());
    assert(d1 =~= s.subrange(1, 1 + d1.len() as int));
    assert(d2 =~= s.subrange(1, 1 + d2.len() as int));
    assert(e1 =~= s.skip(2 + d1.len() as int));
    assert(e2 =~= s.skip(2 + d2.len() as int));
}

proof fn lemma_digit_chars_differ(a: nat, b: nat)
    requires
        a < 10,
        b < 10,
        a != b,
    ensures
        digit_char(a) != digit_char(b),
{
    assert(digit_char(a) as nat == '0' as nat + a);
    assert(digit_char(b) as nat == '0' as nat + b);
}

/// Two decks made in the same instant with different salts get different
/// ids: the four digits after the second are the clock's plus the salt,
/// modulo ten thousand, so no two salts under ten thousand give one id.
pub proof fn lemma_two_salts_two_ids(now_secs: u64, micros: u32, a: u32, b: u32)
    requires
        a < 10_000,
        b < 10_000,
        a != b,
    ensures
        deck_id_text(now_secs, micros, a) != deck_id_text(now_secs, micros, b),
{
    let t = (micros % 10_000) as int;
    let va = ((t + a) % 10_000) as nat;
    let vb = ((t + b) % 10_000) as nat;
    assert(va != vb) by (nonlinear_arith)
        requires
            0 <= t < 10_000,
            a < 10_000,
            b < 10_000,
            a != b,
            va == (t + a) % 10_000,
            vb == (t + b) % 10_000,
    ;
    let head = seq!['d', '-'] + decimal(now_secs as nat) + seq!['-'];
    let ta = deck_id_text(now_secs, micros, a);
    let tb = deck_id_text(now_secs, micros, b);
    assert(ta == head + four_digits(va));
    assert(tb == head + four_digits(vb));
    if ta == tb {
        assert(four_digits(va) =~= ta.skip(head.len() as int));
        assert(four_digits(vb) =~= tb.skip(head.len() as int));
        assert(four_digits(va)[0] == four_digits(vb)[0]);
        assert(four_digits(va)[1] == four_digits(vb)[1]);
        assert(four_digits(va)[2] == four_digits(vb)[2]);
        assert(four_digits(va)[3] == four_digits(vb)[3]);
        if va / 1000 % 10 != vb / 1000 % 10 {
            lemma_digit_chars_differ(va / 1000 % 10, vb / 1000 % 10);
        }
        if va / 100 % 10 != vb / 100 % 10 {
            lemma_digit_chars_differ(va / 100 % 10, vb / 100 % 10);
        }
        if va / 10 % 10 != vb / 10 % 10 {
            lemma_digit_chars_differ(va / 10 % 10, vb / 10 % 10);
        }
        if va % 10 != vb % 10 {
            lemma_digit_chars_differ(va % 10, vb % 10);
        }
        assert(va == vb) by (nonlinear_arith)
            requires
                va < 10_000,
                vb < 10_000,
                va / 1000 % 10 == vb / 1000 % 10,
                va / 100 % 10 == vb / 100 % 10,
                va / 10 % 10 == vb / 10 % 10,
                va % 10 == vb % 10,
        ;
    }
}

} // verus!
