//! Following a pinned line while the file moves under it.
//!
//! Deck has two versions of a file: the snapshot taken when the deck opened,
//! and whatever is on disk now. From those two it works out where each pinned
//! line went, with one of three answers in descending order of confidence:
//! the diff knows ([`Source::Diff`]); the neighbourhood knows
//! ([`Source::Fingerprint`]); nobody knows ([`Source::Stale`]). Never a silent
//! guess: the answer always travels with how it was reached.
//!
//! The line diff itself is the `similar` crate's. What it reports is taken as
//! given; everything done with it is stated and proved here.

use vstd::prelude::*;

use crate::line::{spec_max, spec_min, LineRange};
use crate::protocol::Source;
use crate::text::{chars_of, lines, same, split_lines, trim, trimmed, views_of};

verus! {

/// Where a pinned range ended up, and how much to trust the answer.
#[derive(Debug, Clone, Copy, PartialEq, Eq)]
pub struct Relocated {
    /// The range in the current text.
    pub range: LineRange,
    /// How the range was arrived at.
    pub source: Source,
}

/// What a line diff of `snapshot` against `current` reports: for each change
/// in order, the line's index in the snapshot and in the current text, each
/// present when the line is on that side.
pub uninterp spec fn line_changes(snapshot: Seq<char>, current: Seq<char>) -> Seq<(Option<usize>, Option<usize>)>;

/// Whether every carriage return in `s` that has a character after it is
/// followed by a line feed: then a line diff and `str::lines` split `s` into
/// the same number of lines.
pub open spec fn no_lone_cr(s: Seq<char>) -> bool {
    forall|i: int| 0 <= i < s.len() - 1 && #[trigger] s[i] == '\r' ==> s[i + 1] == '\n'
}

/// The changes `similar` finds between the lines of two texts
/// (`TextDiff::from_lines`, then `iter_all_changes`), each as its old and new
/// index: what the diff gives for these two texts. Of identical texts it
/// claims what the diff's common-prefix step gives: every line unchanged and
/// in place, at least as many as `str::lines` counts (the diff's lines split
/// at a lone carriage return too, never fewer). A new index counts one of the
/// diff's lines of `current`; where `current` has no lone carriage return in
/// it, those are the lines `str::lines` finds, so each new index is below
/// their number. Nothing else is claimed.
#[verifier::external_body]
fn diff_changes(snapshot: &str, current: &str) -> (r: Vec<(Option<usize>, Option<usize>)>)
    ensures
        r@ == line_changes(snapshot@, current@),
        no_lone_cr(current@) ==> forall|i: int|
            0 <= i < r@.len() ==> ((#[trigger] r@[i]).1 matches Some(j) ==> j < lines(current@).len()),
        snapshot@ == current@ ==> r@.len() >= lines(snapshot@).len(),
        snapshot@ == current@ ==> forall|i: int|
            0 <= i < r@.len() ==> #[trigger] r@[i] == (Some(i as usize), Some(i as usize)),
{
    similar::TextDiff::from_lines(snapshot, current).iter_all_changes().map(
        |change| (change.old_index(), change.new_index()),
    ).collect()
}

/// Where each of `n` snapshot lines ended up: the new index of the last
/// change that carries both indices for it. Insertions and deletions carry
/// one index only, so only lines that survived unchanged are followed.
pub open spec fn moved_map(changes: Seq<(Option<usize>, Option<usize>)>, n: nat) -> Seq<Option<usize>>
    decreases changes.len(),
{
    if changes.len() == 0 {
        Seq::new(n, |i: int| None)
    } else {
        let map = moved_map(changes.drop_last(), n);
        match changes.last() {
            (Some(before), Some(after)) => if before < n {
                map.update(before as int, Some(after))
            } else {
                map
            },
            _ => map,
        }
    }
}

/// The surviving new indices of the snapshot lines `lo..hi`, in order.
pub open spec fn landed(moved: Seq<Option<usize>>, lo: int, hi: int) -> Seq<usize>
    decreases hi - lo,
{
    if hi <= lo {
        Seq::empty()
    } else {
        let rest = landed(moved, lo, hi - 1);
        if 0 <= hi - 1 < moved.len() && moved[hi - 1] is Some {
            rest.push(moved[hi - 1]->0)
        } else {
            rest
        }
    }
}

/// A count saturated into a line number.
pub open spec fn clamped(n: int) -> u32 {
    if n > u32::MAX {
        u32::MAX
    } else {
        n as u32
    }
}

/// A line, remembered by its own text and its two neighbours, all trimmed.
pub struct Fingerprint {
    /// The line's own text.
    pub line: Vec<char>,
    /// The line before it, or nothing.
    pub before: Vec<char>,
    /// The line after it, or nothing.
    pub after: Vec<char>,
}

/// The trimmed text of line `ix`, or nothing past the ends.
pub open spec fn trimmed_at(lines: Seq<Seq<char>>, ix: int) -> Seq<char> {
    if 0 <= ix < lines.len() {
        trim(lines[ix])
    } else {
        Seq::empty()
    }
}

/// The fingerprint of line `ix`: its trimmed text and its neighbours'. None
/// when there is no such line, or it is blank, since a blank line matches
/// every other one and identifies nothing.
pub open spec fn print_of(lines: Seq<Seq<char>>, ix: int) -> Option<(Seq<char>, Seq<char>, Seq<char>)> {
    if 0 <= ix < lines.len() && trim(lines[ix]).len() > 0 {
        Some((trim(lines[ix]), trimmed_at(lines, ix - 1), trimmed_at(lines, ix + 1)))
    } else {
        None
    }
}

/// How well line `ix` of `lines` matches a fingerprint: two points for each
/// neighbour that agrees, when the fingerprint has one.
pub open spec fn score(print: (Seq<char>, Seq<char>, Seq<char>), lines: Seq<Seq<char>>, ix: int) -> int {
    (if print.1.len() > 0 && ix >= 1 && trim(lines[ix - 1]) == print.1 {
        2int
    } else {
        0int
    }) + (if print.2.len() > 0 && ix + 1 < lines.len() && trim(lines[ix + 1]) == print.2 {
        2int
    } else {
        0int
    })
}

/// How far line `ix` is from where the pinned line used to be.
pub open spec fn drift(ix: int, came_from: int) -> int {
    if ix >= came_from {
        ix - came_from
    } else {
        came_from - ix
    }
}

/// Whether line `ix` has the fingerprint's text.
pub open spec fn candidate(print: (Seq<char>, Seq<char>, Seq<char>), lines: Seq<Seq<char>>, ix: int) -> bool {
    0 <= ix < lines.len() && trim(lines[ix]) == print.0
}

/// Whether candidate `i` beats candidate `j`: a higher score, or the same
/// score nearer where the line came from, or both equal and earlier.
pub open spec fn beats(
    print: (Seq<char>, Seq<char>, Seq<char>),
    lines: Seq<Seq<char>>,
    came_from: int,
    i: int,
    j: int,
) -> bool {
    ||| score(print, lines, i) > score(print, lines, j)
    ||| score(print, lines, i) == score(print, lines, j) && drift(i, came_from) < drift(j, came_from)
    ||| score(print, lines, i) == score(print, lines, j) && drift(i, came_from) == drift(j, came_from)
        && i <= j
}

/// Whether `found` is the best candidate for the fingerprint: the one that
/// beats every other, or none when no line has its text.
pub open spec fn best_match(
    print: (Seq<char>, Seq<char>, Seq<char>),
    lines: Seq<Seq<char>>,
    came_from: int,
    found: Option<usize>,
) -> bool {
    match found {
        Some(ix) => candidate(print, lines, ix as int) && forall|j: int|
            #[trigger] candidate(print, lines, j) ==> beats(print, lines, came_from, ix as int, j),
        None => forall|j: int| !#[trigger] candidate(print, lines, j),
    }
}

/// Where one pin lands, through the three answers; `None` where the answer
/// would not fit in a line number.
pub open spec fn followed(
    pin: LineRange,
    was: Seq<Seq<char>>,
    now: Seq<Seq<char>>,
    moved: Seq<Option<usize>>,
    found: Option<usize>,
) -> Option<Relocated> {
    let count = clamped(now.len() as int);
    let hits = landed(moved, pin.first - 1, pin.last as int);
    if hits.len() > 0 {
        let (first, last) = (clamped(hits[0] as int), clamped(hits.last() as int));
        if first == u32::MAX || last == u32::MAX {
            None
        } else {
            Some(Relocated { range: LineRange::spec_new((first + 1) as u32, (last + 1) as u32), source: Source::Diff })
        }
    } else if print_of(was, pin.first - 1) is Some && found is Some {
        let start = clamped(found->0 as int);
        let len = pin.last - pin.first + 1;
        if start == u32::MAX || start + 1 + len > u32::MAX {
            None
        } else {
            let r = LineRange::spec_new((start + 1) as u32, (start + len) as u32);
            Some(
                Relocated {
                    range: LineRange::spec_new(
                        spec_min(r.first, spec_max(count, 1)),
                        spec_min(r.last, spec_max(count, 1)),
                    ),
                    source: Source::Fingerprint,
                },
            )
        }
    } else {
        Some(
            Relocated {
                range: LineRange::spec_new(
                    spec_min(pin.first, spec_max(count, 1)),
                    spec_min(pin.last, spec_max(count, 1)),
                ),
                source: Source::Stale,
            },
        )
    }
}

/// The best match a pin's fingerprint has in `now`, when it has one.
pub open spec fn match_for(pin: LineRange, was: Seq<Seq<char>>, now: Seq<Seq<char>>) -> Option<usize> {
    let ix = pin.first - 1;
    match print_of(was, ix) {
        Some(print) => choose_best(print, now, ix),
        None => None,
    }
}

/// The best candidate for `print` in `lines`, by [`beats`].
pub open spec fn choose_best(print: (Seq<char>, Seq<char>, Seq<char>), lines: Seq<Seq<char>>, came_from: int) -> Option<usize> {
    if exists|ix: usize| best_match(print, lines, came_from, Some(ix)) {
        Some(choose|ix: usize| best_match(print, lines, came_from, Some(ix)))
    } else {
        None
    }
}


/// Where each of the first `n` lines of the snapshot ended up, by 0-based
/// index, according to `changes`.
///
/// `None` means the line did not survive: it was deleted, or edited into
/// something the diff no longer considers the same line.
fn moved_lines(changes: &[(Option<usize>, Option<usize>)], n: usize) -> (r: Vec<Option<usize>>)
    ensures
        r@ == moved_map(changes@, n as nat),
{
    let mut map: Vec<Option<usize>> = Vec::new();
    let mut i: usize = 0;
    while i < n
        invariant
            i <= n,
            map@ == Seq::new(i as nat, |k: int| None::<usize>),
        decreases n - i,
    {
        map.push(None);
        i += 1;
    }
    assert(map@ =~= moved_map(changes@.take(0), n as nat));
    let mut c: usize = 0;
    while c < changes.len()
        invariant
            c <= changes@.len(),
            map@ == moved_map(changes@.take(c as int), n as nat),
            map@.len() == n,
        decreases changes@.len() - c,
    {
        assert(changes@.take(c + 1).drop_last() =~= changes@.take(c as int));
        match changes[c] {
            (Some(before), Some(after)) => {
                if before < map.len() {
                    map.set(before, Some(after));
                }
            },
            _ => {},
        }
        c += 1;
    }
    assert(changes@.take(changes@.len() as int) =~= changes@);
    map
}

/// The trimmed text of line `ix`, or nothing past the end.
fn trimmed_line(lines: &Vec<Vec<char>>, ix: usize) -> (t: Vec<char>)
    ensures
        t@ == trimmed_at(views_of(lines@), ix as int),
{
    if ix < lines.len() {
        trimmed(&lines[ix])
    } else {
        Vec::new()
    }
}

proof fn lemma_beats_one_way(
    print: (Seq<char>, Seq<char>, Seq<char>),
    lines: Seq<Seq<char>>,
    came_from: int,
    i: int,
    j: int,
)
    ensures
        beats(print, lines, came_from, i, j) || beats(print, lines, came_from, j, i),
        beats(print, lines, came_from, i, j) && beats(print, lines, came_from, j, i) ==> i == j,
{
}

/// The best match is the only one.
proof fn lemma_best_is_chosen(
    print: (Seq<char>, Seq<char>, Seq<char>),
    lines: Seq<Seq<char>>,
    came_from: int,
    found: Option<usize>,
)
    requires
        best_match(print, lines, came_from, found),
    ensures
        choose_best(print, lines, came_from) == found,
{
    match found {
        Some(ix) => {
            assert(exists|k: usize| best_match(print, lines, came_from, Some(k)));
            let k = choose|k: usize| best_match(print, lines, came_from, Some(k));
            lemma_beats_one_way(print, lines, came_from, ix as int, k as int);
        },
        None => {
            if exists|k: usize| best_match(print, lines, came_from, Some(k)) {
                let k = choose|k: usize| best_match(print, lines, came_from, Some(k));
                assert(candidate(print, lines, k as int));
            }
        },
    }
}

impl Fingerprint {
    /// What this fingerprint remembers, as text.
    pub open spec fn spec_view(&self) -> (Seq<char>, Seq<char>, Seq<char>) {
        (self.line@, self.before@, self.after@)
    }

    /// Take the fingerprint of line `ix`, or `None` when there is no such
    /// line or it is blank.
    pub fn of(lines: &Vec<Vec<char>>, ix: usize) -> (r: Option<Self>)
        ensures
            match r {
                Some(p) => print_of(views_of(lines@), ix as int) == Some(p.spec_view()),
                None => print_of(views_of(lines@), ix as int) is None,
            },
    {
        if ix >= lines.len() {
            return None;
        }
        let line = trimmed(&lines[ix]);
        if line.len() == 0 {
            return None;
        }
        let before = if ix >= 1 {
            trimmed_line(lines, ix - 1)
        } else {
            Vec::new()
        };
        let after = if ix < usize::MAX {
            trimmed_line(lines, ix + 1)
        } else {
            Vec::new()
        };
        assert(before@ == trimmed_at(views_of(lines@), ix - 1));
        Some(Fingerprint { line, before, after })
    }

    /// The best candidate for this line in `lines`, or `None` when its text
    /// appears nowhere.
    ///
    /// Every line with matching text is a candidate. A matching neighbour is
    /// worth two points. Equal scores are broken by staying near where the
    /// line used to be, and then by coming first.
    pub fn best_match(&self, lines: &Vec<Vec<char>>, came_from: usize) -> (r: Option<usize>)
        ensures
            best_match(self.spec_view(), views_of(lines@), came_from as int, r),
    {
        let ghost print = self.spec_view();
        let ghost ls = views_of(lines@);
        let mut best: Option<(usize, u32, usize)> = None;
        let mut ix: usize = 0;
        while ix < lines.len()
            invariant
                ix <= lines@.len(),
                ls == views_of(lines@),
                ls.len() == lines@.len(),
                print == self.spec_view(),
                match best {
                    Some((b, sc, dr)) => b < ix && candidate(print, ls, b as int) && sc == score(
                        print,
                        ls,
                        b as int,
                    ) && dr == drift(b as int, came_from as int) && forall|j: int|
                        0 <= j < ix && #[trigger] candidate(print, ls, j) ==> beats(
                            print,
                            ls,
                            came_from as int,
                            b as int,
                            j,
                        ),
                    None => forall|j: int| 0 <= j < ix ==> !#[trigger] candidate(print, ls, j),
                },
            decreases lines@.len() - ix,
        {
            let t = trimmed(&lines[ix]);
            if same(&t, &self.line) {
                let mut sc: u32 = 0;
                if self.before.len() > 0 && ix >= 1 {
                    let b = trimmed(&lines[ix - 1]);
                    if same(&b, &self.before) {
                        sc += 2;
                    }
                }
                if self.after.len() > 0 && ix + 1 < lines.len() {
                    let a = trimmed(&lines[ix + 1]);
                    if same(&a, &self.after) {
                        sc += 2;
                    }
                }
                let dr = if ix >= came_from {
                    ix - came_from
                } else {
                    came_from - ix
                };
                assert(sc == score(print, ls, ix as int));
                let better = match best {
                    None => true,
                    Some((_, best_score, best_drift)) => sc > best_score || (sc == best_score && dr
                        < best_drift),
                };
                if better {
                    best = Some((ix, sc, dr));
                }
            }
            ix += 1;
        }
        match best {
            Some((b, _, _)) => Some(b),
            None => None,
        }
    }
}

/// A count as a line number, saturating: a file with more than four billion
/// lines is not a file anyone is reviewing.
fn clamp_u32(n: usize) -> (r: u32)
    ensures
        r == clamped(n as int),
{
    if n > u32::MAX as usize {
        u32::MAX
    } else {
        n as u32
    }
}

/// Whether an answer points inside a text of `count` lines (line 1 of an
/// empty text included) and says how it was reached by the diff, a
/// fingerprint, or not at all.
pub open spec fn points_inside(r: Relocated, count: int) -> bool {
    &&& 1 <= r.range.first <= r.range.last
    &&& r.range.last <= count || r.range.last == 1
    &&& !(r.source is Extmark)
}

/// Whether every new index the changes report is below `count`.
pub open spec fn lands_below(changes: Seq<(Option<usize>, Option<usize>)>, count: int) -> bool {
    forall|i: int| 0 <= i < changes.len() ==> ((#[trigger] changes[i]).1 matches Some(j) ==> j < count)
}

proof fn lemma_moved_below(changes: Seq<(Option<usize>, Option<usize>)>, n: nat, count: int)
    requires
        lands_below(changes, count),
    ensures
        moved_map(changes, n).len() == n,
        forall|k: int| 0 <= k < n ==> ((#[trigger] moved_map(changes, n)[k]) matches Some(a) ==> a < count),
    decreases changes.len(),
{
    if changes.len() > 0 {
        let rest = changes.drop_last();
        assert forall|i: int| 0 <= i < rest.len() implies ((#[trigger] rest[i]).1 matches Some(j) ==> j < count) by {
            assert(rest[i] == changes[i]);
        }
        lemma_moved_below(rest, n, count);
        assert(changes.last() == changes[changes.len() - 1]);
    }
}

proof fn lemma_landed_below(moved: Seq<Option<usize>>, lo: int, hi: int, count: int)
    requires
        forall|k: int| 0 <= k < moved.len() ==> ((#[trigger] moved[k]) matches Some(a) ==> a < count),
    ensures
        forall|i: int| 0 <= i < landed(moved, lo, hi).len() ==> #[trigger] landed(moved, lo, hi)[i] < count,
    decreases hi - lo,
{
    if hi > lo {
        lemma_landed_below(moved, lo, hi - 1, count);
        let rest = landed(moved, lo, hi - 1);
        if 0 <= hi - 1 < moved.len() && moved[hi - 1] is Some {
            assert forall|i: int| 0 <= i < rest.len() + 1 implies #[trigger] rest.push(moved[hi - 1]->0)[i] < count by {
                if i < rest.len() {
                    assert(rest.push(moved[hi - 1]->0)[i] == rest[i]);
                }
            }
        }
    }
}

proof fn lemma_followed_inside(
    pin: LineRange,
    was: Seq<Seq<char>>,
    now: Seq<Seq<char>>,
    moved: Seq<Option<usize>>,
    found: Option<usize>,
)
    requires
        pin.wf(),
        forall|k: int| 0 <= k < moved.len() ==> ((#[trigger] moved[k]) matches Some(a) ==> a < now.len()),
    ensures
        followed(pin, was, now, moved, found) matches Some(r) ==> points_inside(r, now.len() as int),
{
    lemma_landed_below(moved, pin.first - 1, pin.last as int, now.len() as int);
    let hits = landed(moved, pin.first - 1, pin.last as int);
    if hits.len() > 0 {
        assert(hits[0] < now.len());
        assert(hits[hits.len() - 1] < now.len());
    }
}

/// Where `pin` lands when `snapshot` became `current`, given the changes a
/// line diff reports between them; `None` where the answer would not fit in
/// a line number.
pub open spec fn relocated_through(
    changes: Seq<(Option<usize>, Option<usize>)>,
    snapshot: Seq<char>,
    current: Seq<char>,
    pin: LineRange,
) -> Option<Relocated> {
    let was = lines(snapshot);
    let now = lines(current);
    followed(pin, was, now, moved_map(changes, was.len()), match_for(pin, was, now))
}

/// Where `pin` lands when `snapshot` became `current`; `None` where the
/// answer would not fit in a line number.
pub open spec fn relocated(snapshot: Seq<char>, current: Seq<char>, pin: LineRange) -> Option<Relocated> {
    relocated_through(line_changes(snapshot, current), snapshot, current, pin)
}

/// One pin, through the three answers.
fn follow(
    pin: LineRange,
    was: &Vec<Vec<char>>,
    now: &Vec<Vec<char>>,
    moved: &Vec<Option<usize>>,
    line_count: u32,
) -> (r: Option<Relocated>)
    requires
        pin.wf(),
        line_count == clamped(now@.len() as int),
    ensures
        r == followed(pin, views_of(was@), views_of(now@), moved@, match_for(pin, views_of(was@), views_of(now@))),
{
    // The pin covers several lines and they need not have moved as a block:
    // taking the span of whatever survived keeps the comment over the code.
    let range = pin.to_zero_based();
    let (lo, hi) = (range.start, range.end);
    let mut first: Option<usize> = None;
    let mut last: Option<usize> = None;
    let mut ix = lo;
    while ix < hi
        invariant
            lo <= ix <= hi || (hi < lo && ix == lo),
            lo == pin.first - 1,
            hi == pin.last,
            ({
                let hits = landed(moved@, lo as int, ix as int);
                &&& (first is Some) == (hits.len() > 0)
                &&& (last is Some) == (hits.len() > 0)
                &&& hits.len() > 0 ==> first == Some(hits[0]) && last == Some(hits.last())
            }),
        decreases hi - ix,
    {
        if ix < moved.len() {
            if let Some(to) = moved[ix] {
                if first.is_none() {
                    first = Some(to);
                }
                last = Some(to);
            }
        }
        ix += 1;
    }
    let ghost hits = landed(moved@, lo as int, hi as int);
    let line_total = now.len();
    match (first, last) {
        (Some(a), Some(b)) => {
            let (a, b) = (clamp_u32(a), clamp_u32(b));
            if a == u32::MAX || b == u32::MAX {
                return None;
            }
            return Some(Relocated { range: LineRange::new(a + 1, b + 1), source: Source::Diff });
        },
        _ => {},
    }
    // Every pinned line was rewritten. The text may still exist somewhere,
    // so look for it by what surrounded it.
    let anchor_ix = lo;
    if let Some(print) = Fingerprint::of(was, anchor_ix) {
        let found = print.best_match(now, anchor_ix);
        proof {
            lemma_best_is_chosen(print.spec_view(), views_of(now@), anchor_ix as int, found);
        }
        if let Some(found) = found {
            let start = clamp_u32(found);
            let len = pin.len();
            if start == u32::MAX || start as u64 + 1 + len as u64 > u32::MAX as u64 {
                return None;
            }
            let first = start + 1;
            return Some(
                Relocated {
                    range: LineRange::new(first, first + len - 1).clamp_to(line_count),
                    source: Source::Fingerprint,
                },
            );
        }
    }
    Some(Relocated { range: pin.clamp_to(line_count), source: Source::Stale })
}

/// Follow `pins` from the text they were taken against to the text as it is
/// now.
///
/// The diff is computed once for the whole batch, so pass every pin in a file
/// together. Identical text is no special case: the diff maps every line to
/// itself and each pin comes back unchanged, marked [`Source::Diff`].
pub fn relocate(snapshot: &str, current: &str, pins: &[LineRange]) -> (r: Vec<Relocated>)
    requires
        forall|i: int| 0 <= i < pins@.len() ==> (#[trigger] pins@[i]).wf(),
        forall|i: int| 0 <= i < pins@.len() ==> relocated(snapshot@, current@, #[trigger] pins@[i]) is Some,
    ensures
        r@.len() == pins@.len(),
        forall|i: int| 0 <= i < pins@.len() ==> Some(#[trigger] r@[i]) == relocated(snapshot@, current@, pins@[i]),
        snapshot@ == current@ && inside(pins@, snapshot@) ==> forall|i: int|
            0 <= i < pins@.len() ==> #[trigger] r@[i] == (Relocated { range: pins@[i], source: Source::Diff }),
        no_lone_cr(current@) ==> forall|i: int|
            0 <= i < r@.len() ==> points_inside(#[trigger] r@[i], lines(current@).len() as int),
{
    match relocate_within(snapshot, current, pins) {
        Some(all) => all,
        None => Vec::new(),
    }
}

/// Follow `pins` through the changes a line diff reported between
/// `snapshot` and `current`: `None` when some answer would not fit in a line
/// number, and every pin's answer otherwise.
pub fn relocate_through(
    changes: &[(Option<usize>, Option<usize>)],
    snapshot: &str,
    current: &str,
    pins: &[LineRange],
) -> (r: Option<Vec<Relocated>>)
    requires
        forall|i: int| 0 <= i < pins@.len() ==> (#[trigger] pins@[i]).wf(),
    ensures
        r is Some <==> forall|i: int|
            0 <= i < pins@.len() ==> relocated_through(changes@, snapshot@, current@, #[trigger] pins@[i]) is Some,
        r matches Some(v) ==> v@.len() == pins@.len() && forall|i: int|
            0 <= i < pins@.len() ==> Some(#[trigger] v@[i]) == relocated_through(changes@, snapshot@, current@, pins@[i]),
        lands_below(changes@, lines(current@).len() as int) ==> (r matches Some(v) ==> forall|i: int|
            0 <= i < v@.len() ==> points_inside(#[trigger] v@[i], lines(current@).len() as int)),
{
    let was_chars = chars_of(snapshot);
    let now_chars = chars_of(current);
    let was = split_lines(&was_chars);
    let now = split_lines(&now_chars);
    let moved = moved_lines(changes, was.len());
    let line_count = clamp_u32(now.len());
    let mut out: Vec<Relocated> = Vec::new();
    let mut i: usize = 0;
    while i < pins.len()
        invariant
            i <= pins@.len(),
            forall|k: int| 0 <= k < pins@.len() ==> (#[trigger] pins@[k]).wf(),
            views_of(was@) == lines(snapshot@),
            views_of(now@) == lines(current@),
            views_of(was@).len() == was@.len(),
            views_of(now@).len() == now@.len(),
            moved@ == moved_map(changes@, was@.len() as nat),
            line_count == clamped(now@.len() as int),
            out@.len() == i,
            forall|k: int| 0 <= k < i ==> Some(#[trigger] out@[k]) == relocated_through(changes@, snapshot@, current@, pins@[k]),
        decreases pins@.len() - i,
    {
        match follow(pins[i], &was, &now, &moved, line_count) {
            Some(r) => out.push(r),
            None => {
                return None;
            },
        }
        i += 1;
    }
    assert forall|k: int|
        0 <= k < pins@.len() implies relocated_through(changes@, snapshot@, current@, #[trigger] pins@[k]) is Some by {
        assert(Some(out@[k]) == relocated_through(changes@, snapshot@, current@, pins@[k]));
    }
    proof {
        if lands_below(changes@, lines(current@).len() as int) {
            lemma_moved_below(changes@, was@.len() as nat, lines(current@).len() as int);
            assert forall|k: int| 0 <= k < out@.len() implies points_inside(#[trigger] out@[k], lines(current@).len() as int) by {
                assert(Some(out@[k]) == relocated_through(changes@, snapshot@, current@, pins@[k]));
                lemma_followed_inside(
                    pins@[k],
                    lines(snapshot@),
                    lines(current@),
                    moved_map(changes@, was@.len() as nat),
                    match_for(pins@[k], lines(snapshot@), lines(current@)),
                );
            }
        }
    }
    Some(out)
}

/// Whether every pin lies inside `text`.
pub open spec fn inside(pins: Seq<LineRange>, text: Seq<char>) -> bool {
    forall|i: int| 0 <= i < pins.len() ==> (#[trigger] pins[i]).last <= lines(text).len()
}

/// [`relocate`], for pins whose answers may not fit in a line number: `None`
/// when one of them would not, and every pin's answer otherwise.
///
/// Through identical text every pin inside it comes back as it was, marked
/// [`Source::Diff`].
pub fn relocate_within(snapshot: &str, current: &str, pins: &[LineRange]) -> (r: Option<Vec<Relocated>>)
    requires
        forall|i: int| 0 <= i < pins@.len() ==> (#[trigger] pins@[i]).wf(),
    ensures
        r is Some <==> forall|i: int| 0 <= i < pins@.len() ==> relocated(snapshot@, current@, #[trigger] pins@[i]) is Some,
        r matches Some(v) ==> v@.len() == pins@.len() && forall|i: int|
            0 <= i < pins@.len() ==> Some(#[trigger] v@[i]) == relocated(snapshot@, current@, pins@[i]),
        snapshot@ == current@ && inside(pins@, snapshot@) ==> (r matches Some(v) && forall|i: int|
            0 <= i < pins@.len() ==> #[trigger] v@[i] == (Relocated { range: pins@[i], source: Source::Diff })),
        no_lone_cr(current@) ==> (r matches Some(v) ==> forall|i: int|
            0 <= i < v@.len() ==> points_inside(#[trigger] v@[i], lines(current@).len() as int)),
{
    let changes = diff_changes(snapshot, current);
    let was_chars = chars_of(snapshot);
    let was = split_lines(&was_chars);
    proof {
        assert(views_of(was@).len() == was@.len());
        if snapshot@ == current@ && inside(pins@, snapshot@) {
            assert forall|i: int| 0 <= i < pins@.len() implies relocated(snapshot@, current@, #[trigger] pins@[i])
                == Some(Relocated { range: pins@[i], source: Source::Diff }) by {
                lemma_unchanged_text_keeps_every_pin(snapshot@, pins@[i]);
            }
        }
    }
    relocate_through(&changes, snapshot, current, pins)
}

proof fn lemma_moved_in_place(changes: Seq<(Option<usize>, Option<usize>)>, n: nat)
    requires
        forall|i: int| 0 <= i < changes.len() ==> #[trigger] changes[i] == (Some(i as usize), Some(i as usize)),
        n <= usize::MAX,
    ensures
        moved_map(changes, n).len() == n,
        forall|i: int| 0 <= i < n ==> #[trigger] moved_map(changes, n)[i] is None || moved_map(changes, n)[i] == Some(i as usize),
        forall|i: int| 0 <= i < n && i < changes.len() ==> #[trigger] moved_map(changes, n)[i] == Some(i as usize),
    decreases changes.len(),
{
    if changes.len() > 0 {
        let rest = changes.drop_last();
        assert forall|i: int| 0 <= i < rest.len() implies #[trigger] rest[i] == (Some(i as usize), Some(i as usize)) by {
            assert(rest[i] == changes[i]);
        }
        lemma_moved_in_place(rest, n);
        let l = changes.len() - 1;
        assert(changes[l] == (Some(l as usize), Some(l as usize)));
    }
}

proof fn lemma_landed_in_place(moved: Seq<Option<usize>>, lo: int, hi: int)
    requires
        0 <= lo <= hi <= moved.len(),
        forall|i: int| lo <= i < hi ==> #[trigger] moved[i] == Some(i as usize),
    ensures
        landed(moved, lo, hi).len() == hi - lo,
        forall|k: int| 0 <= k < hi - lo ==> #[trigger] landed(moved, lo, hi)[k] == (lo + k) as usize,
    decreases hi - lo,
{
    if hi > lo {
        lemma_landed_in_place(moved, lo, hi - 1);
    }
}

/// Identical text is not a special case: every pin inside the file comes
/// back unchanged, given what the diff reports of identical text.
proof fn lemma_unchanged_text_keeps_every_pin(text: Seq<char>, pin: LineRange)
    requires
        pin.wf(),
        pin.last <= lines(text).len(),
        lines(text).len() <= usize::MAX,
        forall|i: int|
            0 <= i < line_changes(text, text).len() ==> #[trigger] line_changes(text, text)[i] == (
                Some(i as usize),
                Some(i as usize),
            ),
        line_changes(text, text).len() >= lines(text).len(),
    ensures
        relocated(text, text, pin) == Some(Relocated { range: pin, source: Source::Diff }),
{
    let changes = line_changes(text, text);
    let n = lines(text).len();
    lemma_moved_in_place(changes, n);
    let moved = moved_map(changes, n);
    lemma_landed_in_place(moved, pin.first - 1, pin.last as int);
}

/// A pin found again by its neighbourhood keeps its length: the answer
/// covers as many lines as the pin did, unless the file ends first, where it
/// stops at the last line.
pub proof fn lemma_found_pins_keep_their_length(snapshot: Seq<char>, current: Seq<char>, pin: LineRange)
    requires
        pin.wf(),
    ensures
        match relocated(snapshot, current, pin) {
            Some(r) => r.source == Source::Fingerprint ==> (r.range.last - r.range.first == pin.last
                - pin.first || r.range.last == (if lines(current).len() > 1 {
                lines(current).len()
            } else {
                1
            })),
            None => true,
        },
{
}

} // verus!
