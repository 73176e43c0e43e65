//! The page a deck is shown on: how it turns, what an agent may light on it,
//! and how the reader's remarks find their lines again.
//!
//! A page of panes has four turns, the way a sheet of paper has four: side by
//! side, one above the other, side by side the other way round, one above the
//! other the other way round. One key turns it, so the way out of an
//! arrangement you did not want is to keep pressing.
//!
//! An agent asks to be shown lines of a file; the request lands in one group,
//! in the one code pane showing that file, and only on lines that pane has.
//!
//! Remarks are pinned to the lines they were written against. When the files
//! move under them, each pin is followed to where its line is now — per file,
//! since the diff is per file — and married back to the remark it came from,
//! which goes back as a comment at that range.

use vstd::prelude::*;

use crate::layout::Arrange;
use crate::line::LineRange;
use crate::live::{Stage, StageId};
use crate::protocol::{Comment, Group, Kind, Ref};
use crate::relocate::{Relocated, relocate_within, relocated};
use crate::text::{chars_of, lines, same_text, split_lines, string_of, text_eq, views_of};

verus! {

/// What quarter turn `turn` of the page means: the arrangement, and whether
/// the panes read backwards.
pub open spec fn quarter_of(turn: int) -> (Arrange, bool) {
    let t = turn % 4;
    (
        if t % 2 == 0 {
            Arrange::Columns
        } else {
            Arrange::Stacked
        },
        t >= 2,
    )
}

/// What a quarter turn of the page means.
pub fn quarter(turn: u8) -> (r: (Arrange, bool))
    ensures
        r == quarter_of(turn as int),
{
    let t = turn % 4;
    let arrange = if t % 2 == 0 {
        Arrange::Columns
    } else {
        Arrange::Stacked
    };
    (arrange, t >= 2)
}

/// Turning four times comes back to where it started.
pub proof fn lemma_four_turns_come_back(turn: int)
    requires
        turn >= 0,
    ensures
        quarter_of(turn + 4) == quarter_of(turn),
{
    assert((turn + 4) % 4 == turn % 4);
}

/// A half turn keeps the axis and swaps the panes.
pub proof fn lemma_half_turn_reverses(turn: int)
    requires
        turn >= 0,
    ensures
        quarter_of(turn + 2).0 == quarter_of(turn).0,
        quarter_of(turn + 2).1 == !quarter_of(turn).1,
{
    let t = turn % 4;
    assert((turn + 2) % 4 == if t < 2 {
        t + 2
    } else {
        t - 2
    });
}

/// The four turns are four different pages.
pub proof fn lemma_four_pages(a: int, b: int)
    requires
        0 <= a < b < 4,
    ensures
        quarter_of(a) != quarter_of(b),
{
}

/// The snapshot and the current text of `file`, when `files` has it: the
/// first entry for it.
pub open spec fn texts_of(files: Seq<(String, String, String)>, file: Seq<char>) -> Option<(Seq<char>, Seq<char>)>
    decreases files.len(),
{
    if files.len() == 0 {
        None
    } else if files[0].0@ == file {
        Some((files[0].1@, files[0].2@))
    } else {
        texts_of(files.drop_first(), file)
    }
}

/// Where one pin lands: nowhere when its file was not snapshotted.
pub open spec fn pin_lands(pin: (usize, String, LineRange), files: Seq<(String, String, String)>) -> Option<Relocated> {
    match texts_of(files, pin.1@) {
        Some((was, now)) => relocated(was, now, pin.2),
        None => None,
    }
}

/// Whether a pin can be followed: its file was not snapshotted, or its line
/// can be found again.
pub open spec fn followable(pin: (usize, String, LineRange), files: Seq<(String, String, String)>) -> bool {
    texts_of(files, pin.1@) is Some ==> pin_lands(pin, files) is Some
}

/// Every pin whose file was snapshotted, in order, with where it is now.
pub open spec fn followed_all(pins: Seq<(usize, String, LineRange)>, files: Seq<(String, String, String)>) -> Seq<(usize, Relocated)>
    decreases pins.len(),
{
    if pins.len() == 0 {
        Seq::empty()
    } else {
        followed_all(pins.drop_last(), files) + match pin_lands(pins.last(), files) {
            Some(r) => seq![(pins.last().0, r)],
            None => Seq::empty(),
        }
    }
}

/// The snapshot and current text of `file`.
fn texts<'a>(files: &'a [(String, String, String)], file: &String) -> (r: Option<(&'a String, &'a String)>)
    ensures
        match r {
            Some((was, now)) => texts_of(files@, file@) == Some((was@, now@)),
            None => texts_of(files@, file@) is None,
        },
{
    let mut i: usize = 0;
    assert(files@.skip(0) =~= files@);
    while i < files.len()
        invariant
            i <= files@.len(),
            texts_of(files@, file@) == texts_of(files@.skip(i as int), file@),
        decreases files@.len() - i,
    {
        assert(files@.skip(i as int)[0] == files@[i as int]);
        assert(files@.skip(i as int).drop_first() =~= files@.skip(i + 1));
        if text_eq(&files[i].0, file) {
            return Some((&files[i].1, &files[i].2));
        }
        i += 1;
    }
    None
}

/// Follow every pin to where its line is now.
///
/// A pin is a remark's index, the file it was written against, and its
/// range; `files` holds, for each snapshotted file, the text it had then and
/// the text it has now. Pins are followed one file at a time, since the diff
/// is per file, and each comes back paired with the remark it came from —
/// getting that pairing wrong would put one reader's comment on another one's
/// line. A file with no snapshot is left alone rather than guessed at.
///
/// Nothing comes back when some pin's line cannot be followed at all.
pub fn follow(pins: &[(usize, String, LineRange)], files: &[(String, String, String)]) -> (r: Option<
    Vec<(usize, Relocated)>,
>)
    requires
        forall|i: int| 0 <= i < pins@.len() ==> (#[trigger] pins@[i]).2.wf(),
    ensures
        r is Some <==> forall|i: int| 0 <= i < pins@.len() ==> followable(#[trigger] pins@[i], files@),
        r matches Some(v) ==> v@ == followed_all(pins@, files@),
{
    let n = pins.len();
    let mut slots: Vec<Option<Relocated>> = Vec::new();
    let mut done: Vec<bool> = Vec::new();
    let mut z: usize = 0;
    while z < n
        invariant
            z <= n == pins@.len(),
            slots@.len() == z,
            done@.len() == z,
            forall|j: int| 0 <= j < z ==> !(#[trigger] done@[j]),
        decreases n - z,
    {
        slots.push(None);
        done.push(false);
        z += 1;
    }
    let mut k: usize = 0;
    while k < n
        invariant
            k <= n == pins@.len(),
            slots@.len() == n,
            done@.len() == n,
            forall|i: int| 0 <= i < pins@.len() ==> (#[trigger] pins@[i]).2.wf(),
            forall|j: int| 0 <= j < k ==> #[trigger] done@[j],
            forall|j: int|
                0 <= j < n && #[trigger] done@[j] ==> slots@[j] == pin_lands(pins@[j], files@)
                    && followable(pins@[j], files@),
        decreases n - k,
    {
        if !done[k] {
            match texts(files, &pins[k].1) {
                None => {
                    done.set(k, true);
                    slots.set(k, None);
                },
                Some((was, now)) => {
                    let mut ranges: Vec<LineRange> = Vec::new();
                    let mut at: Vec<usize> = Vec::new();
                    let mut j: usize = k;
                    while j < n
                        invariant
                            k <= j <= n == pins@.len(),
                            forall|i: int| 0 <= i < pins@.len() ==> (#[trigger] pins@[i]).2.wf(),
                            texts_of(files@, pins@[k as int].1@) == Some((was@, now@)),
                            ranges@.len() == at@.len(),
                            forall|i: int|
                                0 <= i < at@.len() ==> k <= #[trigger] at@[i] < j && ranges@[i]
                                    == pins@[at@[i] as int].2 && pins@[at@[i] as int].1@
                                    == pins@[k as int].1@,
                            forall|i: int| 0 <= i < ranges@.len() ==> (#[trigger] ranges@[i]).wf(),
                            forall|q: int|
                                k <= q < j && pins@[q].1@ == pins@[k as int].1@ ==> exists|i: int|
                                    0 <= i < at@.len() && #[trigger] at@[i] == q,
                        decreases n - j,
                    {
                        let ghost old_at = at@;
                        if text_eq(&pins[j].1, &pins[k].1) {
                            ranges.push(pins[j].2);
                            at.push(j);
                            proof {
                                assert(at@[at@.len() - 1] == j);
                            }
                        }
                        proof {
                            assert forall|q: int|
                                k <= q < j + 1 && pins@[q].1@ == pins@[k as int].1@ implies exists|i: int|
                                0 <= i < at@.len() && #[trigger] at@[i] == q by {
                                if q < j {
                                    let i = choose|i: int| 0 <= i < old_at.len() && #[trigger] old_at[i] == q;
                                    assert(at@[i] == q);
                                } else {
                                    assert(at@[at@.len() - 1] == q);
                                }
                            }
                        }
                        j += 1;
                    }
                    let moved = match relocate_within(was.as_str(), now.as_str(), &ranges) {
                        Some(m) => m,
                        None => {
                            proof {
                                let i = choose|i: int|
                                    0 <= i < ranges@.len() && !(relocated(
                                        was@,
                                        now@,
                                        #[trigger] ranges@[i],
                                    ) is Some);
                                let q = at@[i] as int;
                                assert(!followable(pins@[q], files@));
                            }
                            return None;
                        },
                    };
                    let mut i: usize = 0;
                    while i < at.len()
                        invariant
                            i <= at@.len() == ranges@.len() == moved@.len(),
                            slots@.len() == n,
                            done@.len() == n,
                            k < n == pins@.len(),
                            texts_of(files@, pins@[k as int].1@) == Some((was@, now@)),
                            forall|p: int|
                                0 <= p < at@.len() ==> k <= #[trigger] at@[p] < n && ranges@[p]
                                    == pins@[at@[p] as int].2 && pins@[at@[p] as int].1@
                                    == pins@[k as int].1@,
                            forall|p: int|
                                0 <= p < moved@.len() ==> Some(#[trigger] moved@[p]) == relocated(
                                    was@,
                                    now@,
                                    ranges@[p],
                                ),
                            forall|j: int| 0 <= j < k ==> #[trigger] done@[j],
                            forall|j: int|
                                0 <= j < n && #[trigger] done@[j] ==> slots@[j] == pin_lands(
                                    pins@[j],
                                    files@,
                                ) && followable(pins@[j], files@),
                            forall|p: int| 0 <= p < i ==> #[trigger] done@[at@[p] as int],
                        decreases at@.len() - i,
                    {
                        let q = at[i];
                        slots.set(q, Some(moved[i]));
                        done.set(q, true);
                        proof {
                            assert(pins@[q as int].1@ == pins@[k as int].1@);
                            assert(pin_lands(pins@[q as int], files@) == Some(moved@[i as int]));
                        }
                        i += 1;
                    }
                    proof {
                        let p = choose|p: int| 0 <= p < at@.len() && #[trigger] at@[p] == k;
                        assert(done@[at@[p] as int]);
                    }
                },
            }
        }
        k += 1;
    }
    assert forall|j: int| 0 <= j < n implies slots@[j] == pin_lands(#[trigger] pins@[j], files@)
        && followable(pins@[j], files@) by {
        assert(done@[j]);
    }
    let mut out: Vec<(usize, Relocated)> = Vec::new();
    let mut m: usize = 0;
    while m < n
        invariant
            m <= n == pins@.len(),
            slots@.len() == n,
            forall|j: int| 0 <= j < n ==> slots@[j] == pin_lands(#[trigger] pins@[j], files@),
            out@ == followed_all(pins@.take(m as int), files@),
        decreases n - m,
    {
        assert(pins@.take(m + 1).drop_last() =~= pins@.take(m as int));
        assert(pins@.take(m + 1).last() == pins@[m as int]);
        if let Some(rel) = slots[m] {
            out.push((pins[m].0, rel));
        }
        proof {
            if slots@[m as int] is None {
                assert(followed_all(pins@.take(m + 1), files@) =~= followed_all(
                    pins@.take(m as int),
                    files@,
                ));
            }
        }
        m += 1;
    }
    assert(pins@.take(n as int) =~= pins@);
    Some(out)
}


/// Why a request to show some lines could not be met.
#[derive(Debug, Clone, PartialEq, Eq)]
pub enum Unshown {
    /// No group of the deck has the id asked for.
    NoSuchGroup {
        /// The id asked for.
        id: String,
    },
    /// There is no group to show anything in.
    NoGroup,
    /// The request names nothing to show.
    NoTarget,
    /// No code pane of the group shows that file.
    NotInAPane,
    /// More than one code pane shows that file, and none was named.
    Ambiguous,
    /// The file's text could not be had.
    Unreadable,
    /// The range runs past the end of the text the pane shows.
    OutOfRange {
        /// How many lines the text has.
        lines: u32,
    },
}

/// The first group of `groups` with id `id`.
pub open spec fn group_named(groups: Seq<Group>, id: Seq<char>) -> Option<int> {
    if exists|i: int| 0 <= i < groups.len() && groups[i].id@ == id {
        Some(choose|i: int| 0 <= i < groups.len() && groups[i].id@ == id && forall|j: int| 0 <= j < i ==> groups[j].id@ != id)
    } else {
        None
    }
}

/// The group a request is shown in: the one it names, else the one on
/// screen.
pub fn group_for_show(groups: &[Group], current: usize, asked: Option<&str>) -> (r: Result<usize, Unshown>)
    ensures
        match asked {
            Some(id) => match group_named(groups@, id@) {
                Some(i) => r == Ok::<usize, Unshown>(i as usize),
                None => r matches Err(Unshown::NoSuchGroup { id: named }) && named@ == id@,
            },
            None => if current < groups@.len() {
                r == Ok::<usize, Unshown>(current)
            } else {
                r == Err::<usize, Unshown>(Unshown::NoGroup)
            },
        },
{
    match asked {
        Some(id) => {
            let mut i: usize = 0;
            while i < groups.len()
                invariant
                    i <= groups@.len(),
                    asked == Some(id),
                    forall|j: int| 0 <= j < i ==> groups@[j].id@ != id@,
                decreases groups@.len() - i,
            {
                if same_text(groups[i].id.as_str(), id) {
                    proof {
                        let n = i as int;
                        assert(groups@[n].id@ == id@);
                        assert(0 <= n < groups@.len() && groups@[n].id@ == id@ && forall|j: int|
                            0 <= j < n ==> groups@[j].id@ != id@);
                        let k = choose|k: int|
                            0 <= k < groups@.len() && groups@[k].id@ == id@ && forall|j: int|
                                0 <= j < k ==> groups@[j].id@ != id@;
                        if k < n {
                            assert(groups@[k].id@ != id@);
                        } else if k > n {
                            assert(groups@[n].id@ != id@);
                        }
                        assert(k == n);
                        assert(group_named(groups@, id@) == Some(n));
                    }
                    return Ok(i);
                }
                i += 1;
            }
            let v = chars_of(id);
            Err(Unshown::NoSuchGroup { id: string_of(&v) })
        },
        None => if current < groups.len() {
            Ok(current)
        } else {
            Err(Unshown::NoGroup)
        },
    }
}

/// Whether ref `r` is a code pane that shows the file asked for, and is the
/// pane asked for when one was named. `same` says whether its file is that
/// file.
pub open spec fn shows_file(r: Ref, same: bool, pane: Option<Seq<char>>) -> bool {
    match r {
        Ref::Code(c) => same && match pane {
            Some(p) => c.id@ == p,
            None => true,
        },
        _ => false,
    }
}

/// The places among `refs` of the panes that show the file asked for.
pub open spec fn showing(refs: Seq<Ref>, same: Seq<bool>, pane: Option<Seq<char>>) -> Seq<int>
    decreases refs.len(),
{
    if refs.len() == 0 {
        Seq::empty()
    } else if shows_file(refs.last(), same[refs.len() - 1], pane) {
        showing(refs.drop_last(), same, pane).push(refs.len() - 1)
    } else {
        showing(refs.drop_last(), same, pane)
    }
}

/// The pane of `group` a request is shown in: the one code pane showing the
/// file asked for, and the one named when several do.
///
/// `same_file` says, for each of the group's refs, whether it points at the
/// file asked for once both paths are resolved on disk.
pub fn pane_for_show(group: &Group, same_file: &[bool], pane: Option<&str>) -> (r: Result<usize, Unshown>)
    requires
        same_file@.len() == group.refs@.len(),
    ensures
        ({
            let c = showing(
                group.refs@,
                same_file@,
                match pane {
                    Some(p) => Some(p@),
                    None => None,
                },
            );
            if c.len() == 0 {
                r == Err::<usize, Unshown>(Unshown::NotInAPane)
            } else if c.len() == 1 {
                r == Ok::<usize, Unshown>(c[0] as usize)
            } else {
                r == Err::<usize, Unshown>(Unshown::Ambiguous)
            }
        }),
{
    let ghost wanted = match pane {
        Some(p) => Some(p@),
        None => None,
    };
    let mut found: Vec<usize> = Vec::new();
    let mut i: usize = 0;
    while i < group.refs.len()
        invariant
            i <= group.refs@.len(),
            same_file@.len() == group.refs@.len(),
            wanted == match pane {
                Some(p) => Some(p@),
                None => None::<Seq<char>>,
            },
            found@.map_values(|k: usize| k as int) == showing(group.refs@.take(i as int), same_file@, wanted),
        decreases group.refs@.len() - i,
    {
        let ghost pre = group.refs@.take(i as int);
        let ghost post = group.refs@.take(i + 1);
        assert(post.drop_last() =~= pre);
        assert(post.last() == group.refs@[i as int]);
        let hit = match &group.refs[i] {
            Ref::Code(c) => same_file[i] && match pane {
                Some(p) => same_text(c.id.as_str(), p),
                None => true,
            },
            _ => false,
        };
        assert(hit == shows_file(group.refs@[i as int], same_file@[i as int], wanted));
        if hit {
            let ghost before = found@;
            found.push(i);
            assert(found@.map_values(|k: usize| k as int) =~= before.map_values(|k: usize| k as int).push(
                i as int,
            ));
        }
        i += 1;
    }
    assert(group.refs@.take(group.refs@.len() as int) =~= group.refs@);
    let ghost c = showing(group.refs@, same_file@, wanted);
    assert(found@.len() == c.len());
    if found.len() == 0 {
        Err(Unshown::NotInAPane)
    } else if found.len() == 1 {
        assert(found@.map_values(|k: usize| k as int)[0] == c[0]);
        Ok(found[0])
    } else {
        Err(Unshown::Ambiguous)
    }
}

/// Lines joined back together with line breaks between them.
pub open spec fn rejoined(ls: Seq<Seq<char>>) -> Seq<char>
    decreases ls.len(),
{
    if ls.len() == 0 {
        Seq::empty()
    } else if ls.len() == 1 {
        ls[0]
    } else {
        rejoined(ls.drop_last()) + seq!['\n'] + ls.last()
    }
}

/// The smaller of two numbers.
pub open spec fn least(a: int, b: int) -> int {
    if a <= b {
        a
    } else {
        b
    }
}

/// The lines `range` names in `text`, joined: from line `first` (the first
/// line when `first` is 0), as many as the range covers, as far as the text
/// goes.
pub open spec fn quoted(text: Seq<char>, range: LineRange) -> Seq<char> {
    let ls = lines(text);
    let from = if range.first == 0 {
        0
    } else {
        range.first - 1
    };
    let upto = from + (range.last - range.first + 1);
    rejoined(ls.subrange(least(from, ls.len() as int), least(upto, ls.len() as int)))
}

/// A text by its view, when there is one.
pub open spec fn text_view(t: Option<&str>) -> Option<Seq<char>> {
    match t {
        Some(s) => Some(s@),
        None => None,
    }
}

/// The group a request is shown in, by position: the first one with the id
/// asked for, else the one on screen when there is one.
pub open spec fn group_asked(groups: Seq<Group>, current: int, asked: Option<Seq<char>>) -> Option<int> {
    match asked {
        Some(id) => group_named(groups, id),
        None => if 0 <= current < groups.len() {
            Some(current)
        } else {
            None
        },
    }
}

/// The pane of a group's `refs` a request is shown in: the one code pane
/// that shows its file, none when no pane does, and no answer when several
/// do.
pub open spec fn pane_asked(refs: Seq<Ref>, same: Seq<bool>, pane: Option<Seq<char>>) -> Result<int, Unshown> {
    let c = showing(refs, same, pane);
    if c.len() == 0 {
        Err(Unshown::NotInAPane)
    } else if c.len() == 1 {
        Ok(c[0])
    } else {
        Err(Unshown::Ambiguous)
    }
}

/// Where a request to show a file is shown: its group, then the pane of that
/// group showing the file.
///
/// `target` is what the request names, when it names something: the group
/// asked for, if any, and the pane asked for, if any. `same_file[g]` says,
/// for each ref of group `g`, whether it points at the file asked for once
/// both paths are resolved on disk.
pub fn place_for_show(
    groups: &[Group],
    current: usize,
    target: Option<(Option<&str>, Option<&str>)>,
    same_file: &[Vec<bool>],
) -> (r: Result<(usize, usize), Unshown>)
    requires
        same_file@.len() == groups@.len(),
        forall|g: int| 0 <= g < groups@.len() ==> (#[trigger] same_file@[g])@.len() == groups@[g].refs@.len(),
    ensures
        match target {
            None => r == Err::<(usize, usize), Unshown>(Unshown::NoTarget),
            Some((asked, pane)) => match group_asked(groups@, current as int, text_view(asked)) {
                None => match asked {
                    Some(id) => r matches Err(Unshown::NoSuchGroup { id: named }) && named@ == id@,
                    None => r == Err::<(usize, usize), Unshown>(Unshown::NoGroup),
                },
                Some(g) => r == match pane_asked(groups@[g].refs@, same_file@[g]@, text_view(pane)) {
                    Ok(p) => Ok::<(usize, usize), Unshown>((g as usize, p as usize)),
                    Err(e) => Err(e),
                },
            },
        },
{
    let (asked, pane) = match target {
        None => {
            return Err(Unshown::NoTarget);
        },
        Some(t) => t,
    };
    let g = match group_step(groups, current, asked) {
        Err(e) => {
            return Err(e);
        },
        Ok(g) => g,
    };
    match pane_step(&groups[g], same_file[g].as_slice(), pane) {
        Err(e) => Err(e),
        Ok(p) => Ok((g, p)),
    }
}

/// [`group_for_show`], told by [`group_asked`].
fn group_step(groups: &[Group], current: usize, asked: Option<&str>) -> (r: Result<usize, Unshown>)
    ensures
        match group_asked(groups@, current as int, text_view(asked)) {
            Some(g) => r == Ok::<usize, Unshown>(g as usize) && 0 <= g < groups@.len(),
            None => match asked {
                Some(id) => r matches Err(Unshown::NoSuchGroup { id: named }) && named@ == id@,
                None => r == Err::<usize, Unshown>(Unshown::NoGroup),
            },
        },
{
    let r = group_for_show(groups, current, asked);
    proof {
        if let Some(id) = asked {
            if exists|i: int| 0 <= i < groups@.len() && groups@[i].id@ == id@ {
                let i = choose|i: int| 0 <= i < groups@.len() && groups@[i].id@ == id@;
                lemma_first_named(groups@, id@, i);
            }
        }
    }
    r
}

/// A group with the id is found where some group has it.
proof fn lemma_first_named(groups: Seq<Group>, id: Seq<char>, i: int)
    requires
        0 <= i < groups.len(),
        groups[i].id@ == id,
    ensures
        exists|k: int| 0 <= k < groups.len() && groups[k].id@ == id && forall|j: int| 0 <= j < k ==> groups[j].id@ != id,
    decreases i,
{
    if exists|j: int| 0 <= j < i && groups[j].id@ == id {
        let j = choose|j: int| 0 <= j < i && groups[j].id@ == id;
        lemma_first_named(groups, id, j);
    } else {
        assert(0 <= i < groups.len() && groups[i].id@ == id && forall|j: int| 0 <= j < i ==> groups[j].id@ != id);
    }
}

/// [`pane_for_show`], told by [`pane_asked`].
fn pane_step(group: &Group, same_file: &[bool], pane: Option<&str>) -> (r: Result<usize, Unshown>)
    requires
        same_file@.len() == group.refs@.len(),
    ensures
        r == match pane_asked(group.refs@, same_file@, text_view(pane)) {
            Ok(p) => Ok::<usize, Unshown>(p as usize),
            Err(e) => Err(e),
        },
{
    pane_for_show(group, same_file, pane)
}

/// How many lines a text has, as far as a line number can count.
pub open spec fn counted(text: Seq<char>) -> u32 {
    if lines(text).len() <= u32::MAX {
        lines(text).len() as u32
    } else {
        u32::MAX
    }
}

/// The stage a request to show `range` of pane `pane_ix` sets, and whether
/// the file on disk still reads as the text the pane shows.
///
/// `snapshot` is the text the pane shows, when it could be had, and
/// `identity` names that text; `current` is the file as it is on disk now,
/// when it could be read. The range has to lie inside the snapshot: a pane
/// cannot light lines it does not have.
pub fn stage_for_show(
    id: String,
    group: &Group,
    pane_ix: usize,
    range: LineRange,
    snapshot: Option<&str>,
    identity: String,
    current: Option<&str>,
) -> (r: Result<(Stage, bool), Unshown>)
    requires
        pane_ix < group.refs@.len(),
        group.refs@[pane_ix as int] is Code,
        range.first <= range.last,
        range.last - range.first + 1 <= u32::MAX,
    ensures
        match snapshot {
            None => r == Err::<(Stage, bool), Unshown>(Unshown::Unreadable),
            Some(text) => if counted(text@) == 0 || range.last > counted(text@) {
                r == Err::<(Stage, bool), Unshown>(Unshown::OutOfRange { lines: counted(text@) })
            } else {
                r matches Ok((stage, matches)) && match group.refs@[pane_ix as int] {
                    Ref::Code(c) => {
                        &&& stage.id == StageId(id)
                        &&& stage.group@ == group.id@
                        &&& stage.ref_id matches Some(rid) && rid@ == c.id@
                        &&& stage.file matches Some(f) && f@ == c.file@
                        &&& stage.range == Some(range)
                        &&& stage.quote@ == quoted(text@, range)
                        &&& stage.snapshot == Some(identity)
                        &&& matches == (current matches Some(now) && now@ == text@)
                    },
                    _ => false,
                }
            },
        },
{
    let text = match snapshot {
        None => {
            return Err(Unshown::Unreadable);
        },
        Some(t) => t,
    };
    let chars = chars_of(text);
    let ls = split_lines(&chars);
    assert(views_of(ls@).len() == ls@.len());
    let count: u32 = if ls.len() <= 0xffff_ffff {
        ls.len() as u32
    } else {
        0xffff_ffff
    };
    if count == 0 || range.last > count {
        return Err(Unshown::OutOfRange { lines: count });
    }
    let from: usize = if range.first == 0 {
        0
    } else {
        (range.first - 1) as usize
    };
    let span = (range.last - range.first + 1) as usize;
    let start = if from < ls.len() {
        from
    } else {
        ls.len()
    };
    let end = if from + span < ls.len() {
        from + span
    } else {
        ls.len()
    };
    let ghost picked = views_of(ls@).subrange(start as int, end as int);
    let mut quote: Vec<char> = Vec::new();
    let mut k: usize = start;
    while k < end
        invariant
            start <= k <= end <= ls@.len(),
            views_of(ls@).len() == ls@.len(),
            picked == views_of(ls@).subrange(start as int, end as int),
            quote@ == rejoined(picked.take(k - start)),
        decreases end - k,
    {
        let ghost before = quote@;
        if k > start {
            quote.push('\n');
        }
        crate::text::extend(&mut quote, &ls[k]);
        proof {
            let now = picked.take(k + 1 - start);
            assert(now.drop_last() =~= picked.take(k - start));
            assert(now.last() == ls@[k as int]@);
            if k == start {
                assert(quote@ =~= now[0]);
            } else {
                assert(quote@ =~= before + seq!['\n'] + ls@[k as int]@);
            }
        }
        k += 1;
    }
    assert(picked.take(end - start) =~= picked);
    let code = match &group.refs[pane_ix] {
        Ref::Code(c) => c,
        _ => {
            return Err(Unshown::NotInAPane);
        },
    };
    let matches = match current {
        Some(now) => same_text(now, text),
        None => false,
    };
    let stage = Stage {
        id: StageId(id),
        group: group.id.clone(),
        ref_id: Some(code.id.clone()),
        file: Some(code.file.clone()),
        range: Some(range),
        quote: string_of(&quote),
        snapshot: Some(identity),
    };
    Ok((stage, matches))
}


/// A remark the reader has written, before it goes back.
#[derive(Debug, Clone)]
pub struct Remark {
    /// The group it was written in.
    pub group: String,
    /// The pane it is about, when it is about one.
    pub ref_id: Option<String>,
    /// The file it is pinned in, when it is about code.
    pub file: Option<String>,
    /// The lines it was written against.
    pub range: Option<LineRange>,
    /// The text it was pinned to, so the far side can find it again.
    pub quote: String,
    /// What the reader said.
    pub text: String,
    /// What the reader wants done about it.
    pub kind: Kind,
}

/// Where remark `ix` was followed to, among `found`: the first answer for it.
pub open spec fn found_for(found: Seq<(usize, Relocated)>, ix: int) -> Option<Relocated>
    decreases found.len(),
{
    if found.len() == 0 {
        None
    } else if found[0].0 == ix {
        Some(found[0].1)
    } else {
        found_for(found.drop_first(), ix)
    }
}

/// The comment remark `r`, the `ix`th, goes back as: everything it said, at
/// the range its pin was followed to and with how far to trust that range,
/// or at the range it was written with when its pin was not followed.
pub open spec fn goes_back_as(r: Remark, found: Seq<(usize, Relocated)>, ix: int, c: Comment) -> bool {
    &&& c.group == r.group
    &&& c.ref_id == r.ref_id
    &&& c.file == r.file
    &&& c.kind == r.kind
    &&& c.quote == r.quote
    &&& c.text == r.text
    &&& match found_for(found, ix) {
        Some(moved) => c.range == Some(moved.range) && c.source == Some(moved.source),
        None => c.range == r.range && c.source is None,
    }
}

/// Where remark `ix` was followed to.
fn followed_to(found: &[(usize, Relocated)], ix: usize) -> (r: Option<Relocated>)
    ensures
        r == found_for(found@, ix as int),
{
    let mut i: usize = 0;
    assert(found@.skip(0) =~= found@);
    while i < found.len()
        invariant
            i <= found@.len(),
            found_for(found@, ix as int) == found_for(found@.skip(i as int), ix as int),
        decreases found@.len() - i,
    {
        assert(found@.skip(i as int)[0] == found@[i as int]);
        assert(found@.skip(i as int).drop_first() =~= found@.skip(i + 1));
        if found[i].0 == ix {
            return Some(found[i].1);
        }
        i += 1;
    }
    None
}

/// The comments the remarks go back as, one for each, in order: each at the
/// range its own pin was followed to.
///
/// `found` is what following the pins gave, each paired with the index of
/// the remark it came from. Getting that pairing wrong would put one
/// reader's comment on another one's line.
pub fn comments_of(remarks: &[Remark], found: &[(usize, Relocated)]) -> (r: Vec<Comment>)
    ensures
        r@.len() == remarks@.len(),
        forall|i: int| 0 <= i < remarks@.len() ==> goes_back_as(remarks@[i], found@, i, #[trigger] r@[i]),
{
    let mut out: Vec<Comment> = Vec::new();
    let mut i: usize = 0;
    while i < remarks.len()
        invariant
            i <= remarks@.len(),
            out@.len() == i,
            forall|k: int| 0 <= k < i ==> goes_back_as(remarks@[k], found@, k, #[trigger] out@[k]),
        decreases remarks@.len() - i,
    {
        let remark = &remarks[i];
        let moved = followed_to(found, i);
        let (range, source) = match moved {
            Some(m) => (Some(m.range), Some(m.source)),
            None => (remark.range, None),
        };
        let comment = Comment {
            group: remark.group.clone(),
            ref_id: remark.ref_id.clone(),
            file: remark.file.clone(),
            range,
            source,
            kind: remark.kind,
            quote: remark.quote.clone(),
            text: remark.text.clone(),
        };
        out.push(comment);
        i += 1;
    }
    out
}

} // verus!
