//! Where deck keeps its own things, and how a path is built on another.
//!
//! Finding a home directory is the environment's business. What deck makes of
//! one is decided here: its own directory sits directly under it, and an empty
//! home is no home, since every path built on it would be relative. A deck's
//! markers — that it is finished, that it was shut unanswered — sit inside
//! the deck.

use vstd::prelude::*;

use crate::text::{chars_of, extend, string_of};

verus! {

/// `home` joined with `.deck`, as a path joins a relative name: with a `/`
/// between them unless `home` already ends in one.
pub open spec fn deck_under(home: Seq<char>) -> Seq<char> {
    if home.len() > 0 && home.last() == '/' {
        home + seq!['.', 'd', 'e', 'c', 'k']
    } else {
        home + seq!['/', '.', 'd', 'e', 'c', 'k']
    }
}

/// Where deck keeps its own things — the config, and the window's shape —
/// given the person's home directory. Nothing when there is no home, or the
/// home is empty.
pub fn deck(home: Option<&str>) -> (r: Option<String>)
    ensures
        match home {
            Some(h) => if h@.len() > 0 {
                r matches Some(p) && p@ == deck_under(h@)
            } else {
                r is None
            },
            None => r is None,
        },
{
    match home {
        Some(h) => {
            let mut v = chars_of(h);
            if v.len() == 0 {
                return None;
            }
            if v[v.len() - 1] != '/' {
                v.push('/');
            }
            extend(&mut v, &['.', 'd', 'e', 'c', 'k']);
            assert(v@ =~= deck_under(h@));
            Some(string_of(&v))
        },
        None => None,
    }
}

/// Nothing is built on an empty home, and what is built is never empty.
pub proof fn lemma_nothing_is_built_on_nothing(home: Seq<char>)
    ensures
        deck_under(home).len() > 0,
        home.len() > 0 ==> deck_under(home).take(home.len() as int) == home,
{
    assert(deck_under(home).take(home.len() as int) =~= home);
}


/// `rest` joined onto `base` as a path joins a relative name: with a `/`
/// between them, unless `base` is empty or already ends in one.
pub open spec fn joined(base: Seq<char>, rest: Seq<char>) -> Seq<char> {
    if base.len() == 0 {
        rest
    } else if base.last() == '/' {
        base + rest
    } else {
        base + seq!['/'] + rest
    }
}

/// `rest` joined onto `base`.
pub fn join(base: &str, rest: &str) -> (r: String)
    ensures
        r@ == joined(base@, rest@),
{
    let mut v = chars_of(base);
    if v.len() > 0 && v[v.len() - 1] != '/' {
        v.push('/');
    }
    let more = chars_of(rest);
    crate::text::extend(&mut v, &more);
    string_of(&v)
}

/// The file that says a deck is finished: `done`, inside it.
pub fn seal_marker(root: &str) -> (r: String)
    ensures
        r@ == joined(root@, "done"@),
{
    join(root, "done")
}

/// The file that says the reader shut the deck without answering: `closed`,
/// inside it, since it is a fact about the deck that goes when the deck does.
pub fn shut_marker(root: &str) -> (r: String)
    ensures
        r@ == joined(root@, "closed"@),
{
    join(root, "closed")
}

} // verus!
