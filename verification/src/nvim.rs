//! What deck takes from a Neovim colour scheme.
//!
//! Neovim has no theme file. A colour scheme is a script, so the only honest
//! way to know what it produced is to run it and ask: a headless nvim with the
//! reader's own config reports the highlight groups deck cares about. Running
//! it is the caller's work. Turning its answer into a palette is the part with
//! opinions in it, and it is here.

use vstd::prelude::*;

use crate::text::same_text;
use crate::theme::{
    Imported, Lacks, Rgb, Syntax, accent_among, colour_named, cuts_a_character, offered,
    pick_accent, somes,
};

verus! {

/// One highlight group, as nvim reported it.
#[derive(Debug, Clone)]
pub struct Group {
    /// What the group writes in.
    pub fg: Option<String>,
    /// What it paints behind.
    pub bg: Option<String>,
}

/// The group called `name` among `groups`: a later report of a name
/// overwrites an earlier one.
pub open spec fn group_for(groups: Seq<(String, Group)>, name: Seq<char>) -> Option<Group>
    decreases groups.len(),
{
    if groups.len() == 0 {
        None
    } else if groups.last().0@ == name {
        Some(groups.last().1)
    } else {
        group_for(groups.drop_last(), name)
    }
}

/// The text of a group's foreground, or of its background.
pub open spec fn side_of(g: Group, fore: bool) -> Option<Seq<char>> {
    match if fore {
        g.fg
    } else {
        g.bg
    } {
        Some(v) => Some(v@),
        None => None,
    }
}

/// The text a group reports on one side, if the group is there.
pub open spec fn reported(groups: Seq<(String, Group)>, name: Seq<char>, fore: bool) -> Option<Seq<char>> {
    match group_for(groups, name) {
        Some(g) => side_of(g, fore),
        None => None,
    }
}

/// The colour a group reports on one side.
pub open spec fn side_colour(groups: Seq<(String, Group)>, name: Seq<char>, fore: bool) -> Option<Rgb> {
    match reported(groups, name, fore) {
        Some(v) => colour_named(v),
        None => None,
    }
}

/// The foreground of a group.
pub open spec fn fg_of(groups: Seq<(String, Group)>, name: Seq<char>) -> Option<Rgb> {
    side_colour(groups, name, true)
}

/// The background of a group.
pub open spec fn bg_of(groups: Seq<(String, Group)>, name: Seq<char>) -> Option<Rgb> {
    side_colour(groups, name, false)
}

/// Everything a scheme has that means *look here*, best first: a search hit,
/// the changed text of a diff, then the special, type, constant and keyword
/// inks, then the selection.
pub open spec fn accents_of(gs: Seq<(String, Group)>) -> Seq<Rgb> {
    somes(
        seq![
            bg_of(gs, "Search"@),
            bg_of(gs, "DiffText"@),
            fg_of(gs, "Special"@),
            fg_of(gs, "Type"@),
            fg_of(gs, "Constant"@),
            fg_of(gs, "Keyword"@),
            bg_of(gs, "Visual"@),
        ],
    )
}

/// What deck imports from nvim's highlight groups: nothing without `Normal`'s
/// two colours, since every surface is computed from the page.
pub open spec fn imported_from(gs: Seq<(String, Group)>) -> Result<Imported, Lacks> {
    match bg_of(gs, "Normal"@) {
        None => Err(Lacks::Background),
        Some(bg) => match fg_of(gs, "Normal"@) {
            None => Err(Lacks::Foreground),
            Some(fg) => Ok(
                Imported {
                    bg,
                    fg,
                    accent: accent_among(bg, fg, accents_of(gs)),
                    comment: fg_of(gs, "Comment"@),
                    add: fg_of(gs, "DiffAdd"@),
                    del: fg_of(gs, "DiffDelete"@),
                    syntax: Syntax {
                        keyword: fg_of(gs, "Keyword"@),
                        string: fg_of(gs, "String"@),
                        function: fg_of(gs, "Function"@),
                        type_: fg_of(gs, "Type"@),
                        literal: fg_of(gs, "Constant"@),
                    },
                },
            ),
        },
    }
}

/// Whether one side of a group can be read as a colour without cutting a
/// character.
pub open spec fn reads_side(gs: Seq<(String, Group)>, name: Seq<char>, fore: bool) -> bool {
    match reported(gs, name, fore) {
        Some(v) => !cuts_a_character(v),
        None => true,
    }
}

/// Whether every colour the import reads can be read without cutting a
/// character in two. A value is read only when the import gets that far.
pub open spec fn safe_to_read(gs: Seq<(String, Group)>) -> bool {
    &&& reads_side(gs, "Normal"@, false)
    &&& bg_of(gs, "Normal"@) is Some ==> reads_side(gs, "Normal"@, true)
    &&& bg_of(gs, "Normal"@) is Some && fg_of(gs, "Normal"@) is Some ==> {
        &&& reads_side(gs, "Search"@, false)
        &&& reads_side(gs, "DiffText"@, false)
        &&& reads_side(gs, "Visual"@, false)
        &&& reads_side(gs, "Special"@, true)
        &&& reads_side(gs, "Type"@, true)
        &&& reads_side(gs, "Constant"@, true)
        &&& reads_side(gs, "Keyword"@, true)
        &&& reads_side(gs, "Comment"@, true)
        &&& reads_side(gs, "DiffAdd"@, true)
        &&& reads_side(gs, "DiffDelete"@, true)
        &&& reads_side(gs, "String"@, true)
        &&& reads_side(gs, "Function"@, true)
    }
}

/// Every highlight group the import reads.
pub open spec fn read_groups() -> Seq<Seq<char>> {
    seq![
        "Normal"@,
        "Search"@,
        "DiffText"@,
        "Special"@,
        "Type"@,
        "Constant"@,
        "Keyword"@,
        "Visual"@,
        "Comment"@,
        "DiffAdd"@,
        "DiffDelete"@,
        "String"@,
        "Function"@,
    ]
}

/// Only the groups deck asks for matter: two answers that report the same
/// groups in [`read_groups`] import the same, whatever else they report.
pub proof fn lemma_only_what_is_read_matters(a: Seq<(String, Group)>, b: Seq<(String, Group)>)
    requires
        forall|i: int| 0 <= i < read_groups().len() ==> group_for(a, #[trigger] read_groups()[i]) == group_for(b, read_groups()[i]),
    ensures
        imported_from(a) == imported_from(b),
{
    let gs = read_groups();
    assert(group_for(a, gs[0]) == group_for(b, gs[0]));
    assert(group_for(a, gs[1]) == group_for(b, gs[1]));
    assert(group_for(a, gs[2]) == group_for(b, gs[2]));
    assert(group_for(a, gs[3]) == group_for(b, gs[3]));
    assert(group_for(a, gs[4]) == group_for(b, gs[4]));
    assert(group_for(a, gs[5]) == group_for(b, gs[5]));
    assert(group_for(a, gs[6]) == group_for(b, gs[6]));
    assert(group_for(a, gs[7]) == group_for(b, gs[7]));
    assert(group_for(a, gs[8]) == group_for(b, gs[8]));
    assert(group_for(a, gs[9]) == group_for(b, gs[9]));
    assert(group_for(a, gs[10]) == group_for(b, gs[10]));
    assert(group_for(a, gs[11]) == group_for(b, gs[11]));
    assert(group_for(a, gs[12]) == group_for(b, gs[12]));
    assert(accents_of(a) == accents_of(b));
}

/// The group called `name`.
fn group<'a>(groups: &'a Vec<(String, Group)>, name: &str) -> (r: Option<&'a Group>)
    ensures
        match r {
            Some(g) => group_for(groups@, name@) == Some(*g),
            None => group_for(groups@, name@) is None,
        },
{
    let mut i: usize = groups.len();
    assert(groups@.take(i as int) =~= groups@);
    while i > 0
        invariant
            i <= groups@.len(),
            group_for(groups@, name@) == group_for(groups@.take(i as int), name@),
        decreases i,
    {
        let ghost pre = groups@.take(i as int);
        assert(pre.last() == groups@[i - 1]);
        assert(pre.drop_last() =~= groups@.take(i - 1));
        if same_text(groups[i - 1].0.as_str(), name) {
            return Some(&groups[i - 1].1);
        }
        i -= 1;
    }
    None
}

/// The colour a group reports on one side.
fn side(groups: &Vec<(String, Group)>, name: &str, fore: bool) -> (r: Option<Rgb>)
    requires
        reads_side(groups@, name@, fore),
    ensures
        r == side_colour(groups@, name@, fore),
{
    match group(groups, name) {
        Some(g) => {
            let v = if fore {
                &g.fg
            } else {
                &g.bg
            };
            match v {
                Some(t) => Rgb::from_hex(t.as_str()),
                None => None,
            }
        },
        None => None,
    }
}

/// Turn nvim's highlight groups into what deck imports.
///
/// Which of the accents a scheme has depends on the scheme, and whether any
/// is usable depends on the colours, so `pick_accent` decides. The diff marks
/// are the groups' ink, not their ground: nvim colours a whole diff line, and
/// deck makes its own ground from the page.
pub fn from_groups(groups: &Vec<(String, Group)>) -> (r: Result<Imported, Lacks>)
    requires
        safe_to_read(groups@),
    ensures
        r == imported_from(groups@),
{
    let bg = match side(groups, "Normal", false) {
        Some(c) => c,
        None => {
            return Err(Lacks::Background);
        },
    };
    let fg = match side(groups, "Normal", true) {
        Some(c) => c,
        None => {
            return Err(Lacks::Foreground);
        },
    };
    let candidates = [
        side(groups, "Search", false),
        side(groups, "DiffText", false),
        side(groups, "Special", true),
        side(groups, "Type", true),
        side(groups, "Constant", true),
        side(groups, "Keyword", true),
        side(groups, "Visual", false),
    ];
    let offers = offered(&candidates);
    assert(candidates@ =~= seq![
        bg_of(groups@, "Search"@),
        bg_of(groups@, "DiffText"@),
        fg_of(groups@, "Special"@),
        fg_of(groups@, "Type"@),
        fg_of(groups@, "Constant"@),
        fg_of(groups@, "Keyword"@),
        bg_of(groups@, "Visual"@),
    ]);
    let accent = pick_accent(bg, fg, &offers);
    Ok(
        Imported {
            bg,
            fg,
            accent,
            comment: side(groups, "Comment", true),
            add: side(groups, "DiffAdd", true),
            del: side(groups, "DiffDelete", true),
            syntax: Syntax {
                keyword: side(groups, "Keyword", true),
                string: side(groups, "String", true),
                function: side(groups, "Function", true),
                type_: side(groups, "Type", true),
                literal: side(groups, "Constant", true),
            },
        },
    )
}

} // verus!
