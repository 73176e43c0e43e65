//! Reading a palette out of Zed.
//!
//! The cheapest of the three, and the reason is one decision Zed made: its
//! theme files name syntax colours with tree-sitter capture names — the same
//! `keyword`, `string`, `function` that deck's own highlighter reports. So
//! there is no mapping.
//!
//! A theme file holds several themes — a light and a dark, usually — and
//! `settings.json` names one by its display name. Finding the files is the
//! caller's work; what the settings say, and what deck takes from a theme, is
//! decided here.

use vstd::prelude::*;

use crate::json::{Found, Seen, found_at, keys, lookup, present, value_for, value_of};
use crate::theme::{
    Imported, Lacks, Rgb, Syntax, accent_among, colour_named, cuts_a_character, offered,
    pick_accent, somes,
};
use crate::vscode::{or_else, strip_comments, stripped};

verus! {

/// One theme of a Zed theme file, as far as deck reads it.
#[derive(Debug, Clone)]
pub struct Theme {
    /// Its display name, which is what the settings name it by.
    pub name: String,
    /// The editor's own colours by key. A value that is not a string is
    /// `None`.
    pub colors: Vec<(String, Option<String>)>,
    /// The syntax colours by capture name, where a capture sets one.
    pub syntax: Vec<(String, Option<String>)>,
}

/// Why a theme was not imported.
#[derive(Debug, Clone, Copy, PartialEq, Eq, Structural)]
pub enum Refused {
    /// The theme lacks something deck cannot paint without.
    Lacks(Lacks),
    /// A theme was asked for by name and is not installed.
    NotInstalled,
}

/// The colour a theme sets for `key`.
pub open spec fn colour_at(t: Theme, key: Seq<char>) -> Option<Rgb> {
    match value_for(t.colors@, key) {
        Some(v) => colour_named(v),
        None => None,
    }
}

/// The colour a theme writes a capture in.
pub open spec fn capture_at(t: Theme, name: Seq<char>) -> Option<Rgb> {
    match value_for(t.syntax@, name) {
        Some(v) => colour_named(v),
        None => None,
    }
}

/// Whether `v` can be read as a colour without cutting a character.
pub open spec fn reads(v: Option<Seq<char>>) -> bool {
    match v {
        Some(t) => !cuts_a_character(t),
        None => true,
    }
}

/// What a Zed theme offers as an accent, best first.
pub open spec fn accents_of(t: Theme) -> Seq<Rgb> {
    somes(
        seq![
            colour_at(t, "players.0.cursor"@),
            colour_at(t, "border.focused"@),
            colour_at(t, "link_text.hover"@),
            capture_at(t, "keyword"@),
        ],
    )
}

/// What deck imports from a Zed theme: nothing without a page and a text
/// colour.
pub open spec fn imported_from(t: Theme) -> Result<Imported, Lacks> {
    match colour_at(t, "editor.background"@) {
        None => Err(Lacks::Background),
        Some(bg) => match colour_at(t, "editor.foreground"@) {
            None => Err(Lacks::Foreground),
            Some(fg) => Ok(
                Imported {
                    bg,
                    fg,
                    accent: accent_among(bg, fg, accents_of(t)),
                    comment: capture_at(t, "comment"@),
                    add: or_else(colour_at(t, "created"@), colour_at(t, "version_control.added"@)),
                    del: or_else(
                        colour_at(t, "deleted"@),
                        colour_at(t, "version_control.deleted"@),
                    ),
                    syntax: Syntax {
                        keyword: capture_at(t, "keyword"@),
                        string: capture_at(t, "string"@),
                        function: capture_at(t, "function"@),
                        type_: capture_at(t, "type"@),
                        literal: or_else(capture_at(t, "number"@), capture_at(t, "constant"@)),
                    },
                },
            ),
        },
    }
}

/// Whether every colour the import reads can be read without cutting a
/// character in two. A value is read only when the import gets that far.
pub open spec fn safe_to_read(t: Theme) -> bool {
    &&& reads(value_for(t.colors@, "editor.background"@))
    &&& colour_at(t, "editor.background"@) is Some ==> reads(
        value_for(t.colors@, "editor.foreground"@),
    )
    &&& colour_at(t, "editor.background"@) is Some && colour_at(t, "editor.foreground"@) is Some
        ==> {
        &&& reads(value_for(t.colors@, "players.0.cursor"@))
        &&& reads(value_for(t.colors@, "border.focused"@))
        &&& reads(value_for(t.colors@, "link_text.hover"@))
        &&& reads(value_for(t.colors@, "created"@))
        &&& colour_at(t, "created"@) is None ==> reads(value_for(t.colors@, "version_control.added"@))
        &&& reads(value_for(t.colors@, "deleted"@))
        &&& colour_at(t, "deleted"@) is None ==> reads(
            value_for(t.colors@, "version_control.deleted"@),
        )
        &&& reads(value_for(t.syntax@, "keyword"@))
        &&& reads(value_for(t.syntax@, "comment"@))
        &&& reads(value_for(t.syntax@, "string"@))
        &&& reads(value_for(t.syntax@, "function"@))
        &&& reads(value_for(t.syntax@, "type"@))
        &&& reads(value_for(t.syntax@, "number"@))
        &&& capture_at(t, "number"@) is None ==> reads(value_for(t.syntax@, "constant"@))
    }
}

/// Every key of a Zed theme's own colours that the import reads.
pub open spec fn read_keys() -> Seq<Seq<char>> {
    seq![
        "editor.background"@,
        "editor.foreground"@,
        "players.0.cursor"@,
        "border.focused"@,
        "link_text.hover"@,
        "created"@,
        "version_control.added"@,
        "deleted"@,
        "version_control.deleted"@,
    ]
}

/// Every capture whose colour the import reads.
pub open spec fn read_captures() -> Seq<Seq<char>> {
    seq![
        "keyword"@,
        "comment"@,
        "string"@,
        "function"@,
        "type"@,
        "number"@,
        "constant"@,
    ]
}

/// Chrome is never imported: two Zed themes that set the same values for
/// the keys in [`read_keys`] and the captures in [`read_captures`] import the
/// same, whatever else they set.
pub proof fn lemma_only_what_is_read_matters(a: Theme, b: Theme)
    requires
        forall|i: int| 0 <= i < read_keys().len() ==> value_for(a.colors@, #[trigger] read_keys()[i]) == value_for(b.colors@, read_keys()[i]),
        forall|i: int| 0 <= i < read_captures().len() ==> value_for(a.syntax@, #[trigger] read_captures()[i]) == value_for(b.syntax@, read_captures()[i]),
    ensures
        imported_from(a) == imported_from(b),
{
    let ks = read_keys();
    let cs = read_captures();
    assert(value_for(a.colors@, ks[0]) == value_for(b.colors@, ks[0]));
    assert(value_for(a.colors@, ks[1]) == value_for(b.colors@, ks[1]));
    assert(value_for(a.colors@, ks[2]) == value_for(b.colors@, ks[2]));
    assert(value_for(a.colors@, ks[3]) == value_for(b.colors@, ks[3]));
    assert(value_for(a.colors@, ks[4]) == value_for(b.colors@, ks[4]));
    assert(value_for(a.colors@, ks[5]) == value_for(b.colors@, ks[5]));
    assert(value_for(a.colors@, ks[6]) == value_for(b.colors@, ks[6]));
    assert(value_for(a.colors@, ks[7]) == value_for(b.colors@, ks[7]));
    assert(value_for(a.colors@, ks[8]) == value_for(b.colors@, ks[8]));
    assert(value_for(a.syntax@, cs[0]) == value_for(b.syntax@, cs[0]));
    assert(value_for(a.syntax@, cs[1]) == value_for(b.syntax@, cs[1]));
    assert(value_for(a.syntax@, cs[2]) == value_for(b.syntax@, cs[2]));
    assert(value_for(a.syntax@, cs[3]) == value_for(b.syntax@, cs[3]));
    assert(value_for(a.syntax@, cs[4]) == value_for(b.syntax@, cs[4]));
    assert(value_for(a.syntax@, cs[5]) == value_for(b.syntax@, cs[5]));
    assert(value_for(a.syntax@, cs[6]) == value_for(b.syntax@, cs[6]));
    assert(accents_of(a) == accents_of(b));
}

/// The colour set for `key` among `entries`.
fn colour_in(entries: &Vec<(String, Option<String>)>, key: &str) -> (r: Option<Rgb>)
    requires
        reads(value_for(entries@, key@)),
    ensures
        r == match value_for(entries@, key@) {
            Some(v) => colour_named(v),
            None => None,
        },
{
    match value_of(entries, key) {
        Some(v) => Rgb::from_hex(v.as_str()),
        None => None,
    }
}

/// Turn a Zed theme into what deck imports.
///
/// The syntax colours are named the same as deck's own highlighter reports
/// them, which is the whole reason this is short.
pub fn from_theme(theme: &Theme) -> (r: Result<Imported, Lacks>)
    requires
        safe_to_read(*theme),
    ensures
        r == imported_from(*theme),
{
    let bg = match colour_in(&theme.colors, "editor.background") {
        Some(c) => c,
        None => {
            return Err(Lacks::Background);
        },
    };
    let fg = match colour_in(&theme.colors, "editor.foreground") {
        Some(c) => c,
        None => {
            return Err(Lacks::Foreground);
        },
    };
    let candidates = [
        colour_in(&theme.colors, "players.0.cursor"),
        colour_in(&theme.colors, "border.focused"),
        colour_in(&theme.colors, "link_text.hover"),
        colour_in(&theme.syntax, "keyword"),
    ];
    let offers = offered(&candidates);
    assert(candidates@ =~= seq![
        colour_at(*theme, "players.0.cursor"@),
        colour_at(*theme, "border.focused"@),
        colour_at(*theme, "link_text.hover"@),
        capture_at(*theme, "keyword"@),
    ]);
    let accent = pick_accent(bg, fg, &offers);
    let add = match colour_in(&theme.colors, "created") {
        Some(c) => Some(c),
        None => colour_in(&theme.colors, "version_control.added"),
    };
    let del = match colour_in(&theme.colors, "deleted") {
        Some(c) => Some(c),
        None => colour_in(&theme.colors, "version_control.deleted"),
    };
    let literal = match colour_in(&theme.syntax, "number") {
        Some(c) => Some(c),
        None => colour_in(&theme.syntax, "constant"),
    };
    Ok(
        Imported {
            bg,
            fg,
            accent,
            comment: colour_in(&theme.syntax, "comment"),
            add,
            del,
            syntax: Syntax {
                keyword: colour_in(&theme.syntax, "keyword"),
                string: colour_in(&theme.syntax, "string"),
                function: colour_in(&theme.syntax, "function"),
                type_: colour_in(&theme.syntax, "type"),
                literal,
            },
        },
    )
}

/// Zed's own default, which is not a file: One Dark or One Light.
///
/// They are compiled into the Zed binary rather than shipped as theme files,
/// so an installation nobody has themed has nothing on disk to read. These
/// values are the ones an installed Zed carries for them; they will drift
/// when Zed retunes One.
pub open spec fn one_of(dark: bool) -> Imported {
    if dark {
        Imported {
            bg: Rgb { r: 0x28, g: 0x2c, b: 0x33 },
            fg: Rgb { r: 0xac, g: 0xb2, b: 0xbe },
            accent: Rgb { r: 0x74, g: 0xad, b: 0xe8 },
            comment: Some(Rgb { r: 0x5d, g: 0x63, b: 0x6f }),
            add: Some(Rgb { r: 0xa1, g: 0xc1, b: 0x81 }),
            del: Some(Rgb { r: 0xd0, g: 0x72, b: 0x77 }),
            syntax: Syntax {
                keyword: Some(Rgb { r: 0xb4, g: 0x77, b: 0xcf }),
                string: Some(Rgb { r: 0xa1, g: 0xc1, b: 0x81 }),
                function: Some(Rgb { r: 0x73, g: 0xad, b: 0xe9 }),
                type_: Some(Rgb { r: 0x6e, g: 0xb4, b: 0xbf }),
                literal: Some(Rgb { r: 0xbf, g: 0x95, b: 0x6a }),
            },
        }
    } else {
        Imported {
            bg: Rgb { r: 0xfa, g: 0xfa, b: 0xfa },
            fg: Rgb { r: 0x24, g: 0x25, b: 0x29 },
            accent: Rgb { r: 0x5c, g: 0x78, b: 0xe2 },
            comment: Some(Rgb { r: 0xa2, g: 0xa3, b: 0xa7 }),
            add: Some(Rgb { r: 0x66, g: 0x9f, b: 0x59 }),
            del: Some(Rgb { r: 0xd3, g: 0x61, b: 0x51 }),
            syntax: Syntax {
                keyword: Some(Rgb { r: 0xa4, g: 0x49, b: 0xab }),
                string: Some(Rgb { r: 0x64, g: 0x9f, b: 0x57 }),
                function: Some(Rgb { r: 0x5b, g: 0x79, b: 0xe3 }),
                type_: Some(Rgb { r: 0x38, g: 0x82, b: 0xb7 }),
                literal: Some(Rgb { r: 0xad, g: 0x6e, b: 0x25 }),
            },
        }
    }
}

/// Zed's own default for a machine that is dark, or is not.
pub fn one(dark: bool) -> (r: Imported)
    ensures
        r == one_of(dark),
{
    if dark {
        Imported {
            bg: Rgb::new(0x28, 0x2c, 0x33),
            fg: Rgb::new(0xac, 0xb2, 0xbe),
            accent: Rgb::new(0x74, 0xad, 0xe8),
            comment: Some(Rgb::new(0x5d, 0x63, 0x6f)),
            add: Some(Rgb::new(0xa1, 0xc1, 0x81)),
            del: Some(Rgb::new(0xd0, 0x72, 0x77)),
            syntax: Syntax {
                keyword: Some(Rgb::new(0xb4, 0x77, 0xcf)),
                string: Some(Rgb::new(0xa1, 0xc1, 0x81)),
                function: Some(Rgb::new(0x73, 0xad, 0xe9)),
                type_: Some(Rgb::new(0x6e, 0xb4, 0xbf)),
                literal: Some(Rgb::new(0xbf, 0x95, 0x6a)),
            },
        }
    } else {
        Imported {
            bg: Rgb::new(0xfa, 0xfa, 0xfa),
            fg: Rgb::new(0x24, 0x25, 0x29),
            accent: Rgb::new(0x5c, 0x78, 0xe2),
            comment: Some(Rgb::new(0xa2, 0xa3, 0xa7)),
            add: Some(Rgb::new(0x66, 0x9f, 0x59)),
            del: Some(Rgb::new(0xd3, 0x61, 0x51)),
            syntax: Syntax {
                keyword: Some(Rgb::new(0xa4, 0x49, 0xab)),
                string: Some(Rgb::new(0x64, 0x9f, 0x57)),
                function: Some(Rgb::new(0x5b, 0x79, 0xe3)),
                type_: Some(Rgb::new(0x38, 0x82, 0xb7)),
                literal: Some(Rgb::new(0xad, 0x6e, 0x25)),
            },
        }
    }
}

/// The theme Zed settings name, if they name one.
///
/// Zed's `theme` is either a name, or an object with a `light`, a `dark` and
/// a `mode`; the object is asked for the mode it says it is in, `dark` when it
/// says none, and failing that for its dark theme and then its light one. The
/// first of those keys that is there decides, and it names a theme only if it
/// holds a string.
pub open spec fn chosen_in(settings: Seq<char>) -> Option<Seq<char>> {
    let t = stripped(settings);
    theme_of(
        found_at(t, seq!["theme"@]),
        found_at(t, seq!["theme"@, mode_key(found_at(t, seq!["theme"@, "mode"@]))]),
        found_at(t, seq!["theme"@, "dark"@]),
        found_at(t, seq!["theme"@, "light"@]),
    )
}

/// The key the object form asks for first: the mode it says it is in, or
/// `dark` when it says none.
pub open spec fn mode_key(mode: Seen) -> Seq<char> {
    match mode {
        Seen::Text(m) => m,
        _ => "dark"@,
    }
}

/// The theme the settings' `theme` names, from what they hold there (`whole`)
/// and, when that is an object, under the mode's key, `dark` and `light`: a
/// name names itself; of an object, the first of the three keys that is there
/// decides, and it names a theme only if it holds a string.
pub open spec fn theme_of(whole: Seen, in_mode: Seen, dark: Seen, light: Seen) -> Option<Seq<char>> {
    match whole {
        Seen::Text(name) => Some(name),
        Seen::Other => {
            let pick = if present(in_mode) {
                in_mode
            } else if present(dark) {
                dark
            } else {
                light
            };
            match pick {
                Seen::Text(name) => Some(name),
                _ => None,
            }
        },
        _ => None,
    }
}

/// The key the object form asks for first.
pub fn key_for_mode(mode: Found) -> (r: String)
    ensures
        r@ == mode_key(mode@),
{
    match mode {
        Found::Text(m) => m,
        _ => string_from("dark"),
    }
}

/// The theme the settings name, from what they hold at each place.
pub fn theme_from(whole: Found, in_mode: Found, dark: Found, light: Found) -> (r: Option<String>)
    ensures
        match r {
            Some(name) => theme_of(whole@, in_mode@, dark@, light@) == Some(name@),
            None => theme_of(whole@, in_mode@, dark@, light@) is None,
        },
{
    match whole {
        Found::Text(name) => Some(name),
        Found::Other => {
            let pick = match in_mode {
                Found::Text(_) | Found::Other => in_mode,
                _ => match dark {
                    Found::Text(_) | Found::Other => dark,
                    _ => light,
                },
            };
            match pick {
                Found::Text(name) => Some(name),
                _ => None,
            }
        },
        _ => None,
    }
}

/// The theme named in Zed `settings`.
pub fn chosen(settings: &str) -> (r: Option<String>)
    ensures
        match r {
            Some(name) => chosen_in(settings@) == Some(name@),
            None => chosen_in(settings@) is None,
        },
{
    let text = strip_comments(settings);
    let whole: [&str; 1] = ["theme"];
    assert(keys(whole@) =~= seq!["theme"@]);
    let asked: [&str; 2] = ["theme", "mode"];
    assert(keys(asked@) =~= seq!["theme"@, "mode"@]);
    let mode = key_for_mode(lookup(text.as_str(), &asked));
    let in_mode: [&str; 2] = ["theme", mode.as_str()];
    assert(keys(in_mode@) =~= seq!["theme"@, mode@]);
    let dark: [&str; 2] = ["theme", "dark"];
    assert(keys(dark@) =~= seq!["theme"@, "dark"@]);
    let light: [&str; 2] = ["theme", "light"];
    assert(keys(light@) =~= seq!["theme"@, "light"@]);
    theme_from(
        lookup(text.as_str(), &whole),
        lookup(text.as_str(), &in_mode),
        lookup(text.as_str(), &dark),
        lookup(text.as_str(), &light),
    )
}

/// A string holding `s`.
fn string_from(s: &str) -> (r: String)
    ensures
        r@ == s@,
{
    let v = crate::text::chars_of(s);
    crate::text::string_of(&v)
}

/// The name of the default Zed shows for a machine that is dark, or is not.
pub fn default_name(dark: bool) -> (r: &'static str)
    ensures
        r@ == if dark {
            "One Dark"@
        } else {
            "One Light"@
        },
{
    if dark {
        "One Dark"
    } else {
        "One Light"
    }
}

/// The theme to look for: the one asked for by name, else the one the
/// settings name, else Zed's own default when it is installed as a file.
///
/// `settings` is the text of Zed's settings, when they could be read, and
/// `default_there` says whether the default for this machine is installed.
pub fn wanted(named: Option<&str>, settings: Option<&str>, dark: bool, default_there: bool) -> (r:
    Option<String>)
    ensures
        match named {
            Some(n) => r matches Some(w) && w@ == n@,
            None => {
                let from_settings = match settings {
                    Some(t) => chosen_in(t@),
                    None => None,
                };
                match from_settings {
                    Some(c) => r matches Some(w) && w@ == c,
                    None => if default_there {
                        r matches Some(w) && w@ == (if dark {
                            "One Dark"@
                        } else {
                            "One Light"@
                        })
                    } else {
                        r is None
                    },
                }
            },
        },
{
    match named {
        Some(n) => Some(string_from(n)),
        None => {
            let from_settings = match settings {
                Some(t) => chosen(t),
                None => None,
            };
            match from_settings {
                Some(c) => Some(c),
                None => if default_there {
                    Some(string_from(default_name(dark)))
                } else {
                    None
                },
            }
        },
    }
}

/// What comes of looking for the wanted theme.
///
/// With no theme wanted there is nothing to borrow: Zed's own defaults live
/// inside its binary, not on disk, and deck uses its own palette. A theme
/// that was found is imported. One that was not is refused if it was asked
/// for by name; otherwise it was Zed's default, and what Zed itself would
/// show is its built-in of the same appearance.
pub fn settle(wanted: bool, found: Option<&Theme>, asked: bool, dark: bool) -> (r: Result<
    Option<Imported>,
    Refused,
>)
    requires
        found matches Some(t) ==> safe_to_read(*t),
    ensures
        r == if !wanted {
            Ok::<Option<Imported>, Refused>(None)
        } else {
            match found {
                Some(t) => match imported_from(*t) {
                    Ok(i) => Ok(Some(i)),
                    Err(l) => Err(Refused::Lacks(l)),
                },
                None => if asked {
                    Err(Refused::NotInstalled)
                } else {
                    Ok(Some(one_of(dark)))
                },
            }
        },
{
    if !wanted {
        return Ok(None);
    }
    match found {
        Some(t) => match from_theme(t) {
            Ok(i) => Ok(Some(i)),
            Err(l) => Err(Refused::Lacks(l)),
        },
        None => if asked {
            Err(Refused::NotInstalled)
        } else {
            Ok(Some(one(dark)))
        },
    }
}

} // verus!
