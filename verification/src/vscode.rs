//! Reading a palette out of VS Code, and the editors built on it.
//!
//! `settings.json` names a theme by its label, and every extension's manifest
//! declares the labels it contributes; finding the files is the caller's work.
//! What is decided here is what the settings say, which theme a label means,
//! and what deck takes from a theme once it has one.
//!
//! # Comments in the settings
//!
//! VS Code's settings are JSONC: JSON with comments and trailing commas. They
//! are stripped before the JSON is read, by a scan that knows where strings
//! are, so a Windows path full of `\\` and a URL full of `//` come through.
//!
//! # Scopes
//!
//! A theme's syntax colours are TextMate scopes, and a scope is a dotted path
//! whose prefixes match: a rule for `string` colours `string.quoted.double`
//! unless something more specific claims it. Longest prefix wins, and of two
//! rules as long, the later one.

use vstd::prelude::*;

use crate::home::{join, joined};
use crate::json::{Found, Seen, found_at, keys, lookup, value_for, value_of};
use crate::text::{
    Seps, chars_of, pieces, same, space, split_by, string_of, trim_all, trim_start,
    trimmed, views_of,
};
use crate::theme::{
    HALF_LUMA, Imported, Lacks, Rgb, Syntax, accent_among, colour_named, cuts_a_character,
    luma_of, offered, pick_accent, somes,
};

verus! {

/// Where a scan of settings text stands.
#[derive(Debug, Clone, Copy, PartialEq, Eq, Structural)]
pub enum Lex {
    /// Outside strings and comments.
    Plain,
    /// Inside a string.
    Quoted,
    /// Inside a string, just after a backslash.
    Escaped,
    /// Inside a `//` comment.
    Line,
    /// Inside a `/* */` comment.
    Block,
    /// Inside a `/* */` comment, just after a `*`.
    Starred,
}

/// What the scan keeps of `s` from position `i` on, starting in state `at`.
///
/// Strings are kept whole, escapes and all. A line comment goes up to its
/// newline, which is kept; a block comment goes up to the first `*/` after
/// its opening. Everything else is kept.
pub open spec fn kept(s: Seq<char>, i: int, at: Lex) -> Seq<char>
    decreases s.len() - i,
{
    if i < 0 || i >= s.len() {
        Seq::empty()
    } else {
        let c = s[i];
        match at {
            Lex::Plain => if c == '"' {
                seq![c] + kept(s, i + 1, Lex::Quoted)
            } else if c == '/' && i + 1 < s.len() && s[i + 1] == '/' {
                kept(s, i + 1, Lex::Line)
            } else if c == '/' && i + 1 < s.len() && s[i + 1] == '*' {
                kept(s, i + 2, Lex::Block)
            } else {
                seq![c] + kept(s, i + 1, Lex::Plain)
            },
            Lex::Quoted => seq![c] + kept(
                s,
                i + 1,
                if c == '\\' {
                    Lex::Escaped
                } else if c == '"' {
                    Lex::Plain
                } else {
                    Lex::Quoted
                },
            ),
            Lex::Escaped => seq![c] + kept(s, i + 1, Lex::Quoted),
            Lex::Line => if c == '\n' {
                seq![c] + kept(s, i + 1, Lex::Plain)
            } else {
                kept(s, i + 1, Lex::Line)
            },
            Lex::Block => kept(
                s,
                i + 1,
                if c == '*' {
                    Lex::Starred
                } else {
                    Lex::Block
                },
            ),
            Lex::Starred => if c == '/' {
                kept(s, i + 1, Lex::Plain)
            } else if c == '*' {
                kept(s, i + 1, Lex::Starred)
            } else {
                kept(s, i + 1, Lex::Block)
            },
        }
    }
}

/// Whether `t`, past its leading white space, closes an object or a list.
pub open spec fn closes(t: Seq<char>) -> bool {
    let u = trim_start(t);
    u.len() > 0 && (u[0] == '}' || u[0] == ']')
}

/// What the comma pass keeps of `s` from position `i` on, starting in state
/// `at`: everything but the commas that JSONC allows and JSON does not —
/// those outside strings with nothing but white space between them and a `}`
/// or a `]`. Strings are kept whole.
pub open spec fn uncomma(s: Seq<char>, i: int, at: Lex) -> Seq<char>
    decreases s.len() - i,
{
    if i < 0 || i >= s.len() {
        Seq::empty()
    } else {
        let c = s[i];
        match at {
            Lex::Quoted => seq![c] + uncomma(
                s,
                i + 1,
                if c == '\\' {
                    Lex::Escaped
                } else if c == '"' {
                    Lex::Plain
                } else {
                    Lex::Quoted
                },
            ),
            Lex::Escaped => seq![c] + uncomma(s, i + 1, Lex::Quoted),
            _ => if c == ',' && closes(s.skip(i + 1)) {
                uncomma(s, i + 1, Lex::Plain)
            } else if c == '"' {
                seq![c] + uncomma(s, i + 1, Lex::Quoted)
            } else {
                seq![c] + uncomma(s, i + 1, Lex::Plain)
            },
        }
    }
}

/// `s` with its comments and trailing commas taken out.
pub open spec fn stripped(s: Seq<char>) -> Seq<char> {
    uncomma(kept(s, 0, Lex::Plain), 0, Lex::Plain)
}

proof fn lemma_no_slash_kept(s: Seq<char>, i: int, at: Lex)
    requires
        0 <= i <= s.len(),
        at == Lex::Plain || at == Lex::Quoted || at == Lex::Escaped,
        forall|j: int| i <= j < s.len() ==> s[j] != '/',
    ensures
        kept(s, i, at) == s.skip(i),
    decreases s.len() - i,
{
    if i == s.len() {
        assert(s.skip(i) =~= Seq::<char>::empty());
    } else {
        let c = s[i];
        let next = match at {
            Lex::Plain => if c == '"' {
                Lex::Quoted
            } else {
                Lex::Plain
            },
            Lex::Quoted => if c == '\\' {
                Lex::Escaped
            } else if c == '"' {
                Lex::Plain
            } else {
                Lex::Quoted
            },
            _ => Lex::Quoted,
        };
        lemma_no_slash_kept(s, i + 1, next);
        assert(kept(s, i, at) == seq![c] + kept(s, i + 1, next));
        assert(s.skip(i) =~= seq![c] + s.skip(i + 1));
    }
}

proof fn lemma_no_comma_kept(s: Seq<char>, i: int, at: Lex)
    requires
        0 <= i <= s.len(),
        at == Lex::Plain || at == Lex::Quoted || at == Lex::Escaped,
        forall|j: int| 0 <= j < s.len() ==> s[j] != ',',
    ensures
        uncomma(s, i, at) == s.skip(i),
    decreases s.len() - i,
{
    if i == s.len() {
        assert(s.skip(i) =~= Seq::<char>::empty());
    } else {
        let c = s[i];
        let next = match at {
            Lex::Quoted => if c == '\\' {
                Lex::Escaped
            } else if c == '"' {
                Lex::Plain
            } else {
                Lex::Quoted
            },
            Lex::Escaped => Lex::Quoted,
            _ => if c == '"' {
                Lex::Quoted
            } else {
                Lex::Plain
            },
        };
        lemma_no_comma_kept(s, i + 1, next);
        assert(uncomma(s, i, at) == seq![c] + uncomma(s, i + 1, next));
        assert(s.skip(i) =~= seq![c] + s.skip(i + 1));
    }
}

/// Text with no `/` has no comment in it, and text with no `,` no trailing
/// comma: such text comes out of the strip exactly as it went in, strings and
/// all.
pub proof fn lemma_plain_text_is_untouched(s: Seq<char>)
    requires
        forall|j: int| 0 <= j < s.len() ==> s[j] != '/' && s[j] != ',',
    ensures
        stripped(s) == s,
{
    lemma_no_slash_kept(s, 0, Lex::Plain);
    assert(s.skip(0) =~= s);
    lemma_no_comma_kept(s, 0, Lex::Plain);
}

/// Whether, reading inside a string from position `k`, the string closes at
/// `j`: every backslash takes the character after it, and the first quote not
/// taken that way is at `j`.
pub open spec fn closes_at(s: Seq<char>, k: int, j: int) -> bool
    decreases j - k,
{
    if k < 0 || j >= s.len() || k > j {
        false
    } else if k == j {
        s[j] == '"'
    } else if s[k] == '\\' {
        k + 1 < j && closes_at(s, k + 2, j)
    } else {
        s[k] != '"' && closes_at(s, k + 1, j)
    }
}

proof fn lemma_quoted_kept(s: Seq<char>, k: int, j: int)
    requires
        closes_at(s, k, j),
    ensures
        kept(s, k, Lex::Quoted) == s.subrange(k, j + 1) + kept(s, j + 1, Lex::Plain),
    decreases j - k,
{
    if k == j {
        assert(s.subrange(k, j + 1) =~= seq![s[k]]);
    } else if s[k] == '\\' {
        lemma_quoted_kept(s, k + 2, j);
        assert(kept(s, k, Lex::Quoted) == seq![s[k]] + kept(s, k + 1, Lex::Escaped));
        assert(kept(s, k + 1, Lex::Escaped) == seq![s[k + 1]] + kept(s, k + 2, Lex::Quoted));
        assert(s.subrange(k, j + 1) =~= seq![s[k]] + seq![s[k + 1]] + s.subrange(k + 2, j + 1));
    } else {
        lemma_quoted_kept(s, k + 1, j);
        assert(s.subrange(k, j + 1) =~= seq![s[k]] + s.subrange(k + 1, j + 1));
    }
}

/// Nothing inside a string is taken for a comment: a string that opens at
/// `i` and closes at `j` comes out of the scan exactly as it went in — a
/// Windows path full of `\\`, a URL full of `//` — and the scan goes on
/// after it as it would after any other text.
pub proof fn lemma_strings_pass_through(s: Seq<char>, i: int, j: int)
    requires
        0 <= i < s.len(),
        s[i] == '"',
        closes_at(s, i + 1, j),
    ensures
        kept(s, i, Lex::Plain) == s.subrange(i, j + 1) + kept(s, j + 1, Lex::Plain),
{
    lemma_quoted_kept(s, i + 1, j);
    assert(s.subrange(i, j + 1) =~= seq![s[i]] + s.subrange(i + 1, j + 1));
}

proof fn lemma_quoted_uncomma(s: Seq<char>, k: int, j: int)
    requires
        closes_at(s, k, j),
    ensures
        uncomma(s, k, Lex::Quoted) == s.subrange(k, j + 1) + uncomma(s, j + 1, Lex::Plain),
    decreases j - k,
{
    if k == j {
        assert(s.subrange(k, j + 1) =~= seq![s[k]]);
    } else if s[k] == '\\' {
        lemma_quoted_uncomma(s, k + 2, j);
        assert(uncomma(s, k, Lex::Quoted) == seq![s[k]] + uncomma(s, k + 1, Lex::Escaped));
        assert(uncomma(s, k + 1, Lex::Escaped) == seq![s[k + 1]] + uncomma(s, k + 2, Lex::Quoted));
        assert(s.subrange(k, j + 1) =~= seq![s[k]] + seq![s[k + 1]] + s.subrange(k + 2, j + 1));
    } else {
        lemma_quoted_uncomma(s, k + 1, j);
        assert(s.subrange(k, j + 1) =~= seq![s[k]] + s.subrange(k + 1, j + 1));
    }
}

/// The comma pass keeps strings whole too: a string that opens at `i` and
/// closes at `j`, commas, brackets and all, comes out exactly as it went in.
/// With the comment pass keeping them whole as well, every string literal of
/// the settings passes through the strip byte for byte.
pub proof fn lemma_strings_keep_their_commas(s: Seq<char>, i: int, j: int)
    requires
        0 <= i < s.len(),
        s[i] == '"',
        closes_at(s, i + 1, j),
    ensures
        uncomma(s, i, Lex::Plain) == s.subrange(i, j + 1) + uncomma(s, j + 1, Lex::Plain),
{
    lemma_quoted_uncomma(s, i + 1, j);
    assert(!(s[i] == ',' && closes(s.skip(i + 1))));
    assert(s.subrange(i, j + 1) =~= seq![s[i]] + s.subrange(i + 1, j + 1));
}

/// Whether what follows position `from` of `v` closes an object or a list.
fn closes_from(v: &Vec<char>, from: usize) -> (r: bool)
    requires
        from <= v@.len(),
    ensures
        r == closes(v@.skip(from as int)),
{
    let mut j = from;
    while j < v.len() && space(v[j])
        invariant
            from <= j <= v@.len(),
            trim_start(v@.skip(from as int)) == trim_start(v@.skip(j as int)),
        decreases v@.len() - j,
    {
        assert(v@.skip(j as int).drop_first() =~= v@.skip(j + 1));
        j += 1;
    }
    if j < v.len() {
        assert(v@.skip(j as int)[0] == v@[j as int]);
        v[j] == '}' || v[j] == ']'
    } else {
        assert(v@.skip(j as int).len() == 0);
        false
    }
}

/// `v` without its trailing commas.
fn without_trailing_commas(v: &Vec<char>) -> (r: Vec<char>)
    ensures
        r@ == uncomma(v@, 0, Lex::Plain),
{
    let mut out: Vec<char> = Vec::new();
    let mut at = Lex::Plain;
    let mut i: usize = 0;
    while i < v.len()
        invariant
            i <= v@.len(),
            at == Lex::Plain || at == Lex::Quoted || at == Lex::Escaped,
            out@ + uncomma(v@, i as int, at) == uncomma(v@, 0, Lex::Plain),
        decreases v@.len() - i,
    {
        let c = v[i];
        let ghost before = out@;
        match at {
            Lex::Quoted => {
                out.push(c);
                if c == '\\' {
                    at = Lex::Escaped;
                } else if c == '"' {
                    at = Lex::Plain;
                }
            },
            Lex::Escaped => {
                out.push(c);
                at = Lex::Quoted;
            },
            _ => {
                if c == ',' && closes_from(v, i + 1) {
                } else {
                    out.push(c);
                    if c == '"' {
                        at = Lex::Quoted;
                    } else {
                        at = Lex::Plain;
                    }
                }
            },
        }
        i += 1;
        proof {
            if out@.len() > before.len() {
                assert(out@ =~= before + seq![c]);
                assert(out@ + uncomma(v@, i as int, at) =~= before + (seq![c] + uncomma(
                    v@,
                    i as int,
                    at,
                )));
            } else {
                assert(out@ =~= before);
            }
        }
    }
    assert(uncomma(v@, i as int, at) =~= Seq::<char>::empty());
    assert(out@ + Seq::<char>::empty() =~= out@);
    out
}

/// `text` with its comments taken out, and the trailing commas JSONC allows.
///
/// Line and block comments, and never inside a string: a Windows path in a
/// setting is full of `\\`, and a URL is full of `//`.
pub fn strip_comments(text: &str) -> (r: String)
    ensures
        r@ == stripped(text@),
{
    let s = chars_of(text);
    let mut out: Vec<char> = Vec::new();
    let mut at = Lex::Plain;
    let mut i: usize = 0;
    while i < s.len()
        invariant
            i <= s@.len(),
            s@ == text@,
            out@ + kept(s@, i as int, at) == kept(s@, 0, Lex::Plain),
        decreases s@.len() - i,
    {
        let c = s[i];
        let ghost before = out@;
        match at {
            Lex::Plain => {
                if c == '"' {
                    out.push(c);
                    at = Lex::Quoted;
                    i += 1;
                } else if c == '/' && i + 1 < s.len() && s[i + 1] == '/' {
                    at = Lex::Line;
                    i += 1;
                } else if c == '/' && i + 1 < s.len() && s[i + 1] == '*' {
                    at = Lex::Block;
                    i += 2;
                } else {
                    out.push(c);
                    i += 1;
                }
            },
            Lex::Quoted => {
                out.push(c);
                if c == '\\' {
                    at = Lex::Escaped;
                } else if c == '"' {
                    at = Lex::Plain;
                }
                i += 1;
            },
            Lex::Escaped => {
                out.push(c);
                at = Lex::Quoted;
                i += 1;
            },
            Lex::Line => {
                if c == '\n' {
                    out.push(c);
                    at = Lex::Plain;
                }
                i += 1;
            },
            Lex::Block => {
                if c == '*' {
                    at = Lex::Starred;
                }
                i += 1;
            },
            Lex::Starred => {
                if c == '/' {
                    at = Lex::Plain;
                } else if c != '*' {
                    at = Lex::Block;
                }
                i += 1;
            },
        }
        proof {
            if out@.len() > before.len() {
                assert(out@ =~= before + seq![c]);
                assert(out@ + kept(s@, i as int, at) =~= before + (seq![c] + kept(
                    s@,
                    i as int,
                    at,
                )));
            } else {
                assert(out@ =~= before);
            }
        }
    }
    assert(kept(s@, i as int, at) =~= Seq::<char>::empty());
    assert(out@ + Seq::<char>::empty() =~= out@);
    let cleaned = without_trailing_commas(&out);
    string_of(&cleaned)
}

/// The theme that VS Code settings name, if they name one: the string under
/// `workbench.colorTheme` in the settings once their comments are out.
pub open spec fn chosen_in(settings: Seq<char>) -> Option<Seq<char>> {
    match found_at(stripped(settings), seq!["workbench.colorTheme"@]) {
        Seen::Text(name) => Some(name),
        _ => None,
    }
}

/// The theme named in `settings`, if one is.
///
/// Settings that name no theme are the ordinary case: an editor left on its
/// own default writes nothing down.
pub fn chosen(settings: &str) -> (r: Option<String>)
    ensures
        match r {
            Some(name) => chosen_in(settings@) == Some(name@),
            None => chosen_in(settings@) is None,
        },
{
    let text = strip_comments(settings);
    let path: [&str; 1] = ["workbench.colorTheme"];
    assert(keys(path@) =~= seq!["workbench.colorTheme"@]);
    chosen_from(lookup(text.as_str(), &path))
}

/// The theme named by what the settings hold under `workbench.colorTheme`:
/// a string names one, and anything else names none.
pub fn chosen_from(found: Found) -> (r: Option<String>)
    ensures
        match r {
            Some(name) => found@ == Seen::Text(name@),
            None => !(found@ is Text),
        },
{
    match found {
        Found::Text(name) => Some(name),
        _ => None,
    }
}


/// One rule of a theme's syntax colours: the scopes it names, and the colour
/// it writes them in.
#[derive(Debug, Clone)]
pub struct Token {
    /// Each scope string, as the theme wrote it: one string may list several,
    /// comma separated.
    pub scopes: Vec<String>,
    /// The colour, if the rule sets one.
    pub foreground: Option<String>,
}

/// A theme file, as far as deck reads it.
#[derive(Debug, Clone)]
pub struct Theme {
    /// The editor's own colours by key, in the order the file gives them.
    /// A value that is not a string is `None`: a real theme does not always
    /// keep the promise its schema makes.
    pub colors: Vec<(String, Option<String>)>,
    /// The syntax rules, top to bottom.
    pub tokens: Vec<Token>,
    /// The theme this one is a patch on, by relative path.
    pub based_on: Option<String>,
}

/// The colour a theme sets for `key`, if it sets one that reads as a colour.
pub open spec fn colour_at(t: Theme, key: Seq<char>) -> Option<Rgb> {
    match value_for(t.colors@, key) {
        Some(v) => colour_named(v),
        None => None,
    }
}

/// Whether the value set for `key` can be read as a colour without cutting a
/// character in two.
pub open spec fn reads_at(t: Theme, key: Seq<char>) -> bool {
    match value_for(t.colors@, key) {
        Some(v) => !cuts_a_character(v),
        None => true,
    }
}

/// The colour a rule writes in, if it has one.
pub open spec fn ink(t: Token) -> Option<Rgb> {
    match t.foreground {
        Some(f) => colour_named(f@),
        None => None,
    }
}

/// The scopes one scope string names: split at commas, each trimmed.
pub open spec fn named_by(scope: Seq<char>) -> Seq<Seq<char>> {
    trim_all(pieces(scope, Seps::Comma))
}

/// Each scope `scopes` names, with the colour `c`.
pub open spec fn rules_of(scopes: Seq<String>, c: Rgb) -> Seq<(Seq<char>, Rgb)>
    decreases scopes.len(),
{
    if scopes.len() == 0 {
        Seq::empty()
    } else {
        rules_of(scopes.drop_last(), c) + named_by(scopes.last()@).map_values(
            |p: Seq<char>| (p, c),
        )
    }
}

/// Every scope the rules name, with its colour, top to bottom. A rule with no
/// colour names nothing.
pub open spec fn rules(tokens: Seq<Token>) -> Seq<(Seq<char>, Rgb)>
    decreases tokens.len(),
{
    if tokens.len() == 0 {
        Seq::empty()
    } else {
        rules(tokens.drop_last()) + match ink(tokens.last()) {
            Some(c) => rules_of(tokens.last().scopes@, c),
            None => Seq::empty(),
        }
    }
}

/// Whether a rule for `scope` colours `wanted`: the same scope, or one of its
/// prefixes, up to a dot.
pub open spec fn claims(scope: Seq<char>, wanted: Seq<char>) -> bool {
    ||| wanted == scope
    ||| scope.len() < wanted.len() && wanted.take(scope.len() as int) == scope && wanted[scope.len() as int] == '.'
}

/// Whether rule `k` of `rs` is the one that colours `wanted`: it claims it,
/// no claiming rule is longer, and every later claiming rule is shorter.
///
/// Lengths are counted in characters. Every claiming scope is a prefix of
/// `wanted`, so this orders them as their lengths in bytes do.
pub open spec fn wins(rs: Seq<(Seq<char>, Rgb)>, wanted: Seq<char>, k: int) -> bool {
    &&& 0 <= k < rs.len()
    &&& claims(rs[k].0, wanted)
    &&& forall|j: int| 0 <= j < rs.len() && claims(#[trigger] rs[j].0, wanted) ==> rs[j].0.len() <= rs[k].0.len()
    &&& forall|j: int| k < j < rs.len() && claims(#[trigger] rs[j].0, wanted) ==> rs[j].0.len() < rs[k].0.len()
}

/// The colour the rules give `wanted`: the longest claiming rule's, and of
/// two as long, the later one's.
pub open spec fn colour_for(rs: Seq<(Seq<char>, Rgb)>, wanted: Seq<char>) -> Option<Rgb> {
    if exists|k: int| wins(rs, wanted, k) {
        Some(rs[choose|k: int| wins(rs, wanted, k)].1)
    } else {
        None
    }
}

/// Whether every rule's colour can be read without cutting a character.
pub open spec fn inks_read(tokens: Seq<Token>) -> bool {
    forall|i: int|
        0 <= i < tokens.len() ==> match (#[trigger] tokens[i]).foreground {
            Some(f) => !cuts_a_character(f@),
            None => true,
        }
}

/// The scopes and colours of `v`, as text.
pub open spec fn rule_views(v: Seq<(Vec<char>, Rgb)>) -> Seq<(Seq<char>, Rgb)> {
    v.map_values(|r: (Vec<char>, Rgb)| (r.0@, r.1))
}

proof fn lemma_one_winner(rs: Seq<(Seq<char>, Rgb)>, wanted: Seq<char>, a: int, b: int)
    requires
        wins(rs, wanted, a),
        wins(rs, wanted, b),
    ensures
        a == b,
{
    if a < b {
        assert(claims(rs[b].0, wanted));
    } else if b < a {
        assert(claims(rs[a].0, wanted));
    }
}

/// Every scope the rules name, with its colour, top to bottom.
fn all_rules(tokens: &Vec<Token>) -> (r: Vec<(Vec<char>, Rgb)>)
    requires
        inks_read(tokens@),
    ensures
        rule_views(r@) == rules(tokens@),
{
    let mut out: Vec<(Vec<char>, Rgb)> = Vec::new();
    let mut t: usize = 0;
    while t < tokens.len()
        invariant
            t <= tokens@.len(),
            inks_read(tokens@),
            rule_views(out@) == rules(tokens@.take(t as int)),
        decreases tokens@.len() - t,
    {
        let tok = &tokens[t];
        let ghost base = rules(tokens@.take(t as int));
        assert(tokens@.take(t + 1).drop_last() =~= tokens@.take(t as int));
        assert(tokens@.take(t + 1).last() == tokens@[t as int]);
        let colour = match &tok.foreground {
            Some(f) => {
                assert(!cuts_a_character(f@)) by {
                    assert(tokens@[t as int] == *tok);
                }
                Rgb::from_hex(f.as_str())
            },
            None => None,
        };
        assert(colour == ink(*tok));
        if let Some(c) = colour {
            let mut s: usize = 0;
            while s < tok.scopes.len()
                invariant
                    s <= tok.scopes@.len(),
                    rule_views(out@) == base + rules_of(tok.scopes@.take(s as int), c),
                decreases tok.scopes@.len() - s,
            {
                let chars = chars_of(tok.scopes[s].as_str());
                let ps = split_by(&chars, Seps::Comma);
                let ghost named = named_by(tok.scopes@[s as int]@);
                assert(named =~= trim_all(views_of(ps@)));
                let ghost before = rule_views(out@);
                let mut p: usize = 0;
                while p < ps.len()
                    invariant
                        p <= ps@.len(),
                        named.len() == ps@.len(),
                        named == trim_all(views_of(ps@)),
                        rule_views(out@) == before + named.take(p as int).map_values(
                            |q: Seq<char>| (q, c),
                        ),
                    decreases ps@.len() - p,
                {
                    let piece = trimmed(&ps[p]);
                    let ghost old_out = out@;
                    out.push((piece, c));
                    proof {
                        assert(piece@ == named[p as int]);
                        assert(rule_views(out@) =~= rule_views(old_out).push((piece@, c)));
                        assert(named.take(p + 1).map_values(|q: Seq<char>| (q, c)) =~= named.take(
                            p as int,
                        ).map_values(|q: Seq<char>| (q, c)).push((piece@, c)));
                    }
                    p += 1;
                }
                proof {
                    assert(named.take(ps@.len() as int) =~= named);
                    assert(tok.scopes@.take(s + 1).drop_last() =~= tok.scopes@.take(s as int));
                    assert(tok.scopes@.take(s + 1).last() == tok.scopes@[s as int]);
                }
                s += 1;
            }
            assert(tok.scopes@.take(tok.scopes@.len() as int) =~= tok.scopes@);
        } else {
            assert(base + Seq::<(Seq<char>, Rgb)>::empty() =~= base);
        }
        t += 1;
    }
    assert(tokens@.take(tokens@.len() as int) =~= tokens@);
    out
}

/// Whether a rule for `scope` colours `wanted`.
fn claims_exec(scope: &Vec<char>, wanted: &Vec<char>) -> (r: bool)
    ensures
        r == claims(scope@, wanted@),
{
    if same(scope, wanted) {
        return true;
    }
    if scope.len() >= wanted.len() {
        return false;
    }
    let mut i: usize = 0;
    while i < scope.len()
        invariant
            i <= scope@.len() < wanted@.len(),
            forall|j: int| 0 <= j < i ==> scope@[j] == wanted@[j],
        decreases scope@.len() - i,
    {
        if scope[i] != wanted[i] {
            assert(wanted@.take(scope@.len() as int)[i as int] != scope@[i as int]);
            return false;
        }
        i += 1;
    }
    assert(wanted@.take(scope@.len() as int) =~= scope@);
    wanted[scope.len()] == '.'
}

/// The colour a theme gives `wanted`, by TextMate's own rule.
///
/// Longest prefix wins: a rule for `entity.name.function` beats one for
/// `entity`, which is how a theme says two different things about names that
/// share a root. Ties go to the later rule, because a theme is read top to
/// bottom and the last word is the one it meant.
pub fn scope(theme: &Theme, wanted: &str) -> (r: Option<Rgb>)
    requires
        inks_read(theme.tokens@),
    ensures
        r == colour_for(rules(theme.tokens@), wanted@),
{
    let rs = all_rules(&theme.tokens);
    let w = chars_of(wanted);
    let ghost views = rule_views(rs@);
    let mut best: Option<(usize, Rgb)> = None;
    let ghost mut at: int = 0;
    let mut n: usize = 0;
    while n < rs.len()
        invariant
            n <= rs@.len(),
            views == rule_views(rs@),
            views.len() == rs@.len(),
            w@ == wanted@,
            match best {
                None => forall|j: int| 0 <= j < n ==> !claims(#[trigger] views[j].0, w@),
                Some((len, c)) => wins(views.take(n as int), w@, at) && len == views[at].0.len()
                    && c == views[at].1,
            },
        decreases rs@.len() - n,
    {
        let ghost pre = views.take(n as int);
        let ghost post = views.take(n + 1);
        assert(views[n as int] == (rs@[n as int].0@, rs@[n as int].1));
        assert forall|j: int| 0 <= j < n implies post[j] == pre[j] by {}
        assert(post[n as int] == views[n as int]);
        if claims_exec(&rs[n].0, &w) {
            let len = rs[n].0.len();
            let take = match best {
                None => true,
                Some((had, _)) => len >= had,
            };
            if take {
                proof {
                    at = n as int;
                }
                best = Some((len, rs[n].1));
            }
        }
        n += 1;
    }
    assert(views.take(rs@.len() as int) =~= views);
    match best {
        None => {
            assert(!exists|k: int| wins(views, w@, k));
            None
        },
        Some((_, c)) => {
            proof {
                let k = choose|k: int| wins(views, w@, k);
                lemma_one_winner(views, w@, k, at);
            }
            Some(c)
        },
    }
}


/// The colour the rules of `t` give `wanted`.
pub open spec fn scope_in(t: Theme, wanted: Seq<char>) -> Option<Rgb> {
    colour_for(rules(t.tokens@), wanted)
}

/// `a` if it is there, else `b`.
pub open spec fn or_else(a: Option<Rgb>, b: Option<Rgb>) -> Option<Rgb> {
    if a is Some {
        a
    } else {
        b
    }
}

/// The page a theme sets: the editor's background, else its pane's.
pub open spec fn page_of(t: Theme) -> Option<Rgb> {
    or_else(colour_at(t, "editor.background"@), colour_at(t, "editorPane.background"@))
}

/// What a theme writes in on a page of `bg`: the editor's foreground, else
/// the workbench's, else what its rules give `source`, else whatever reads
/// on the page.
pub open spec fn text_of(t: Theme, bg: Rgb) -> Rgb {
    match or_else(
        or_else(colour_at(t, "editor.foreground"@), colour_at(t, "foreground"@)),
        scope_in(t, "source"@),
    ) {
        Some(c) => c,
        None => if luma_of(bg) < HALF_LUMA {
            Rgb { r: 0xdd, g: 0xdd, b: 0xdd }
        } else {
            Rgb { r: 0x33, g: 0x33, b: 0x33 }
        },
    }
}

/// What a theme offers as an accent, best first.
pub open spec fn accents_of(t: Theme) -> Seq<Rgb> {
    somes(
        seq![
            colour_at(t, "editorCursor.foreground"@),
            colour_at(t, "focusBorder"@),
            colour_at(t, "textLink.foreground"@),
            colour_at(t, "editor.findMatchBackground"@),
            scope_in(t, "keyword"@),
            colour_at(t, "editor.selectionBackground"@),
        ],
    )
}

/// What deck imports from a theme: nothing without a page.
pub open spec fn imported_from(t: Theme) -> Result<Imported, Lacks> {
    match page_of(t) {
        None => Err(Lacks::Background),
        Some(bg) => {
            let fg = text_of(t, bg);
            Ok(
                Imported {
                    bg,
                    fg,
                    accent: accent_among(bg, fg, accents_of(t)),
                    comment: scope_in(t, "comment"@),
                    add: colour_at(t, "editorGutter.addedBackground"@),
                    del: colour_at(t, "editorGutter.deletedBackground"@),
                    syntax: Syntax {
                        keyword: scope_in(t, "keyword"@),
                        string: scope_in(t, "string"@),
                        function: scope_in(t, "entity.name.function"@),
                        type_: scope_in(t, "entity.name.type"@),
                        literal: scope_in(t, "constant.numeric"@),
                    },
                },
            )
        },
    }
}

/// Whether every colour the import reads can be read without cutting a
/// character in two. A value is read only when the import gets that far:
/// the pane's background only when the editor's is not set, and nothing past
/// the page when there is no page.
pub open spec fn safe_to_read(t: Theme) -> bool {
    &&& reads_at(t, "editor.background"@)
    &&& colour_at(t, "editor.background"@) is None ==> reads_at(t, "editorPane.background"@)
    &&& page_of(t) is Some ==> {
        &&& reads_at(t, "editor.foreground"@)
        &&& colour_at(t, "editor.foreground"@) is None ==> reads_at(t, "foreground"@)
        &&& inks_read(t.tokens@)
        &&& reads_at(t, "editorCursor.foreground"@)
        &&& reads_at(t, "focusBorder"@)
        &&& reads_at(t, "textLink.foreground"@)
        &&& reads_at(t, "editor.findMatchBackground"@)
        &&& reads_at(t, "editor.selectionBackground"@)
        &&& reads_at(t, "editorGutter.addedBackground"@)
        &&& reads_at(t, "editorGutter.deletedBackground"@)
    }
}

/// The colour a theme sets for `key`.
fn colour(theme: &Theme, key: &str) -> (r: Option<Rgb>)
    requires
        reads_at(*theme, key@),
    ensures
        r == colour_at(*theme, key@),
{
    match value_of(&theme.colors, key) {
        Some(v) => Rgb::from_hex(v.as_str()),
        None => None,
    }
}

/// Turn a theme into what deck imports.
///
/// Three colours are always taken: the page, the text, and one accent. A
/// theme need not say what it writes in — several shipped ones set only a
/// background and let the editor's default supply the rest — so a missing
/// foreground is a gap to fill rather than a theme to refuse. A missing page
/// is refused: every surface deck paints is computed from it.
pub fn from_theme(theme: &Theme) -> (r: Result<Imported, Lacks>)
    requires
        safe_to_read(*theme),
    ensures
        r == imported_from(*theme),
{
    let bg = match colour(theme, "editor.background") {
        Some(c) => c,
        None => match colour(theme, "editorPane.background") {
            Some(c) => c,
            None => {
                return Err(Lacks::Background);
            },
        },
    };
    let fg = match colour(theme, "editor.foreground") {
        Some(c) => c,
        None => match colour(theme, "foreground") {
            Some(c) => c,
            None => match scope(theme, "source") {
                Some(c) => c,
                None => if bg.is_dark() {
                    Rgb::new(0xdd, 0xdd, 0xdd)
                } else {
                    Rgb::new(0x33, 0x33, 0x33)
                },
            },
        },
    };
    let keyword = scope(theme, "keyword");
    let candidates = [
        colour(theme, "editorCursor.foreground"),
        colour(theme, "focusBorder"),
        colour(theme, "textLink.foreground"),
        colour(theme, "editor.findMatchBackground"),
        keyword,
        colour(theme, "editor.selectionBackground"),
    ];
    let offers = offered(&candidates);
    assert(candidates@ =~= seq![
        colour_at(*theme, "editorCursor.foreground"@),
        colour_at(*theme, "focusBorder"@),
        colour_at(*theme, "textLink.foreground"@),
        colour_at(*theme, "editor.findMatchBackground"@),
        scope_in(*theme, "keyword"@),
        colour_at(*theme, "editor.selectionBackground"@),
    ]);
    let accent = pick_accent(bg, fg, &offers);
    Ok(
        Imported {
            bg,
            fg,
            accent,
            comment: scope(theme, "comment"),
            add: colour(theme, "editorGutter.addedBackground"),
            del: colour(theme, "editorGutter.deletedBackground"),
            syntax: Syntax {
                keyword,
                string: scope(theme, "string"),
                function: scope(theme, "entity.name.function"),
                type_: scope(theme, "entity.name.type"),
                literal: scope(theme, "constant.numeric"),
            },
        },
    )
}

/// Every key of a theme's colours that the import reads.
pub open spec fn read_keys() -> Seq<Seq<char>> {
    seq![
        "editor.background"@,
        "editorPane.background"@,
        "editor.foreground"@,
        "foreground"@,
        "editorCursor.foreground"@,
        "focusBorder"@,
        "textLink.foreground"@,
        "editor.findMatchBackground"@,
        "editor.selectionBackground"@,
        "editorGutter.addedBackground"@,
        "editorGutter.deletedBackground"@,
    ]
}

/// Chrome is never imported: two themes that set the same values for the
/// keys in [`read_keys`], with the same syntax rules, import the same, so a
/// theme's status bar, tab strip and every other key it sets make no
/// difference.
pub proof fn lemma_only_what_is_read_matters(a: Theme, b: Theme)
    requires
        a.tokens@ == b.tokens@,
        forall|i: int| 0 <= i < read_keys().len() ==> value_for(a.colors@, #[trigger] read_keys()[i]) == value_for(b.colors@, read_keys()[i]),
    ensures
        imported_from(a) == imported_from(b),
{
    let ks = read_keys();
    assert(value_for(a.colors@, ks[0]) == value_for(b.colors@, ks[0]));
    assert(value_for(a.colors@, ks[1]) == value_for(b.colors@, ks[1]));
    assert(value_for(a.colors@, ks[2]) == value_for(b.colors@, ks[2]));
    assert(value_for(a.colors@, ks[3]) == value_for(b.colors@, ks[3]));
    assert(value_for(a.colors@, ks[4]) == value_for(b.colors@, ks[4]));
    assert(value_for(a.colors@, ks[5]) == value_for(b.colors@, ks[5]));
    assert(value_for(a.colors@, ks[6]) == value_for(b.colors@, ks[6]));
    assert(value_for(a.colors@, ks[7]) == value_for(b.colors@, ks[7]));
    assert(value_for(a.colors@, ks[8]) == value_for(b.colors@, ks[8]));
    assert(value_for(a.colors@, ks[9]) == value_for(b.colors@, ks[9]));
    assert(value_for(a.colors@, ks[10]) == value_for(b.colors@, ks[10]));
    assert(accents_of(a) == accents_of(b));
}

/// A theme that is a patch on `base`: the base's colours and then its own,
/// so its own win, and the base's rules and then its own, so its own are read
/// last. One level: what the base is built on is not followed.
pub fn patched(base: Theme, own: Theme) -> (r: Theme)
    ensures
        r.colors@ == base.colors@ + own.colors@,
        r.tokens@ == base.tokens@ + own.tokens@,
        r.based_on is None,
{
    let mut colors = base.colors;
    let mut more = own.colors;
    colors.append(&mut more);
    let mut tokens = base.tokens;
    let mut rules = own.tokens;
    tokens.append(&mut rules);
    Theme { colors, tokens, based_on: None }
}

/// In a patched theme, a colour the patch sets is the patch's, and one it
/// does not set is the base's.
pub proof fn lemma_own_colours_win(
    base: Seq<(String, Option<String>)>,
    own: Seq<(String, Option<String>)>,
    key: Seq<char>,
)
    ensures
        value_for(base + own, key) == if exists|i: int| 0 <= i < own.len() && (#[trigger] own[i]).0@ == key {
            value_for(own, key)
        } else {
            value_for(base, key)
        },
    decreases own.len(),
{
    if own.len() == 0 {
        assert(base + own =~= base);
    } else {
        assert((base + own).drop_last() =~= base + own.drop_last());
        assert((base + own).last() == own.last());
        lemma_own_colours_win(base, own.drop_last(), key);
        if own.last().0@ != key {
            if exists|i: int| 0 <= i < own.len() && (#[trigger] own[i]).0@ == key {
                let i = choose|i: int| 0 <= i < own.len() && (#[trigger] own[i]).0@ == key;
                assert(own.drop_last()[i].0@ == key);
            }
            if exists|i: int| 0 <= i < own.drop_last().len() && (#[trigger] own.drop_last()[i]).0@ == key {
                let i = choose|i: int| 0 <= i < own.drop_last().len() && (#[trigger] own.drop_last()[i]).0@ == key;
                assert(own[i].0@ == key);
            }
        } else {
            assert(own[own.len() - 1].0@ == key);
        }
    }
}


/// The key a label looks up, when it is written `%key%` to be translated.
pub open spec fn key_in(label: Seq<char>) -> Option<Seq<char>> {
    if label.len() >= 2 && label[0] == '%' && label.last() == '%' {
        Some(label.subrange(1, label.len() - 1))
    } else {
        None
    }
}

/// What a declared theme is called, given its label, its id, and the text of
/// its extension's translations if they could be read.
pub open spec fn called(label: Option<Seq<char>>, id: Option<Seq<char>>, names: Option<Seq<char>>) -> Option<Seq<char>> {
    let given = if label is Some {
        label
    } else {
        id
    };
    match given {
        None => None,
        Some(l) => match key_in(l) {
            None => Some(l),
            Some(key) => match names {
                None => None,
                Some(text) => match found_at(stripped(text), seq![key]) {
                    Seen::Unparsed => None,
                    Seen::NotObject => None,
                    Seen::Text(name) => Some(name),
                    _ => id,
                },
            },
        },
    }
}

/// The text of a string that may be absent.
pub open spec fn text_of_opt(s: Option<String>) -> Option<Seq<char>> {
    match s {
        Some(t) => Some(t@),
        None => None,
    }
}

/// The key a label looks up, when it is written `%key%`.
pub fn lookup_key(label: &str) -> (r: Option<String>)
    ensures
        text_of_opt(r) == key_in(label@),
{
    let v = chars_of(label);
    if v.len() >= 2 && v[0] == '%' && v[v.len() - 1] == '%' {
        let key = crate::text::slice_of(&v, 1, v.len() - 1);
        Some(string_of(&key))
    } else {
        None
    }
}

/// What a declared theme is actually called.
///
/// A label of `%themeLabel%` is a lookup, not a name: every theme VS Code
/// ships with is written that way so it can be translated, and the real name
/// lives in the extension's `package.nls.json`, whose text is `names` when it
/// could be read. A key the translations do not have falls back on the id;
/// translations that are not a JSON object, or are not there, name nothing.
pub fn name_of(label: Option<String>, id: Option<String>, names: Option<&str>) -> (r: Option<String>)
    ensures
        text_of_opt(r) == called(
            text_of_opt(label),
            text_of_opt(id),
            match names {
                Some(t) => Some(t@),
                None => None,
            },
        ),
{
    let given = match label {
        Some(l) => l,
        None => match &id {
            Some(i) => i.clone(),
            None => {
                return None;
            },
        },
    };
    let key = match lookup_key(given.as_str()) {
        None => {
            return Some(given);
        },
        Some(k) => k,
    };
    let text = match names {
        None => {
            return None;
        },
        Some(t) => strip_comments(t),
    };
    let path: [&str; 1] = [key.as_str()];
    assert(keys(path@) =~= seq![key@]);
    match lookup(text.as_str(), &path) {
        Found::Unparsed => None,
        Found::NotObject => None,
        Found::Text(name) => Some(name),
        _ => id,
    }
}

/// The themes an editor shows when nobody has chosen one, newest first, by
/// id: an id is stable across versions and translations, and a label is
/// neither.
pub fn default_ids(dark: bool) -> (r: [&'static str; 3])
    ensures
        r@ == if dark {
            seq!["Default Dark Modern", "Default Dark+", "Visual Studio Dark"]
        } else {
            seq!["Default Light Modern", "Default Light+", "Visual Studio Light"]
        },
{
    if dark {
        ["Default Dark Modern", "Default Dark+", "Visual Studio Dark"]
    } else {
        ["Default Light Modern", "Default Light+", "Visual Studio Light"]
    }
}


/// The theme to look for: the one asked for by name, else the one the
/// settings name, if they could be read and name one. Nothing means the
/// editor's own default.
pub fn wanted(named: Option<&str>, settings: Option<&str>) -> (r: Option<String>)
    ensures
        match named {
            Some(n) => r matches Some(w) && w@ == n@,
            None => match settings {
                Some(t) => text_of_opt(r) == chosen_in(t@),
                None => r is None,
            },
        },
{
    match named {
        Some(n) => {
            let v = chars_of(n);
            Some(string_of(&v))
        },
        None => match settings {
            Some(t) => chosen(t),
            None => None,
        },
    }
}


/// One of the editors built on VS Code.
///
/// They are the same program with a different name on the window, so they
/// keep their settings in the same format in a different directory and their
/// extensions in a different one again. A few names are the whole difference.
#[derive(Debug, Clone, Copy, PartialEq, Eq)]
pub struct Flavour {
    /// What it is called, for an error message the reader will recognise.
    pub name: &'static str,
    /// The directory it keeps its settings under.
    pub settings: &'static str,
    /// The directory under the home where its extensions live.
    pub extensions: &'static str,
    /// What its own installed directory is called on macOS.
    pub mac: &'static str,
    /// As `mac`, for Windows.
    pub windows: &'static str,
    /// As `mac`, for Linux and the rest.
    pub unix: &'static str,
}

impl Flavour {
    /// Plain VS Code.
    pub fn code() -> (f: Flavour)
        ensures
            f.name@ == "VS Code"@,
            f.settings@ == "Code"@,
            f.extensions@ == ".vscode/extensions"@,
            f.mac@ == "Visual Studio Code.app"@,
            f.windows@ == "Microsoft VS Code"@,
            f.unix@ == "code"@,
    {
        Flavour {
            name: "VS Code",
            settings: "Code",
            extensions: ".vscode/extensions",
            mac: "Visual Studio Code.app",
            windows: "Microsoft VS Code",
            unix: "code",
        }
    }

    /// Cursor.
    pub fn cursor() -> (f: Flavour)
        ensures
            f.name@ == "Cursor"@,
            f.settings@ == "Cursor"@,
            f.extensions@ == ".cursor/extensions"@,
            f.mac@ == "Cursor.app"@,
            f.windows@ == "cursor"@,
            f.unix@ == "cursor"@,
    {
        Flavour {
            name: "Cursor",
            settings: "Cursor",
            extensions: ".cursor/extensions",
            mac: "Cursor.app",
            windows: "cursor",
            unix: "cursor",
        }
    }

    /// Windsurf.
    pub fn windsurf() -> (f: Flavour)
        ensures
            f.name@ == "Windsurf"@,
            f.settings@ == "Windsurf"@,
            f.extensions@ == ".windsurf/extensions"@,
            f.mac@ == "Windsurf.app"@,
            f.windows@ == "Windsurf"@,
            f.unix@ == "windsurf"@,
    {
        Flavour {
            name: "Windsurf",
            settings: "Windsurf",
            extensions: ".windsurf/extensions",
            mac: "Windsurf.app",
            windows: "Windsurf",
            unix: "windsurf",
        }
    }
}

/// Where a flavour's own themes are, under one place applications are
/// installed: its directory by each of the three names it goes by.
pub open spec fn shipped_under(f: Flavour, at: Seq<char>) -> Seq<Seq<char>> {
    seq![
        joined(joined(at, f.mac@), "Contents/Resources/app/extensions"@),
        joined(joined(at, f.windows@), "resources/app/extensions"@),
        joined(joined(at, f.unix@), "resources/app/extensions"@),
    ]
}

/// Where this flavour keeps the themes it ships with, given every place the
/// platform installs applications: each place, times the three names the
/// directory goes by.
///
/// The themes an editor ships with are the common case, not the rare one,
/// because an editor left on its own default writes no theme name down.
pub fn bundled(flavour: Flavour, places: &[String]) -> (r: Vec<String>)
    ensures
        r@.len() == 3 * places@.len(),
        forall|i: int, k: int|
            0 <= i < places@.len() && 0 <= k < 3 ==> (#[trigger] r@[3 * i + k])@ == shipped_under(
                flavour,
                places@[i]@,
            )[k],
{
    let mut out: Vec<String> = Vec::new();
    let mut i: usize = 0;
    while i < places.len()
        invariant
            i <= places@.len(),
            out@.len() == 3 * i,
            forall|j: int, k: int|
                0 <= j < i && 0 <= k < 3 ==> (#[trigger] out@[3 * j + k])@ == shipped_under(
                    flavour,
                    places@[j]@,
                )[k],
        decreases places@.len() - i,
    {
        let at = places[i].as_str();
        let mac = join(at, flavour.mac);
        let windows = join(at, flavour.windows);
        let unix = join(at, flavour.unix);
        out.push(join(mac.as_str(), "Contents/Resources/app/extensions"));
        out.push(join(windows.as_str(), "resources/app/extensions"));
        out.push(join(unix.as_str(), "resources/app/extensions"));
        proof {
            assert forall|j: int, k: int|
                0 <= j < i + 1 && 0 <= k < 3 implies (#[trigger] out@[3 * j + k])@ == shipped_under(
                flavour,
                places@[j]@,
            )[k] by {
                if j == i {
                    assert(3 * j + k == 3 * i + k);
                }
            }
        }
        i += 1;
    }
    out
}

/// Where a flavour's settings would be under `at`.
pub open spec fn settings_under(f: Flavour, at: Seq<char>) -> Seq<char> {
    joined(joined(at, f.settings@), "User/settings.json"@)
}

/// Every place a flavour's settings could be, best first: under what the
/// platform says is the config directory, when it says, and then under the
/// three shapes spelled out beneath `home` — macOS's, Windows', and
/// everybody else's.
pub open spec fn settings_places_of(f: Flavour, home: Seq<char>, config: Option<Seq<char>>) -> Seq<Seq<char>> {
    let given = match config {
        Some(c) => seq![settings_under(f, c)],
        None => Seq::empty(),
    };
    given + seq![
        settings_under(f, joined(home, "Library/Application Support"@)),
        settings_under(f, joined(home, "AppData/Roaming"@)),
        settings_under(f, joined(home, ".config"@)),
    ]
}

/// Every place this flavour's settings could be, best first.
///
/// What the platform says comes first — it is the only answer that survives
/// a redirected `%APPDATA%` — and then the three shapes under the home given,
/// which is the answer on a machine whose variables are not set.
pub fn settings_places(flavour: Flavour, home: &str, config: Option<&str>) -> (r: Vec<String>)
    ensures
        r@.map_values(|p: String| p@) == settings_places_of(
            flavour,
            home@,
            match config {
                Some(c) => Some(c@),
                None => None,
            },
        ),
{
    let mut out: Vec<String> = Vec::new();
    if let Some(c) = config {
        let at = join(c, flavour.settings);
        out.push(join(at.as_str(), "User/settings.json"));
    }
    let shapes: [&str; 3] = ["Library/Application Support", "AppData/Roaming", ".config"];
    let mut i: usize = 0;
    let ghost first = out@.map_values(|p: String| p@);
    while i < 3
        invariant
            i <= 3,
            shapes@ == seq!["Library/Application Support", "AppData/Roaming", ".config"],
            out@.map_values(|p: String| p@) == first + seq![
                settings_under(flavour, joined(home@, "Library/Application Support"@)),
                settings_under(flavour, joined(home@, "AppData/Roaming"@)),
                settings_under(flavour, joined(home@, ".config"@)),
            ].take(i as int),
        decreases 3 - i,
    {
        let under = join(home, shapes[i]);
        let at = join(under.as_str(), flavour.settings);
        let ghost before = out@;
        out.push(join(at.as_str(), "User/settings.json"));
        proof {
            assert(out@.map_values(|p: String| p@) =~= before.map_values(|p: String| p@).push(
                out@[out@.len() - 1]@,
            ));
            let all = seq![
                settings_under(flavour, joined(home@, "Library/Application Support"@)),
                settings_under(flavour, joined(home@, "AppData/Roaming"@)),
                settings_under(flavour, joined(home@, ".config"@)),
            ];
            assert(all.take(i + 1) =~= all.take(i as int).push(all[i as int]));
        }
        i += 1;
    }
    let ghost all = seq![
        settings_under(flavour, joined(home@, "Library/Application Support"@)),
        settings_under(flavour, joined(home@, "AppData/Roaming"@)),
        settings_under(flavour, joined(home@, ".config"@)),
    ];
    assert(all.take(3) =~= all);
    out
}

/// A theme with a page gives its marks straight from the gutter: additions
/// in the colour set under `editorGutter.addedBackground`, deletions in the
/// one under `editorGutter.deletedBackground`, and none where the theme sets
/// none or sets something that is not a colour.
pub proof fn lemma_marks_come_from_the_gutter(t: Theme)
    requires
        page_of(t) is Some,
    ensures
        imported_from(t) matches Ok(i) && i.add == match value_for(t.colors@, "editorGutter.addedBackground"@) {
            Some(v) => colour_named(v),
            None => None,
        } && i.del == match value_for(t.colors@, "editorGutter.deletedBackground"@) {
            Some(v) => colour_named(v),
            None => None,
        },
{
}

} // verus!
