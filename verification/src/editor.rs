//! The editors deck can borrow a palette from.
//!
//! Deck is a window that appears beside your work, and a window that appears
//! beside your work in somebody else's colours is a second application. So it
//! borrows yours. Three colours are always taken — the page, the text, and one
//! accent — and a few more when the editor has them. Chrome is never
//! imported: a theme's status line and tab bar answer questions deck is not
//! asking.

use vstd::prelude::*;

use crate::text::is_word;

verus! {

/// An editor deck can borrow a palette from.
#[derive(Debug, Clone, Copy, PartialEq, Eq, Structural)]
pub enum Editor {
    /// Deck's own palette. Nothing is read.
    Own,
    /// Neovim, asked headless what its colours are.
    Nvim,
    /// Zed, whose theme files already use capture names.
    Zed,
    /// VS Code, whose syntax colours are TextMate scopes.
    Vscode,
    /// Cursor: VS Code with a different name on the window.
    Cursor,
    /// Windsurf, likewise.
    Windsurf,
}

impl Default for Editor {
    fn default() -> (e: Self)
        ensures
            e == Editor::Own,
    {
        Editor::Own
    }
}

/// The editor a word names; a word nobody recognises names none.
pub open spec fn editor_named(name: Seq<char>) -> Editor {
    if name == seq!['n', 'v', 'i', 'm'] || name == seq!['n', 'e', 'o', 'v', 'i', 'm'] {
        Editor::Nvim
    } else if name == seq!['z', 'e', 'd'] {
        Editor::Zed
    } else if name == seq!['v', 's', 'c', 'o', 'd', 'e'] || name == seq!['c', 'o', 'd', 'e'] {
        Editor::Vscode
    } else if name == seq!['c', 'u', 'r', 's', 'o', 'r'] {
        Editor::Cursor
    } else if name == seq!['w', 'i', 'n', 'd', 's', 'u', 'r', 'f'] {
        Editor::Windsurf
    } else {
        Editor::Own
    }
}

impl From<String> for Editor {
    fn from(name: String) -> (e: Self) {
        let s = name.as_str();
        if is_word(s, &['n', 'v', 'i', 'm']) || is_word(s, &['n', 'e', 'o', 'v', 'i', 'm']) {
            Editor::Nvim
        } else if is_word(s, &['z', 'e', 'd']) {
            Editor::Zed
        } else if is_word(s, &['v', 's', 'c', 'o', 'd', 'e']) || is_word(s, &['c', 'o', 'd', 'e']) {
            Editor::Vscode
        } else if is_word(s, &['c', 'u', 'r', 's', 'o', 'r']) {
            Editor::Cursor
        } else if is_word(s, &['w', 'i', 'n', 'd', 's', 'u', 'r', 'f']) {
            Editor::Windsurf
        } else {
            Editor::Own
        }
    }
}

impl vstd::std_specs::convert::FromSpecImpl<String> for Editor {
    open spec fn obeys_from_spec() -> bool {
        true
    }

    open spec fn from_spec(name: String) -> Self {
        editor_named(name@)
    }
}

impl Editor {
    /// The word the reader writes for an editor.
    pub open spec fn spec_key(self) -> Seq<char> {
        match self {
            Editor::Own => "none"@,
            Editor::Nvim => "nvim"@,
            Editor::Zed => "zed"@,
            Editor::Vscode => "vscode"@,
            Editor::Cursor => "cursor"@,
            Editor::Windsurf => "windsurf"@,
        }
    }

    /// The word the reader writes for this one.
    pub fn key(self) -> (k: &'static str)
        ensures
            k@ == self.spec_key(),
    {
        match self {
            Editor::Own => "none",
            Editor::Nvim => "nvim",
            Editor::Zed => "zed",
            Editor::Vscode => "vscode",
            Editor::Cursor => "cursor",
            Editor::Windsurf => "windsurf",
        }
    }

    /// What an editor is called, for something a person reads.
    pub open spec fn spec_name(self) -> Seq<char> {
        match self {
            Editor::Own => "deck's own palette"@,
            Editor::Nvim => "Neovim"@,
            Editor::Zed => "Zed"@,
            Editor::Vscode => "VS Code"@,
            Editor::Cursor => "Cursor"@,
            Editor::Windsurf => "Windsurf"@,
        }
    }

    /// What it is called, for something a person reads.
    pub fn name(self) -> (n: &'static str)
        ensures
            n@ == self.spec_name(),
    {
        match self {
            Editor::Own => "deck's own palette",
            Editor::Nvim => "Neovim",
            Editor::Zed => "Zed",
            Editor::Vscode => "VS Code",
            Editor::Cursor => "Cursor",
            Editor::Windsurf => "Windsurf",
        }
    }

    /// Every editor deck knows how to read.
    pub fn all() -> (r: [Editor; 5])
        ensures
            r@ == seq![Editor::Nvim, Editor::Vscode, Editor::Cursor, Editor::Windsurf, Editor::Zed],
    {
        [Editor::Nvim, Editor::Vscode, Editor::Cursor, Editor::Windsurf, Editor::Zed]
    }
}

/// An editor reads back from the word the reader writes for it.
pub proof fn lemma_keys_read_back(e: Editor)
    ensures
        editor_named(e.spec_key()) == e,
{
    reveal_strlit("none");
    reveal_strlit("nvim");
    reveal_strlit("zed");
    reveal_strlit("vscode");
    reveal_strlit("cursor");
    reveal_strlit("windsurf");
    assert("nvim"@ =~= seq!['n', 'v', 'i', 'm']);
    assert("zed"@ =~= seq!['z', 'e', 'd']);
    assert("vscode"@ =~= seq!['v', 's', 'c', 'o', 'd', 'e']);
    assert("cursor"@ =~= seq!['c', 'u', 'r', 's', 'o', 'r']);
    assert("windsurf"@ =~= seq!['w', 'i', 'n', 'd', 's', 'u', 'r', 'f']);
    if e == Editor::Own {
        assert("none"@ =~= seq!['n', 'o', 'n', 'e']);
        assert("none"@ != seq!['n', 'v', 'i', 'm']);
        assert("none"@ != seq!['n', 'e', 'o', 'v', 'i', 'm']);
        assert("none"@ != seq!['c', 'o', 'd', 'e']);
    } else if e == Editor::Zed {
        assert("zed"@ != seq!['n', 'v', 'i', 'm']);
        assert("zed"@ != seq!['n', 'e', 'o', 'v', 'i', 'm']);
    } else if e == Editor::Vscode {
        assert("vscode"@ != seq!['n', 'e', 'o', 'v', 'i', 'm']);
    } else if e == Editor::Cursor {
        assert("cursor"@ != seq!['n', 'e', 'o', 'v', 'i', 'm']);
        assert("cursor"@ != seq!['v', 's', 'c', 'o', 'd', 'e']);
    } else if e == Editor::Windsurf {
        assert("windsurf"@ != seq!['n', 'e', 'o', 'v', 'i', 'm']);
        assert("windsurf"@ != seq!['c', 'u', 'r', 's', 'o', 'r']);
    }
}

} // verus!
