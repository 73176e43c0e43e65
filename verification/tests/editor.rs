use deck::editor::Editor;

#[test]
fn every_editor_is_named_by_the_word_it_is_written_as() {
    for editor in Editor::all() {
        assert_eq!(Editor::from(editor.key().to_string()), editor);
    }
    assert_eq!(Editor::from("neovim".to_string()), Editor::Nvim);
    assert_eq!(Editor::from("code".to_string()), Editor::Vscode);
    assert_eq!(Editor::from("emacs".to_string()), Editor::Own);
    assert_eq!(Editor::default(), Editor::Own);
}

#[test]
fn an_editor_has_a_name_a_person_reads() {
    assert_eq!(Editor::Vscode.name(), "VS Code");
    assert_eq!(Editor::Own.name(), "deck's own palette");
    assert_eq!(Editor::Own.key(), "none");
    assert_eq!(
        Editor::all(),
        [Editor::Nvim, Editor::Vscode, Editor::Cursor, Editor::Windsurf, Editor::Zed]
    );
}
