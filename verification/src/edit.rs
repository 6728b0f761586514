//! Opening a session in an editor.

use vstd::prelude::*;

use crate::restore::messages;
use crate::text;

verus! {

/// What is to be done.
#[derive(Debug, PartialEq)]
pub enum Edit {
    /// There is no session: tell so.
    Missing(String),
    /// There is no editor: fail with this.
    NoEditor(String),
    /// Open the session in this editor.
    Launch(String),
}

/// Told where no editor is set.
pub open spec fn no_editor_text() -> Seq<char> {
    "no editor found — set $VISUAL or $EDITOR"@
}

/// Decides how the session at `path` is edited: with `$VISUAL`, else with
/// `$EDITOR`.
pub fn run(exists: bool, path: &str, visual: Option<String>, editor: Option<String>) -> (r: Edit)
    ensures
        match r {
            Edit::Missing(t) => !exists && t@ == messages::missing_session_text(path@),
            Edit::NoEditor(t) => exists && visual is None && editor is None && t@
                == no_editor_text(),
            Edit::Launch(e) => exists && (visual == Some(e) || visual is None && editor == Some(e)),
        },
{
    if !exists {
        return Edit::Missing(messages::missing_session(path));
    }
    match visual {
        Some(e) => Edit::Launch(e),
        None => match editor {
            Some(e) => Edit::Launch(e),
            None => Edit::NoEditor("no editor found — set $VISUAL or $EDITOR".to_owned()),
        },
    }
}

/// Told where the editor did not start.
pub fn launch_failed(editor: &str) -> (r: String)
    ensures
        r@ == "failed to launch editor '"@ + editor@ + "'"@,
{
    text::join3("failed to launch editor '", editor, "'")
}

/// A session that is there is opened in an editor where one is set, and `$VISUAL` goes
/// before `$EDITOR`; a session that is not there is never opened.
pub proof fn law_set_editors_are_used(
    exists: bool,
    path: &str,
    visual: Option<String>,
    editor: Option<String>,
    r: Edit,
)
    requires
        call_ensures(run, (exists, path, visual, editor), r),
    ensures
        r is Missing <==> !exists,
        r is NoEditor <==> exists && visual is None && editor is None,
        exists && visual is Some ==> r == Edit::Launch(visual->0),
        exists && visual is None && editor is Some ==> r == Edit::Launch(editor->0),
        r matches Edit::Missing(t) ==> text::begins(t@, "no session file at "@ + path@),
        r matches Edit::NoEditor(t) ==> t@ == "no editor found — set $VISUAL or $EDITOR"@,
{
    let t = messages::missing_session_text(path@);
    let head = "no session file at "@ + path@;
    assert(t =~= head + t.skip(head.len() as int));
}

} // verus!
