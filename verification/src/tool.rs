//! What a tool gives back.

use crate::models;
use crate::text;
use vstd::prelude::*;

verus! {

/// The result of a tool: its text, or the error that it failed with.
#[derive(Debug)]
pub struct ToolOutput {
    pub success: bool,
    pub text: String,
    pub error: Option<String>,
}

/// The result of a tool as plain texts.
pub struct ToolOutputView {
    pub success: bool,
    pub text: Seq<char>,
    pub error: Option<Seq<char>>,
}

impl View for ToolOutput {
    type V = ToolOutputView;

    open spec fn view(&self) -> ToolOutputView {
        ToolOutputView {
            success: self.success,
            text: self.text@,
            error: models::opt_text(self.error),
        }
    }
}

impl Clone for ToolOutput {
    fn clone(&self) -> (r: Self)
        ensures
            r == *self,
    {
        ToolOutput {
            success: self.success,
            text: self.text.clone(),
            error: models::copy_opt(&self.error),
        }
    }
}

/// The text that the model gets to see: that of a tool that succeeded, or `Error: ` and the
/// error; a failure without an error shows its text.
pub open spec fn shown(o: ToolOutputView) -> Seq<char> {
    if o.success {
        o.text
    } else {
        "Error: "@ + match o.error {
            Some(e) => e,
            None => o.text,
        }
    }
}

impl ToolOutput {
    /// The result of a tool that succeeded.
    pub fn ok(text: &str) -> (r: Self)
        ensures
            r@ == (ToolOutputView { success: true, text: text@, error: None }),
    {
        ToolOutput { success: true, text: text.to_owned(), error: None }
    }

    /// The result of a tool that failed.
    pub fn err(text: &str) -> (r: Self)
        ensures
            r@ == (ToolOutputView {
                success: false,
                text: Seq::<char>::empty(),
                error: Some(text@),
            }),
    {
        ToolOutput { success: false, text: String::new(), error: Some(text.to_owned()) }
    }

    /// The text that the model gets to see.
    pub fn message_text(&self) -> (r: String)
        ensures
            r@ == shown(self@),
    {
        if self.success {
            self.text.clone()
        } else {
            let mut out: String = "Error: ".to_owned();
            match &self.error {
                Some(e) => out.append(e.as_str()),
                None => out.append(self.text.as_str()),
            }
            out
        }
    }
}

// ---------------------------------------------------------------------------
// Laws
// ---------------------------------------------------------------------------

/// The model sees the text of a tool that succeeded and nothing else, and of one that failed the
/// error, marked as one.
pub proof fn law_failures_show_their_error(o: ToolOutputView)
    ensures
        o.success ==> shown(o) == o.text,
        !o.success ==> text::begins(shown(o), "Error: "@),
        !o.success && o.error is Some ==> text::finishes(shown(o), o.error->0),
        !o.success && o.error is Some ==> shown(o).len() == 7 + o.error->0.len(),
        !o.success && o.error is None ==> text::finishes(shown(o), o.text),
        !o.success && o.error is None ==> shown(o).len() == 7 + o.text.len(),
{
    reveal_strlit("Error: ");
    let tail = match o.error {
        Some(e) => e,
        None => o.text,
    };
    text::law_parts_are_in_the_whole("Error: "@, tail, Seq::empty());
    assert("Error: "@ + tail + Seq::<char>::empty() =~= "Error: "@ + tail);
    assert(tail + Seq::<char>::empty() =~= tail);
}

} // verus!
