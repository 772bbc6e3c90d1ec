//! State of the dialog that asks where projections are exported to.

use vstd::prelude::*;
use crate::gui::MessageBox;

verus! {

pub struct ExportDialog {
    title: String,
    output_path: Option<String>,
    bounce_back: bool,
}

impl ExportDialog {
    pub closed spec fn spec_title(&self) -> Seq<char> {
        self.title@
    }

    /// The chosen output folder, if one has been chosen.
    pub closed spec fn spec_output_path(&self) -> Option<Seq<char>> {
        match self.output_path {
            Some(path) => Some(path@),
            None => None,
        }
    }

    pub closed spec fn spec_bounce_back(&self) -> bool {
        self.bounce_back
    }

    /// A dialog with the given title and initial folder; back-and-forth
    /// output is off.
    pub fn new(title: String, output_path: Option<String>) -> (dialog: ExportDialog)
        ensures
            dialog.spec_title() == title@,
            dialog.spec_output_path() == match output_path {
                Some(path) => Some(path@),
                None => None,
            },
            !dialog.spec_bounce_back(),
    {
        ExportDialog { title, output_path, bounce_back: false }
    }

    pub fn title(&self) -> (title: &str)
        ensures
            title@ == self.spec_title(),
    {
        self.title.as_str()
    }

    pub fn has_output_path(&self) -> (chosen: bool)
        ensures
            chosen == self.spec_output_path() is Some,
    {
        self.output_path.is_some()
    }

    /// The chosen output folder.
    pub fn output_path(&self) -> (path: String)
        requires
            self.spec_output_path() is Some,
        ensures
            Some(path@) == self.spec_output_path(),
    {
        match &self.output_path {
            Some(path) => path.clone(),
            None => String::new(),
        }
    }

    pub fn bounce_back(&self) -> (enabled: bool)
        ensures
            enabled == self.spec_bounce_back(),
    {
        self.bounce_back
    }

    /// Records the folder picked by the user.
    pub fn set_output_path(&mut self, path: String)
        ensures
            final(self).spec_output_path() == Some(path@),
            final(self).spec_title() == old(self).spec_title(),
            final(self).spec_bounce_back() == old(self).spec_bounce_back(),
    {
        self.output_path = Some(path);
    }

    pub fn set_bounce_back(&mut self, enabled: bool)
        ensures
            final(self).spec_bounce_back() == enabled,
            final(self).spec_title() == old(self).spec_title(),
            final(self).spec_output_path() == old(self).spec_output_path(),
    {
        self.bounce_back = enabled;
    }

    /// Decides what pressing "Export" does: the dialog is accepted when a
    /// folder has been chosen, otherwise an error box is to be shown.
    pub fn confirm(&self) -> (outcome: Result<(), MessageBox>)
        ensures
            outcome is Ok <==> self.spec_output_path() is Some,
            outcome matches Err(message_box) ==> {
                &&& message_box.title@ == "Error"@
                &&& message_box.message@ == "Output folder not selected."@
            },
    {
        if self.output_path.is_some() {
            Ok(())
        } else {
            Err(MessageBox {
                title: "Error".to_string(),
                message: "Output folder not selected.".to_string(),
            })
        }
    }
}

} // verus!
