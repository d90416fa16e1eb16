//! A single todo entry.

use vstd::prelude::*;

verus! {

/// One entry of the todo list: a title, a description, and whether it
/// has been completed.
pub struct Todo {
    pub title: String,
    pub description: String,
    pub completed: bool,
}

/// The text that describes one entry, one field per line.
pub open spec fn todo_text(t: Todo) -> Seq<char> {
    "Title: "@ + t.title@ + " \nDescription: "@ + t.description@ + " \nCompleted: "@ + (if t.completed {
        "true"@
    } else {
        "false"@
    }) + "\n"@
}

impl Todo {
    /// A fresh, not yet completed entry.
    pub fn new(title: &str, description: &str) -> (r: Todo)
        ensures
            r.title@ == title@,
            r.description@ == description@,
            !r.completed,
    {
        Todo { title: String::from_str(title), description: String::from_str(description), completed: false }
    }

    /// Marks the entry completed, or not.
    pub fn set_completed(&mut self, completed: bool)
        ensures
            final(self).title == old(self).title,
            final(self).description == old(self).description,
            final(self).completed == completed,
    {
        self.completed = completed;
    }

    /// Renders the entry as the text `todo_text` describes.
    pub fn describe(&self) -> (r: String)
        ensures
            r@ == todo_text(*self),
    {
        let mut out = String::from_str("Title: ");
        out.append(self.title.as_str());
        out.append(" \nDescription: ");
        out.append(self.description.as_str());
        out.append(" \nCompleted: ");
        out.append(crate::numfmt::bool_str(self.completed));
        out.append("\n");
        out
    }
}

} // verus!
