//! The per-tab buffer model.

use vstd::prelude::*;
use crate::path::{file_name, file_name_of};
use crate::text::{byte_len, byte_len_of, push_char};

verus! {

broadcast use vstd::string::group_string_axioms;

/// A single editor tab: one buffer, optionally backed by a file on disk.
#[derive(Debug, Clone)]
pub struct Tab {
    /// Stable identifier, also used as the swap-file stem for this tab.
    pub id: u64,
    /// The file this buffer is associated with, if any. `None` means the
    /// buffer has never been saved (a scratch/untitled buffer).
    pub path: Option<String>,
    /// The current text content of the buffer.
    pub text: String,
    /// The text content as it was last read from / written to disk. Used to
    /// compute whether the buffer is dirty. For an untitled buffer this is
    /// the empty string.
    pub saved_text: String,
    /// The byte length of the backing file the last time it was read or
    /// written. Used to detect external modifications (the file changing
    /// size on disk). Runtime-only: it is not persisted.
    pub disk_len: Option<u64>,
}

/// The text of an optional path.
pub open spec fn opt_view(p: Option<String>) -> Option<Seq<char>> {
    match p {
        Some(s) => Some(s@),
        None => None,
    }
}

/// The title shown on a tab: the file name (or `untitled`), with a bullet
/// and a space in front when the buffer has unsaved changes.
pub open spec fn spec_title(path: Option<Seq<char>>, dirty: bool) -> Seq<char> {
    let base = match path {
        Some(p) => match file_name(p) {
            Some(n) => n,
            None => "untitled"@,
        },
        None => "untitled"@,
    };
    if dirty {
        seq!['\u{2022}', ' '] + base
    } else {
        base
    }
}

/// A copy of an optional string.
pub fn clone_opt(p: &Option<String>) -> (r: Option<String>)
    ensures
        r == *p,
{
    match p {
        Some(s) => Some(s.clone()),
        None => None,
    }
}

impl Tab {
    /// Whether the buffer differs from what was last saved or loaded.
    pub open spec fn dirty(&self) -> bool {
        self.text@ != self.saved_text@
    }

    /// Create a new, empty, untitled tab with the given id.
    pub fn new_untitled(id: u64) -> (t: Tab)
        ensures
            t.id == id,
            t.path is None,
            t.text@ == Seq::<char>::empty(),
            t.saved_text@ == Seq::<char>::empty(),
            t.disk_len is None,
            !t.dirty(),
    {
        Tab { id, path: None, text: String::new(), saved_text: String::new(), disk_len: None }
    }

    /// Create a tab from an existing file's path and content.
    pub fn from_file(id: u64, path: String, text: String) -> (t: Tab)
        ensures
            t.id == id,
            t.path == Some(path),
            t.text@ == text@,
            t.saved_text@ == text@,
            t.disk_len == Some(byte_len(text@) as u64),
            !t.dirty(),
    {
        let n = byte_len_of(text.as_str());
        let disk_len = Some(n as u64);
        Tab { id, path: Some(path), saved_text: text.clone(), text, disk_len }
    }

    /// Whether the buffer has unsaved changes relative to its saved content.
    pub fn is_dirty(&self) -> (b: bool)
        ensures
            b == self.dirty(),
    {
        !crate::path::str_eq(self.text.as_str(), self.saved_text.as_str())
    }

    /// The short title to display on the tab (file name or "untitled"),
    /// with a leading marker when the buffer is dirty.
    pub fn title(&self) -> (r: String)
        ensures
            r@ == spec_title(opt_view(self.path), self.dirty()),
    {
        let base = match &self.path {
            Some(p) => match file_name_of(p.as_str()) {
                Some(n) => n,
                None => "untitled".to_owned(),
            },
            None => "untitled".to_owned(),
        };
        if self.is_dirty() {
            let mut r = String::new();
            push_char(&mut r, '\u{2022}');
            push_char(&mut r, ' ');
            r.append(base.as_str());
            r
        } else {
            base
        }
    }

    /// Take in the backing file's current size (`None` when it could not be
    /// read) and decide whether the buffer should be reloaded from disk.
    ///
    /// Returns `true` exactly when the tab has a file, its size is known and
    /// differs from the last one recorded, and the buffer is clean: then the
    /// caller reads the file and hands the outcome to [`Tab::apply_reload`].
    /// A dirty buffer is never reloaded: its recorded size is updated (so the
    /// change is reported once) and its text is left untouched.
    pub fn observe_disk_len(&mut self, current_len: Option<u64>) -> (reload: bool)
        ensures
            final(self).id == old(self).id,
            final(self).path == old(self).path,
            final(self).text == old(self).text,
            final(self).saved_text == old(self).saved_text,
            reload == (old(self).path is Some && current_len is Some && old(self).disk_len
                != current_len && !old(self).dirty()),
            final(self).disk_len == if old(self).path is Some && current_len is Some
                && old(self).disk_len != current_len && old(self).dirty() {
                current_len
            } else {
                old(self).disk_len
            },
    {
        if self.path.is_none() {
            return false;
        }
        let len = match current_len {
            Some(l) => l,
            None => return false,
        };
        let same = match self.disk_len {
            Some(d) => d == len,
            None => false,
        };
        if same {
            return false;
        }
        if self.is_dirty() {
            self.disk_len = Some(len);
            return false;
        }
        true
    }

    /// Apply the outcome of re-reading the backing file whose size was
    /// `current_len`. With the new contents the buffer and its saved text
    /// both become them (the tab is clean) and the recorded size is theirs;
    /// when the read failed only the size is recorded. Returns whether the
    /// buffer was reloaded.
    pub fn apply_reload(&mut self, current_len: u64, read: Option<String>) -> (reloaded: bool)
        ensures
            final(self).id == old(self).id,
            final(self).path == old(self).path,
            reloaded == read is Some,
            match read {
                Some(t) => {
                    &&& final(self).text@ == t@
                    &&& final(self).saved_text@ == t@
                    &&& final(self).disk_len == Some(byte_len(t@) as u64)
                    &&& !final(self).dirty()
                },
                None => {
                    &&& final(self).text == old(self).text
                    &&& final(self).saved_text == old(self).saved_text
                    &&& final(self).disk_len == Some(current_len)
                },
            },
    {
        match read {
            Some(text) => {
                let n = byte_len_of(text.as_str());
                self.disk_len = Some(n as u64);
                self.saved_text = text.clone();
                self.text = text;
                true
            },
            None => {
                self.disk_len = Some(current_len);
                false
            },
        }
    }
}

} // verus!
