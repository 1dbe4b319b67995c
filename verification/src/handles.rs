//! The three resource handles: File, Folder and App. Each is a named
//! reference to an external resource, not an open descriptor; every
//! operation is a single request to the effect handler.
use vstd::prelude::*;

use crate::effects::EffectHandler;

verus! {

/// A handle to a filesystem file, by path.
#[derive(Debug, PartialEq)]
pub struct File {
    pub path: String,
}

/// A handle to a directory, by path.
#[derive(Debug, PartialEq)]
pub struct Folder {
    pub path: String,
}

/// A handle to an external executable, by name.
#[derive(Debug, PartialEq)]
pub struct App {
    pub name: String,
}

impl File {
    /// Constructs a file handle. Construction is not a query: the handler
    /// creates the file when it is absent, and resolves a relative path to
    /// an absolute one.
    pub fn new<H: EffectHandler>(path: &str, h: &mut H) -> (r: Option<File>)
        ensures
            r is Some,
    {
        Option::Some(File { path: h.file_create(path) })
    }

    /// Reads the whole file as text; the result is whatever the handler
    /// supplies for this path.
    pub fn read<H: EffectHandler>(&self, h: &mut H) -> String {
        h.file_read(self.path.as_str())
    }

    /// Truncates the file and writes the given text.
    pub fn write<H: EffectHandler>(&self, value: &str, h: &mut H) {
        h.file_write(self.path.as_str(), value);
    }

    /// Removes the file, best-effort.
    pub fn delete<H: EffectHandler>(&self, h: &mut H) {
        h.file_delete(self.path.as_str());
    }

    /// Moves the file to the given path; the handle follows the move.
    pub fn rename<H: EffectHandler>(&mut self, name: String, h: &mut H)
        ensures
            final(self).path@ == name@,
    {
        h.file_rename(self.path.as_str(), name.as_str());
        self.path = name;
    }

    /// Launches the platform's default handler for the file, best-effort.
    pub fn open<H: EffectHandler>(&self, h: &mut H) {
        h.file_open(self.path.as_str());
    }
}

impl Folder {
    /// Constructs a folder handle. The handler creates the directory when
    /// it is absent, and resolves a relative path to an absolute one.
    pub fn new<H: EffectHandler>(path: &str, h: &mut H) -> Folder {
        Folder { path: h.folder_create(path) }
    }

    /// Enumerates the immediate children; each becomes a File or Folder
    /// value according to its own filesystem kind. The entry list is the
    /// handler's; its conversion is [`entries_to_values`].
    pub fn item_list<H: EffectHandler>(&self, h: &mut H) -> (r: Vec<crate::value::Value>)
        ensures
            forall|i: int|
                0 <= i < r@.len() ==> (#[trigger] r@[i]) is File || r@[i] is Folder,
    {
        let entries = h.folder_list(self.path.as_str());
        entries_to_values(entries)
    }

    /// Removes the directory recursively.
    pub fn delete<H: EffectHandler>(&self, h: &mut H) {
        h.folder_delete(self.path.as_str());
    }

    /// Moves the directory to the given path; the handle follows the move.
    pub fn rename<H: EffectHandler>(&mut self, name: String, h: &mut H)
        ensures
            final(self).path@ == name@,
    {
        h.folder_rename(self.path.as_str(), name.as_str());
        self.path = name;
    }
}

/// Turns a directory listing into values, entry by entry and in order: a
/// directory entry becomes a Folder of its path, any other a File of its
/// path.
pub fn entries_to_values(entries: Vec<crate::effects::DirEntry>) -> (r: Vec<crate::value::Value>)
    ensures
        r@.len() == entries@.len(),
        forall|i: int|
            0 <= i < entries@.len() ==> (#[trigger] r@[i]).deep_view() == (if entries@[i].is_dir {
                crate::value::ValueV::Folder(entries@[i].path@)
            } else {
                crate::value::ValueV::File(entries@[i].path@)
            }),
        forall|i: int|
            0 <= i < entries@.len() ==> ((#[trigger] entries@[i]).is_dir ==> r@[i] is Folder) && (
            !entries@[i].is_dir ==> r@[i] is File),
{
    let mut list: Vec<crate::value::Value> = Vec::new();
    let mut i: usize = 0;
    while i < entries.len()
        invariant
            0 <= i <= entries@.len(),
            list@.len() == i,
            forall|j: int|
                0 <= j < i ==> (#[trigger] list@[j]).deep_view() == (if entries@[j].is_dir {
                    crate::value::ValueV::Folder(entries@[j].path@)
                } else {
                    crate::value::ValueV::File(entries@[j].path@)
                }),
            forall|j: int|
                0 <= j < i ==> ((#[trigger] entries@[j]).is_dir ==> list@[j] is Folder) && (
                !entries@[j].is_dir ==> list@[j] is File),
        decreases entries@.len() - i,
    {
        let path = entries[i].path.clone();
        if entries[i].is_dir {
            list.push(crate::value::Value::Folder(Folder { path }));
        } else {
            list.push(crate::value::Value::File(File { path }));
        }
        i += 1;
    }
    list
}

impl App {
    /// Wraps an executable's name; construction has no side effect.
    pub fn new(name: String) -> (r: App)
        ensures
            r.name@ == name@,
    {
        App { name }
    }

    /// Spawns the executable without arguments and waits for it to exit.
    pub fn start<H: EffectHandler>(&self, h: &mut H) {
        let args: Vec<String> = Vec::new();
        h.app_start(self.name.as_str(), &args);
    }

    /// Spawns the executable with the given arguments and waits for it to
    /// exit.
    pub fn start_with_arg<H: EffectHandler>(&self, arg: Vec<String>, h: &mut H) {
        h.app_start(self.name.as_str(), &arg);
    }
}

} // verus!
