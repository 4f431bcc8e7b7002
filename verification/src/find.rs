//! Finding entries by name and by type.

use vstd::prelude::*;
use vstd::string::StringExecFns;
use crate::pattern::{is_match, Pattern};
use crate::text::chars_of;

verus! {

/// A type of entry to look for.
#[derive(Debug, Clone, Copy, PartialEq, Eq, Structural)]
pub enum EntryType {
    Dir,
    File,
    Link,
}

impl EntryType {
    /// The letter that stands for this type on the command line.
    pub fn letter(&self) -> (c: char)
        ensures
            c == match *self {
                EntryType::Dir => 'd',
                EntryType::File => 'f',
                EntryType::Link => 'l',
            },
    {
        match self {
            EntryType::Dir => 'd',
            EntryType::File => 'f',
            EntryType::Link => 'l',
        }
    }

    /// The type that `value` stands for on the command line: `d`, `f`
    /// or `l`.
    pub fn from_value(value: &str) -> (r: Option<EntryType>)
        ensures
            r == if value@ == seq!['d'] {
                Some(EntryType::Dir)
            } else if value@ == seq!['f'] {
                Some(EntryType::File)
            } else if value@ == seq!['l'] {
                Some(EntryType::Link)
            } else {
                None
            },
    {
        let chars = chars_of(value);
        if chars.len() != 1 {
            return None;
        }
        assert(chars@ =~= seq![chars[0]]);
        if chars[0] == 'd' {
            Some(EntryType::Dir)
        } else if chars[0] == 'f' {
            Some(EntryType::File)
        } else if chars[0] == 'l' {
            Some(EntryType::Link)
        } else {
            None
        }
    }
}

/// What the metadata of an entry says of its type.
#[derive(Debug, Clone, Copy, PartialEq, Eq, Structural)]
pub struct Kind {
    pub is_dir: bool,
    pub is_file: bool,
    pub is_symlink: bool,
}

impl Kind {
    /// Whether an entry of this kind is of type `t`.
    pub open spec fn is(self, t: EntryType) -> bool {
        match t {
            EntryType::Dir => self.is_dir,
            EntryType::File => self.is_file,
            EntryType::Link => self.is_symlink,
        }
    }
}

/// Whether an entry of kind `kind` is of one of the types `types`.
fn of_any_type(kind: &Kind, types: &Vec<EntryType>) -> (b: bool)
    ensures
        b == exists|i: int| 0 <= i < types.len() && kind.is(#[trigger] types[i]),
{
    let mut i: usize = 0;
    while i < types.len()
        invariant
            i <= types.len(),
            forall|j: int| 0 <= j < i ==> !kind.is(#[trigger] types[j]),
        decreases types.len() - i,
    {
        let hit = match types[i] {
            EntryType::Dir => kind.is_dir,
            EntryType::Link => kind.is_symlink,
            EntryType::File => kind.is_file,
        };
        if hit {
            assert(kind.is(types[i as int]));
            return true;
        }
        i = i + 1;
    }
    false
}

/// Whether an entry is selected by its type: it is, where no types are
/// given, and else where it is of one of the types given.
pub fn select_type(kind: &Kind, types: &Option<Vec<EntryType>>) -> (b: bool)
    ensures
        b == match *types {
            None => true,
            Some(types) => exists|i: int| 0 <= i < types.len() && kind.is(#[trigger] types[i]),
        },
{
    match types {
        None => true,
        Some(types) => of_any_type(kind, types),
    }
}

/// Whether one of `patterns` matches somewhere in `path`.
fn matches_any(path: &str, patterns: &Vec<Pattern>) -> (b: bool)
    ensures
        b == exists|i: int|
            0 <= i < patterns.len() && (#[trigger] patterns[i]).valid() && patterns[i].matches(
                path@,
            ),
{
    let mut i: usize = 0;
    while i < patterns.len()
        invariant
            i <= patterns.len(),
            forall|j: int|
                0 <= j < i ==> !((#[trigger] patterns[j]).valid() && patterns[j].matches(path@)),
        decreases patterns.len() - i,
    {
        match is_match(&patterns[i], path) {
            Some(true) => {
                assert(patterns[i as int].valid() && patterns[i as int].matches(path@));
                return true;
            },
            _ => {},
        }
        i = i + 1;
    }
    false
}

/// Whether an entry is selected by its name: it is, where no patterns
/// are given, and else where one of the patterns given matches
/// somewhere in the name. A pattern that is no regular expression matches
/// nothing.
pub fn select_name(path: &str, patterns: &Option<Vec<Pattern>>) -> (b: bool)
    ensures
        b == match *patterns {
            None => true,
            Some(patterns) => exists|i: int|
                0 <= i < patterns.len() && (#[trigger] patterns[i]).valid() && patterns[i].matches(
                    path@,
                ),
        },
{
    match patterns {
        None => true,
        Some(patterns) => matches_any(path, patterns),
    }
}

/// What the path of an entry says of its name.
#[derive(Debug)]
pub struct EntryPath {
    /// How the path is shown in a message.
    pub shown: String,
    /// Whether the path is that of the current directory, `.`.
    pub is_current: bool,
    /// Whether the path is that of the directory above, `..`.
    pub is_parent: bool,
    /// The last component of the path, if it has one that is a name.
    pub file_name: Option<FileName>,
}

/// The last component of a path.
#[derive(Debug)]
pub struct FileName {
    /// How the name is shown in a message.
    pub shown: String,
    /// The name, if it is valid Unicode.
    pub text: Option<String>,
}

/// The name under which an entry is matched, or why it has none.
pub open spec fn name_of(path: EntryPath) -> Result<Seq<char>, Seq<char>> {
    if path.is_current {
        Ok(seq!['.'])
    } else if path.is_parent {
        Ok(seq!['.', '.'])
    } else {
        match path.file_name {
            None => Err("Failed to get file_name from "@ + path.shown@),
            Some(name) => match name.text {
                None => Err("Failed to convert file_name "@ + name.shown@ + " to str"@),
                Some(text) => Ok(text@),
            },
        }
    }
}

/// The name under which an entry is matched: the last component of its
/// path, and the path itself for the current directory and the one
/// above.
pub fn entry_filename(path: &EntryPath) -> (r: Result<String, String>)
    ensures
        match name_of(*path) {
            Ok(name) => r matches Ok(s) && s@ == name,
            Err(reason) => r matches Err(s) && s@ == reason,
        },
{
    proof {
        reveal_strlit(".");
        reveal_strlit("..");
        assert("."@ =~= seq!['.']);
        assert(".."@ =~= seq!['.', '.']);
    }
    if path.is_current {
        return Ok(String::from_str("."));
    } else if path.is_parent {
        return Ok(String::from_str(".."));
    }
    match &path.file_name {
        None => Err(String::from_str("Failed to get file_name from ").concat(path.shown.as_str())),
        Some(name) => match &name.text {
            None => Err(
                String::from_str("Failed to convert file_name ").concat(
                    name.shown.as_str(),
                ).concat(" to str"),
            ),
            Some(text) => Ok(text.clone()),
        },
    }
}

/// Whether an entry is shown: it is, where its type and its name select
/// it.
pub fn selected(
    kind: &Kind,
    name: &str,
    types: &Option<Vec<EntryType>>,
    patterns: &Option<Vec<Pattern>>,
) -> (b: bool)
    ensures
        b == ((match *types {
            None => true,
            Some(types) => exists|i: int| 0 <= i < types.len() && kind.is(#[trigger] types[i]),
        }) && (match *patterns {
            None => true,
            Some(patterns) => exists|i: int|
                0 <= i < patterns.len() && (#[trigger] patterns[i]).valid() && patterns[i].matches(
                    name@,
                ),
        })),
{
    select_type(kind, types) && select_name(name, patterns)
}

} // verus!
