//! An in-memory snapshot of the part of a directory tree that the loaders
//! inspect.  The caller reads the real pseudo-files and hands the library
//! plain values: file lines, or the message of a failed read.

use vstd::prelude::*;

verus! {

/// One file of a directory snapshot: its name and either its lines or the
/// message of the read failure.
pub struct FsFile {
    pub name: String,
    pub content: Result<Vec<String>, String>,
}

/// One directory of a snapshot: its name (one path segment), the files that
/// were read under it, its subdirectories, and, if listing the directory
/// itself failed, the message of that failure.
pub struct FsDir {
    pub name: String,
    pub files: Vec<FsFile>,
    pub subdirs: Vec<FsDir>,
    pub error: Option<String>,
}

/// The first file of the given name, if any.
pub open spec fn find_file(files: Seq<FsFile>, name: Seq<char>) -> Option<FsFile>
    decreases files.len(),
{
    if files.len() == 0 {
        None
    } else if files[0].name@ == name {
        Some(files[0])
    } else {
        find_file(files.drop_first(), name)
    }
}

proof fn lemma_find_file_at(files: Seq<FsFile>, name: Seq<char>, i: int)
    requires
        0 <= i < files.len(),
        files[i].name@ == name,
        forall|j: int| 0 <= j < i ==> #[trigger] files[j].name@ != name,
    ensures
        find_file(files, name) == Some(files[i]),
    decreases files.len(),
{
    if i > 0 {
        assert forall|j: int| 0 <= j < i - 1 implies #[trigger] files.drop_first()[j].name@
            != name by {
            assert(files.drop_first()[j] == files[j + 1]);
        }
        assert(files.drop_first()[i - 1] == files[i]);
        lemma_find_file_at(files.drop_first(), name, i - 1);
    }
}

proof fn lemma_find_file_none(files: Seq<FsFile>, name: Seq<char>)
    requires
        forall|j: int| 0 <= j < files.len() ==> #[trigger] files[j].name@ != name,
    ensures
        find_file(files, name) is None,
    decreases files.len(),
{
    if files.len() > 0 {
        assert forall|j: int| 0 <= j < files.len() - 1 implies #[trigger] files.drop_first()[j].name@
            != name by {
            assert(files.drop_first()[j] == files[j + 1]);
        }
        lemma_find_file_none(files.drop_first(), name);
    }
}

impl FsDir {
    /// Looks up a file of this directory by name.
    pub fn file(&self, name: &str) -> (r: Option<&FsFile>)
        ensures
            match r {
                Some(f) => find_file(self.files@, name@) == Some(*f),
                None => find_file(self.files@, name@) is None,
            },
    {
        let n = self.files.len();
        let mut i: usize = 0;
        while i < n
            invariant
                0 <= i <= n,
                n == self.files@.len(),
                forall|j: int| 0 <= j < i ==> #[trigger] self.files@[j].name@ != name@,
            decreases n - i,
        {
            if crate::text::str_cmp(self.files[i].name.as_str(), name) == 0 {
                proof {
                    crate::text::lemma_chars_cmp_props(self.files@[i as int].name@, name@);
                    lemma_find_file_at(self.files@, name@, i as int);
                }
                return Some(&self.files[i]);
            }
            proof {
                crate::text::lemma_chars_cmp_props(self.files@[i as int].name@, name@);
            }
            i = i + 1;
        }
        proof {
            lemma_find_file_none(self.files@, name@);
        }
        None
    }
}

} // verus!
