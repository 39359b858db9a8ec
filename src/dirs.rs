use vstd::prelude::*;
use vstd::string::StrSliceExecFns;

verus! {

/// Relies on `String::push_str`: it appends the characters of `string`.
pub assume_specification[ String::push_str ](s: &mut String, string: &str)
    ensures
        final(s)@ == old(s)@ + string@,
;

/// The name of the cached corpus file.
pub const CONTENT_FILE: &'static str = "bashorg.txt";

/// The name of the optional precomputed index file.
pub const INDEXES_FILE: &'static str = "indexes.txt";

/// A relative file name placed under the directory `base`: separated from it by `/`
/// unless `base` is empty or already ends with one.
pub open spec fn joined_path(base: Seq<char>, name: Seq<char>) -> Seq<char> {
    if base.len() == 0 {
        name
    } else if base.last() == '/' {
        base + name
    } else {
        base + seq!['/'] + name
    }
}

/// The application's data directory, resolved once and passed to whatever needs a path
/// in it.
pub struct DirManager {
    pub base_dir: String,
}

impl DirManager {
    /// A layout rooted at `base_dir`.
    pub fn new(base_dir: String) -> (r: DirManager)
        ensures
            r.base_dir@ == base_dir@,
    {
        DirManager { base_dir }
    }

    /// Where the precomputed index is kept.
    pub fn get_indexes_path(&self) -> (r: String)
        ensures
            r@ == joined_path(self.base_dir@, INDEXES_FILE@),
    {
        self.construct_file_path(INDEXES_FILE)
    }

    /// Where the corpus is cached.
    pub fn get_content_path(&self) -> (r: String)
        ensures
            r@ == joined_path(self.base_dir@, CONTENT_FILE@),
    {
        self.construct_file_path(CONTENT_FILE)
    }

    /// The path of `file_name` inside the base directory.
    fn construct_file_path(&self, file_name: &str) -> (r: String)
        ensures
            r@ == joined_path(self.base_dir@, file_name@),
    {
        let base = self.base_dir.as_str();
        let n = base.unicode_len();
        let mut path = self.base_dir.clone();
        if n > 0 && base.get_char(n - 1) != '/' {
            path.push_str("/");
            proof {
                reveal_strlit("/");
            }
        }
        path.push_str(file_name);
        path
    }
}

} // verus!
