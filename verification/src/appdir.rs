//! The on-disk layout, as path strings: one home for the tool, and per
//! language a versions directory, a transient download directory and the
//! current-version link path. Creating the directories is the caller's
//! side; the layout itself is computed and verified here.

use vstd::prelude::*;
use crate::strutil::{push_char, str_eq};

verus! {

/// `a`, a separator, then `b`.
pub open spec fn spec_join(a: Seq<char>, b: Seq<char>) -> Seq<char> {
    a + seq!['/'] + b
}

/// Joins one path component onto a base path.
pub fn join_path(a: &str, b: &str) -> (r: String)
    ensures
        r@ == spec_join(a@, b@),
{
    let mut r = a.to_owned();
    push_char(&mut r, '/');
    r.append(b);
    proof {
        assert(r@ =~= spec_join(a@, b@));
    }
    r
}

/// One language's directories.
pub struct LanguageDir {
    pub home_dir: String,
    pub versions_dir: String,
    pub current_dir: String,
    pub tmp_dir: String,
}

impl LanguageDir {
    /// Lays the language's directories out under its home.
    pub fn new(lang_home: String) -> (r: LanguageDir)
        ensures
            r.home_dir@ == lang_home@,
            r.versions_dir@ == spec_join(lang_home@, "versions"@),
            r.current_dir@ == spec_join(lang_home@, "current"@),
            r.tmp_dir@ == spec_join(lang_home@, "tmp"@),
    {
        let versions_dir = join_path(lang_home.as_str(), "versions");
        let current_dir = join_path(lang_home.as_str(), "current");
        let tmp_dir = join_path(lang_home.as_str(), "tmp");
        LanguageDir { home_dir: lang_home, versions_dir, current_dir, tmp_dir }
    }

    pub fn get_home_dir(&self) -> (r: &str)
        ensures
            r@ == self.home_dir@,
    {
        self.home_dir.as_str()
    }

    pub fn get_versions_dir(&self) -> (r: &str)
        ensures
            r@ == self.versions_dir@,
    {
        self.versions_dir.as_str()
    }

    pub fn get_current_dir(&self) -> (r: &str)
        ensures
            r@ == self.current_dir@,
    {
        self.current_dir.as_str()
    }

    pub fn get_tmp_dir(&self) -> (r: &str)
        ensures
            r@ == self.tmp_dir@,
    {
        self.tmp_dir.as_str()
    }

    pub open spec fn spec_versions_dir(&self) -> Seq<char> {
        self.versions_dir@
    }

    pub open spec fn spec_current_dir(&self) -> Seq<char> {
        self.current_dir@
    }

    pub open spec fn spec_tmp_dir(&self) -> Seq<char> {
        self.tmp_dir@
    }
}

/// The tool's directories: its home, the log directory, and one
/// `LanguageDir` per supported language under `data`.
pub struct AppDir {
    pub home_dir: String,
    pub log_dir: String,
    pub go_dir: LanguageDir,
    pub java_dir: LanguageDir,
    pub node_dir: LanguageDir,
}

impl AppDir {
    /// Lays the tool's directories out under the user's home directory.
    pub fn new(user_home: &str) -> (r: AppDir)
        ensures
            r.home_dir@ == spec_join(user_home@, ".uvm"@),
            r.log_dir@ == spec_join(r.home_dir@, "log"@),
    {
        let home_dir = join_path(user_home, ".uvm");
        let log_dir = join_path(home_dir.as_str(), "log");
        let data_dir = join_path(home_dir.as_str(), "data");
        let go_dir = LanguageDir::new(join_path(data_dir.as_str(), "go"));
        let java_dir = LanguageDir::new(join_path(data_dir.as_str(), "java"));
        let node_dir = LanguageDir::new(join_path(data_dir.as_str(), "node"));
        AppDir { home_dir, log_dir, go_dir, java_dir, node_dir }
    }

    pub fn get_home_dir(&self) -> (r: &str)
        ensures
            r@ == self.home_dir@,
    {
        self.home_dir.as_str()
    }

    pub fn get_log_dir(&self) -> (r: &str)
        ensures
            r@ == self.log_dir@,
    {
        self.log_dir.as_str()
    }

    /// The directories of the named language, for `go`, `java` and `node`.
    pub fn get_language_dir(&self, name: &str) -> (r: Option<&LanguageDir>)
        ensures
            (r is Some) == (name@ == "go"@ || name@ == "java"@ || name@ == "node"@),
            name@ == "go"@ ==> r == Some(&self.go_dir),
            name@ == "java"@ ==> r == Some(&self.java_dir),
            name@ == "node"@ ==> r == Some(&self.node_dir),
    {
        proof {
            broadcast use vstd::string::group_string_axioms;

            reveal_strlit("go");
            reveal_strlit("java");
            reveal_strlit("node");
            assert("go"@.len() == 2);
            assert("java"@.len() == 4);
            assert("java"@ != "go"@);
            assert("node"@ != "go"@);
            assert("java"@[0] == 'j' && "node"@[0] == 'n');
            assert("java"@ != "node"@);
        }
        if str_eq(name, "go") {
            Some(&self.go_dir)
        } else if str_eq(name, "java") {
            Some(&self.java_dir)
        } else if str_eq(name, "node") {
            Some(&self.node_dir)
        } else {
            None
        }
    }
}

} // verus!
