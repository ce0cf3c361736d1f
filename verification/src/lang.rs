//! The closed set of supported languages and their installation paths.

use vstd::prelude::*;

use crate::strings::{chars_to_string, push_chars};

verus! {

/// A supported runtime and version pair.
#[derive(Debug, Clone, Copy, PartialEq, Eq, PartialOrd, Ord, Hash, Structural)]
pub enum Language {
    Rust1_82,
    Go1_23,
    Python3_13,
}

impl Language {
    /// The wire identifier of each language.
    pub open spec fn spec_u32(self) -> u32 {
        match self {
            Language::Rust1_82 => 1u32,
            Language::Go1_23 => 2u32,
            Language::Python3_13 => 3u32,
        }
    }

    /// The directory name of each language's installation.
    pub open spec fn spec_dir_name(self) -> Seq<char> {
        match self {
            Language::Rust1_82 => "rust182"@,
            Language::Go1_23 => "go123"@,
            Language::Python3_13 => "python313"@,
        }
    }

    pub fn as_u32(self) -> (r: u32)
        ensures
            r == self.spec_u32(),
    {
        match self {
            Language::Rust1_82 => 1,
            Language::Go1_23 => 2,
            Language::Python3_13 => 3,
        }
    }

    /// The language with the given wire identifier, if any.
    pub fn try_from_u32(value: u32) -> (r: Option<Language>)
        ensures
            match r {
                Some(lang) => lang.spec_u32() == value,
                None => forall|lang: Language| lang.spec_u32() != value,
            },
    {
        match value {
            1 => Some(Language::Rust1_82),
            2 => Some(Language::Go1_23),
            3 => Some(Language::Python3_13),
            _ => {
                assert(forall|lang: Language| lang.spec_u32() != value) by {
                    assert(Language::Rust1_82.spec_u32() == 1);
                    assert(Language::Go1_23.spec_u32() == 2);
                    assert(Language::Python3_13.spec_u32() == 3);
                }
                None
            },
        }
    }

    /// The directory name of this language's installation.
    pub fn dir_name(self) -> (r: String)
        ensures
            r@ == self.spec_dir_name(),
    {
        match self {
            Language::Rust1_82 => "rust182".to_owned(),
            Language::Go1_23 => "go123".to_owned(),
            Language::Python3_13 => "python313".to_owned(),
        }
    }
}

/// Where a language's toolchain is mounted from, relative to the base
/// directory that holds one installation per language.
pub trait LangExt {
    /// The installation directory mounted for this language.
    spec fn spec_runner_path(&self, base: Seq<char>) -> Seq<char>;

    fn runner_path(&self, base: &str) -> (r: String)
        ensures
            r@ == self.spec_runner_path(base@),
    ;

    fn bin_path(&self, base: &str) -> (r: String)
        ensures
            r@ == self.spec_runner_path(base@) + "/bin"@,
    ;
}

impl LangExt for Language {
    open spec fn spec_runner_path(&self, base: Seq<char>) -> Seq<char> {
        base + "/"@ + self.spec_dir_name()
    }

    fn runner_path(&self, base: &str) -> (r: String)
        ensures
            r@ == self.spec_runner_path(base@),
    {
        let mut out: Vec<char> = Vec::new();
        push_chars(&mut out, base);
        push_chars(&mut out, "/");
        let dir = self.dir_name();
        push_chars(&mut out, dir.as_str());
        assert(out@ =~= self.spec_runner_path(base@));
        chars_to_string(&out)
    }

    fn bin_path(&self, base: &str) -> (r: String)
        ensures
            r@ == self.spec_runner_path(base@) + "/bin"@,
    {
        let prefix = self.runner_path(base);
        let mut out: Vec<char> = Vec::new();
        push_chars(&mut out, prefix.as_str());
        push_chars(&mut out, "/bin");
        assert(out@ =~= self.spec_runner_path(base@) + "/bin"@);
        chars_to_string(&out)
    }
}

} // verus!
