//! Anchors: the persisted unit binding metadata, a file location, and a
//! context together.

pub mod check_path;
pub mod context;

pub use context::Context;
pub use context::ContextError;

use vstd::prelude::*;

use self::check_path::{spec_path_is_absolute, AbsolutePath, CheckPath, RelativePath};

verus! {

/// The opaque user metadata carried by an anchor is a YAML value.
#[verifier::external_type_specification]
#[verifier::external_body]
pub struct ExValue(serde_yaml::Value);

/// Relies on serde_yaml's `Value::clone`, a derived structural clone: the
/// clone is the same value.
pub assume_specification[ <serde_yaml::Value as Clone>::clone ](v: &serde_yaml::Value) -> (res:
    serde_yaml::Value)
    ensures
        res == *v,
;

/// An anchor to a span of text in a file, addressed by an absolute path:
/// the file's path and encoding name, the context around the span, and
/// opaque user metadata.
#[derive(Debug)]
pub struct Anchor {
    file_path: String,
    encoding: String,
    context: Context,
    metadata: serde_yaml::Value,
}

impl Anchor {
    pub closed spec fn spec_file_path(&self) -> Seq<char> {
        self.file_path@
    }

    pub closed spec fn spec_encoding(&self) -> Seq<char> {
        self.encoding@
    }

    pub closed spec fn spec_context(&self) -> Context {
        self.context
    }

    pub closed spec fn spec_metadata(&self) -> serde_yaml::Value {
        self.metadata
    }

    /// Build an anchor.  Fails exactly when `file_path` is not absolute.
    pub fn new(
        file_path: &str,
        context: Context,
        metadata: serde_yaml::Value,
        encoding: String,
    ) -> (r: Result<Anchor, String>)
        ensures
            r is Ok <==> spec_path_is_absolute(file_path@),
            match r {
                Ok(a) => {
                    &&& a.spec_file_path() == file_path@
                    &&& a.spec_encoding() == encoding@
                    &&& a.spec_context() == context
                    &&& a.spec_metadata() == metadata
                },
                Err(_) => true,
            },
    {
        if let Some(msg) = AbsolutePath::check_path(file_path) {
            return Err(msg);
        }

        let anchor = Anchor {
            file_path: file_path.to_owned(),
            encoding,
            context,
            metadata,
        };

        Ok(anchor)
    }

    pub fn file_path(&self) -> (r: &String)
        ensures
            r@ == self.spec_file_path(),
    {
        &self.file_path
    }

    pub fn encoding(&self) -> (r: &String)
        ensures
            r@ == self.spec_encoding(),
    {
        &self.encoding
    }

    pub fn context(&self) -> (r: &Context)
        ensures
            *r == self.spec_context(),
    {
        &self.context
    }

    pub fn metadata(&self) -> (r: &serde_yaml::Value)
        ensures
            *r == self.spec_metadata(),
    {
        &self.metadata
    }
}

/// An anchor as stored inside a repository, addressed by a relative path,
/// so that repositories can be moved around.
#[derive(Debug)]
pub struct RelativeAnchor {
    file_path: String,
    encoding: String,
    context: Context,
    metadata: serde_yaml::Value,
}

impl RelativeAnchor {
    pub closed spec fn spec_file_path(&self) -> Seq<char> {
        self.file_path@
    }

    pub closed spec fn spec_encoding(&self) -> Seq<char> {
        self.encoding@
    }

    pub closed spec fn spec_context(&self) -> Context {
        self.context
    }

    pub closed spec fn spec_metadata(&self) -> serde_yaml::Value {
        self.metadata
    }

    /// Build a stored anchor.  Fails exactly when `file_path` is absolute.
    pub fn new(
        file_path: &str,
        context: Context,
        metadata: serde_yaml::Value,
        encoding: String,
    ) -> (r: Result<RelativeAnchor, String>)
        ensures
            r is Ok <==> !spec_path_is_absolute(file_path@),
            match r {
                Ok(a) => {
                    &&& a.spec_file_path() == file_path@
                    &&& a.spec_encoding() == encoding@
                    &&& a.spec_context() == context
                    &&& a.spec_metadata() == metadata
                },
                Err(_) => true,
            },
    {
        if let Some(msg) = RelativePath::check_path(file_path) {
            return Err(msg);
        }

        let anchor = RelativeAnchor {
            file_path: file_path.to_owned(),
            encoding,
            context,
            metadata,
        };

        Ok(anchor)
    }

    pub fn file_path(&self) -> (r: &String)
        ensures
            r@ == self.spec_file_path(),
    {
        &self.file_path
    }

    pub fn encoding(&self) -> (r: &String)
        ensures
            r@ == self.spec_encoding(),
    {
        &self.encoding
    }

    pub fn context(&self) -> (r: &Context)
        ensures
            *r == self.spec_context(),
    {
        &self.context
    }

    pub fn metadata(&self) -> (r: &serde_yaml::Value)
        ensures
            *r == self.spec_metadata(),
    {
        &self.metadata
    }
}

} // verus!
