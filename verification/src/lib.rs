//! Serialize a project tree into one XML document.
//!
//! The crate holds the two verified components of the tool: the path filter
//! (`policy`), a pure predicate deciding which paths an exclusion policy
//! suppresses, and the document serializer (`serialize`), which turns the
//! entries of a directory walk into a single `<documents>` XML text, one
//! numbered `<document>` element per surviving readable file.  `escape`
//! carries the XML escaping both of them rely on.
//!
//! Walking the file system, reading files, loading configuration and writing
//! the result to a file or the clipboard are the surrounding program's
//! business: everything here works on plain values.

pub mod escape;
pub mod policy;
pub mod serialize;
