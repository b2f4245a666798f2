//! Structured decode errors. Every error carries the structural path from
//! the document root to the failure point; decoding is fail-fast, so the
//! first error aborts the whole decode.

use vstd::prelude::*;

verus! {

#[derive(Debug)]
pub enum PathSeg {
    Field(String),
    Index(usize),
}

/// The six shapes a JSON value can take; used in type-mismatch reports.
#[derive(Debug, PartialEq, Eq, Structural, Clone, Copy)]
pub enum JsonKind {
    Null,
    Bool,
    Num,
    Str,
    Arr,
    Obj,
}

#[derive(Debug)]
pub enum ErrorKind {
    /// An object carried a key its grammar position does not declare.
    UnknownField(String),
    /// A required field of an object was absent.
    MissingRequiredField(String),
    /// A field was present with the wrong shape: expected, then actual.
    TypeMismatch(JsonKind, JsonKind),
    /// An object matched none of its position's discriminator keys.
    NoMatchingVariant,
    /// An object matched two or more discriminator keys; they are listed.
    AmbiguousVariant(Vec<String>),
    /// The recursion guard tripped; the document nests too deeply.
    DepthExceeded,
    /// The value tree itself is unusable (duplicate object keys, or the
    /// text was not well-formed JSON).
    MalformedInput,
}

#[derive(Debug)]
pub struct DecodeError {
    pub kind: ErrorKind,
    pub path: Vec<PathSeg>,
}

impl DecodeError {
    pub fn unknown_field(key: &String) -> (r: DecodeError)
        ensures
            r.kind matches ErrorKind::UnknownField(k) && k@ == key@,
            r.path@.len() == 0,
    {
        DecodeError { kind: ErrorKind::UnknownField(key.clone()), path: Vec::new() }
    }

    pub fn missing_field(key: &str) -> (r: DecodeError)
        ensures
            r.kind matches ErrorKind::MissingRequiredField(k) && k@ == key@,
            r.path@.len() == 0,
    {
        DecodeError { kind: ErrorKind::MissingRequiredField(key.to_owned()), path: Vec::new() }
    }

    pub fn type_mismatch(expected: JsonKind, actual: JsonKind) -> (r: DecodeError)
        ensures
            r.kind == ErrorKind::TypeMismatch(expected, actual),
            r.path@.len() == 0,
    {
        DecodeError { kind: ErrorKind::TypeMismatch(expected, actual), path: Vec::new() }
    }

    pub fn no_matching_variant() -> (r: DecodeError)
        ensures
            r.kind is NoMatchingVariant,
            r.path@.len() == 0,
    {
        DecodeError { kind: ErrorKind::NoMatchingVariant, path: Vec::new() }
    }

    pub fn ambiguous_variant(first: &String, second: &String) -> (r: DecodeError)
        ensures
            r.kind matches ErrorKind::AmbiguousVariant(ks) && ks@.len() == 2 && ks@[0]@ == first@
                && ks@[1]@ == second@,
            r.path@.len() == 0,
    {
        let mut matched: Vec<String> = Vec::new();
        matched.push(first.clone());
        matched.push(second.clone());
        DecodeError { kind: ErrorKind::AmbiguousVariant(matched), path: Vec::new() }
    }

    pub fn depth_exceeded() -> (r: DecodeError)
        ensures
            r.kind is DepthExceeded,
            r.path@.len() == 0,
    {
        DecodeError { kind: ErrorKind::DepthExceeded, path: Vec::new() }
    }

    pub fn malformed_input() -> (r: DecodeError)
        ensures
            r.kind is MalformedInput,
            r.path@.len() == 0,
    {
        DecodeError { kind: ErrorKind::MalformedInput, path: Vec::new() }
    }

    /// Record that the failure lies under the object field `name`.
    pub fn in_field(self, name: &str) -> (r: DecodeError)
        ensures
            r.kind == self.kind,
            r.path@.len() == self.path@.len() + 1,
            r.path@[0] matches PathSeg::Field(f) && f@ == name@,
            forall|i: int| 0 <= i < self.path@.len() ==> r.path@[i + 1] == self.path@[i],
    {
        let mut path = self.path;
        path.insert(0, PathSeg::Field(name.to_owned()));
        DecodeError { kind: self.kind, path }
    }

    /// Record that the failure lies under array element `i`.
    pub fn in_index(self, i: usize) -> (r: DecodeError)
        ensures
            r.kind == self.kind,
            r.path@.len() == self.path@.len() + 1,
            r.path@[0] == PathSeg::Index(i),
            forall|q: int| 0 <= q < self.path@.len() ==> r.path@[q + 1] == self.path@[q],
    {
        let mut path = self.path;
        path.insert(0, PathSeg::Index(i));
        DecodeError { kind: self.kind, path }
    }
}

} // verus!
