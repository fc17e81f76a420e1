use vstd::prelude::*;

verus! {

/// How the traversal is executed: cooperative asynchronous, blocking
/// sequential, or thread-parallel. All three produce the same tree for the
/// same filesystem snapshot and configuration.
#[derive(Debug, Clone, Copy, PartialEq, Eq, Structural)]
pub enum Mode {
    Async,
    Sync,
    Parallel,
}

/// How sizes are reported: raw byte counts, or normalized into a
/// human-scaled unit.
#[derive(Debug, Clone, Copy, PartialEq, Eq, Structural)]
pub enum SizeFormat {
    Bytes,
    HumanReadable,
}

/// The key by which siblings are reordered after construction.
#[derive(Debug, Clone, Copy, PartialEq, Eq, Structural)]
pub enum SortKey {
    Name,
    Size,
    Time,
    Ext,
}

/// The renderer that consumes the finished tree.
#[derive(Debug, Clone, Copy, PartialEq, Eq, Structural)]
pub enum OutputFormat {
    Standard,
    Json,
    Markdown,
    Stats,
}

/// The execution mode denoted by the characters of `s`, if any.
pub open spec fn spec_mode_of(s: Seq<char>) -> Option<Mode> {
    if s == "a"@ || s == "async"@ {
        Some(Mode::Async)
    } else if s == "s"@ || s == "sync"@ {
        Some(Mode::Sync)
    } else if s == "p"@ || s == "parallel"@ {
        Some(Mode::Parallel)
    } else {
        None
    }
}

/// The size format denoted by the characters of `s`, if any.
pub open spec fn spec_size_format_of(s: Seq<char>) -> Option<SizeFormat> {
    if s == "b"@ || s == "bytes"@ {
        Some(SizeFormat::Bytes)
    } else if s == "h"@ || s == "humanreadable"@ {
        Some(SizeFormat::HumanReadable)
    } else {
        None
    }
}

/// The sort key denoted by the characters of `s`, if any.
pub open spec fn spec_sort_key_of(s: Seq<char>) -> Option<SortKey> {
    if s == "n"@ || s == "name"@ {
        Some(SortKey::Name)
    } else if s == "s"@ || s == "size"@ {
        Some(SortKey::Size)
    } else if s == "t"@ || s == "tiem"@ {
        Some(SortKey::Time)
    } else if s == "e"@ || s == "ext"@ {
        Some(SortKey::Ext)
    } else {
        None
    }
}

/// The message returned when a selector string is not recognized.
pub open spec fn spec_invalid_format_message(s: Seq<char>) -> Seq<char> {
    "Invalid size format:"@ + s
}

fn invalid_format_message(s: &str) -> (r: String)
    ensures
        r@ == spec_invalid_format_message(s@),
{
    String::from_str("Invalid size format:").concat(s)
}

impl Mode {
    /// Parse an execution-mode selector.
    pub fn from_str(s: &str) -> (r: Result<Mode, String>)
        ensures
            match r {
                Ok(m) => spec_mode_of(s@) == Some(m),
                Err(e) => spec_mode_of(s@) is None && e@ == spec_invalid_format_message(s@),
            },
    {
        if crate::strutil::str_eq(s, "a") || crate::strutil::str_eq(s, "async") {
            Ok(Mode::Async)
        } else if crate::strutil::str_eq(s, "s") || crate::strutil::str_eq(s, "sync") {
            Ok(Mode::Sync)
        } else if crate::strutil::str_eq(s, "p") || crate::strutil::str_eq(s, "parallel") {
            Ok(Mode::Parallel)
        } else {
            Err(invalid_format_message(s))
        }
    }
}

impl SizeFormat {
    /// Parse a size-format selector.
    pub fn from_str(s: &str) -> (r: Result<SizeFormat, String>)
        ensures
            match r {
                Ok(f) => spec_size_format_of(s@) == Some(f),
                Err(e) => spec_size_format_of(s@) is None && e@ == spec_invalid_format_message(s@),
            },
    {
        if crate::strutil::str_eq(s, "b") || crate::strutil::str_eq(s, "bytes") {
            Ok(SizeFormat::Bytes)
        } else if crate::strutil::str_eq(s, "h") || crate::strutil::str_eq(s, "humanreadable") {
            Ok(SizeFormat::HumanReadable)
        } else {
            Err(invalid_format_message(s))
        }
    }
}

impl SortKey {
    /// Parse a sort-key selector.
    pub fn from_str(s: &str) -> (r: Result<SortKey, String>)
        ensures
            match r {
                Ok(k) => spec_sort_key_of(s@) == Some(k),
                Err(e) => spec_sort_key_of(s@) is None && e@ == spec_invalid_format_message(s@),
            },
    {
        if crate::strutil::str_eq(s, "n") || crate::strutil::str_eq(s, "name") {
            Ok(SortKey::Name)
        } else if crate::strutil::str_eq(s, "s") || crate::strutil::str_eq(s, "size") {
            Ok(SortKey::Size)
        } else if crate::strutil::str_eq(s, "t") || crate::strutil::str_eq(s, "tiem") {
            Ok(SortKey::Time)
        } else if crate::strutil::str_eq(s, "e") || crate::strutil::str_eq(s, "ext") {
            Ok(SortKey::Ext)
        } else {
            Err(invalid_format_message(s))
        }
    }
}

} // verus!
