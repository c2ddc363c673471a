//! Names derived from paths: the state record's file name, and the test for
//! a state record by its extension.
use vstd::prelude::*;
use crate::mapping::{component_extension, extension_of};

verus! {

/// A character in lower case, for ASCII letters; any other character as it is.
pub open spec fn lower_char(c: char) -> char {
    if 'A' <= c && c <= 'Z' {
        ((c as u32) + 32) as char
    } else {
        c
    }
}

/// A character sequence with its ASCII letters in lower case.
pub open spec fn lower_seq(s: Seq<char>) -> Seq<char> {
    s.map_values(|c: char| lower_char(c))
}

/// The characters that split a path into the words of a record name.
pub open spec fn is_separator(c: char) -> bool {
    c == '/' || c == '.' || c == ' '
}

/// The words of `s` (maximal runs of characters that are not separators), in
/// lower case and joined by single underscores.
pub open spec fn name_body(s: Seq<char>) -> Seq<char>
    decreases s.len(),
{
    if s.len() == 0 {
        Seq::empty()
    } else {
        let prev = name_body(s.drop_last());
        let c = s.last();
        if is_separator(c) {
            prev
        } else if prev.len() > 0 && is_separator(s.drop_last().last()) {
            prev + seq!['_', lower_char(c)]
        } else {
            prev.push(lower_char(c))
        }
    }
}

/// The file name of the state record of a mirror directory.
pub open spec fn database_name(mirror: Seq<char>) -> Seq<char> {
    name_body(mirror) + seq!['.', 'm', 'm', 'd', 'b']
}

/// Why no record name can be derived from a mirror path.
#[derive(Debug, Clone, Copy, PartialEq, Eq, Structural)]
pub enum DatabasePathError {
    /// The mirror path has no components.
    EmptyPath,
}

pub fn lower_char_exec(c: char) -> (r: char)
    ensures
        r == lower_char(c),
{
    if 'A' <= c && c <= 'Z' {
        let b = (c as u32 + 32) as u8;
        b as char
    } else {
        c
    }
}

/// Relies on `String: FromIterator<char>`: the string holds the characters in order.
#[verifier::external_body]
pub(crate) fn string_from_chars(chars: &Vec<char>) -> (r: String)
    ensures
        r@ == chars@,
{
    chars.iter().collect()
}

/// The state record path for a mirror directory: every component of the
/// path in lower case, `/`, `.` and spaces turned into word breaks, the
/// words joined by `_`, followed by `.mmdb`. Fails on an empty path.
pub fn database_path_from_mirror(mirror_path: &str) -> (r: Result<String, DatabasePathError>)
    ensures
        mirror_path@.len() == 0 <==> r == Err::<String, DatabasePathError>(
            DatabasePathError::EmptyPath,
        ),
        r is Ok ==> r->Ok_0@ == database_name(mirror_path@),
{
    let n = mirror_path.unicode_len();
    if n == 0 {
        return Err(DatabasePathError::EmptyPath);
    }
    let mut out: Vec<char> = Vec::new();
    let mut i: usize = 0;
    while i < n
        invariant
            i <= n,
            n == mirror_path@.len(),
            out@ == name_body(mirror_path@.subrange(0, i as int)),
        decreases n - i,
    {
        let c = mirror_path.get_char(i);
        let ghost prev = mirror_path@.subrange(0, i as int);
        let ghost next = mirror_path@.subrange(0, i as int + 1);
        assert(next.drop_last() =~= prev);
        assert(next.last() == c);
        let after_break = if out.len() > 0 {
            let p = mirror_path.get_char(i - 1);
            p == '/' || p == '.' || p == ' '
        } else {
            false
        };
        if c == '/' || c == '.' || c == ' ' {
        } else if after_break {
            out.push('_');
            out.push(lower_char_exec(c));
            assert(out@ =~= name_body(prev) + seq!['_', lower_char(c)]);
        } else {
            out.push(lower_char_exec(c));
        }
        i = i + 1;
    }
    assert(mirror_path@.subrange(0, n as int) =~= mirror_path@);
    let mut name = string_from_chars(&out);
    name.append(".");
    name.append("mmdb");
    proof {
        reveal_strlit(".");
        reveal_strlit("mmdb");
    }
    assert(name@ =~= database_name(mirror_path@));
    Ok(name)
}

/// Whether a file name is that of a state record: its extension is `mmdb`.
pub fn is_database_file(name: &str) -> (r: bool)
    ensures
        r == (extension_of(name@) == Some(seq!['m', 'm', 'd', 'b'])),
{
    proof {
        reveal_strlit("mmdb");
    }
    assert("mmdb"@ =~= seq!['m', 'm', 'd', 'b']);
    match component_extension(name) {
        Some(ext) => {
            let expected = String::from_str("mmdb");
            ext == expected
        },
        None => false,
    }
}

} // verus!
