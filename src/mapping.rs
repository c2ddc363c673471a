//! Where a source entry lands in the mirror tree.
//!
//! A path is held as the sequence of its components (`Vec<String>`), the
//! first of which may be a root such as `/`.
use vstd::prelude::*;

verus! {

/// The index of the last `.` of `s`, or -1 where there is none.
pub open spec fn last_dot(s: Seq<char>) -> int
    decreases s.len(),
{
    if s.len() == 0 {
        -1
    } else if s.last() == '.' {
        s.len() - 1
    } else {
        last_dot(s.drop_last())
    }
}

/// Whether a component names a file or directory: a root, `.` and `..` do not.
pub open spec fn names_entry(name: Seq<char>) -> bool {
    name != seq!['.'] && name != seq!['.', '.'] && name != seq!['/']
}

/// Whether `name` carries an extension: a dot that is not its first character.
pub open spec fn has_extension(name: Seq<char>) -> bool {
    names_entry(name) && last_dot(name) > 0
}

/// The extension of a component: what follows its last dot.
pub open spec fn extension_of(name: Seq<char>) -> Option<Seq<char>> {
    if has_extension(name) {
        Some(name.subrange(last_dot(name) + 1, name.len() as int))
    } else {
        None
    }
}

/// A component without its extension and the dot before it.
pub open spec fn stem_of(name: Seq<char>) -> Seq<char> {
    if has_extension(name) {
        name.subrange(0, last_dot(name))
    } else {
        name
    }
}

/// A component with its extension replaced by `ext` (removed where `ext` is empty).
pub open spec fn with_extension(name: Seq<char>, ext: Seq<char>) -> Seq<char> {
    if !names_entry(name) {
        name
    } else if ext.len() == 0 {
        stem_of(name)
    } else {
        stem_of(name) + seq!['.'] + ext
    }
}

/// The mirror root followed by the entry's components below the source root.
pub open spec fn mirrored(
    source_root: Seq<Seq<char>>,
    mirror_root: Seq<Seq<char>>,
    entry: Seq<Seq<char>>,
) -> Seq<Seq<char>> {
    let skip = if source_root.len() <= entry.len() { source_root.len() } else { entry.len() };
    mirror_root + entry.subrange(skip as int, entry.len() as int)
}

/// The destination of an entry, with the last component's extension rewritten
/// where a filter claimed the entry.
pub open spec fn destination_of(
    source_root: Seq<Seq<char>>,
    mirror_root: Seq<Seq<char>>,
    entry: Seq<Seq<char>>,
    new_extension: Option<Seq<char>>,
) -> Seq<Seq<char>> {
    let base = mirrored(source_root, mirror_root, entry);
    match new_extension {
        Some(ext) => if base.len() > 0 {
            base.update(base.len() - 1, with_extension(base.last(), ext))
        } else {
            base
        },
        None => base,
    }
}

/// The text of a path: its components joined by `/`, with no separator
/// added after one that already ends in `/` (a root).
pub open spec fn joined(parts: Seq<Seq<char>>) -> Seq<char>
    decreases parts.len(),
{
    if parts.len() == 0 {
        Seq::empty()
    } else {
        let prev = joined(parts.drop_last());
        if prev.len() == 0 || prev.last() == '/' {
            prev + parts.last()
        } else {
            prev + seq!['/'] + parts.last()
        }
    }
}

/// The text of a path given by its components, as the key under which the
/// state record and the set of destinations know it.
pub fn path_text(parts: &Vec<String>) -> (r: String)
    ensures
        r@ == joined(parts.deep_view()),
{
    let mut out = String::new();
    let mut i: usize = 0;
    while i < parts.len()
        invariant
            i <= parts.len(),
            out@ == joined(parts.deep_view().subrange(0, i as int)),
        decreases parts.len() - i,
    {
        let ghost prev = parts.deep_view().subrange(0, i as int);
        let ghost next = parts.deep_view().subrange(0, i as int + 1);
        assert(next.drop_last() =~= prev);
        let n = out.as_str().unicode_len();
        let needs_separator = n > 0 && out.as_str().get_char(n - 1) != '/';
        if needs_separator {
            out.append("/");
            proof {
                reveal_strlit("/");
            }
        }
        out.append(parts[i].as_str());
        assert(out@ =~= joined(next));
        i = i + 1;
    }
    assert(parts.deep_view().subrange(0, parts.len() as int) =~= parts.deep_view());
    out
}

fn is_single(s: &str, c: char) -> (r: bool)
    ensures
        r == (s@ == seq![c]),
{
    if s.unicode_len() == 1 {
        let first = s.get_char(0);
        if first == c {
            assert(s@ =~= seq![c]);
            true
        } else {
            false
        }
    } else {
        false
    }
}

fn names_entry_exec(name: &str) -> (r: bool)
    ensures
        r == names_entry(name@),
{
    if is_single(name, '.') || is_single(name, '/') {
        return false;
    }
    if name.unicode_len() == 2 && name.get_char(0) == '.' && name.get_char(1) == '.' {
        assert(name@ =~= seq!['.', '.']);
        return false;
    }
    assert(name@.len() == 2 ==> name@ != seq!['.', '.'] || (name@[0] == '.' && name@[1] == '.'));
    true
}

/// The index of the last dot of `name`, if there is one.
fn find_last_dot(name: &str) -> (r: Option<usize>)
    ensures
        match r {
            Some(i) => i == last_dot(name@) && i < name@.len(),
            None => last_dot(name@) == -1,
        },
{
    let n = name.unicode_len();
    let mut found: Option<usize> = None;
    let mut i: usize = 0;
    while i < n
        invariant
            i <= n,
            n == name@.len(),
            match found {
                Some(k) => k == last_dot(name@.subrange(0, i as int)) && k < i,
                None => last_dot(name@.subrange(0, i as int)) == -1,
            },
        decreases n - i,
    {
        let c = name.get_char(i);
        let ghost prev = name@.subrange(0, i as int);
        let ghost next = name@.subrange(0, i as int + 1);
        assert(next.drop_last() =~= prev);
        if c == '.' {
            found = Some(i);
        }
        i = i + 1;
    }
    assert(name@.subrange(0, n as int) =~= name@);
    found
}

/// The extension of a path component, as `Path::extension` gives it.
pub fn component_extension(name: &str) -> (r: Option<String>)
    ensures
        match r {
            Some(ext) => extension_of(name@) == Some(ext@),
            None => extension_of(name@).is_none(),
        },
{
    if !names_entry_exec(name) {
        return None;
    }
    match find_last_dot(name) {
        Some(d) => if d > 0 {
            let n = name.unicode_len();
            let ext = name.substring_char(d + 1, n);
            Some(String::from_str(ext))
        } else {
            None
        },
        None => None,
    }
}

/// A path component with its extension replaced, as `Path::set_extension` does.
pub fn replace_extension(name: &str, ext: &str) -> (r: String)
    ensures
        r@ == with_extension(name@, ext@),
{
    if !names_entry_exec(name) {
        return String::from_str(name);
    }
    let stem = match find_last_dot(name) {
        Some(d) => if d > 0 {
            name.substring_char(0, d)
        } else {
            name
        },
        None => name,
    };
    assert(stem@ == stem_of(name@));
    let mut out = String::from_str(stem);
    if ext.unicode_len() > 0 {
        out.append(".");
        out.append(ext);
        proof {
            reveal_strlit(".");
        }
        assert(out@ =~= stem_of(name@) + seq!['.'] + ext@);
    }
    out
}

/// The destination of a source entry: the mirror root joined with the
/// entry's path below the source root, with the extension of the last
/// component replaced by `new_extension` where a filter claimed the entry.
pub fn mirror_entry(
    source_root: &Vec<String>,
    mirror_root: &Vec<String>,
    entry: &Vec<String>,
    new_extension: Option<&String>,
) -> (r: Vec<String>)
    ensures
        r.deep_view() == destination_of(
            source_root.deep_view(),
            mirror_root.deep_view(),
            entry.deep_view(),
            match new_extension {
                Some(e) => Some(e@),
                None => None,
            },
        ),
{
    let skip = if source_root.len() <= entry.len() { source_root.len() } else { entry.len() };
    let mut out: Vec<String> = Vec::new();
    let mut i: usize = 0;
    while i < mirror_root.len()
        invariant
            i <= mirror_root.len(),
            out.deep_view() =~= mirror_root.deep_view().subrange(0, i as int),
        decreases mirror_root.len() - i,
    {
        let part = mirror_root[i].clone();
        let ghost prev = out.deep_view();
        out.push(part);
        assert(out.deep_view() =~= prev.push(mirror_root.deep_view()[i as int]));
        i = i + 1;
    }
    let mut j: usize = skip;
    while j < entry.len()
        invariant
            skip <= j <= entry.len(),
            out.deep_view() =~= mirror_root.deep_view() + entry.deep_view().subrange(
                skip as int,
                j as int,
            ),
        decreases entry.len() - j,
    {
        let part = entry[j].clone();
        let ghost prev = out.deep_view();
        out.push(part);
        assert(out.deep_view() =~= prev.push(entry.deep_view()[j as int]));
        j = j + 1;
    }
    let ghost base = out.deep_view();
    assert(base =~= mirrored(source_root.deep_view(), mirror_root.deep_view(), entry.deep_view()));
    match new_extension {
        Some(ext) => {
            let n = out.len();
            if n > 0 {
                let renamed = replace_extension(out[n - 1].as_str(), ext.as_str());
                out.set(n - 1, renamed);
                assert(out.deep_view() =~= base.update(n - 1, with_extension(base.last(), ext@)));
            }
        },
        None => {},
    }
    out
}

} // verus!
