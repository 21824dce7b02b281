//! Where control groups lie in the file system, and where a process finds its
//! own.
use vstd::prelude::*;
use vstd::string::StrSliceExecFns;

verus! {

/// The first line, without what ends it.
pub open spec fn first_line(text: Seq<char>) -> Seq<char> {
    match text.index_of_first('\n') {
        Some(end) => if end > 0 && text[end - 1] == '\r' {
            text.take(end - 1)
        } else {
            text.take(end)
        },
        None => text,
    }
}

/// What follows the first line.
pub open spec fn after_first_line(text: Seq<char>) -> Seq<char> {
    match text.index_of_first('\n') {
        Some(end) => text.skip(end + 1),
        None => Seq::empty(),
    }
}

/// Whether a line is the entry of the unified hierarchy.
pub open spec fn is_unified(line: Seq<char>) -> bool {
    line.len() >= 3 && line[0] == '0' && line[1] == ':' && line[2] == ':'
}

/// The path in the first entry of the unified hierarchy, where there is one.
/// Each line of the text names a hierarchy, its controllers and the group of
/// the process, with a colon between them.
pub open spec fn unified_entry(text: Seq<char>) -> Option<Seq<char>>
    decreases text.len(),
    via unified_entry_decreases
{
    if text.len() == 0 {
        None
    } else if is_unified(first_line(text)) {
        Some(first_line(text).skip(3))
    } else {
        unified_entry(after_first_line(text))
    }
}

#[via_fn]
proof fn unified_entry_decreases(text: Seq<char>) {
    text.index_of_first_ensures('\n');
}

/// A path without the slashes at its start.
pub open spec fn without_leading_slashes(path: Seq<char>) -> Seq<char>
    decreases path.len(),
{
    if path.len() > 0 && path[0] == '/' {
        without_leading_slashes(path.skip(1))
    } else {
        path
    }
}

/// A path without the slashes at its end.
pub open spec fn without_trailing_slashes(path: Seq<char>) -> Seq<char>
    decreases path.len(),
{
    if path.len() > 0 && path.last() == '/' {
        without_trailing_slashes(path.drop_last())
    } else {
        path
    }
}

/// The directory that a path lies in: what stands before its last slash, apart
/// from slashes at its end, and nothing where there is none.
pub open spec fn parent(path: Seq<char>) -> Seq<char> {
    let path = without_trailing_slashes(path);
    match path.index_of_last('/') {
        Some(end) => path.take(end),
        None => Seq::empty(),
    }
}

/// A path below a directory.
pub open spec fn under(dir: Seq<char>, path: Seq<char>) -> Seq<char> {
    if path.len() == 0 {
        dir
    } else {
        dir + "/"@ + path
    }
}

/// Where the first line ends, counted from `from`.
fn find_line_end(text: &str, from: usize, len: usize) -> (r: Option<usize>)
    requires
        from <= len == text@.len(),
    ensures
        match r {
            Some(end) => from <= end < len && text@.skip(from as int).index_of_first('\n') == Some(
                end - from,
            ),
            None => text@.skip(from as int).index_of_first('\n') is None,
        },
{
    let ghost rest = text@.skip(from as int);
    proof {
        rest.index_of_first_ensures('\n');
    }
    let mut i: usize = from;
    while i < len
        invariant
            from <= i <= len == text@.len(),
            rest == text@.skip(from as int),
            forall|j: int| 0 <= j < i - from ==> rest[j] != '\n',
        decreases len - i,
    {
        assert(rest[i - from] == text@[i as int]);
        if text.get_char(i) == '\n' {
            proof {
                rest.index_of_first_ensures('\n');
                assert(rest.contains('\n'));
                let found = rest.index_of_first('\n')->0;
                assert(rest[found] == '\n');
            }
            return Some(i);
        }
        i = i + 1;
    }
    None
}

/// The path in the first entry of the unified hierarchy, where there is one.
pub fn find_unified_entry(text: &str) -> (r: Option<String>)
    ensures
        match r {
            Some(path) => unified_entry(text@) == Some(path@),
            None => unified_entry(text@) is None,
        },
{
    let len: usize = text.unicode_len();
    let mut from: usize = 0;
    assert(text@.skip(0) =~= text@);
    while from < len
        invariant
            from <= len == text@.len(),
            unified_entry(text@) == unified_entry(text@.skip(from as int)),
        decreases len - from,
    {
        let ghost rest = text@.skip(from as int);
        let found = find_line_end(text, from, len);
        proof {
            rest.index_of_first_ensures('\n');
        }
        let end: usize = match found {
            Some(end) => if end > from && text.get_char(end - 1) == '\r' {
                end - 1
            } else {
                end
            },
            None => len,
        };
        let line = text.substring_char(from, end);
        assert(line@ =~= first_line(rest));
        if end - from >= 3 && line.get_char(0) == '0' && line.get_char(1) == ':' && line.get_char(2)
            == ':' {
            let path = line.substring_char(3, end - from);
            assert(path@ =~= first_line(rest).skip(3));
            return Some(path.to_owned());
        }
        let next: usize = match found {
            Some(end) => end + 1,
            None => len,
        };
        assert(text@.skip(next as int) =~= after_first_line(rest));
        from = next;
    }
    assert(text@.skip(from as int) =~= Seq::<char>::empty());
    None
}

/// A path without the slashes at its start.
pub fn trim_leading_slashes(path: &str) -> (r: String)
    ensures
        r@ == without_leading_slashes(path@),
{
    let len: usize = path.unicode_len();
    let mut from: usize = 0;
    assert(path@.skip(0) =~= path@);
    while from < len && path.get_char(from) == '/'
        invariant
            from <= len == path@.len(),
            without_leading_slashes(path@) == without_leading_slashes(path@.skip(from as int)),
        decreases len - from,
    {
        assert(path@.skip(from as int).skip(1) =~= path@.skip(from + 1));
        from = from + 1;
    }
    let rest = path.substring_char(from, len);
    assert(rest@ =~= path@.skip(from as int));
    rest.to_owned()
}

/// The directory that a path lies in.
pub fn parent_of(path: &str) -> (r: String)
    ensures
        r@ == parent(path@),
{
    let mut len: usize = path.unicode_len();
    assert(path@.take(len as int) =~= path@);
    while len > 0 && path.get_char(len - 1) == '/'
        invariant
            len <= path@.len(),
            without_trailing_slashes(path@) == without_trailing_slashes(path@.take(len as int)),
        decreases len,
    {
        assert(path@.take(len as int).drop_last() =~= path@.take(len - 1));
        len = len - 1;
    }
    let ghost trimmed = path@.take(len as int);
    proof {
        assert(len > 0 ==> trimmed.last() == path@[len - 1]);
        trimmed.index_of_last_ensures('/');
    }
    let mut end: usize = len;
    while end > 0
        invariant
            end <= len <= path@.len(),
            trimmed == path@.take(len as int),
            trimmed == without_trailing_slashes(path@),
            forall|j: int| end <= j < len ==> trimmed[j] != '/',
        decreases end,
    {
        if path.get_char(end - 1) == '/' {
            proof {
                trimmed.index_of_last_ensures('/');
                assert(trimmed[end - 1] == '/');
                assert(trimmed.contains('/'));
            }
            let rest = path.substring_char(0, end - 1);
            assert(rest@ =~= trimmed.take(end - 1));
            return rest.to_owned();
        }
        assert(trimmed[end - 1] == path@[end - 1]);
        end = end - 1;
    }
    String::new()
}

/// A path below a directory.
pub fn join(dir: &str, path: &str) -> (r: String)
    ensures
        r@ == under(dir@, path@),
{
    let mut out = dir.to_owned();
    if path.unicode_len() > 0 {
        out.append("/");
        out.append(path);
    }
    out
}

} // verus!
