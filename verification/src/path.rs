//! Slash-separated names of files: the directory of a file, and names relative to it.
use vstd::prelude::*;
use vstd::string::{StringExecFns, StrSliceExecFns};

verus! {

/// A name without the slashes and the `.` components at its end. A lone `/` or `.` stays.
pub open spec fn trimmed(path: Seq<char>) -> Seq<char>
    decreases path.len(),
{
    if path.len() > 1 && (path.last() == '/' || path.last() == '.' && path[path.len() - 2] == '/') {
        trimmed(path.drop_last())
    } else {
        path
    }
}

/// A name without the characters behind its last slash.
pub open spec fn without_last(path: Seq<char>) -> Seq<char>
    decreases path.len(),
{
    if path.len() > 0 && path.last() != '/' {
        without_last(path.drop_last())
    } else {
        path
    }
}

/// A name without its final component, if it has one.
pub open spec fn parent(path: Seq<char>) -> Option<Seq<char>> {
    let whole = trimmed(path);
    if whole.len() == 0 || whole == seq!['/'] {
        None
    } else {
        Some(trimmed(without_last(whole)))
    }
}

/// The name `path` seen from the directory `base`. One that starts with a slash stays as it is.
pub open spec fn joined(base: Seq<char>, path: Seq<char>) -> Seq<char> {
    if path.len() > 0 && path[0] == '/' {
        path
    } else if base.len() == 0 || base.last() == '/' {
        base + path
    } else {
        base.push('/') + path
    }
}

/// The characters of a text.
fn characters(s: &str) -> (chars: Vec<char>)
    ensures
        chars@ == s@,
{
    let mut chars: Vec<char> = Vec::new();
    for c in it: s.chars()
        invariant
            it.seq() == s@,
            chars@ == s@.take(it.index()),
    {
        chars.push(c);
    }
    chars
}

/// How long the first `end` characters are once trimmed.
fn trimmed_length(path: &Vec<char>, end: usize) -> (len: usize)
    requires
        end <= path@.len(),
    ensures
        len <= end,
        path@.take(len as int) == trimmed(path@.take(end as int)),
{
    let mut len: usize = end;
    while len > 1 && (path[len - 1] == '/' || path[len - 1] == '.' && path[len - 2] == '/')
        invariant
            len <= end <= path@.len(),
            trimmed(path@.take(len as int)) == trimmed(path@.take(end as int)),
        decreases len,
    {
        assert(path@.take(len as int).drop_last() =~= path@.take(len - 1));
        len = len - 1;
    }
    len
}

/// The name `path` without its final component, if it has one.
pub fn parent_of(path: &str) -> (dir: Option<String>)
    ensures
        match dir {
            Some(d) => parent(path@) == Some(d@),
            None => parent(path@) is None,
        },
{
    let chars = characters(path);
    assert(chars@.take(chars@.len() as int) =~= path@);
    let whole: usize = trimmed_length(&chars, chars.len());
    assert(chars@.take(whole as int).len() == whole);
    if whole == 0 {
        return None;
    }
    if whole == 1 && chars[0] == '/' {
        assert(chars@.take(whole as int) =~= seq!['/']);
        return None;
    }
    assert(chars@.take(whole as int) != seq!['/']) by {
        if chars@.take(whole as int) == seq!['/'] {
            assert(chars@.take(whole as int)[0] == '/');
        }
    }
    let mut end: usize = whole;
    while end > 0 && chars[end - 1] != '/'
        invariant
            end <= whole <= chars@.len(),
            without_last(chars@.take(end as int)) == without_last(chars@.take(whole as int)),
        decreases end,
    {
        assert(chars@.take(end as int).drop_last() =~= chars@.take(end - 1));
        end = end - 1;
    }
    let dir: usize = trimmed_length(&chars, end);
    assert(chars@.take(dir as int) =~= path@.subrange(0, dir as int));
    Some(path.substring_char(0, dir).to_owned())
}

/// The name `path` seen from the directory `base`.
pub fn join(base: &str, path: &str) -> (name: String)
    ensures
        name@ == joined(base@, path@),
{
    if path.unicode_len() > 0 && path.get_char(0) == '/' {
        return path.to_owned();
    }
    let mut name = base.to_owned();
    let count: usize = base.unicode_len();
    if count > 0 && base.get_char(count - 1) != '/' {
        proof {
            reveal_strlit("/");
        }
        name.append("/");
        assert(name@ =~= base@.push('/'));
    }
    name.append(path);
    name
}

} // verus!
