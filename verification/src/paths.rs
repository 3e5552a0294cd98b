//! Byte-string paths.
//!
//! The library stores file paths as byte vectors. The two operations the tab
//! and document logic needs are the file name (the bytes after the last
//! slash) and the extension (the bytes of the file name after its last dot,
//! where a dot that starts the file name does not count).

use vstd::prelude::*;
use vstd::std_specs::cmp::PartialEqSpec;

verus! {

pub const SLASH: u8 = 47;

pub const DOT: u8 = 46;

/// The bytes after the last slash; empty when the path is empty or ends in a
/// slash.
pub open spec fn file_name_of(path: Seq<u8>) -> Seq<u8>
    decreases path.len(),
{
    if path.len() == 0 {
        Seq::empty()
    } else if path.last() == SLASH {
        Seq::empty()
    } else {
        file_name_of(path.drop_last()).push(path.last())
    }
}

/// The bytes of the file name after its last dot. A dot at the start of the
/// file name does not begin an extension, so `.profile` has none.
pub open spec fn ext_of_name(name: Seq<u8>) -> Option<Seq<u8>>
    decreases name.len(),
{
    if name.len() <= 1 {
        None
    } else if name.last() == DOT {
        Some(Seq::empty())
    } else {
        match ext_of_name(name.drop_last()) {
            Some(e) => Some(e.push(name.last())),
            None => None,
        }
    }
}

pub open spec fn extension_of(path: Seq<u8>) -> Option<Seq<u8>> {
    ext_of_name(file_name_of(path))
}

/// When no slash occurs at or after `start` and the byte before `start` (if
/// any) is a slash, the file name is exactly the suffix from `start`.
proof fn lemma_file_name_suffix(s: Seq<u8>, start: int)
    requires
        0 <= start <= s.len(),
        forall|j: int| start <= j < s.len() ==> s[j] != SLASH,
        start > 0 ==> s[start - 1] == SLASH,
    ensures
        file_name_of(s) == s.skip(start),
    decreases s.len(),
{
    if s.len() == start {
        if start > 0 {
            assert(s.last() == SLASH);
        }
        assert(file_name_of(s) =~= s.skip(start));
    } else {
        assert(s[s.len() - 1] != SLASH);
        lemma_file_name_suffix(s.drop_last(), start);
        assert(s.drop_last().skip(start).push(s.last()) =~= s.skip(start));
    }
}

/// When `name[d]` is the last dot and it is not the first byte, the extension
/// is exactly the suffix after it.
proof fn lemma_ext_suffix(name: Seq<u8>, d: int)
    requires
        1 <= d < name.len(),
        name[d] == DOT,
        forall|j: int| d < j < name.len() ==> name[j] != DOT,
    ensures
        ext_of_name(name) == Some(name.skip(d + 1)),
    decreases name.len(),
{
    if d == name.len() - 1 {
        assert(name.last() == DOT);
        assert(name.skip(d + 1) =~= Seq::<u8>::empty());
    } else {
        assert(name.last() != DOT);
        lemma_ext_suffix(name.drop_last(), d);
        assert(name.drop_last().skip(d + 1).push(name.last()) =~= name.skip(d + 1));
    }
}

/// A file name with no dot after its first byte has no extension.
proof fn lemma_ext_none(name: Seq<u8>)
    requires
        forall|j: int| 1 <= j < name.len() ==> name[j] != DOT,
    ensures
        ext_of_name(name) is None,
    decreases name.len(),
{
    if name.len() <= 1 {
    } else {
        assert(name.last() != DOT);
        lemma_ext_none(name.drop_last());
    }
}

/// A copy of a byte vector, with the same view.
pub fn clone_path(p: &Vec<u8>) -> (r: Vec<u8>)
    ensures
        r@ == p@,
{
    let r = p.clone();
    proof {
        assert(forall|i: int| 0 <= i < p@.len() ==> p@[i] == r@[i]);
        assert(r@ =~= p@);
    }
    r
}

/// Byte-vector equality, stated over the views.
pub fn bytes_eq(a: &Vec<u8>, b: &Vec<u8>) -> (r: bool)
    ensures
        r == (a@ == b@),
{
    let r = *a == *b;
    proof {
        if r {
            assert(a@ =~= b@);
        } else if a@ == b@ {
            assert(a.eq_spec(b));
        }
    }
    r
}

/// Scans for the position right after the last slash.
fn file_name_start(path: &Vec<u8>) -> (start: usize)
    ensures
        0 <= start <= path@.len(),
        forall|j: int| start <= j < path@.len() ==> path@[j] != SLASH,
        start > 0 ==> path@[start - 1] == SLASH,
        file_name_of(path@) == path@.skip(start as int),
{
    let mut start: usize = 0;
    let mut i: usize = 0;
    while i < path.len()
        invariant
            0 <= start <= i <= path@.len(),
            forall|j: int| start <= j < i ==> path@[j] != SLASH,
            start > 0 ==> path@[start - 1] == SLASH,
        decreases path@.len() - i,
    {
        if path[i] == SLASH {
            start = i + 1;
        }
        i = i + 1;
    }
    proof {
        lemma_file_name_suffix(path@, start as int);
    }
    start
}

/// The file name of a byte path: the bytes after the last slash.
pub fn file_name(path: &Vec<u8>) -> (r: Vec<u8>)
    ensures
        r@ == file_name_of(path@),
{
    let start = file_name_start(path);
    let mut r: Vec<u8> = Vec::new();
    let mut j: usize = start;
    while j < path.len()
        invariant
            start <= j <= path@.len(),
            r@ == path@.subrange(start as int, j as int),
        decreases path@.len() - j,
    {
        r.push(path[j]);
        j = j + 1;
    }
    proof {
        assert(r@ =~= path@.skip(start as int));
    }
    r
}

/// The extension of a byte path, per `extension_of`.
pub fn extension(path: &Vec<u8>) -> (r: Option<Vec<u8>>)
    ensures
        match r {
            Some(e) => extension_of(path@) == Some(e@),
            None => extension_of(path@) is None,
        },
{
    let start = file_name_start(path);
    let ghost name = path@.skip(start as int);
    let mut dot: usize = 0;
    let mut has_dot = false;
    let mut i: usize = start;
    while i < path.len()
        invariant
            start <= i <= path@.len(),
            has_dot ==> start < dot < i && path@[dot as int] == DOT,
            has_dot ==> forall|j: int| dot < j < i ==> path@[j] != DOT,
            !has_dot ==> forall|j: int| start < j < i ==> path@[j] != DOT,
        decreases path@.len() - i,
    {
        if path[i] == DOT && i > start {
            dot = i;
            has_dot = true;
        }
        i = i + 1;
    }
    if has_dot {
        let mut e: Vec<u8> = Vec::new();
        let mut j: usize = dot + 1;
        while j < path.len()
            invariant
                dot + 1 <= j <= path@.len(),
                e@ == path@.subrange(dot + 1, j as int),
            decreases path@.len() - j,
        {
            e.push(path[j]);
            j = j + 1;
        }
        proof {
            lemma_ext_suffix(name, dot - start);
            assert(name.skip(dot - start + 1) =~= path@.skip(dot + 1));
            assert(e@ =~= path@.skip(dot + 1));
        }
        Some(e)
    } else {
        proof {
            lemma_ext_none(name);
        }
        None
    }
}

} // verus!
