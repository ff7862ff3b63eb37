use vstd::prelude::*;

use crate::bytes::{append_bytes, bytes_eq, BACKSLASH, DOT, NUL, SLASH};
use crate::search::copy_range;
use crate::error::ServeError;

verus! {

/// The directory whose immediate files are served.
pub struct Directory {
    /// The root path, as raw bytes.
    pub root: Vec<u8>,
}

/// One regular file directly inside the root, as seen when it was listed.
pub struct FileMeta {
    pub name: Vec<u8>,
    pub size: u64,
}

/// A name that can be joined to the root without leaving it: not empty, not
/// `.`, free of separators, NUL bytes and any `..` sequence.
pub open spec fn safe_name(n: Seq<u8>) -> bool {
    &&& n.len() > 0
    &&& n != seq![DOT]
    &&& forall|i: int| 0 <= i < n.len() ==> n[i] != SLASH && n[i] != BACKSLASH && n[i] != NUL
    &&& forall|i: int| 0 <= i < n.len() - 1 ==> !(#[trigger] n[i] == DOT && n[i + 1] == DOT)
}

/// The text that every path under `root` starts with.
pub open spec fn dir_prefix(root: Seq<u8>) -> Seq<u8> {
    if root.len() == 0 {
        seq![DOT, SLASH]
    } else if root.last() == SLASH {
        root
    } else {
        root.push(SLASH)
    }
}

/// One component of a path that names an entry of the directory itself:
/// not empty, not `.` or `..`, and free of separators and NUL bytes.
pub open spec fn one_component(n: Seq<u8>) -> bool {
    &&& n.len() > 0
    &&& n != seq![DOT]
    &&& n != seq![DOT, DOT]
    &&& forall|i: int| 0 <= i < n.len() ==> n[i] != SLASH && n[i] != BACKSLASH && n[i] != NUL
}

/// A path that begins with the root's prefix and whose rest is one
/// component, so it names an entry directly inside the root.
pub open spec fn inside_root(root: Seq<u8>, path: Seq<u8>) -> bool {
    let pre = dir_prefix(root);
    &&& path.len() > pre.len()
    &&& path.subrange(0, pre.len() as int) == pre
    &&& one_component(path.subrange(pre.len() as int, path.len() as int))
}

/// The text `..upload-`, which begins the names of files still being
/// received. It holds `..`, so no name that `safe_name` accepts begins so.
pub open spec fn staging_prefix() -> Seq<u8> {
    seq![46u8, 46u8, 117u8, 112u8, 108u8, 111u8, 97u8, 100u8, 45u8]
}

/// A name kept for a file that is still being received: such files are
/// neither listed nor served.
pub open spec fn staging_name(n: Seq<u8>) -> bool {
    n.len() >= staging_prefix().len() && n.take(staging_prefix().len() as int) == staging_prefix()
}

/// A tag that can follow the staging prefix in one path component.
pub open spec fn staging_tag_ok(tag: Seq<u8>) -> bool {
    forall|i: int| 0 <= i < tag.len() ==> tag[i] != SLASH && tag[i] != BACKSLASH && tag[i] != NUL
}

/// No name that an upload may take is a staging name.
pub proof fn lemma_staging_names_are_not_safe(n: Seq<u8>)
    requires
        staging_name(n),
    ensures
        !safe_name(n),
{
    assert(n[0] == n.take(staging_prefix().len() as int)[0]);
    assert(n[1] == n.take(staging_prefix().len() as int)[1]);
    assert(n[0] == DOT && n[1] == DOT);
}

fn staging_prefix_bytes() -> (r: Vec<u8>)
    ensures
        r@ == staging_prefix(),
{
    let mut r: Vec<u8> = Vec::new();
    r.push(46u8);
    r.push(46u8);
    r.push(117u8);
    r.push(112u8);
    r.push(108u8);
    r.push(111u8);
    r.push(97u8);
    r.push(100u8);
    r.push(45u8);
    assert(r@ =~= staging_prefix());
    r
}

/// Whether `name` is kept for files still being received.
pub fn is_staging_name(name: &[u8]) -> (r: bool)
    ensures
        r == staging_name(name@),
{
    let pre = staging_prefix_bytes();
    if name.len() < pre.len() {
        return false;
    }
    let head = copy_range(name, 0, pre.len());
    assert(head@ =~= name@.take(staging_prefix().len() as int));
    bytes_eq(head.as_slice(), pre.as_slice())
}

/// Whether `tag` can follow the staging prefix in one path component.
pub fn is_staging_tag_ok(tag: &[u8]) -> (r: bool)
    ensures
        r == staging_tag_ok(tag@),
{
    let mut i: usize = 0;
    while i < tag.len()
        invariant
            i <= tag@.len(),
            forall|j: int| 0 <= j < i ==> tag@[j] != SLASH && tag@[j] != BACKSLASH && tag@[j] != NUL,
        decreases tag@.len() - i,
    {
        let c = tag[i];
        if c == SLASH || c == BACKSLASH || c == NUL {
            return false;
        }
        i = i + 1;
    }
    true
}

/// Whether `name` passes the checks of `safe_name`.
pub fn is_safe_name(name: &[u8]) -> (r: bool)
    ensures
        r == safe_name(name@),
{
    let n = name.len();
    if n == 0 {
        return false;
    }
    if n == 1 && name[0] == DOT {
        assert(name@ =~= seq![DOT]);
        return false;
    }
    assert(name@ != seq![DOT]) by {
        if name@ =~= seq![DOT] {
            assert(name@[0] == DOT);
        }
    }
    let mut i: usize = 0;
    while i < n
        invariant
            n == name@.len(),
            i <= n,
            forall|j: int| 0 <= j < i ==> name@[j] != SLASH && name@[j] != BACKSLASH && name@[j] != NUL,
            forall|j: int| 0 <= j < i && j < n - 1 ==> !(#[trigger] name@[j] == DOT && name@[j + 1] == DOT),
        decreases n - i,
    {
        let c = name[i];
        if c == SLASH || c == BACKSLASH || c == NUL {
            return false;
        }
        if c == DOT && i + 1 < n && name[i + 1] == DOT {
            return false;
        }
        i = i + 1;
    }
    true
}

impl Directory {
    pub fn new(root: Vec<u8>) -> (r: Directory)
        ensures
            r.root@ == root@,
    {
        Directory { root }
    }

    /// The root's prefix, to which names are appended.
    pub fn prefix(&self) -> (r: Vec<u8>)
        ensures
            r@ == dir_prefix(self.root@),
    {
        let mut r: Vec<u8> = Vec::new();
        if self.root.len() == 0 {
            r.push(DOT);
            r.push(SLASH);
            assert(r@ =~= seq![DOT, SLASH]);
            return r;
        }
        append_bytes(&mut r, self.root.as_slice());
        assert(r@ =~= self.root@);
        if self.root[self.root.len() - 1] != SLASH {
            r.push(SLASH);
        }
        r
    }

    /// The on-disk path of the file called `name` in the root; the file need
    /// not exist. A name that could leave the root is refused.
    pub fn full_path(&self, name: &[u8]) -> (r: Result<Vec<u8>, ServeError>)
        ensures
            safe_name(name@) ==> r is Ok && r->Ok_0@ == dir_prefix(self.root@) + name@,
            !safe_name(name@) ==> r == Err::<Vec<u8>, ServeError>(ServeError::NotFoundError),
    {
        if !is_safe_name(name) {
            return Err(ServeError::NotFoundError);
        }
        let mut p = self.prefix();
        append_bytes(&mut p, name);
        Ok(p)
    }

    /// The path of the file that receives an upload before it is moved into
    /// place: the staging prefix followed by `tag`, as one entry of the root.
    pub fn staging_path(&self, tag: &[u8]) -> (r: Result<Vec<u8>, ServeError>)
        ensures
            staging_tag_ok(tag@) ==> r is Ok && r->Ok_0@ == dir_prefix(self.root@) + staging_prefix()
                + tag@ && staging_name(staging_prefix() + tag@) && inside_root(
                self.root@,
                r->Ok_0@,
            ),
            !staging_tag_ok(tag@) ==> r == Err::<Vec<u8>, ServeError>(ServeError::NotFoundError),
    {
        if !is_staging_tag_ok(tag) {
            return Err(ServeError::NotFoundError);
        }
        let mut name = staging_prefix_bytes();
        append_bytes(&mut name, tag);
        let mut p = self.prefix();
        let ghost pre = p@;
        append_bytes(&mut p, name.as_slice());
        proof {
            let n = name@;
            assert(n.take(staging_prefix().len() as int) =~= staging_prefix());
            assert forall|i: int| 0 <= i < n.len() implies n[i] != SLASH && n[i] != BACKSLASH
                && n[i] != NUL by {
                if i >= staging_prefix().len() {
                    assert(n[i] == tag@[i - staging_prefix().len()]);
                }
            }
            assert(n != seq![DOT]) by {
                assert(n.len() != seq![DOT].len());
            }
            assert(n != seq![DOT, DOT]) by {
                assert(n.len() != seq![DOT, DOT].len());
            }
            assert(p@.subrange(0, pre.len() as int) =~= pre);
            assert(p@.subrange(pre.len() as int, p@.len() as int) =~= n);
            assert(p@ =~= dir_prefix(self.root@) + staging_prefix() + tag@);
        }
        Ok(p)
    }
}

/// Every path that `full_path` hands out lies inside the root: it is the
/// root's prefix followed by one name that holds no separator and no `..`.
pub proof fn lemma_resolved_path_inside_root(root: Seq<u8>, name: Seq<u8>)
    requires
        safe_name(name),
    ensures
        inside_root(root, dir_prefix(root) + name),
{
    let pre = dir_prefix(root);
    let p = pre + name;
    assert(p.subrange(0, pre.len() as int) =~= pre);
    assert(p.subrange(pre.len() as int, p.len() as int) =~= name);
    if name =~= seq![DOT, DOT] {
        assert(name[0] == DOT && name[1] == DOT);
    }
}

} // verus!
