use vstd::prelude::*;

use crate::bytes::{append_bytes, bytes_eq, SLASH};
use crate::directory::{is_staging_name, staging_name, Directory, FileMeta};

verus! {

/// One entry of the root directory as a scan read it. A part that could not
/// be read is `None`.
pub struct DirEntryInfo {
    pub name: Option<Vec<u8>>,
    pub is_file: Option<bool>,
    pub size: Option<u64>,
}

impl View for FileMeta {
    type V = (Seq<u8>, u64);

    open spec fn view(&self) -> (Seq<u8>, u64) {
        (self.name@, self.size)
    }
}

impl View for DirEntryInfo {
    type V = (Option<Seq<u8>>, Option<bool>, Option<u64>);

    open spec fn view(&self) -> (Option<Seq<u8>>, Option<bool>, Option<u64>) {
        (
            match self.name {
                Some(n) => Some(n@),
                None => None,
            },
            self.is_file,
            self.size,
        )
    }
}

/// An entry is listed when it is a regular file whose name and size could be
/// read, and it is not a file still being received. The name must not be
/// empty, so the root itself is never listed.
pub open spec fn listed(e: (Option<Seq<u8>>, Option<bool>, Option<u64>)) -> bool {
    &&& e.0 is Some
    &&& e.0->Some_0.len() > 0
    &&& !staging_name(e.0->Some_0)
    &&& e.1 == Some(true)
    &&& e.2 is Some
}

pub open spec fn has_name(files: Seq<(Seq<u8>, u64)>, n: Seq<u8>) -> bool {
    exists|i: int| 0 <= i < files.len() && #[trigger] files[i].0 == n
}

/// The files that a scan lists, in the order read; of two entries with the
/// same name the first is kept.
pub open spec fn index_spec(es: Seq<(Option<Seq<u8>>, Option<bool>, Option<u64>)>) -> Seq<
    (Seq<u8>, u64),
>
    decreases es.len(),
{
    if es.len() == 0 {
        Seq::empty()
    } else {
        let r = index_spec(es.drop_last());
        let e = es.last();
        if listed(e) && !has_name(r, e.0->Some_0) {
            r.push((e.0->Some_0, e.2->Some_0))
        } else {
            r
        }
    }
}

/// The public path under which a file is served.
pub open spec fn public_path(name: Seq<u8>) -> Seq<u8> {
    seq![SLASH] + name
}

pub open spec fn names_unique(files: Seq<(Seq<u8>, u64)>) -> bool {
    forall|i: int, j: int| 0 <= i < j < files.len() ==> files[i].0 != files[j].0
}

pub open spec fn names_listable(files: Seq<(Seq<u8>, u64)>) -> bool {
    forall|i: int|
        0 <= i < files.len() ==> (#[trigger] files[i].0).len() > 0 && !staging_name(files[i].0)
}

pub proof fn lemma_public_path_injective(a: Seq<u8>, b: Seq<u8>)
    requires
        public_path(a) == public_path(b),
    ensures
        a == b,
{
    assert(a =~= public_path(a).skip(1));
    assert(b =~= public_path(b).skip(1));
}

/// The mapping from public path to file that a listing request sees.
pub struct ResourceIndex {
    files: Vec<FileMeta>,
}

impl View for ResourceIndex {
    type V = Seq<(Seq<u8>, u64)>;

    closed spec fn view(&self) -> Seq<(Seq<u8>, u64)> {
        self.files@.map_values(|m: FileMeta| m@)
    }
}

fn meta_copy(m: &FileMeta) -> (r: FileMeta)
    ensures
        r@ == m@,
{
    let mut name: Vec<u8> = Vec::new();
    append_bytes(&mut name, m.name.as_slice());
    FileMeta { name, size: m.size }
}

impl ResourceIndex {
    pub closed spec fn wf(&self) -> bool {
        names_unique(self@) && names_listable(self@)
    }

    pub fn len(&self) -> (r: usize)
        ensures
            r == self@.len(),
    {
        self.files.len()
    }

    /// The `i`-th file of the listing.
    pub fn entry(&self, i: usize) -> (r: &FileMeta)
        requires
            i < self@.len(),
        ensures
            r@ == self@[i as int],
    {
        &self.files[i]
    }

    /// Where a file called `name` stands in the listing.
    pub fn position_of_name(&self, name: &[u8]) -> (r: Option<usize>)
        ensures
            r is Some ==> r->Some_0 < self@.len() && self@[r->Some_0 as int].0 == name@,
            r is None ==> !has_name(self@, name@),
    {
        let mut i: usize = 0;
        while i < self.files.len()
            invariant
                i <= self@.len(),
                self@.len() == self.files@.len(),
                forall|j: int| 0 <= j < i ==> self@[j].0 != name@,
            decreases self@.len() - i,
        {
            assert(self@[i as int] == self.files@[i as int]@);
            if bytes_eq(self.files[i].name.as_slice(), name) {
                return Some(i);
            }
            i = i + 1;
        }
        None
    }

    /// The file served under the public path `path`, which is `/` followed by
    /// the file's name.
    pub fn get(&self, path: &[u8]) -> (r: Option<&FileMeta>)
        ensures
            r is Some ==> has_name(self@, r->Some_0@.0) && path@ == public_path(r->Some_0@.0)
                && (exists|i: int| 0 <= i < self@.len() && self@[i] == r->Some_0@),
            r is None ==> forall|i: int| 0 <= i < self@.len() ==> path@ != public_path(self@[i].0),
    {
        if path.len() == 0 || path[0] != SLASH {
            proof {
                assert forall|i: int| 0 <= i < self@.len() implies path@ != public_path(
                    self@[i].0,
                ) by {
                    if path@ == public_path(self@[i].0) {
                        assert(path@[0] == SLASH);
                    }
                }
            }
            return None;
        }
        let mut name: Vec<u8> = Vec::new();
        let mut k: usize = 1;
        while k < path.len()
            invariant
                1 <= k <= path@.len(),
                name@ == path@.subrange(1, k as int),
            decreases path@.len() - k,
        {
            name.push(path[k]);
            k = k + 1;
            assert(name@ =~= path@.subrange(1, k as int));
        }
        assert(path@ =~= public_path(name@));
        match self.position_of_name(name.as_slice()) {
            Some(i) => {
                assert(self@[i as int] == self.files@[i as int]@);
                Some(&self.files[i])
            },
            None => {
                proof {
                    assert forall|i: int| 0 <= i < self@.len() implies path@ != public_path(
                        self@[i].0,
                    ) by {
                        if path@ == public_path(self@[i].0) {
                            lemma_public_path_injective(name@, self@[i].0);
                        }
                    }
                }
                None
            },
        }
    }

    /// The public paths of all listed files, in listing order.
    pub fn paths(&self) -> (r: Vec<Vec<u8>>)
        ensures
            r@.len() == self@.len(),
            forall|i: int| 0 <= i < self@.len() ==> #[trigger] r@[i]@ == public_path(self@[i].0),
    {
        let mut r: Vec<Vec<u8>> = Vec::new();
        let mut i: usize = 0;
        while i < self.files.len()
            invariant
                i <= self@.len(),
                self@.len() == self.files@.len(),
                r@.len() == i,
                forall|j: int| 0 <= j < i ==> #[trigger] r@[j]@ == public_path(self@[j].0),
            decreases self@.len() - i,
        {
            let mut p: Vec<u8> = Vec::new();
            p.push(SLASH);
            append_bytes(&mut p, self.files[i].name.as_slice());
            assert(self@[i as int] == self.files@[i as int]@);
            assert(p@ =~= public_path(self@[i as int].0));
            r.push(p);
            i = i + 1;
        }
        r
    }
}

pub open spec fn entries_view(es: Seq<DirEntryInfo>) -> Seq<
    (Option<Seq<u8>>, Option<bool>, Option<u64>),
> {
    es.map_values(|e: DirEntryInfo| e@)
}

proof fn lemma_index_unique(es: Seq<(Option<Seq<u8>>, Option<bool>, Option<u64>)>)
    ensures
        names_unique(index_spec(es)),
        names_listable(index_spec(es)),
    decreases es.len(),
{
    if es.len() > 0 {
        lemma_index_unique(es.drop_last());
        let r = index_spec(es.drop_last());
        let e = es.last();
        if listed(e) && !has_name(r, e.0->Some_0) {
            let r2 = r.push((e.0->Some_0, e.2->Some_0));
            assert forall|i: int, j: int| 0 <= i < j < r2.len() implies r2[i].0 != r2[j].0 by {
                if j == r.len() {
                    assert(r2[i] == r[i]);
                }
            }
            assert forall|i: int| 0 <= i < r2.len() implies (#[trigger] r2[i].0).len() > 0 && !staging_name(
                r2[i].0,
            ) by {
                if i < r.len() {
                    assert(r2[i] == r[i]);
                }
            }
        }
    }
}

/// The listing holds exactly the listed entries: each regular file whose name
/// and size were read appears under its name, and every file listed comes
/// from such an entry, with that entry's name and size.
pub proof fn lemma_listing_complete(es: Seq<(Option<Seq<u8>>, Option<bool>, Option<u64>)>)
    ensures
        forall|j: int|
            0 <= j < es.len() && listed(#[trigger] es[j]) ==> has_name(
                index_spec(es),
                es[j].0->Some_0,
            ),
        forall|i: int|
            0 <= i < index_spec(es).len() ==> exists|j: int|
                0 <= j < es.len() && listed(#[trigger] es[j]) && es[j].0->Some_0
                    == (#[trigger] index_spec(es)[i]).0 && es[j].2->Some_0 == index_spec(es)[i].1,
    decreases es.len(),
{
    if es.len() > 0 {
        let init = es.drop_last();
        lemma_listing_complete(init);
        let r = index_spec(init);
        let e = es.last();
        let r2 = index_spec(es);
        assert forall|j: int| 0 <= j < es.len() && listed(#[trigger] es[j]) implies has_name(
            r2,
            es[j].0->Some_0,
        ) by {
            if j < init.len() {
                assert(init[j] == es[j]);
                let k = choose|k: int| 0 <= k < r.len() && #[trigger] r[k].0 == es[j].0->Some_0;
                assert(r2[k] == r[k]);
            } else if has_name(r, e.0->Some_0) {
                let k = choose|k: int| 0 <= k < r.len() && #[trigger] r[k].0 == e.0->Some_0;
                assert(r2[k] == r[k]);
            } else {
                assert(r2[r.len() as int].0 == e.0->Some_0);
            }
        }
        assert forall|i: int| 0 <= i < r2.len() implies exists|j: int|
            0 <= j < es.len() && listed(#[trigger] es[j]) && es[j].0->Some_0 == (#[trigger] r2[i]).0
                && es[j].2->Some_0 == r2[i].1 by {
            if i < r.len() {
                assert(r2[i] == r[i]);
                assert(0 <= i < r.len());
                let ri = r[i];
                let j = choose|j: int|
                    0 <= j < init.len() && listed(#[trigger] init[j]) && init[j].0->Some_0
                        == ri.0 && init[j].2->Some_0 == ri.1;
                assert(es[j] == init[j]);
            } else {
                assert(es[es.len() - 1] == e);
            }
        }
    }
}

/// A stored file is listed with its size: where the scan read one listed
/// regular file of name `n` and size `size`, and no other entry of that name,
/// the listing holds `n` with that size, under the public path `/n`.
pub proof fn lemma_listed_file_keeps_size(
    es: Seq<(Option<Seq<u8>>, Option<bool>, Option<u64>)>,
    j: int,
)
    requires
        0 <= j < es.len(),
        listed(es[j]),
        forall|k: int| 0 <= k < es.len() && k != j ==> (#[trigger] es[k]).0 != es[j].0,
    ensures
        exists|i: int|
            0 <= i < index_spec(es).len() && #[trigger] index_spec(es)[i] == (
                es[j].0->Some_0,
                es[j].2->Some_0,
            ),
{
    lemma_listing_complete(es);
    let r = index_spec(es);
    let n = es[j].0->Some_0;
    assert(has_name(r, n));
    let i = choose|i: int| 0 <= i < r.len() && #[trigger] r[i].0 == n;
    let ri = r[i];
    let k = choose|k: int|
        0 <= k < es.len() && listed(#[trigger] es[k]) && es[k].0->Some_0 == ri.0 && es[k].2->Some_0
            == ri.1;
    if k != j {
        assert(es[k].0 != es[j].0);
    }
    assert(r[i] == (es[j].0->Some_0, es[j].2->Some_0));
}

impl Directory {
    /// Builds the listing from the entries that a scan of the root read:
    /// the regular files among them, each under `/` and its name. Entries
    /// whose name, kind or size could not be read are skipped, as are
    /// directories and other kinds.
    pub fn list_available_resources(&self, entries: &Vec<DirEntryInfo>) -> (r: ResourceIndex)
        ensures
            r@ == index_spec(entries_view(entries@)),
            r.wf(),
            names_unique(r@),
            forall|i: int|
                0 <= i < r@.len() ==> (#[trigger] r@[i].0).len() > 0 && !staging_name(r@[i].0),
    {
        let mut files: Vec<FileMeta> = Vec::new();
        let mut i: usize = 0;
        while i < entries.len()
            invariant
                i <= entries@.len(),
                files@.map_values(|m: FileMeta| m@) == index_spec(
                    entries_view(entries@).take(i as int),
                ),
            decreases entries@.len() - i,
        {
            let ghost es = entries_view(entries@);
            let ghost before = files@.map_values(|m: FileMeta| m@);
            assert(es.take(i + 1).drop_last() =~= es.take(i as int));
            assert(es.take(i + 1).last() == entries@[i as int]@);
            let e = &entries[i];
            match (&e.name, e.is_file, e.size) {
                (Some(name), Some(true), Some(size)) => if name.len() > 0 && !is_staging_name(name.as_slice()) {
                    let idx = ResourceIndex { files };
                    let found = idx.position_of_name(name.as_slice());
                    files = idx.files;
                    if found.is_none() {
                        let mut copy: Vec<u8> = Vec::new();
                        append_bytes(&mut copy, name.as_slice());
                        files.push(FileMeta { name: copy, size });
                        assert(files@.map_values(|m: FileMeta| m@) =~= before.push((name@, size)));
                    }
                },
                _ => {},
            }
            i = i + 1;
        }
        assert(entries_view(entries@).take(i as int) =~= entries_view(entries@));
        proof {
            lemma_index_unique(entries_view(entries@));
        }
        ResourceIndex { files }
    }
}

} // verus!
