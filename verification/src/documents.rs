//! The document registry.
//!
//! A path-keyed store of document states. An entry starts as `Loading` when a
//! path is opened and is replaced exactly once when the load completes. The
//! registry deduplicates opens: a path that is already tracked is not opened
//! again, so at most one load is ever scheduled per path. Reading the file
//! bytes happens outside the library; `load` turns them into a document.

use vstd::prelude::*;
use crate::paths;

pub mod image;

verus! {

/// A document's state: a pending load, or its loaded content.
pub enum Document {
    Loading,
    Image(image::State),
    Text(String),
}

/// Messages addressed to a single document. No message does anything yet:
/// updating a document leaves it unchanged.
pub enum Message {
    Noop,
}

impl Document {
    pub fn update(&mut self, _message: Message)
        ensures
            *final(self) == *old(self),
    {
    }
}

/// Associates each key's view with the document stored last under it.
pub open spec fn as_doc_map(s: Seq<(Vec<u8>, Document)>) -> Map<Seq<u8>, Document>
    decreases s.len(),
{
    if s.len() == 0 {
        Map::empty()
    } else {
        as_doc_map(s.drop_last()).insert(s.last().0@, s.last().1)
    }
}

pub open spec fn unique_keys(s: Seq<(Vec<u8>, Document)>) -> bool {
    forall|i: int, j: int| 0 <= i < j < s.len() ==> s[i].0@ != s[j].0@
}

proof fn lemma_doc_map_contains(s: Seq<(Vec<u8>, Document)>, p: Seq<u8>)
    ensures
        as_doc_map(s).contains_key(p) <==> exists|i: int| 0 <= i < s.len() && s[i].0@ == p,
    decreases s.len(),
{
    if s.len() == 0 {
    } else {
        lemma_doc_map_contains(s.drop_last(), p);
        assert(forall|i: int| 0 <= i < s.len() - 1 ==> s.drop_last()[i] == s[i]);
        if p == s.last().0@ {
            assert(s[s.len() - 1].0@ == p);
        }
    }
}

proof fn lemma_doc_map_index(s: Seq<(Vec<u8>, Document)>, i: int)
    requires
        unique_keys(s),
        0 <= i < s.len(),
    ensures
        as_doc_map(s).contains_key(s[i].0@),
        as_doc_map(s)[s[i].0@] == s[i].1,
    decreases s.len(),
{
    if i == s.len() - 1 {
    } else {
        assert(forall|j: int| 0 <= j < s.len() - 1 ==> s.drop_last()[j] == s[j]);
        lemma_doc_map_index(s.drop_last(), i);
        assert(s[i].0@ != s[s.len() - 1].0@);
    }
}

proof fn lemma_doc_map_remove(s: Seq<(Vec<u8>, Document)>, i: int)
    requires
        unique_keys(s),
        0 <= i < s.len(),
    ensures
        as_doc_map(s.remove(i)) == as_doc_map(s).remove(s[i].0@),
    decreases s.len(),
{
    lemma_doc_map_contains(s.drop_last(), s[i].0@);
    if i == s.len() - 1 {
        assert(s.remove(i) =~= s.drop_last());
        assert(!as_doc_map(s.drop_last()).contains_key(s[i].0@));
        assert(as_doc_map(s.remove(i)) =~= as_doc_map(s).remove(s[i].0@));
    } else {
        assert(forall|j: int| 0 <= j < s.len() - 1 ==> s.drop_last()[j] == s[j]);
        lemma_doc_map_remove(s.drop_last(), i);
        assert(s.remove(i) =~= s.drop_last().remove(i).push(s.last()));
        assert(as_doc_map(s.remove(i)) == as_doc_map(s.remove(i).drop_last()).insert(
            s.last().0@,
            s.last().1,
        ));
        assert(s.remove(i).drop_last() =~= s.drop_last().remove(i));
        assert(s[i].0@ != s.last().0@);
        assert(as_doc_map(s.remove(i)) =~= as_doc_map(s).remove(s[i].0@));
    }
}

proof fn lemma_doc_map_update(s: Seq<(Vec<u8>, Document)>, i: int, x: (Vec<u8>, Document))
    requires
        unique_keys(s),
        0 <= i < s.len(),
        x.0@ == s[i].0@,
    ensures
        as_doc_map(s.update(i, x)) == as_doc_map(s).insert(x.0@, x.1),
    decreases s.len(),
{
    let su = s.update(i, x);
    if i == s.len() - 1 {
        assert(su.drop_last() =~= s.drop_last());
        assert(as_doc_map(su) =~= as_doc_map(s).insert(x.0@, x.1));
    } else {
        assert(forall|j: int| 0 <= j < s.len() - 1 ==> s.drop_last()[j] == s[j]);
        lemma_doc_map_update(s.drop_last(), i, x);
        assert(su.drop_last() =~= s.drop_last().update(i, x));
        assert(su.last() == s.last());
        assert(x.0@ != s.last().0@);
        assert(as_doc_map(su) =~= as_doc_map(s).insert(x.0@, x.1));
    }
}

proof fn lemma_unique_keys_update(s: Seq<(Vec<u8>, Document)>, i: int, x: (Vec<u8>, Document))
    requires
        unique_keys(s),
        0 <= i < s.len(),
        x.0@ == s[i].0@,
    ensures
        unique_keys(s.update(i, x)),
{
    let su = s.update(i, x);
    assert(forall|j: int| 0 <= j < su.len() ==> su[j].0@ == s[j].0@);
}

/// The path-keyed store of document states.
pub struct Documents {
    documents: Vec<(Vec<u8>, Document)>,
}

impl View for Documents {
    type V = Map<Seq<u8>, Document>;

    closed spec fn view(&self) -> Map<Seq<u8>, Document> {
        as_doc_map(self.documents@)
    }
}

/// Opening an untracked path inserts a `Loading` placeholder and asks for one
/// load; opening a tracked one changes nothing and asks for none.
pub open spec fn spec_open(m: Map<Seq<u8>, Document>, path: Seq<u8>) -> (Map<
    Seq<u8>,
    Document,
>, bool) {
    if m.contains_key(path) {
        (m, false)
    } else {
        (m.insert(path, Document::Loading), true)
    }
}

impl Documents {
    /// Every stored key is distinct, so each path has one entry at most.
    pub closed spec fn wf(self) -> bool {
        unique_keys(self.documents@)
    }

    /// Looks for the entry holding `path`.
    fn find(&self, path: &Vec<u8>) -> (r: Option<usize>)
        ensures
            match r {
                Some(i) => i < self.documents@.len() && self.documents@[i as int].0@ == path@,
                None => forall|i: int| 0 <= i < self.documents@.len()
                    ==> self.documents@[i].0@ != path@,
            },
    {
        let mut i: usize = 0;
        while i < self.documents.len()
            invariant
                0 <= i <= self.documents@.len(),
                forall|j: int| 0 <= j < i ==> self.documents@[j].0@ != path@,
            decreases self.documents@.len() - i,
        {
            if paths::bytes_eq(&self.documents[i].0, path) {
                return Some(i);
            }
            i = i + 1;
        }
        None
    }

    pub fn new() -> (d: Documents)
        ensures
            d.wf(),
            d@ == Map::<Seq<u8>, Document>::empty(),
    {
        Documents { documents: Vec::new() }
    }

    pub fn is_open(&self, path: &Vec<u8>) -> (r: bool)
        ensures
            r == self@.contains_key(path@),
    {
        proof {
            lemma_doc_map_contains(self.documents@, path@);
        }
        self.find(path).is_some()
    }

    /// Tracks `path` if it is new; the result says whether a load must be
    /// scheduled for it.
    pub fn open(&mut self, path: Vec<u8>) -> (needs_load: bool)
        requires
            old(self).wf(),
        ensures
            final(self).wf(),
            final(self)@ == spec_open(old(self)@, path@).0,
            needs_load == spec_open(old(self)@, path@).1,
    {
        proof {
            lemma_doc_map_contains(self.documents@, path@);
        }
        match self.find(&path) {
            Some(_) => false,
            None => {
                let ghost s0 = self.documents@;
                self.documents.push((path, Document::Loading));
                proof {
                    assert(self.documents@.drop_last() =~= s0);
                }
                true
            },
        }
    }

    /// Overwrites the entry at `path`; a no-op when the path is not tracked.
    pub fn replace(&mut self, path: Vec<u8>, doc: Document)
        requires
            old(self).wf(),
        ensures
            final(self).wf(),
            final(self)@ == if old(self)@.contains_key(path@) {
                old(self)@.insert(path@, doc)
            } else {
                old(self)@
            },
    {
        proof {
            lemma_doc_map_contains(self.documents@, path@);
        }
        match self.find(&path) {
            Some(i) => {
                let ghost s0 = self.documents@;
                proof {
                    lemma_doc_map_remove(s0, i as int);
                }
                self.documents.remove(i);
                self.documents.push((path, doc));
                proof {
                    assert(self.documents@.drop_last() =~= s0.remove(i as int));
                    assert(forall|a: int, b: int|
                        0 <= a < b < s0.remove(i as int).len() ==> s0.remove(i as int)[a].0@
                            != s0.remove(i as int)[b].0@);
                    assert(forall|a: int| 0 <= a < s0.remove(i as int).len()
                        ==> s0.remove(i as int)[a].0@ != path@) by {
                        assert(forall|a: int| 0 <= a < s0.remove(i as int).len() ==> s0.remove(
                            i as int,
                        )[a] == if a < i { s0[a] } else { s0[a + 1] });
                    }
                    assert(self@ =~= as_doc_map(s0).insert(path@, doc));
                }
            },
            None => {},
        }
    }

    /// The document tracked at `path`, if any.
    pub fn get(&self, path: &Vec<u8>) -> (r: Option<&Document>)
        requires
            self.wf(),
        ensures
            match r {
                Some(d) => self@.contains_key(path@) && *d == self@[path@],
                None => !self@.contains_key(path@),
            },
    {
        proof {
            lemma_doc_map_contains(self.documents@, path@);
        }
        match self.find(path) {
            Some(i) => {
                proof {
                    lemma_doc_map_index(self.documents@, i as int);
                }
                Some(&self.documents[i].1)
            },
            None => None,
        }
    }

    /// A mutable borrow of the document tracked at `path`, if any: whatever
    /// the caller writes through it is what the registry then holds there.
    pub fn get_mut(&mut self, path: &Vec<u8>) -> (r: Option<&mut Document>)
        requires
            old(self).wf(),
        ensures
            final(self).wf(),
            match r {
                Some(d) => old(self)@.contains_key(path@) && *d == old(self)@[path@]
                    && final(self)@ == old(self)@.insert(path@, *final(d)),
                None => !old(self)@.contains_key(path@) && final(self)@ == old(self)@,
            },
    {
        proof {
            lemma_doc_map_contains(self.documents@, path@);
        }
        let ghost s0 = self.documents@;
        match self.find(path) {
            Some(i) => {
                proof {
                    lemma_doc_map_index(s0, i as int);
                }
                let d = &mut self.documents[i].1;
                proof {
                    lemma_doc_map_update(s0, i as int, (s0[i as int].0, *final(d)));
                    lemma_unique_keys_update(s0, i as int, (s0[i as int].0, *final(d)));
                }
                Some(d)
            },
            None => None,
        }
    }

    /// Turns a file's bytes into a document, dispatching on the path's
    /// extension: image extensions are decoded, everything else fails.
    pub fn load(path: &Vec<u8>, bytes: &Vec<u8>) -> (r: Option<Document>)
        ensures
            is_image_extension(paths::extension_of(path@)) ==> match r {
                Some(d) => d matches Document::Image(s) && image::decoded_image(bytes@) == Some(
                    (s.width, s.height, s.rgba@),
                ) && s.wf(),
                None => image::decoded_image(bytes@) is None,
            },
            !is_image_extension(paths::extension_of(path@)) ==> r is None,
    {
        match paths::extension(path) {
            Some(e) => {
                if is_image_ext_bytes(&e) {
                    match image::State::load(bytes) {
                        Some(st) => Some(Document::Image(st)),
                        None => None,
                    }
                } else {
                    None
                }
            },
            None => None,
        }
    }
}

/// The bytes of `bmp`.
pub open spec fn bmp_bytes() -> Seq<u8> {
    seq![98u8, 109u8, 112u8]
}

/// The bytes of `jpg`.
pub open spec fn jpg_bytes() -> Seq<u8> {
    seq![106u8, 112u8, 103u8]
}

/// The extensions whose files are decoded as images.
pub open spec fn is_image_extension(ext: Option<Seq<u8>>) -> bool {
    ext == Some(bmp_bytes()) || ext == Some(jpg_bytes())
}

fn is_image_ext_bytes(e: &Vec<u8>) -> (r: bool)
    ensures
        r == (e@ == bmp_bytes() || e@ == jpg_bytes()),
{
    let mut bmp: Vec<u8> = Vec::new();
    bmp.push(98);
    bmp.push(109);
    bmp.push(112);
    proof {
        assert(bmp@ =~= bmp_bytes());
    }
    if paths::bytes_eq(e, &bmp) {
        return true;
    }
    let mut jpg: Vec<u8> = Vec::new();
    jpg.push(106);
    jpg.push(112);
    jpg.push(103);
    proof {
        assert(jpg@ =~= jpg_bytes());
    }
    paths::bytes_eq(e, &jpg)
}

/// Opening the same path twice schedules exactly one load and leaves exactly
/// one entry, holding the placeholder.
pub proof fn lemma_open_deduplicates(m: Map<Seq<u8>, Document>, path: Seq<u8>)
    requires
        !m.contains_key(path),
    ensures
        spec_open(m, path).1,
        !spec_open(spec_open(m, path).0, path).1,
        spec_open(spec_open(m, path).0, path).0 == spec_open(m, path).0,
        spec_open(m, path).0.dom() =~= m.dom().insert(path),
        spec_open(m, path).0[path] == Document::Loading,
{
}

} // verus!
