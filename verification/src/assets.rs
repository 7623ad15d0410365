//! Loaded resources, as plain values.
//!
//! A served file is a byte string; a site map is a list of (serve path,
//! file path) pairs.  Loading either from disk, watching it for
//! changes, and decoding the site map's on-disk syntax are the process
//! edge's business; the core sees only the loaded values, each under a
//! numeric handle, and a handle whose load has not completed yet is
//! simply absent from the store.

use vstd::prelude::*;

verus! {

/// The bytes of one loaded web resource.
pub struct WebFileAsset {
    /// The resource's content, served verbatim.
    pub data: Vec<u8>,
}

/// A site map: which resource each serve path is backed by.
pub struct SiteMapAsset {
    /// Pairs of (serve path, backing file path).
    pub mapping: Vec<(String, String)>,
}

/// The index of the entry under the given handle, or `-1`.
pub open spec fn afind(s: Seq<(u64, WebFileAsset)>, handle: u64) -> int
    decreases s.len(),
{
    if s.len() == 0 {
        -1
    } else if s[0].0 == handle {
        0
    } else {
        let r = afind(s.skip(1), handle);
        if r == -1 {
            -1
        } else {
            r + 1
        }
    }
}

/// What `afind` finds: the first entry under the handle, or absence.
proof fn lemma_afind(s: Seq<(u64, WebFileAsset)>, handle: u64)
    ensures
        afind(s, handle) >= 0 ==> afind(s, handle) < s.len() && s[afind(s, handle)].0 == handle,
        afind(s, handle) >= 0 ==> forall|j: int| 0 <= j < afind(s, handle) ==> s[j].0 != handle,
        afind(s, handle) < 0 ==> afind(s, handle) == -1 && forall|j: int|
            0 <= j < s.len() ==> s[j].0 != handle,
    decreases s.len(),
{
    if s.len() > 0 && s[0].0 != handle {
        lemma_afind(s.skip(1), handle);
        assert forall|j: int| 0 <= j < s.len() && afind(s, handle) == -1 implies s[j].0
            != handle by {
            if j > 0 {
                assert(s.skip(1)[j - 1] == s[j]);
            }
        }
        if afind(s, handle) >= 0 {
            assert forall|j: int| 0 <= j < afind(s, handle) implies s[j].0 != handle by {
                if j > 0 {
                    assert(s.skip(1)[j - 1] == s[j]);
                }
            }
        }
    }
}

/// Where a prefix is known to be free of the handle, `afind` finds
/// exactly the first occurrence (or reports absence).
proof fn lemma_afind_at(s: Seq<(u64, WebFileAsset)>, handle: u64, i: int)
    requires
        0 <= i <= s.len(),
        forall|j: int| 0 <= j < i ==> s[j].0 != handle,
        i < s.len() ==> s[i].0 == handle,
    ensures
        i < s.len() ==> afind(s, handle) == i,
        i == s.len() ==> afind(s, handle) == -1,
    decreases i,
{
    if s.len() > 0 && i > 0 {
        assert forall|j: int| 0 <= j < i - 1 implies s.skip(1)[j].0 != handle by {
            assert(s.skip(1)[j] == s[j + 1]);
        }
        assert(i - 1 < s.skip(1).len() ==> s.skip(1)[i - 1] == s[i]);
        lemma_afind_at(s.skip(1), handle, i - 1);
    }
}

/// The loaded web resources, each under its numeric handle.
pub struct AssetStore {
    entries: Vec<(u64, WebFileAsset)>,
}

impl AssetStore {
    /// The loaded entries, in load order.
    pub closed spec fn view_entries(&self) -> Seq<(u64, WebFileAsset)> {
        self.entries@
    }

    /// The resource under the handle, if its load has completed.
    pub open spec fn lookup(&self, handle: u64) -> Option<WebFileAsset> {
        if afind(self.view_entries(), handle) >= 0 {
            Some(self.view_entries()[afind(self.view_entries(), handle)].1)
        } else {
            None
        }
    }

    /// An empty store: nothing has been loaded yet.
    pub fn new() -> (r: AssetStore)
        ensures
            r.view_entries() == Seq::<(u64, WebFileAsset)>::empty(),
    {
        AssetStore { entries: Vec::new() }
    }

    /// The index of the entry under the handle, if any.
    fn find(&self, handle: u64) -> (r: Option<usize>)
        ensures
            r matches Some(i) ==> i < self.view_entries().len() && afind(
                self.view_entries(),
                handle,
            ) == i as int,
            r is None ==> afind(self.view_entries(), handle) == -1,
    {
        let mut i: usize = 0;
        while i < self.entries.len()
            invariant
                i <= self.entries@.len(),
                forall|j: int| 0 <= j < i ==> self.entries@[j].0 != handle,
            decreases self.entries@.len() - i,
        {
            if self.entries[i].0 == handle {
                proof {
                    lemma_afind_at(self.entries@, handle, i as int);
                }
                return Some(i);
            }
            i = i + 1;
        }
        proof {
            lemma_afind_at(self.entries@, handle, i as int);
        }
        None
    }

    /// The resource under the handle, if loaded.
    pub fn get(&self, handle: u64) -> (r: Option<&WebFileAsset>)
        ensures
            r matches Some(a) ==> self.lookup(handle) == Some(*a),
            r is None ==> self.lookup(handle) is None,
    {
        match self.find(handle) {
            Some(i) => Some(&self.entries[i].1),
            None => None,
        }
    }

    /// Records a completed (or re-completed, on hot reload) load: the
    /// handle now yields this resource.
    pub fn insert(&mut self, handle: u64, asset: WebFileAsset)
        ensures
            final(self).lookup(handle) == Some(asset),
            forall|h: u64| h != handle ==> final(self).lookup(h) == old(self).lookup(h),
    {
        let ghost pre = self.entries@;
        match self.find(handle) {
            Some(i) => {
                let _ = self.entries.remove(i);
                self.entries.insert(i, (handle, asset));
                proof {
                    assert(self.entries@ =~= pre.update(i as int, (handle, asset)));
                    lemma_afind(pre, handle);
                    assert forall|h: u64| h != handle implies final(self).lookup(h) == old(
                        self,
                    ).lookup(h) by {
                        assert(forall|j: int|
                            0 <= j < pre.len() ==> self.entries@[j].0 == pre[j].0);
                        lemma_afind(pre, h);
                        lemma_afind(self.entries@, h);
                        if afind(pre, h) >= 0 {
                            lemma_afind_at(self.entries@, h, afind(pre, h));
                        } else {
                            lemma_afind_at(self.entries@, h, pre.len() as int);
                        }
                    }
                    lemma_afind_at(self.entries@, handle, i as int);
                }
            },
            None => {
                self.entries.push((handle, asset));
                proof {
                    lemma_afind(pre, handle);
                    lemma_afind_at(self.entries@, handle, pre.len() as int);
                    assert forall|h: u64| h != handle implies final(self).lookup(h) == old(
                        self,
                    ).lookup(h) by {
                        lemma_afind(pre, h);
                        lemma_afind(self.entries@, h);
                        if afind(pre, h) >= 0 {
                            assert(self.entries@[afind(pre, h)] == pre[afind(pre, h)]);
                            assert(forall|j: int|
                                0 <= j < pre.len() ==> self.entries@[j] == pre[j]);
                            lemma_afind_at(self.entries@, h, afind(pre, h));
                        } else {
                            assert forall|j: int|
                                0 <= j < self.entries@.len() implies self.entries@[j].0
                                != h by {
                                if j < pre.len() {
                                    assert(self.entries@[j] == pre[j]);
                                }
                            }
                            lemma_afind_at(self.entries@, h, self.entries@.len() as int);
                        }
                    }
                }
            },
        }
    }
}

} // verus!
