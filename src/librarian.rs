//! The library scanner's bookkeeping: one scan at a time per library, and
//! the library-relative form of a discovered file's path.
use vstd::prelude::*;
use crate::path::{FsPath, FsPathView, has_prefix, render, suffix_after};

verus! {

/// The libraries whose scan is under way.
pub struct ScanRegistry {
    active: Vec<i64>,
}

impl View for ScanRegistry {
    type V = Set<i64>;

    closed spec fn view(&self) -> Set<i64> {
        self.active@.to_set()
    }
}

impl ScanRegistry {
    pub closed spec fn wf(&self) -> bool {
        self.active@.no_duplicates()
    }

    pub fn new() -> (r: ScanRegistry)
        ensures
            r.wf(),
            r@ == Set::<i64>::empty(),
    {
        let r = ScanRegistry { active: Vec::new() };
        assert(r@ =~= Set::<i64>::empty());
        r
    }

    /// Whether a scan of `lib` is under way.
    pub fn is_scanning(&self, lib: i64) -> (r: bool)
        ensures
            r == self@.contains(lib),
    {
        let mut i: usize = 0;
        while i < self.active.len()
            invariant
                i <= self.active@.len(),
                forall|k: int| 0 <= k < i ==> self.active@[k] != lib,
            decreases self.active@.len() - i,
        {
            if self.active[i] == lib {
                assert(self.active@.to_set().contains(self.active@[i as int]));
                return true;
            }
            i = i + 1;
        }
        assert(!self.active@.contains(lib));
        false
    }

    /// Claims the scan of `lib`: true, and `lib` is recorded, when no scan
    /// of it is under way; false, and nothing changes, when one is.
    pub fn try_begin(&mut self, lib: i64) -> (r: bool)
        requires
            old(self).wf(),
        ensures
            final(self).wf(),
            r == !old(self)@.contains(lib),
            final(self)@ == old(self)@.insert(lib),
    {
        if self.is_scanning(lib) {
            assert(self@.insert(lib) =~= self@);
            return false;
        }
        let ghost before = self.active@;
        self.active.push(lib);
        proof {
            before.lemma_push_to_set_commute(lib);
            assert(!before.contains(lib));
            assert forall|i: int, j: int| 0 <= i < j < self.active@.len() implies self.active@[i]
                != self.active@[j] by {
                if j == before.len() {
                    assert(before.contains(before[i]));
                }
            }
        }
        true
    }

    /// Releases the scan of `lib`.
    pub fn finish(&mut self, lib: i64)
        requires
            old(self).wf(),
        ensures
            final(self).wf(),
            final(self)@ == old(self)@.remove(lib),
    {
        let ghost before = self.active@;
        let mut kept: Vec<i64> = Vec::new();
        let mut i: usize = 0;
        while i < self.active.len()
            invariant
                i <= before.len(),
                self.active@ == before,
                before.no_duplicates(),
                kept@.no_duplicates(),
                forall|x: i64| kept@.contains(x) <==> (before.take(i as int).contains(x) && x != lib),
            decreases before.len() - i,
        {
            let x = self.active[i];
            let ghost kb = kept@;
            let ghost t0 = before.take(i as int);
            let ghost t1 = before.take(i + 1);
            assert(t1 =~= t0.push(x));
            if x != lib {
                proof {
                    if kept@.contains(x) {
                        let k = choose|k: int| 0 <= k < t0.len() && t0[k] == x;
                        assert(before[k] == before[i as int]);
                    }
                }
                kept.push(x);
            }
            proof {
                assert forall|y: i64| kept@.contains(y) <==> (t1.contains(y) && y != lib) by {
                    if t1.contains(y) && y != lib {
                        let k = choose|k: int| 0 <= k < t1.len() && t1[k] == y;
                        if k < t0.len() {
                            assert(t0[k] == y);
                            assert(kb.contains(y));
                            let w = choose|w: int| 0 <= w < kb.len() && kb[w] == y;
                            assert(kept@[w] == y);
                        } else {
                            assert(kept@[kept@.len() - 1] == y);
                        }
                    }
                    if kept@.contains(y) {
                        let w = choose|w: int| 0 <= w < kept@.len() && kept@[w] == y;
                        if w < kb.len() {
                            assert(kb[w] == y);
                            assert(kb.contains(y));
                            let k = choose|k: int| 0 <= k < t0.len() && t0[k] == y;
                            assert(t1[k] == y);
                        } else {
                            assert(t1[i as int] == y);
                        }
                    }
                }
            }
            i = i + 1;
        }
        assert(before.take(i as int) =~= before);
        self.active = kept;
        assert(self@ =~= before.to_set().remove(lib));
    }
}

/// The path of a discovered file relative to its library: what follows the
/// library path, or the whole path when it does not lie under it.
pub open spec fn relative_text(file: FsPathView, library: FsPathView) -> Seq<char> {
    if has_prefix(file, library) {
        render(suffix_after(file, library))
    } else {
        render(file)
    }
}

/// The text under which a discovered file is recorded.
pub fn library_relative_path(file: &FsPath, library: &FsPath) -> (r: String)
    ensures
        r@ == relative_text(file@, library@),
{
    match file.strip_prefix(library) {
        Some(rel) => rel.render(),
        None => file.render(),
    }
}

} // verus!
