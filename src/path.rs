//! Filesystem paths as a root flag and a list of components, with the
//! operations that remapping and output placement need.
use vstd::prelude::*;

verus! {

/// A path: whether it starts at the root, and its components in order.
#[derive(Debug, Clone, PartialEq, Eq)]
pub struct FsPath {
    pub absolute: bool,
    pub parts: Vec<String>,
}

pub ghost struct FsPathView {
    pub absolute: bool,
    pub parts: Seq<Seq<char>>,
}

impl View for FsPath {
    type V = FsPathView;

    open spec fn view(&self) -> FsPathView {
        FsPathView { absolute: self.absolute, parts: strs_view(self.parts@) }
    }
}

/// The views of a list of strings.
pub open spec fn strs_view(v: Seq<String>) -> Seq<Seq<char>> {
    Seq::new(v.len(), |i: int| v[i]@)
}

/// Whether `p` starts with all of `base`.
pub open spec fn has_prefix(p: FsPathView, base: FsPathView) -> bool {
    &&& p.absolute == base.absolute
    &&& base.parts.len() <= p.parts.len()
    &&& p.parts.take(base.parts.len() as int) == base.parts
}

/// What is left of `p` after `base`, as a relative path.
pub open spec fn suffix_after(p: FsPathView, base: FsPathView) -> FsPathView {
    FsPathView { absolute: false, parts: p.parts.skip(base.parts.len() as int) }
}

/// `p` joined onto `base`: an absolute `p` replaces `base`.
pub open spec fn joined(base: FsPathView, p: FsPathView) -> FsPathView {
    if p.absolute {
        p
    } else {
        FsPathView { absolute: base.absolute, parts: base.parts + p.parts }
    }
}

/// `p` without its last component.
pub open spec fn parent_of(p: FsPathView) -> FsPathView {
    FsPathView { absolute: p.absolute, parts: p.parts.drop_last() }
}

/// The path as text: components separated by `/`, with a leading `/` when
/// it starts at the root.
pub open spec fn render(p: FsPathView) -> Seq<char> {
    if p.absolute {
        seq!['/'] + join_parts(p.parts)
    } else {
        join_parts(p.parts)
    }
}

pub open spec fn join_parts(parts: Seq<Seq<char>>) -> Seq<char>
    decreases parts.len(),
{
    if parts.len() == 0 {
        Seq::empty()
    } else if parts.len() == 1 {
        parts[0]
    } else {
        join_parts(parts.drop_last()) + seq!['/'] + parts.last()
    }
}

/// How std's path parser reads the text `s`: whether it starts at the root,
/// and its components (`.` inside a path and empty components dropped).
pub uninterp spec fn text_components(s: Seq<char>) -> (bool, Seq<Seq<char>>);

/// The path that the text `s` names.
pub open spec fn path_of_text(s: Seq<char>) -> FsPathView {
    FsPathView { absolute: text_components(s).0, parts: text_components(s).1 }
}

/// Relies on std::path::Path::components: splits the text into a root marker
/// and components; the result depends on the text alone.
#[verifier::external_body]
fn components_of(s: &str) -> (r: FsPath)
    ensures
        r@.absolute == text_components(s@).0,
        r@.parts == text_components(s@).1,
{
    let mut absolute = false;
    let mut parts: Vec<String> = Vec::new();
    for c in std::path::Path::new(s).components() {
        match c {
            std::path::Component::RootDir => absolute = true,
            std::path::Component::Prefix(p) => parts.push(p.as_os_str().to_string_lossy().into_owned()),
            std::path::Component::CurDir => parts.push(".".to_string()),
            std::path::Component::ParentDir => parts.push("..".to_string()),
            std::path::Component::Normal(n) => parts.push(n.to_string_lossy().into_owned()),
        }
    }
    FsPath { absolute, parts }
}

fn clone_parts(v: &Vec<String>, from: usize, to: usize) -> (r: Vec<String>)
    requires
        from <= to <= v@.len(),
    ensures
        r@ == v@.subrange(from as int, to as int),
        strs_view(r@) == strs_view(v@).subrange(from as int, to as int),
{
    let mut out: Vec<String> = Vec::new();
    let mut i: usize = from;
    while i < to
        invariant
            from <= i <= to <= v@.len(),
            out@ == v@.subrange(from as int, i as int),
        decreases to - i,
    {
        out.push(v[i].clone());
        assert(out@ =~= v@.subrange(from as int, i + 1));
        i = i + 1;
    }
    assert(strs_view(out@) =~= strs_view(v@).subrange(from as int, to as int));
    out
}

impl FsPath {
    /// Reads a path from its text.
    pub fn parse(s: &str) -> (r: FsPath)
        ensures
            r@ == path_of_text(s@),
    {
        components_of(s)
    }

    /// A copy of the path.
    pub fn duplicate(&self) -> (r: FsPath)
        ensures
            r@ == self@,
    {
        let parts = clone_parts(&self.parts, 0, self.parts.len());
        assert(parts@ =~= self.parts@);
        FsPath { absolute: self.absolute, parts }
    }

    /// Whether the path starts with all of `base`.
    pub fn starts_with(&self, base: &FsPath) -> (r: bool)
        ensures
            r == has_prefix(self@, base@),
    {
        if self.absolute != base.absolute || base.parts.len() > self.parts.len() {
            return false;
        }
        let ghost sp = self@.parts;
        let ghost bp = base@.parts;
        let mut i: usize = 0;
        while i < base.parts.len()
            invariant
                i <= base@.parts.len() <= self@.parts.len(),
                sp == self@.parts,
                bp == base@.parts,
                forall|k: int| 0 <= k < i ==> sp[k] == bp[k],
            decreases base@.parts.len() - i,
        {
            if self.parts[i] != base.parts[i] {
                assert(sp.take(bp.len() as int)[i as int] != bp[i as int]);
                return false;
            }
            i = i + 1;
        }
        assert(sp.take(bp.len() as int) =~= bp);
        true
    }

    /// What follows `base` in the path, if the path starts with it.
    pub fn strip_prefix(&self, base: &FsPath) -> (r: Option<FsPath>)
        ensures
            r is Some <==> has_prefix(self@, base@),
            r matches Some(s) ==> s@ == suffix_after(self@, base@),
    {
        if self.starts_with(base) {
            let parts = clone_parts(&self.parts, base.parts.len(), self.parts.len());
            assert(self@.parts.skip(base@.parts.len() as int) =~= self@.parts.subrange(
                base@.parts.len() as int,
                self@.parts.len() as int,
            ));
            Some(FsPath { absolute: false, parts })
        } else {
            None
        }
    }

    /// `p` joined onto this path; an absolute `p` replaces it.
    pub fn join(&self, p: &FsPath) -> (r: FsPath)
        ensures
            r@ == joined(self@, p@),
    {
        if p.absolute {
            return p.duplicate();
        }
        let mut parts = clone_parts(&self.parts, 0, self.parts.len());
        let mut i: usize = 0;
        assert(self.parts@ =~= self.parts@.subrange(0, self.parts@.len() as int));
        while i < p.parts.len()
            invariant
                i <= p.parts@.len(),
                parts@ == self.parts@ + p.parts@.take(i as int),
            decreases p.parts@.len() - i,
        {
            parts.push(p.parts[i].clone());
            assert(parts@ =~= self.parts@ + p.parts@.take(i + 1));
            i = i + 1;
        }
        assert(p.parts@.take(i as int) =~= p.parts@);
        assert(strs_view(parts@) =~= self@.parts + p@.parts);
        FsPath { absolute: self.absolute, parts }
    }

    /// The path without its last component, if it has one.
    pub fn parent(&self) -> (r: Option<FsPath>)
        ensures
            r is Some <==> self@.parts.len() > 0,
            r matches Some(q) ==> q@ == parent_of(self@),
    {
        if self.parts.len() == 0 {
            None
        } else {
            let parts = clone_parts(&self.parts, 0, self.parts.len() - 1);
            assert(self@.parts.drop_last() =~= self@.parts.subrange(
                0,
                self@.parts.len() - 1,
            ));
            Some(FsPath { absolute: self.absolute, parts })
        }
    }

    /// The last component, if there is one.
    pub fn file_name(&self) -> (r: Option<String>)
        ensures
            r is Some <==> self@.parts.len() > 0,
            r matches Some(n) ==> n@ == self@.parts.last(),
    {
        if self.parts.len() == 0 {
            None
        } else {
            Some(self.parts[self.parts.len() - 1].clone())
        }
    }

    /// The path as text.
    pub fn render(&self) -> (r: String)
        ensures
            r@ == render(self@),
    {
        let ghost pv = self@.parts;
        let mut out = String::new();
        let mut i: usize = 0;
        while i < self.parts.len()
            invariant
                i <= pv.len(),
                pv == self@.parts,
                out@ == join_parts(pv.take(i as int)),
            decreases pv.len() - i,
        {
            if i > 0 {
                out.append("/");
                proof {
                    reveal_strlit("/");
                }
            }
            out.append(self.parts[i].as_str());
            proof {
                let t = pv.take(i + 1);
                assert(t.drop_last() =~= pv.take(i as int));
                if i == 0 {
                    assert(out@ =~= join_parts(t));
                } else {
                    assert(out@ =~= join_parts(t));
                }
            }
            i = i + 1;
        }
        assert(pv.take(i as int) =~= pv);
        if self.absolute {
            let mut root = String::new();
            root.append("/");
            proof {
                reveal_strlit("/");
            }
            root.append(out.as_str());
            assert(root@ =~= render(self@));
            root
        } else {
            out
        }
    }
}

} // verus!
