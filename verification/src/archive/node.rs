//! Nodes: any point in the tree of an open archive.

use vstd::prelude::*;
use vstd::string::*;

use crate::archive::children::{child_entries, is_child_listing};
use crate::archive::{Archive, OpenOptions};
use crate::error::{Error, ErrorView, Result};
use crate::model::{
    is_normal, normal_path_idempotent, pieces_of_one, views, EntryMeta, EntryPath, EntryView,
    NodeKind,
};

verus! {

/// The name of the node that stands for an archive's root.
pub open spec fn root_name() -> Seq<char> {
    "<archive root>"@
}

/// Metadata of an archive's root. The root has no real entry; its path is a reserved placeholder
/// that never appears in listings.
pub open spec fn root_view() -> EntryView {
    EntryView {
        path: root_name(),
        raw_name: vstd::utf8::encode_utf8(root_name()),
        kind: NodeKind::Dir,
        uncompressed_size: None,
        compressed_size: None,
        mtime: None,
        mode: None,
        crc: None,
        encrypted: false,
        comment: None,
    }
}

/// Synthetic root-node metadata.
pub fn root_meta() -> (r: EntryMeta)
    ensures
        r@ == root_view(),
{
    proof {
        reveal_strlit("<archive root>");
        let s = root_name();
        pieces_of_one(s);
        assert(!s.contains('\\'));
        assert(is_normal(s)) by {
            assert forall|i: int| 0 <= i < crate::model::pieces(s).len() implies crate::model::is_component(
                #[trigger] crate::model::pieces(s)[i],
            ) by {
                assert(crate::model::pieces(s)[i] == s);
                assert(s.len() == 14);
                assert(s != seq!['.']);
                assert(s != seq!['.', '.']);
            }
        }
        normal_path_idempotent(s);
    }
    match EntryPath::new("<archive root>") {
        Ok(path) => EntryMeta {
            path,
            raw_name: "<archive root>".as_bytes_vec(),
            kind: NodeKind::Dir,
            uncompressed_size: None,
            compressed_size: None,
            mtime: None,
            mode: None,
            crc: None,
            encrypted: false,
            comment: None,
        },
        Err(_) => {
            assert(false);
            vstd::pervasive::unreached()
        },
    }
}

/// A node within an archive tree.
///
/// Directories have children; files have content, and those that hold an archive can be opened as
/// one.
pub trait Node: Sized {
    /// The archives that nodes belong to and open.
    type Tree: Archive;

    /// What the archive of this node is.
    spec fn tree(&self) -> <Self::Tree as Archive>::Model;

    /// What this node is.
    spec fn at(&self) -> NodeView;

    /// Metadata for this node.
    fn meta(&self) -> (r: &EntryMeta)
        ensures
            r@ == self.at().meta,
    ;

    /// The kind of this node.
    fn kind(&self) -> (r: NodeKind)
        ensures
            r == self.at().kind(),
    ;

    /// List children: those of a directory, and none of anything else.
    fn children(&self) -> (r: Result<Vec<Self>>)
        ensures
            match r {
                Ok(nodes) => {
                    &&& forall|i: int|
                        0 <= i < nodes@.len() ==> (#[trigger] nodes@[i]).tree() == self.tree()
                            && nodes@[i].at() == node_of(nodes@[i].at().meta)
                    &&& match self.at() {
                        NodeView { meta: _, place: Place::File } => nodes@.len() == 0,
                        NodeView { meta: _, place: Place::Dir(focus) } => {
                            &&& Self::Tree::listing(self.tree()) is Ok
                            &&& is_child_listing(
                                Self::Tree::listing(self.tree())->Ok_0,
                                focus,
                                nodes@.map_values(|n: Self| n.at().meta),
                            )
                        },
                    }
                },
                Err(e) => {
                    &&& self.at().place is Dir
                    &&& Self::Tree::listing(self.tree()) == Err::<Seq<EntryView>, ErrorView>(e@)
                },
            },
    ;

    /// The decompressed content; a directory has none.
    fn reader(&self) -> (r: Result<Vec<u8>>)
        ensures
            ({
                let want = match self.at().place {
                    Place::Dir(_) => Ok(Seq::<u8>::empty()),
                    Place::File => Self::Tree::content(self.tree(), self.at().meta),
                };
                match r {
                    Ok(b) => want == Ok::<Seq<u8>, ErrorView>(b@),
                    Err(e) => want == Err::<Seq<u8>, ErrorView>(e@),
                }
            }),
    ;

    /// Open this node as a nested archive.
    fn open_archive(&self, opts: &OpenOptions) -> (r: Result<Self::Tree>)
        ensures
            ({
                let want = match self.at().place {
                    Place::Dir(_) => Err(
                        ErrorView::CorruptArchive("directory is not an archive"@),
                    ),
                    Place::File => Self::Tree::nested(self.tree(), self.at().meta, opts@),
                };
                match r {
                    Ok(a) => want == Ok::<<Self::Tree as Archive>::Model, ErrorView>(a.model()),
                    Err(e) => want == Err::<<Self::Tree as Archive>::Model, ErrorView>(e@),
                }
            }),
    ;
}

/// Where in the tree a node stands.
pub enum Place {
    /// A directory; the root where there is no path.
    Dir(Option<Seq<char>>),
    /// Anything else.
    File,
}

/// A node as a mathematical value.
pub struct NodeView {
    pub meta: EntryView,
    pub place: Place,
}

impl NodeView {
    /// The kind of the node.
    pub open spec fn kind(self) -> NodeKind {
        match self.place {
            Place::Dir(_) => NodeKind::Dir,
            Place::File => self.meta.kind,
        }
    }
}

/// The node for an entry.
pub open spec fn node_of(meta: EntryView) -> NodeView {
    NodeView {
        meta,
        place: if meta.kind == NodeKind::Dir {
            Place::Dir(Some(meta.path))
        } else {
            Place::File
        },
    }
}

/// The node for the root.
pub open spec fn root_node() -> NodeView {
    NodeView { meta: root_view(), place: Place::Dir(None) }
}

/// A node of an open archive.
pub struct NodeRef<'a, A: Archive> {
    archive: &'a A,
    meta: EntryMeta,
    /// Whether the node is the root.
    is_root: bool,
}

/// What can be done with any archive: walk its tree and extract entries.
pub trait Browse: Archive {
    /// The root directory node.
    fn root(&self) -> (r: NodeRef<'_, Self>)
        ensures
            r.tree() == self.model(),
            r.at() == root_node(),
    ;

    /// Locate a node by path.
    fn node(&self, path: &EntryPath) -> (r: Result<NodeRef<'_, Self>>)
        ensures
            match r {
                Ok(n) => {
                    &&& n.tree() == self.model()
                    &&& Self::lookup(self.model(), path@) == Ok::<EntryView, ErrorView>(
                        n.at().meta,
                    )
                    &&& n.at() == node_of(n.at().meta)
                },
                Err(e) => Self::lookup(self.model(), path@) == Err::<EntryView, ErrorView>(e@),
            },
    ;

    /// Extract a single entry into `sink`, returning the number of bytes written. The sink is left
    /// as it was where the entry cannot be read.
    fn extract_to(&self, entry: &EntryMeta, sink: &mut Vec<u8>) -> (r: Result<u64>)
        ensures
            match r {
                Ok(n) => {
                    &&& Self::content(self.model(), entry@) is Ok
                    &&& final(sink)@ == old(sink)@ + Self::content(self.model(), entry@)->Ok_0
                    &&& n == Self::content(self.model(), entry@)->Ok_0.len()
                },
                Err(e) => {
                    &&& final(sink)@ == old(sink)@
                    &&& Self::content(self.model(), entry@) == Err::<Seq<u8>, ErrorView>(e@)
                },
            },
    ;
}

impl<A: Archive> Browse for A {
    fn extract_to(&self, entry: &EntryMeta, sink: &mut Vec<u8>) -> (r: Result<u64>) {
        match self.reader(entry) {
            Ok(bytes) => {
                let mut bytes = bytes;
                let n: u64 = bytes.len() as u64;
                sink.append(&mut bytes);
                Ok(n)
            },
            Err(e) => Err(e),
        }
    }

    fn root(&self) -> (r: NodeRef<'_, A>) {
        NodeRef { archive: self, meta: root_meta(), is_root: true }
    }

    fn node(&self, path: &EntryPath) -> (r: Result<NodeRef<'_, A>>) {
        match self.find(path) {
            Ok(meta) => Ok(NodeRef { archive: self, meta, is_root: false }),
            Err(e) => Err(e),
        }
    }
}

impl<'a, A: Archive> Node for NodeRef<'a, A> {
    type Tree = A;

    closed spec fn tree(&self) -> A::Model {
        self.archive.model()
    }

    closed spec fn at(&self) -> NodeView {
        if self.is_root {
            NodeView { meta: self.meta@, place: Place::Dir(None) }
        } else {
            node_of(self.meta@)
        }
    }

    fn meta(&self) -> (r: &EntryMeta) {
        &self.meta
    }

    fn kind(&self) -> (r: NodeKind) {
        if self.is_root {
            NodeKind::Dir
        } else {
            self.meta.kind
        }
    }

    fn children(&self) -> (r: Result<Vec<Self>>) {
        if !self.is_root && self.meta.kind != NodeKind::Dir {
            return Ok(Vec::new());
        }
        let entries = match self.archive.entries() {
            Ok(entries) => entries,
            Err(e) => return Err(e),
        };
        let focus = if self.is_root {
            None
        } else {
            Some(&self.meta.path)
        };
        let found = child_entries(entries.as_slice(), focus);
        let mut nodes: Vec<Self> = Vec::new();
        let mut i: usize = 0;
        while i < found.len()
            invariant
                i <= found@.len(),
                nodes@.len() == i,
                forall|j: int|
                    0 <= j < i ==> (#[trigger] nodes@[j]).tree() == self.tree() && nodes@[j].at()
                        == node_of(found@[j]@),
            decreases found@.len() - i,
        {
            nodes.push(NodeRef { archive: self.archive, meta: found[i].clone(), is_root: false });
            i += 1;
        }
        assert(nodes@.map_values(|n: Self| n.at().meta) =~= views(found@));
        Ok(nodes)
    }

    fn reader(&self) -> (r: Result<Vec<u8>>) {
        if self.is_root || self.meta.kind == NodeKind::Dir {
            return Ok(Vec::new());
        }
        self.archive.reader(&self.meta)
    }

    fn open_archive(&self, opts: &OpenOptions) -> (r: Result<A>) {
        if self.is_root || self.meta.kind == NodeKind::Dir {
            return Err(Error::corrupt("directory is not an archive"));
        }
        self.archive.open_nested(&self.meta, opts)
    }
}

} // verus!
