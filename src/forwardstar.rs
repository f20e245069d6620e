//! A compact, incrementally built parent/child graph ("forward star").
//!
//! Node `i` owns the slots `to_node[first_link[i] .. first_link[i + 1]]`,
//! which hold its children in the order they were added.

use vstd::prelude::*;
use vstd::string::*;

verus! {

/// Marker for "no node" and "no link".
pub const NILVALUE: usize = usize::MAX;

/// Failures of a caption lookup.
#[derive(Debug, Clone, PartialEq, Eq)]
pub enum GraphError {
    /// No node carries the caption.
    CaptionNotFound { caption: String },
    /// More than one node would carry the caption.
    DuplicateCaption { caption: String },
}

#[derive(Debug, Clone)]
pub struct ForwardStar {
    node_caption: Vec<String>,
    first_link: Vec<usize>,
    to_node: Vec<usize>,
    num_links: usize,
    num_nodes: usize,
    selected_node: usize,
}

/// No two entries of `caps` are equal.
pub open spec fn captions_unique(caps: Seq<Seq<char>>) -> bool {
    forall|i: int, j: int|
        0 <= i < caps.len() && 0 <= j < caps.len() && i != j ==> caps[i] != caps[j]
}

/// `c` is the caption of some node.
pub open spec fn has_caption(caps: Seq<Seq<char>>, c: Seq<char>) -> bool {
    exists|i: int| 0 <= i < caps.len() && caps[i] == c
}

/// A graph as plain values: captions by node, children by node, and the
/// number of edges.
pub struct GraphView {
    pub captions: Seq<Seq<char>>,
    pub children: Seq<Seq<usize>>,
    pub links: nat,
}

/// The index of the node captioned `c`.
pub open spec fn caption_index(caps: Seq<Seq<char>>, c: Seq<char>) -> int {
    choose|i: int| 0 <= i < caps.len() && caps[i] == c
}

/// The graph with one root node captioned `c`.
pub open spec fn graph_with_root(c: Seq<char>) -> GraphView {
    GraphView { captions: seq![c], children: seq![Seq::empty()], links: 0 }
}

/// The graph after adding a node captioned `child` as the last child of the
/// node captioned `parent`.
pub open spec fn graph_insert(g: GraphView, parent: Seq<char>, child: Seq<char>) -> Result<GraphView, GraphFailure> {
    if !has_caption(g.captions, parent) {
        Err(GraphFailure::CaptionNotFound(parent))
    } else if has_caption(g.captions, child) {
        Err(GraphFailure::DuplicateCaption(child))
    } else {
        let p = caption_index(g.captions, parent);
        let n = g.captions.len();
        Ok(GraphView {
            captions: g.captions.push(child),
            children: g.children.update(p, g.children[p].push(n as usize)).push(Seq::empty()),
            links: g.links + 1,
        })
    }
}

/// A failed caption lookup, as plain values.
pub enum GraphFailure {
    CaptionNotFound(Seq<char>),
    DuplicateCaption(Seq<char>),
}

impl GraphError {
    pub open spec fn view(&self) -> GraphFailure {
        match self {
            GraphError::CaptionNotFound { caption } => GraphFailure::CaptionNotFound(caption@),
            GraphError::DuplicateCaption { caption } => GraphFailure::DuplicateCaption(caption@),
        }
    }
}

impl ForwardStar {
    /// The graph as plain values.
    pub closed spec fn view(&self) -> GraphView {
        GraphView {
            captions: self.captions(),
            children: Seq::new(self.num_nodes as nat, |i: int| self.children(i)),
            links: self.num_links as nat,
        }
    }

    /// The captions of the nodes, by node index.
    pub closed spec fn captions(&self) -> Seq<Seq<char>> {
        self.node_caption@.map_values(|s: String| s@)
    }

    /// The number of nodes.
    pub closed spec fn node_count(&self) -> nat {
        self.num_nodes as nat
    }

    /// The number of edges.
    pub closed spec fn link_count(&self) -> nat {
        self.num_links as nat
    }

    /// The node chosen by the last successful child insertion.
    pub closed spec fn selected(&self) -> usize {
        self.selected_node
    }

    /// The children of node `i`, in the order they were added.
    pub closed spec fn children(&self, i: int) -> Seq<usize> {
        self.to_node@.subrange(self.first_link@[i] as int, self.first_link@[i + 1] as int)
    }

    /// The raw offsets array.
    pub closed spec fn offsets(&self) -> Seq<usize> {
        self.first_link@
    }

    /// The raw flat children array.
    pub closed spec fn targets(&self) -> Seq<usize> {
        self.to_node@
    }

    /// The layout invariant: offsets ascend from zero to the number of edges,
    /// every edge points at a non-root node, no node has two incoming edges,
    /// there is one edge fewer than nodes, and captions are unique.
    pub closed spec fn wf(&self) -> bool {
        let n = self.num_nodes as int;
        let fl = self.first_link@;
        let tn = self.to_node@;
        &&& self.node_caption.len() == n
        &&& n < usize::MAX
        &&& tn.len() == self.num_links
        &&& (n == 0 ==> fl.len() == 0 && self.num_links == 0)
        &&& (n > 0 ==> {
            &&& fl.len() == n + 1
            &&& fl[0] == 0
            &&& fl[n] == self.num_links
            &&& self.num_links + 1 == n
            &&& forall|i: int, j: int| 0 <= i <= j <= n ==> #[trigger] fl[i] <= #[trigger] fl[j]
        })
        &&& forall|k: int| 0 <= k < tn.len() ==> 1 <= #[trigger] tn[k] < n
        &&& forall|k: int, l: int| 0 <= k < tn.len() && 0 <= l < tn.len() && k != l ==> #[trigger] tn[k] != #[trigger] tn[l]
        &&& captions_unique(self.captions())
    }

    /// What the invariant says in terms of the public views.
    pub proof fn lemma_wf(&self)
        requires
            self.wf(),
        ensures
            self.captions().len() == self.node_count(),
            captions_unique(self.captions()),
            self.node_count() > 0 ==> self.link_count() + 1 == self.node_count(),
            self.node_count() == 0 ==> self.link_count() == 0,
            self.node_count() > 0 ==> self.offsets().len() == self.node_count() + 1,
            self.targets().len() == self.link_count(),
            self@.captions == self.captions(),
            self@.links == self.link_count(),
            self@.children.len() == self.node_count(),
            self.node_count() > 0 ==> self.offsets()[0] == 0 && self.offsets()[self.node_count() as int]
                == self.link_count(),
            forall|i: int, j: int|
                0 <= i <= j <= self.node_count() && self.node_count() > 0 ==> #[trigger] self.offsets()[i]
                    <= #[trigger] self.offsets()[j],
            forall|i: int|
                0 <= i < self.node_count() ==> #[trigger] self.children(i) == self.targets().subrange(
                    self.offsets()[i] as int,
                    self.offsets()[i + 1] as int,
                ),
            forall|k: int| 0 <= k < self.link_count() ==> 1 <= #[trigger] self.targets()[k] < self.node_count(),
            forall|k: int, l: int|
                0 <= k < self.link_count() && 0 <= l < self.link_count() && k != l
                    ==> #[trigger] self.targets()[k] != #[trigger] self.targets()[l],
    {
    }

    /// Some edge leads into node `v`.
    pub open spec fn has_incoming(&self, v: int) -> bool {
        exists|k: int| 0 <= k < self.link_count() && self.targets()[k] == v
    }

    /// Every node but the root is the target of exactly one edge, and no
    /// edge leads into the root: the edges form a tree.
    pub proof fn lemma_one_parent(&self)
        requires
            self.wf(),
        ensures
            forall|v: int| 1 <= v < self.node_count() ==> #[trigger] self.has_incoming(v),
            forall|k: int, l: int|
                0 <= k < self.link_count() && 0 <= l < self.link_count() && self.targets()[k]
                    == self.targets()[l] ==> k == l,
            forall|k: int| 0 <= k < self.link_count() ==> #[trigger] self.targets()[k] != 0,
    {
        let n = self.num_nodes as int;
        let ti = self.to_node@.map_values(|x: usize| x as int);
        assert(ti.no_duplicates()) by {
            assert forall|i: int, j: int| 0 <= i < ti.len() && 0 <= j < ti.len() && i != j implies ti[i] != ti[j] by {
                assert(self.to_node@[i] != self.to_node@[j]);
            }
        }
        ti.unique_seq_to_set();
        if n > 0 {
            let range = vstd::set_lib::set_int_range(1, n);
            vstd::set_lib::lemma_int_range(1, n);
            assert(ti.to_set().subset_of(range)) by {
                assert forall|x: int| ti.to_set().contains(x) implies range.contains(x) by {
                    let k = choose|k: int| 0 <= k < ti.len() && ti[k] == x;
                    assert(1 <= self.to_node@[k] < n);
                }
            }
            vstd::set_lib::lemma_len_subset(ti.to_set(), range);
            vstd::set_lib::lemma_subset_equality(ti.to_set(), range);
            assert forall|v: int| 1 <= v < self.node_count() implies #[trigger] self.has_incoming(v) by {
                assert(range.contains(v));
                assert(ti.to_set().contains(v));
                let k = choose|k: int| 0 <= k < ti.len() && ti[k] == v;
                assert(self.targets()[k] == v);
            }
        }
    }

    pub fn new() -> (r: ForwardStar)
        ensures
            r.wf(),
            r.node_count() == 0,
            r.link_count() == 0,
            r.captions() == Seq::<Seq<char>>::empty(),
            r.selected() == NILVALUE,
            r@ == (GraphView { captions: Seq::empty(), children: Seq::empty(), links: 0 }),
    {
        let r = ForwardStar {
            node_caption: Vec::new(),
            first_link: Vec::new(),
            to_node: Vec::new(),
            num_links: 0,
            num_nodes: 0,
            selected_node: NILVALUE,
        };
        proof {
            assert(r.captions() =~= Seq::<Seq<char>>::empty());
            assert(r@.children =~= Seq::<Seq<usize>>::empty());
        }
        r
    }

    /// Looks a node up by its caption: its index when exactly one node
    /// carries it.
    fn select_node_by_caption(&self, node_caption: &str) -> (r: Result<usize, GraphError>)
        requires
            self.wf(),
        ensures
            match r {
                Ok(i) => {
                    &&& i < self.node_count()
                    &&& self.captions()[i as int] == node_caption@
                    &&& forall|j: int|
                        0 <= j < self.captions().len() && j != i ==> self.captions()[j]
                            != node_caption@
                },
                Err(GraphError::CaptionNotFound { caption }) => {
                    &&& caption@ == node_caption@
                    &&& !has_caption(self.captions(), node_caption@)
                },
                Err(GraphError::DuplicateCaption { caption }) => {
                    &&& caption@ == node_caption@
                    &&& exists|i: int, j: int|
                        0 <= i < j < self.captions().len() && self.captions()[i] == node_caption@
                            && self.captions()[j] == node_caption@
                },
            },
    {
        let wanted = node_caption.to_owned();
        let mut found: Option<usize> = None;
        let mut i: usize = 0;
        while i < self.num_nodes
            invariant
                self.wf(),
                wanted@ == node_caption@,
                i <= self.num_nodes,
                match found {
                    Some(f) => f < i && self.captions()[f as int] == wanted@ && forall|j: int|
                        0 <= j < i && j != f ==> self.captions()[j] != wanted@,
                    None => forall|j: int| 0 <= j < i ==> self.captions()[j] != wanted@,
                },
            decreases self.num_nodes - i,
        {
            if self.node_caption[i] == wanted {
                match found {
                    Some(f) => {
                        proof {
                            assert(self.captions()[f as int] == node_caption@);
                            assert(self.captions()[i as int] == node_caption@);
                        }
                        return Err(GraphError::DuplicateCaption { caption: wanted });
                    },
                    None => {
                        found = Some(i);
                    },
                }
            }
            i += 1;
        }
        match found {
            Some(f) => Ok(f),
            None => Err(GraphError::CaptionNotFound { caption: wanted }),
        }
    }

    /// Appends a node with no children and returns its index.
    fn new_node(&mut self, caption: &str) -> (out: usize)
        requires
            old(self).wf(),
            old(self).num_nodes > 0,
            old(self).num_nodes < usize::MAX - 1,
        ensures
            out == old(self).num_nodes,
            final(self).num_nodes == out + 1,
            final(self).node_caption@.len() == old(self).node_caption@.len() + 1,
            final(self).captions() == old(self).captions().push(caption@),
            final(self).first_link@ == old(self).first_link@.push(old(self).num_links),
            final(self).to_node == old(self).to_node,
            final(self).num_links == old(self).num_links,
            final(self).selected_node == old(self).selected_node,
    {
        let last = self.first_link[self.num_nodes];
        self.first_link.push(last);
        self.node_caption.push(caption.to_owned());
        let out = self.num_nodes;
        self.num_nodes += 1;
        proof {
            assert(self.captions() =~= old(self).captions().push(caption@));
        }
        out
    }

    /// Opens a slot for a new edge `from_node -> to_node` at the end of
    /// `from_node`'s children, shifting every later slot one place right, and
    /// moves the offsets of all later nodes up by one.
    fn add_link(&mut self, from_node: usize, to_node: usize)
        requires
            old(self).num_nodes > from_node,
            old(self).first_link.len() == old(self).num_nodes + 1,
            old(self).to_node.len() == old(self).num_links,
            old(self).num_links < usize::MAX - 1,
            old(self).first_link@[from_node + 1] <= old(self).num_links,
            forall|i: int| 0 <= i <= old(self).num_nodes ==> #[trigger] old(self).first_link@[i] <= old(self).num_links,
        ensures
            final(self).num_links == old(self).num_links + 1,
            final(self).to_node@ == old(self).to_node@.insert(
                old(self).first_link@[from_node + 1] as int,
                to_node,
            ),
            final(self).first_link@.len() == old(self).first_link@.len(),
            forall|i: int|
                0 <= i <= from_node ==> #[trigger] final(self).first_link@[i] == old(self).first_link@[i],
            forall|i: int|
                from_node < i <= old(self).num_nodes ==> #[trigger] final(self).first_link@[i]
                    == old(self).first_link@[i] + 1,
            final(self).num_nodes == old(self).num_nodes,
            final(self).node_caption == old(self).node_caption,
            final(self).selected_node == old(self).selected_node,
    {
        let ghost old_tn = self.to_node@;
        let len = self.num_links;
        self.num_links += 1;
        self.to_node.push(NILVALUE);
        let slot = self.first_link[from_node + 1];
        let mut i: usize = len;
        while i > slot
            invariant
                slot <= i <= len,
                self.to_node.len() == len + 1,
                self.num_links == len + 1,
                self.num_nodes == old(self).num_nodes,
                self.first_link == old(self).first_link,
                self.node_caption == old(self).node_caption,
                self.selected_node == old(self).selected_node,
                slot == old(self).first_link@[from_node + 1],
                old_tn.len() == len,
                forall|k: int| 0 <= k < i && k < len ==> #[trigger] self.to_node@[k] == old_tn[k],
                forall|k: int| i < k <= len ==> #[trigger] self.to_node@[k] == old_tn[k - 1],
            decreases i,
        {
            let prev = self.to_node[i - 1];
            self.to_node.set(i, prev);
            i -= 1;
        }
        self.to_node.set(slot, to_node);
        proof {
            assert(self.to_node@ =~= old_tn.insert(slot as int, to_node));
        }
        let ghost old_fl = self.first_link@;
        let mut j: usize = from_node + 1;
        while j <= self.num_nodes
            invariant
                from_node < j <= self.num_nodes + 1,
                self.num_nodes == old(self).num_nodes,
                self.first_link.len() == self.num_nodes + 1,
                old_fl == old(self).first_link@,
                self.num_links == len + 1,
                self.to_node@ == old_tn.insert(slot as int, to_node),
                self.node_caption == old(self).node_caption,
                self.selected_node == old(self).selected_node,
                forall|i: int| 0 <= i <= self.num_nodes ==> #[trigger] old_fl[i] <= len,
                len < usize::MAX - 1,
                forall|k: int| 0 <= k <= from_node ==> #[trigger] self.first_link@[k] == old_fl[k],
                forall|k: int| from_node < k < j ==> #[trigger] self.first_link@[k] == old_fl[k] + 1,
                forall|k: int| j <= k <= self.num_nodes ==> #[trigger] self.first_link@[k] == old_fl[k],
            decreases self.num_nodes + 1 - j,
        {
            let v = self.first_link[j];
            self.first_link.set(j, v + 1);
            j += 1;
        }
    }

    /// Starts the graph with a single root node.
    pub fn add_root(&mut self, root_caption: &str)
        requires
            old(self).wf(),
            old(self).node_count() == 0,
        ensures
            final(self).wf(),
            final(self).node_count() == 1,
            final(self).link_count() == 0,
            final(self).captions() == seq![root_caption@],
            final(self).children(0) == Seq::<usize>::empty(),
            final(self).selected() == old(self).selected(),
            final(self)@ == graph_with_root(root_caption@),
    {
        self.first_link.push(0);
        self.node_caption.push(root_caption.to_owned());
        self.first_link.push(0);
        self.num_nodes = 1;
        proof {
            assert(self.captions() =~= seq![root_caption@]);
            assert(self.children(0) =~= Seq::<usize>::empty());
            assert(self@.children =~= graph_with_root(root_caption@).children);
        }
    }

    /// Adds a node captioned `child_caption` as the last child of the node
    /// captioned `parent_node_caption`.
    pub fn add_child(&mut self, parent_node_caption: &str, child_caption: &str) -> (r: Result<
        (),
        GraphError,
    >)
        requires
            old(self).wf(),
            old(self).node_count() + 2 < usize::MAX,
        ensures
            final(self).wf(),
            match r {
                Ok(()) => graph_insert(old(self)@, parent_node_caption@, child_caption@) == Ok::<GraphView, GraphFailure>(final(self)@),
                Err(e) => graph_insert(old(self)@, parent_node_caption@, child_caption@) == Err::<GraphView, GraphFailure>(e.view()),
            },
            match r {
                Ok(()) => {
                    let p = final(self).selected() as int;
                    let n = old(self).node_count() as int;
                    &&& 0 <= p < n
                    &&& old(self).captions()[p] == parent_node_caption@
                    &&& !has_caption(old(self).captions(), child_caption@)
                    &&& final(self).captions() == old(self).captions().push(child_caption@)
                    &&& final(self).node_count() == n + 1
                    &&& final(self).link_count() == old(self).link_count() + 1
                    &&& final(self).children(p) == old(self).children(p).push(n as usize)
                    &&& final(self).children(n) == Seq::<usize>::empty()
                    &&& forall|i: int|
                        0 <= i < n && i != p ==> #[trigger] final(self).children(i) == old(
                            self,
                        ).children(i)
                },
                Err(GraphError::CaptionNotFound { caption }) => {
                    &&& caption@ == parent_node_caption@
                    &&& !has_caption(old(self).captions(), parent_node_caption@)
                    &&& *final(self) == *old(self)
                },
                Err(GraphError::DuplicateCaption { caption }) => {
                    &&& caption@ == child_caption@
                    &&& has_caption(old(self).captions(), parent_node_caption@)
                    &&& has_caption(old(self).captions(), child_caption@)
                    &&& *final(self) == *old(self)
                },
            },
    {
        let parent = match self.select_node_by_caption(parent_node_caption) {
            Ok(x) => x,
            Err(GraphError::CaptionNotFound { caption }) => {
                return Err(GraphError::CaptionNotFound { caption });
            },
            Err(GraphError::DuplicateCaption { caption }) => {
                proof {
                    let (i, j) = choose|i: int, j: int|
                        0 <= i < j < self.captions().len() && self.captions()[i]
                            == parent_node_caption@ && self.captions()[j] == parent_node_caption@;
                    assert(self.captions()[i] == self.captions()[j]);
                }
                return Err(GraphError::DuplicateCaption { caption });
            },
        };
        match self.select_node_by_caption(child_caption) {
            Err(GraphError::CaptionNotFound { caption: _ }) => {},
            _ => {
                proof {
                    assert(has_caption(self.captions(), parent_node_caption@));
                }
                return Err(GraphError::DuplicateCaption { caption: child_caption.to_owned() });
            },
        }
        let ghost old_self = *self;
        let ghost n = self.num_nodes as int;
        let ghost e = self.first_link@[parent + 1] as int;
        proof {
            assert(self.first_link@[n] == self.num_links);
            assert forall|i: int| 0 <= i <= n implies #[trigger] self.first_link@[i] <= self.num_links by {
                assert(self.first_link@[i] <= self.first_link@[n]);
            }
        }
        self.selected_node = parent;
        let node = self.new_node(child_caption);
        self.add_link(parent, node);
        proof {
            let fl = self.first_link@;
            let ofl = old_self.first_link@;
            let tn = self.to_node@;
            let otn = old_self.to_node@;
            assert(ofl[parent + 1] <= ofl[n]);
            assert(fl[n + 1] == self.num_links);
            assert forall|i: int, j: int| 0 <= i <= j <= n + 1 implies #[trigger] fl[i] <= #[trigger] fl[j] by {
                if j <= n {
                    assert(ofl[i] <= ofl[j]);
                } else if i <= n {
                    assert(ofl[i] <= ofl[n]);
                }
            }
            assert forall|k: int| 0 <= k < tn.len() implies 1 <= #[trigger] tn[k] < n + 1 by {
                if k < e {
                    assert(tn[k] == otn[k]);
                } else if k > e {
                    assert(tn[k] == otn[k - 1]);
                }
            }
            assert forall|k: int, l: int| 0 <= k < tn.len() && 0 <= l < tn.len() && k != l implies #[trigger] tn[k] != #[trigger] tn[l] by {
                if k != e && l != e {
                    let k0 = if k < e { k } else { k - 1 };
                    let l0 = if l < e { l } else { l - 1 };
                    assert(tn[k] == otn[k0]);
                    assert(tn[l] == otn[l0]);
                } else if k == e {
                    let l0 = if l < e { l } else { l - 1 };
                    assert(tn[l] == otn[l0]);
                } else {
                    let k0 = if k < e { k } else { k - 1 };
                    assert(tn[k] == otn[k0]);
                }
            }
            assert forall|i: int, j: int| 0 <= i < self.captions().len() && 0 <= j < self.captions().len() && i != j implies self.captions()[i] != self.captions()[j] by {
                if i < n && j < n {
                    assert(old_self.captions()[i] != old_self.captions()[j]);
                } else if i == n {
                    assert(old_self.captions()[j] != child_caption@);
                } else {
                    assert(old_self.captions()[i] != child_caption@);
                }
            }
            assert(self.children(parent as int) =~= old_self.children(parent as int).push(n as usize));
            assert(caption_index(old_self.captions(), parent_node_caption@) == parent as int) by {
                let c = caption_index(old_self.captions(), parent_node_caption@);
                assert(old_self.captions()[parent as int] == parent_node_caption@);
                if c != parent as int {
                    assert(old_self.captions()[c] != old_self.captions()[parent as int]);
                }
            }
            assert(self.children(n) =~= Seq::<usize>::empty());
            assert forall|i: int| 0 <= i < n && i != parent implies #[trigger] self.children(i) == old_self.children(i) by {
                if i < parent {
                    assert(ofl[i + 1] <= ofl[parent + 1]);
                    assert(self.children(i) =~= old_self.children(i));
                } else {
                    assert(ofl[parent + 1] <= ofl[i]);
                    assert(ofl[i] <= ofl[i + 1]);
                    assert(self.children(i) =~= old_self.children(i));
                }
            }
            let g = graph_insert(old_self@, parent_node_caption@, child_caption@)->Ok_0;
            assert(self@.captions =~= g.captions);
            assert(self@.children =~= g.children);
        }
        Ok(())
    }

    /// `r` is what `find_parent(node)` returns: the parent of `node` and the
    /// slot of the edge into it, or `(NILVALUE, NILVALUE)` where no edge leads
    /// into `node`.
    pub open spec fn parent_result(&self, node: usize, r: (usize, usize)) -> bool {
        &&& (r == (NILVALUE, NILVALUE) <==> forall|p: int|
            0 <= p < self.node_count() ==> !#[trigger] self.children(p).contains(node))
        &&& (r != (NILVALUE, NILVALUE) ==> {
            &&& r.0 < self.node_count()
            &&& r.1 < self.link_count()
            &&& self.children(r.0 as int).contains(node)
            &&& self.targets()[r.1 as int] == node
            &&& self.offsets()[r.0 as int] <= r.1 < self.offsets()[r.0 + 1]
        })
    }

    /// The parent of `node` and the slot of the edge into it, or
    /// `(NILVALUE, NILVALUE)` where no edge leads into `node` (the root).
    pub fn find_parent(&self, node: usize) -> (r: (usize, usize))
        requires
            self.wf(),
        ensures
            self.parent_result(node, r),
    {
        let n = self.num_nodes;
        let mut parent: usize = 0;
        while parent < n
            invariant
                self.wf(),
                n == self.num_nodes,
                parent <= n,
                forall|q: int| 0 <= q < parent ==> !#[trigger] self.children(q).contains(node),
            decreases n - parent,
        {
            proof {
                assert(self.first_link@[parent as int] <= self.first_link@[parent + 1]);
                assert(self.first_link@[parent + 1] <= self.first_link@[n as int]);
            }
            let mut link: usize = self.first_link[parent];
            let end = self.first_link[parent + 1];
            while link < end
                invariant
                    self.wf(),
                    n == self.num_nodes,
                    parent < n,
                    self.first_link@[parent as int] <= link <= end,
                    end == self.first_link@[parent + 1],
                    end <= self.num_links,
                    forall|q: int| 0 <= q < parent ==> !#[trigger] self.children(q).contains(node),
                    forall|k: int| self.first_link@[parent as int] <= k < link ==> #[trigger] self.to_node@[k] != node,
                decreases end - link,
            {
                if self.to_node[link] == node {
                    proof {
                        let start = self.first_link@[parent as int] as int;
                        assert(self.children(parent as int)[link - start] == node);
                        assert(self.children(parent as int).contains(node));
                    }
                    return (parent, link);
                }
                link += 1;
            }
            proof {
                let p = parent as int;
                if self.children(p).contains(node) {
                    let idx = choose|idx: int| 0 <= idx < self.children(p).len() && self.children(p)[idx] == node;
                    assert(self.to_node@[self.first_link@[p] + idx] == node);
                }
            }
            parent += 1;
        }
        (NILVALUE, NILVALUE)
    }

    /// The parent of the node captioned `node_caption`, as `find_parent`.
    pub fn find_parent_by_caption(&self, node_caption: &str) -> (r: Result<(usize, usize), GraphError>)
        requires
            self.wf(),
        ensures
            match r {
                Ok(pair) => exists|i: int|
                    0 <= i < self.captions().len() && self.captions()[i] == node_caption@
                        && self.parent_result(i as usize, pair),
                Err(GraphError::CaptionNotFound { caption }) => caption@ == node_caption@
                    && !has_caption(self.captions(), node_caption@),
                Err(GraphError::DuplicateCaption { caption }) => false,
            },
    {
        match self.select_node_by_caption(node_caption) {
            Ok(node) => {
                let pair = self.find_parent(node);
                Ok(pair)
            },
            Err(GraphError::CaptionNotFound { caption }) => Err(GraphError::CaptionNotFound { caption }),
            Err(GraphError::DuplicateCaption { caption }) => {
                proof {
                    let (i, j) = choose|i: int, j: int|
                        0 <= i < j < self.captions().len() && self.captions()[i]
                            == node_caption@ && self.captions()[j] == node_caption@;
                    assert(self.captions()[i] == self.captions()[j]);
                }
                Err(GraphError::DuplicateCaption { caption })
            },
        }
    }

    /// The index of the node captioned `node_caption`.
    pub fn find_node_by_caption(&self, node_caption: &str) -> (r: Result<usize, GraphError>)
        requires
            self.wf(),
        ensures
            match r {
                Ok(i) => i < self.node_count() && self.captions()[i as int] == node_caption@,
                Err(GraphError::CaptionNotFound { caption }) => caption@ == node_caption@
                    && !has_caption(self.captions(), node_caption@),
                Err(GraphError::DuplicateCaption { caption }) => false,
            },
    {
        match self.select_node_by_caption(node_caption) {
            Ok(node) => Ok(node),
            Err(GraphError::CaptionNotFound { caption }) => Err(GraphError::CaptionNotFound { caption }),
            Err(GraphError::DuplicateCaption { caption }) => {
                proof {
                    let (i, j) = choose|i: int, j: int|
                        0 <= i < j < self.captions().len() && self.captions()[i]
                            == node_caption@ && self.captions()[j] == node_caption@;
                    assert(self.captions()[i] == self.captions()[j]);
                }
                Err(GraphError::DuplicateCaption { caption })
            },
        }
    }

    /// The offsets array: node `i`'s edges start at entry `i`.
    pub fn get_first_links(&self) -> (r: &Vec<usize>)
        ensures
            r@ == self.offsets(),
    {
        &self.first_link
    }

    /// The flat array of edge targets.
    pub fn get_to_nodes(&self) -> (r: &Vec<usize>)
        ensures
            r@ == self.targets(),
    {
        &self.to_node
    }

    /// The node captions, by node index.
    pub fn get_node_captions(&self) -> (r: &Vec<String>)
        ensures
            r@.map_values(|s: String| s@) == self.captions(),
    {
        &self.node_caption
    }

    pub fn num_nodes(&self) -> (r: usize)
        ensures
            r == self.node_count(),
    {
        self.num_nodes
    }

    pub fn num_links(&self) -> (r: usize)
        ensures
            r == self.link_count(),
    {
        self.num_links
    }

    pub fn selected_node(&self) -> (r: usize)
        ensures
            r == self.selected(),
    {
        self.selected_node
    }

    /// The line printed for `node` reached from `parent`: `parent -> node`,
    /// or the node's own caption where the walk starts at it.
    pub open spec fn line_text(&self, node: int, parent: int, show_self: bool) -> Seq<char> {
        if node != parent {
            self.captions()[parent] + " -> "@ + self.captions()[node] + "\n"@
        } else if show_self {
            self.captions()[node] + "\n"@
        } else {
            Seq::empty()
        }
    }

    /// The depth-first walk from `node`: its line, then the walk of each of
    /// its children in the order they were added, down to `fuel` levels.
    pub open spec fn node_text(&self, node: int, parent: int, show_self: bool, fuel: nat) -> Seq<char>
        decreases fuel, 0nat,
    {
        if fuel == 0 {
            self.line_text(node, parent, show_self)
        } else {
            self.line_text(node, parent, show_self) + self.children_text(
                node,
                self.children(node).len(),
                (fuel - 1) as nat,
            )
        }
    }

    /// The walks of the first `k` children of `node`, in order.
    pub open spec fn children_text(&self, node: int, k: nat, fuel: nat) -> Seq<char>
        decreases fuel, k + 1,
    {
        if k == 0 {
            Seq::empty()
        } else {
            self.children_text(node, (k - 1) as nat, fuel) + self.node_text(
                self.children(node)[k - 1] as int,
                node,
                true,
                fuel,
            )
        }
    }

    fn walk(&self, node: usize, parent: usize, show_self: bool, fuel: usize) -> (r: String)
        requires
            self.wf(),
            node < self.node_count(),
            parent < self.node_count(),
        ensures
            r@ == self.node_text(node as int, parent as int, show_self, fuel as nat),
        decreases fuel,
    {
        let mut out = String::new();
        proof {
            reveal_strlit(" -> ");
            reveal_strlit("\n");
        }
        if node != parent {
            out.append(self.node_caption[parent].as_str());
            out.append(" -> ");
            out.append(self.node_caption[node].as_str());
            out.append("\n");
        } else if show_self {
            out.append(self.node_caption[node].as_str());
            out.append("\n");
        }
        let ghost line = self.line_text(node as int, parent as int, show_self);
        proof {
            assert(out@ =~= line);
        }
        if fuel == 0 {
            return out;
        }
        proof {
            assert(self.first_link@[node as int] <= self.first_link@[node + 1]);
            assert(self.first_link@[node + 1] <= self.first_link@[self.num_nodes as int]);
        }
        let start = self.first_link[node];
        let end = self.first_link[node + 1];
        let mut l = start;
        while l < end
            invariant
                self.wf(),
                node < self.node_count(),
                fuel > 0,
                start == self.first_link@[node as int],
                end == self.first_link@[node + 1],
                start <= l <= end <= self.num_links,
                out@ == line + self.children_text(node as int, (l - start) as nat, (fuel - 1) as nat),
            decreases end - l,
        {
            let child = self.to_node[l];
            proof {
                assert(self.children(node as int)[l - start] == child);
            }
            let t = self.walk(child, node, true, fuel - 1);
            out.append(t.as_str());
            proof {
                assert(out@ =~= line + self.children_text(node as int, (l + 1 - start) as nat, (fuel - 1) as nat));
            }
            l += 1;
        }
        out
    }

    /// The walk from `node` reached from `parent`, one line per node: the
    /// node's own caption where `node == parent` and `display_node_only` is
    /// not `Some(false)`, `parent -> node` otherwise, then each child's walk.
    pub fn display_node(&self, node: usize, parent: usize, display_node_only: Option<bool>) -> (r: String)
        requires
            self.wf(),
            node < self.node_count(),
            parent < self.node_count(),
        ensures
            r@ == self.node_text(
                node as int,
                parent as int,
                display_node_only != Some(false),
                self.node_count(),
            ),
    {
        let show = match display_node_only {
            Some(b) => b,
            None => true,
        };
        self.walk(node, parent, show, self.num_nodes)
    }

    /// The tree as text, depth first from the root: the root's caption, then
    /// `parent -> child` for each edge, children in the order they were
    /// added, one line each. Empty for an empty graph.
    pub fn display_tree(&self) -> (r: String)
        requires
            self.wf(),
        ensures
            self.node_count() == 0 ==> r@.len() == 0,
            self.node_count() > 0 ==> r@ == self.node_text(0, 0, true, self.node_count()),
    {
        if self.num_nodes == 0 {
            let out = String::new();
            proof {
                assert(out@ =~= Seq::<char>::empty());
            }
            return out;
        }
        self.walk(0, 0, true, self.num_nodes)
    }

    pub fn has_root(&self) -> (r: bool)
        ensures
            r == (self.node_count() > 0),
    {
        self.num_nodes != 0
    }
}

} // verus!
