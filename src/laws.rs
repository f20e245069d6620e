//! What holds of every parse, stated over the model and proved.

use vstd::prelude::*;
use crate::forwardstar::{captions_unique, has_caption, GraphView};
use crate::index::{has_key, IndexView, OccurrenceView};
use crate::model::{
    commit_all, commit_graph, decimal, dotted, expand, index_of, occurrence_of, parse_events,
    process, run, step, ConfigView, EventView, ParseModel,
};
use crate::tag::{AttributeUsage, TagView};
use crate::xmlparser::XmlDoc;

verus! {

/// The captions of the nodes that committing `c` creates: the decimal ids.
pub open spec fn id_captions(c: Seq<TagView>) -> Seq<Seq<char>> {
    c.map_values(|t: TagView| decimal(t.tag_id as nat))
}

/// The graph is a tree with one node per committed tag, captioned with its
/// id: as many nodes as commits, one edge fewer, distinct captions.
pub open spec fn graph_matches_commits(g: GraphView, c: Seq<TagView>) -> bool {
    &&& g.captions == id_captions(c)
    &&& g.children.len() == g.captions.len()
    &&& captions_unique(g.captions)
    &&& (c.len() == 0 ==> g.links == 0)
    &&& (c.len() > 0 ==> g.links + 1 == c.len())
}

proof fn lemma_commit_graph_tree(g: GraphView, c: Seq<TagView>, t: TagView)
    requires
        graph_matches_commits(g, c),
    ensures
        commit_graph(g, t) matches Ok(g2) ==> graph_matches_commits(g2, c.push(t)),
{
    if let Ok(g2) = commit_graph(g, t) {
        assert(id_captions(c.push(t)) =~= g.captions.push(decimal(t.tag_id as nat)));
        if g.captions.len() == 0 {
            assert(c.len() == 0);
            assert(g2.captions =~= id_captions(c.push(t)));
        } else {
            let child = decimal(t.tag_id as nat);
            assert(!has_caption(g.captions, child));
            assert forall|i: int, j: int|
                0 <= i < g2.captions.len() && 0 <= j < g2.captions.len() && i != j
                    implies g2.captions[i] != g2.captions[j] by {
                if i < g.captions.len() && j < g.captions.len() {
                } else if i == g.captions.len() {
                    assert(g.captions[j] != child);
                } else {
                    assert(g.captions[i] != child);
                }
            }
        }
    }
}

proof fn lemma_commit_all_tree(m: ParseModel, ts: Seq<TagView>)
    requires
        graph_matches_commits(m.graph, m.commits),
    ensures
        commit_all(m, ts) matches Ok(m2) ==> graph_matches_commits(m2.graph, m2.commits)
            && m2.commits == m.commits + ts
            && m2 == (ParseModel { graph: m2.graph, commits: m2.commits, ..m }),
    decreases ts.len(),
{
    if ts.len() > 0 {
        lemma_commit_all_tree(m, ts.drop_last());
        if let Ok(m1) = commit_all(m, ts.drop_last()) {
            lemma_commit_graph_tree(m1.graph, m1.commits, ts.last());
            assert(m.commits + ts.drop_last() + seq![ts.last()] =~= m.commits + ts);
            assert(m1.commits.push(ts.last()) =~= m.commits + ts.drop_last() + seq![ts.last()]);
        }
    } else {
        assert(m.commits + ts =~= m.commits);
    }
}

/// Every event keeps the graph a tree over the committed ids.
proof fn lemma_step_tree(m: ParseModel, cfg: ConfigView, e: EventView)
    requires
        graph_matches_commits(m.graph, m.commits),
    ensures
        step(m, cfg, e) matches Ok(m2) ==> graph_matches_commits(m2.graph, m2.commits),
{
    if !m.done {
        match e {
            EventView::Start(name, attrs) => {
                if m.depth >= cfg.top {
                    if let Some(t) = m.pending {
                        let m1 = ParseModel { tags: m.tags.push(t), pending: None, ..m };
                        let m0 = ParseModel { next_id: crate::model::id_after(t, cfg.usage, m1.next_id), ..m1 };
                        lemma_commit_all_tree(m0, expand(t, cfg.usage, m1.next_id));
                    }
                }
            },
            EventView::Text(v) => {
                if m.stack.len() > 0 {
                    let k = m.stack.len();
                    let id = m.stack[k - 1].1;
                    let t = TagView {
                        name: m.stack[k - 1].0,
                        value: v,
                        tag_id: id,
                        parent_tag_id: if k == 1 { id } else { m.stack[k - 2].1 },
                        level: k as usize,
                        tag_type: crate::tag::TagType::DataTag,
                        attributes: match m.pending {
                            Some(p) => p.attributes,
                            None => Seq::empty(),
                        },
                    };
                    let m1 = ParseModel { tags: m.tags.push(t), pending: None, ..m };
                    let m0 = ParseModel { next_id: crate::model::id_after(t, cfg.usage, m1.next_id), ..m1 };
                    lemma_commit_all_tree(m0, expand(t, cfg.usage, m1.next_id));
                }
            },
            _ => {},
        }
    }
}

proof fn lemma_run_tree(cfg: ConfigView, evs: Seq<EventView>)
    ensures
        run(cfg, evs) matches Ok(m) ==> graph_matches_commits(m.graph, m.commits),
    decreases evs.len(),
{
    if evs.len() == 0 {
        assert(id_captions(Seq::<TagView>::empty()) =~= Seq::<Seq<char>>::empty());
    } else {
        lemma_run_tree(cfg, evs.drop_last());
        if let Ok(m) = run(cfg, evs.drop_last()) {
            lemma_step_tree(m, cfg, evs.last());
        }
    }
}

/// After a successful parse the graph has one node per committed tag, each
/// captioned with the tag's id, the ids are distinct, and there is exactly
/// one edge fewer than nodes: a tree, no node with two parents.
pub proof fn law_graph_is_tree(cfg: ConfigView, evs: Seq<EventView>)
    ensures
        parse_events(cfg, evs) matches Ok(m) ==> {
            &&& m.graph.captions.len() == m.commits.len()
            &&& m.graph.captions == id_captions(m.commits)
            &&& captions_unique(m.graph.captions)
            &&& (m.commits.len() > 0 ==> m.graph.links + 1 == m.graph.captions.len())
        },
{
    lemma_run_tree(cfg, evs.push(EventView::Eof));
}

/// The keys of an index, in order.
pub open spec fn keys(idx: IndexView) -> Seq<Seq<char>> {
    idx.map_values(|e: (Seq<char>, Seq<OccurrenceView>)| e.0)
}

/// The names of the committed tags.
pub open spec fn names(c: Seq<TagView>) -> Seq<Seq<char>> {
    c.map_values(|t: TagView| t.name)
}

/// Each distinct entry of `s`, at the place where it first occurs.
pub open spec fn first_seen(s: Seq<Seq<char>>) -> Seq<Seq<char>>
    decreases s.len(),
{
    if s.len() == 0 {
        Seq::empty()
    } else {
        let f = first_seen(s.drop_last());
        if f.contains(s.last()) {
            f
        } else {
            f.push(s.last())
        }
    }
}

/// The occurrences of the tags in `c` named `key`, in order.
pub open spec fn occurrences_named(c: Seq<TagView>, key: Seq<char>) -> Seq<OccurrenceView>
    decreases c.len(),
{
    if c.len() == 0 {
        Seq::empty()
    } else if c.last().name == key {
        occurrences_named(c.drop_last(), key).push(occurrence_of(c.last()))
    } else {
        occurrences_named(c.drop_last(), key)
    }
}

proof fn lemma_index_shape(c: Seq<TagView>)
    ensures
        keys(index_of(c)) == first_seen(names(c)),
        forall|k: int| 0 <= k < index_of(c).len() ==> #[trigger] index_of(c)[k].1
            == occurrences_named(c, index_of(c)[k].0),
        forall|i: int, j: int|
            0 <= i < index_of(c).len() && 0 <= j < index_of(c).len() && i != j
                ==> #[trigger] index_of(c)[i].0 != #[trigger] index_of(c)[j].0,
        forall|key: Seq<char>| !has_key(index_of(c), key) ==> #[trigger] occurrences_named(c, key)
            == Seq::<OccurrenceView>::empty(),
    decreases c.len(),
{
    if c.len() > 0 {
        let c0 = c.drop_last();
        let t = c.last();
        lemma_index_shape(c0);
        let idx = index_of(c0);
        assert(names(c).drop_last() =~= names(c0));
        assert(names(c).last() == t.name);
        assert(has_key(idx, t.name) == keys(idx).contains(t.name)) by {
            if has_key(idx, t.name) {
                let i = choose|i: int| 0 <= i < idx.len() && #[trigger] idx[i].0 == t.name;
                assert(keys(idx)[i] == t.name);
            }
            if keys(idx).contains(t.name) {
                let i = choose|i: int| 0 <= i < keys(idx).len() && keys(idx)[i] == t.name;
                assert(idx[i].0 == t.name);
            }
        }
        let occ = occurrence_of(t);
        if has_key(idx, t.name) {
            assert(keys(index_of(c)) =~= keys(idx));
            assert forall|k: int| 0 <= k < index_of(c).len() implies #[trigger] index_of(c)[k].1
                == occurrences_named(c, index_of(c)[k].0) by {
                assert(idx[k].1 == occurrences_named(c0, idx[k].0));
            }
        } else {
            assert(keys(index_of(c)) =~= keys(idx).push(t.name));
            assert forall|k: int| 0 <= k < index_of(c).len() implies #[trigger] index_of(c)[k].1
                == occurrences_named(c, index_of(c)[k].0) by {
                if k < idx.len() {
                    assert(idx[k].1 == occurrences_named(c0, idx[k].0));
                    assert(idx[k].0 != t.name);
                } else {
                    assert(occurrences_named(c0, t.name) == Seq::<OccurrenceView>::empty());
                    assert(occurrences_named(c0, t.name).push(occ) =~= seq![occ]);
                }
            }
        }
        assert forall|key: Seq<char>| !has_key(index_of(c), key) implies #[trigger] occurrences_named(c, key)
            == Seq::<OccurrenceView>::empty() by {
            let ic = index_of(c);
            if has_key(idx, t.name) {
                let i = choose|i: int| 0 <= i < idx.len() && #[trigger] idx[i].0 == t.name;
                assert(ic[i].0 == t.name);
            } else {
                assert(ic[idx.len() as int].0 == t.name);
            }
            assert(has_key(ic, t.name));
            assert(key != t.name);
            if has_key(idx, key) {
                let i = choose|i: int| 0 <= i < idx.len() && #[trigger] idx[i].0 == key;
                assert(ic[i].0 == key);
            }
            assert(occurrences_named(c, key) == occurrences_named(c0, key));
        }
    }
}

/// The keys of the parsed index are the qualified paths of the committed
/// tags, each once, in the order in which each was first committed.
pub proof fn law_key_order(c: Seq<TagView>)
    ensures
        keys(index_of(c)) == first_seen(names(c)),
{
    lemma_index_shape(c);
}

/// Tags of different qualified paths are never merged: each key occurs once,
/// and its entry holds exactly the occurrences of the tags with that path,
/// in commit order.
pub proof fn law_paths_kept_apart(c: Seq<TagView>)
    ensures
        forall|i: int, j: int|
            0 <= i < index_of(c).len() && 0 <= j < index_of(c).len() && i != j
                ==> #[trigger] index_of(c)[i].0 != #[trigger] index_of(c)[j].0,
        forall|k: int| 0 <= k < index_of(c).len() ==> #[trigger] index_of(c)[k].1
            == occurrences_named(c, index_of(c)[k].0),
{
    lemma_index_shape(c);
}

/// Two elements of one name under different ancestor paths get different
/// qualified paths.
pub proof fn law_distinct_ancestors(a1: Seq<char>, a2: Seq<char>, name: Seq<char>)
    requires
        a1 != a2,
    ensures
        dotted(a1, name) != dotted(a2, name),
{
    if dotted(a1, name) == dotted(a2, name) {
        let s = dotted(a1, name);
        assert(dotted(a1, name).len() == a1.len() + 1 + name.len());
        assert(dotted(a2, name).len() == a2.len() + 1 + name.len());
        assert(a1.len() == a2.len());
        assert(a1 =~= s.subrange(0, a1.len() as int));
        assert(a2 =~= s.subrange(0, a2.len() as int));
    }
}

/// Node `v` is a child of the node captioned `c`.
pub open spec fn child_of(g: GraphView, c: Seq<char>, v: int) -> bool {
    exists|p: int| 0 <= p < g.captions.len() && g.captions[p] == c && #[trigger] g.children[p].contains(v as usize)
}

proof fn lemma_commit_graph_child(g: GraphView, c: Seq<TagView>, t: TagView)
    requires
        graph_matches_commits(g, c),
    ensures
        commit_graph(g, t) matches Ok(g2) ==> {
            &&& (g.captions.len() > 0 ==> child_of(g2, decimal(t.parent_tag_id as nat), g.captions.len() as int))
            &&& forall|pc: Seq<char>, v: int| child_of(g, pc, v) ==> #[trigger] child_of(g2, pc, v)
        },
{
    if let Ok(g2) = commit_graph(g, t) {
        if g.captions.len() > 0 {
            let pc = decimal(t.parent_tag_id as nat);
            let p = crate::forwardstar::caption_index(g.captions, pc);
            let n = g.captions.len() as int;
            assert(g2.children[p] == g.children[p].push(n as usize));
            assert(g2.children[p][g.children[p].len() as int] == n as usize);
            assert(g2.captions[p] == pc);
            assert(0 <= p < g.captions.len());
            assert(g2.children[p].contains(n as usize));
            assert(child_of(g2, pc, n));
            assert forall|qc: Seq<char>, v: int| child_of(g, qc, v) implies #[trigger] child_of(g2, qc, v) by {
                let q = choose|q: int| 0 <= q < g.captions.len() && g.captions[q] == qc && #[trigger] g.children[q].contains(v as usize);
                let i = choose|i: int| 0 <= i < g.children[q].len() && g.children[q][i] == v as usize;
                assert(g2.captions[q] == qc);
                if q == p {
                    assert(g2.children[q][i] == v as usize);
                } else {
                    assert(g2.children[q] == g.children[q]);
                }
                assert(g2.children[q].contains(v as usize));
            }
        }
    }
}

proof fn lemma_commit_all_children(m: ParseModel, ts: Seq<TagView>)
    requires
        graph_matches_commits(m.graph, m.commits),
    ensures
        commit_all(m, ts) matches Ok(m2) ==> forall|j: int|
            0 <= j < ts.len() && m.graph.captions.len() + j > 0 ==> #[trigger] child_of(
                m2.graph,
                decimal(ts[j].parent_tag_id as nat),
                m.graph.captions.len() + j,
            ),
    decreases ts.len(),
{
    if ts.len() > 0 {
        let t0 = ts.drop_last();
        lemma_commit_all_children(m, t0);
        lemma_commit_all_tree(m, t0);
        if let Ok(m1) = commit_all(m, t0) {
            lemma_commit_graph_child(m1.graph, m1.commits, ts.last());
            if let Ok(g2) = commit_graph(m1.graph, ts.last()) {
                assert(m1.graph.captions.len() == m.graph.captions.len() + t0.len());
                assert forall|j: int|
                    0 <= j < ts.len() && m.graph.captions.len() + j > 0 implies #[trigger] child_of(
                    g2,
                    decimal(ts[j].parent_tag_id as nat),
                    m.graph.captions.len() + j,
                ) by {
                    if j < t0.len() {
                        assert(ts[j] == t0[j]);
                        assert(child_of(m1.graph, decimal(t0[j].parent_tag_id as nat), m.graph.captions.len() + j));
                    }
                }
            }
        }
    }
}

/// Under `AddSeparateTag` an element with attributes is committed as one tag
/// for itself, under its long name and with its own id, and one tag per
/// attribute, each with a fresh id and the element's id as parent; so the
/// graph gains one node more than the element has attributes, captioned in
/// that order, each attribute node a child of the element's own node, and
/// the element's node a child of its parent's node.
pub proof fn law_separate_tags(m: ParseModel, t: TagView)
    requires
        graph_matches_commits(m.graph, m.commits),
        t.attributes.len() > 0,
    ensures
        ({
            let e = expand(t, AttributeUsage::AddSeparateTag, m.next_id);
            &&& e.len() == 1 + t.attributes.len()
            &&& e[0].tag_id == t.tag_id
            &&& forall|i: int| 1 <= i < e.len() ==> (#[trigger] e[i]).parent_tag_id == t.tag_id
                && e[i].tag_id == (m.next_id + i) as usize
            &&& process(m, AttributeUsage::AddSeparateTag, t) matches Ok(m2) ==> {
                &&& m2.commits == m.commits + e
                &&& m2.graph.captions.len() == m.graph.captions.len() + 1 + t.attributes.len()
                &&& m2.graph.captions == m.graph.captions + id_captions(e)
                &&& m.graph.captions.len() > 0 ==> child_of(
                    m2.graph,
                    decimal(t.parent_tag_id as nat),
                    m.graph.captions.len() as int,
                )
                &&& forall|i: int|
                    1 <= i < e.len() ==> #[trigger] child_of(
                        m2.graph,
                        decimal(t.tag_id as nat),
                        m.graph.captions.len() + i,
                    )
            }
        }),
{
    let e = expand(t, AttributeUsage::AddSeparateTag, m.next_id);
    let m0 = ParseModel {
        next_id: crate::model::id_after(t, AttributeUsage::AddSeparateTag, m.next_id),
        ..m
    };
    lemma_commit_all_tree(m0, e);
    lemma_commit_all_children(m0, e);
    if let Ok(m2) = process(m, AttributeUsage::AddSeparateTag, t) {
        assert(id_captions(m.commits + e) =~= id_captions(m.commits) + id_captions(e));
        if m.graph.captions.len() > 0 {
            let j: int = 0;
            assert(child_of(m2.graph, decimal(e[j].parent_tag_id as nat), m0.graph.captions.len() + j));
            assert(m0.graph.captions.len() + j == m.graph.captions.len() as int);
        }
        assert forall|i: int| 1 <= i < e.len() implies #[trigger] child_of(
            m2.graph,
            decimal(t.tag_id as nat),
            m.graph.captions.len() + i,
        ) by {
            assert(e[i] == crate::model::attribute_tag(t, i - 1, m.next_id));
            assert(child_of(m2.graph, decimal(e[i].parent_tag_id as nat), m0.graph.captions.len() + i));
        }
    }
    assert forall|i: int| 1 <= i < e.len() implies (#[trigger] e[i]).parent_tag_id == t.tag_id
        && e[i].tag_id == (m.next_id + i) as usize by {
        assert(e[i] == crate::model::attribute_tag(t, i - 1, m.next_id));
    }
}

/// What the events say without the engine: the nesting depth, whether the
/// input has ended, the name of the first element at the document type's
/// depth, and whether any element started at or below the skip depth.
pub struct Scan {
    pub depth: nat,
    pub done: bool,
    pub doc_type: Option<Seq<char>>,
    pub deep: bool,
}

pub open spec fn scan(cfg: ConfigView, evs: Seq<EventView>) -> Scan
    decreases evs.len(),
{
    if evs.len() == 0 {
        Scan { depth: 0, done: false, doc_type: None, deep: false }
    } else {
        let s = scan(cfg, evs.drop_last());
        if s.done {
            s
        } else {
            match evs.last() {
                EventView::Start(name, _) => Scan {
                    depth: s.depth + 1,
                    doc_type: if s.doc_type is None && s.depth == cfg.top + cfg.dist {
                        Some(name)
                    } else {
                        s.doc_type
                    },
                    deep: s.deep || s.depth >= cfg.top,
                    ..s
                },
                EventView::End => Scan { depth: if s.depth > 0 { (s.depth - 1) as nat } else { 0 }, ..s },
                EventView::Text(_) => s,
                EventView::Eof => Scan { done: true, ..s },
            }
        }
    }
}

proof fn lemma_run_scan(cfg: ConfigView, evs: Seq<EventView>)
    ensures
        run(cfg, evs) matches Ok(m) ==> {
            let s = scan(cfg, evs);
            &&& m.depth == s.depth
            &&& m.done == s.done
            &&& m.doc_type == s.doc_type
            &&& (!s.deep ==> m.depth <= cfg.top && m.stack.len() == 0 && m.pending is None
                && m.commits.len() == 0)
        },
    decreases evs.len(),
{
    if evs.len() > 0 {
        lemma_run_scan(cfg, evs.drop_last());
        if let Ok(m) = run(cfg, evs.drop_last()) {
            if !m.done {
                match evs.last() {
                    EventView::Start(name, attrs) => {
                        if m.depth >= cfg.top {
                            if let Some(t) = m.pending {
                                let m1 = ParseModel { tags: m.tags.push(t), pending: None, ..m };
                                crate::model::lemma_commit_all_frame(
                                    ParseModel { next_id: crate::model::id_after(t, cfg.usage, m1.next_id), ..m1 },
                                    expand(t, cfg.usage, m1.next_id),
                                );
                            }
                        }
                    },
                    EventView::Text(v) => {
                        if m.stack.len() > 0 {
                            let k = m.stack.len();
                            let id = m.stack[k - 1].1;
                            let t = TagView {
                                name: m.stack[k - 1].0,
                                value: v,
                                tag_id: id,
                                parent_tag_id: if k == 1 { id } else { m.stack[k - 2].1 },
                                level: k as usize,
                                tag_type: crate::tag::TagType::DataTag,
                                attributes: match m.pending {
                                    Some(p) => p.attributes,
                                    None => Seq::empty(),
                                },
                            };
                            let m1 = ParseModel { tags: m.tags.push(t), pending: None, ..m };
                            crate::model::lemma_commit_all_frame(
                                ParseModel { next_id: crate::model::id_after(t, cfg.usage, m1.next_id), ..m1 },
                                expand(t, cfg.usage, m1.next_id),
                            );
                        }
                    },
                    _ => {},
                }
            }
        }
    }
}

/// Skipping: while no element has started at depth `top` or deeper (the
/// root at depth 0), nothing is committed and the graph is empty. The
/// document type is the name of the first element at depth exactly
/// `top + dist`, and none where there is no such element.
pub proof fn law_skip_depth(cfg: ConfigView, evs: Seq<EventView>)
    ensures
        parse_events(cfg, evs) matches Ok(m) ==> {
            let s = scan(cfg, evs.push(EventView::Eof));
            &&& m.doc_type == s.doc_type
            &&& (!s.deep ==> m.commits.len() == 0 && m.graph.captions.len() == 0)
        },
{
    lemma_run_scan(cfg, evs.push(EventView::Eof));
    lemma_run_tree(cfg, evs.push(EventView::Eof));
}

/// The same over the arrays of a parsed document's graph: one node per
/// committed tag, one edge fewer than nodes, no edge into the root, and
/// exactly one edge into every other node.
pub proof fn law_parsed_graph_arrays(d: &XmlDoc, cfg: ConfigView, evs: Seq<EventView>)
    requires
        parse_events(cfg, evs) matches Ok(m) && d.is_result(m),
    ensures
        ({
            let g = d.fstar;
            let m = parse_events(cfg, evs)->Ok_0;
            &&& g.node_count() == m.commits.len()
            &&& g.node_count() > 0 ==> g.link_count() + 1 == g.node_count()
            &&& forall|k: int| 0 <= k < g.link_count() ==> #[trigger] g.targets()[k] != 0
            &&& forall|v: int| 1 <= v < g.node_count() ==> #[trigger] g.has_incoming(v)
            &&& forall|k: int, l: int|
                0 <= k < g.link_count() && 0 <= l < g.link_count() && g.targets()[k]
                    == g.targets()[l] ==> k == l
        }),
{
    law_graph_is_tree(cfg, evs);
    d.fstar.lemma_wf();
    d.fstar.lemma_one_parent();
}

/// Each open element's qualified path is its parent's path, a dot, and its
/// own name.
pub open spec fn paths_chain(stack: Seq<(Seq<char>, usize)>) -> bool {
    forall|j: int| 1 <= j < stack.len() ==> extends_path(#[trigger] stack[j].0, stack[j - 1].0)
}

/// `child` is `parent`, a dot, and a name.
pub open spec fn extends_path(child: Seq<char>, parent: Seq<char>) -> bool {
    exists|name: Seq<char>| child == #[trigger] dotted(parent, name)
}

/// The open elements that are not skipped are exactly those at depth `top`
/// or deeper.
pub open spec fn stack_fits_depth(m: ParseModel, cfg: ConfigView) -> bool {
    m.stack.len() == (if m.depth >= cfg.top { m.depth - cfg.top } else { 0 })
}

proof fn lemma_run_stack(cfg: ConfigView, evs: Seq<EventView>)
    ensures
        run(cfg, evs) matches Ok(m) ==> stack_fits_depth(m, cfg) && paths_chain(m.stack),
    decreases evs.len(),
{
    if evs.len() > 0 {
        lemma_run_stack(cfg, evs.drop_last());
        if let Ok(m) = run(cfg, evs.drop_last()) {
            if !m.done {
                match evs.last() {
                    EventView::Start(name, attrs) => {
                        if m.depth >= cfg.top {
                            if let Some(t) = m.pending {
                                let m1 = ParseModel { tags: m.tags.push(t), pending: None, ..m };
                                crate::model::lemma_commit_all_frame(
                                    ParseModel { next_id: crate::model::id_after(t, cfg.usage, m1.next_id), ..m1 },
                                    expand(t, cfg.usage, m1.next_id),
                                );
                            }
                            if let Ok(m2) = step(m, cfg, evs.last()) {
                                let st = m2.stack;
                                assert forall|j: int| 1 <= j < st.len() implies extends_path(#[trigger] st[j].0, st[j - 1].0) by {
                                    if j < st.len() - 1 {
                                        assert(st[j] == m.stack[j] && st[j - 1] == m.stack[j - 1]);
                                        assert(extends_path(m.stack[j].0, m.stack[j - 1].0));
                                    } else {
                                        assert(st[j].0 == dotted(st[j - 1].0, name));
                                    }
                                }
                            }
                        }
                    },
                    EventView::Text(v) => {
                        if m.stack.len() > 0 {
                            let k = m.stack.len();
                            let id = m.stack[k - 1].1;
                            let t = TagView {
                                name: m.stack[k - 1].0,
                                value: v,
                                tag_id: id,
                                parent_tag_id: if k == 1 { id } else { m.stack[k - 2].1 },
                                level: k as usize,
                                tag_type: crate::tag::TagType::DataTag,
                                attributes: match m.pending {
                                    Some(p) => p.attributes,
                                    None => Seq::empty(),
                                },
                            };
                            let m1 = ParseModel { tags: m.tags.push(t), pending: None, ..m };
                            crate::model::lemma_commit_all_frame(
                                ParseModel { next_id: crate::model::id_after(t, cfg.usage, m1.next_id), ..m1 },
                                expand(t, cfg.usage, m1.next_id),
                            );
                        }
                    },
                    EventView::End => {
                        if let Ok(m2) = step(m, cfg, evs.last()) {
                            let st = m2.stack;
                            assert forall|j: int| 1 <= j < st.len() implies extends_path(#[trigger] st[j].0, st[j - 1].0) by {
                                assert(st[j] == m.stack[j] && st[j - 1] == m.stack[j - 1]);
                                assert(extends_path(m.stack[j].0, m.stack[j - 1].0));
                            }
                        }
                    },
                    _ => {},
                }
            }
        }
    }
}

/// Every state that a parse reaches keeps the open non-skipped elements in
/// step with the depth, and each open element's qualified path is its
/// parent's path dotted with its own name.
pub proof fn law_reachable_stack(cfg: ConfigView, evs: Seq<EventView>)
    ensures
        run(cfg, evs) matches Ok(m) ==> stack_fits_depth(m, cfg) && paths_chain(m.stack),
{
    lemma_run_stack(cfg, evs);
}

/// Elements shallower than `top` are skipped one by one: an element start
/// at depth below `top`, text directly inside such an element, and its end
/// consume no id and add no graph node and no index occurrence.
pub proof fn law_skipped_element(m: ParseModel, cfg: ConfigView, e: EventView)
    requires
        stack_fits_depth(m, cfg),
        !m.done,
        match e {
            EventView::Start(_, _) => m.depth < cfg.top,
            EventView::Text(_) => m.depth <= cfg.top,
            EventView::End => 0 < m.depth <= cfg.top,
            EventView::Eof => false,
        },
    ensures
        step(m, cfg, e) matches Ok(m2) && m2.commits == m.commits && m2.graph == m.graph
            && m2.next_id == m.next_id && index_of(m2.commits) == index_of(m.commits),
{
}

/// Over a parse: each open element's path is its parent's path dotted with
/// its name, so two elements of one name under different ancestor paths get
/// different paths; and the finished index keeps every path under its own
/// key, with exactly the occurrences of that path.
pub proof fn law_paths_in_parse(cfg: ConfigView, evs: Seq<EventView>, i: int)
    requires
        0 <= i <= evs.len(),
    ensures
        run(cfg, evs.take(i)) matches Ok(mi) ==> paths_chain(mi.stack),
        parse_events(cfg, evs) matches Ok(m) ==> {
            let idx = index_of(m.commits);
            &&& forall|a: int, b: int|
                0 <= a < idx.len() && 0 <= b < idx.len() && a != b ==> #[trigger] idx[a].0
                    != #[trigger] idx[b].0
            &&& forall|k: int| 0 <= k < idx.len() ==> #[trigger] idx[k].1 == occurrences_named(
                m.commits,
                idx[k].0,
            )
        },
{
    lemma_run_stack(cfg, evs.take(i));
    if let Ok(m) = parse_events(cfg, evs) {
        law_paths_kept_apart(m.commits);
    }
}

} // verus!
