//! The meaning of a parse, as plain values: how a sequence of markup events
//! becomes a graph, a list of committed tags (whose fold is the parsed
//! index), a tag list and a document type.

use vstd::prelude::*;
use crate::forwardstar::{graph_insert, graph_with_root, GraphFailure, GraphView};
use crate::index::{has_key, IndexView, OccurrenceView};
use crate::tag::{AttributeUsage, AttributeView, TagType, TagView, NODE_MARKER};

verus! {

/// Ids, attribute counts and node counts stay below this bound; a document
/// that would pass it is refused.
pub const LIMIT: usize = 0x3fff_ffff;

/// A markup event as plain values.
pub enum EventView {
    Start(Seq<char>, Seq<AttributeView>),
    Text(Seq<char>),
    End,
    Eof,
}

/// Why a parse failed, as plain values.
pub enum Failure {
    MalformedMarkup,
    DuplicateCaption(Seq<char>),
    CaptionNotFound(Seq<char>),
    UnexpectedEndOfInput,
    UnbalancedEnd,
    TooLarge,
}

/// The parse settings.
pub struct ConfigView {
    pub usage: AttributeUsage,
    pub top: usize,
    pub dist: usize,
}

/// The state of a parse after a prefix of the events.
pub struct ParseModel {
    /// The graph built so far.
    pub graph: GraphView,
    /// Every tag committed to the graph and the index, in order.
    pub commits: Seq<TagView>,
    /// The finalized element and text tags, in order.
    pub tags: Seq<TagView>,
    pub doc_type: Option<Seq<char>>,
    /// The last id handed out.
    pub next_id: nat,
    /// Qualified path and id of each open element that is not skipped.
    pub stack: Seq<(Seq<char>, usize)>,
    /// The number of open elements, skipped ones included.
    pub depth: nat,
    /// The started element whose value is not yet known.
    pub pending: Option<TagView>,
    pub done: bool,
}

pub open spec fn digit_char(d: nat) -> char {
    if d == 0 { '0' }
    else if d == 1 { '1' }
    else if d == 2 { '2' }
    else if d == 3 { '3' }
    else if d == 4 { '4' }
    else if d == 5 { '5' }
    else if d == 6 { '6' }
    else if d == 7 { '7' }
    else if d == 8 { '8' }
    else { '9' }
}

/// The decimal digits of `n`.
pub open spec fn decimal(n: nat) -> Seq<char>
    decreases n,
{
    if n < 10 {
        seq![digit_char(n)]
    } else {
        decimal(n / 10).push(digit_char(n % 10))
    }
}

/// The part of `s` after its last `.`; all of `s` where it holds none.
pub open spec fn last_segment(s: Seq<char>) -> Seq<char>
    decreases s.len(),
{
    if s.len() == 0 {
        s
    } else if s.last() == '.' {
        Seq::empty()
    } else {
        last_segment(s.drop_last()).push(s.last())
    }
}

/// `a.b`
pub open spec fn dotted(a: Seq<char>, b: Seq<char>) -> Seq<char> {
    a + seq!['.'] + b
}

/// `-v1-v2...`: each attribute value after a hyphen.
pub open spec fn name_suffix(attrs: Seq<AttributeView>) -> Seq<char>
    decreases attrs.len(),
{
    if attrs.len() == 0 {
        Seq::empty()
    } else {
        name_suffix(attrs.drop_last()) + seq!['-'] + attrs.last().1
    }
}

/// `v1-v2-...`: each attribute value before a hyphen.
pub open spec fn value_prefix(attrs: Seq<AttributeView>) -> Seq<char>
    decreases attrs.len(),
{
    if attrs.len() == 0 {
        Seq::empty()
    } else {
        value_prefix(attrs.drop_last()) + attrs.last().1 + seq!['-']
    }
}

/// The tag that stands for attribute `i` of `t` under `AddSeparateTag`.
pub open spec fn attribute_tag(t: TagView, i: int, last_id: nat) -> TagView {
    TagView {
        name: dotted(t.name, t.attributes[i].0),
        value: t.attributes[i].1,
        tag_id: (last_id + i + 1) as usize,
        parent_tag_id: t.tag_id,
        level: t.level,
        tag_type: t.tag_type,
        attributes: Seq::empty(),
    }
}

/// The element itself under `AddSeparateTag`: its name with the last path
/// segment repeated.
pub open spec fn long_named(t: TagView) -> TagView {
    TagView { name: dotted(t.name, last_segment(t.name)), attributes: Seq::empty(), ..t }
}

/// The tags that one finalized tag is committed as, where `last_id` is the
/// last id handed out before.
pub open spec fn expand(t: TagView, usage: AttributeUsage, last_id: nat) -> Seq<TagView> {
    if t.attributes.len() == 0 {
        seq![t]
    } else {
        match usage {
            AttributeUsage::AddToTagName => seq![TagView { name: t.name + name_suffix(t.attributes), ..t }],
            AttributeUsage::AddToTagValue => seq![TagView { value: value_prefix(t.attributes) + t.value, ..t }],
            AttributeUsage::AddSeparateTag => seq![long_named(t)] + Seq::new(
                t.attributes.len(),
                |i: int| attribute_tag(t, i, last_id),
            ),
            AttributeUsage::Ignore => seq![t],
        }
    }
}

/// The last id handed out once `t` is expanded.
pub open spec fn id_after(t: TagView, usage: AttributeUsage, last_id: nat) -> nat {
    if usage == AttributeUsage::AddSeparateTag {
        last_id + t.attributes.len()
    } else {
        last_id
    }
}

/// The graph once `t` is committed: the root where the graph is empty, else
/// a child of the node captioned with the parent's id.
pub open spec fn commit_graph(g: GraphView, t: TagView) -> Result<GraphView, Failure> {
    if g.captions.len() == 0 {
        Ok(graph_with_root(decimal(t.tag_id as nat)))
    } else if g.captions.len() >= LIMIT {
        Err(Failure::TooLarge)
    } else {
        match graph_insert(g, decimal(t.parent_tag_id as nat), decimal(t.tag_id as nat)) {
            Ok(g2) => Ok(g2),
            Err(GraphFailure::CaptionNotFound(c)) => Err(Failure::CaptionNotFound(c)),
            Err(GraphFailure::DuplicateCaption(c)) => Err(Failure::DuplicateCaption(c)),
        }
    }
}

/// Commits `ts` in order; the first failure ends it.
pub open spec fn commit_all(m: ParseModel, ts: Seq<TagView>) -> Result<ParseModel, Failure>
    decreases ts.len(),
{
    if ts.len() == 0 {
        Ok(m)
    } else {
        match commit_all(m, ts.drop_last()) {
            Ok(m1) => match commit_graph(m1.graph, ts.last()) {
                Ok(g) => Ok(ParseModel { graph: g, commits: m1.commits.push(ts.last()), ..m1 }),
                Err(e) => Err(e),
            },
            Err(e) => Err(e),
        }
    }
}

/// Folds the attributes of a finalized tag and commits what results.
pub open spec fn process(m: ParseModel, usage: AttributeUsage, t: TagView) -> Result<ParseModel, Failure> {
    if m.next_id >= LIMIT || t.attributes.len() >= LIMIT {
        Err(Failure::TooLarge)
    } else {
        commit_all(
            ParseModel { next_id: id_after(t, usage, m.next_id), ..m },
            expand(t, usage, m.next_id),
        )
    }
}

/// Finalizes the pending element, if any, as a structural node.
pub open spec fn flush_pending(m: ParseModel, usage: AttributeUsage) -> Result<ParseModel, Failure> {
    match m.pending {
        Some(t) => process(ParseModel { tags: m.tags.push(t), pending: None, ..m }, usage, t),
        None => Ok(m),
    }
}

/// The state after an element start.
pub open spec fn start_element(m: ParseModel, cfg: ConfigView, name: Seq<char>, attrs: Seq<AttributeView>) -> Result<ParseModel, Failure> {
    if m.depth < cfg.top {
        Ok(ParseModel { depth: m.depth + 1, ..m })
    } else {
        match flush_pending(m, cfg.usage) {
            Ok(m1) => if m1.next_id >= LIMIT {
                Err(Failure::TooLarge)
            } else {
                let id = (m1.next_id + 1) as usize;
                let path = if m1.stack.len() == 0 { name } else { dotted(m1.stack.last().0, name) };
                let parent = if m1.stack.len() == 0 { id } else { m1.stack.last().1 };
                let doc_type = if m1.doc_type is None && m1.depth == cfg.top + cfg.dist {
                    Some(name)
                } else {
                    m1.doc_type
                };
                let t = TagView {
                    name: path,
                    value: NODE_MARKER@,
                    tag_id: id,
                    parent_tag_id: parent,
                    level: (m1.stack.len() + 1) as usize,
                    tag_type: TagType::Node,
                    attributes: attrs,
                };
                Ok(ParseModel {
                    next_id: id as nat,
                    stack: m1.stack.push((path, id)),
                    depth: m1.depth + 1,
                    pending: Some(t),
                    doc_type,
                    ..m1
                })
            },
            Err(e) => Err(e),
        }
    }
}

/// The state after text inside the innermost open element.
pub open spec fn element_text(m: ParseModel, cfg: ConfigView, value: Seq<char>) -> Result<ParseModel, Failure> {
    if m.stack.len() == 0 {
        Ok(m)
    } else {
        let k = m.stack.len();
        let id = m.stack[k - 1].1;
        let t = TagView {
            name: m.stack[k - 1].0,
            value,
            tag_id: id,
            parent_tag_id: if k == 1 { id } else { m.stack[k - 2].1 },
            level: k as usize,
            tag_type: TagType::DataTag,
            attributes: match m.pending {
                Some(p) => p.attributes,
                None => Seq::empty(),
            },
        };
        process(ParseModel { tags: m.tags.push(t), pending: None, ..m }, cfg.usage, t)
    }
}

/// The state after an element end.
pub open spec fn end_element(m: ParseModel, cfg: ConfigView) -> Result<ParseModel, Failure> {
    if m.depth == 0 {
        Err(Failure::UnbalancedEnd)
    } else if m.depth > cfg.top {
        Ok(ParseModel { depth: (m.depth - 1) as nat, stack: m.stack.drop_last(), pending: None, ..m })
    } else {
        Ok(ParseModel { depth: (m.depth - 1) as nat, ..m })
    }
}

/// One event; nothing changes once the input has ended.
pub open spec fn step(m: ParseModel, cfg: ConfigView, e: EventView) -> Result<ParseModel, Failure> {
    if m.done {
        Ok(m)
    } else {
        match e {
            EventView::Start(name, attrs) => start_element(m, cfg, name, attrs),
            EventView::Text(v) => element_text(m, cfg, v),
            EventView::End => end_element(m, cfg),
            EventView::Eof => if m.depth == 0 {
                Ok(ParseModel { done: true, ..m })
            } else {
                Err(Failure::UnexpectedEndOfInput)
            },
        }
    }
}

pub open spec fn initial_model() -> ParseModel {
    ParseModel {
        graph: GraphView { captions: Seq::empty(), children: Seq::empty(), links: 0 },
        commits: Seq::empty(),
        tags: Seq::empty(),
        doc_type: None,
        next_id: 0,
        stack: Seq::empty(),
        depth: 0,
        pending: None,
        done: false,
    }
}

/// The state after all of `evs`.
pub open spec fn run(cfg: ConfigView, evs: Seq<EventView>) -> Result<ParseModel, Failure>
    decreases evs.len(),
{
    if evs.len() == 0 {
        Ok(initial_model())
    } else {
        match run(cfg, evs.drop_last()) {
            Ok(m) => step(m, cfg, evs.last()),
            Err(e) => Err(e),
        }
    }
}

/// The parse of a document whose events are `evs`, followed by the end of
/// input.
pub open spec fn parse_events(cfg: ConfigView, evs: Seq<EventView>) -> Result<ParseModel, Failure> {
    run(cfg, evs.push(EventView::Eof))
}

/// One occurrence of a committed tag.
pub open spec fn occurrence_of(t: TagView) -> OccurrenceView {
    (t.tag_id, t.level, t.value, t.tag_type.spec_code())
}

/// The index after recording `t`: appended to its key's list, or under a
/// new key at the end.
pub open spec fn index_add(idx: IndexView, t: TagView) -> IndexView {
    if has_key(idx, t.name) {
        Seq::new(
            idx.len(),
            |i: int| if idx[i].0 == t.name { (idx[i].0, idx[i].1.push(occurrence_of(t))) } else { idx[i] },
        )
    } else {
        idx.push((t.name, seq![occurrence_of(t)]))
    }
}

/// The parsed index of the committed tags `c`.
pub open spec fn index_of(c: Seq<TagView>) -> IndexView
    decreases c.len(),
{
    if c.len() == 0 {
        Seq::empty()
    } else {
        index_add(index_of(c.drop_last()), c.last())
    }
}

/// Commits leave every part of the state but the graph and the committed
/// tags as they were.
pub proof fn lemma_commit_all_frame(m: ParseModel, ts: Seq<TagView>)
    ensures
        commit_all(m, ts) matches Ok(m2) ==> m2 == (ParseModel { graph: m2.graph, commits: m2.commits, ..m }),
    decreases ts.len(),
{
    if ts.len() > 0 {
        lemma_commit_all_frame(m, ts.drop_last());
    }
}

} // verus!
