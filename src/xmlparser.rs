//! The parsing engine: turns the markup events of one document into its
//! graph, its parsed index, its tag list and its document type.

use vstd::prelude::*;
use vstd::string::*;
use crate::forwardstar::{ForwardStar, GraphError};
use crate::index::{
    index_append, index_contains, index_entries, index_get, index_insert, index_len, index_new,
    occurrences_view, Occurrence, ParsedIndex,
};
use crate::model::{
    commit_all, commit_graph, decimal, digit_char, dotted, expand, flush_pending, id_after, index_add,
    index_of, initial_model, last_segment, lemma_commit_all_frame, name_suffix, occurrence_of,
    parse_events, process, run, value_prefix, ConfigView, EventView, Failure, ParseModel, LIMIT,
};
use crate::tag::{
    all_canonical, attributes_canonical, attributes_view, clone_attributes, tags_view, Attribute, AttributeUsage, AttributeView, Tag,
    TagType, TagView, NODE_MARKER,
};

verus! {

/// One event of the markup tokenizer.
#[derive(Debug, Clone)]
pub enum MarkupEvent {
    Start { name: String, attributes: Vec<Attribute> },
    Text { value: String },
    End,
    Eof,
}

impl MarkupEvent {
    pub open spec fn view(&self) -> EventView {
        match self {
            MarkupEvent::Start { name, attributes } => EventView::Start(name@, attributes_view(attributes@)),
            MarkupEvent::Text { value } => EventView::Text(value@),
            MarkupEvent::End => EventView::End,
            MarkupEvent::Eof => EventView::Eof,
        }
    }
}

pub open spec fn events_view(v: Seq<MarkupEvent>) -> Seq<EventView> {
    v.map_values(|e: MarkupEvent| e@)
}

/// Why a document could not be parsed.
#[derive(Debug, Clone, PartialEq, Eq)]
pub enum ParseError {
    /// The tokenizer refused the text at the given byte offset.
    MalformedMarkup { position: usize, cause: String },
    /// A node caption would occur twice in the graph.
    DuplicateCaption { caption: String },
    /// No node of the graph carries the caption of a tag's parent.
    CaptionNotFound { caption: String },
    /// The input ended inside an element.
    UnexpectedEndOfInput,
    /// An element end came with no element open.
    UnbalancedEnd,
    /// The document needs more ids or nodes than the engine hands out.
    TooLarge,
}

impl ParseError {
    pub open spec fn view(&self) -> Failure {
        match self {
            ParseError::MalformedMarkup { .. } => Failure::MalformedMarkup,
            ParseError::DuplicateCaption { caption } => Failure::DuplicateCaption(caption@),
            ParseError::CaptionNotFound { caption } => Failure::CaptionNotFound(caption@),
            ParseError::UnexpectedEndOfInput => Failure::UnexpectedEndOfInput,
            ParseError::UnbalancedEnd => Failure::UnbalancedEnd,
            ParseError::TooLarge => Failure::TooLarge,
        }
    }
}

/// The digit `d` as text.
fn digit_text(d: usize) -> (r: &'static str)
    requires
        d < 10,
    ensures
        r@ == seq![digit_char(d as nat)],
{
    proof {
        reveal_strlit("0");
        reveal_strlit("1");
        reveal_strlit("2");
        reveal_strlit("3");
        reveal_strlit("4");
        reveal_strlit("5");
        reveal_strlit("6");
        reveal_strlit("7");
        reveal_strlit("8");
        reveal_strlit("9");
    }
    if d == 0 {
        "0"
    } else if d == 1 {
        "1"
    } else if d == 2 {
        "2"
    } else if d == 3 {
        "3"
    } else if d == 4 {
        "4"
    } else if d == 5 {
        "5"
    } else if d == 6 {
        "6"
    } else if d == 7 {
        "7"
    } else if d == 8 {
        "8"
    } else {
        "9"
    }
}

/// The decimal digits of `n`: the caption of the node of id `n`.
fn id_caption(n: usize) -> (r: String)
    ensures
        r@ == decimal(n as nat),
    decreases n,
{
    if n < 10 {
        let s = String::from_str(digit_text(n));
        s
    } else {
        let mut s = id_caption(n / 10);
        s.append(digit_text(n % 10));
        s
    }
}

/// Where `s[j..]` holds no `.` and `j` starts `s` or follows a `.`, the last
/// segment of `s` is `s[j..]`.
proof fn lemma_last_segment(s: Seq<char>, j: int)
    requires
        0 <= j <= s.len(),
        forall|k: int| j <= k < s.len() ==> s[k] != '.',
        j == 0 || s[j - 1] == '.',
    ensures
        last_segment(s) == s.subrange(j, s.len() as int),
    decreases s.len(),
{
    if s.len() == j {
        assert(s.subrange(j, s.len() as int) =~= Seq::<char>::empty());
    } else {
        lemma_last_segment(s.drop_last(), j);
        assert(s.subrange(j, s.len() as int) =~= s.drop_last().subrange(j, s.len() - 1).push(s.last()));
    }
}

/// The part of `s` after its last `.`, or all of `s`.
fn last_segment_of(s: &str) -> (r: String)
    ensures
        r@ == last_segment(s@),
{
    let len = s.unicode_len();
    let mut i: usize = len;
    while i > 0
        invariant
            i <= len,
            len == s@.len(),
            forall|k: int| i <= k < len ==> s@[k] != '.',
        ensures
            i <= len,
            forall|k: int| i <= k < len ==> s@[k] != '.',
            i == 0 || s@[i - 1] == '.',
        decreases i,
    {
        if s.get_char(i - 1) == '.' {
            break;
        }
        i -= 1;
    }
    proof {
        lemma_last_segment(s@, i as int);
    }
    String::from_str(s.substring_char(i, len))
}

/// `a.b`
fn dotted_name(a: &String, b: &String) -> (r: String)
    ensures
        r@ == dotted(a@, b@),
{
    let mut r = a.clone();
    r.append(".");
    r.append(b.as_str());
    proof {
        reveal_strlit(".");
    }
    r
}

fn name_suffix_of(attrs: &Vec<Attribute>) -> (r: String)
    ensures
        r@ == name_suffix(attributes_view(attrs@)),
{
    let ghost av = attributes_view(attrs@);
    let mut r = String::new();
    let mut i: usize = 0;
    while i < attrs.len()
        invariant
            i <= attrs.len(),
            av == attributes_view(attrs@),
            r@ == name_suffix(av.take(i as int)),
        decreases attrs.len() - i,
    {
        r.append("-");
        r.append(attrs[i].value.as_str());
        proof {
            reveal_strlit("-");
            assert(av.take(i + 1).drop_last() =~= av.take(i as int));
            assert(av[i as int] == attrs@[i as int].view());
        }
        i += 1;
    }
    proof {
        assert(av.take(attrs.len() as int) =~= av);
    }
    r
}

fn value_prefix_of(attrs: &Vec<Attribute>) -> (r: String)
    ensures
        r@ == value_prefix(attributes_view(attrs@)),
{
    let ghost av = attributes_view(attrs@);
    let mut r = String::new();
    let mut i: usize = 0;
    while i < attrs.len()
        invariant
            i <= attrs.len(),
            av == attributes_view(attrs@),
            r@ == value_prefix(av.take(i as int)),
        decreases attrs.len() - i,
    {
        r.append(attrs[i].value.as_str());
        r.append("-");
        proof {
            reveal_strlit("-");
            assert(av.take(i + 1).drop_last() =~= av.take(i as int));
            assert(av[i as int] == attrs@[i as int].view());
        }
        i += 1;
    }
    proof {
        assert(av.take(attrs.len() as int) =~= av);
    }
    r
}

/// The tags that a finalized tag is committed as under `usage`, where
/// `last_id` is the last id handed out: the tag itself, with its attribute
/// values folded into its name or value, or, under `AddSeparateTag`, the tag
/// under its long name followed by one tag per attribute, each with a fresh
/// id and the tag's own id as parent.
pub fn expand_tag(t: &Tag, usage: AttributeUsage, last_id: usize) -> (r: Vec<Tag>)
    requires
        last_id + t@.attributes.len() < usize::MAX,
    ensures
        tags_view(r@) == expand(t@, usage, last_id as nat),
        usage == AttributeUsage::AddSeparateTag && t@.attributes.len() > 0 ==> {
            &&& r@.len() == 1 + t@.attributes.len()
            &&& r@[0]@.tag_id == t@.tag_id
            &&& forall|i: int| 1 <= i < r@.len() ==> (#[trigger] r@[i])@.parent_tag_id == t@.tag_id
        },
{
    let attrs = t.attribute_list();
    let ghost e = expand(t@, usage, last_id as nat);
    if attrs.len() == 0 {
        let r = vec![t.duplicate()];
        proof {
            assert(tags_view(r@) =~= e);
        }
        return r;
    }
    match usage {
        AttributeUsage::AddToTagName => {
            let mut c = t.duplicate();
            let mut n = t.name.clone();
            let suffix = name_suffix_of(&attrs);
            n.append(suffix.as_str());
            c.update_tag_name(n);
            let r = vec![c];
            proof {
                assert(tags_view(r@) =~= e);
            }
            r
        },
        AttributeUsage::AddToTagValue => {
            let mut c = t.duplicate();
            let mut v = value_prefix_of(&attrs);
            v.append(t.value.as_str());
            c.update_tag_value(v);
            let r = vec![c];
            proof {
                assert(tags_view(r@) =~= e);
            }
            r
        },
        AttributeUsage::AddSeparateTag => {
            let seg = last_segment_of(t.name.as_str());
            let long = dotted_name(&t.name, &seg);
            let first = t.derive_new_without_attributes(long, t.value.clone(), t.tag_id());
            let mut r = vec![first];
            let mut i: usize = 0;
            while i < attrs.len()
                invariant
                    i <= attrs.len(),
                    attributes_view(attrs@) == t@.attributes,
                    last_id + attrs.len() < usize::MAX,
                    e == expand(t@, usage, last_id as nat),
                    usage == AttributeUsage::AddSeparateTag,
                    attrs.len() > 0,
                    r@.len() == i + 1,
                    tags_view(r@) == e.take(i + 1),
                decreases attrs.len() - i,
            {
                let name = dotted_name(&t.name, &attrs[i].key);
                let a = Tag::from_parts(
                    name,
                    attrs[i].value.clone(),
                    last_id + i + 1,
                    t.tag_id(),
                    t.level(),
                    t.tag_type(),
                    Vec::new(),
                );
                proof {
                    assert(attributes_view(Seq::<Attribute>::empty()) =~= Seq::<AttributeView>::empty());
                    assert(t@.attributes[i as int] == attrs@[i as int].view());
                    assert(e[i + 1] == a@);
                    assert(tags_view(r@.push(a)) =~= e.take(i + 2));
                }
                r.push(a);
                i += 1;
            }
            proof {
                assert(e.take(attrs.len() + 1) =~= e);
                assert forall|i: int| 1 <= i < r@.len() implies (#[trigger] r@[i])@.parent_tag_id == t@.tag_id by {
                    assert(tags_view(r@)[i] == r@[i]@);
                }
                assert(tags_view(r@)[0] == r@[0]@);
            }
            r
        },
        AttributeUsage::Ignore => {
            let r = vec![t.duplicate()];
            proof {
                assert(tags_view(r@) =~= e);
            }
            r
        },
    }
}

/// A parsed document: its graph, its parsed index, its finalized tags and
/// its document type.
#[derive(Debug)]
pub struct XmlDoc {
    pub doc_id: usize,
    pub doc_type: String,
    pub tags_n_values: Option<Vec<Tag>>,
    pub fstar: ForwardStar,
    pub xml_parsed: ParsedIndex,
    pub attribute_usage: AttributeUsage,
    pub curr_tag_id: usize,
    pub top_node_tree_level: usize,
    pub type_distance_to_top: usize,
}

/// The settings that a parse is called with.
pub open spec fn config_of(
    attribute_usage: AttributeUsage,
    top_node_tree_level: Option<usize>,
    type_distance_to_top: Option<usize>,
) -> ConfigView {
    ConfigView {
        usage: attribute_usage,
        top: match top_node_tree_level {
            Some(k) => k,
            None => 0,
        },
        dist: match type_distance_to_top {
            Some(k) => k,
            None => 1,
        },
    }
}

/// The document type as stored: empty where none was found.
pub open spec fn doc_type_text(d: Option<Seq<char>>) -> Seq<char> {
    match d {
        Some(s) => s,
        None => Seq::empty(),
    }
}

/// Once committing a prefix fails, committing the whole fails the same way.
proof fn lemma_commit_all_fails(m: ParseModel, ts: Seq<TagView>, j: int, e: Failure)
    requires
        0 <= j <= ts.len(),
        commit_all(m, ts.take(j)) == Err::<ParseModel, Failure>(e),
    ensures
        commit_all(m, ts) == Err::<ParseModel, Failure>(e),
    decreases ts.len() - j,
{
    if j == ts.len() {
        assert(ts.take(j) =~= ts);
    } else {
        assert(ts.take(j + 1).drop_last() =~= ts.take(j));
        lemma_commit_all_fails(m, ts, j + 1, e);
    }
}

impl XmlDoc {
    /// The last id handed out.
    pub open spec fn last_id(&self) -> nat {
        self.curr_tag_id as nat
    }

    /// The settings of the parse.
    pub open spec fn config(&self) -> ConfigView {
        ConfigView {
            usage: self.attribute_usage,
            top: self.top_node_tree_level,
            dist: self.type_distance_to_top,
        }
    }

    /// The graph, the index and the id counter agree with `m`.
    pub open spec fn agrees_with(&self, m: ParseModel) -> bool {
        &&& self.fstar.wf()
        &&& self.fstar@ == m.graph
        &&& index_entries(self.xml_parsed) == index_of(m.commits)
        &&& self.last_id() == m.next_id
    }

    /// The document is the complete result `m`.
    pub open spec fn is_result(&self, m: ParseModel) -> bool {
        &&& self.agrees_with(m)
        &&& self.doc_type@ == doc_type_text(m.doc_type)
        &&& self.tags_n_values matches Some(v) && tags_view(v@) == m.tags && all_canonical(v@)
    }

    /// The number of keys of the parsed index.
    pub fn key_count(&self) -> (r: usize)
        ensures
            r == index_entries(self.xml_parsed).len(),
    {
        index_len(&self.xml_parsed)
    }

    /// Entry `i` of the parsed index, in key order: the qualified path and
    /// its occurrences `(tag_id, depth, value, kind)`.
    pub fn entry(&self, i: usize) -> (r: Option<(&String, &Vec<Occurrence>)>)
        ensures
            match r {
                Some((k, v)) => i < index_entries(self.xml_parsed).len() && k@ == index_entries(
                    self.xml_parsed,
                )[i as int].0 && occurrences_view(v@) == index_entries(self.xml_parsed)[i as int].1,
                None => i >= index_entries(self.xml_parsed).len(),
            },
    {
        index_get(&self.xml_parsed, i)
    }

    /// Commits one tag: the root where the graph is empty, else a child of
    /// the node captioned with the parent's id; then records its occurrence.
    fn commit(&mut self, t: &Tag, Ghost(m): Ghost<ParseModel>) -> (r: Result<(), ParseError>)
        requires
            old(self).agrees_with(m),
        ensures
            final(self).config() == old(self).config(),
            final(self).doc_id == old(self).doc_id,
            final(self).doc_type == old(self).doc_type,
            final(self).tags_n_values == old(self).tags_n_values,
            final(self).curr_tag_id == old(self).curr_tag_id,
            match commit_graph(m.graph, t@) {
                Ok(g) => r is Ok && final(self).agrees_with(
                    ParseModel { graph: g, commits: m.commits.push(t@), ..m },
                ),
                Err(e) => r matches Err(x) && x@ == e,
            },
    {
        proof {
            self.fstar.lemma_wf();
        }
        if !self.fstar.has_root() {
            let c = id_caption(t.tag_id);
            self.fstar.add_root(c.as_str());
        } else {
            if self.fstar.num_nodes() >= LIMIT {
                return Err(ParseError::TooLarge);
            }
            let pc = id_caption(t.parent_tag_id);
            let cc = id_caption(t.tag_id);
            match self.fstar.add_child(pc.as_str(), cc.as_str()) {
                Ok(()) => {},
                Err(GraphError::CaptionNotFound { caption }) => {
                    return Err(ParseError::CaptionNotFound { caption });
                },
                Err(GraphError::DuplicateCaption { caption }) => {
                    return Err(ParseError::DuplicateCaption { caption });
                },
            }
        }
        let occ = (t.tag_id, t.level, t.value.clone(), t.tag_type.code());
        proof {
            assert(m.commits.push(t@).drop_last() =~= m.commits);
        }
        if index_contains(&self.xml_parsed, &t.name) {
            index_append(&mut self.xml_parsed, &t.name, occ);
            proof {
                assert(index_entries(self.xml_parsed) =~= index_add(index_of(m.commits), t@));
            }
        } else {
            let v = vec![occ];
            proof {
                assert(occurrences_view(v@) =~= seq![occurrence_of(t@)]);
            }
            index_insert(&mut self.xml_parsed, t.name.clone(), v);
        }
        Ok(())
    }

    /// Folds the attributes of a finalized tag and commits what results.
    fn process_tag(&mut self, t: &Tag, Ghost(m): Ghost<ParseModel>) -> (r: Result<(), ParseError>)
        requires
            old(self).agrees_with(m),
        ensures
            final(self).config() == old(self).config(),
            final(self).doc_id == old(self).doc_id,
            final(self).doc_type == old(self).doc_type,
            final(self).tags_n_values == old(self).tags_n_values,
            final(self).curr_tag_id == (if old(self).curr_tag_id >= LIMIT || t@.attributes.len() >= LIMIT {
                old(self).curr_tag_id as nat
            } else {
                id_after(t@, old(self).config().usage, old(self).curr_tag_id as nat)
            }),
            match process(m, old(self).config().usage, t@) {
                Ok(m2) => r is Ok && final(self).agrees_with(m2),
                Err(e) => r matches Err(x) && x@ == e,
            },
    {
        let usage = self.attribute_usage;
        if self.curr_tag_id >= LIMIT || t.attribute_count() >= LIMIT {
            return Err(ParseError::TooLarge);
        }
        let last = self.curr_tag_id;
        let ts = expand_tag(t, usage, last);
        if usage == AttributeUsage::AddSeparateTag {
            self.curr_tag_id = last + t.attribute_count();
        }
        let ghost m0 = ParseModel { next_id: id_after(t@, usage, last as nat), ..m };
        let ghost tsv = tags_view(ts@);
        let ghost mut cur = m0;
        proof {
            assert(tsv.take(0) =~= Seq::<TagView>::empty());
        }
        let mut k: usize = 0;
        while k < ts.len()
            invariant
                k <= ts.len(),
                tsv == tags_view(ts@),
                m.next_id == last as nat,
                tsv == expand(t@, usage, last as nat),
                m0 == (ParseModel { next_id: id_after(t@, usage, last as nat), ..m }),
                usage == old(self).config().usage,
                !(m.next_id >= LIMIT || t@.attributes.len() >= LIMIT),
                commit_all(m0, tsv.take(k as int)) == Ok::<ParseModel, Failure>(cur),
                self.agrees_with(cur),
                self.config() == old(self).config(),
                self.doc_id == old(self).doc_id,
                self.doc_type == old(self).doc_type,
                self.tags_n_values == old(self).tags_n_values,
                self.curr_tag_id == id_after(t@, usage, last as nat),
                last == old(self).curr_tag_id,
            decreases ts.len() - k,
        {
            proof {
                assert(tsv.take(k + 1).drop_last() =~= tsv.take(k as int));
                assert(tsv[k as int] == ts@[k as int]@);
            }
            match self.commit(&ts[k], Ghost(cur)) {
                Ok(()) => {},
                Err(e) => {
                    proof {
                        assert(commit_all(m0, tsv.take(k + 1)) == Err::<ParseModel, Failure>(e@));
                        lemma_commit_all_fails(m0, tsv, k + 1, e@);
                    }
                    return Err(e);
                },
            }
            proof {
                cur = ParseModel { graph: commit_graph(cur.graph, ts@[k as int]@)->Ok_0, commits: cur.commits.push(ts@[k as int]@), ..cur };
            }
            k += 1;
        }
        proof {
            assert(tsv.take(ts.len() as int) =~= tsv);
        }
        Ok(())
    }
}

pub open spec fn stack_view(s: Seq<(String, usize)>) -> Seq<(Seq<char>, usize)> {
    s.map_values(|p: (String, usize)| (p.0@, p.1))
}

pub open spec fn pending_view(p: Option<Tag>) -> Option<TagView> {
    match p {
        Some(t) => Some(t@),
        None => None,
    }
}

pub open spec fn text_view(o: Option<String>) -> Option<Seq<char>> {
    match o {
        Some(s) => Some(s@),
        None => None,
    }
}

/// The state of one parse in progress.
struct Parser {
    doc: XmlDoc,
    stack: Vec<(String, usize)>,
    depth: usize,
    pending: Option<Tag>,
    tags: Vec<Tag>,
    doc_type: Option<String>,
    done: bool,
}

impl Parser {
    /// The parser holds the state `m`.
    spec fn matches(&self, m: ParseModel) -> bool {
        let cfg = self.doc.config();
        &&& self.doc.agrees_with(m)
        &&& tags_view(self.tags@) == m.tags
        &&& stack_view(self.stack@) == m.stack
        &&& self.depth == m.depth
        &&& pending_view(self.pending) == m.pending
        &&& text_view(self.doc_type) == m.doc_type
        &&& self.done == m.done
        &&& all_canonical(self.tags@)
        &&& (self.pending matches Some(t) ==> attributes_canonical(t))
        &&& self.stack.len() == (if self.depth >= cfg.top { self.depth - cfg.top } else { 0 })
    }

    /// Finalizes the pending element, if any, as a structural node.
    fn flush(&mut self, Ghost(m): Ghost<ParseModel>) -> (r: Result<(), ParseError>)
        requires
            old(self).matches(m),
        ensures
            final(self).doc.config() == old(self).doc.config(),
            final(self).doc.doc_id == old(self).doc.doc_id,
            final(self).depth == old(self).depth,
            match flush_pending(m, old(self).doc.config().usage) {
                Ok(m1) => r is Ok && final(self).matches(m1),
                Err(e) => r matches Err(x) && x@ == e,
            },
    {
        match self.pending.take() {
            None => Ok(()),
            Some(t) => {
                let ghost m1 = ParseModel { tags: m.tags.push(t@), pending: None, ..m };
                self.tags.push(t.duplicate());
                proof {
                    assert(tags_view(self.tags@) =~= m1.tags);
                    lemma_commit_all_frame(
                        ParseModel { next_id: id_after(t@, self.doc.config().usage, m1.next_id), ..m1 },
                        expand(t@, self.doc.config().usage, m1.next_id),
                    );
                }
                self.doc.process_tag(&t, Ghost(m1))
            },
        }
    }

    fn start_element(&mut self, name: &String, attrs: &Vec<Attribute>, Ghost(m): Ghost<ParseModel>) -> (r: Result<(), ParseError>)
        requires
            old(self).matches(m),
            old(self).depth < usize::MAX,
        ensures
            final(self).doc.config() == old(self).doc.config(),
            final(self).doc.doc_id == old(self).doc.doc_id,
            final(self).depth <= old(self).depth + 1,
            match crate::model::start_element(m, old(self).doc.config(), name@, attributes_view(attrs@)) {
                Ok(m1) => r is Ok && final(self).matches(m1),
                Err(e) => r matches Err(x) && x@ == e,
            },
    {
        if self.depth < self.doc.top_node_tree_level {
            self.depth += 1;
            return Ok(());
        }
        match self.flush(Ghost(m)) {
            Ok(()) => {},
            Err(e) => {
                return Err(e);
            },
        }
        let ghost m1 = flush_pending(m, self.doc.config().usage)->Ok_0;
        if self.doc.curr_tag_id >= LIMIT {
            return Err(ParseError::TooLarge);
        }
        let id = self.doc.curr_tag_id + 1;
        let k = self.stack.len();
        let path = if k == 0 {
            name.clone()
        } else {
            dotted_name(&self.stack[k - 1].0, name)
        };
        let parent = if k == 0 {
            id
        } else {
            self.stack[k - 1].1
        };
        proof {
            if k > 0 {
                assert(stack_view(self.stack@)[k - 1] == (self.stack@[k - 1].0@, self.stack@[k - 1].1));
            }
        }
        if self.doc_type.is_none() && self.depth >= self.doc.top_node_tree_level
            && self.depth - self.doc.top_node_tree_level == self.doc.type_distance_to_top {
            self.doc_type = Some(name.clone());
        }
        let t = Tag::from_parts(
            path.clone(),
            NODE_MARKER.to_owned(),
            id,
            parent,
            k + 1,
            TagType::Node,
            clone_attributes(attrs),
        );
        self.doc.curr_tag_id = id;
        self.pending = Some(t);
        proof {
            assert(stack_view(self.stack@.push((path, id))) =~= stack_view(self.stack@).push((path@, id)));
        }
        self.stack.push((path, id));
        self.depth += 1;
        Ok(())
    }

    fn element_text(&mut self, value: &String, Ghost(m): Ghost<ParseModel>) -> (r: Result<(), ParseError>)
        requires
            old(self).matches(m),
        ensures
            final(self).doc.config() == old(self).doc.config(),
            final(self).doc.doc_id == old(self).doc.doc_id,
            final(self).depth == old(self).depth,
            match crate::model::element_text(m, old(self).doc.config(), value@) {
                Ok(m1) => r is Ok && final(self).matches(m1),
                Err(e) => r matches Err(x) && x@ == e,
            },
    {
        let k = self.stack.len();
        if k == 0 {
            return Ok(());
        }
        let id = self.stack[k - 1].1;
        let parent = if k == 1 {
            id
        } else {
            self.stack[k - 2].1
        };
        let attrs = match &self.pending {
            Some(p) => p.attribute_list(),
            None => Vec::new(),
        };
        proof {
            assert(attributes_view(Seq::<Attribute>::empty()) =~= Seq::<AttributeView>::empty());
            assert(stack_view(self.stack@)[k - 1] == (self.stack@[k - 1].0@, self.stack@[k - 1].1));
            if k > 1 {
                assert(stack_view(self.stack@)[k - 2] == (self.stack@[k - 2].0@, self.stack@[k - 2].1));
            }
        }
        let t = Tag::from_parts(
            self.stack[k - 1].0.clone(),
            value.clone(),
            id,
            parent,
            k,
            TagType::DataTag,
            attrs,
        );
        let ghost m1 = ParseModel { tags: m.tags.push(t@), pending: None, ..m };
        self.tags.push(t.duplicate());
        self.pending = None;
        proof {
            assert(tags_view(self.tags@) =~= m1.tags);
            lemma_commit_all_frame(
                ParseModel { next_id: id_after(t@, self.doc.config().usage, m1.next_id), ..m1 },
                expand(t@, self.doc.config().usage, m1.next_id),
            );
        }
        self.doc.process_tag(&t, Ghost(m1))
    }

    fn end_element(&mut self, Ghost(m): Ghost<ParseModel>) -> (r: Result<(), ParseError>)
        requires
            old(self).matches(m),
        ensures
            final(self).doc.config() == old(self).doc.config(),
            final(self).doc.doc_id == old(self).doc.doc_id,
            final(self).depth <= old(self).depth,
            match crate::model::end_element(m, old(self).doc.config()) {
                Ok(m1) => r is Ok && final(self).matches(m1),
                Err(e) => r matches Err(x) && x@ == e,
            },
    {
        if self.depth == 0 {
            return Err(ParseError::UnbalancedEnd);
        }
        if self.depth > self.doc.top_node_tree_level {
            self.stack.pop();
            self.pending = None;
            proof {
                assert(stack_view(self.stack@) =~= m.stack.drop_last());
            }
        }
        self.depth -= 1;
        Ok(())
    }

    fn step(&mut self, ev: &MarkupEvent, Ghost(m): Ghost<ParseModel>) -> (r: Result<(), ParseError>)
        requires
            old(self).matches(m),
            old(self).depth < usize::MAX,
        ensures
            final(self).doc.config() == old(self).doc.config(),
            final(self).doc.doc_id == old(self).doc.doc_id,
            final(self).depth <= old(self).depth + 1,
            match crate::model::step(m, old(self).doc.config(), ev@) {
                Ok(m1) => r is Ok && final(self).matches(m1),
                Err(e) => r matches Err(x) && x@ == e,
            },
    {
        if self.done {
            return Ok(());
        }
        match ev {
            MarkupEvent::Start { name, attributes } => self.start_element(name, attributes, Ghost(m)),
            MarkupEvent::Text { value } => self.element_text(value, Ghost(m)),
            MarkupEvent::End => self.end_element(Ghost(m)),
            MarkupEvent::Eof => {
                if self.depth == 0 {
                    self.done = true;
                    Ok(())
                } else {
                    Err(ParseError::UnexpectedEndOfInput)
                }
            },
        }
    }
}

/// Once a prefix of the events fails, the whole sequence fails the same way.
proof fn lemma_run_fails(cfg: ConfigView, evs: Seq<EventView>, j: int, e: Failure)
    requires
        0 <= j <= evs.len(),
        run(cfg, evs.take(j)) == Err::<ParseModel, Failure>(e),
    ensures
        run(cfg, evs) == Err::<ParseModel, Failure>(e),
    decreases evs.len() - j,
{
    if j == evs.len() {
        assert(evs.take(j) =~= evs);
    } else {
        assert(evs.take(j + 1).drop_last() =~= evs.take(j));
        lemma_run_fails(cfg, evs, j + 1, e);
    }
}

impl XmlDoc {
    /// Parses the events of one document. The result is the parse that
    /// `parse_events` describes: the graph, the index of the committed tags,
    /// the finalized tags and the document type, or the first failure.
    pub fn new(
        doc_id: usize,
        events: &Vec<MarkupEvent>,
        attribute_usage: AttributeUsage,
        top_node_tree_level: Option<usize>,
        type_distance_to_top: Option<usize>,
    ) -> (r: Result<XmlDoc, ParseError>)
        ensures
            match parse_events(
                config_of(attribute_usage, top_node_tree_level, type_distance_to_top),
                events_view(events@),
            ) {
                Ok(m) => r matches Ok(d) && d.is_result(m) && d.doc_id == doc_id && d.config()
                    == config_of(attribute_usage, top_node_tree_level, type_distance_to_top),
                Err(e) => r matches Err(x) && x@ == e,
            },
    {
        let ghost cfg = config_of(attribute_usage, top_node_tree_level, type_distance_to_top);
        let ghost ev = events_view(events@);
        let doc = XmlDoc {
            doc_id,
            doc_type: String::new(),
            tags_n_values: None,
            fstar: ForwardStar::new(),
            xml_parsed: index_new(),
            attribute_usage,
            curr_tag_id: 0,
            top_node_tree_level: top_node_tree_level.unwrap_or(0),
            type_distance_to_top: type_distance_to_top.unwrap_or(1),
        };
        let mut p = Parser {
            doc,
            stack: Vec::new(),
            depth: 0,
            pending: None,
            tags: Vec::new(),
            doc_type: None,
            done: false,
        };
        let ghost mut m = initial_model();
        proof {
            assert(tags_view(p.tags@) =~= Seq::<TagView>::empty());
            assert(stack_view(p.stack@) =~= Seq::<(Seq<char>, usize)>::empty());
            assert(index_of(Seq::<TagView>::empty()) =~= Seq::<(Seq<char>, Seq<crate::index::OccurrenceView>)>::empty());
            assert(ev.take(0) =~= Seq::<EventView>::empty());
        }
        let mut i: usize = 0;
        while i < events.len()
            invariant
                i <= events.len(),
                ev == events_view(events@),
                cfg == config_of(attribute_usage, top_node_tree_level, type_distance_to_top),
                run(cfg, ev.take(i as int)) == Ok::<ParseModel, Failure>(m),
                p.matches(m),
                p.depth <= i,
                p.doc.config() == cfg,
                p.doc.doc_id == doc_id,
            decreases events.len() - i,
        {
            proof {
                assert(ev.take(i + 1).drop_last() =~= ev.take(i as int));
                assert(ev[i as int] == events@[i as int]@);
            }
            match p.step(&events[i], Ghost(m)) {
                Ok(()) => {},
                Err(e) => {
                    proof {
                        assert(run(cfg, ev.take(i + 1)) == Err::<ParseModel, Failure>(e@));
                        assert(ev.push(EventView::Eof).take(i + 1) =~= ev.take(i + 1));
                        lemma_run_fails(cfg, ev.push(EventView::Eof), i + 1, e@);
                    }
                    return Err(e);
                },
            }
            proof {
                m = crate::model::step(m, cfg, ev[i as int])->Ok_0;
            }
            i += 1;
        }
        proof {
            assert(ev.take(events.len() as int) =~= ev);
            assert(ev.push(EventView::Eof).drop_last() =~= ev);
        }
        if !p.done {
            if p.depth == 0 {
                p.done = true;
            } else {
                return Err(ParseError::UnexpectedEndOfInput);
            }
        }
        let mut doc = p.doc;
        doc.doc_type = match p.doc_type {
            Some(s) => s,
            None => String::new(),
        };
        doc.tags_n_values = Some(p.tags);
        Ok(doc)
    }
}

} // verus!
