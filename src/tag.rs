//! The working records of a parse: a tag (an element or its text) and an
//! attribute.

use vstd::prelude::*;

verus! {

/// The marker value of a structural node.
pub const NODE_MARKER: &'static str = "__node__";

/// Whether a tag is a structural node or carries a value.
#[derive(Debug, Clone, Copy, PartialEq, Eq, Structural)]
pub enum TagType {
    Node,
    DataTag,
    Unknown,
}

impl TagType {
    pub open spec fn spec_code(self) -> usize {
        match self {
            TagType::Node => 0,
            TagType::DataTag => 1,
            TagType::Unknown => 99,
        }
    }

    /// The number under which the kind is stored.
    pub fn code(&self) -> (r: usize)
        ensures
            r == self.spec_code(),
    {
        match self {
            TagType::Node => 0,
            TagType::DataTag => 1,
            TagType::Unknown => 99,
        }
    }
}

/// How an element's attributes are folded into the output.
#[derive(Debug, Clone, Copy, PartialEq, Eq, Structural)]
pub enum AttributeUsage {
    AddToTagName,
    AddToTagValue,
    AddSeparateTag,
    Ignore,
}

/// A key/value pair of an element's start tag.
#[derive(Debug, Clone)]
pub struct Attribute {
    pub key: String,
    pub value: String,
}

pub type AttributeView = (Seq<char>, Seq<char>);

impl Attribute {
    pub open spec fn view(&self) -> AttributeView {
        (self.key@, self.value@)
    }

    pub fn new() -> (r: Attribute)
        ensures
            r.key@ == Seq::<char>::empty(),
            r.value@ == Seq::<char>::empty(),
    {
        Attribute { key: String::new(), value: String::new() }
    }

    pub fn update_values(&mut self, key: String, value: String)
        ensures
            final(self).key@ == key@,
            final(self).value@ == value@,
    {
        self.key = key;
        self.value = value;
    }

    pub fn clear_values(&mut self)
        ensures
            final(self).key@ == Seq::<char>::empty(),
            final(self).value@ == Seq::<char>::empty(),
    {
        self.key = String::new();
        self.value = String::new();
    }

    /// A copy with the same key and value.
    pub fn duplicate(&self) -> (r: Attribute)
        ensures
            r.view() == self.view(),
    {
        Attribute { key: self.key.clone(), value: self.value.clone() }
    }
}

pub open spec fn attributes_view(a: Seq<Attribute>) -> Seq<AttributeView> {
    a.map_values(|x: Attribute| x.view())
}

pub open spec fn tags_view(v: Seq<Tag>) -> Seq<TagView> {
    v.map_values(|x: Tag| x@)
}

/// A copy of each attribute, in order.
pub fn clone_attributes(v: &Vec<Attribute>) -> (out: Vec<Attribute>)
    ensures
        attributes_view(out@) == attributes_view(v@),
{
    let mut out: Vec<Attribute> = Vec::new();
    let mut i: usize = 0;
    while i < v.len()
        invariant
            i <= v.len(),
            out.len() == i,
            attributes_view(out@) == attributes_view(v@).subrange(0, i as int),
        decreases v.len() - i,
    {
        let a = v[i].duplicate();
        proof {
            assert(a.view() == v@[i as int].view());
            assert(attributes_view(v@)[i as int] == v@[i as int].view());
            assert(out@.push(a)[i as int] == a);
            assert forall|k: int| 0 <= k < i implies attributes_view(out@.push(a))[k] == attributes_view(out@)[k] by {
                assert(out@.push(a)[k] == out@[k]);
            }
            assert(attributes_view(out@.push(a)) =~= attributes_view(v@).subrange(0, i + 1));
        }
        out.push(a);
        i += 1;
    }
    proof {
        assert(attributes_view(v@).subrange(0, v@.len() as int) =~= attributes_view(v@));
    }
    out
}

/// A tag as plain values.
pub struct TagView {
    pub name: Seq<char>,
    pub value: Seq<char>,
    pub tag_id: usize,
    pub parent_tag_id: usize,
    pub level: usize,
    pub tag_type: TagType,
    pub attributes: Seq<AttributeView>,
}

/// A tag without attributes holds `None`, never an empty list.
pub open spec fn attributes_canonical(t: Tag) -> bool {
    t.attributes matches Some(v) ==> v@.len() > 0
}

/// Every tag of `v` holds `None` where it has no attributes.
pub open spec fn all_canonical(v: Seq<Tag>) -> bool {
    forall|i: int| 0 <= i < v.len() ==> attributes_canonical(#[trigger] v[i])
}

/// An element or a text node being assembled: its qualified name, its value
/// (or the node marker), its id, its parent's id, its nesting depth, its kind
/// and the attributes of its start tag.
#[derive(Debug, Clone)]
pub struct Tag {
    pub name: String,
    pub value: String,
    pub tag_id: usize,
    pub parent_tag_id: usize,
    pub level: usize,
    pub tag_type: TagType,
    pub attributes: Option<Vec<Attribute>>,
}

impl Tag {
    pub open spec fn view(&self) -> TagView {
        TagView {
            name: self.name@,
            value: self.value@,
            tag_id: self.tag_id,
            parent_tag_id: self.parent_tag_id,
            level: self.level,
            tag_type: self.tag_type,
            attributes: match self.attributes {
                Some(v) => attributes_view(v@),
                None => Seq::empty(),
            },
        }
    }

    pub fn new() -> (r: Tag)
        ensures
            r@ == (TagView {
                name: Seq::empty(),
                value: Seq::empty(),
                tag_id: 0,
                parent_tag_id: 0,
                level: 0,
                tag_type: TagType::Unknown,
                attributes: Seq::empty(),
            }),
            r.attributes is None,
    {
        let r = Tag {
            name: String::new(),
            value: String::new(),
            tag_id: 0,
            parent_tag_id: 0,
            level: 0,
            tag_type: TagType::Unknown,
            attributes: None,
        };
        proof {
            assert(r@.name =~= Seq::<char>::empty());
        }
        r
    }

    /// A tag with every field given.
    pub fn from_parts(
        name: String,
        value: String,
        tag_id: usize,
        parent_tag_id: usize,
        level: usize,
        tag_type: TagType,
        attributes: Vec<Attribute>,
    ) -> (r: Tag)
        ensures
            r@ == (TagView {
                name: name@,
                value: value@,
                tag_id,
                parent_tag_id,
                level,
                tag_type,
                attributes: attributes_view(attributes@),
            }),
            r.attributes is None <==> attributes@.len() == 0,
            attributes_canonical(r),
    {
        let attributes = if attributes.len() == 0 {
            proof {
                assert(attributes_view(attributes@) =~= Seq::<AttributeView>::empty());
            }
            None
        } else {
            Some(attributes)
        };
        Tag { name, value, tag_id, parent_tag_id, level, tag_type, attributes }
    }

    /// A tag with this one's parent, depth and kind, and no attributes.
    pub fn derive_new_without_attributes(&self, name: String, value: String, tag_id: usize) -> (r: Tag)
        ensures
            r@ == (TagView {
                name: name@,
                value: value@,
                tag_id,
                parent_tag_id: self@.parent_tag_id,
                level: self@.level,
                tag_type: self@.tag_type,
                attributes: Seq::empty(),
            }),
            r.attributes is None,
    {
        Tag {
            name,
            value,
            tag_id,
            parent_tag_id: self.parent_tag_id,
            level: self.level,
            tag_type: self.tag_type,
            attributes: None,
        }
    }

    pub fn update_tag_name(&mut self, name: String)
        ensures
            final(self)@ == (TagView { name: name@, ..old(self)@ }),
            final(self).attributes == old(self).attributes,
    {
        self.name = name;
    }

    pub fn update_tag_value(&mut self, value: String)
        ensures
            final(self)@ == (TagView { value: value@, ..old(self)@ }),
            final(self).attributes == old(self).attributes,
    {
        self.value = value;
    }

    pub fn update_tag_and_value(
        &mut self,
        name: String,
        value: String,
        tag_id: usize,
        parent_id: usize,
        level: usize,
        tag_type: TagType,
    )
        ensures
            final(self)@ == (TagView {
                name: name@,
                value: value@,
                tag_id,
                parent_tag_id: parent_id,
                level,
                tag_type,
                ..old(self)@
            }),
            final(self).attributes == old(self).attributes,
    {
        self.name = name;
        self.value = value;
        self.tag_id = tag_id;
        self.parent_tag_id = parent_id;
        self.level = level;
        self.tag_type = tag_type;
    }

    pub fn update_attributes(&mut self, attr: Attribute)
        ensures
            final(self)@ == (TagView { attributes: old(self)@.attributes.push(attr.view()), ..old(self)@ }),
            final(self).attributes is Some,
    {
        match self.attributes {
            Some(ref mut my_attrs) => {
                proof {
                    assert(attributes_view(my_attrs@.push(attr)) =~= attributes_view(my_attrs@).push(attr.view()));
                }
                my_attrs.push(attr);
            },
            None => {
                let new_vec: Vec<Attribute> = vec![attr];
                proof {
                    assert(attributes_view(new_vec@) =~= Seq::<AttributeView>::empty().push(attr.view()));
                }
                self.attributes = Some(new_vec);
            },
        }
    }

    pub fn clear_attributes(&mut self)
        ensures
            final(self)@ == (TagView { attributes: Seq::empty(), ..old(self)@ }),
            final(self).attributes is None,
    {
        self.attributes = None;
    }

    pub fn clear_tag_and_value(&mut self)
        ensures
            final(self)@ == (TagView {
                name: Seq::empty(),
                value: Seq::empty(),
                tag_id: 0,
                level: 0,
                tag_type: TagType::Unknown,
                ..old(self)@
            }),
            final(self).attributes == old(self).attributes,
    {
        self.name = String::new();
        self.value = String::new();
        self.tag_id = 0;
        self.level = 0;
        self.tag_type = TagType::Unknown;
    }

    pub fn tag_id(&self) -> (r: usize)
        ensures
            r == self@.tag_id,
    {
        self.tag_id
    }

    pub fn parent_tag_id(&self) -> (r: usize)
        ensures
            r == self@.parent_tag_id,
    {
        self.parent_tag_id
    }

    pub fn level(&self) -> (r: usize)
        ensures
            r == self@.level,
    {
        self.level
    }

    pub fn tag_type(&self) -> (r: TagType)
        ensures
            r == self@.tag_type,
    {
        self.tag_type
    }

    /// A copy of the attributes, empty where there are none.
    pub fn attribute_list(&self) -> (r: Vec<Attribute>)
        ensures
            attributes_view(r@) == self@.attributes,
    {
        match &self.attributes {
            None => {
                let r: Vec<Attribute> = Vec::new();
                proof {
                    assert(attributes_view(r@) =~= Seq::<AttributeView>::empty());
                }
                r
            },
            Some(v) => clone_attributes(v),
        }
    }

    /// The number of attributes.
    pub fn attribute_count(&self) -> (r: usize)
        ensures
            r == self@.attributes.len(),
    {
        match &self.attributes {
            None => 0,
            Some(v) => v.len(),
        }
    }

    /// A copy of the tag.
    pub fn duplicate(&self) -> (r: Tag)
        ensures
            r@ == self@,
            r.attributes is None <==> self.attributes is None,
    {
        let attributes = match &self.attributes {
            None => None,
            Some(v) => Some(clone_attributes(v)),
        };
        Tag {
            name: self.name.clone(),
            value: self.value.clone(),
            tag_id: self.tag_id,
            parent_tag_id: self.parent_tag_id,
            level: self.level,
            tag_type: self.tag_type,
            attributes,
        }
    }
}

} // verus!
