//! The plain records that the relational writer stores.

use vstd::prelude::*;

verus! {

/// The groups of database indices that are created and dropped together.
#[derive(Debug, Clone, Copy, PartialEq, Eq, Structural)]
pub enum IndexGroup {
    ProcessLog,
    DocStore,
    XmlStore,
}

#[derive(Debug, Clone, Copy, PartialEq, Eq, Structural)]
pub enum LogLevel {
    Info,
    Warning,
    Error,
    All,
}

impl LogLevel {
    /// The number stored for the level.
    pub fn code(&self) -> (r: isize)
        ensures
            r == match self {
                LogLevel::Info => 0isize,
                LogLevel::Warning => 1,
                LogLevel::Error => 2,
                LogLevel::All => 4,
            },
    {
        match self {
            LogLevel::Info => 0,
            LogLevel::Warning => 1,
            LogLevel::Error => 2,
            LogLevel::All => 4,
        }
    }
}

#[derive(Debug, Clone, Copy, PartialEq, Eq, Structural)]
pub enum DocValidity {
    Valid,
    Invalid,
}

impl DocValidity {
    /// The number stored for the validity.
    pub fn code(&self) -> (r: isize)
        ensures
            r == match self {
                DocValidity::Valid => 1isize,
                DocValidity::Invalid => 0,
            },
    {
        match self {
            DocValidity::Valid => 1,
            DocValidity::Invalid => 0,
        }
    }
}

/// The attributes of a stored document.
#[derive(Debug, Clone, Copy, PartialEq, Eq, Structural)]
pub enum XmlAttribute {
    DocID,
    Type,
    ParsedXml,
    SoupNoOfTags,
    SourceNoOfTags,
    Tags,
    TagsAndValues,
    TopNode,
}

impl XmlAttribute {
    pub open spec fn spec_name(self) -> Seq<char> {
        match self {
            XmlAttribute::DocID => "DocID"@,
            XmlAttribute::Type => "Type"@,
            XmlAttribute::ParsedXml => "ParsedXml"@,
            XmlAttribute::SoupNoOfTags => "SoupNoOfTags"@,
            XmlAttribute::SourceNoOfTags => "SourceNoOfTags"@,
            XmlAttribute::Tags => "Tags"@,
            XmlAttribute::TagsAndValues => "TagsAndValues"@,
            XmlAttribute::TopNode => "TopNode"@,
        }
    }

    /// The column name of the attribute.
    pub fn to_string(&self) -> (r: String)
        ensures
            r@ == self.spec_name(),
    {
        let s: &str = match self {
            XmlAttribute::DocID => "DocID",
            XmlAttribute::Type => "Type",
            XmlAttribute::ParsedXml => "ParsedXml",
            XmlAttribute::SoupNoOfTags => "SoupNoOfTags",
            XmlAttribute::SourceNoOfTags => "SourceNoOfTags",
            XmlAttribute::Tags => "Tags",
            XmlAttribute::TagsAndValues => "TagsAndValues",
            XmlAttribute::TopNode => "TopNode",
        };
        s.to_owned()
    }
}

/// One value of a stored record.
#[derive(Debug, Clone)]
pub enum SQLDataType {
    Text(String),
    Integer(isize),
}

#[derive(Debug, Clone)]
pub struct TableProcessLog {
    pub doc_id: isize,
    pub log_level: isize,
    pub log_entry: String,
}

#[derive(Debug, Clone)]
pub struct TableDocList {
    pub doc_id: isize,
    pub doc_validity: isize,
    pub doc_text: String,
    pub doc_invalid_reason: String,
}

#[derive(Debug, Clone)]
pub struct TableParsedXmlStore {
    pub doc_id: isize,
    pub doc_type: String,
    pub parsed_xml: String,
    pub soup_no_of_tags: isize,
    pub source_no_of_tags: isize,
    pub tags: String,
    pub topnode: String,
}

/// The records of one table waiting to be written, and its field names.
#[derive(Debug)]
pub struct CachedTable {
    pub data: Vec<Vec<SQLDataType>>,
    pub fields: Vec<String>,
}

impl CachedTable {
    pub fn new(field_names: Vec<String>) -> (r: CachedTable)
        ensures
            r.data@.len() == 0,
            r.fields@ == field_names@,
    {
        CachedTable { data: Vec::new(), fields: field_names }
    }
}

} // verus!
