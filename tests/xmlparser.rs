use quick_xml::events::Event;
use quick_xml::Reader;
use xmlstar::fileprocessor::process_single_document;
use xmlstar::index::Occurrence;
use xmlstar::tag::{Attribute, AttributeUsage, TagType};
use xmlstar::xmlparser::{MarkupEvent, ParseError, XmlDoc};

fn fault(reader: &Reader<&[u8]>, e: quick_xml::Error) -> ParseError {
    ParseError::MalformedMarkup { position: reader.buffer_position(), cause: format!("{:?}", e) }
}

fn events_of(xml: &str) -> Result<Vec<MarkupEvent>, ParseError> {
    let mut reader = Reader::from_str(xml);
    reader.trim_text(true);
    let mut buf = Vec::new();
    let mut out = Vec::new();
    loop {
        match reader.read_event(&mut buf) {
            Ok(Event::Start(e)) => {
                let mut attributes = Vec::new();
                for a in e.attributes() {
                    let a = a.map_err(|x| fault(&reader, x))?;
                    let value = a.unescape_and_decode_value(&reader).map_err(|x| fault(&reader, x))?;
                    attributes.push(Attribute { key: String::from_utf8_lossy(a.key).to_string(), value });
                }
                out.push(MarkupEvent::Start { name: String::from_utf8_lossy(e.name()).to_string(), attributes });
            }
            Ok(Event::Text(e)) | Ok(Event::CData(e)) => {
                let value = e.unescape_and_decode(&reader).map_err(|x| fault(&reader, x))?;
                out.push(MarkupEvent::Text { value });
            }
            Ok(Event::End(_)) => out.push(MarkupEvent::End),
            Ok(Event::Eof) => {
                out.push(MarkupEvent::Eof);
                return Ok(out);
            }
            Ok(_) => {}
            Err(e) => return Err(fault(&reader, e)),
        }
        buf.clear();
    }
}

fn parse(xml: &str, usage: AttributeUsage, top: Option<usize>, dist: Option<usize>) -> Result<XmlDoc, ParseError> {
    let events = events_of(xml)?;
    XmlDoc::new(7, &events, usage, top, dist)
}

fn entries(d: &XmlDoc) -> Vec<(String, Vec<Occurrence>)> {
    let mut out = Vec::new();
    for i in 0..d.key_count() {
        let (k, v) = d.entry(i).unwrap();
        out.push((k.clone(), v.clone()));
    }
    assert!(d.entry(d.key_count()).is_none());
    out
}

fn keys(m: &XmlDoc) -> Vec<String> {
    entries(m).into_iter().map(|(k, _)| k).collect()
}

fn occ(id: usize, depth: usize, value: &str, kind: usize) -> Occurrence {
    (id, depth, value.to_string(), kind)
}

fn start(name: &str) -> MarkupEvent {
    MarkupEvent::Start { name: name.to_string(), attributes: Vec::new() }
}

fn text(v: &str) -> MarkupEvent {
    MarkupEvent::Text { value: v.to_string() }
}

const PAYMENT: &str = r#"<?xml version="1.0" encoding="UTF-8"?><Document xmlns="urn:iso:std:iso:20022:tech:xsd:pain.008.001.02" xmlns:xsi="http://www.w3.org/2001/XMLSchema-instance"><CstmrDrctDbtInitn><GrpHdr><MsgId>yd5oBwTm19W2rZG3</MsgId><CreDtTm>2013-10-08T12:57:52</CreDtTm><NbOfTxs>2</NbOfTxs><CtrlSum>56465384.0</CtrlSum><InitgPty><Nm>PILOTFORETAG B</Nm><Id><OrgId><Othr><Id>7158637412</Id><SchmeNm><Cd>BANK</Cd></SchmeNm></Othr></OrgId></Id></InitgPty></GrpHdr><PmtInf><PmtInfId>SEND PAYMENT VER 009</PmtInfId><PmtMtd>DD</PmtMtd><BtchBookg>true</BtchBookg><NbOfTxs>2</NbOfTxs><CtrlSum>56465384.0</CtrlSum><PmtTpInf><SvcLvl><Cd>SEPA</Cd></SvcLvl><LclInstrm><Cd>B2B</Cd></LclInstrm><SeqTp>RCUR</SeqTp></PmtTpInf><ReqdColltnDt>2013-11-08</ReqdColltnDt><Cdtr><Nm>PILOTFORETAG B</Nm><PstlAdr><Ctry>DE</Ctry></PstlAdr></Cdtr><CdtrAcct><Id><IBAN>CH23885378935554937471</IBAN></Id></CdtrAcct><CdtrAgt><FinInstnId><BIC>HANDNL2A</BIC></FinInstnId></CdtrAgt><CdtrSchmeId><Id><PrvtId><Othr><Id>CH13546501204560291467</Id><SchmeNm><Prtry>SEPA</Prtry></SchmeNm></Othr></PrvtId></Id></CdtrSchmeId><DrctDbtTxInf><PmtId><EndToEndId>BMO1 SEND PROD VER 10 1106</EndToEndId></PmtId><InstdAmt Ccy="EUR">49975405.0</InstdAmt><ChrgBr>SLEV</ChrgBr><DrctDbtTx><MndtRltdInf><MndtId>PRODVER8</MndtId><DtOfSgntr>2011-10-01</DtOfSgntr></MndtRltdInf></DrctDbtTx><DbtrAgt><FinInstnId><BIC>HANDDEFF</BIC></FinInstnId></DbtrAgt><Dbtr><Nm>Pilot B</Nm><PstlAdr><Ctry>NL</Ctry></PstlAdr><Id><OrgId><Othr><Id>5497683033</Id><SchmeNm><Cd>CUST</Cd></SchmeNm></Othr></OrgId></Id></Dbtr><DbtrAcct><Id><IBAN>CH89549400409945581319</IBAN></Id></DbtrAcct><RmtInf><Ustrd>Invoice 1</Ustrd></RmtInf></DrctDbtTxInf><DrctDbtTxInf><PmtId><EndToEndId>BMO2 SEND PROD VER 11 1106</EndToEndId></PmtId><InstdAmt Ccy="EUR">6489979.0</InstdAmt><ChrgBr>SLEV</ChrgBr><DrctDbtTx><MndtRltdInf><MndtId>PRODVER9</MndtId><DtOfSgntr>2011-10-01</DtOfSgntr></MndtRltdInf></DrctDbtTx><DbtrAgt><FinInstnId><BIC>HANDDEFF</BIC></FinInstnId></DbtrAgt><Dbtr><Nm>PILOT B</Nm><PstlAdr><Ctry>DE</Ctry></PstlAdr><Id><OrgId><Othr><Id>7159672956</Id><SchmeNm><Cd>CUST</Cd></SchmeNm></Othr></OrgId></Id></Dbtr><DbtrAcct><Id><IBAN>CH89549400409945581319</IBAN></Id></DbtrAcct><RmtInf><Ustrd>Invoice 2</Ustrd></RmtInf></DrctDbtTxInf></PmtInf></CstmrDrctDbtInitn></Document>"#;

#[test]
fn process_doc() {
    println!("-----------------------------------");
    let parsed_xml = parse(PAYMENT, AttributeUsage::AddSeparateTag, None, None).unwrap();
    println!("{:?}", parsed_xml.fstar);
    println!("-----------------------------------");
    assert_eq!(parsed_xml.doc_type, "CstmrDrctDbtInitn");
    let nodes = parsed_xml.fstar.num_nodes();
    let occurrences: usize = entries(&parsed_xml).iter().map(|(_, v)| v.len()).sum();
    assert_eq!(nodes, occurrences);
    assert_eq!(parsed_xml.fstar.num_links() + 1, nodes);
    // the root has its two namespace attributes as separate tags
    let ks = keys(&parsed_xml);
    assert_eq!(ks[0], "Document.Document");
    assert_eq!(ks[1], "Document.xmlns");
    assert_eq!(ks[2], "Document.xmlns:xsi");
    assert!(ks.contains(&"Document.CstmrDrctDbtInitn.PmtInf.DrctDbtTxInf.InstdAmt.Ccy".to_string()));
}

#[test]
fn nested_element_with_ignore_policy() {
    let doc = parse("<A><B>v</B></A>", AttributeUsage::Ignore, Some(0), None).unwrap();
    assert_eq!(doc.fstar.num_nodes(), 2);
    assert_eq!(doc.fstar.num_links(), 1);
    assert_eq!(doc.fstar.get_node_captions(), &vec!["1".to_string(), "2".to_string()]);
    assert_eq!(doc.fstar.find_parent_by_caption("2"), Ok((0, 0)));
    assert_eq!(
        entries(&doc),
        vec![
            ("A".to_string(), vec![occ(1, 1, "__node__", 0)]),
            ("A.B".to_string(), vec![occ(2, 2, "v", 1)]),
        ]
    );
    assert_eq!(doc.doc_type, "B");
    let tags = doc.tags_n_values.unwrap();
    assert_eq!(tags.len(), 2);
    assert_eq!(tags[1].tag_type(), TagType::DataTag);
    assert_eq!(tags[1].parent_tag_id(), 1);
}

#[test]
fn mismatched_close_is_malformed() {
    let r = parse("<A><B>v</A>", AttributeUsage::Ignore, Some(0), None);
    assert!(matches!(r, Err(ParseError::MalformedMarkup { .. })));
}

#[test]
fn graph_is_a_tree_over_committed_ids() {
    let doc = parse("<R><A><B>1</B><C>2</C></A><D x=\"9\">3</D></R>", AttributeUsage::AddSeparateTag, None, None).unwrap();
    let occurrences: usize = entries(&doc).iter().map(|(_, v)| v.len()).sum();
    assert_eq!(doc.fstar.num_nodes(), occurrences);
    assert_eq!(doc.fstar.num_links() + 1, doc.fstar.num_nodes());
    let mut caps = doc.fstar.get_node_captions().clone();
    caps.sort();
    caps.dedup();
    assert_eq!(caps.len(), doc.fstar.num_nodes());
}

#[test]
fn keys_follow_first_commit_order() {
    let doc = parse("<R><B>1</B><A>2</A><B>3</B></R>", AttributeUsage::Ignore, None, None).unwrap();
    assert_eq!(keys(&doc), vec!["R", "R.B", "R.A"]);
    assert_eq!(
        entries(&doc)[1].1,
        vec![occ(2, 2, "1", 1), occ(4, 2, "3", 1)]
    );
}

#[test]
fn same_name_under_different_paths_is_not_merged() {
    let doc = parse("<R><X><N>1</N></X><Y><N>2</N></Y></R>", AttributeUsage::Ignore, None, None).unwrap();
    assert_eq!(keys(&doc), vec!["R", "R.X", "R.X.N", "R.Y", "R.Y.N"]);
    let e = entries(&doc);
    assert_eq!(e[2].1, vec![occ(3, 3, "1", 1)]);
    assert_eq!(e[4].1, vec![occ(5, 3, "2", 1)]);
}

#[test]
fn separate_tags_for_attributes() {
    let doc = parse("<R><E k1=\"a\" k2=\"b\">v</E></R>", AttributeUsage::AddSeparateTag, None, None).unwrap();
    // R, then E under its long name, then one node per attribute
    assert_eq!(doc.fstar.num_nodes(), 4);
    assert_eq!(
        entries(&doc),
        vec![
            ("R".to_string(), vec![occ(1, 1, "__node__", 0)]),
            ("R.E.E".to_string(), vec![occ(2, 2, "v", 1)]),
            ("R.E.k1".to_string(), vec![occ(3, 2, "a", 1)]),
            ("R.E.k2".to_string(), vec![occ(4, 2, "b", 1)]),
        ]
    );
    assert_eq!(doc.fstar.find_parent_by_caption("3").unwrap().0, doc.fstar.find_node_by_caption("2").unwrap());
    assert_eq!(doc.fstar.find_parent_by_caption("4").unwrap().0, doc.fstar.find_node_by_caption("2").unwrap());
    assert_eq!(doc.curr_tag_id, 4);
}

#[test]
fn attribute_values_folded_into_name_or_value() {
    let by_name = parse("<R><E k=\"a\" j=\"b\">v</E></R>", AttributeUsage::AddToTagName, None, None).unwrap();
    assert_eq!(keys(&by_name), vec!["R", "R.E-a-b"]);
    let by_value = parse("<R><E k=\"a\" j=\"b\">v</E></R>", AttributeUsage::AddToTagValue, None, None).unwrap();
    assert_eq!(entries(&by_value)[1].1, vec![occ(2, 2, "a-b-v", 1)]);
}

#[test]
fn skipped_levels_and_document_type() {
    let doc = parse("<Root><Doc><A>x</A><B>y</B></Doc></Root>", AttributeUsage::Ignore, Some(1), None).unwrap();
    assert_eq!(keys(&doc), vec!["Doc", "Doc.A", "Doc.B"]);
    assert_eq!(doc.doc_type, "A");
    assert_eq!(doc.fstar.num_nodes(), 3);
    let shallow = parse("<Root>x</Root>", AttributeUsage::Ignore, Some(1), None).unwrap();
    assert_eq!(shallow.key_count(), 0);
    assert!(!shallow.fstar.has_root());
    assert_eq!(shallow.doc_type, "");
}

#[test]
fn many_ids_get_multi_digit_captions() {
    let mut xml = String::from("<R>");
    for i in 0..12 {
        xml.push_str(&format!("<E>{}</E>", i));
    }
    xml.push_str("</R>");
    let doc = parse(&xml, AttributeUsage::Ignore, None, None).unwrap();
    assert_eq!(doc.fstar.num_nodes(), 13);
    assert_eq!(doc.fstar.get_node_captions()[12], "13");
    assert_eq!(doc.fstar.find_parent_by_caption("13").unwrap().0, 0);
}

#[test]
fn text_after_a_child_repeats_the_parent_caption() {
    let r = parse("<A>x<B>y</B>z</A>", AttributeUsage::Ignore, None, None);
    assert_eq!(r.unwrap_err(), ParseError::DuplicateCaption { caption: "1".to_string() });
}

#[test]
fn second_root_has_no_parent() {
    let events = vec![start("A"), text("x"), MarkupEvent::End, start("B"), text("y"), MarkupEvent::End, MarkupEvent::Eof];
    let r = XmlDoc::new(1, &events, AttributeUsage::Ignore, None, None);
    assert_eq!(r.unwrap_err(), ParseError::CaptionNotFound { caption: "2".to_string() });
}

#[test]
fn unbalanced_and_unfinished_input() {
    let r = XmlDoc::new(1, &vec![MarkupEvent::End], AttributeUsage::Ignore, None, None);
    assert_eq!(r.unwrap_err(), ParseError::UnbalancedEnd);
    let r = XmlDoc::new(1, &vec![start("A"), text("x")], AttributeUsage::Ignore, None, None);
    assert_eq!(r.unwrap_err(), ParseError::UnexpectedEndOfInput);
}

#[test]
fn childless_textless_element_is_dropped() {
    let events = vec![start("A"), start("B"), MarkupEvent::End, start("C"), text("c"), MarkupEvent::End, MarkupEvent::End];
    let doc = XmlDoc::new(1, &events, AttributeUsage::Ignore, None, None).unwrap();
    assert_eq!(keys(&doc), vec!["A", "A.C"]);
    assert_eq!(entries(&doc)[1].1, vec![occ(3, 2, "c", 1)]);
}

#[test]
fn single_document_tags() {
    let tags = process_single_document(&events_of("<R a=\"1\"><S>t</S></R>").unwrap()).unwrap();
    assert_eq!(tags.len(), 2);
    assert_eq!(tags[0].name, "R");
    assert_eq!(tags[0].value, "__node__");
    assert_eq!(tags[0].attribute_count(), 1);
    assert_eq!(tags[1].name, "R.S");
    assert_eq!(tags[1].value, "t");
}

#[test]
fn tags_without_attributes_hold_none() {
    let tags = process_single_document(&events_of("<A><B>v</B></A>").unwrap()).unwrap();
    assert_eq!(tags.len(), 2);
    assert_eq!(tags[0].name, "A");
    assert_eq!(tags[0].value, "__node__");
    assert!(tags[0].attributes.is_none());
    assert_eq!(tags[1].name, "A.B");
    assert_eq!(tags[1].value, "v");
    assert!(tags[1].attributes.is_none());
    let with = process_single_document(&events_of("<A k=\"1\">v</A>").unwrap()).unwrap();
    assert_eq!(with[0].attributes.as_ref().map(|a| a.len()), Some(1));
}
