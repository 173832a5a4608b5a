//! Parse the produced XML with quick_xml's reader and check that every
//! escaped source path and document content comes back exactly.

use quick_xml::escape::resolve_predefined_entity;
use quick_xml::events::Event;
use quick_xml::Reader;
use repocopy::policy::Config;
use repocopy::serialize::generate_xml;
use repocopy::serialize::Entry;
use repocopy::serialize::RootStatus;

fn mk(parts: &[&str]) -> Vec<String> {
    parts.iter().map(|s| s.to_string()).collect()
}

/// Read the XML back: the text of every `<source>` and every
/// `<document_content>` element, entities resolved.
fn parse_back(xml: &str) -> (Vec<String>, Vec<String>) {
    let mut reader = Reader::from_str(xml);
    let mut sources: Vec<String> = Vec::new();
    let mut contents: Vec<String> = Vec::new();
    let mut acc = String::new();
    let mut state = 0;
    loop {
        match reader.read_event().unwrap() {
            Event::Eof => break,
            Event::Start(e) => {
                let name = e.name().as_ref().to_string();
                if name == "source" {
                    state = 1;
                    acc.clear();
                } else if name == "document_content" {
                    state = 2;
                    acc.clear();
                }
            }
            Event::End(e) => {
                let name = e.name().as_ref().to_string();
                if name == "source" && state == 1 {
                    sources.push(acc.clone());
                    state = 0;
                } else if name == "document_content" && state == 2 {
                    contents.push(acc.clone());
                    state = 0;
                }
            }
            Event::Text(t) => {
                if state != 0 {
                    acc.push_str(&t.into_inner());
                }
            }
            Event::GeneralRef(r) => {
                if state != 0 {
                    if let Some(ch) = r.resolve_char_ref().unwrap() {
                        acc.push(ch);
                    } else {
                        let name = r.into_inner();
                        acc.push_str(resolve_predefined_entity(&name).unwrap());
                    }
                }
            }
            _ => {}
        }
    }
    (sources, contents)
}

#[test]
fn content_with_markup_round_trips() {
    let body = "a < b && c > d\n\"quoted\" 'single'\rend";
    let root = mk(&["r"]);
    let entries = vec![Entry {
        path: mk(&["r", "odd & file.txt"]),
        is_dir: false,
        content: Some(body.to_string()),
    }];
    let out = generate_xml(&root, RootStatus::Directory, &entries, &Config::default()).unwrap();
    let (sources, contents) = parse_back(&out);
    assert_eq!(sources, vec!["odd & file.txt".to_string()]);
    // the serializer frames the content with a newline on each side
    assert_eq!(contents, vec![format!("\n{}\n    ", body)]);
}

#[test]
fn several_documents_round_trip() {
    let bodies = ["<<<>>>", "&amp; is not &", "plain"];
    let root = mk(&["r"]);
    let entries: Vec<Entry> = bodies
        .iter()
        .enumerate()
        .map(|(i, b)| Entry {
            path: mk(&["r", &format!("f{}.txt", i)]),
            is_dir: false,
            content: Some(b.to_string()),
        })
        .collect();
    let out = generate_xml(&root, RootStatus::Directory, &entries, &Config::default()).unwrap();
    let (sources, contents) = parse_back(&out);
    assert_eq!(sources.len(), 3);
    for (i, b) in bodies.iter().enumerate() {
        assert_eq!(sources[i], format!("f{}.txt", i));
        assert_eq!(contents[i], format!("\n{}\n    ", b));
    }
}
