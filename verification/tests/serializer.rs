use repocopy::policy::Config;
use repocopy::serialize::generate_xml;
use repocopy::serialize::Entry;
use repocopy::serialize::RootStatus;
use repocopy::serialize::SerializeError;

fn mk(parts: &[&str]) -> Vec<String> {
    parts.iter().map(|s| s.to_string()).collect()
}

fn file(parts: &[&str], content: &str) -> Entry {
    Entry { path: mk(parts), is_dir: false, content: Some(content.to_string()) }
}

fn unreadable(parts: &[&str]) -> Entry {
    Entry { path: mk(parts), is_dir: false, content: None }
}

fn dir(parts: &[&str]) -> Entry {
    Entry { path: mk(parts), is_dir: true, content: None }
}

#[test]
fn empty_directory_yields_empty_documents() {
    let root = mk(&["root"]);
    let entries = vec![dir(&["root"])];
    let out = generate_xml(&root, RootStatus::Directory, &entries, &Config::default()).unwrap();
    assert_eq!(out, "<documents>\n</documents>\n");
}

#[test]
fn no_entries_at_all() {
    let out =
        generate_xml(&mk(&["r"]), RootStatus::Directory, &Vec::new(), &Config::default()).unwrap();
    assert_eq!(out, "<documents>\n</documents>\n");
}

#[test]
fn missing_root_fails_without_output() {
    let r = generate_xml(
        &mk(&["nowhere"]),
        RootStatus::Missing,
        &vec![file(&["nowhere", "f.txt"], "x")],
        &Config::default(),
    );
    assert_eq!(r, Err(SerializeError::RootNotFound));
    assert_eq!(SerializeError::RootNotFound.message(), "root path not found");
}

#[test]
fn root_not_a_directory_fails() {
    let r = generate_xml(&mk(&["somefile"]), RootStatus::NotDirectory, &Vec::new(), &Config::default());
    assert_eq!(r, Err(SerializeError::RootNotADirectory));
    assert_eq!(SerializeError::RootNotADirectory.message(), "root path is not a directory");
}

#[test]
fn single_file_document() {
    let root = mk(&["root"]);
    let entries = vec![dir(&["root"]), file(&["root", "f.txt"], "hello")];
    let out = generate_xml(&root, RootStatus::Directory, &entries, &Config::default()).unwrap();
    let expected = "<documents>\n  <document index=\"1\">\n    <source>f.txt</source>\n    <document_content>\nhello\n    </document_content>\n  </document>\n</documents>\n";
    assert_eq!(out, expected);
}

#[test]
fn markup_is_escaped() {
    let root = mk(&["r"]);
    let entries = vec![file(&["r", "a&b.txt"], "a<b>&\"c'")];
    let out = generate_xml(&root, RootStatus::Directory, &entries, &Config::default()).unwrap();
    let expected = "<documents>\n  <document index=\"1\">\n    <source>a&amp;b.txt</source>\n    <document_content>\na&lt;b&gt;&amp;&quot;c&apos;\n    </document_content>\n  </document>\n</documents>\n";
    assert_eq!(out, expected);
}

#[test]
fn indices_count_only_emitted_documents() {
    let root = mk(&["r"]);
    let entries = vec![
        dir(&["r"]),
        file(&["r", "one.txt"], "one"),
        unreadable(&["r", "broken.bin"]),
        file(&["r", "Cargo.lock"], "locked"),
        dir(&["r", "node_modules"]),
        file(&["r", "node_modules", "dep.js"], "code"),
        file(&["r", "two.txt"], "two"),
    ];
    let out = generate_xml(&root, RootStatus::Directory, &entries, &Config::default()).unwrap();
    assert_eq!(out.matches("<document index=").count(), 2);
    assert!(out.contains("<document index=\"1\">"));
    assert!(out.contains("<document index=\"2\">"));
    assert!(out.contains("<source>one.txt</source>"));
    assert!(out.contains("<source>two.txt</source>"));
    assert!(!out.contains("Cargo.lock"));
    assert!(!out.contains("dep.js"));
    assert!(!out.contains("broken.bin"));
}

#[test]
fn relative_path_strips_root() {
    let root = mk(&["home", "user", "proj"]);
    let entries = vec![file(&["home", "user", "proj", "src", "main.rs"], "fn main() {}")];
    let out = generate_xml(&root, RootStatus::Directory, &entries, &Config::default()).unwrap();
    assert!(out.contains("<source>src/main.rs</source>"));
}

#[test]
fn relative_path_falls_back_to_full_path() {
    let root = mk(&["home", "user", "proj"]);
    let entries = vec![file(&["elsewhere", "f.txt"], "x")];
    let out = generate_xml(&root, RootStatus::Directory, &entries, &Config::default()).unwrap();
    assert!(out.contains("<source>elsewhere/f.txt</source>"));
}

#[test]
fn two_digit_indices() {
    let root = mk(&["r"]);
    let mut entries = Vec::new();
    for i in 0..12 {
        entries.push(file(&["r", &format!("f{}.txt", i)], "x"));
    }
    let out = generate_xml(&root, RootStatus::Directory, &entries, &Config::default()).unwrap();
    assert_eq!(out.matches("<document index=").count(), 12);
    assert!(out.contains("<document index=\"10\">"));
    assert!(out.contains("<document index=\"12\">"));
}
