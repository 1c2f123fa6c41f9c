use supabar::indexers::{is_hidden, is_indexable, union_extensions, Analyzer, IndexerKind};
use supabar::contracts::{log_and_return_error_string, new_file_to_process, FileCandidate, IndexError};
use supabar::gui::hello;
use supabar::indexers::{DocxIndexer, PdfIndexer};

#[test]
fn test_supports_pdf_extension() {
    assert_eq!(true, PdfIndexer.supports_extension("pdf"));
    assert_eq!(false, PdfIndexer.supports_extension("docx"))
}

#[test]
fn docx_extensions() {
    assert!(DocxIndexer.supports_extension("docx"));
    assert!(!DocxIndexer.supports_extension("pdf"));
    assert_eq!(DocxIndexer.supported_extensions(), vec!["docx".to_string()]);
    assert_eq!(PdfIndexer.supported_extensions(), vec!["pdf".to_string()]);
}

#[test]
fn candidate_hash_is_blake2b() {
    let c = new_file_to_process("/tmp/abc.txt".to_string(), b"abc".to_vec());
    assert_eq!(c.path(), "/tmp/abc.txt");
    assert_eq!(c.contents, b"abc".to_vec());
    assert_eq!(c.hash.len(), 64);
    assert_eq!(&c.hash[..4], &[0xba, 0x80, 0xa5, 0x3f]);
}

fn candidate(path: &str) -> FileCandidate {
    FileCandidate { path: path.to_string(), hash: Vec::new(), contents: Vec::new() }
}

#[test]
fn pdf_text_loses_spaces_after_words() {
    let doc = PdfIndexer.index_text(&candidate("/a.pdf"), "Cats have paws. ").unwrap();
    assert_eq!(doc.body, "Catshavepaws. ");
    assert_eq!(doc.name, "");
    assert_eq!(doc.media_type, "pdf");
    assert_eq!(doc.path, "/a.pdf");
}

#[test]
fn pdf_document_needs_cleaned_text() {
    assert!(PdfIndexer.document_from_text(&candidate("/a.pdf"), None).is_err());
    let doc = PdfIndexer.document_from_text(&candidate("/a.pdf"), Some("x".to_string())).unwrap();
    assert_eq!(doc.body, "x");
}

#[test]
fn docx_document() {
    let doc = DocxIndexer.index_file(&candidate("/b.docx")).unwrap();
    assert_eq!(doc.body, "");
    assert_eq!(doc.name, "");
    assert_eq!(doc.media_type, "docx");
    assert_eq!(doc.path, "/b.docx");
}

#[test]
fn error_string_is_returned() {
    assert_eq!(log_and_return_error_string("boom".to_string()), "boom");
}

#[test]
fn hello_greets() {
    assert_eq!(hello("Bob"), Ok("Hello, Bob!".to_string()));
    assert_eq!(hello(""), Ok("Hello, !".to_string()));
}

#[test]
fn hello_refuses_spaces() {
    assert_eq!(hello("Bob Smith"), Err("Name should not contains white-space".to_string()));
}

#[test]
fn indexable_files() {
    let supported = vec!["pdf".to_string(), "docx".to_string()];
    assert!(is_indexable("cats.pdf", &supported));
    assert!(is_indexable("a.b.docx", &supported));
    assert!(!is_indexable("cats.txt", &supported));
    assert!(!is_indexable("pdf", &supported));
    assert!(!is_indexable(".pdf", &supported));
}

#[test]
fn hidden_entries() {
    assert!(is_hidden(Some(".git")));
    assert!(!is_hidden(Some("src")));
    assert!(!is_hidden(Some("")));
    assert!(!is_hidden(None));
}

#[test]
fn extensions_of_all_indexers_once_each() {
    let lists = vec![
        vec!["pdf".to_string(), "txt".to_string()],
        vec!["docx".to_string(), "pdf".to_string()],
        vec![],
        vec!["txt".to_string(), "txt".to_string()],
    ];
    let mut all = union_extensions(&lists);
    all.sort();
    assert_eq!(all, vec!["docx".to_string(), "pdf".to_string(), "txt".to_string()]);
    assert!(union_extensions(&Vec::new()).is_empty());
}

/// A one-page PDF document showing `text` in Helvetica.
fn one_page_pdf(text: &str) -> Vec<u8> {
    let content = format!("BT /F1 24 Tf 100 700 Td ({}) Tj ET", text);
    let objects = vec![
        "<< /Type /Catalog /Pages 2 0 R >>".to_string(),
        "<< /Type /Pages /Kids [3 0 R] /Count 1 >>".to_string(),
        "<< /Type /Page /Parent 2 0 R /MediaBox [0 0 612 792] /Contents 4 0 R /Resources << /Font << /F1 5 0 R >> >> >>".to_string(),
        format!("<< /Length {} >>\nstream\n{}\nendstream", content.len(), content),
        "<< /Type /Font /Subtype /Type1 /BaseFont /Helvetica >>".to_string(),
    ];
    let mut out = b"%PDF-1.4\n".to_vec();
    let mut offsets = Vec::new();
    for (i, body) in objects.iter().enumerate() {
        offsets.push(out.len());
        out.extend_from_slice(format!("{} 0 obj\n{}\nendobj\n", i + 1, body).as_bytes());
    }
    let xref = out.len();
    out.extend_from_slice(format!("xref\n0 {}\n0000000000 65535 f \n", objects.len() + 1).as_bytes());
    for o in &offsets {
        out.extend_from_slice(format!("{:010} 00000 n \n", o).as_bytes());
    }
    out.extend_from_slice(
        format!("trailer\n<< /Size {} /Root 1 0 R >>\nstartxref\n{}\n%%EOF\n", objects.len() + 1, xref)
            .as_bytes(),
    );
    out
}

#[test]
fn pdf_file_is_indexed_from_its_contents() {
    let c = new_file_to_process("/docs/hello.pdf".to_string(), one_page_pdf("Hello World"));
    let doc = PdfIndexer.index_file(&c).unwrap();
    assert!(doc.body.contains("HelloWorld"), "body was {:?}", doc.body);
    assert!(!doc.body.contains("Hello World"));
    assert_eq!(doc.media_type, "pdf");
    assert_eq!(doc.path, "/docs/hello.pdf");
}

#[test]
fn pdf_without_document_fails() {
    let c = new_file_to_process("/docs/not.pdf".to_string(), b"plain text".to_vec());
    assert_eq!(PdfIndexer.index_file(&c), Err(IndexError::TextExtraction));
}

#[test]
fn default_analyzer_indexes_pdf() {
    let analyzer = Analyzer::default();
    assert_eq!(analyzer.supported_extensions(), &vec!["pdf".to_string()]);
    let c = new_file_to_process("/d/hello.pdf".to_string(), one_page_pdf("Hello World"));
    let docs = analyzer.analyze(&c, "pdf");
    assert_eq!(docs.len(), 1);
    assert!(docs[0].body.contains("HelloWorld"));
    assert!(analyzer.analyze(&c, "docx").is_empty());
}

#[test]
fn analyzer_asks_each_indexer_of_the_extension() {
    let analyzer = Analyzer::new(vec![IndexerKind::Pdf, IndexerKind::Docx, IndexerKind::Pdf]);
    let mut exts = analyzer.supported_extensions().clone();
    exts.sort();
    assert_eq!(exts, vec!["docx".to_string(), "pdf".to_string()]);
    let pdf = new_file_to_process("/d/a.pdf".to_string(), one_page_pdf("Cats"));
    assert_eq!(analyzer.analyze(&pdf, "pdf").len(), 2);
    let docx = candidate("/d/b.docx");
    let docs = analyzer.analyze(&docx, "docx");
    assert_eq!(docs.len(), 1);
    assert_eq!(docs[0].media_type, "docx");
    let broken = new_file_to_process("/d/c.pdf".to_string(), b"no pdf here".to_vec());
    assert!(analyzer.analyze(&broken, "pdf").is_empty());
    assert!(analyzer.analyze(&docx, "txt").is_empty());
}

#[test]
fn indexer_kinds() {
    assert!(IndexerKind::Pdf.supports_extension("pdf"));
    assert!(!IndexerKind::Pdf.supports_extension("docx"));
    assert_eq!(IndexerKind::Docx.supported_extensions(), vec!["docx".to_string()]);
    assert!(IndexerKind::Docx.index_file(&candidate("/x.docx")).is_ok());
}

#[test]
fn candidate_extension() {
    assert_eq!(candidate("/d/a.pdf").extension(), Some("pdf".to_string()));
    assert_eq!(candidate("/d/README").extension(), None);
}

#[test]
fn indexable_paths_keep_handled_extensions() {
    let analyzer = Analyzer::new(vec![IndexerKind::Pdf, IndexerKind::Docx]);
    let paths = vec![
        "/h/a.pdf".to_string(),
        "/h/b.txt".to_string(),
        "/h/c.docx".to_string(),
        "/h/.pdf".to_string(),
        "/h/dir.pdf/".to_string(),
        "/h/README".to_string(),
    ];
    assert_eq!(
        analyzer.indexable_paths(&paths),
        vec!["/h/a.pdf".to_string(), "/h/c.docx".to_string(), "/h/dir.pdf/".to_string()]
    );
}

#[test]
fn analyze_all_concatenates_in_file_order() {
    let analyzer = Analyzer::new(vec![IndexerKind::Pdf, IndexerKind::Docx]);
    let files = vec![
        candidate("/h/one.docx"),
        new_file_to_process("/h/two.pdf".to_string(), one_page_pdf("Two Cats")),
        new_file_to_process("/h/bad.pdf".to_string(), b"nope".to_vec()),
        candidate("/h/three.docx"),
    ];
    let docs = analyzer.analyze_all(&files);
    assert_eq!(docs.len(), 3);
    assert_eq!(docs[0].path, "/h/one.docx");
    assert_eq!(docs[1].path, "/h/two.pdf");
    assert!(docs[1].body.contains("TwoCats"));
    assert_eq!(docs[2].path, "/h/three.docx");
}
