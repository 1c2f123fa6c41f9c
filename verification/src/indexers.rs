//! The indexers of PDF and Word documents.
use vstd::prelude::*;
use vstd::string::*;

use crate::contracts::{DocView, DocumentSchema, FileCandidate, IndexError, outcome_view};
use crate::apps::{extension_of, has_extension, path_extension, path_extension_of};
use crate::text::same_text;

verus! {

/// The text that replacing every match of the regular expression `pattern` in
/// `text` by `replacement` gives, or `None` when `pattern` is not a valid regular
/// expression.
pub uninterp spec fn regex_replace_all(
    pattern: Seq<char>,
    text: Seq<char>,
    replacement: Seq<char>,
) -> Option<Seq<char>>;

/// Compiles `pattern` with `regex::Regex::new` and, when that succeeds, replaces
/// every match in `text` with `Regex::replace_all`. Both depend on the arguments
/// alone; what they compute is named by `regex_replace_all`, not stated.
/// `Regex::new` fails only on a pattern that is not valid syntax or is too large;
/// `\b ` (a word boundary, which the crate's default `unicode` features provide,
/// then a space) is neither, so for it the compilation is stated to succeed.
#[verifier::external_body]
fn replace_all_matches(pattern: &str, text: &str, replacement: &str) -> (r: Option<String>)
    ensures
        match r {
            Some(s) => regex_replace_all(pattern@, text@, replacement@) == Some(s@),
            None => regex_replace_all(pattern@, text@, replacement@) is None,
        },
        pattern@ == "\\b "@ ==> r is Some,
{
    match regex::Regex::new(pattern) {
        Ok(re) => Some(re.replace_all(text, replacement).into_owned()),
        Err(_) => None,
    }
}

/// The text of each page of the PDF document held in `bytes`, one entry per page
/// in page order (the order in which lopdf's `Document::get_pages` numbers them),
/// or `None` when the bytes do not hold a document or the text of some page
/// cannot be extracted.
pub uninterp spec fn pdf_page_texts(bytes: Seq<u8>) -> Option<Seq<Seq<char>>>;

/// The text of the whole PDF document held in `bytes`: the texts of all its
/// pages, one after the other in page order.
pub open spec fn pdf_text(bytes: Seq<u8>) -> Option<Seq<char>> {
    match pdf_page_texts(bytes) {
        Some(pages) => Some(pages.flatten()),
        None => None,
    }
}

/// Where the text of page `i` starts in the text of the whole document: after the
/// texts of the pages before it.
pub open spec fn page_offset(pages: Seq<Seq<char>>, i: int) -> int {
    pages.take(i).flatten().len() as int
}

/// The text of a document holds the text of every one of its pages, each in its
/// place: page `i` occupies the positions from `page_offset(pages, i)` on, after
/// all the pages before it; no page is left out.
pub proof fn lemma_every_page_in_text(pages: Seq<Seq<char>>, i: int)
    requires
        0 <= i < pages.len(),
    ensures
        0 <= page_offset(pages, i),
        page_offset(pages, i) + pages[i].len() <= pages.flatten().len(),
        pages.flatten().subrange(page_offset(pages, i), page_offset(pages, i) + pages[i].len()) == pages[i],
    decreases i,
{
    let rest = pages.drop_first();
    assert(pages.flatten() == pages.first() + rest.flatten());
    if i == 0 {
        assert(pages.take(0) =~= Seq::<Seq<char>>::empty());
        assert(pages.take(0).flatten() =~= Seq::<char>::empty());
        assert(pages.flatten().subrange(0, pages[0].len() as int) =~= pages[0]);
    } else {
        lemma_every_page_in_text(rest, i - 1);
        let t = pages.take(i);
        assert(t.first() == pages[0]);
        assert(t.drop_first() =~= rest.take(i - 1));
        assert(t.flatten() == t.first() + t.drop_first().flatten());
        let off = page_offset(rest, i - 1);
        assert(page_offset(pages, i) == pages[0].len() + off);
        assert(rest[i - 1] == pages[i]);
        assert(pages.flatten().subrange(page_offset(pages, i), page_offset(pages, i) + pages[i].len())
            =~= rest.flatten().subrange(off, off + pages[i].len()));
    }
}

/// The text of a document is as long as the texts of all its pages together.
pub proof fn lemma_text_length_of_pages(pages: Seq<Seq<char>>)
    ensures
        pages.flatten().len() == page_offset(pages, pages.len() as int),
{
    assert(pages.take(pages.len() as int) =~= pages);
}

/// Parses a PDF document from memory with `lopdf::Document::load_mem` and
/// extracts the text of all its pages, in page order, with
/// `Document::extract_text` over every page number `Document::get_pages` lists.
/// That text is the page texts one after the other (`extract_text` joins the
/// text of each page in the order given, and fails when any page fails). lopdf
/// is built without its default `rayon` feature, so the objects are read one
/// after the other in the order of the cross-reference table, and the page
/// texts depend on the bytes alone; they are named by `pdf_page_texts`, not
/// stated.
#[verifier::external_body]
fn extract_pdf_text(bytes: &[u8]) -> (r: Option<String>)
    ensures
        match r {
            Some(text) => pdf_page_texts(bytes@) matches Some(pages) && text@ == pages.flatten(),
            None => pdf_page_texts(bytes@) is None,
        },
{
    match lopdf::Document::load_mem(bytes) {
        Ok(document) => {
            let pages: Vec<u32> = document.get_pages().into_keys().collect();
            document.extract_text(&pages).ok()
        },
        Err(_) => None,
    }
}

/// The spaces that follow a word character are removed from extracted PDF text.
pub open spec fn pdf_cleanup_pattern() -> Seq<char> {
    "\\b "@
}

/// Indexes PDF files.
#[derive(Debug)]
pub struct PdfIndexer;

/// Indexes Word files.
#[derive(Debug)]
pub struct DocxIndexer;

impl PdfIndexer {
    /// Whether the indexer handles files with this extension: only `pdf`.
    pub fn supports_extension(&self, extension: &str) -> (b: bool)
        ensures
            b == (extension@ == "pdf"@),
    {
        same_text(extension, "pdf")
    }

    /// The extensions the indexer handles: `pdf`.
    pub fn supported_extensions(&self) -> (r: Vec<String>)
        ensures
            r@.len() == 1,
            r@[0]@ == "pdf"@,
    {
        let mut r = Vec::new();
        r.push("pdf".to_owned());
        r
    }

    /// The document for a PDF file whose text, once cleaned up, is `cleaned`:
    /// no name, the cleaned text as body, media type `pdf`, and the file's path.
    /// Fails when the text could not be cleaned up.
    pub fn document_from_text(&self, file_to_process: &FileCandidate, cleaned: Option<String>) -> (r: Result<DocumentSchema, IndexError>)
        ensures
            match cleaned {
                Some(body) => r matches Ok(doc) && doc.name@.len() == 0 && doc.body@ == body@
                    && doc.media_type@ == "pdf"@ && doc.path@ == file_to_process.path@,
                None => r == Err::<DocumentSchema, IndexError>(IndexError::TextCleanup),
            },
    {
        match cleaned {
            Some(body) => Ok(
                DocumentSchema {
                    name: String::new(),
                    body,
                    media_type: "pdf".to_owned(),
                    path: file_to_process.path(),
                },
            ),
            None => Err(IndexError::TextCleanup),
        }
    }

    /// Indexes a PDF file from the text extracted from its pages: the spaces that
    /// follow a word character are removed from the text, which becomes the body.
    pub fn index_text(&self, file_to_process: &FileCandidate, text: &str) -> (r: Result<DocumentSchema, IndexError>)
        ensures
            r is Ok,
            match regex_replace_all(pdf_cleanup_pattern(), text@, ""@) {
                Some(body) => r matches Ok(doc) && doc.name@.len() == 0 && doc.body@ == body
                    && doc.media_type@ == "pdf"@ && doc.path@ == file_to_process.path@,
                None => r == Err::<DocumentSchema, IndexError>(IndexError::TextCleanup),
            },
    {
        let cleaned = replace_all_matches("\\b ", text, "");
        self.document_from_text(file_to_process, cleaned)
    }

    /// Indexes a PDF file: the text of its pages is extracted from its contents,
    /// and indexed as [`PdfIndexer::index_text`] does. Fails when no text can be
    /// extracted.
    pub fn index_file(&self, file_to_process: &FileCandidate) -> (r: Result<DocumentSchema, IndexError>)
        ensures
            outcome_view(r) == pdf_outcome(*file_to_process),
            pdf_text(file_to_process.contents@) is Some <==> r is Ok,
    {
        match extract_pdf_text(file_to_process.contents.as_slice()) {
            Some(text) => {
                let r = self.index_text(file_to_process, text.as_str());
                proof {
                    if r is Ok {
                        assert(r->Ok_0.name@ =~= seq![]);
                    }
                }
                r
            },
            None => Err(IndexError::TextExtraction),
        }
    }
}

/// What indexing a PDF file gives: no name, the text of its pages with the spaces
/// that follow a word character removed, media type `pdf`, and the file's path;
/// or the reason it failed.
pub open spec fn pdf_outcome(file: FileCandidate) -> Result<DocView, IndexError> {
    match pdf_text(file.contents@) {
        None => Err(IndexError::TextExtraction),
        Some(text) => match regex_replace_all(pdf_cleanup_pattern(), text, ""@) {
            Some(body) => Ok(DocView { name: seq![], body, media_type: "pdf"@, path: file.path@ }),
            None => Err(IndexError::TextCleanup),
        },
    }
}

/// What indexing a Word file gives: no name, no body, media type `docx`, and the
/// file's path.
pub open spec fn docx_outcome(file: FileCandidate) -> Result<DocView, IndexError> {
    Ok(DocView { name: seq![], body: seq![], media_type: "docx"@, path: file.path@ })
}

impl DocxIndexer {
    /// Whether the indexer handles files with this extension: only `docx`.
    pub fn supports_extension(&self, extension: &str) -> (b: bool)
        ensures
            b == (extension@ == "docx"@),
    {
        same_text(extension, "docx")
    }

    /// The extensions the indexer handles: `docx`.
    pub fn supported_extensions(&self) -> (r: Vec<String>)
        ensures
            r@.len() == 1,
            r@[0]@ == "docx"@,
    {
        let mut r = Vec::new();
        r.push("docx".to_owned());
        r
    }

    /// Indexes a Word file: its contents are not read; the document has no name
    /// and no body, media type `docx`, and the file's path.
    pub fn index_file(&self, file_to_process: &FileCandidate) -> (r: Result<DocumentSchema, IndexError>)
        ensures
            outcome_view(r) == docx_outcome(*file_to_process),
    {
        let doc = DocumentSchema {
            name: String::new(),
            body: String::new(),
            media_type: "docx".to_owned(),
            path: file_to_process.path(),
        };
        proof {
            assert(doc.name@ =~= seq![]);
            assert(doc.body@ =~= seq![]);
        }
        Ok(doc)
    }
}

/// The indexers an analyzer can hold.
#[derive(Debug, Clone, Copy, PartialEq, Eq)]
pub enum IndexerKind {
    Pdf,
    Docx,
}

/// The one extension an indexer handles.
pub open spec fn kind_extension(kind: IndexerKind) -> Seq<char> {
    match kind {
        IndexerKind::Pdf => "pdf"@,
        IndexerKind::Docx => "docx"@,
    }
}

/// What an indexer gives for a file.
pub open spec fn kind_outcome(kind: IndexerKind, file: FileCandidate) -> Result<DocView, IndexError> {
    match kind {
        IndexerKind::Pdf => pdf_outcome(file),
        IndexerKind::Docx => docx_outcome(file),
    }
}

impl IndexerKind {
    /// Whether the indexer handles files with this extension.
    pub fn supports_extension(&self, extension: &str) -> (b: bool)
        ensures
            b == (extension@ == kind_extension(*self)),
    {
        match self {
            IndexerKind::Pdf => PdfIndexer.supports_extension(extension),
            IndexerKind::Docx => DocxIndexer.supports_extension(extension),
        }
    }

    /// The extensions the indexer handles: its one extension.
    pub fn supported_extensions(&self) -> (r: Vec<String>)
        ensures
            r@.len() == 1,
            r@[0]@ == kind_extension(*self),
    {
        match self {
            IndexerKind::Pdf => PdfIndexer.supported_extensions(),
            IndexerKind::Docx => DocxIndexer.supported_extensions(),
        }
    }

    /// Indexes a file with this indexer.
    pub fn index_file(&self, file_to_process: &FileCandidate) -> (r: Result<DocumentSchema, IndexError>)
        ensures
            outcome_view(r) == kind_outcome(*self, *file_to_process),
    {
        match self {
            IndexerKind::Pdf => PdfIndexer.index_file(file_to_process),
            IndexerKind::Docx => DocxIndexer.index_file(file_to_process),
        }
    }
}

/// The documents the indexers extract from `file`, whose extension is `ext`: in
/// the order of the indexers, one from each indexer that handles `ext` and
/// succeeds.
pub open spec fn analysis(kinds: Seq<IndexerKind>, ext: Seq<char>, file: FileCandidate) -> Seq<DocView>
    decreases kinds.len(),
{
    if kinds.len() == 0 {
        seq![]
    } else {
        let rest = analysis(kinds.drop_last(), ext, file);
        if ext == kind_extension(kinds.last()) {
            match kind_outcome(kinds.last(), file) {
                Ok(doc) => rest.push(doc),
                Err(_) => rest,
            }
        } else {
            rest
        }
    }
}

/// Some indexer handles `ext`.
pub open spec fn handled_by_some(kinds: Seq<IndexerKind>, ext: Seq<char>) -> bool {
    exists|i: int| 0 <= i < kinds.len() && #[trigger] kind_extension(kinds[i]) == ext
}

/// The documents, by their views.
pub open spec fn doc_views(docs: Seq<DocumentSchema>) -> Seq<DocView> {
    docs.map_values(|d: DocumentSchema| d@)
}

/// A file whose extension no indexer handles yields no document: analysing it
/// gives nothing, so skipping the files outside the supported extensions loses
/// nothing.
pub proof fn lemma_unhandled_extension_yields_nothing(kinds: Seq<IndexerKind>, ext: Seq<char>, file: FileCandidate)
    requires
        !handled_by_some(kinds, ext),
    ensures
        analysis(kinds, ext, file) == Seq::<DocView>::empty(),
    decreases kinds.len(),
{
    if kinds.len() > 0 {
        let rest = kinds.drop_last();
        assert(!handled_by_some(rest, ext)) by {
            if handled_by_some(rest, ext) {
                let i = choose|i: int| 0 <= i < rest.len() && #[trigger] kind_extension(rest[i]) == ext;
                assert(kind_extension(kinds[i]) == ext);
            }
        }
        lemma_unhandled_extension_yields_nothing(rest, ext, file);
        assert(kind_extension(kinds[kinds.len() - 1]) != ext);
    }
}

/// The paths, as character sequences.
pub open spec fn texts_of_paths(paths: Seq<String>) -> Seq<Seq<char>> {
    paths.map_values(|p: String| p@)
}

/// The file a path names is to be indexed: it has an extension that some
/// indexer handles.
pub open spec fn is_indexable_path(kinds: Seq<IndexerKind>, path: Seq<char>) -> bool {
    match path_extension_of(path) {
        Some(ext) => handled_by_some(kinds, ext),
        None => false,
    }
}

/// The paths of the files to index, in order.
pub open spec fn indexable_of(kinds: Seq<IndexerKind>, paths: Seq<Seq<char>>) -> Seq<Seq<char>>
    decreases paths.len(),
{
    if paths.len() == 0 {
        seq![]
    } else {
        let r = indexable_of(kinds, paths.drop_last());
        if is_indexable_path(kinds, paths.last()) {
            r.push(paths.last())
        } else {
            r
        }
    }
}

/// The documents of the files, one file after the other, each analysed with the
/// extension its path gives.
pub open spec fn analyses(kinds: Seq<IndexerKind>, files: Seq<FileCandidate>) -> Seq<DocView>
    decreases files.len(),
{
    if files.len() == 0 {
        seq![]
    } else {
        analyses(kinds, files.drop_last()) + analysis(
            kinds,
            path_extension_of(files.last().path@)->0,
            files.last(),
        )
    }
}

/// All the indexers, and the extensions they handle, each once.
#[derive(Debug)]
pub struct Analyzer {
    indexers: Vec<IndexerKind>,
    supported_extensions: Vec<String>,
}

impl Analyzer {
    #[verifier::type_invariant]
    spec fn consistent(self) -> bool {
        &&& distinct_texts(self.supported_extensions@)
        &&& forall|ext: Seq<char>|
            holds_text(self.supported_extensions@, ext) <==> handled_by_some(self.indexers@, ext)
    }

    /// The indexers, in the order in which they are asked.
    pub closed spec fn indexers(self) -> Seq<IndexerKind> {
        self.indexers@
    }

    /// An analyzer with the given indexers.
    pub fn new(indexers: Vec<IndexerKind>) -> (a: Analyzer)
        ensures
            a.indexers() == indexers@,
    {
        let mut lists: Vec<Vec<String>> = Vec::new();
        let mut i: usize = 0;
        while i < indexers.len()
            invariant
                i <= indexers@.len(),
                lists@.len() == i,
                forall|j: int|
                    0 <= j < i ==> #[trigger] lists@[j]@.len() == 1 && lists@[j]@[0]@ == kind_extension(
                        indexers@[j],
                    ),
            decreases indexers@.len() - i,
        {
            lists.push(indexers[i].supported_extensions());
            i = i + 1;
        }
        let supported_extensions = union_extensions(&lists);
        proof {
            assert forall|ext: Seq<char>| listed_by_some(lists@, ext) <==> handled_by_some(indexers@, ext) by {
                if listed_by_some(lists@, ext) {
                    let (a, b) = choose|a: int, b: int|
                        0 <= a < lists@.len() && 0 <= b < lists@[a]@.len() && #[trigger] lists@[a]@[b]@ == ext;
                    assert(lists@[a]@.len() == 1);
                    assert(kind_extension(indexers@[a]) == ext);
                }
                if handled_by_some(indexers@, ext) {
                    let a = choose|a: int| 0 <= a < indexers@.len() && #[trigger] kind_extension(indexers@[a]) == ext;
                    assert(lists@[a]@.len() == 1);
                    assert(lists@[a]@[0]@ == ext);
                }
            }
        }
        Analyzer { indexers, supported_extensions }
    }

    /// The extensions some indexer handles, each once.
    pub fn supported_extensions(&self) -> (r: &Vec<String>)
        ensures
            distinct_texts(r@),
            forall|ext: Seq<char>| holds_text(r@, ext) <==> handled_by_some(self.indexers(), ext),
    {
        proof {
            use_type_invariant(self);
        }
        &self.supported_extensions
    }

    /// The documents the indexers extract from a file whose extension is
    /// `extension`: each indexer that handles the extension is asked in turn, and
    /// the documents of those that succeed are kept, in order.
    pub fn analyze(&self, file_to_process: &FileCandidate, extension: &str) -> (docs: Vec<DocumentSchema>)
        ensures
            doc_views(docs@) == analysis(self.indexers(), extension@, *file_to_process),
    {
        let mut docs: Vec<DocumentSchema> = Vec::new();
        let mut i: usize = 0;
        while i < self.indexers.len()
            invariant
                i <= self.indexers@.len(),
                doc_views(docs@) == analysis(self.indexers@.take(i as int), extension@, *file_to_process),
            decreases self.indexers@.len() - i,
        {
            let kind = &self.indexers[i];
            proof {
                assert(self.indexers@.take(i + 1).drop_last() =~= self.indexers@.take(i as int));
                assert(self.indexers@.take(i + 1).last() == self.indexers@[i as int]);
            }
            if kind.supports_extension(extension) {
                match kind.index_file(file_to_process) {
                    Ok(doc) => {
                        let ghost before = docs@;
                        docs.push(doc);
                        proof {
                            assert(doc_views(docs@) =~= doc_views(before).push(docs@[before.len() as int]@));
                        }
                    },
                    Err(_) => {},
                }
            }
            i = i + 1;
        }
        proof {
            assert(self.indexers@.take(self.indexers@.len() as int) =~= self.indexers@);
        }
        docs
    }

    /// The paths, among `paths`, of the files to index: those whose extension some
    /// indexer handles, in order.
    pub fn indexable_paths(&self, paths: &Vec<String>) -> (r: Vec<String>)
        ensures
            texts_of_paths(r@) == indexable_of(self.indexers(), texts_of_paths(paths@)),
    {
        let mut r: Vec<String> = Vec::new();
        let mut i: usize = 0;
        let ghost all = texts_of_paths(paths@);
        let supported = self.supported_extensions();
        proof {
            assert(all.take(0) =~= seq![]);
            assert(texts_of_paths(r@) =~= seq![]);
        }
        while i < paths.len()
            invariant
                i <= paths@.len(),
                all == texts_of_paths(paths@),
                forall|ext: Seq<char>| holds_text(supported@, ext) <==> handled_by_some(self.indexers(), ext),
                texts_of_paths(r@) == indexable_of(self.indexers(), all.take(i as int)),
            decreases paths@.len() - i,
        {
            let path = &paths[i];
            proof {
                assert(all.take(i + 1).drop_last() =~= all.take(i as int));
                assert(all.take(i + 1).last() == path@);
            }
            let keep = match path_extension(path.as_str()) {
                Some(e) => find_text(supported, &e),
                None => false,
            };
            if keep {
                let ghost before = r@;
                r.push(path.clone());
                proof {
                    assert(texts_of_paths(r@) =~= texts_of_paths(before).push(path@));
                }
            }
            i = i + 1;
        }
        proof {
            assert(all.take(paths@.len() as int) =~= all);
        }
        r
    }

    /// The documents of all the files, one file after the other, each analysed
    /// with the extension its path gives; every file must have an extension.
    pub fn analyze_all(&self, files: &Vec<FileCandidate>) -> (docs: Vec<DocumentSchema>)
        requires
            forall|k: int| 0 <= k < files@.len() ==> path_extension_of(#[trigger] files@[k].path@) is Some,
        ensures
            doc_views(docs@) == analyses(self.indexers(), files@),
    {
        let mut docs: Vec<DocumentSchema> = Vec::new();
        let mut i: usize = 0;
        proof {
            assert(files@.take(0) =~= seq![]);
            assert(doc_views(docs@) =~= seq![]);
        }
        while i < files.len()
            invariant
                i <= files@.len(),
                forall|k: int| 0 <= k < files@.len() ==> path_extension_of(#[trigger] files@[k].path@) is Some,
                doc_views(docs@) == analyses(self.indexers(), files@.take(i as int)),
            decreases files@.len() - i,
        {
            let file = &files[i];
            proof {
                assert(files@.take(i + 1).drop_last() =~= files@.take(i as int));
                assert(files@.take(i + 1).last() == *file);
                assert(path_extension_of(files@[i as int].path@) is Some);
            }
            match file.extension() {
                Some(ext) => {
                    let mut found = self.analyze(file, ext.as_str());
                    let ghost before = docs@;
                    let ghost more = found@;
                    docs.append(&mut found);
                    proof {
                        assert(doc_views(docs@) =~= doc_views(before) + doc_views(more));
                    }
                },
                None => {
                    proof {
                        assert(false);
                    }
                },
            }
            i = i + 1;
        }
        proof {
            assert(files@.take(files@.len() as int) =~= files@);
        }
        docs
    }
}

impl Default for Analyzer {
    /// The analyzer of PDF files.
    fn default() -> (a: Analyzer)
        ensures
            a.indexers() == seq![IndexerKind::Pdf],
    {
        let mut indexers = Vec::new();
        indexers.push(IndexerKind::Pdf);
        Analyzer::new(indexers)
    }
}

/// Some indexer's list holds `ext`.
pub open spec fn listed_by_some(lists: Seq<Vec<String>>, ext: Seq<char>) -> bool {
    exists|i: int, j: int| 0 <= i < lists.len() && 0 <= j < lists[i]@.len() && #[trigger] lists[i]@[j]@ == ext
}

/// `ext` is one of the texts of `s`.
pub open spec fn holds_text(s: Seq<String>, ext: Seq<char>) -> bool {
    exists|k: int| 0 <= k < s.len() && #[trigger] s[k]@ == ext
}

/// No text occurs twice in `s`.
pub open spec fn distinct_texts(s: Seq<String>) -> bool {
    forall|a: int, b: int| 0 <= a < b < s.len() ==> #[trigger] s[a]@ != #[trigger] s[b]@
}

/// Whether `ext` is one of the texts of `v`.
fn find_text(v: &Vec<String>, ext: &String) -> (b: bool)
    ensures
        b == holds_text(v@, ext@),
{
    let mut k: usize = 0;
    while k < v.len()
        invariant
            k <= v@.len(),
            forall|m: int| 0 <= m < k ==> #[trigger] v@[m]@ != ext@,
        decreases v@.len() - k,
    {
        if v[k] == *ext {
            return true;
        }
        k = k + 1;
    }
    false
}

/// The extensions that some indexer handles, each once: the union of the
/// indexers' lists of supported extensions.
pub fn union_extensions(lists: &Vec<Vec<String>>) -> (r: Vec<String>)
    ensures
        distinct_texts(r@),
        forall|ext: Seq<char>| holds_text(r@, ext) <==> listed_by_some(lists@, ext),
{
    let mut r: Vec<String> = Vec::new();
    let mut i: usize = 0;
    while i < lists.len()
        invariant
            i <= lists@.len(),
            distinct_texts(r@),
            forall|ext: Seq<char>|
                holds_text(r@, ext) <==> listed_by_some(lists@.take(i as int), ext),
        decreases lists@.len() - i,
    {
        let list = &lists[i];
        let mut j: usize = 0;
        while j < list.len()
            invariant
                i < lists@.len(),
                list == lists@[i as int],
                j <= list@.len(),
                distinct_texts(r@),
                forall|ext: Seq<char>|
                    holds_text(r@, ext) <==> (listed_by_some(lists@.take(i as int), ext) || exists|m: int|
                        0 <= m < j && #[trigger] list@[m]@ == ext),
            decreases list@.len() - j,
        {
            let ext = &list[j];
            if !find_text(&r, ext) {
                let ghost before = r@;
                r.push(ext.clone());
                proof {
                    assert forall|a: int, b: int| 0 <= a < b < r@.len() implies #[trigger] r@[a]@
                        != #[trigger] r@[b]@ by {
                        if b == before.len() {
                            assert(r@[a] == before[a]);
                        } else {
                            assert(r@[a] == before[a]);
                            assert(r@[b] == before[b]);
                        }
                    }
                    assert forall|e: Seq<char>| holds_text(r@, e) <==> (listed_by_some(
                        lists@.take(i as int),
                        e,
                    ) || exists|m: int| 0 <= m < j + 1 && #[trigger] list@[m]@ == e) by {
                        if holds_text(r@, e) {
                            let k = choose|k: int| 0 <= k < r@.len() && #[trigger] r@[k]@ == e;
                            if k < before.len() {
                                assert(before[k]@ == e);
                                assert(holds_text(before, e));
                                if !listed_by_some(lists@.take(i as int), e) {
                                    let m = choose|m: int| 0 <= m < j && #[trigger] list@[m]@ == e;
                                    assert(list@[m]@ == e);
                                }
                            } else {
                                assert(list@[j as int]@ == e);
                            }
                        }
                        if exists|m: int| 0 <= m < j + 1 && #[trigger] list@[m]@ == e {
                            let m = choose|m: int| 0 <= m < j + 1 && #[trigger] list@[m]@ == e;
                            if m == j {
                                assert(r@[before.len() as int]@ == e);
                            } else {
                                assert(holds_text(before, e));
                                let k = choose|k: int| 0 <= k < before.len() && #[trigger] before[k]@ == e;
                                assert(r@[k]@ == e);
                            }
                        }
                        if listed_by_some(lists@.take(i as int), e) {
                            assert(holds_text(before, e));
                            let k = choose|k: int| 0 <= k < before.len() && #[trigger] before[k]@ == e;
                            assert(r@[k]@ == e);
                        }
                    }
                }
            } else {
                proof {
                    assert forall|e: Seq<char>| holds_text(r@, e) <==> (listed_by_some(
                        lists@.take(i as int),
                        e,
                    ) || exists|m: int| 0 <= m < j + 1 && #[trigger] list@[m]@ == e) by {
                        if holds_text(r@, e) && !listed_by_some(lists@.take(i as int), e) {
                            let m = choose|m: int| 0 <= m < j && #[trigger] list@[m]@ == e;
                            assert(list@[m]@ == e);
                        }
                        if exists|m: int| 0 <= m < j + 1 && #[trigger] list@[m]@ == e {
                            let m = choose|m: int| 0 <= m < j + 1 && #[trigger] list@[m]@ == e;
                            if m < j {
                                assert(list@[m]@ == e);
                                assert(exists|m2: int| 0 <= m2 < j && #[trigger] list@[m2]@ == e);
                            } else {
                                assert(ext@ == e);
                                assert(holds_text(r@, e));
                            }
                        }
                    }
                }
            }
            j = j + 1;
        }
        proof {
            assert forall|e: Seq<char>| holds_text(r@, e) <==> listed_by_some(lists@.take(i + 1), e) by {
                let t = lists@.take(i + 1);
                if listed_by_some(t, e) {
                    let (a, b) = choose|a: int, b: int|
                        0 <= a < t.len() && 0 <= b < t[a]@.len() && #[trigger] t[a]@[b]@ == e;
                    if a < i {
                        assert(lists@.take(i as int)[a] == t[a]);
                        assert(listed_by_some(lists@.take(i as int), e));
                    } else {
                        assert(list@[b]@ == e);
                    }
                }
                if listed_by_some(lists@.take(i as int), e) {
                    let (a, b) = choose|a: int, b: int|
                        0 <= a < i && 0 <= b < lists@.take(i as int)[a]@.len()
                            && #[trigger] lists@.take(i as int)[a]@[b]@ == e;
                    assert(t[a] == lists@.take(i as int)[a]);
                    assert(t[a]@[b]@ == e);
                }
                if exists|m: int| 0 <= m < list@.len() && #[trigger] list@[m]@ == e {
                    let m = choose|m: int| 0 <= m < list@.len() && #[trigger] list@[m]@ == e;
                    assert(t[i as int] == list);
                    assert(t[i as int]@[m]@ == e);
                }
            }
        }
        i = i + 1;
    }
    proof {
        assert(lists@.take(lists@.len() as int) =~= lists@);
    }
    r
}

/// Some supported extension is the extension of `file_name`.
pub open spec fn has_supported_extension(file_name: Seq<char>, supported: Seq<String>) -> bool {
    exists|i: int| 0 <= i < supported.len() && extension_of(file_name) == Some(#[trigger] supported[i]@)
}

/// Whether a file is to be indexed: it has an extension, and some indexer
/// supports it.
pub fn is_indexable(file_name: &str, supported_extensions: &Vec<String>) -> (b: bool)
    ensures
        b == has_supported_extension(file_name@, supported_extensions@),
{
    let mut i: usize = 0;
    while i < supported_extensions.len()
        invariant
            i <= supported_extensions@.len(),
            forall|j: int|
                0 <= j < i ==> extension_of(file_name@) != Some(#[trigger] supported_extensions@[j]@),
        decreases supported_extensions@.len() - i,
    {
        if has_extension(file_name, supported_extensions[i].as_str()) {
            return true;
        }
        i = i + 1;
    }
    false
}

/// Whether a directory entry is hidden: its name is readable and starts with a
/// dot. An entry whose name is not valid Unicode (`None`) is not hidden.
pub fn is_hidden(file_name: Option<&str>) -> (b: bool)
    ensures
        b == match file_name {
            Some(name) => name@.len() > 0 && name@[0] == '.',
            None => false,
        },
{
    match file_name {
        Some(name) => name.unicode_len() > 0 && name.get_char(0) == '.',
        None => false,
    }
}

} // verus!
