//! Sorting the files of an unpacked source bundle by role, and choosing the
//! entry file among the markup files.

use crate::downloader::PaperData;
use crate::paths::{extension_of, file_name_of, joined_path, path_views, FilePath, FilePathView};
use crate::text::{
    contains, contains_chars, copy_text, eq_ignore_ascii_case, same_chars, same_ignoring_ascii_case,
    text_view, to_chars,
};
use vstd::prelude::*;

verus! {

/// Text that marks a file as the root of a document.
pub const DOCUMENT_CLASS: &'static str = "\\documentclass";

/// Older form of the root declaration.
pub const DOCUMENT_STYLE: &'static str = "\\documentstyle";

/// What a file of the bundle is used for.
#[derive(Debug, Clone, Copy, PartialEq, Eq, Structural)]
pub enum FileRole {
    Markup,
    Bibliography,
    Image,
}

/// Why the files of a bundle could not be listed.
#[derive(Debug, Clone, Copy, PartialEq, Eq, Structural)]
pub enum ExtractError {
    /// The directory to scan does not exist.
    InputNotFound,
    /// The archive is neither a gzipped tar file nor a zip file.
    UnsupportedFormat,
}

/// The kinds of archive that can be unpacked.
#[derive(Debug, Clone, Copy, PartialEq, Eq, Structural)]
pub enum ArchiveKind {
    /// A gzipped tar file.
    TarGz,
    /// A zip file.
    Zip,
}

/// How to unpack an archive: what kind it is, and into which directory.
#[derive(Debug)]
pub struct ExtractionPlan {
    pub kind: ArchiveKind,
    pub extract_dir: FilePath,
}

/// The name of the directory, inside the directory of a paper, into which
/// its archive is unpacked.
pub const EXTRACTED_DIR: &'static str = "extracted";

/// The kind of the archive at `path`, by its extension, matched exactly.
pub open spec fn archive_kind_of(path: FilePathView) -> Option<ArchiveKind> {
    match extension_of(path) {
        Some(ext) => if ext == "gz"@ {
            Some(ArchiveKind::TarGz)
        } else if ext == "zip"@ {
            Some(ArchiveKind::Zip)
        } else {
            None
        },
        None => None,
    }
}

/// Whether the file at `path` is a PDF file: its extension is `pdf` in any
/// case.
pub open spec fn is_pdf_path(path: FilePathView) -> bool {
    match extension_of(path) {
        Some(ext) => eq_ignore_ascii_case(ext, "pdf"@),
        None => false,
    }
}

/// One regular file found in the unpacked bundle. `text` is its content if it
/// was read and is valid text; it is only looked at for markup files.
#[derive(Debug)]
pub struct SourceFile {
    pub path: FilePath,
    pub text: Option<String>,
}

/// A file as a mathematical value.
pub struct SourceFileView {
    pub path: FilePathView,
    pub text: Option<Seq<char>>,
}

impl View for SourceFile {
    type V = SourceFileView;

    open spec fn view(&self) -> SourceFileView {
        SourceFileView { path: self.path@, text: text_view(self.text) }
    }
}

/// The files held by a vector, as mathematical values.
pub open spec fn source_views(v: Seq<SourceFile>) -> Seq<SourceFileView> {
    Seq::new(v.len(), |i: int| v[i]@)
}

/// A file that may be absent, as a mathematical value.
pub open spec fn source_view(f: Option<SourceFile>) -> Option<SourceFileView> {
    match f {
        Some(f) => Some(f@),
        None => None,
    }
}

impl SourceFile {
    /// The record of the file at `path` with content `text`.
    pub fn new(path: FilePath, text: Option<String>) -> (r: SourceFile)
        ensures
            r@.path == path@,
            r@.text == text_view(text),
    {
        SourceFile { path, text }
    }

    /// A copy of this file record.
    pub fn duplicate(&self) -> (r: SourceFile)
        ensures
            r@ == self@,
    {
        SourceFile { path: self.path.duplicate(), text: copy_text(&self.text) }
    }
}

/// The files of a bundle sorted by role, each list in the order in which the
/// files were found.
#[derive(Debug)]
pub struct ExtractedContent {
    pub tex_files: Vec<SourceFile>,
    pub bib_files: Vec<FilePath>,
    pub image_files: Vec<FilePath>,
    pub main_tex_file: Option<SourceFile>,
    pub extracted_dir: FilePath,
}

/// The sorted files of a bundle as a mathematical value.
pub struct ExtractedContentView {
    pub tex_files: Seq<SourceFileView>,
    pub bib_files: Seq<FilePathView>,
    pub image_files: Seq<FilePathView>,
    pub main_tex_file: Option<SourceFileView>,
    pub extracted_dir: FilePathView,
}

impl View for ExtractedContent {
    type V = ExtractedContentView;

    open spec fn view(&self) -> ExtractedContentView {
        ExtractedContentView {
            tex_files: source_views(self.tex_files@),
            bib_files: path_views(self.bib_files@),
            image_files: path_views(self.image_files@),
            main_tex_file: source_view(self.main_tex_file),
            extracted_dir: self.extracted_dir@,
        }
    }
}

/// Whether an extension is that of an image, whatever the case of its letters.
pub open spec fn is_image_extension(ext: Seq<char>) -> bool {
    ||| eq_ignore_ascii_case(ext, "png"@)
    ||| eq_ignore_ascii_case(ext, "jpg"@)
    ||| eq_ignore_ascii_case(ext, "jpeg"@)
    ||| eq_ignore_ascii_case(ext, "pdf"@)
    ||| eq_ignore_ascii_case(ext, "eps"@)
    ||| eq_ignore_ascii_case(ext, "gif"@)
}

/// The role that an extension gives a file. Markup and bibliography
/// extensions are matched exactly, image extensions in any case.
pub open spec fn role_of_extension(ext: Seq<char>) -> Option<FileRole> {
    if ext == "tex"@ {
        Some(FileRole::Markup)
    } else if ext == "bib"@ {
        Some(FileRole::Bibliography)
    } else if is_image_extension(ext) {
        Some(FileRole::Image)
    } else {
        None
    }
}

/// The role of a file, decided by the extension of its name alone.
pub open spec fn role_of(p: FilePathView) -> Option<FileRole> {
    match extension_of(p) {
        Some(ext) => role_of_extension(ext),
        None => None,
    }
}

/// The files of `files` that have role `role`, in their order.
pub open spec fn with_role(files: Seq<SourceFileView>, role: FileRole) -> Seq<SourceFileView>
    decreases files.len(),
{
    if files.len() == 0 {
        Seq::empty()
    } else if role_of(files.last().path) == Some(role) {
        with_role(files.drop_last(), role).push(files.last())
    } else {
        with_role(files.drop_last(), role)
    }
}

/// The paths of a sequence of files.
pub open spec fn paths_of(files: Seq<SourceFileView>) -> Seq<FilePathView> {
    Seq::new(files.len(), |i: int| files[i].path)
}

/// Whether a file was read and its text holds a root declaration.
pub open spec fn declares_root(f: SourceFileView) -> bool {
    match f.text {
        Some(t) => contains(t, DOCUMENT_CLASS@) || contains(t, DOCUMENT_STYLE@),
        None => false,
    }
}

/// Whether a file name is one of the usual names of an entry file, whatever
/// the case of its letters.
pub open spec fn is_entry_name(name: Seq<char>) -> bool {
    ||| eq_ignore_ascii_case(name, "main.tex"@)
    ||| eq_ignore_ascii_case(name, "paper.tex"@)
    ||| eq_ignore_ascii_case(name, "article.tex"@)
    ||| eq_ignore_ascii_case(name, "ms.tex"@)
    ||| eq_ignore_ascii_case(name, "template.tex"@)
}

/// Whether the name of a file is one of the usual names of an entry file.
pub open spec fn has_entry_name(f: SourceFileView) -> bool {
    match file_name_of(f.path) {
        Some(name) => is_entry_name(name),
        None => false,
    }
}

/// The first file that declares a document root.
pub open spec fn first_declaring(files: Seq<SourceFileView>) -> Option<SourceFileView>
    decreases files.len(),
{
    if files.len() == 0 {
        None
    } else if declares_root(files[0]) {
        Some(files[0])
    } else {
        first_declaring(files.drop_first())
    }
}

/// The first file with one of the usual entry names.
pub open spec fn first_named(files: Seq<SourceFileView>) -> Option<SourceFileView>
    decreases files.len(),
{
    if files.len() == 0 {
        None
    } else if has_entry_name(files[0]) {
        Some(files[0])
    } else {
        first_named(files.drop_first())
    }
}

/// How the entry file of a bundle was found.
#[derive(Debug)]
pub enum EntryChoice {
    /// The first markup file whose text declares a document root.
    ByContent(SourceFile),
    /// No file declares a root; the first markup file with a usual entry name.
    ByName(SourceFile),
    /// No markup file stands out: all are part of the document alike.
    NoEntry,
}

/// A choice of entry file as a mathematical value.
pub enum EntryChoiceView {
    ByContent(SourceFileView),
    ByName(SourceFileView),
    NoEntry,
}

impl View for EntryChoice {
    type V = EntryChoiceView;

    open spec fn view(&self) -> EntryChoiceView {
        match self {
            EntryChoice::ByContent(f) => EntryChoiceView::ByContent(f@),
            EntryChoice::ByName(f) => EntryChoiceView::ByName(f@),
            EntryChoice::NoEntry => EntryChoiceView::NoEntry,
        }
    }
}

/// The entry file among `files`: by content first, by name second.
pub open spec fn entry_choice(files: Seq<SourceFileView>) -> EntryChoiceView {
    match first_declaring(files) {
        Some(f) => EntryChoiceView::ByContent(f),
        None => match first_named(files) {
            Some(f) => EntryChoiceView::ByName(f),
            None => EntryChoiceView::NoEntry,
        },
    }
}

/// The file that a choice names, if it names one.
pub open spec fn chosen(choice: EntryChoiceView) -> Option<SourceFileView> {
    match choice {
        EntryChoiceView::ByContent(f) => Some(f),
        EntryChoiceView::ByName(f) => Some(f),
        EntryChoiceView::NoEntry => None,
    }
}

/// The entry file among `files`, if one stands out.
pub open spec fn select_entry(files: Seq<SourceFileView>) -> Option<SourceFileView> {
    chosen(entry_choice(files))
}

impl EntryChoice {
    /// The file that was chosen, if any.
    pub fn into_file(self) -> (r: Option<SourceFile>)
        ensures
            source_view(r) == chosen(self@),
    {
        match self {
            EntryChoice::ByContent(f) => Some(f),
            EntryChoice::ByName(f) => Some(f),
            EntryChoice::NoEntry => None,
        }
    }
}

/// Sorts the files of an unpacked bundle.
#[derive(Debug)]
pub struct ArchiveExtractor;

impl ArchiveExtractor {
    /// An extractor; it holds no state.
    pub fn new() -> (r: ArchiveExtractor)
        ensures
            r == ArchiveExtractor,
    {
        ArchiveExtractor
    }

    /// Decides how to unpack the archive of a downloaded bundle. Fails for
    /// an archive that is neither a gzipped tar file nor a zip file.
    pub fn plan_extraction(&self, paper_data: &PaperData) -> (r: Result<
        ExtractionPlan,
        ExtractError,
    >)
        ensures
            match archive_kind_of(paper_data.archive_path@) {
                Some(kind) => r is Ok && r->Ok_0.kind == kind && r->Ok_0.extract_dir@
                    == joined_path(paper_data.output_dir@, EXTRACTED_DIR@),
                None => r == Err::<ExtractionPlan, ExtractError>(ExtractError::UnsupportedFormat),
            },
    {
        let kind = match paper_data.archive_path.extension() {
            Some(ext) => {
                if same_chars(&ext, &to_chars("gz")) {
                    ArchiveKind::TarGz
                } else if same_chars(&ext, &to_chars("zip")) {
                    ArchiveKind::Zip
                } else {
                    return Err(ExtractError::UnsupportedFormat);
                }
            },
            None => {
                return Err(ExtractError::UnsupportedFormat);
            },
        };
        Ok(ExtractionPlan { kind, extract_dir: paper_data.output_dir.join(EXTRACTED_DIR) })
    }

    /// Whether the file at `path` is a PDF file.
    pub fn is_pdf(path: &FilePath) -> (r: bool)
        ensures
            r == is_pdf_path(path@),
    {
        match path.extension() {
            Some(ext) => same_ignoring_ascii_case(&ext, &to_chars("pdf")),
            None => false,
        }
    }

    /// Whether `ext` is an image extension.
    pub fn is_image(ext: &Vec<char>) -> (r: bool)
        ensures
            r == is_image_extension(ext@),
    {
        same_ignoring_ascii_case(ext, &to_chars("png")) || same_ignoring_ascii_case(
            ext,
            &to_chars("jpg"),
        ) || same_ignoring_ascii_case(ext, &to_chars("jpeg")) || same_ignoring_ascii_case(
            ext,
            &to_chars("pdf"),
        ) || same_ignoring_ascii_case(ext, &to_chars("eps")) || same_ignoring_ascii_case(
            ext,
            &to_chars("gif"),
        )
    }

    /// The role of the file at `path`, by its extension.
    pub fn classify(path: &FilePath) -> (r: Option<FileRole>)
        ensures
            r == role_of(path@),
    {
        match path.extension() {
            Some(ext) => {
                if same_chars(&ext, &to_chars("tex")) {
                    Some(FileRole::Markup)
                } else if same_chars(&ext, &to_chars("bib")) {
                    Some(FileRole::Bibliography)
                } else if Self::is_image(&ext) {
                    Some(FileRole::Image)
                } else {
                    None
                }
            },
            None => None,
        }
    }

    /// Whether the text of `file` was read and declares a document root.
    pub fn has_root_declaration(file: &SourceFile) -> (r: bool)
        ensures
            r == declares_root(file@),
    {
        match &file.text {
            Some(t) => {
                let chars = to_chars(t.as_str());
                contains_chars(&chars, &to_chars(DOCUMENT_CLASS)) || contains_chars(
                    &chars,
                    &to_chars(DOCUMENT_STYLE),
                )
            },
            None => false,
        }
    }

    /// Whether the name of `file` is one of the usual entry names.
    pub fn has_usual_name(file: &SourceFile) -> (r: bool)
        ensures
            r == has_entry_name(file@),
    {
        match file.path.file_name() {
            Some(name) => {
                same_ignoring_ascii_case(&name, &to_chars("main.tex")) || same_ignoring_ascii_case(
                    &name,
                    &to_chars("paper.tex"),
                ) || same_ignoring_ascii_case(&name, &to_chars("article.tex"))
                    || same_ignoring_ascii_case(&name, &to_chars("ms.tex"))
                    || same_ignoring_ascii_case(&name, &to_chars("template.tex"))
            },
            None => false,
        }
    }

    /// Chooses the entry file among the markup files: the first whose text
    /// declares a document root, else the first with a usual entry name.
    pub fn choose_entry(&self, tex_files: &Vec<SourceFile>) -> (r: EntryChoice)
        ensures
            r@ == entry_choice(source_views(tex_files@)),
    {
        let ghost files = source_views(tex_files@);
        let n = tex_files.len();
        let mut i: usize = 0;
        assert(files.skip(0) == files);
        while i < n
            invariant
                i <= n,
                n == tex_files.len(),
                files == source_views(tex_files@),
                first_declaring(files) == first_declaring(files.skip(i as int)),
            decreases n - i,
        {
            assert(files.skip(i as int)[0] == tex_files@[i as int]@);
            if Self::has_root_declaration(&tex_files[i]) {
                return EntryChoice::ByContent(tex_files[i].duplicate());
            }
            assert(files.skip(i as int).drop_first() == files.skip(i + 1));
            i += 1;
        }
        let mut j: usize = 0;
        while j < n
            invariant
                j <= n,
                n == tex_files.len(),
                files == source_views(tex_files@),
                first_declaring(files) is None,
                first_named(files) == first_named(files.skip(j as int)),
            decreases n - j,
        {
            assert(files.skip(j as int)[0] == tex_files@[j as int]@);
            if Self::has_usual_name(&tex_files[j]) {
                return EntryChoice::ByName(tex_files[j].duplicate());
            }
            assert(files.skip(j as int).drop_first() == files.skip(j + 1));
            j += 1;
        }
        EntryChoice::NoEntry
    }

    /// The entry file among the markup files, if one stands out.
    pub fn find_main_tex_file(&self, tex_files: &Vec<SourceFile>) -> (r: Option<SourceFile>)
        ensures
            source_view(r) == select_entry(source_views(tex_files@)),
    {
        self.choose_entry(tex_files).into_file()
    }

    /// Sorts the regular files found under `extract_dir` by role and chooses
    /// the entry file. `listing` is `None` when the directory does not exist.
    pub fn scan_extracted_files(
        &self,
        extract_dir: FilePath,
        listing: Option<Vec<SourceFile>>,
    ) -> (r: Result<ExtractedContent, ExtractError>)
        ensures
            match listing {
                None => r == Err::<ExtractedContent, ExtractError>(ExtractError::InputNotFound),
                Some(files) => match r {
                    Ok(content) => {
                        &&& scanned(content@, extract_dir@, source_views(files@))
                        &&& entry_is_markup(content@)
                        &&& all_under(source_views(files@), extract_dir@) ==> well_formed(content@)
                    },
                    Err(_) => false,
                },
            },
    {
        let files = match listing {
            Some(files) => files,
            None => {
                return Err(ExtractError::InputNotFound);
            },
        };
        let ghost views = source_views(files@);
        let mut tex_files: Vec<SourceFile> = Vec::new();
        let mut bib_files: Vec<FilePath> = Vec::new();
        let mut image_files: Vec<FilePath> = Vec::new();
        let n = files.len();
        let mut i: usize = 0;
        while i < n
            invariant
                i <= n,
                n == files.len(),
                views == source_views(files@),
                source_views(tex_files@) == with_role(views.take(i as int), FileRole::Markup),
                path_views(bib_files@) == paths_of(
                    with_role(views.take(i as int), FileRole::Bibliography),
                ),
                path_views(image_files@) == paths_of(
                    with_role(views.take(i as int), FileRole::Image),
                ),
            decreases n - i,
        {
            assert(views.take(i + 1).drop_last() == views.take(i as int));
            assert(views.take(i + 1).last() == files@[i as int]@);
            let ghost tex_before = source_views(tex_files@);
            let ghost bib_before = path_views(bib_files@);
            let ghost image_before = path_views(image_files@);
            match Self::classify(&files[i].path) {
                Some(FileRole::Markup) => {
                    tex_files.push(files[i].duplicate());
                    assert(source_views(tex_files@) == tex_before.push(files@[i as int]@));
                },
                Some(FileRole::Bibliography) => {
                    bib_files.push(files[i].path.duplicate());
                    assert(path_views(bib_files@) == bib_before.push(files@[i as int]@.path));
                    assert(paths_of(
                        with_role(views.take(i as int), FileRole::Bibliography).push(
                            files@[i as int]@,
                        ),
                    ) == bib_before.push(files@[i as int]@.path));
                },
                Some(FileRole::Image) => {
                    image_files.push(files[i].path.duplicate());
                    assert(path_views(image_files@) == image_before.push(files@[i as int]@.path));
                    assert(paths_of(
                        with_role(views.take(i as int), FileRole::Image).push(files@[i as int]@),
                    ) == image_before.push(files@[i as int]@.path));
                },
                None => {},
            }
            i += 1;
        }
        assert(views.take(n as int) == views);
        let main_tex_file = self.find_main_tex_file(&tex_files);
        let content = ExtractedContent {
            tex_files,
            bib_files,
            image_files,
            main_tex_file,
            extracted_dir: extract_dir,
        };
        proof {
            lemma_entry_is_markup(content@.tex_files);
            if all_under(views, content@.extracted_dir) {
                lemma_scanned_well_formed(content@, content@.extracted_dir, views);
            }
        }
        Ok(content)
    }
}

/// What scanning the files `files` found under `dir` gives: the three lists
/// hold the files of each role in the order found, and the entry file is
/// chosen among the markup files.
pub open spec fn scanned(
    content: ExtractedContentView,
    dir: FilePathView,
    files: Seq<SourceFileView>,
) -> bool {
    &&& content.tex_files == with_role(files, FileRole::Markup)
    &&& content.bib_files == paths_of(with_role(files, FileRole::Bibliography))
    &&& content.image_files == paths_of(with_role(files, FileRole::Image))
    &&& content.main_tex_file == select_entry(content.tex_files)
    &&& content.extracted_dir == dir
}

/// Whether no file of `files` is a markup file.
pub open spec fn without_markup(files: Seq<SourceFileView>) -> bool {
    forall|i: int| 0 <= i < files.len() ==> role_of((#[trigger] files[i]).path) != Some(
        FileRole::Markup,
    )
}

/// Among files of which none has role `role`, the list of that role is empty.
pub proof fn lemma_with_role_absent(files: Seq<SourceFileView>, role: FileRole)
    requires
        forall|i: int| 0 <= i < files.len() ==> role_of((#[trigger] files[i]).path) != Some(role),
    ensures
        with_role(files, role).len() == 0,
    decreases files.len(),
{
    if files.len() > 0 {
        assert forall|i: int| 0 <= i < files.drop_last().len() implies role_of(
            (#[trigger] files.drop_last()[i]).path,
        ) != Some(role) by {
            assert(files.drop_last()[i] == files[i]);
        }
        lemma_with_role_absent(files.drop_last(), role);
        assert(files.last() == files[files.len() - 1]);
    }
}

/// Scanning a directory without markup files gives no markup file and no
/// entry file.
pub proof fn lemma_scan_without_markup(
    content: ExtractedContentView,
    dir: FilePathView,
    files: Seq<SourceFileView>,
)
    requires
        scanned(content, dir, files),
        without_markup(files),
    ensures
        content.tex_files == Seq::<SourceFileView>::empty(),
        content.main_tex_file is None,
{
    lemma_with_role_absent(files, FileRole::Markup);
}

/// The first file that declares a root, if any file does, is a file of the
/// sequence that declares one, and no file before it does.
pub proof fn lemma_first_declaring(files: Seq<SourceFileView>)
    ensures
        match first_declaring(files) {
            Some(f) => files.contains(f) && declares_root(f) && exists|k: int|
                0 <= k < files.len() && #[trigger] files[k] == f && forall|i: int|
                    0 <= i < k ==> !declares_root(#[trigger] files[i]),
            None => forall|i: int| 0 <= i < files.len() ==> !declares_root(#[trigger] files[i]),
        },
    decreases files.len(),
{
    if files.len() == 0 {
    } else if declares_root(files[0]) {
        assert(files[0] == files[0] && forall|i: int|
            0 <= i < 0 ==> !declares_root(#[trigger] files[i]));
    } else {
        let rest = files.drop_first();
        lemma_first_declaring(rest);
        match first_declaring(rest) {
            Some(f) => {
                let k = choose|k: int|
                    0 <= k < rest.len() && #[trigger] rest[k] == f && forall|i: int|
                        0 <= i < k ==> !declares_root(#[trigger] rest[i]);
                assert(files[k + 1] == f);
                assert forall|i: int| 0 <= i < k + 1 implies !declares_root(
                    #[trigger] files[i],
                ) by {
                    if i > 0 {
                        assert(rest[i - 1] == files[i]);
                    }
                }
            },
            None => {
                assert forall|i: int| 0 <= i < files.len() implies !declares_root(
                    #[trigger] files[i],
                ) by {
                    if i > 0 {
                        assert(rest[i - 1] == files[i]);
                    }
                }
            },
        }
    }
}

/// Where exactly one file declares a document root, that file is the entry
/// file, wherever in the order of the files it stands.
pub proof fn lemma_single_root_is_entry(files: Seq<SourceFileView>, a: int)
    requires
        0 <= a < files.len(),
        declares_root(files[a]),
        forall|i: int| 0 <= i < files.len() && i != a ==> !declares_root(#[trigger] files[i]),
    ensures
        entry_choice(files) == EntryChoiceView::ByContent(files[a]),
        select_entry(files) == Some(files[a]),
{
    lemma_first_declaring(files);
    match first_declaring(files) {
        Some(f) => {
            let i = choose|i: int| 0 <= i < files.len() && files[i] == f;
            assert(i == a);
        },
        None => {
            assert(!declares_root(files[a]));
        },
    }
}

/// The entry file does not depend on the order in which the files were
/// found: where exactly one file declares a document root, another order of
/// the same files has the same entry file.
pub proof fn lemma_entry_whatever_the_order(
    files: Seq<SourceFileView>,
    reordered: Seq<SourceFileView>,
    a: int,
)
    requires
        files.to_multiset() == reordered.to_multiset(),
        0 <= a < files.len(),
        declares_root(files[a]),
        forall|i: int| 0 <= i < files.len() && i != a ==> !declares_root(#[trigger] files[i]),
    ensures
        select_entry(reordered) == Some(files[a]),
        select_entry(reordered) == select_entry(files),
{
    lemma_single_root_is_entry(files, a);
    files.to_multiset_ensures();
    reordered.to_multiset_ensures();
    lemma_first_declaring(reordered);
    assert(files.contains(files[a]));
    assert(files.to_multiset().count(files[a]) > 0);
    assert(reordered.to_multiset().count(files[a]) > 0);
    assert(reordered.contains(files[a]));
    match first_declaring(reordered) {
        Some(f) => {
            assert(reordered.to_multiset().count(f) > 0);
            assert(files.to_multiset().count(f) > 0);
            assert(files.contains(f));
            let i = choose|i: int| 0 <= i < files.len() && files[i] == f;
            assert(i == a);
        },
        None => {
            let j = choose|j: int| 0 <= j < reordered.len() && reordered[j] == files[a];
            assert(!declares_root(reordered[j]));
        },
    }
}

/// The first file with a usual entry name, if any file has one, is a file of
/// the sequence.
pub proof fn lemma_first_named(files: Seq<SourceFileView>)
    ensures
        match first_named(files) {
            Some(f) => files.contains(f) && has_entry_name(f),
            None => forall|i: int| 0 <= i < files.len() ==> !has_entry_name(#[trigger] files[i]),
        },
    decreases files.len(),
{
    if files.len() == 0 {
    } else if has_entry_name(files[0]) {
    } else {
        let rest = files.drop_first();
        lemma_first_named(rest);
        match first_named(rest) {
            Some(f) => {
                let i = choose|i: int| 0 <= i < rest.len() && rest[i] == f;
                assert(files[i + 1] == f);
            },
            None => {
                assert forall|i: int| 0 <= i < files.len() implies !has_entry_name(
                    #[trigger] files[i],
                ) by {
                    if i > 0 {
                        assert(rest[i - 1] == files[i]);
                    }
                }
            },
        }
    }
}

/// Every file in the list of a role is one of the files and has that role.
pub proof fn lemma_with_role_members(files: Seq<SourceFileView>, role: FileRole)
    ensures
        forall|i: int|
            0 <= i < with_role(files, role).len() ==> files.contains(
                #[trigger] with_role(files, role)[i],
            ) && role_of(with_role(files, role)[i].path) == Some(role),
    decreases files.len(),
{
    if files.len() > 0 {
        let rest = with_role(files.drop_last(), role);
        lemma_with_role_members(files.drop_last(), role);
        assert forall|i: int| 0 <= i < with_role(files, role).len() implies files.contains(
            #[trigger] with_role(files, role)[i],
        ) && role_of(with_role(files, role)[i].path) == Some(role) by {
            let f = with_role(files, role)[i];
            if i < rest.len() {
                assert(f == rest[i]);
                let j = choose|j: int| 0 <= j < files.drop_last().len() && files.drop_last()[j] == f;
                assert(files[j] == f);
            } else {
                assert(files[files.len() - 1] == f);
            }
        }
    }
}

/// Whether the path `p` leads into the directory `dir`: the names along
/// `dir` are the first names along `p`.
pub open spec fn lies_under(p: FilePathView, dir: FilePathView) -> bool {
    dir.components.is_prefix_of(p.components)
}

/// Whether every file of `files` lies under `dir`.
pub open spec fn all_under(files: Seq<SourceFileView>, dir: FilePathView) -> bool {
    forall|i: int| 0 <= i < files.len() ==> lies_under((#[trigger] files[i]).path, dir)
}

/// Whether the entry file of a bundle, if it has one, is one of its markup
/// files.
pub open spec fn entry_is_markup(content: ExtractedContentView) -> bool {
    match content.main_tex_file {
        Some(f) => content.tex_files.contains(f),
        None => true,
    }
}

/// Whether the lists of a bundle fit together: every file lies under the
/// directory of the bundle, and the entry file, if there is one, is one of
/// the markup files.
pub open spec fn well_formed(content: ExtractedContentView) -> bool {
    &&& all_under(content.tex_files, content.extracted_dir)
    &&& forall|i: int|
        0 <= i < content.bib_files.len() ==> lies_under(
            #[trigger] content.bib_files[i],
            content.extracted_dir,
        )
    &&& forall|i: int|
        0 <= i < content.image_files.len() ==> lies_under(
            #[trigger] content.image_files[i],
            content.extracted_dir,
        )
    &&& entry_is_markup(content)
}

/// The entry file chosen among files is one of them.
pub proof fn lemma_entry_is_markup(files: Seq<SourceFileView>)
    ensures
        match select_entry(files) {
            Some(f) => files.contains(f),
            None => true,
        },
{
    lemma_first_declaring(files);
    lemma_first_named(files);
}

/// Scanning files that all lie under the scanned directory gives lists that
/// fit together.
pub proof fn lemma_scanned_well_formed(
    content: ExtractedContentView,
    dir: FilePathView,
    files: Seq<SourceFileView>,
)
    requires
        scanned(content, dir, files),
        all_under(files, dir),
    ensures
        well_formed(content),
{
    lemma_with_role_members(files, FileRole::Markup);
    lemma_with_role_members(files, FileRole::Bibliography);
    lemma_with_role_members(files, FileRole::Image);
    assert forall|i: int| 0 <= i < content.tex_files.len() implies lies_under(
        (#[trigger] content.tex_files[i]).path,
        dir,
    ) by {
        let f = with_role(files, FileRole::Markup)[i];
        let j = choose|j: int| 0 <= j < files.len() && files[j] == f;
        assert(lies_under(files[j].path, dir));
    }
    assert forall|i: int| 0 <= i < content.bib_files.len() implies lies_under(
        #[trigger] content.bib_files[i],
        dir,
    ) by {
        let f = with_role(files, FileRole::Bibliography)[i];
        let j = choose|j: int| 0 <= j < files.len() && files[j] == f;
        assert(lies_under(files[j].path, dir));
    }
    assert forall|i: int| 0 <= i < content.image_files.len() implies lies_under(
        #[trigger] content.image_files[i],
        dir,
    ) by {
        let f = with_role(files, FileRole::Image)[i];
        let j = choose|j: int| 0 <= j < files.len() && files[j] == f;
        assert(lies_under(files[j].path, dir));
    }
    lemma_entry_is_markup(content.tex_files);
}

impl Default for ArchiveExtractor {
    fn default() -> (r: ArchiveExtractor)
        ensures
            r == ArchiveExtractor,
    {
        ArchiveExtractor::new()
    }
}

impl ExtractError {
    /// A sentence that says what went wrong.
    pub fn message(&self) -> (r: String)
        ensures
            r@ == match self {
                ExtractError::InputNotFound => "Extracted directory does not exist"@,
                ExtractError::UnsupportedFormat => "Unsupported archive format"@,
            },
    {
        match self {
            ExtractError::InputNotFound => "Extracted directory does not exist".to_owned(),
            ExtractError::UnsupportedFormat => "Unsupported archive format".to_owned(),
        }
    }
}

} // verus!
