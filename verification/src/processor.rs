//! Analysis of the combined TeX text of a paper: cleaning, and extraction of
//! title, authors, abstract, sections, figures and equations.

use crate::extractor::{
    lemma_scan_without_markup, scanned, without_markup, ArchiveExtractor, ExtractedContent,
    ExtractedContentView, SourceFileView,
};
use crate::paths::{parent_name_of, FilePath, FilePathView};
use crate::pattern::{
    capture_view, capture_views, find_all, find_first, first_capture, lies_within, matches_of,
    replaced, substitute, unmatched, Capture, CaptureView,
};
use crate::sections::{
    heading_views, headings_from, headings_lie_within, lemma_headings_from, lemma_sections_tile,
    lemma_sort_headings, lemma_sort_headings_keeps, push_headings, section_pieces, section_source,
    slice, sort_by_start, sort_headings, sorted_by_start, Heading, HeadingView,
};
use crate::text::{
    contains, contains_chars, from_chars, lemma_trim_idempotent, lemma_trim_keeps_absent,
    occurs_at, push_all, remove_char, same_chars, split, split_chars, strings, texts, to_chars,
    trim, trim_chars, without,
};
use vstd::prelude::*;
use vstd::string::*;
use vstd::utf8::*;

verus! {

/// A `%` that is not escaped, with the rest of its line. Group 1 is what
/// stands before the `%` and is kept.
pub const COMMENT_PATTERN: &'static str = r"(?m)(^|[^\\])%.*$";

/// A declaration whose argument is dropped with it.
pub const DECLARATION_PATTERN: &'static str =
    r"\\(usepackage|documentclass|documentstyle|pagestyle|thispagestyle|geometry|hypersetup)\{[^}]*\}";

/// The marker that opens or closes an environment.
pub const ENVIRONMENT_PATTERN: &'static str = r"\\(begin|end)\{[^}]*\}";

/// A formatting command; group 2 is its argument, which is kept.
pub const FORMATTING_PATTERN: &'static str =
    r"\\(textbf|textit|emph|texttt|small|large|Large|LARGE|huge|Huge)\{([^}]*)\}";

/// Three line ends with only whitespace between them.
pub const BLANK_LINES_PATTERN: &'static str = r"\n\s*\n\s*\n";

/// The title command; group 1 is its argument.
pub const TITLE_PATTERN: &'static str = r"\\title\{([^}]*)\}";

/// The author command; group 1 is its argument.
pub const AUTHOR_PATTERN: &'static str = r"\\author\{([^}]*)\}";

/// The abstract as an environment, which may span lines; group 1 is its
/// body.
pub const ABSTRACT_ENVIRONMENT_PATTERN: &'static str =
    r"(?s)\\begin\{abstract\}(.*?)\\end\{abstract\}";

/// The abstract as a command with one argument.
pub const ABSTRACT_COMMAND_PATTERN: &'static str = r"\\abstract\{([^}]*)\}";

/// The abstract as a section named "abstract" in any case; its body runs up
/// to the next backslash.
pub const ABSTRACT_HEADING_PATTERN: &'static str = r"\\section\*?\{(?i:abstract)\}([^\\]*)";

/// The heading of a section; group 1 is its title.
pub const SECTION_PATTERN: &'static str = r"\\section\{([^}]*)\}";

/// The heading of a subsection; group 1 is its title.
pub const SUBSECTION_PATTERN: &'static str = r"\\subsection\{([^}]*)\}";

/// The inclusion of an image, with or without options in brackets; group 1
/// is the path.
pub const FIGURE_PATTERN: &'static str = r"\\includegraphics(?:\[[^]]*\])?\{([^}]*)\}";

/// An equation environment, which may span lines; group 1 is its body.
pub const DISPLAY_EQUATION_PATTERN: &'static str =
    r"(?s)\\begin\{equation\}(.*?)\\end\{equation\}";

/// A span between two single dollar signs; group 1 is what stands between.
pub const INLINE_EQUATION_PATTERN: &'static str = r"\$([^$]+)\$";

/// The title of a paper that declares none.
pub const UNTITLED: &'static str = "Untitled";

/// The identifier of a paper whose directory has no name.
pub const UNKNOWN_PAPER: &'static str = "unknown";

/// Why a bundle could not be analysed.
#[derive(Debug, Clone, Copy, PartialEq, Eq, Structural)]
pub enum ProcessError {
    /// No markup file could be read.
    NoReadableSource,
}

/// A section of the paper.
#[derive(Debug)]
pub struct Section {
    pub title: String,
    pub content: String,
    pub level: u8,
}

/// A section as a mathematical value.
pub struct SectionView {
    pub title: Seq<char>,
    pub content: Seq<char>,
    pub level: u8,
}

impl View for Section {
    type V = SectionView;

    open spec fn view(&self) -> SectionView {
        SectionView { title: self.title@, content: self.content@, level: self.level }
    }
}

/// The sections held by a vector, as mathematical values.
pub open spec fn section_views(v: Seq<Section>) -> Seq<SectionView> {
    Seq::new(v.len(), |i: int| v[i]@)
}

/// Two spaces.
pub open spec fn double_space() -> Seq<char> {
    seq![' ', ' ']
}

/// Two line ends: one blank line.
pub open spec fn blank_line() -> Seq<char> {
    seq!['\n', '\n']
}

/// Three line ends: two blank lines.
pub open spec fn two_blank_lines() -> Seq<char> {
    seq!['\n', '\n', '\n']
}

/// Whether `c` goes behind the squeezed text `kept` without making a run:
/// it is not a space behind a space, nor a line end behind two line ends.
pub open spec fn keeps(kept: Seq<char>, c: char) -> bool {
    &&& !(c == ' ' && kept.len() >= 1 && kept.last() == ' ')
    &&& !(c == '\n' && kept.len() >= 2 && kept.last() == '\n' && kept[kept.len() - 2] == '\n')
}

/// `text` with every run of spaces brought down to one space and every run
/// of three or more line ends brought down to two.
pub open spec fn squeezed(text: Seq<char>) -> Seq<char>
    decreases text.len(),
{
    if text.len() == 0 {
        text
    } else if keeps(squeezed(text.drop_last()), text.last()) {
        squeezed(text.drop_last()).push(text.last())
    } else {
        squeezed(text.drop_last())
    }
}

/// `text` without comments, declarations, environment markers and formatting
/// commands, with blank space squeezed and trimmed.
pub open spec fn clean(text: Seq<char>) -> Seq<char> {
    let uncommented = replaced(COMMENT_PATTERN@, text, "$1"@);
    let undeclared = replaced(DECLARATION_PATTERN@, uncommented, ""@);
    let unmarked = replaced(ENVIRONMENT_PATTERN@, undeclared, ""@);
    let plain = replaced(FORMATTING_PATTERN@, unmarked, "$2"@);
    trim(squeezed(replaced(BLANK_LINES_PATTERN@, plain, "\n\n"@)))
}

/// Whether no space stands behind a space and no line end behind two line
/// ends in `text`.
pub open spec fn has_no_runs(text: Seq<char>) -> bool {
    &&& forall|i: int| 0 <= i < text.len() - 1 ==> !(#[trigger] text[i] == ' ' && text[i + 1] == ' ')
    &&& forall|i: int|
        0 <= i < text.len() - 2 ==> !(#[trigger] text[i] == '\n' && text[i + 1] == '\n' && text[i
            + 2] == '\n')
}

/// A text has no runs exactly when neither two spaces nor three line ends
/// occur in it.
pub proof fn lemma_no_runs(text: Seq<char>)
    ensures
        has_no_runs(text) <==> !contains(text, double_space()) && !contains(
            text,
            two_blank_lines(),
        ),
{
    if has_no_runs(text) {
        assert forall|i: int| !occurs_at(text, i, double_space()) by {
            if occurs_at(text, i, double_space()) {
                assert(text.subrange(i, i + 2)[0] == ' ');
                assert(text.subrange(i, i + 2)[1] == ' ');
                assert(text[i] == ' ' && text[i + 1] == ' ');
            }
        }
        assert forall|i: int| !occurs_at(text, i, two_blank_lines()) by {
            if occurs_at(text, i, two_blank_lines()) {
                assert(text.subrange(i, i + 3)[0] == '\n');
                assert(text.subrange(i, i + 3)[1] == '\n');
                assert(text.subrange(i, i + 3)[2] == '\n');
                assert(text[i] == '\n' && text[i + 1] == '\n' && text[i + 2] == '\n');
            }
        }
    }
    if !contains(text, double_space()) && !contains(text, two_blank_lines()) {
        assert forall|i: int| 0 <= i < text.len() - 1 implies !(#[trigger] text[i] == ' ' && text[i
            + 1] == ' ') by {
            if text[i] == ' ' && text[i + 1] == ' ' {
                assert(text.subrange(i, i + 2) == double_space());
                assert(occurs_at(text, i, double_space()));
            }
        }
        assert forall|i: int| 0 <= i < text.len() - 2 implies !(#[trigger] text[i] == '\n' && text[i
            + 1] == '\n' && text[i + 2] == '\n') by {
            if text[i] == '\n' && text[i + 1] == '\n' && text[i + 2] == '\n' {
                assert(text.subrange(i, i + 3) == two_blank_lines());
                assert(occurs_at(text, i, two_blank_lines()));
            }
        }
    }
}

/// A squeezed text has no runs: neither two spaces nor three line ends occur
/// in it.
pub proof fn lemma_squeezed_has_no_runs(text: Seq<char>)
    ensures
        has_no_runs(squeezed(text)),
        !contains(squeezed(text), double_space()),
        !contains(squeezed(text), two_blank_lines()),
    decreases text.len(),
{
    if text.len() > 0 {
        lemma_squeezed_has_no_runs(text.drop_last());
        let kept = squeezed(text.drop_last());
        if keeps(kept, text.last()) {
            let r = kept.push(text.last());
            assert forall|i: int| 0 <= i < r.len() - 1 implies !(#[trigger] r[i] == ' ' && r[i + 1]
                == ' ') by {
                if i < kept.len() - 1 {
                    assert(r[i] == kept[i] && r[i + 1] == kept[i + 1]);
                }
            }
            assert forall|i: int| 0 <= i < r.len() - 2 implies !(#[trigger] r[i] == '\n' && r[i + 1]
                == '\n' && r[i + 2] == '\n') by {
                if i < kept.len() - 2 {
                    assert(r[i] == kept[i] && r[i + 1] == kept[i + 1] && r[i + 2] == kept[i + 2]);
                }
            }
        }
    }
    lemma_no_runs(squeezed(text));
}

/// Squeezing a text without runs gives the text back.
pub proof fn lemma_squeezed_fixed(text: Seq<char>)
    requires
        has_no_runs(text),
    ensures
        squeezed(text) == text,
    decreases text.len(),
{
    if text.len() > 0 {
        let rest = text.drop_last();
        assert(has_no_runs(rest)) by {
            assert forall|i: int| 0 <= i < rest.len() implies rest[i] == text[i] by {}
        }
        lemma_squeezed_fixed(rest);
        let n = text.len() as int;
        if n >= 2 {
            assert(rest.last() == text[n - 2]);
            assert(!(text[n - 2] == ' ' && text[n - 1] == ' '));
        }
        if n >= 3 {
            assert(rest[rest.len() - 2] == text[n - 3]);
            assert(!(text[n - 3] == '\n' && text[n - 2] == '\n' && text[n - 1] == '\n'));
        }
        assert(rest.push(text.last()) == text);
    }
}

/// The text of the group of a match; empty if the group took no part.
pub open spec fn group_text(c: CaptureView) -> Seq<char> {
    match c.group {
        Some(t) => t,
        None => Seq::empty(),
    }
}

/// The title that a match of the title command gives.
pub open spec fn title_from(found: Option<CaptureView>) -> Seq<char> {
    match found {
        Some(c) => trim(without(group_text(c), '\\')),
        None => UNTITLED@,
    }
}

/// The title of the paper with text `content`.
pub open spec fn title_of(content: Seq<char>) -> Seq<char> {
    title_from(first_capture(matches_of(TITLE_PATTERN@, content, 1)))
}

/// The pieces, trimmed, that are not empty after trimming.
pub open spec fn trimmed_nonempty(pieces: Seq<Seq<char>>) -> Seq<Seq<char>>
    decreases pieces.len(),
{
    if pieces.len() == 0 {
        Seq::empty()
    } else if trim(pieces.last()).len() > 0 {
        trimmed_nonempty(pieces.drop_last()).push(trim(pieces.last()))
    } else {
        trimmed_nonempty(pieces.drop_last())
    }
}

/// The names in one author field: split at commas, trimmed, empty ones left out.
pub open spec fn names_in(field: Seq<char>) -> Seq<Seq<char>> {
    trimmed_nonempty(split(field, ','))
}

/// The names in the fields of the author commands found, in order.
pub open spec fn authors_from(found: Seq<CaptureView>) -> Seq<Seq<char>>
    decreases found.len(),
{
    if found.len() == 0 {
        Seq::empty()
    } else {
        match found.last().group {
            Some(field) => authors_from(found.drop_last()) + names_in(field),
            None => authors_from(found.drop_last()),
        }
    }
}

/// The authors of the paper with text `content`.
pub open spec fn authors_of(content: Seq<char>) -> Seq<Seq<char>> {
    authors_from(matches_of(AUTHOR_PATTERN@, content, 1))
}

/// The group texts of the matches whose group took part, in order.
pub open spec fn groups_of(found: Seq<CaptureView>) -> Seq<Seq<char>>
    decreases found.len(),
{
    if found.len() == 0 {
        Seq::empty()
    } else {
        match found.last().group {
            Some(t) => groups_of(found.drop_last()).push(t),
            None => groups_of(found.drop_last()),
        }
    }
}

/// The texts, each trimmed.
pub open spec fn each_trimmed(items: Seq<Seq<char>>) -> Seq<Seq<char>> {
    Seq::new(items.len(), |i: int| trim(items[i]))
}

/// The paths given to the image-inclusion commands of `content`, in order.
pub open spec fn figures_of(content: Seq<char>) -> Seq<Seq<char>> {
    groups_of(matches_of(FIGURE_PATTERN@, content, 1))
}

/// The equation list: the display equations in their order, then the inline
/// ones in theirs.
pub open spec fn equations_from(display: Seq<CaptureView>, inline: Seq<CaptureView>) -> Seq<
    Seq<char>,
> {
    each_trimmed(groups_of(display)) + each_trimmed(groups_of(inline))
}

/// The equations of the paper with text `content`.
pub open spec fn equations_of(content: Seq<char>) -> Seq<Seq<char>> {
    equations_from(
        matches_of(DISPLAY_EQUATION_PATTERN@, content, 1),
        matches_of(INLINE_EQUATION_PATTERN@, content, 1),
    )
}

/// The abstract text that one way of finding it offers: the trimmed group
/// text of its match, unless there is no match or that text is empty.
pub open spec fn abstract_candidate(found: Option<CaptureView>) -> Option<Seq<char>> {
    match found {
        Some(c) => if trim(group_text(c)).len() > 0 {
            Some(trim(group_text(c)))
        } else {
            None
        },
        None => None,
    }
}

/// The abstract, given the matches of the ways of finding it in order of
/// priority: the first that offers a text decides, and that text is cleaned.
pub open spec fn abstract_from(found: Seq<Option<CaptureView>>) -> Seq<char>
    decreases found.len(),
{
    if found.len() == 0 {
        Seq::empty()
    } else {
        match abstract_candidate(found[0]) {
            Some(t) => clean(t),
            None => abstract_from(found.drop_first()),
        }
    }
}

/// The abstract of the paper with text `content`.
pub open spec fn abstract_of(content: Seq<char>) -> Seq<char> {
    abstract_from(
        seq![
            first_capture(matches_of(ABSTRACT_ENVIRONMENT_PATTERN@, content, 1)),
            first_capture(matches_of(ABSTRACT_COMMAND_PATTERN@, content, 1)),
            first_capture(matches_of(ABSTRACT_HEADING_PATTERN@, content, 1)),
        ],
    )
}

/// The sections that headings in document order give: each has the title
/// and level of its heading, and for content the cleaned text from its
/// heading up to the next one.
pub open spec fn sections_from(content: Seq<char>, headings: Seq<HeadingView>) -> Seq<SectionView> {
    Seq::new(
        headings.len(),
        |i: int|
            SectionView {
                title: headings[i].title,
                content: clean(section_source(content, headings, i)),
                level: headings[i].level,
            },
    )
}

/// The headings of both levels in document order.
pub open spec fn merged_headings(sections: Seq<CaptureView>, subsections: Seq<CaptureView>) -> Seq<
    HeadingView,
> {
    sort_headings(headings_from(sections, 1) + headings_from(subsections, 2))
}

/// The sections of the paper with text `content`.
pub open spec fn sections_of(content: Seq<char>) -> Seq<SectionView> {
    sections_from(
        content,
        merged_headings(
            matches_of(SECTION_PATTERN@, content, 1),
            matches_of(SUBSECTION_PATTERN@, content, 1),
        ),
    )
}

/// The texts of the files, read or not, in the order of the files.
pub open spec fn texts_of(files: Seq<SourceFileView>) -> Seq<Option<Seq<char>>> {
    Seq::new(files.len(), |i: int| files[i].text)
}

/// The texts in the order in which they go into the combined text: that of
/// the entry file first, if there is one, then those of all markup files,
/// the entry file among them once more.
pub open spec fn reading_order(e: ExtractedContentView) -> Seq<Option<Seq<char>>> {
    match e.main_tex_file {
        Some(f) => seq![f.text] + texts_of(e.tex_files),
        None => texts_of(e.tex_files),
    }
}

/// The texts that were read, each followed by a blank line, put end to end.
pub open spec fn joined(items: Seq<Option<Seq<char>>>) -> Seq<char>
    decreases items.len(),
{
    if items.len() == 0 {
        Seq::empty()
    } else {
        match items.last() {
            Some(t) => joined(items.drop_last()) + t + blank_line(),
            None => joined(items.drop_last()),
        }
    }
}

/// Whether at least one of the texts was read.
pub open spec fn any_read(items: Seq<Option<Seq<char>>>) -> bool {
    exists|i: int| 0 <= i < items.len() && (#[trigger] items[i]) is Some
}

/// The combined text of the markup files of a bundle.
pub open spec fn combined_text(e: ExtractedContentView) -> Seq<char> {
    joined(reading_order(e))
}

/// The identifier of the paper: the name of the directory that holds the
/// directory of the unpacked files.
pub open spec fn paper_id_of(dir: FilePathView) -> Seq<char> {
    match parent_name_of(dir) {
        Some(name) => name,
        None => UNKNOWN_PAPER@,
    }
}

/// The texts of the paths.
pub open spec fn path_texts(paths: Seq<FilePathView>) -> Seq<Seq<char>> {
    Seq::new(paths.len(), |i: int| paths[i].path)
}

/// The structured document that the analysis of a paper yields.
#[derive(Debug)]
pub struct ProcessedContent {
    pub paper_id: String,
    pub title: String,
    pub authors: Vec<String>,
    pub abstract_text: String,
    pub sections: Vec<Section>,
    pub figure_references: Vec<String>,
    pub equations: Vec<String>,
    pub full_text: String,
    pub image_files: Vec<String>,
}

/// A structured document as a mathematical value.
pub struct ProcessedContentView {
    pub paper_id: Seq<char>,
    pub title: Seq<char>,
    pub authors: Seq<Seq<char>>,
    pub abstract_text: Seq<char>,
    pub sections: Seq<SectionView>,
    pub figure_references: Seq<Seq<char>>,
    pub equations: Seq<Seq<char>>,
    pub full_text: Seq<char>,
    pub image_files: Seq<Seq<char>>,
}

impl View for ProcessedContent {
    type V = ProcessedContentView;

    open spec fn view(&self) -> ProcessedContentView {
        ProcessedContentView {
            paper_id: self.paper_id@,
            title: self.title@,
            authors: strings(self.authors@),
            abstract_text: self.abstract_text@,
            sections: section_views(self.sections@),
            figure_references: strings(self.figure_references@),
            equations: strings(self.equations@),
            full_text: self.full_text@,
            image_files: strings(self.image_files@),
        }
    }
}

/// The document that a bundle with at least one readable markup file yields.
pub open spec fn analysis(e: ExtractedContentView) -> ProcessedContentView {
    let content = combined_text(e);
    ProcessedContentView {
        paper_id: paper_id_of(e.extracted_dir),
        title: title_of(content),
        authors: authors_of(content),
        abstract_text: abstract_of(content),
        sections: sections_of(content),
        figure_references: figures_of(content),
        equations: equations_of(content),
        full_text: clean(content),
        image_files: path_texts(e.image_files),
    }
}

/// Whether none of the five patterns of cleaning has a match in `text`.
pub open spec fn patterns_unmatched(text: Seq<char>) -> bool {
    &&& unmatched(COMMENT_PATTERN@, text)
    &&& unmatched(DECLARATION_PATTERN@, text)
    &&& unmatched(ENVIRONMENT_PATTERN@, text)
    &&& unmatched(FORMATTING_PATTERN@, text)
    &&& unmatched(BLANK_LINES_PATTERN@, text)
}

/// Whether cleaning finds nothing to do in `text`: none of its patterns has
/// a match, there are neither three line ends nor two spaces in a row, and
/// no whitespace at either end.
pub open spec fn settled(text: Seq<char>) -> bool {
    &&& patterns_unmatched(text)
    &&& !contains(text, two_blank_lines())
    &&& !contains(text, double_space())
    &&& trim(text) == text
}

/// Cleaning a text in which it finds nothing to do gives the text back.
pub proof fn lemma_clean_settled(text: Seq<char>)
    requires
        settled(text),
    ensures
        clean(text) == text,
{
    lemma_no_runs(text);
    lemma_squeezed_fixed(text);
}

/// What cleaning gives has no whitespace at either end, and neither two
/// spaces nor three line ends in a row anywhere.
pub proof fn lemma_clean_shape(text: Seq<char>)
    ensures
        trim(clean(text)) == clean(text),
        !contains(clean(text), double_space()),
        !contains(clean(text), two_blank_lines()),
{
    let uncommented = replaced(COMMENT_PATTERN@, text, "$1"@);
    let undeclared = replaced(DECLARATION_PATTERN@, uncommented, ""@);
    let unmarked = replaced(ENVIRONMENT_PATTERN@, undeclared, ""@);
    let plain = replaced(FORMATTING_PATTERN@, unmarked, "$2"@);
    let squeezed_text = squeezed(replaced(BLANK_LINES_PATTERN@, plain, "\n\n"@));
    lemma_trim_idempotent(squeezed_text);
    lemma_squeezed_has_no_runs(replaced(BLANK_LINES_PATTERN@, plain, "\n\n"@));
    lemma_trim_keeps_absent(squeezed_text, double_space());
    lemma_trim_keeps_absent(squeezed_text, two_blank_lines());
}

/// Cleaning is idempotent: cleaning a cleaned text gives it back, whenever
/// none of the five patterns finds a match in the cleaned text. That the
/// cleaned text is trimmed and free of runs holds of every text. A pattern
/// can find a match in a cleaned text where taking a command away lays
/// another bare, as with one formatting command inside another.
pub proof fn lemma_clean_idempotent(text: Seq<char>)
    requires
        patterns_unmatched(clean(text)),
    ensures
        clean(clean(text)) == clean(text),
{
    lemma_clean_shape(text);
    lemma_clean_settled(clean(text));
}

/// Every name taken from an author field is trimmed and not empty.
pub proof fn lemma_names_in(field: Seq<char>)
    ensures
        forall|i: int|
            0 <= i < names_in(field).len() ==> (#[trigger] names_in(field)[i]).len() > 0 && trim(
                names_in(field)[i],
            ) == names_in(field)[i],
{
    lemma_trimmed_nonempty(split(field, ','));
}

/// Every piece kept by `trimmed_nonempty` is trimmed and not empty.
pub proof fn lemma_trimmed_nonempty(pieces: Seq<Seq<char>>)
    ensures
        forall|i: int|
            0 <= i < trimmed_nonempty(pieces).len() ==> (#[trigger] trimmed_nonempty(
                pieces,
            )[i]).len() > 0 && trim(trimmed_nonempty(pieces)[i]) == trimmed_nonempty(pieces)[i],
    decreases pieces.len(),
{
    if pieces.len() > 0 {
        let rest = trimmed_nonempty(pieces.drop_last());
        lemma_trimmed_nonempty(pieces.drop_last());
        lemma_trim_idempotent(pieces.last());
        assert forall|i: int| 0 <= i < trimmed_nonempty(pieces).len() implies (
        #[trigger] trimmed_nonempty(pieces)[i]).len() > 0 && trim(trimmed_nonempty(pieces)[i])
            == trimmed_nonempty(pieces)[i] by {
            if i < rest.len() {
                assert(trimmed_nonempty(pieces)[i] == rest[i]);
            }
        }
    }
}

/// The authors of author commands found one after another are those of the
/// earlier commands followed by those of the later ones: the order across
/// commands and within each command is kept, and no name is dropped for
/// occurring twice.
pub proof fn lemma_authors_in_order(earlier: Seq<CaptureView>, later: Seq<CaptureView>)
    ensures
        authors_from(earlier + later) == authors_from(earlier) + authors_from(later),
    decreases later.len(),
{
    if later.len() == 0 {
        assert(earlier + later == earlier);
    } else {
        assert((earlier + later).drop_last() == earlier + later.drop_last());
        assert((earlier + later).last() == later.last());
        lemma_authors_in_order(earlier, later.drop_last());
    }
}

/// In the equation list every display equation stands before every inline
/// one: the list starts with the display equations and goes on with the
/// inline ones.
pub proof fn lemma_display_before_inline(display: Seq<CaptureView>, inline: Seq<CaptureView>)
    ensures
        equations_from(display, inline).len() == groups_of(display).len() + groups_of(
            inline,
        ).len(),
        equations_from(display, inline).take(groups_of(display).len() as int) == each_trimmed(
            groups_of(display),
        ),
        equations_from(display, inline).skip(groups_of(display).len() as int) == each_trimmed(
            groups_of(inline),
        ),
{
}

/// The headings of both levels stand in the order of their places in the
/// text, whatever their level, and they are the headings that were found,
/// none added and none lost.
pub proof fn lemma_merged_headings_in_order(
    sections: Seq<CaptureView>,
    subsections: Seq<CaptureView>,
)
    ensures
        sorted_by_start(merged_headings(sections, subsections)),
        merged_headings(sections, subsections).to_multiset() == (headings_from(sections, 1)
            + headings_from(subsections, 2)).to_multiset(),
{
    lemma_sort_headings(headings_from(sections, 1) + headings_from(subsections, 2));
}

/// The sections of a text leave no gap and share no byte: where the matches
/// of the heading commands lie within the text and there is a heading, the
/// pieces of the sections, put end to end in document order, are the text
/// from the first heading to its end.
pub proof fn lemma_sections_cover(
    content: Seq<char>,
    sections: Seq<CaptureView>,
    subsections: Seq<CaptureView>,
)
    requires
        forall|i: int| 0 <= i < sections.len() ==> lies_within(#[trigger] sections[i], content),
        forall|i: int|
            0 <= i < subsections.len() ==> lies_within(#[trigger] subsections[i], content),
        merged_headings(sections, subsections).len() > 0,
    ensures
        section_pieces(encode_utf8(content), merged_headings(sections, subsections)).flatten()
            == encode_utf8(content).skip(
            merged_headings(sections, subsections)[0].start as int,
        ),
{
    let first = headings_from(sections, 1);
    let second = headings_from(subsections, 2);
    let all = first + second;
    let bytes = encode_utf8(content);
    encode_utf8_valid_utf8(content);
    let within = |h: HeadingView| h.start <= bytes.len();
    lemma_headings_from(sections, 1);
    lemma_headings_from(subsections, 2);
    assert forall|i: int| 0 <= i < all.len() implies within(#[trigger] all[i]) by {
        if i < first.len() {
            let h = first[i];
            let j = choose|j: int| 0 <= j < sections.len() && (#[trigger] sections[j]).start
                == h.start;
            assert(lies_within(sections[j], content));
        } else {
            let h = second[i - first.len()];
            let j = choose|j: int|
                0 <= j < subsections.len() && (#[trigger] subsections[j]).start == h.start;
            assert(lies_within(subsections[j], content));
        }
    }
    lemma_sort_headings_keeps(all, within);
    lemma_sort_headings(all);
    let merged = merged_headings(sections, subsections);
    assert forall|i: int| 0 <= i < merged.len() implies (#[trigger] merged[i]).start
        <= bytes.len() by {
        assert(within(merged[i]));
    }
    lemma_sections_tile(bytes, merged);
}

/// A directory without markup files leaves nothing to read: scanning it
/// gives no markup file and no entry file, so the analysis of what was
/// scanned fails for want of a readable source.
pub proof fn lemma_no_markup_nothing_to_read(
    content: ExtractedContentView,
    dir: FilePathView,
    files: Seq<SourceFileView>,
)
    requires
        scanned(content, dir, files),
        without_markup(files),
    ensures
        content.tex_files.len() == 0,
        content.main_tex_file is None,
        !any_read(reading_order(content)),
{
    lemma_scan_without_markup(content, dir, files);
    lemma_nothing_to_read(content);
}

/// A text without a title command gets the fallback title, which is not
/// empty.
pub proof fn lemma_title_fallback(content: Seq<char>)
    requires
        matches_of(TITLE_PATTERN@, content, 1).len() == 0,
    ensures
        title_of(content) == UNTITLED@,
        title_of(content).len() > 0,
{
    reveal_strlit("Untitled");
}

/// The way of finding the abstract that comes first in priority decides
/// whenever it offers a text, whatever the later ones found.
pub proof fn lemma_abstract_priority(found: Seq<Option<CaptureView>>)
    requires
        found.len() > 0,
        abstract_candidate(found[0]) is Some,
    ensures
        abstract_from(found) == clean(abstract_candidate(found[0])->0),
{
}

/// Where every way before `k` offers nothing and way `k` offers a text,
/// way `k` decides.
pub proof fn lemma_abstract_first_offer(found: Seq<Option<CaptureView>>, k: int)
    requires
        0 <= k < found.len(),
        forall|i: int| 0 <= i < k ==> abstract_candidate(#[trigger] found[i]) is None,
        abstract_candidate(found[k]) is Some,
    ensures
        abstract_from(found) == clean(abstract_candidate(found[k])->0),
    decreases k,
{
    if k > 0 {
        assert(abstract_candidate(found[0]) is None);
        assert forall|i: int| 0 <= i < k - 1 implies abstract_candidate(
            #[trigger] found.drop_first()[i],
        ) is None by {
            assert(found.drop_first()[i] == found[i + 1]);
        }
        lemma_abstract_first_offer(found.drop_first(), k - 1);
    }
}

/// A bundle without markup files and without an entry file has nothing to
/// read, so its analysis fails.
pub proof fn lemma_nothing_to_read(e: ExtractedContentView)
    requires
        e.tex_files.len() == 0,
        e.main_tex_file is None,
    ensures
        !any_read(reading_order(e)),
{
}

/// Matches that may be absent, as mathematical values.
pub open spec fn optional_capture_views(v: Seq<Option<Capture>>) -> Seq<Option<CaptureView>> {
    Seq::new(v.len(), |i: int| capture_view(v[i]))
}

/// Analyses the text of a paper.
#[derive(Debug)]
pub struct PaperProcessor {
    pub extractor: ArchiveExtractor,
}

impl PaperProcessor {
    /// A processor with its extractor.
    pub fn new() -> (r: PaperProcessor)
        ensures
            r.extractor == ArchiveExtractor,
    {
        PaperProcessor { extractor: ArchiveExtractor::new() }
    }

    /// Brings every run of spaces down to one space and every run of three
    /// or more line ends down to two. In the result neither two spaces nor
    /// three line ends stand in a row.
    pub fn squeeze(&self, text: &str) -> (r: String)
        ensures
            r@ == squeezed(text@),
            !contains(r@, double_space()),
            !contains(r@, two_blank_lines()),
    {
        let chars = to_chars(text);
        let mut kept: Vec<char> = Vec::new();
        let n = chars.len();
        let mut i: usize = 0;
        assert(chars@.take(0) == Seq::<char>::empty());
        while i < n
            invariant
                i <= n,
                n == chars.len(),
                kept@ == squeezed(chars@.take(i as int)),
            decreases n - i,
        {
            assert(chars@.take(i + 1).drop_last() == chars@.take(i as int));
            let c = chars[i];
            let m = kept.len();
            let space_run = c == ' ' && m >= 1 && kept[m - 1] == ' ';
            let line_run = c == '\n' && m >= 2 && kept[m - 1] == '\n' && kept[m - 2] == '\n';
            if !space_run && !line_run {
                kept.push(c);
            }
            i += 1;
        }
        assert(chars@.take(n as int) == chars@);
        proof {
            lemma_squeezed_has_no_runs(text@);
        }
        from_chars(&kept)
    }

    /// `text` without its leading and trailing whitespace.
    pub fn trimmed(&self, text: &str) -> (r: String)
        ensures
            r@ == trim(text@),
    {
        from_chars(&trim_chars(&to_chars(text)))
    }

    /// Whether `pattern` has no match in `text`.
    pub fn has_no_match(&self, pattern: &str, text: &str) -> (r: bool)
        ensures
            r == unmatched(pattern@, text@),
    {
        find_first(pattern, text, 0).is_none()
    }

    /// Whether none of the five patterns of cleaning has a match in `text`.
    pub fn finds_no_pattern(&self, text: &str) -> (r: bool)
        ensures
            r == patterns_unmatched(text@),
    {
        self.has_no_match(COMMENT_PATTERN, text) && self.has_no_match(DECLARATION_PATTERN, text)
            && self.has_no_match(ENVIRONMENT_PATTERN, text) && self.has_no_match(
            FORMATTING_PATTERN,
            text,
        ) && self.has_no_match(BLANK_LINES_PATTERN, text)
    }

    /// Whether cleaning finds nothing to do in `text`. Cleaning such a text
    /// gives it back as it is.
    pub fn is_clean(&self, text: &str) -> (r: bool)
        ensures
            r == settled(text@),
            r ==> clean(text@) == text@,
    {
        let chars = to_chars(text);
        let three_ends: Vec<char> = vec!['\n', '\n', '\n'];
        let two_spaces: Vec<char> = vec![' ', ' '];
        assert(three_ends@ == two_blank_lines());
        assert(two_spaces@ == double_space());
        let r = self.finds_no_pattern(text) && !contains_chars(&chars, &three_ends)
            && !contains_chars(&chars, &two_spaces) && same_chars(&trim_chars(&chars), &chars);
        proof {
            if r {
                lemma_clean_settled(text@);
            }
        }
        r
    }

    /// Strips comments, declarations, environment markers and formatting
    /// commands, squeezes blank space and trims. The result has no
    /// whitespace at either end and neither two spaces nor three line ends
    /// in a row. A text in which there is nothing to do comes back as it is,
    /// and so does the result when cleaned again, unless a pattern finds a
    /// match in it.
    pub fn clean_tex_content(&self, content: &str) -> (r: String)
        ensures
            r@ == clean(content@),
            trim(r@) == r@,
            !contains(r@, double_space()),
            !contains(r@, two_blank_lines()),
            settled(content@) ==> r@ == content@,
            patterns_unmatched(r@) ==> clean(r@) == r@,
    {
        proof {
            lemma_clean_shape(content@);
            if settled(content@) {
                lemma_clean_settled(content@);
            }
            if patterns_unmatched(clean(content@)) {
                lemma_clean_idempotent(content@);
            }
        }
        let uncommented = substitute(COMMENT_PATTERN, content, "$1");
        let undeclared = substitute(DECLARATION_PATTERN, uncommented.as_str(), "");
        let unmarked = substitute(ENVIRONMENT_PATTERN, undeclared.as_str(), "");
        let plain = substitute(FORMATTING_PATTERN, unmarked.as_str(), "$2");
        let collapsed = substitute(BLANK_LINES_PATTERN, plain.as_str(), "\n\n");
        let squeezed = self.squeeze(collapsed.as_str());
        self.trimmed(squeezed.as_str())
    }

    /// The title that a match of the title command gives: its argument
    /// without backslashes, trimmed; without a match, the fallback title.
    pub fn title_from_capture(&self, found: &Option<Capture>) -> (r: String)
        ensures
            r@ == title_from(capture_view(*found)),
    {
        match found {
            Some(c) => {
                let raw = match &c.group {
                    Some(t) => to_chars(t.as_str()),
                    None => Vec::new(),
                };
                from_chars(&trim_chars(&remove_char(&raw, '\\')))
            },
            None => UNTITLED.to_owned(),
        }
    }

    /// The title of the paper: the argument of the first title command.
    pub fn extract_title(&self, content: &str) -> (r: String)
        ensures
            r@ == title_of(content@),
    {
        let found = find_first(TITLE_PATTERN, content, 1);
        self.title_from_capture(&found)
    }

    /// The names in one author field.
    pub fn split_names(&self, field: &str) -> (r: Vec<String>)
        ensures
            strings(r@) == names_in(field@),
    {
        let pieces = split_chars(&to_chars(field), ',');
        let mut names: Vec<String> = Vec::new();
        let n = pieces.len();
        let mut i: usize = 0;
        while i < n
            invariant
                i <= n,
                n == pieces.len(),
                strings(names@) == trimmed_nonempty(texts(pieces@).take(i as int)),
            decreases n - i,
        {
            assert(texts(pieces@).take(i + 1).drop_last() == texts(pieces@).take(i as int));
            let name = trim_chars(&pieces[i]);
            if name.len() > 0 {
                let ghost before = strings(names@);
                names.push(from_chars(&name));
                assert(strings(names@) == before.push(name@));
            }
            i += 1;
        }
        assert(texts(pieces@).take(n as int) == texts(pieces@));
        names
    }

    /// The authors that the matches of the author command give.
    pub fn authors_from_captures(&self, found: &Vec<Capture>) -> (r: Vec<String>)
        ensures
            strings(r@) == authors_from(capture_views(found@)),
    {
        let ghost views = capture_views(found@);
        let mut authors: Vec<String> = Vec::new();
        let n = found.len();
        let mut i: usize = 0;
        while i < n
            invariant
                i <= n,
                n == found.len(),
                views == capture_views(found@),
                strings(authors@) == authors_from(views.take(i as int)),
            decreases n - i,
        {
            assert(views.take(i + 1).drop_last() == views.take(i as int));
            assert(views.take(i + 1).last() == found@[i as int]@);
            match &found[i].group {
                Some(field) => {
                    let mut names = self.split_names(field.as_str());
                    let ghost before = strings(authors@);
                    let ghost added = strings(names@);
                    authors.append(&mut names);
                    assert(strings(authors@) == before + added);
                },
                None => {},
            }
            i += 1;
        }
        assert(views.take(n as int) == views);
        authors
    }

    /// The authors of the paper: the names in every author command, in order.
    pub fn extract_authors(&self, content: &str) -> (r: Vec<String>)
        ensures
            strings(r@) == authors_of(content@),
    {
        let found = find_all(AUTHOR_PATTERN, content, 1);
        self.authors_from_captures(&found)
    }

    /// The group texts of the matches whose group took part.
    pub fn group_texts(&self, found: &Vec<Capture>) -> (r: Vec<String>)
        ensures
            strings(r@) == groups_of(capture_views(found@)),
    {
        let ghost views = capture_views(found@);
        let mut out: Vec<String> = Vec::new();
        let n = found.len();
        let mut i: usize = 0;
        while i < n
            invariant
                i <= n,
                n == found.len(),
                views == capture_views(found@),
                strings(out@) == groups_of(views.take(i as int)),
            decreases n - i,
        {
            assert(views.take(i + 1).drop_last() == views.take(i as int));
            assert(views.take(i + 1).last() == found@[i as int]@);
            match &found[i].group {
                Some(t) => {
                    let ghost before = strings(out@);
                    out.push(t.clone());
                    assert(strings(out@) == before.push(t@));
                },
                None => {},
            }
            i += 1;
        }
        assert(views.take(n as int) == views);
        out
    }

    /// The paths given to image-inclusion commands, in order.
    pub fn extract_figures(&self, content: &str) -> (r: Vec<String>)
        ensures
            strings(r@) == figures_of(content@),
    {
        let found = find_all(FIGURE_PATTERN, content, 1);
        self.group_texts(&found)
    }

    /// Appends to `out` the trimmed group texts of `found`.
    fn push_trimmed_groups(&self, out: &mut Vec<String>, found: &Vec<Capture>)
        ensures
            strings(final(out)@) == strings(old(out)@) + each_trimmed(
                groups_of(capture_views(found@)),
            ),
    {
        let groups = self.group_texts(found);
        let ghost start = strings(out@);
        let n = groups.len();
        let mut i: usize = 0;
        while i < n
            invariant
                i <= n,
                n == groups.len(),
                strings(out@) == start + each_trimmed(strings(groups@)).take(i as int),
            decreases n - i,
        {
            let ghost before = strings(out@);
            let item = self.trimmed(groups[i].as_str());
            out.push(item);
            assert(strings(out@) == before.push(trim(groups@[i as int]@)));
            assert(each_trimmed(strings(groups@)).take(i + 1) == each_trimmed(
                strings(groups@),
            ).take(i as int).push(trim(groups@[i as int]@)));
            i += 1;
        }
        assert(each_trimmed(strings(groups@)).take(n as int) == each_trimmed(strings(groups@)));
    }

    /// The equation list that the matches of display and of inline equations
    /// give: display equations first, then inline ones, each trimmed.
    pub fn equations_from_captures(&self, display: &Vec<Capture>, inline: &Vec<Capture>) -> (r:
        Vec<String>)
        ensures
            strings(r@) == equations_from(capture_views(display@), capture_views(inline@)),
    {
        let mut equations: Vec<String> = Vec::new();
        assert(strings(equations@) == Seq::<Seq<char>>::empty());
        self.push_trimmed_groups(&mut equations, display);
        self.push_trimmed_groups(&mut equations, inline);
        equations
    }

    /// The equations of the paper: the bodies of equation environments, then
    /// the spans between single dollar signs.
    pub fn extract_equations(&self, content: &str) -> (r: Vec<String>)
        ensures
            strings(r@) == equations_of(content@),
    {
        let display = find_all(DISPLAY_EQUATION_PATTERN, content, 1);
        let inline = find_all(INLINE_EQUATION_PATTERN, content, 1);
        self.equations_from_captures(&display, &inline)
    }

    /// The abstract, given the matches of the ways of finding it in order of
    /// priority.
    pub fn abstract_from_captures(&self, found: &Vec<Option<Capture>>) -> (r: String)
        ensures
            r@ == abstract_from(optional_capture_views(found@)),
    {
        let ghost views = optional_capture_views(found@);
        let n = found.len();
        let mut i: usize = 0;
        assert(views.skip(0) == views);
        while i < n
            invariant
                i <= n,
                n == found.len(),
                views == optional_capture_views(found@),
                abstract_from(views) == abstract_from(views.skip(i as int)),
            decreases n - i,
        {
            assert(views.skip(i as int)[0] == capture_view(found@[i as int]));
            assert(views.skip(i as int).drop_first() == views.skip(i + 1));
            match &found[i] {
                Some(c) => {
                    let raw = match &c.group {
                        Some(t) => to_chars(t.as_str()),
                        None => Vec::new(),
                    };
                    let text = trim_chars(&raw);
                    if text.len() > 0 {
                        return self.clean_tex_content(from_chars(&text).as_str());
                    }
                },
                None => {},
            }
            i += 1;
        }
        String::new()
    }

    /// The abstract of the paper: from an abstract environment, else from an
    /// abstract command, else from a section named "abstract".
    pub fn extract_abstract(&self, content: &str) -> (r: String)
        ensures
            r@ == abstract_of(content@),
    {
        let mut found: Vec<Option<Capture>> = Vec::new();
        found.push(find_first(ABSTRACT_ENVIRONMENT_PATTERN, content, 1));
        found.push(find_first(ABSTRACT_COMMAND_PATTERN, content, 1));
        found.push(find_first(ABSTRACT_HEADING_PATTERN, content, 1));
        assert(optional_capture_views(found@) == seq![
            first_capture(matches_of(ABSTRACT_ENVIRONMENT_PATTERN@, content@, 1)),
            first_capture(matches_of(ABSTRACT_COMMAND_PATTERN@, content@, 1)),
            first_capture(matches_of(ABSTRACT_HEADING_PATTERN@, content@, 1)),
        ]);
        self.abstract_from_captures(&found)
    }

    /// The sections that headings in document order give.
    pub fn sections_from_headings(&self, content: &str, headings: &Vec<Heading>) -> (r: Vec<
        Section,
    >)
        requires
            sorted_by_start(heading_views(headings@)),
            headings_lie_within(heading_views(headings@), content@),
        ensures
            section_views(r@) == sections_from(content@, heading_views(headings@)),
    {
        let ghost views = heading_views(headings@);
        let ghost bytes = content.spec_bytes();
        let mut sections: Vec<Section> = Vec::new();
        let n = headings.len();
        let mut i: usize = 0;
        while i < n
            invariant
                i <= n,
                n == headings.len(),
                views == heading_views(headings@),
                bytes == content.spec_bytes(),
                sorted_by_start(views),
                headings_lie_within(views, content@),
                section_views(sections@) == sections_from(content@, views).take(i as int),
            decreases n - i,
        {
            proof {
                assert(bytes == encode_utf8(content@));
                encode_utf8_valid_utf8(content@);
                is_char_boundary_start_end_of_seq(bytes);
            }
            let from = headings[i].start;
            assert(views[i as int].start == from);
            assert(is_char_boundary(bytes, from as int));
            let to = if i + 1 < n {
                headings[i + 1].start
            } else {
                content.as_bytes().len()
            };
            proof {
                if from > bytes.len() {
                    assert(!is_char_boundary(bytes, from as int));
                }
                if i + 1 < n {
                    assert(views[i + 1].start == headings@[i + 1].start);
                    assert(is_char_boundary(bytes, views[i + 1].start as int));
                    assert(views[i as int].start <= views[i + 1].start);
                } else {
                    assert(to == bytes.len());
                }
                assert(to == crate::sections::section_end(views, i as int, bytes.len()));
            }
            let source = slice(content, from, to);
            let section = Section {
                title: headings[i].title.clone(),
                content: self.clean_tex_content(source),
                level: headings[i].level,
            };
            let ghost before = section_views(sections@);
            sections.push(section);
            assert(section_views(sections@) == before.push(sections_from(content@, views)[i as int]));
            assert(sections_from(content@, views).take(i + 1) == sections_from(
                content@,
                views,
            ).take(i as int).push(sections_from(content@, views)[i as int]));
            i += 1;
        }
        assert(sections_from(content@, views).take(n as int) == sections_from(content@, views));
        sections
    }

    /// The sections that the matches of the section command and of the
    /// subsection command give: the headings of both are merged into document
    /// order, and each section runs from its heading up to the next.
    pub fn sections_from_captures(
        &self,
        content: &str,
        sections: &Vec<Capture>,
        subsections: &Vec<Capture>,
    ) -> (r: Vec<Section>)
        requires
            forall|i: int| 0 <= i < sections.len() ==> lies_within(#[trigger] sections[i]@, content@),
            forall|i: int|
                0 <= i < subsections.len() ==> lies_within(#[trigger] subsections[i]@, content@),
        ensures
            section_views(r@) == sections_from(
                content@,
                merged_headings(capture_views(sections@), capture_views(subsections@)),
            ),
            forall|i: int| 0 <= i < r.len() ==> (#[trigger] r[i]).title@.len() > 0,
    {
        let mut headings: Vec<Heading> = Vec::new();
        assert(heading_views(headings@) == Seq::<HeadingView>::empty());
        push_headings(&mut headings, sections, 1);
        push_headings(&mut headings, subsections, 2);
        let sorted = sort_by_start(&headings);
        proof {
            let first = headings_from(capture_views(sections@), 1);
            let second = headings_from(capture_views(subsections@), 2);
            let all = first + second;
            assert(heading_views(headings@) == all);
            let bytes = encode_utf8(content@);
            let within = |h: HeadingView|
                is_char_boundary(bytes, h.start as int) && h.title.len() > 0;
            lemma_headings_from(capture_views(sections@), 1);
            lemma_headings_from(capture_views(subsections@), 2);
            assert forall|i: int| 0 <= i < all.len() implies within(#[trigger] all[i]) by {
                if i < first.len() {
                    let h = first[i];
                    let j = choose|j: int|
                        0 <= j < sections.len() && (#[trigger] capture_views(sections@)[j]).start
                            == h.start;
                    assert(lies_within(sections[j]@, content@));
                } else {
                    let h = second[i - first.len()];
                    let j = choose|j: int|
                        0 <= j < subsections.len() && (#[trigger] capture_views(
                            subsections@,
                        )[j]).start == h.start;
                    assert(lies_within(subsections[j]@, content@));
                }
            }
            lemma_sort_headings_keeps(all, within);
            lemma_sort_headings(all);
            assert forall|i: int| 0 <= i < sort_headings(all).len() implies is_char_boundary(
                bytes,
                (#[trigger] sort_headings(all)[i]).start as int,
            ) && sort_headings(all)[i].title.len() > 0 by {
                assert(within(sort_headings(all)[i]));
            }
            assert(heading_views(sorted@) == sort_headings(all));
        }
        let found = self.sections_from_headings(content, &sorted);
        assert forall|i: int| 0 <= i < found.len() implies (#[trigger] found[i]).title@.len()
            > 0 by {
            let made = sections_from(content@, heading_views(sorted@));
            assert(section_views(found@).len() == found.len());
            assert(made.len() == sorted.len());
            assert(section_views(found@)[i] == found[i]@);
            assert(made[i].title == heading_views(sorted@)[i].title);
            assert(heading_views(sorted@)[i].title.len() > 0);
        }
        found
    }

    /// The sections of the paper, in document order. Every section has a
    /// title.
    pub fn extract_sections(&self, content: &str) -> (r: Vec<Section>)
        ensures
            section_views(r@) == sections_of(content@),
            forall|i: int| 0 <= i < r.len() ==> (#[trigger] r[i]).title@.len() > 0,
    {
        let sections = find_all(SECTION_PATTERN, content, 1);
        let subsections = find_all(SUBSECTION_PATTERN, content, 1);
        self.sections_from_captures(content, &sections, &subsections)
    }

    /// The identifier of the paper whose files were unpacked into `dir`.
    pub fn paper_id(&self, dir: &FilePath) -> (r: String)
        ensures
            r@ == paper_id_of(dir@),
    {
        match dir.parent_name() {
            Some(name) => name,
            None => UNKNOWN_PAPER.to_owned(),
        }
    }

    /// Analyses a bundle: joins the texts of its markup files, the entry file
    /// first, and extracts the structured document from the joined text.
    /// Fails when no markup file could be read.
    pub fn process_extracted_content(&self, extracted: &ExtractedContent) -> (r: Result<
        ProcessedContent,
        ProcessError,
    >)
        ensures
            match r {
                Ok(document) => any_read(reading_order(extracted@)) && document@ == analysis(
                    extracted@,
                ),
                Err(e) => !any_read(reading_order(extracted@)) && e
                    == ProcessError::NoReadableSource,
            },
            r matches Ok(document) ==> forall|i: int|
                0 <= i < document.sections.len() ==> (#[trigger] document.sections[i]).title@.len()
                    > 0,
    {
        let ghost order = reading_order(extracted@);
        let ghost rest = texts_of(extracted@.tex_files);
        let mut all: Vec<char> = Vec::new();
        let mut read = false;
        let ghost mut lead: Seq<Option<Seq<char>>> = Seq::empty();
        match &extracted.main_tex_file {
            Some(file) => {
                match &file.text {
                    Some(t) => {
                        push_all(&mut all, &to_chars(t.as_str()));
                        all.push('\n');
                        all.push('\n');
                        read = true;
                    },
                    None => {},
                }
                proof {
                    lead = seq![file@.text];
                    assert(lead.drop_last() == Seq::<Option<Seq<char>>>::empty());
                    assert(joined(lead.drop_last()) == Seq::<char>::empty());
                    if file@.text is Some {
                        assert(lead[0] is Some);
                        assert(all@ == Seq::<char>::empty() + file@.text->0 + blank_line());
                    }
                }
            },
            None => {},
        }
        assert(order == lead + rest);
        assert(lead + rest.take(0) == lead);
        let n = extracted.tex_files.len();
        let mut i: usize = 0;
        while i < n
            invariant
                i <= n,
                n == extracted.tex_files.len(),
                rest == texts_of(extracted@.tex_files),
                order == lead + rest,
                all@ == joined(lead + rest.take(i as int)),
                read == any_read(lead + rest.take(i as int)),
            decreases n - i,
        {
            let ghost before = lead + rest.take(i as int);
            let ghost after = lead + rest.take(i + 1);
            proof {
                assert(after.drop_last() == before);
                assert(after.last() == extracted.tex_files@[i as int]@.text);
                assert forall|k: int| 0 <= k < before.len() implies before[k] == after[k] by {}
                if any_read(before) {
                    let k = choose|k: int| 0 <= k < before.len() && (#[trigger] before[k]) is Some;
                    assert(after[k] is Some);
                }
                if any_read(after) && after.last() is None {
                    let k = choose|k: int| 0 <= k < after.len() && (#[trigger] after[k]) is Some;
                    assert(before[k] is Some);
                }
            }
            match &extracted.tex_files[i].text {
                Some(t) => {
                    let ghost old_all = all@;
                    push_all(&mut all, &to_chars(t.as_str()));
                    all.push('\n');
                    all.push('\n');
                    read = true;
                    assert(all@ == old_all + t@ + blank_line());
                    assert(after[after.len() - 1] is Some);
                },
                None => {},
            }
            i += 1;
        }
        assert(rest.take(n as int) == rest);
        if !read {
            return Err(ProcessError::NoReadableSource);
        }
        let content = from_chars(&all);
        let mut image_files: Vec<String> = Vec::new();
        let m = extracted.image_files.len();
        let mut j: usize = 0;
        while j < m
            invariant
                j <= m,
                m == extracted.image_files.len(),
                strings(image_files@) == path_texts(extracted@.image_files).take(j as int),
            decreases m - j,
        {
            let ghost before = strings(image_files@);
            image_files.push(extracted.image_files[j].path.clone());
            assert(strings(image_files@) == before.push(extracted.image_files@[j as int]@.path));
            assert(path_texts(extracted@.image_files).take(j + 1) == path_texts(
                extracted@.image_files,
            ).take(j as int).push(extracted.image_files@[j as int]@.path));
            j += 1;
        }
        assert(path_texts(extracted@.image_files).take(m as int) == path_texts(
            extracted@.image_files,
        ));
        Ok(
            ProcessedContent {
                paper_id: self.paper_id(&extracted.extracted_dir),
                title: self.extract_title(content.as_str()),
                authors: self.extract_authors(content.as_str()),
                abstract_text: self.extract_abstract(content.as_str()),
                sections: self.extract_sections(content.as_str()),
                figure_references: self.extract_figures(content.as_str()),
                equations: self.extract_equations(content.as_str()),
                full_text: self.clean_tex_content(content.as_str()),
                image_files,
            },
        )
    }
}

impl Default for PaperProcessor {
    fn default() -> (r: PaperProcessor)
        ensures
            r.extractor == ArchiveExtractor,
    {
        PaperProcessor::new()
    }
}

impl ProcessError {
    /// A sentence that says what went wrong.
    pub fn message(&self) -> (r: String)
        ensures
            r@ == "No TeX files could be read for processing"@,
    {
        "No TeX files could be read for processing".to_owned()
    }
}

} // verus!
