use paper_scan::extractor::{ExtractedContent, SourceFile};
use paper_scan::paths::FilePath;
use paper_scan::processor::{PaperProcessor, ProcessError};

fn path(text: &str) -> FilePath {
    FilePath::new(
        text.to_string(),
        text.split('/').filter(|c| !c.is_empty()).map(|c| c.to_string()).collect(),
    )
}

fn source(name: &str, text: Option<&str>) -> SourceFile {
    SourceFile::new(path(name), text.map(|t| t.to_string()))
}

const FILE_ONE: &str = "\\documentclass{article}\\title{Foo}\\author{Jane Doe}\\begin{abstract}Summary.\\end{abstract}\\section{Intro}Hello.\\subsection{Sub}World.";
const FILE_TWO: &str = "\\section{Next}More.";

#[test]
fn two_files_without_entry_give_the_document() {
    let extracted = ExtractedContent {
        tex_files: vec![
            source("output/2401.08027/extracted/one.tex", Some(FILE_ONE)),
            source("output/2401.08027/extracted/two.tex", Some(FILE_TWO)),
        ],
        bib_files: vec![],
        image_files: vec![path("output/2401.08027/extracted/fig.png")],
        main_tex_file: None,
        extracted_dir: path("output/2401.08027/extracted"),
    };
    let doc = PaperProcessor::new().process_extracted_content(&extracted).unwrap();
    assert_eq!(doc.paper_id, "2401.08027");
    assert_eq!(doc.title, "Foo");
    assert_eq!(doc.authors, vec!["Jane Doe".to_string()]);
    assert_eq!(doc.abstract_text, "Summary.");
    let found: Vec<(&str, u8)> = doc.sections.iter().map(|s| (s.title.as_str(), s.level)).collect();
    assert_eq!(found, vec![("Intro", 1), ("Sub", 2), ("Next", 1)]);
    assert!(doc.sections[0].content.contains("Hello."));
    assert!(doc.sections[1].content.contains("World."));
    assert!(doc.sections[2].content.contains("More."));
    assert_eq!(doc.image_files, vec!["output/2401.08027/extracted/fig.png".to_string()]);
    println!("{:?}", doc);
}

#[test]
fn no_readable_file_is_an_error() {
    let extracted = ExtractedContent {
        tex_files: vec![source("p/x/extracted/one.tex", None)],
        bib_files: vec![],
        image_files: vec![],
        main_tex_file: None,
        extracted_dir: path("p/x/extracted"),
    };
    let r = PaperProcessor::new().process_extracted_content(&extracted);
    assert_eq!(r.err(), Some(ProcessError::NoReadableSource));
}

#[test]
fn entry_file_is_read_first_and_once_more_among_the_markup_files() {
    let extracted = ExtractedContent {
        tex_files: vec![
            source("out/id/extracted/one.tex", Some(FILE_ONE)),
            source("out/id/extracted/two.tex", Some(FILE_TWO)),
        ],
        bib_files: vec![],
        image_files: vec![],
        main_tex_file: Some(source("out/id/extracted/one.tex", Some(FILE_ONE))),
        extracted_dir: path("out/id/extracted"),
    };
    let doc = PaperProcessor::new().process_extracted_content(&extracted).unwrap();
    assert_eq!(doc.paper_id, "id");
    assert_eq!(doc.title, "Foo");
    assert_eq!(doc.abstract_text, "Summary.");
    assert_eq!(doc.authors, vec!["Jane Doe".to_string(), "Jane Doe".to_string()]);
    let found: Vec<(&str, u8)> = doc.sections.iter().map(|s| (s.title.as_str(), s.level)).collect();
    assert_eq!(found, vec![("Intro", 1), ("Sub", 2), ("Intro", 1), ("Sub", 2), ("Next", 1)]);
    assert!(doc.sections[0].content.contains("Hello."));
    assert!(doc.sections[1].content.contains("World."));
    assert!(doc.sections[4].content.contains("More."));
}

#[test]
fn unreadable_files_are_passed_over_when_another_can_be_read() {
    let extracted = ExtractedContent {
        tex_files: vec![source("p/x/e/bad.tex", None), source("p/x/e/two.tex", Some(FILE_TWO))],
        bib_files: vec![],
        image_files: vec![],
        main_tex_file: Some(source("p/x/e/bad.tex", None)),
        extracted_dir: path("p/x/e"),
    };
    let doc = PaperProcessor::new().process_extracted_content(&extracted).unwrap();
    assert_eq!(doc.title, "Untitled");
    assert!(doc.authors.is_empty());
    assert_eq!(doc.abstract_text, "");
    assert_eq!(doc.full_text, "\\section{Next}More.");
    assert_eq!(doc.sections.len(), 1);
    assert_eq!(doc.sections[0].content, "\\section{Next}More.");
    assert!(doc.figure_references.is_empty());
    assert!(doc.equations.is_empty());
}

#[test]
fn texts_are_joined_with_a_blank_line_behind_each() {
    let extracted = ExtractedContent {
        tex_files: vec![source("e/a.tex", Some("\\title{T}$x$")), source("e/b.tex", Some("$y$ tail"))],
        bib_files: vec![],
        image_files: vec![],
        main_tex_file: None,
        extracted_dir: path("e"),
    };
    let doc = PaperProcessor::new().process_extracted_content(&extracted).unwrap();
    assert_eq!(doc.full_text, "\\title{T}$x$\n\n$y$ tail");
    assert_eq!(doc.equations, vec!["x".to_string(), "y".to_string()]);
    assert_eq!(doc.paper_id, "unknown");
}

#[test]
fn paper_identifier_is_the_name_of_the_directory_above() {
    let p = PaperProcessor::new();
    assert_eq!(p.paper_id(&path("output/2401.08027/extracted")), "2401.08027");
    assert_eq!(p.paper_id(&path("/abs/output/hep-th/9901001/extracted")), "9901001");
    assert_eq!(p.paper_id(&path("extracted")), "unknown");
    assert_eq!(p.paper_id(&path("")), "unknown");
}

#[test]
fn a_heading_without_title_opens_no_section() {
    let p = PaperProcessor::new();
    let sections = p.extract_sections("\\section{A}one\\section{}two\\subsection{B}three");
    let found: Vec<(&str, &str)> =
        sections.iter().map(|s| (s.title.as_str(), s.content.as_str())).collect();
    assert_eq!(found, vec![("A", "\\section{A}one\\section{}two"), ("B", "\\subsection{B}three")]);
}

#[test]
fn section_pieces_put_together_are_the_text_from_the_first_heading_on() {
    let p = PaperProcessor::new();
    let text = "before\\section{A}one two\\subsection{B}three\\section{C}four";
    let sections = p.extract_sections(text);
    let together: String = sections.iter().map(|s| s.content.as_str()).collect();
    assert_eq!(together, "\\section{A}one two\\subsection{B}three\\section{C}four");
    assert_eq!(format!("before{}", together), text);
}

#[test]
fn default_processor_is_a_new_one() {
    let doc = PaperProcessor::default().extract_title("\\title{X}");
    assert_eq!(doc, "X");
}
