use paper_scan::pattern::Capture;
use paper_scan::processor::PaperProcessor;

fn capture(start: usize, group: Option<&str>) -> Capture {
    Capture { start, group: group.map(|g| g.to_string()) }
}

#[test]
fn clean_strips_comments_to_the_end_of_the_line() {
    let p = PaperProcessor::new();
    assert_eq!(p.clean_tex_content("keep % drop this\nnext"), "keep \nnext");
    assert_eq!(p.clean_tex_content("% whole line\nnext"), "next");
}

#[test]
fn clean_keeps_an_escaped_percent_sign() {
    let p = PaperProcessor::new();
    assert_eq!(p.clean_tex_content("50\\% of cases"), "50\\% of cases");
}

#[test]
fn clean_drops_declarations_with_their_argument() {
    let p = PaperProcessor::new();
    assert_eq!(
        p.clean_tex_content("\\documentclass{article}\\usepackage{amsmath}\\pagestyle{empty}Text"),
        "Text"
    );
    assert_eq!(p.clean_tex_content("\\geometry{margin=1in}\\hypersetup{colorlinks}Body"), "Body");
}

#[test]
fn clean_drops_environment_markers_and_keeps_what_is_between() {
    let p = PaperProcessor::new();
    assert_eq!(p.clean_tex_content("\\begin{center}middle\\end{center}"), "middle");
}

#[test]
fn clean_keeps_the_argument_of_formatting_commands() {
    let p = PaperProcessor::new();
    assert_eq!(
        p.clean_tex_content("\\textbf{bold} and \\emph{soft} and \\texttt{code} \\Large{big}"),
        "bold and soft and code big"
    );
}

#[test]
fn clean_squeezes_blank_lines_and_spaces() {
    let p = PaperProcessor::new();
    assert_eq!(p.clean_tex_content("a\n\n\n\n\nb"), "a\n\nb");
    assert_eq!(p.clean_tex_content("a  b"), "a b");
    assert_eq!(p.clean_tex_content("  \n a \n\n"), "a");
}

#[test]
fn squeeze_brings_every_run_down() {
    let p = PaperProcessor::new();
    assert_eq!(p.squeeze("a    b"), "a b");
    assert_eq!(p.squeeze("a   b"), "a b");
    assert_eq!(p.squeeze("a  b  c     d"), "a b c d");
    assert_eq!(p.squeeze("x\n\n\ny"), "x\n\ny");
    assert_eq!(p.squeeze("x\n\n\n\n\n\ny"), "x\n\ny");
    assert_eq!(p.squeeze("x\n\ny\nz w"), "x\n\ny\nz w");
    assert_eq!(p.squeeze("  \n\n\n  "), " \n\n ");
    assert_eq!(p.squeeze(" \n \n \n"), " \n \n \n");
    assert_eq!(p.squeeze("a\t\tb"), "a\t\tb");
    assert_eq!(p.squeeze(""), "");
}

#[test]
fn cleaning_a_clean_text_changes_nothing() {
    let p = PaperProcessor::new();
    let once = p.clean_tex_content("\\section{A} \\textbf{b}  % c\n\n\n\nd  ");
    let twice = p.clean_tex_content(&once);
    assert_eq!(once, twice);
    assert_eq!(p.clean_tex_content("plain text"), "plain text");
}

#[test]
fn cleaning_brings_a_run_of_four_spaces_down_to_one() {
    let p = PaperProcessor::new();
    let once = p.clean_tex_content("a    b");
    assert_eq!(once, "a b");
    assert_eq!(p.clean_tex_content(&once), "a b");
}

#[test]
fn cleaning_a_cleaned_text_changes_nothing() {
    let p = PaperProcessor::new();
    let texts = [
        "a    b",
        "a\n\n\n\n\n\n\nb",
        "  x \n \n \n  y  ",
        "\\section{A}   \\textbf{b}  % c\n\n\n\nd  ",
        "\\begin{abstract}\n  two  spaces \n\n\n\n\\end{abstract}",
        "%\n%\n%\n",
        "50\\% of   all",
        "",
    ];
    for text in texts {
        let once = p.clean_tex_content(text);
        assert!(!once.contains("  "), "{:?}", once);
        assert!(!once.contains("\n\n\n"), "{:?}", once);
        assert_eq!(once.trim(), once);
        assert!(p.finds_no_pattern(&once), "{:?}", once);
        assert!(p.is_clean(&once), "{:?}", once);
        assert_eq!(p.clean_tex_content(&once), once, "{:?}", text);
    }
}

#[test]
fn a_command_laid_bare_by_cleaning_is_found_by_cleaning_again() {
    let p = PaperProcessor::new();
    let once = p.clean_tex_content("\\textbf{\\emph{x}}");
    assert_eq!(once, "\\emph{x}");
    assert!(!p.finds_no_pattern(&once));
    assert_eq!(p.clean_tex_content(&once), "x");
}

#[test]
fn title_is_the_first_title_argument_without_backslashes() {
    let p = PaperProcessor::new();
    assert_eq!(p.extract_title("\\title{ A \\LaTeX\\ Paper }\\title{Second}"), "A LaTeX Paper");
}

#[test]
fn title_falls_back_when_there_is_no_title_command() {
    let p = PaperProcessor::new();
    assert_eq!(p.extract_title("no command here"), "Untitled");
    assert_eq!(p.extract_title(""), "Untitled");
    assert_eq!(p.title_from_capture(&None), "Untitled");
}

#[test]
fn title_from_capture_strips_and_trims() {
    let p = PaperProcessor::new();
    assert_eq!(p.title_from_capture(&Some(capture(0, Some(" \\bf X ")))), "bf X");
    assert_eq!(p.title_from_capture(&Some(capture(0, None))), "");
}

#[test]
fn authors_of_two_commands_are_flattened_in_order() {
    let p = PaperProcessor::new();
    assert_eq!(
        p.extract_authors("\\author{A, B} text \\author{C}"),
        vec!["A".to_string(), "B".to_string(), "C".to_string()]
    );
}

#[test]
fn authors_keep_duplicates_and_drop_empty_pieces() {
    let p = PaperProcessor::new();
    assert_eq!(
        p.extract_authors("\\author{ Ann ,, Bob , }\\author{Ann}"),
        vec!["Ann".to_string(), "Bob".to_string(), "Ann".to_string()]
    );
    assert!(p.extract_authors("nobody").is_empty());
}

#[test]
fn split_names_trims_each_piece() {
    let p = PaperProcessor::new();
    assert_eq!(p.split_names(" x ,y"), vec!["x".to_string(), "y".to_string()]);
    assert!(p.split_names(" , ").is_empty());
}

#[test]
fn abstract_environment_wins_over_abstract_heading() {
    let p = PaperProcessor::new();
    let text = "\\section{abstract}From heading. \\begin{abstract}From environment.\\end{abstract}";
    assert_eq!(p.extract_abstract(text), "From environment.");
}

#[test]
fn abstract_environment_may_span_lines() {
    let p = PaperProcessor::new();
    assert_eq!(
        p.extract_abstract("\\begin{abstract}\nLine one.\nLine two.\n\\end{abstract}"),
        "Line one.\nLine two."
    );
    assert_eq!(
        p.extract_abstract("\\begin{abstract}\r\n  First.\r\n\\end{abstract} x \\begin{abstract}Second.\\end{abstract}"),
        "First."
    );
}

#[test]
fn abstract_command_is_second_and_heading_third() {
    let p = PaperProcessor::new();
    assert_eq!(
        p.extract_abstract("\\section{Abstract}Heading text \\abstract{Command text}"),
        "Command text"
    );
    assert_eq!(p.extract_abstract("\\section*{ABSTRACT} Heading text \\section{Intro}"), "Heading text");
    assert_eq!(p.extract_abstract("nothing of the kind"), "");
}

#[test]
fn abstract_skips_a_way_that_offers_only_blank_text() {
    let p = PaperProcessor::new();
    assert_eq!(
        p.extract_abstract("\\begin{abstract}   \\end{abstract}\\abstract{Real one}"),
        "Real one"
    );
    let found = vec![Some(capture(0, Some("  "))), None, Some(capture(2, Some(" \\textbf{x} ")))];
    assert_eq!(p.abstract_from_captures(&found), "x");
    assert_eq!(p.abstract_from_captures(&vec![]), "");
}

#[test]
fn equations_list_display_before_inline() {
    let p = PaperProcessor::new();
    let text = "\\begin{equation}E1\\end{equation} then $e1$ and \\begin{equation} E2 \\end{equation}";
    assert_eq!(
        p.extract_equations(text),
        vec!["E1".to_string(), "E2".to_string(), "e1".to_string()]
    );
}

#[test]
fn display_equations_may_span_lines() {
    let p = PaperProcessor::new();
    assert_eq!(p.extract_equations("\\begin{equation}\na=b\n\\end{equation}"), vec!["a=b".to_string()]);
    let text = "\\begin{equation}\n  x = 1\n  + 2\n\\end{equation}\nand $y$\n\\begin{equation}z\\end{equation}";
    assert_eq!(
        p.extract_equations(text),
        vec!["x = 1\n  + 2".to_string(), "z".to_string(), "y".to_string()]
    );
}

#[test]
fn equations_from_captures_trims_and_skips_absent_groups() {
    let p = PaperProcessor::new();
    let display = vec![capture(0, Some(" a ")), capture(1, None)];
    let inline = vec![capture(3, Some("b "))];
    assert_eq!(p.equations_from_captures(&display, &inline), vec!["a".to_string(), "b".to_string()]);
}

#[test]
fn figures_are_the_path_arguments_in_order() {
    let p = PaperProcessor::new();
    let text = "\\includegraphics[width=3cm]{fig/a.png} \\includegraphics{b.pdf} \\includegraphics{fig/a.png}";
    assert_eq!(
        p.extract_figures(text),
        vec!["fig/a.png".to_string(), "b.pdf".to_string(), "fig/a.png".to_string()]
    );
}

#[test]
fn sections_come_in_document_order_whatever_their_level() {
    let p = PaperProcessor::new();
    let text = "preamble \\section{One}first \\subsection{Inner}second \\section{Two}third";
    let sections = p.extract_sections(text);
    let found: Vec<(&str, u8, &str)> =
        sections.iter().map(|s| (s.title.as_str(), s.level, s.content.as_str())).collect();
    assert_eq!(
        found,
        vec![
            ("One", 1, "\\section{One}first"),
            ("Inner", 2, "\\subsection{Inner}second"),
            ("Two", 1, "\\section{Two}third"),
        ]
    );
}

#[test]
fn sections_slice_text_with_wide_characters() {
    let p = PaperProcessor::new();
    let text = "é\\section{Über}größe\\subsection{日本}語";
    let sections = p.extract_sections(text);
    assert_eq!(sections.len(), 2);
    assert_eq!(sections[0].title, "Über");
    assert_eq!(sections[0].content, "\\section{Über}größe");
    assert_eq!(sections[1].title, "日本");
    assert_eq!(sections[1].content, "\\subsection{日本}語");
}

#[test]
fn sections_from_captures_merges_by_offset() {
    let p = PaperProcessor::new();
    let text = "\\subsection{b}x\\section{a}y";
    let sections = vec![capture(15, Some("a"))];
    let subsections = vec![capture(0, Some("b"))];
    let found = p.sections_from_captures(text, &sections, &subsections);
    assert_eq!(found.len(), 2);
    assert_eq!((found[0].title.as_str(), found[0].level), ("b", 2));
    assert_eq!(found[0].content, "\\subsection{b}x");
    assert_eq!((found[1].title.as_str(), found[1].level), ("a", 1));
    assert_eq!(found[1].content, "\\section{a}y");
}

#[test]
fn no_heading_gives_no_section() {
    let p = PaperProcessor::new();
    assert!(p.extract_sections("just text").is_empty());
}

#[test]
fn is_clean_tells_whether_cleaning_would_change_a_text() {
    let p = PaperProcessor::new();
    assert!(p.is_clean("plain text"));
    assert!(p.is_clean(""));
    assert!(!p.is_clean("a  b"));
    assert!(!p.is_clean(" a"));
    assert!(!p.is_clean("a % comment"));
    assert!(!p.is_clean("\\textbf{a}"));
    assert!(!p.is_clean("\\begin{x}"));
    assert!(!p.is_clean("\\usepackage{x}"));
    assert!(!p.is_clean("a\n\n\nb"));
    assert!(!p.is_clean("a\n \n \nb"));
    for text in ["\\section{A} \\textbf{b}  % c\n\n\n\nd  ", "x\n\ny", "50\\% of all"] {
        let once = p.clean_tex_content(text);
        assert!(p.is_clean(&once), "{:?}", once);
        assert_eq!(p.clean_tex_content(&once), once);
    }
    let once = p.clean_tex_content("a    b");
    assert!(p.is_clean(&once));
}

#[test]
fn has_no_match_looks_for_one_pattern() {
    let p = PaperProcessor::new();
    assert!(p.has_no_match(r"\\title\{([^}]*)\}", "no title"));
    assert!(!p.has_no_match(r"\\title\{([^}]*)\}", "\\title{x}"));
    assert!(p.has_no_match(r"(", "("));
}
