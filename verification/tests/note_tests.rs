use paper_scan::llm_client::{
    bearer, chat_endpoint, chat_messages, check_status, first_reply, with_image_list, Choice,
    LlmError, Message, OpenAIResponse, Usage,
};
use paper_scan::note_generator::{
    assemble_note, format_paper_content, note_dir, note_file, post_process_latex,
};
use paper_scan::processor::{ProcessedContent, Section};

fn document() -> ProcessedContent {
    ProcessedContent {
        paper_id: "2401.08027".to_string(),
        title: "Foo".to_string(),
        authors: vec!["Jane Doe".to_string(), "John Roe".to_string()],
        abstract_text: "Summary.".to_string(),
        sections: vec![
            Section { title: "Intro".to_string(), content: "Hello.".to_string(), level: 1 },
            Section { title: "Sub".to_string(), content: "World.".to_string(), level: 2 },
        ],
        figure_references: vec![],
        equations: vec!["E=mc^2".to_string(), "a+b".to_string()],
        full_text: String::new(),
        image_files: vec![],
    }
}

#[test]
fn summary_lists_title_authors_abstract_sections_and_equations() {
    let expected = "论文标题: Foo\n\n作者: Jane Doe, John Roe\n\n摘要:\nSummary.\n\n章节内容:\n# Intro\nHello.\n\n## Sub\nWorld.\n\n重要公式:\n公式 1: E=mc^2\n公式 2: a+b\n\n";
    assert_eq!(format_paper_content(&document()), expected);
}

#[test]
fn summary_without_equations_has_no_equation_block() {
    let mut doc = document();
    doc.equations.clear();
    doc.sections.clear();
    doc.authors.clear();
    assert_eq!(format_paper_content(&doc), "论文标题: Foo\n\n作者: \n\n摘要:\nSummary.\n\n章节内容:\n");
}

#[test]
fn fences_are_taken_off_the_first_and_last_line() {
    assert_eq!(post_process_latex("```latex\n\\section{A}\ntext\n```"), "\\section{A}\ntext");
    assert_eq!(post_process_latex("  ```\nbody\n  ```  \n"), "body");
    assert_eq!(post_process_latex("```latex\nbody"), "body");
    assert_eq!(post_process_latex("body\n```"), "body");
    assert_eq!(post_process_latex("```"), "");
    assert_eq!(post_process_latex(""), "");
}

#[test]
fn text_without_fences_is_only_relocated_and_trimmed() {
    assert_eq!(post_process_latex("\n a\r\nb \n"), "a\r\nb");
    assert_eq!(
        post_process_latex("\\includegraphics{output/x/a.png} and \\input{output/y}"),
        "\\includegraphics{../../output/x/a.png} and \\input{../../output/y}"
    );
    assert_eq!(post_process_latex("a ``` b"), "a ``` b");
}

#[test]
fn note_takes_identifier_and_title_from_the_document() {
    let note = assemble_note(&document(), "```\n{output/f}\n```", "2026-01-01T00:00:00+00:00".to_string());
    assert_eq!(note.paper_id, "2401.08027");
    assert_eq!(note.title, "Foo");
    assert_eq!(note.latex_content, "{../../output/f}");
    assert_eq!(note.metadata.generated_at, "2026-01-01T00:00:00+00:00");
    assert_eq!(note.metadata.model_used, "gpt-3.5-turbo");
    assert_eq!(note.metadata.prompt_tokens, None);
    assert_eq!(note.metadata.completion_tokens, None);
    assert_eq!(note.metadata.total_tokens, None);
}

#[test]
fn notes_are_kept_under_the_identifier_of_the_paper() {
    assert_eq!(note_dir("2401.08027").path, "tex/2401.08027");
    let file = note_file("2401.08027", "2401.08027");
    assert_eq!(file.path, "tex/2401.08027/2401.08027.tex");
    assert_eq!(file.components, vec!["tex", "2401.08027", "2401.08027.tex"]);
}

#[test]
fn conversation_has_the_instructions_then_the_paper() {
    let messages = chat_messages("be brief", "the paper");
    assert_eq!(messages.len(), 2);
    assert_eq!((messages[0].role.as_str(), messages[0].content.as_str()), ("system", "be brief"));
    assert_eq!((messages[1].role.as_str(), messages[1].content.as_str()), ("user", "the paper"));
}

#[test]
fn request_address_and_header_are_built_from_the_settings() {
    assert_eq!(chat_endpoint("https://api.example/v1"), "https://api.example/v1/chat/completions");
    assert_eq!(bearer("key"), "Bearer key");
}

#[test]
fn reply_is_the_trimmed_content_of_the_first_choice() {
    let choice = |text: &str| Choice {
        message: Message { role: "assistant".to_string(), content: text.to_string() },
        finish_reason: Some("stop".to_string()),
    };
    let response = OpenAIResponse {
        choices: vec![choice("  first \n"), choice("second")],
        usage: Some(Usage { prompt_tokens: 1, completion_tokens: 2, total_tokens: 3 }),
    };
    assert_eq!(first_reply(&response), Ok("first".to_string()));
    let empty = OpenAIResponse { choices: vec![], usage: None };
    assert_eq!(first_reply(&empty), Err(LlmError::NoResponse));
}

#[test]
fn failed_requests_are_told_by_their_status() {
    assert_eq!(check_status(200), Ok(()));
    assert_eq!(check_status(500), Err(LlmError::RequestFailed(500)));
    assert_eq!(LlmError::RequestFailed(500).message(), "API request failed: HTTP 500");
    assert_eq!(LlmError::NoResponse.message(), "No response from API");
}

#[test]
fn image_list_is_numbered_from_one() {
    let images = vec!["a.png".to_string(), "fig/b.pdf".to_string()];
    assert_eq!(
        with_image_list("paper", &images),
        "paper\n\n图像文件列表:\n- 图像 1: a.png\n- 图像 2: fig/b.pdf\n"
    );
    assert_eq!(with_image_list("paper", &vec![]), "paper");
}
