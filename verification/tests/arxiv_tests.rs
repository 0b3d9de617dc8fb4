use paper_scan::arxiv::{batch_urls, extract_paper_id, paper_id_from_captures, ArxivError, ArxivUrl};
use paper_scan::pattern::Capture;

#[test]
fn parse_reads_the_identifier_of_an_abstract_page() {
    let url = ArxivUrl::parse("https://arxiv.org/abs/2401.08027").unwrap();
    assert_eq!(url.paper_id(), "2401.08027");
    assert_eq!(url.paper_id, "2401.08027");
    assert_eq!(url.src_url, "https://arxiv.org/src/2401.08027");
}

#[test]
fn parse_reads_versions_and_pdf_pages() {
    assert_eq!(ArxivUrl::parse("https://arxiv.org/pdf/2401.08027v3").unwrap().paper_id, "2401.08027v3");
    assert_eq!(ArxivUrl::parse("http://arxiv.org/abs/1706.03762?context=cs").unwrap().paper_id, "1706.03762");
}

#[test]
fn parse_reads_identifiers_of_the_old_form() {
    let url = ArxivUrl::parse("https://arxiv.org/abs/hep-th/9901001v2").unwrap();
    assert_eq!(url.paper_id, "hep-th/9901001v2");
    assert_eq!(url.src_url, "https://arxiv.org/src/hep-th/9901001v2");
}

#[test]
fn parse_works_on_the_serialization_of_the_url() {
    assert_eq!(extract_paper_id("HTTPS://ARXIV.ORG/abs/2401.08027").err(), Some(ArxivError::NoPaperId));
    assert_eq!(ArxivUrl::parse("HTTPS://ARXIV.ORG/abs/2401.08027").unwrap().paper_id, "2401.08027");
}

#[test]
fn parse_rejects_what_is_no_absolute_url() {
    assert_eq!(ArxivUrl::parse("arxiv.org/abs/2401.08027").err(), Some(ArxivError::InvalidUrl));
    assert_eq!(ArxivUrl::parse("").err(), Some(ArxivError::InvalidUrl));
}

#[test]
fn parse_rejects_a_url_without_identifier() {
    assert_eq!(ArxivUrl::parse("https://example.org/abs/2401.08027").err(), Some(ArxivError::NoPaperId));
    assert_eq!(ArxivUrl::parse("https://arxiv.org/list/cs.AI/recent").err(), Some(ArxivError::NoPaperId));
}

#[test]
fn the_identifier_of_the_current_form_comes_first() {
    let current = Some(Capture { start: 0, group: Some("2401.08027".to_string()) });
    let old = Some(Capture { start: 0, group: Some("hep-th/9901001".to_string()) });
    assert_eq!(paper_id_from_captures(&current, &old), Ok("2401.08027".to_string()));
    assert_eq!(paper_id_from_captures(&None, &old), Ok("hep-th/9901001".to_string()));
    let empty = Some(Capture { start: 0, group: None });
    assert_eq!(paper_id_from_captures(&empty, &None), Err(ArxivError::NoPaperId));
    assert_eq!(paper_id_from_captures(&None, &None), Err(ArxivError::NoPaperId));
}

#[test]
fn for_paper_builds_the_source_address() {
    let url = ArxivUrl::for_paper("1234.5678".to_string());
    assert_eq!(url.paper_id, "1234.5678");
    assert_eq!(url.src_url, "https://arxiv.org/src/1234.5678");
}

#[test]
fn batch_file_gives_one_address_for_each_line_that_is_not_blank() {
    let content = "https://arxiv.org/abs/1\n\n   \n  https://arxiv.org/abs/2  \r\nlast";
    assert_eq!(
        batch_urls(content),
        vec!["https://arxiv.org/abs/1".to_string(), "  https://arxiv.org/abs/2  ".to_string(), "last".to_string()]
    );
    assert!(batch_urls("").is_empty());
    assert!(batch_urls("\n \n").is_empty());
}

#[test]
fn arxiv_errors_have_messages() {
    assert_eq!(ArxivError::NoPaperId.message(), "Invalid arXiv URL format");
    assert_eq!(ArxivError::InvalidUrl.message(), "not an absolute URL");
    assert_eq!(ArxivError::InvalidPattern.message(), "a paper identifier pattern did not compile");
}
