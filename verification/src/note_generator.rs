//! The text handed to the note writer, and the note made of its answer.

use crate::paths::{joined_path, FilePath, FilePathView};
use crate::processor::{blank_line, ProcessedContent, ProcessedContentView, SectionView};
use crate::text::{
    decimal, decimal_chars, from_chars, join, join_range, lines, lines_of, matches_at, occurs_at,
    push_all, repeat_char, repeated, replace, replace_chars, same_chars, strings, texts, to_chars,
    trim, trim_chars,
};
use vstd::prelude::*;

verus! {

/// The model that notes are attributed to.
pub const NOTE_MODEL: &'static str = "gpt-3.5-turbo";

/// The mark that opens or closes a fenced block of code.
pub const FENCE: &'static str = "```";

/// What the path of an output file starts with inside braces.
pub const OUTPUT_REFERENCE: &'static str = "{output/";

/// The same, as seen from the directory in which notes are kept.
pub const RELOCATED_REFERENCE: &'static str = "{../../output/";

/// The directory under which the notes are kept, each in a directory named
/// after its paper.
pub const NOTES_ROOT: &'static str = "tex";

/// What the name of a note file ends with.
pub const NOTE_SUFFIX: &'static str = ".tex";

/// The directory of the notes on the paper with identifier `id`.
pub open spec fn note_dir_of(id: Seq<char>) -> FilePathView {
    joined_path(FilePathView { path: NOTES_ROOT@, components: seq![NOTES_ROOT@] }, id)
}

/// The file of the note on the paper with identifier `id`, named after the
/// identifier `name` that the analysis gave the paper.
pub open spec fn note_file_of(id: Seq<char>, name: Seq<char>) -> FilePathView {
    joined_path(note_dir_of(id), name + NOTE_SUFFIX@)
}

/// The directory of the notes on a paper. A paper whose directory exists
/// has its note already.
pub fn note_dir(paper_id: &str) -> (r: FilePath)
    ensures
        r@ == note_dir_of(paper_id@),
{
    let mut names: Vec<String> = Vec::new();
    names.push(NOTES_ROOT.to_owned());
    assert(strings(names@) == seq![NOTES_ROOT@]);
    FilePath::new(NOTES_ROOT.to_owned(), names).join(paper_id)
}

/// The file into which the note on a paper is written.
pub fn note_file(paper_id: &str, document_id: &str) -> (r: FilePath)
    ensures
        r@ == note_file_of(paper_id@, document_id@),
{
    let mut name = to_chars(document_id);
    push_all(&mut name, &to_chars(NOTE_SUFFIX));
    note_dir(paper_id).join(from_chars(&name).as_str())
}

/// When and by what a note was made.
#[derive(Debug)]
pub struct NoteMetadata {
    pub generated_at: String,
    pub model_used: String,
    pub prompt_tokens: Option<u32>,
    pub completion_tokens: Option<u32>,
    pub total_tokens: Option<u32>,
}

/// A note on a paper.
#[derive(Debug)]
pub struct GeneratedNote {
    pub paper_id: String,
    pub title: String,
    pub latex_content: String,
    pub metadata: NoteMetadata,
}

/// The block of one section: a mark of as many `#` as its level, its title,
/// and its content, followed by a blank line.
pub open spec fn section_block(s: SectionView) -> Seq<char> {
    repeated('#', s.level as nat) + seq![' '] + s.title + seq!['\n'] + s.content + blank_line()
}

/// The blocks of the sections, in order.
pub open spec fn section_blocks(sections: Seq<SectionView>) -> Seq<char>
    decreases sections.len(),
{
    if sections.len() == 0 {
        Seq::empty()
    } else {
        section_blocks(sections.drop_last()) + section_block(sections.last())
    }
}

/// The line of the equation at index `i`, numbered from 1.
pub open spec fn equation_line(i: nat, equation: Seq<char>) -> Seq<char> {
    "公式 "@ + decimal(i + 1) + ": "@ + equation + seq!['\n']
}

/// The lines of the equations, in order.
pub open spec fn equation_lines(equations: Seq<Seq<char>>) -> Seq<char>
    decreases equations.len(),
{
    if equations.len() == 0 {
        Seq::empty()
    } else {
        equation_lines(equations.drop_last()) + equation_line(
            (equations.len() - 1) as nat,
            equations.last(),
        )
    }
}

/// The block of the equations: nothing where there is none, else a heading,
/// their lines, and an empty line.
pub open spec fn equation_block(equations: Seq<Seq<char>>) -> Seq<char> {
    if equations.len() == 0 {
        Seq::empty()
    } else {
        "重要公式:\n"@ + equation_lines(equations) + seq!['\n']
    }
}

/// The summary of a paper that is handed to the note writer.
pub open spec fn paper_summary(document: ProcessedContentView) -> Seq<char> {
    "论文标题: "@ + document.title + blank_line() + "作者: "@ + join(document.authors, ", "@)
        + blank_line() + "摘要:\n"@ + document.abstract_text + blank_line() + "章节内容:\n"@
        + section_blocks(document.sections) + equation_block(document.equations)
}

/// The characters of each string.
pub fn chars_of_each(items: &Vec<String>) -> (r: Vec<Vec<char>>)
    ensures
        texts(r@) == strings(items@),
{
    let mut out: Vec<Vec<char>> = Vec::new();
    let n = items.len();
    let mut i: usize = 0;
    while i < n
        invariant
            i <= n,
            n == items.len(),
            texts(out@) == strings(items@).take(i as int),
        decreases n - i,
    {
        let ghost before = texts(out@);
        out.push(to_chars(items[i].as_str()));
        assert(texts(out@) == before.push(items@[i as int]@));
        assert(strings(items@).take(i + 1) == strings(items@).take(i as int).push(
            items@[i as int]@,
        ));
        i += 1;
    }
    assert(strings(items@).take(n as int) == strings(items@));
    out
}

/// Writes the summary of a paper: title, authors, abstract, the sections
/// each under a mark of its level, and the equations numbered from 1.
pub fn format_paper_content(document: &ProcessedContent) -> (r: String)
    ensures
        r@ == paper_summary(document@),
{
    let mut out: Vec<char> = to_chars("论文标题: ");
    push_all(&mut out, &to_chars(document.title.as_str()));
    out.push('\n');
    out.push('\n');
    assert(out@ == "论文标题: "@ + document@.title + blank_line());
    push_all(&mut out, &to_chars("作者: "));
    let authors = chars_of_each(&document.authors);
    assert(texts(authors@).subrange(0, authors.len() as int) == texts(authors@));
    push_all(&mut out, &join_range(&authors, 0, authors.len(), &to_chars(", ")));
    out.push('\n');
    out.push('\n');
    assert(out@ == "论文标题: "@ + document@.title + blank_line() + "作者: "@ + join(
        document@.authors,
        ", "@,
    ) + blank_line());
    push_all(&mut out, &to_chars("摘要:\n"));
    push_all(&mut out, &to_chars(document.abstract_text.as_str()));
    out.push('\n');
    out.push('\n');
    push_all(&mut out, &to_chars("章节内容:\n"));
    let ghost head = out@;
    assert(head == "论文标题: "@ + document@.title + blank_line() + "作者: "@ + join(
        document@.authors,
        ", "@,
    ) + blank_line() + "摘要:\n"@ + document@.abstract_text + blank_line() + "章节内容:\n"@);
    let ghost sections = document@.sections;
    let n = document.sections.len();
    let mut i: usize = 0;
    assert(sections.take(0) == Seq::<SectionView>::empty());
    while i < n
        invariant
            i <= n,
            n == document.sections.len(),
            sections == document@.sections,
            out@ == head + section_blocks(sections.take(i as int)),
        decreases n - i,
    {
        let section = &document.sections[i];
        let mut block = repeat_char('#', section.level as usize);
        block.push(' ');
        push_all(&mut block, &to_chars(section.title.as_str()));
        block.push('\n');
        push_all(&mut block, &to_chars(section.content.as_str()));
        block.push('\n');
        block.push('\n');
        proof {
            assert(sections.take(i + 1).drop_last() == sections.take(i as int));
            assert(sections.take(i + 1).last() == section@);
            assert(block@ == section_block(section@));
        }
        let ghost before = out@;
        push_all(&mut out, &block);
        assert(out@ == head + (section_blocks(sections.take(i as int)) + section_block(section@)));
        i += 1;
    }
    assert(sections.take(n as int) == sections);
    let ghost equations = document@.equations;
    let m = document.equations.len();
    if m > 0 {
        let mut block: Vec<char> = to_chars("重要公式:\n");
        let ghost lead = block@;
        let mut j: usize = 0;
        assert(equations.take(0) == Seq::<Seq<char>>::empty());
        while j < m
            invariant
                j <= m,
                m == document.equations.len(),
                equations == document@.equations,
                block@ == lead + equation_lines(equations.take(j as int)),
            decreases m - j,
        {
            let mut line = to_chars("公式 ");
            push_all(&mut line, &decimal_chars(j + 1));
            push_all(&mut line, &to_chars(": "));
            push_all(&mut line, &to_chars(document.equations[j].as_str()));
            line.push('\n');
            proof {
                assert(equations.take(j + 1).drop_last() == equations.take(j as int));
                assert(equations.take(j + 1).last() == document.equations@[j as int]@);
                assert(line@ == equation_line(j as nat, document.equations@[j as int]@));
            }
            push_all(&mut block, &line);
            assert(block@ == lead + (equation_lines(equations.take(j as int)) + equation_line(
                j as nat,
                document.equations@[j as int]@,
            )));
            j += 1;
        }
        assert(equations.take(m as int) == equations);
        block.push('\n');
        assert(block@ == equation_block(equations));
        push_all(&mut out, &block);
    }
    from_chars(&out)
}

/// `content` without a fence on its first line and a fence as its last
/// line. Where either is taken away the remaining lines are joined by line
/// feeds; where neither is, the text stays as it is.
pub open spec fn unfenced(content: Seq<char>) -> Seq<char> {
    let ls = lines(content);
    if ls.len() == 0 {
        content
    } else {
        let start: int = if occurs_at(trim(ls[0]), 0, FENCE@) {
            1
        } else {
            0
        };
        let end: int = if ls.len() > start && trim(ls.last()) == FENCE@ {
            ls.len() - 1
        } else {
            ls.len() as int
        };
        if start > 0 || end < ls.len() {
            join(ls.subrange(start, end), seq!['\n'])
        } else {
            content
        }
    }
}

/// The note text made of what the note writer answered: without fences, with
/// references to output files relocated, and trimmed.
pub open spec fn post_processed(content: Seq<char>) -> Seq<char> {
    trim(replace(unfenced(content), OUTPUT_REFERENCE@, RELOCATED_REFERENCE@))
}

/// Takes code fences off the first and last line.
pub fn strip_fences(content: &Vec<char>) -> (r: Vec<char>)
    ensures
        r@ == unfenced(content@),
{
    let ls = lines_of(content);
    let n = ls.len();
    let mut out: Vec<char> = Vec::new();
    if n == 0 {
        push_all(&mut out, content);
        return out;
    }
    let fence = to_chars(FENCE);
    let start: usize = if matches_at(&trim_chars(&ls[0]), 0, &fence) {
        1
    } else {
        0
    };
    let end: usize = if n > start && same_chars(&trim_chars(&ls[n - 1]), &fence) {
        n - 1
    } else {
        n
    };
    assert(texts(ls@).last() == ls@[n - 1]@);
    if start > 0 || end < n {
        let sep: Vec<char> = vec!['\n'];
        assert(sep@ == seq!['\n']);
        join_range(&ls, start, end, &sep)
    } else {
        push_all(&mut out, content);
        out
    }
}

/// Makes the note text of what the note writer answered.
pub fn post_process_latex(content: &str) -> (r: String)
    ensures
        r@ == post_processed(content@),
{
    let bare = strip_fences(&to_chars(content));
    let relocated = replace_chars(
        &bare,
        &to_chars(OUTPUT_REFERENCE),
        &to_chars(RELOCATED_REFERENCE),
    );
    from_chars(&trim_chars(&relocated))
}

/// The note on the paper `document` made of the answer `generated`, dated
/// `generated_at`.
pub fn assemble_note(document: &ProcessedContent, generated: &str, generated_at: String) -> (r:
    GeneratedNote)
    ensures
        r.paper_id@ == document.paper_id@,
        r.title@ == document.title@,
        r.latex_content@ == post_processed(generated@),
        r.metadata.generated_at@ == generated_at@,
        r.metadata.model_used@ == NOTE_MODEL@,
        r.metadata.prompt_tokens is None,
        r.metadata.completion_tokens is None,
        r.metadata.total_tokens is None,
{
    GeneratedNote {
        paper_id: document.paper_id.clone(),
        title: document.title.clone(),
        latex_content: post_process_latex(generated),
        metadata: NoteMetadata {
            generated_at,
            model_used: NOTE_MODEL.to_owned(),
            prompt_tokens: None,
            completion_tokens: None,
            total_tokens: None,
        },
    }
}

} // verus!
