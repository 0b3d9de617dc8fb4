//! What is sent to a chat-completion service and what is taken from its
//! answer.

use crate::downloader::successful;
use crate::text::{
    decimal, decimal_chars, from_chars, push_all, strings, to_chars, trim, trim_chars,
};
use vstd::prelude::*;

verus! {

/// The role of the message that tells the service what to do.
pub const SYSTEM_ROLE: &'static str = "system";

/// The role of the message that holds the paper.
pub const USER_ROLE: &'static str = "user";

/// What follows the base address of the service in the address of a request.
pub const COMPLETIONS_PATH: &'static str = "/chat/completions";

/// What stands before the key in the authorization header.
pub const BEARER_PREFIX: &'static str = "Bearer ";

/// One message of a conversation.
#[derive(Debug)]
pub struct Message {
    pub role: String,
    pub content: String,
}

/// One answer of the service.
#[derive(Debug)]
pub struct Choice {
    pub message: Message,
    pub finish_reason: Option<String>,
}

/// What a request cost.
#[derive(Debug, Clone, Copy, PartialEq, Eq, Structural)]
pub struct Usage {
    pub prompt_tokens: u32,
    pub completion_tokens: u32,
    pub total_tokens: u32,
}

/// What the service sent back.
#[derive(Debug)]
pub struct OpenAIResponse {
    pub choices: Vec<Choice>,
    pub usage: Option<Usage>,
}

/// Why a request gave no note.
#[derive(Debug, Clone, Copy, PartialEq, Eq, Structural)]
pub enum LlmError {
    /// The service answered with this status, which is no success.
    RequestFailed(u16),
    /// The answer holds no choice.
    NoResponse,
}

/// The conversation to send: the instructions as the system message, then
/// the paper as the user message.
pub fn chat_messages(prompt: &str, paper_content: &str) -> (r: Vec<Message>)
    ensures
        r.len() == 2,
        r[0].role@ == SYSTEM_ROLE@,
        r[0].content@ == prompt@,
        r[1].role@ == USER_ROLE@,
        r[1].content@ == paper_content@,
{
    let mut messages: Vec<Message> = Vec::new();
    messages.push(Message { role: SYSTEM_ROLE.to_owned(), content: prompt.to_owned() });
    messages.push(Message { role: USER_ROLE.to_owned(), content: paper_content.to_owned() });
    messages
}

/// The address to which requests go, for a service at `base_url`.
pub fn chat_endpoint(base_url: &str) -> (r: String)
    ensures
        r@ == base_url@ + COMPLETIONS_PATH@,
{
    let mut address = to_chars(base_url);
    push_all(&mut address, &to_chars(COMPLETIONS_PATH));
    from_chars(&address)
}

/// The value of the authorization header for the key `api_key`.
pub fn bearer(api_key: &str) -> (r: String)
    ensures
        r@ == BEARER_PREFIX@ + api_key@,
{
    let mut value = to_chars(BEARER_PREFIX);
    push_all(&mut value, &to_chars(api_key));
    from_chars(&value)
}

/// Accepts the answer to a request if its status tells of success.
pub fn check_status(status: u16) -> (r: Result<(), LlmError>)
    ensures
        r == if successful(status) {
            Ok::<(), LlmError>(())
        } else {
            Err::<(), LlmError>(LlmError::RequestFailed(status))
        },
{
    if crate::downloader::is_success(status) {
        Ok(())
    } else {
        Err(LlmError::RequestFailed(status))
    }
}

/// The note text in an answer: the content of its first choice, trimmed.
/// Fails when the answer holds no choice.
pub fn first_reply(response: &OpenAIResponse) -> (r: Result<String, LlmError>)
    ensures
        match r {
            Ok(text) => response.choices.len() > 0 && text@ == trim(
                response.choices[0].message.content@,
            ),
            Err(e) => response.choices.len() == 0 && e == LlmError::NoResponse,
        },
{
    if response.choices.len() > 0 {
        let content = to_chars(response.choices[0].message.content.as_str());
        Ok(from_chars(&trim_chars(&content)))
    } else {
        Err(LlmError::NoResponse)
    }
}

/// The line of the image at index `i`, numbered from 1.
pub open spec fn image_line(i: nat, image: Seq<char>) -> Seq<char> {
    "- 图像 "@ + decimal(i + 1) + ": "@ + image + seq!['\n']
}

/// The lines of the images, in order.
pub open spec fn image_lines(images: Seq<Seq<char>>) -> Seq<char>
    decreases images.len(),
{
    if images.len() == 0 {
        Seq::empty()
    } else {
        image_lines(images.drop_last()) + image_line((images.len() - 1) as nat, images.last())
    }
}

/// The paper text with the list of its image files behind it, if it has any.
pub open spec fn with_images(paper_content: Seq<char>, images: Seq<Seq<char>>) -> Seq<char> {
    if images.len() == 0 {
        paper_content
    } else {
        paper_content + "\n\n图像文件列表:\n"@ + image_lines(images)
    }
}

/// Puts the list of image files, numbered from 1, behind the paper text.
pub fn with_image_list(paper_content: &str, image_references: &Vec<String>) -> (r: String)
    ensures
        r@ == with_images(paper_content@, strings(image_references@)),
{
    let ghost images = strings(image_references@);
    let n = image_references.len();
    if n == 0 {
        return paper_content.to_owned();
    }
    let mut out = to_chars(paper_content);
    push_all(&mut out, &to_chars("\n\n图像文件列表:\n"));
    let ghost head = out@;
    let mut i: usize = 0;
    assert(images.take(0) == Seq::<Seq<char>>::empty());
    while i < n
        invariant
            i <= n,
            n == image_references.len(),
            images == strings(image_references@),
            out@ == head + image_lines(images.take(i as int)),
        decreases n - i,
    {
        let mut line = to_chars("- 图像 ");
        push_all(&mut line, &decimal_chars(i + 1));
        push_all(&mut line, &to_chars(": "));
        push_all(&mut line, &to_chars(image_references[i].as_str()));
        line.push('\n');
        proof {
            assert(images.take(i + 1).drop_last() == images.take(i as int));
            assert(images.take(i + 1).last() == image_references@[i as int]@);
            assert(line@ == image_line(i as nat, image_references@[i as int]@));
        }
        push_all(&mut out, &line);
        assert(out@ == head + (image_lines(images.take(i as int)) + image_line(
            i as nat,
            image_references@[i as int]@,
        )));
        i += 1;
    }
    assert(images.take(n as int) == images);
    from_chars(&out)
}

impl LlmError {
    /// A sentence that says what went wrong.
    pub fn message(&self) -> (r: String)
        ensures
            r@ == match self {
                LlmError::RequestFailed(status) => "API request failed: HTTP "@ + decimal(
                    *status as nat,
                ),
                LlmError::NoResponse => "No response from API"@,
            },
    {
        match self {
            LlmError::RequestFailed(status) => {
                let mut text = to_chars("API request failed: HTTP ");
                push_all(&mut text, &decimal_chars(*status as usize));
                from_chars(&text)
            },
            LlmError::NoResponse => "No response from API".to_owned(),
        }
    }
}

} // verus!
