//! Documents as text: the front matter block at their head, their title,
//! and their canonical form, which `pulldown_cmark` and
//! `pulldown_cmark_to_cmark` give.

use vstd::prelude::*;
use pulldown_cmark::{Event, HeadingLevel, Options, Parser, Tag};
use crate::front_matter::{
    front_matter_entries, front_matter_spec, FrontMatter, FrontMatterError, FrontMatterView,
};
use crate::text::{find, split_at_first, strip_prefix};
use crate::yaml::{emit_yaml, parse_yaml, yaml_document, yaml_text, YamlView};

verus! {

/// The extensions of `pulldown_cmark` that documents are read with: tables
/// (2), footnotes (4) and heading attributes (64). Strikethrough is left
/// out, because it would take a single tilde.
pub const MD_OPTIONS: u32 = 2 + 4 + 64;

/// How `pulldown_cmark_to_cmark` writes a document: its `Options`, field by
/// field.
#[derive(Debug, Clone, Copy, PartialEq, Eq)]
pub struct Style {
    pub newlines_after_headline: usize,
    pub newlines_after_paragraph: usize,
    pub newlines_after_codeblock: usize,
    pub newlines_after_table: usize,
    pub newlines_after_rule: usize,
    pub newlines_after_list: usize,
    pub newlines_after_blockquote: usize,
    pub newlines_after_rest: usize,
    pub code_block_token_count: usize,
    pub code_block_token: char,
    pub list_token: char,
    pub ordered_list_token: char,
    pub increment_ordered_list_bullets: bool,
    pub emphasis_token: char,
    pub strong_token: &'static str,
}

/// What a `Style` stands for.
pub ghost struct StyleView {
    pub newlines_after_headline: usize,
    pub newlines_after_paragraph: usize,
    pub newlines_after_codeblock: usize,
    pub newlines_after_table: usize,
    pub newlines_after_rule: usize,
    pub newlines_after_list: usize,
    pub newlines_after_blockquote: usize,
    pub newlines_after_rest: usize,
    pub code_block_token_count: usize,
    pub code_block_token: char,
    pub list_token: char,
    pub ordered_list_token: char,
    pub increment_ordered_list_bullets: bool,
    pub emphasis_token: char,
    pub strong_token: Seq<char>,
}

impl View for Style {
    type V = StyleView;

    open spec fn view(&self) -> StyleView {
        StyleView {
            newlines_after_headline: self.newlines_after_headline,
            newlines_after_paragraph: self.newlines_after_paragraph,
            newlines_after_codeblock: self.newlines_after_codeblock,
            newlines_after_table: self.newlines_after_table,
            newlines_after_rule: self.newlines_after_rule,
            newlines_after_list: self.newlines_after_list,
            newlines_after_blockquote: self.newlines_after_blockquote,
            newlines_after_rest: self.newlines_after_rest,
            code_block_token_count: self.code_block_token_count,
            code_block_token: self.code_block_token,
            list_token: self.list_token,
            ordered_list_token: self.ordered_list_token,
            increment_ordered_list_bullets: self.increment_ordered_list_bullets,
            emphasis_token: self.emphasis_token,
            strong_token: self.strong_token@,
        }
    }
}

/// The style of canonical documents: two line breaks after every block,
/// fences of three backticks, `-` for list items, every ordered item
/// numbered alike.
pub open spec fn house_style() -> StyleView {
    StyleView {
        newlines_after_headline: 2,
        newlines_after_paragraph: 2,
        newlines_after_codeblock: 2,
        newlines_after_table: 2,
        newlines_after_rule: 2,
        newlines_after_list: 2,
        newlines_after_blockquote: 2,
        newlines_after_rest: 1,
        code_block_token_count: 3,
        code_block_token: '`',
        list_token: '-',
        ordered_list_token: '.',
        increment_ordered_list_bullets: false,
        emphasis_token: '*',
        strong_token: "**"@,
    }
}

/// Whether the tokens of a style are ASCII: `pulldown_cmark_to_cmark`
/// escapes a text that starts with one of them by cutting it behind its
/// first byte.
pub open spec fn ascii_tokens(style: StyleView) -> bool {
    &&& (style.code_block_token as u32) < 128
    &&& (style.list_token as u32) < 128
    &&& (style.emphasis_token as u32) < 128
    &&& forall|i: int|
        0 <= i < style.strong_token.len() ==> (#[trigger] style.strong_token[i] as u32) < 128
}

/// The style of canonical documents.
pub fn style() -> (s: Style)
    ensures
        s@ == house_style(),
        ascii_tokens(s@),
{
    proof {
        reveal_strlit("**");
    }
    Style {
        newlines_after_headline: 2,
        newlines_after_paragraph: 2,
        newlines_after_codeblock: 2,
        newlines_after_table: 2,
        newlines_after_rule: 2,
        newlines_after_list: 2,
        newlines_after_blockquote: 2,
        newlines_after_rest: 1,
        code_block_token_count: 3,
        code_block_token: '`',
        list_token: '-',
        ordered_list_token: '.',
        increment_ordered_list_bullets: false,
        emphasis_token: '*',
        strong_token: "**",
    }
}

/// What the title of a document can be told from: the start and the end of
/// a first-level heading, text, inline code, and everything else.
#[derive(Debug, PartialEq)]
pub enum MdEvent {
    TitleStart,
    TitleEnd,
    Text(String),
    Code(String),
    Other,
}

/// What an `MdEvent` stands for.
pub ghost enum MdEventView {
    TitleStart,
    TitleEnd,
    Text(Seq<char>),
    Code(Seq<char>),
    Other,
}

impl View for MdEvent {
    type V = MdEventView;

    open spec fn view(&self) -> MdEventView {
        match self {
            MdEvent::TitleStart => MdEventView::TitleStart,
            MdEvent::TitleEnd => MdEventView::TitleEnd,
            MdEvent::Text(s) => MdEventView::Text(s@),
            MdEvent::Code(s) => MdEventView::Code(s@),
            MdEvent::Other => MdEventView::Other,
        }
    }
}

/// The models of a run of events.
pub open spec fn event_models(events: Seq<MdEvent>) -> Seq<MdEventView> {
    Seq::new(events.len(), |i: int| events[i]@)
}

/// The first `limit` events that `pulldown_cmark` reads from a document
/// with the given extensions, or all of them where it reads fewer.
pub uninterp spec fn markdown_events(content: Seq<char>, extensions: u32, limit: usize) -> Seq<
    MdEventView,
>;

/// The document that `pulldown_cmark_to_cmark` writes, in a style, for the
/// events that `pulldown_cmark` reads from a document with the given
/// extensions.
pub uninterp spec fn rendered_markdown(content: Seq<char>, extensions: u32, style: StyleView) -> Seq<
    char,
>;

/// `pulldown_cmark::Parser::new_ext` on `content`, with the extensions whose
/// bits are set in `extensions`: its first `limit` events, each as an
/// `MdEvent`.
#[verifier::external_body]
pub(crate) fn first_events(content: &str, extensions: u32, limit: usize) -> (r: Vec<MdEvent>)
    ensures
        event_models(r@) == markdown_events(content@, extensions, limit),
{
    let options = Options::from_bits_truncate(extensions);
    Parser::new_ext(content, options).take(limit).map(|event| match event {
        Event::Start(Tag::Heading(HeadingLevel::H1, ..)) => MdEvent::TitleStart,
        Event::End(Tag::Heading(HeadingLevel::H1, ..)) => MdEvent::TitleEnd,
        Event::Text(text) => MdEvent::Text(text.into_string()),
        Event::Code(text) => MdEvent::Code(text.into_string()),
        _ => MdEvent::Other,
    }).collect()
}

/// `pulldown_cmark_to_cmark::cmark_with_options` on the events that
/// `pulldown_cmark::Parser::new_ext` reads from `content`: the document it
/// has written when it returns. A token of the style that is not ASCII is
/// left out: the call can panic on a text that starts with one.
#[verifier::external_body]
pub(crate) fn render_markdown(content: &str, extensions: u32, style: &Style) -> (r: String)
    requires
        ascii_tokens(style@),
    ensures
        r@ == rendered_markdown(content@, extensions, style@),
{
    let options = pulldown_cmark_to_cmark::Options {
        newlines_after_headline: style.newlines_after_headline, newlines_after_paragraph: style.newlines_after_paragraph,
        newlines_after_codeblock: style.newlines_after_codeblock, newlines_after_table: style.newlines_after_table,
        newlines_after_rule: style.newlines_after_rule, newlines_after_list: style.newlines_after_list,
        newlines_after_blockquote: style.newlines_after_blockquote, newlines_after_rest: style.newlines_after_rest,
        code_block_token_count: style.code_block_token_count, code_block_token: style.code_block_token,
        list_token: style.list_token, ordered_list_token: style.ordered_list_token,
        increment_ordered_list_bullets: style.increment_ordered_list_bullets,
        emphasis_token: style.emphasis_token, strong_token: style.strong_token,
    };
    let events = Parser::new_ext(content, Options::from_bits_truncate(extensions));
    let mut buf = String::new();
    let _ = pulldown_cmark_to_cmark::cmark_with_options(events, &mut buf, options);
    buf
}

/// The document as it is handed on to a site builder: unchanged.
pub fn build(content: &str) -> (r: String)
    ensures
        r@ == content@,
{
    content.to_owned()
}

/// The canonical form of a document: what `pulldown_cmark_to_cmark` writes
/// for it in the house style, and a line break.
pub open spec fn fix_spec(content: Seq<char>) -> Seq<char> {
    rendered_markdown(content, MD_OPTIONS, house_style()) + seq!['\n']
}

/// The canonical form of a document.
pub fn fix(content: &str) -> (r: String)
    ensures
        r@ == fix_spec(content@),
{
    adapt(content)
}

/// The document read and written again, with the line break at its end
/// that the writer leaves out.
fn adapt(content: &str) -> (r: String)
    ensures
        r@ == fix_spec(content@),
{
    let style = style();
    let mut buf = render_markdown(content, MD_OPTIONS, &style);
    proof {
        reveal_strlit("\n");
        assert("\n"@ =~= seq!['\n']);
    }
    buf.append("\n");
    buf
}

/// Why a document has no title.
#[derive(Debug, Clone, Copy, PartialEq, Eq, Structural)]
pub enum TitleError {
    /// The document is empty.
    Empty,
    /// The document does not start with a first-level heading.
    NotHeading,
    /// The heading holds something else than one run of text or code.
    NotPlain,
}

/// The title that the first three events of a document give: the text or
/// code between the start and the end of a first-level heading.
pub open spec fn title_spec(events: Seq<MdEventView>) -> Result<Seq<char>, TitleError> {
    if events.len() == 0 {
        Err(TitleError::Empty)
    } else if events[0] != MdEventView::TitleStart {
        Err(TitleError::NotHeading)
    } else if events.len() < 3 || events[2] != MdEventView::TitleEnd {
        Err(TitleError::NotPlain)
    } else {
        match events[1] {
            MdEventView::Text(title) => Ok(title),
            MdEventView::Code(title) => Ok(title),
            _ => Err(TitleError::NotPlain),
        }
    }
}

/// A document has a title only where it starts with a first-level heading
/// that holds one run of text or code and nothing else: an empty document
/// has none, nor has one that starts with anything else.
pub proof fn lemma_title_needs_heading(events: Seq<MdEventView>)
    ensures
        events.len() == 0 ==> title_spec(events) == Err::<Seq<char>, TitleError>(TitleError::Empty),
        events.len() > 0 && events[0] != MdEventView::TitleStart ==> title_spec(events) == Err::<
            Seq<char>,
            TitleError,
        >(TitleError::NotHeading),
        title_spec(events) matches Ok(title) ==> {
            &&& events.len() >= 3
            &&& events[0] == MdEventView::TitleStart
            &&& events[1] == MdEventView::Text(title) || events[1] == MdEventView::Code(title)
            &&& events[2] == MdEventView::TitleEnd
        },
{
}

/// The result of reading a title, with the title replaced by its
/// characters.
pub open spec fn title_read(r: Result<String, TitleError>) -> Result<Seq<char>, TitleError> {
    match r {
        Ok(title) => Ok(title@),
        Err(e) => Err(e),
    }
}

/// The title that the first events of a document give.
pub fn title_of_events(events: &Vec<MdEvent>) -> (r: Result<String, TitleError>)
    ensures
        title_read(r) == title_spec(event_models(events@)),
{
    if events.len() == 0 {
        return Err(TitleError::Empty);
    }
    match &events[0] {
        MdEvent::TitleStart => {},
        _ => {
            return Err(TitleError::NotHeading);
        },
    }
    if events.len() < 3 {
        return Err(TitleError::NotPlain);
    }
    match &events[2] {
        MdEvent::TitleEnd => {},
        _ => {
            return Err(TitleError::NotPlain);
        },
    }
    match &events[1] {
        MdEvent::Text(title) => Ok(title.clone()),
        MdEvent::Code(title) => Ok(title.clone()),
        _ => Err(TitleError::NotPlain),
    }
}

/// The title of a document: the text of the first-level heading that it
/// starts with.
pub fn extract_title_h1(content: &str) -> (r: Result<String, TitleError>)
    ensures
        title_read(r) == title_spec(markdown_events(content@, MD_OPTIONS, 3)),
{
    let events = first_events(content, MD_OPTIONS, 3);
    title_of_events(&events)
}

/// The line that opens and closes a front matter block.
pub open spec fn fence() -> Seq<char> {
    "---"@
}

/// The end of a front matter block: a fence at the start of a line.
pub open spec fn closing_fence() -> Seq<char> {
    "\n---"@
}

/// Why the head of a document is no front matter block.
#[derive(Debug, Clone, Copy, PartialEq, Eq)]
pub enum BlockError {
    /// The block is opened and never closed.
    Unclosed,
    /// What stands in the block is no YAML document.
    Yaml,
    /// What stands in the block is no front matter.
    Schema(FrontMatterError),
}

/// The front matter and the body of a document. A document that does not
/// start with a fence is all body; otherwise the block ends at the first
/// fence that starts a line, and the body is what follows that fence.
pub open spec fn take_front_matter_spec(content: Seq<char>) -> Result<
    (Option<FrontMatterView>, Seq<char>),
    BlockError,
> {
    if !fence().is_prefix_of(content) {
        Ok((None, content))
    } else {
        let rest = content.skip(fence().len() as int);
        let end = find(rest, closing_fence());
        if end < 0 {
            Err(BlockError::Unclosed)
        } else {
            match yaml_document(rest.take(end)) {
                None => Err(BlockError::Yaml),
                Some(value) => match front_matter_spec(value) {
                    Err(e) => Err(BlockError::Schema(e)),
                    Ok(fm) => Ok((Some(fm), rest.skip(end + closing_fence().len()))),
                },
            }
        }
    }
}

/// The result of splitting a document, with its parts replaced by their
/// models.
pub open spec fn block_read(r: Result<(Option<FrontMatter>, &str), BlockError>) -> Result<
    (Option<FrontMatterView>, Seq<char>),
    BlockError,
> {
    match r {
        Ok((Some(fm), body)) => Ok((Some(fm@), body@)),
        Ok((None, body)) => Ok((None, body@)),
        Err(e) => Err(e),
    }
}

/// The front matter of a document, where it has a block of it, and its
/// body.
pub fn take_front_matter<'a>(content: &'a str) -> (r: Result<
    (Option<FrontMatter>, &'a str),
    BlockError,
>)
    ensures
        block_read(r) == take_front_matter_spec(content@),
{
    proof {
        reveal_strlit("---");
        reveal_strlit("\n---");
    }
    let rest = match strip_prefix(content, "---") {
        Some(rest) => rest,
        None => {
            return Ok((None, content));
        },
    };
    proof {
        assert(fence().is_prefix_of(content@)) by {
            assert(content@.subrange(0, 3) =~= fence());
        }
        assert(content@.skip(3) =~= rest@);
    }
    let (text, body) = match split_at_first(rest, "\n---") {
        Some(parts) => parts,
        None => {
            return Err(BlockError::Unclosed);
        },
    };
    let value = match parse_yaml(text) {
        Ok(value) => value,
        Err(_) => {
            return Err(BlockError::Yaml);
        },
    };
    match FrontMatter::decode(&value) {
        Ok(fm) => Ok((Some(fm), body)),
        Err(e) => Err(BlockError::Schema(e)),
    }
}

/// A body below a front matter block that holds `yaml`.
pub open spec fn frame_spec(yaml: Seq<char>, content: Seq<char>) -> Seq<char> {
    "---\n"@ + yaml + "---\n"@ + content
}

/// The document with the front matter put in front of its body: the body
/// alone where the front matter says nothing; nothing where `serde_yaml`
/// writes no document for the front matter.
pub open spec fn prepend_spec(fm: FrontMatterView, content: Seq<char>) -> Option<Seq<char>> {
    if front_matter_entries(fm).len() == 0 {
        Some(content)
    } else {
        match yaml_text(YamlView::Mapping(front_matter_entries(fm))) {
            Some(yaml) => Some(frame_spec(yaml, content)),
            None => None,
        }
    }
}

/// The characters of an optional string.
pub open spec fn written(r: Option<String>) -> Option<Seq<char>> {
    match r {
        Some(s) => Some(s@),
        None => None,
    }
}

/// `content` below a front matter block that holds `yaml`.
pub fn frame_front_matter(yaml: &str, content: &str) -> (r: String)
    ensures
        r@ == frame_spec(yaml@, content@),
{
    let mut framed = "---\n".to_owned();
    framed.append(yaml);
    framed.append("---\n");
    framed.append(content);
    framed
}

/// `content` with `fm` in a block in front of it.
pub fn prepend_front_matter(fm: &FrontMatter, content: &str) -> (r: Option<String>)
    ensures
        written(r) == prepend_spec(fm@, content@),
{
    if fm.is_empty() {
        return Some(content.to_owned());
    }
    let value = fm.encode();
    match emit_yaml(&value) {
        Ok(yaml) => Some(frame_front_matter(yaml.as_str(), content)),
        Err(_) => None,
    }
}

} // verus!
