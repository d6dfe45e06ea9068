//! The rendering backend abstraction: the closed set of semantic construct
//! tags, the `FormatEngine` trait mapping each tag to its literal open and
//! close markup, and the two concrete HTML backends.

use vstd::prelude::*;

verus! {

/// Which of the two list flavours a list belongs to.
#[derive(Clone, Copy, Debug, PartialEq, Eq, Structural)]
pub enum ListType {
    /// Ordered list; items start with `@`.
    Ordered,
    /// Unordered list; items start with `-`.
    Unordered,
}

/// One semantic construct a rendering backend must know how to open and
/// close. The set is closed and total: every variant maps to a defined
/// markup string (heading levels beyond 6 collapse to the level-6 markup).
#[derive(Clone, Copy, Debug, PartialEq, Eq, Structural)]
pub enum FormatType {
    Heading(u8),
    Paragraph,
    List(ListType),
    ListItem(ListType),
    CodeBlock,
    CodeBlockMeta,
    CodeBlockContents,
    InlineBold,
    InlineItalic,
    InlineCode,
    InlineLink,
    InlineLinkUrl,
    InlineLinkText,
    CardAuthor,
    CardAuthorAvatar,
    CardAuthorName,
    CardAuthorDate,
    CardAuthorCategory,
}

/// A rendering backend: a pure map from construct tags to literal open and
/// close markup, an optional inline escape character, and a secondary
/// backend to use for the body lines of a code block.
///
/// The secondary backend is exposed as the `code_escape` / `code_begin` /
/// `code_end` family: those three answers are the escape character and the
/// markup map of the backend that renders code-block bodies. For the default
/// backend that secondary backend is [`CodeblockEngine`]; for
/// [`CodeblockEngine`] it is itself, so escaping stays active recursively.
pub trait FormatEngine {
    /// The escape character active for this backend, if any.
    spec fn spec_escape() -> Option<char>;

    /// The open markup of a tag, as a character sequence.
    spec fn spec_begin(ty: FormatType) -> Seq<char>;

    /// The close markup of a tag, as a character sequence.
    spec fn spec_end(ty: FormatType) -> Seq<char>;

    /// The escape character of the code-block backend, if any.
    spec fn spec_code_escape() -> Option<char>;

    /// The open markup of a tag under the code-block backend.
    spec fn spec_code_begin(ty: FormatType) -> Seq<char>;

    /// The close markup of a tag under the code-block backend.
    spec fn spec_code_end(ty: FormatType) -> Seq<char>;

    /// Gets the inline escape character, if one is active.
    fn escape() -> (r: Option<char>)
        ensures
            r == Self::spec_escape(),
    ;

    /// Gets the open markup of `ty`.
    fn begin(ty: FormatType) -> (r: &'static str)
        ensures
            r@ == Self::spec_begin(ty),
    ;

    /// Gets the close markup of `ty`.
    fn end(ty: FormatType) -> (r: &'static str)
        ensures
            r@ == Self::spec_end(ty),
    ;

    /// Gets the escape character of the code-block backend.
    fn code_escape() -> (r: Option<char>)
        ensures
            r == Self::spec_code_escape(),
    ;

    /// Gets the open markup of `ty` under the code-block backend.
    fn code_begin(ty: FormatType) -> (r: &'static str)
        ensures
            r@ == Self::spec_code_begin(ty),
    ;

    /// Gets the close markup of `ty` under the code-block backend.
    fn code_end(ty: FormatType) -> (r: &'static str)
        ensures
            r@ == Self::spec_code_end(ty),
    ;
}

/// Bind for the default format engine.
pub type DefaultFormatEngine = ParagraphEngine;

/// The default backend: HTML markup, no escape character active.
pub struct ParagraphEngine;

impl FormatEngine for ParagraphEngine {
    open spec fn spec_escape() -> Option<char> {
        None
    }

    open spec fn spec_begin(ty: FormatType) -> Seq<char> {
        match ty {
            FormatType::Heading(1u8) => "<h1>"@,
            FormatType::Heading(2u8) => "<h2>"@,
            FormatType::Heading(3u8) => "<h3>"@,
            FormatType::Heading(4u8) => "<h4>"@,
            FormatType::Heading(5u8) => "<h5>"@,
            FormatType::Heading(_) => "<h6>"@,
            FormatType::Paragraph => "<p>"@,
            FormatType::List(ListType::Ordered) => "<ol>"@,
            FormatType::List(ListType::Unordered) => "<ul>"@,
            FormatType::ListItem(_) => "<li>"@,
            FormatType::CodeBlock => "<div class=\"codeblock\">"@,
            FormatType::CodeBlockMeta => "<div class=\"prelude\"><span>"@,
            FormatType::CodeBlockContents => "<pre>"@,
            FormatType::InlineBold => "<b>"@,
            FormatType::InlineItalic => "<i>"@,
            FormatType::InlineCode => "<code>"@,
            FormatType::InlineLink => "<a"@,
            FormatType::InlineLinkUrl => " href=\""@,
            FormatType::InlineLinkText => ">"@,
            FormatType::CardAuthor => "<div class=\"author-card\">"@,
            FormatType::CardAuthorAvatar => "<img src=\""@,
            FormatType::CardAuthorName => "<div class=\"text\"><span class=\"name\">"@,
            FormatType::CardAuthorDate => "<div class=\"info\"><span class=\"date\">"@,
            FormatType::CardAuthorCategory => "<span class=\"badge\">"@,
        }
    }

    open spec fn spec_end(ty: FormatType) -> Seq<char> {
        match ty {
            FormatType::Heading(1u8) => "</h1>"@,
            FormatType::Heading(2u8) => "</h2>"@,
            FormatType::Heading(3u8) => "</h3>"@,
            FormatType::Heading(4u8) => "</h4>"@,
            FormatType::Heading(5u8) => "</h5>"@,
            FormatType::Heading(_) => "</h6>"@,
            FormatType::Paragraph => "</p>"@,
            FormatType::List(ListType::Ordered) => "</ol>"@,
            FormatType::List(ListType::Unordered) => "</ul>"@,
            FormatType::ListItem(_) => "</li>"@,
            FormatType::CodeBlock => "</div>"@,
            FormatType::CodeBlockMeta => "</span></div>"@,
            FormatType::CodeBlockContents => "</pre>"@,
            FormatType::InlineBold => "</b>"@,
            FormatType::InlineItalic => "</i>"@,
            FormatType::InlineCode => "</code>"@,
            FormatType::InlineLink => "</a>"@,
            FormatType::InlineLinkUrl => "\""@,
            FormatType::InlineLinkText => ""@,
            FormatType::CardAuthor => "</div>"@,
            FormatType::CardAuthorAvatar => "\" alt=\"\" width=\"32px\" height=\"32px\">"@,
            FormatType::CardAuthorName => "</span>"@,
            FormatType::CardAuthorDate => "</span>"@,
            FormatType::CardAuthorCategory => "</span></div></div>"@,
        }
    }

    open spec fn spec_code_escape() -> Option<char> {
        Some('\\')
    }

    open spec fn spec_code_begin(ty: FormatType) -> Seq<char> {
        Self::spec_begin(ty)
    }

    open spec fn spec_code_end(ty: FormatType) -> Seq<char> {
        Self::spec_end(ty)
    }

    fn escape() -> (r: Option<char>) {
        None
    }

    fn code_escape() -> (r: Option<char>) {
        Some('\\')
    }

    fn code_begin(ty: FormatType) -> (r: &'static str) {
        Self::begin(ty)
    }

    fn code_end(ty: FormatType) -> (r: &'static str) {
        Self::end(ty)
    }

    fn begin(ty: FormatType) -> (r: &'static str) {
        match ty {
            FormatType::Heading(1u8) => "<h1>",
            FormatType::Heading(2u8) => "<h2>",
            FormatType::Heading(3u8) => "<h3>",
            FormatType::Heading(4u8) => "<h4>",
            FormatType::Heading(5u8) => "<h5>",
            FormatType::Heading(_) => "<h6>",
            FormatType::Paragraph => "<p>",
            FormatType::List(ListType::Ordered) => "<ol>",
            FormatType::List(ListType::Unordered) => "<ul>",
            FormatType::ListItem(_) => "<li>",
            FormatType::CodeBlock => "<div class=\"codeblock\">",
            FormatType::CodeBlockMeta => "<div class=\"prelude\"><span>",
            FormatType::CodeBlockContents => "<pre>",
            FormatType::InlineBold => "<b>",
            FormatType::InlineItalic => "<i>",
            FormatType::InlineCode => "<code>",
            FormatType::InlineLink => "<a",
            FormatType::InlineLinkUrl => " href=\"",
            FormatType::InlineLinkText => ">",
            FormatType::CardAuthor => "<div class=\"author-card\">",
            FormatType::CardAuthorAvatar => "<img src=\"",
            FormatType::CardAuthorName => "<div class=\"text\"><span class=\"name\">",
            FormatType::CardAuthorDate => "<div class=\"info\"><span class=\"date\">",
            FormatType::CardAuthorCategory => "<span class=\"badge\">",
        }
    }

    fn end(ty: FormatType) -> (r: &'static str) {
        match ty {
            FormatType::Heading(1u8) => "</h1>",
            FormatType::Heading(2u8) => "</h2>",
            FormatType::Heading(3u8) => "</h3>",
            FormatType::Heading(4u8) => "</h4>",
            FormatType::Heading(5u8) => "</h5>",
            FormatType::Heading(_) => "</h6>",
            FormatType::Paragraph => "</p>",
            FormatType::List(ListType::Ordered) => "</ol>",
            FormatType::List(ListType::Unordered) => "</ul>",
            FormatType::ListItem(_) => "</li>",
            FormatType::CodeBlock => "</div>",
            FormatType::CodeBlockMeta => "</span></div>",
            FormatType::CodeBlockContents => "</pre>",
            FormatType::InlineBold => "</b>",
            FormatType::InlineItalic => "</i>",
            FormatType::InlineCode => "</code>",
            FormatType::InlineLink => "</a>",
            FormatType::InlineLinkUrl => "\"",
            FormatType::InlineLinkText => "",
            FormatType::CardAuthor => "</div>",
            FormatType::CardAuthorAvatar => "\" alt=\"\" width=\"32px\" height=\"32px\">",
            FormatType::CardAuthorName => "</span>",
            FormatType::CardAuthorDate => "</span>",
            FormatType::CardAuthorCategory => "</span></div></div>",
        }
    }
}

/// The backend used inside code blocks: the same HTML markup as
/// [`ParagraphEngine`], but with the `\` escape character active, so that
/// inline-formatting symbols can stand literally in code. Its own code-block
/// backend is itself: escaping stays active recursively.
pub struct CodeblockEngine;

impl FormatEngine for CodeblockEngine {
    open spec fn spec_escape() -> Option<char> {
        Some('\\')
    }

    open spec fn spec_begin(ty: FormatType) -> Seq<char> {
        ParagraphEngine::spec_begin(ty)
    }

    open spec fn spec_end(ty: FormatType) -> Seq<char> {
        ParagraphEngine::spec_end(ty)
    }

    open spec fn spec_code_escape() -> Option<char> {
        Some('\\')
    }

    open spec fn spec_code_begin(ty: FormatType) -> Seq<char> {
        ParagraphEngine::spec_begin(ty)
    }

    open spec fn spec_code_end(ty: FormatType) -> Seq<char> {
        ParagraphEngine::spec_end(ty)
    }

    fn escape() -> (r: Option<char>) {
        Some('\\')
    }

    fn begin(ty: FormatType) -> (r: &'static str) {
        ParagraphEngine::begin(ty)
    }

    fn end(ty: FormatType) -> (r: &'static str) {
        ParagraphEngine::end(ty)
    }

    fn code_escape() -> (r: Option<char>) {
        Some('\\')
    }

    fn code_begin(ty: FormatType) -> (r: &'static str) {
        ParagraphEngine::begin(ty)
    }

    fn code_end(ty: FormatType) -> (r: &'static str) {
        ParagraphEngine::end(ty)
    }
}

} // verus!
