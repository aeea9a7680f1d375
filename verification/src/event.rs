use vstd::prelude::*;

verus! {

/// One event of a markdown event stream, as the section extractor reads it.
///
/// The stream itself is produced by an external markdown parser; only the
/// parts of each event that the extractor looks at are carried here, as
/// plain values. Events the extractor ignores arrive as `Other`.
#[derive(Debug, Clone)]
pub enum MdEvent {
    /// Start of a heading at the given level (1 for `#`, 2 for `##`, ...).
    HeadingStart { level: u32 },
    HeadingEnd,
    ParagraphStart,
    ParagraphEnd,
    ListStart,
    ListEnd,
    ItemStart,
    ItemEnd,
    /// Start of a fenced code block, with the fence's language tag.
    FencedCodeBlockStart { lang: String },
    CodeBlockEnd,
    EmphasisStart,
    EmphasisEnd,
    StrongStart,
    StrongEnd,
    /// Start of a link; `title` is the link's title attribute.
    LinkStart { title: String, dest_url: String },
    LinkEnd,
    /// A run of plain text.
    Text { text: String },
    /// An inline code span.
    Code { code: String },
    SoftBreak,
    HardBreak,
    /// Any event kind the extractor does not care about.
    Other,
}

} // verus!
