//! Markdown: the source is read into CommonMark events by pulldown-cmark and
//! folded here into a small block model (headings, paragraphs of styled
//! inline runs, lists, quotes, fenced code, tables, rules). Raw HTML is
//! dropped, and link schemes are restricted to http(s)/mailto before a link
//! may become a hyperlink.

use vstd::prelude::*;
use vstd::string::StrSliceExecFns;
use vstd::string::StringExecFns;
use crate::strs::{str_chars, trim_range, to_ascii_lower, ascii_lower, spec_trim, decimal, spec_decimal, string_of};
use pulldown_cmark::{CodeBlockKind, Event, Options, Parser, Tag, TagEnd};

verus! {

/* ---------------- link sanitizing ---------------- */

/// Whether `t` starts with `p`, comparing `t` folded to ASCII lower case.
pub open spec fn has_prefix_ci(t: Seq<char>, p: Seq<char>) -> bool {
    t.len() >= p.len() && forall|i: int| 0 <= i < p.len() ==> ascii_lower(#[trigger] t[i]) == p[i]
}

pub open spec fn https_prefix() -> Seq<char> {
    seq!['h', 't', 't', 'p', 's', ':', '/', '/']
}

pub open spec fn http_prefix() -> Seq<char> {
    seq!['h', 't', 't', 'p', ':', '/', '/']
}

pub open spec fn mailto_prefix() -> Seq<char> {
    seq!['m', 'a', 'i', 'l', 't', 'o', ':']
}

/// A trimmed link target is safe when it starts (in any letter case) with
/// `https://`, `http://` or `mailto:`.
pub open spec fn is_safe_target(t: Seq<char>) -> bool {
    has_prefix_ci(t, https_prefix()) || has_prefix_ci(t, http_prefix()) || has_prefix_ci(
        t,
        mailto_prefix(),
    )
}

fn starts_with_ci(v: &Vec<char>, from: usize, to: usize, p: &[char]) -> (b: bool)
    requires
        from <= to <= v.len(),
    ensures
        b == has_prefix_ci(v@.subrange(from as int, to as int), p@),
{
    let ghost t = v@.subrange(from as int, to as int);
    if to - from < p.len() {
        return false;
    }
    let mut i: usize = 0;
    while i < p.len()
        invariant
            i <= p.len(),
            p.len() <= to - from,
            from <= to <= v.len(),
            t == v@.subrange(from as int, to as int),
            forall|k: int| 0 <= k < i ==> ascii_lower(#[trigger] t[k]) == p@[k],
        decreases p.len() - i,
    {
        if to_ascii_lower(v[from + i]) != p[i] {
            assert(t[i as int] == v@[from + i]);
            return false;
        }
        assert(t[i as int] == v@[from + i]);
        i += 1;
    }
    true
}

/// Allow only http(s) and mailto link schemes: the trimmed target when it
/// has one of them, otherwise `None` (`javascript:`, `data:`, relative
/// paths, … render as plain text).
pub fn safe_url(url: &str) -> (r: Option<&str>)
    ensures
        r is Some <==> is_safe_target(spec_trim(url@)),
        r matches Some(t) ==> t@ == spec_trim(url@),
{
    let chars = str_chars(url);
    let (a, b) = trim_range(&chars);
    let ghost trimmed = spec_trim(url@);
    if a >= b {
        proof {
            assert(trimmed == Seq::<char>::empty());
        }
        return None;
    }
    assert(trimmed == chars@.subrange(a as int, b as int));
    let https = ['h', 't', 't', 'p', 's', ':', '/', '/'];
    let http = ['h', 't', 't', 'p', ':', '/', '/'];
    let mailto = ['m', 'a', 'i', 'l', 't', 'o', ':'];
    assert(https@ == https_prefix());
    assert(http@ == http_prefix());
    assert(mailto@ == mailto_prefix());
    if starts_with_ci(&chars, a, b, https.as_slice()) || starts_with_ci(&chars, a, b, http.as_slice())
        || starts_with_ci(&chars, a, b, mailto.as_slice()) {
        Some(url.substring_char(a, b))
    } else {
        None
    }
}

/* ---------------- block model ---------------- */

/// An inline run: styled text, inline code, or a link.
#[derive(Clone, Debug, PartialEq)]
pub enum MdSpan {
    Text { text: String, strong: bool, emphasis: bool, strike: bool },
    Code(String),
    Link { text: String, url: String },
}

/// A block of the document.
#[derive(Debug, PartialEq)]
pub enum MdBlock {
    Heading { level: u8, spans: Vec<MdSpan> },
    Paragraph(Vec<MdSpan>),
    CodeBlock { lang: String, code: String },
    Quote(Vec<MdBlock>),
    List { start: Option<u64>, items: Vec<Vec<MdBlock>> },
    Rule,
    Table { header: Vec<Vec<MdSpan>>, rows: Vec<Vec<Vec<MdSpan>>> },
}

impl MdSpan {
    /// Where a click on this span leads: a link's target when its scheme
    /// is safe (see [`safe_url`]); a link with any other scheme renders as
    /// plain text, and text and code lead nowhere.
    pub fn link_target(&self) -> (r: Option<&str>)
        ensures
            match self {
                MdSpan::Link { url, .. } => {
                    &&& (r is Some <==> is_safe_target(spec_trim(url@)))
                    &&& (r matches Some(t) ==> t@ == spec_trim(url@))
                },
                _ => r is None,
            },
    {
        match self {
            MdSpan::Link { url, .. } => safe_url(url.as_str()),
            _ => None,
        }
    }
}

/// The marker of item `i` of a list: `n. ` counting from the list's start
/// for an ordered list, a bullet and two spaces otherwise.
pub open spec fn spec_list_marker(start: Option<u64>, i: int) -> Seq<char> {
    match start {
        Some(s) => spec_decimal((s + i) as nat) + seq!['.', ' '],
        None => seq!['\u{2022}', ' ', ' '],
    }
}

/// The marker of item `i` of a list (see [`spec_list_marker`]).
pub fn list_marker(start: Option<u64>, i: usize) -> (m: String)
    requires
        start matches Some(s) ==> s + i <= u64::MAX,
    ensures
        m@ == spec_list_marker(start, i as int),
{
    match start {
        Some(s) => {
            let mut chars = decimal(s + i as u64);
            chars.push('.');
            chars.push(' ');
            string_of(&chars)
        },
        None => {
            let chars = vec!['\u{2022}', ' ', ' '];
            assert(chars@ == seq!['\u{2022}', ' ', ' ']);
            string_of(&chars)
        },
    }
}

/// An [`MdSpan`] by its characters.
pub enum SpanM {
    Text { text: Seq<char>, strong: bool, emphasis: bool, strike: bool },
    Code(Seq<char>),
    Link { text: Seq<char>, url: Seq<char> },
}

/// An [`MdBlock`] by its characters.
pub enum BlockM {
    Heading { level: u8, spans: Seq<SpanM> },
    Paragraph(Seq<SpanM>),
    CodeBlock { lang: Seq<char>, code: Seq<char> },
    Quote(Seq<BlockM>),
    List { start: Option<u64>, items: Seq<Seq<BlockM>> },
    Rule,
    Table { header: Seq<Seq<SpanM>>, rows: Seq<Seq<Seq<SpanM>>> },
}

pub open spec fn span_view(s: MdSpan) -> SpanM {
    match s {
        MdSpan::Text { text, strong, emphasis, strike } => SpanM::Text {
            text: text@,
            strong,
            emphasis,
            strike,
        },
        MdSpan::Code(c) => SpanM::Code(c@),
        MdSpan::Link { text, url } => SpanM::Link { text: text@, url: url@ },
    }
}

pub open spec fn spans_view(s: Seq<MdSpan>) -> Seq<SpanM> {
    s.map_values(|x: MdSpan| span_view(x))
}

pub open spec fn cells_view(s: Seq<Vec<MdSpan>>) -> Seq<Seq<SpanM>> {
    s.map_values(|c: Vec<MdSpan>| spans_view(c@))
}

pub open spec fn table_rows_view(s: Seq<Vec<Vec<MdSpan>>>) -> Seq<Seq<Seq<SpanM>>> {
    s.map_values(|r: Vec<Vec<MdSpan>>| cells_view(r@))
}

pub open spec fn block_view(b: MdBlock) -> BlockM
    decreases b,
{
    match b {
        MdBlock::Heading { level, spans } => BlockM::Heading { level, spans: spans_view(spans@) },
        MdBlock::Paragraph(spans) => BlockM::Paragraph(spans_view(spans@)),
        MdBlock::CodeBlock { lang, code } => BlockM::CodeBlock { lang: lang@, code: code@ },
        MdBlock::Quote(v) => BlockM::Quote(blocks_view(v@)),
        MdBlock::List { start, items } => BlockM::List { start, items: items_view(items@) },
        MdBlock::Rule => BlockM::Rule,
        MdBlock::Table { header, rows } => BlockM::Table {
            header: cells_view(header@),
            rows: table_rows_view(rows@),
        },
    }
}

pub open spec fn blocks_view(s: Seq<MdBlock>) -> Seq<BlockM>
    decreases s,
{
    if s.len() == 0 {
        Seq::empty()
    } else {
        blocks_view(s.subrange(0, s.len() - 1)).push(block_view(s[s.len() - 1]))
    }
}

pub open spec fn items_view(s: Seq<Vec<MdBlock>>) -> Seq<Seq<BlockM>>
    decreases s,
{
    if s.len() == 0 {
        Seq::empty()
    } else {
        items_view(s.subrange(0, s.len() - 1)).push(blocks_view(s[s.len() - 1]@))
    }
}

proof fn lemma_blocks_push(s: Seq<MdBlock>, b: MdBlock)
    ensures
        blocks_view(s.push(b)) == blocks_view(s).push(block_view(b)),
{
    assert(s.push(b).subrange(0, s.len() as int) == s);
}

proof fn lemma_items_push(s: Seq<Vec<MdBlock>>, b: Vec<MdBlock>)
    ensures
        items_view(s.push(b)) == items_view(s).push(blocks_view(b@)),
{
    assert(s.push(b).subrange(0, s.len() as int) == s);
}

proof fn lemma_items_pop(s: Seq<Vec<MdBlock>>)
    requires
        s.len() > 0,
    ensures
        items_view(s) == items_view(s.drop_last()).push(blocks_view(s.last()@)),
        items_view(s).len() == s.len(),
    decreases s.len(),
{
    assert(s.subrange(0, s.len() - 1) == s.drop_last());
    lemma_items_len(s);
}

proof fn lemma_items_len(s: Seq<Vec<MdBlock>>)
    ensures
        items_view(s).len() == s.len(),
    decreases s.len(),
{
    if s.len() > 0 {
        lemma_items_len(s.subrange(0, s.len() - 1));
    }
}

proof fn lemma_spans_push(s: Seq<MdSpan>, x: MdSpan)
    ensures
        spans_view(s.push(x)) == spans_view(s).push(span_view(x)),
{
    assert(spans_view(s.push(x)) =~= spans_view(s).push(span_view(x)));
}

proof fn lemma_cells_push(s: Seq<Vec<MdSpan>>, x: Vec<MdSpan>)
    ensures
        cells_view(s.push(x)) == cells_view(s).push(spans_view(x@)),
{
    assert(cells_view(s.push(x)) =~= cells_view(s).push(spans_view(x@)));
}

proof fn lemma_rows_push(s: Seq<Vec<Vec<MdSpan>>>, x: Vec<Vec<MdSpan>>)
    ensures
        table_rows_view(s.push(x)) == table_rows_view(s).push(cells_view(x@)),
{
    assert(table_rows_view(s.push(x)) =~= table_rows_view(s).push(cells_view(x@)));
}

/* ---------------- events ---------------- */

/// The CommonMark events the block model is built from. Raw HTML (block or
/// inline) is `Html`; the other events the model has no use for (images,
/// footnotes, math, …) are `Other`.
#[derive(Clone, Debug, PartialEq)]
pub enum MdEvent {
    StartHeading(u8),
    EndHeading,
    StartParagraph,
    EndParagraph,
    StartQuote,
    EndQuote,
    StartList(Option<u64>),
    EndList,
    StartItem,
    EndItem,
    /// A code block: the fence's language, `None` for an indented block.
    StartCode(Option<String>),
    EndCode,
    StartEmphasis,
    EndEmphasis,
    StartStrong,
    EndStrong,
    StartStrike,
    EndStrike,
    /// A link and its destination.
    StartLink(String),
    EndLink,
    StartTable,
    EndTable,
    StartTableHead,
    EndTableHead,
    StartTableRow,
    EndTableRow,
    StartTableCell,
    EndTableCell,
    Rule,
    Text(String),
    Code(String),
    SoftBreak,
    HardBreak,
    /// Raw HTML, with its text.
    Html(String),
    Other,
}

/// pulldown-cmark's event type.
#[verifier::external_type_specification]
#[verifier::external_body]
pub struct ExEvent<'a>(Event<'a>);

/// pulldown-cmark's start tag type.
#[verifier::external_type_specification]
#[verifier::external_body]
pub struct ExTag<'a>(Tag<'a>);

/// pulldown-cmark's end tag type.
#[verifier::external_type_specification]
#[verifier::external_body]
pub struct ExTagEnd(TagEnd);

/// The events pulldown-cmark reads from `source` with strikethrough and
/// tables enabled, each mapped to an [`MdEvent`].
pub uninterp spec fn cmark_events(source: Seq<char>) -> Seq<MdEvent>;

/// `pulldown_cmark::Parser::new_ext` over `source` (strikethrough and
/// tables on), each event mapped by [`md_event`]. The result is a function
/// of `source` alone; what the events are is pulldown-cmark's CommonMark
/// reading and is not stated here.
#[verifier::external_body]
fn cmark_parse(source: &str) -> (evs: Vec<MdEvent>)
    ensures
        evs@ == cmark_events(source@),
{
    let options = Options::ENABLE_STRIKETHROUGH | Options::ENABLE_TABLES;
    Parser::new_ext(source, options).map(md_event).collect()
}

/// One pulldown-cmark event as an [`MdEvent`] (a change of type, one arm
/// per event kind).
#[verifier::external_body]
fn md_event(e: Event) -> MdEvent {
    match e {
        Event::Start(tag) => md_start(tag),
        Event::End(tag) => md_end(tag),
        Event::Text(s) => MdEvent::Text(s.to_string()),
        Event::Code(s) => MdEvent::Code(s.to_string()),
        Event::SoftBreak => MdEvent::SoftBreak,
        Event::HardBreak => MdEvent::HardBreak,
        Event::Rule => MdEvent::Rule,
        Event::Html(s) | Event::InlineHtml(s) => MdEvent::Html(s.to_string()),
        _ => MdEvent::Other,
    }
}

/// A pulldown-cmark start tag of a block as an [`MdEvent`] (one arm per
/// tag kind; inline tags go on to [`md_start_inline`]).
#[verifier::external_body]
fn md_start(tag: Tag) -> MdEvent {
    match tag {
        Tag::Heading { level, .. } => MdEvent::StartHeading(level as u8),
        Tag::Paragraph => MdEvent::StartParagraph,
        Tag::BlockQuote(_) => MdEvent::StartQuote,
        Tag::List(start) => MdEvent::StartList(start),
        Tag::Item => MdEvent::StartItem,
        Tag::CodeBlock(CodeBlockKind::Fenced(lang)) => MdEvent::StartCode(Some(lang.to_string())),
        Tag::CodeBlock(CodeBlockKind::Indented) => MdEvent::StartCode(None),
        Tag::Table(_) => MdEvent::StartTable,
        Tag::TableHead => MdEvent::StartTableHead,
        Tag::TableRow => MdEvent::StartTableRow,
        Tag::TableCell => MdEvent::StartTableCell,
        tag => md_start_inline(tag),
    }
}

/// A pulldown-cmark start tag of an inline as an [`MdEvent`] (one arm per
/// tag kind).
#[verifier::external_body]
fn md_start_inline(tag: Tag) -> MdEvent {
    match tag {
        Tag::Emphasis => MdEvent::StartEmphasis,
        Tag::Strong => MdEvent::StartStrong,
        Tag::Strikethrough => MdEvent::StartStrike,
        Tag::Link { dest_url, .. } => MdEvent::StartLink(dest_url.to_string()),
        _ => MdEvent::Other,
    }
}

/// A pulldown-cmark end tag of a block as an [`MdEvent`] (one arm per tag
/// kind; inline tags go on to [`md_end_inline`]).
#[verifier::external_body]
fn md_end(tag: TagEnd) -> MdEvent {
    match tag {
        TagEnd::Heading(_) => MdEvent::EndHeading,
        TagEnd::Paragraph => MdEvent::EndParagraph,
        TagEnd::BlockQuote(_) => MdEvent::EndQuote,
        TagEnd::List(_) => MdEvent::EndList,
        TagEnd::Item => MdEvent::EndItem,
        TagEnd::CodeBlock => MdEvent::EndCode,
        TagEnd::Table => MdEvent::EndTable,
        TagEnd::TableHead => MdEvent::EndTableHead,
        TagEnd::TableRow => MdEvent::EndTableRow,
        TagEnd::TableCell => MdEvent::EndTableCell,
        tag => md_end_inline(tag),
    }
}

/// A pulldown-cmark end tag of an inline as an [`MdEvent`] (one arm per
/// tag kind).
#[verifier::external_body]
fn md_end_inline(tag: TagEnd) -> MdEvent {
    match tag {
        TagEnd::Emphasis => MdEvent::EndEmphasis,
        TagEnd::Strong => MdEvent::EndStrong,
        TagEnd::Strikethrough => MdEvent::EndStrike,
        TagEnd::Link => MdEvent::EndLink,
        _ => MdEvent::Other,
    }
}

/* ---------------- the fold ---------------- */

/// An open container of the block under construction.
pub enum Container {
    Quote(Vec<MdBlock>),
    List { start: Option<u64>, items: Vec<Vec<MdBlock>> },
    Item(Vec<MdBlock>),
}

/// A table under construction.
pub struct TableCx {
    header: Vec<Vec<MdSpan>>,
    rows: Vec<Vec<Vec<MdSpan>>>,
    row: Vec<Vec<MdSpan>>,
    cell: Vec<MdSpan>,
    in_head: bool,
}

/// The state of the fold of events into blocks.
pub struct ParseCx {
    root: Vec<MdBlock>,
    stack: Vec<Container>,
    spans: Vec<MdSpan>,
    strong: u64,
    emphasis: u64,
    strike: u64,
    /// `(url, accumulated text)` while inside a link.
    link: Option<(String, String)>,
    heading: Option<u8>,
    /// `(lang, buffer)` while inside a code block.
    code: Option<(String, String)>,
    table: Option<TableCx>,
}

/// A [`Container`] by its characters.
#[verifier::ext_equal]
pub enum ContainerM {
    Quote(Seq<BlockM>),
    List { start: Option<u64>, items: Seq<Seq<BlockM>> },
    Item(Seq<BlockM>),
}

/// A [`TableCx`] by its characters.
#[verifier::ext_equal]
pub struct TableM {
    pub header: Seq<Seq<SpanM>>,
    pub rows: Seq<Seq<Seq<SpanM>>>,
    pub row: Seq<Seq<SpanM>>,
    pub cell: Seq<SpanM>,
    pub in_head: bool,
}

/// A [`ParseCx`] by its characters: the finished top-level blocks, the open
/// containers (innermost last), the pending paragraph's runs, the style
/// nesting depths, and the open heading, link, code block and table.
#[verifier::ext_equal]
pub struct CxM {
    pub root: Seq<BlockM>,
    pub stack: Seq<ContainerM>,
    pub spans: Seq<SpanM>,
    pub strong: u64,
    pub emphasis: u64,
    pub strike: u64,
    pub link: Option<(Seq<char>, Seq<char>)>,
    pub heading: Option<u8>,
    pub code: Option<(Seq<char>, Seq<char>)>,
    pub table: Option<TableM>,
}

pub open spec fn container_view(c: Container) -> ContainerM {
    match c {
        Container::Quote(v) => ContainerM::Quote(blocks_view(v@)),
        Container::List { start, items } => ContainerM::List { start, items: items_view(items@) },
        Container::Item(v) => ContainerM::Item(blocks_view(v@)),
    }
}

pub open spec fn stack_view(s: Seq<Container>) -> Seq<ContainerM> {
    s.map_values(|c: Container| container_view(c))
}

pub closed spec fn table_view(t: TableCx) -> TableM {
    TableM {
        header: cells_view(t.header@),
        rows: table_rows_view(t.rows@),
        row: cells_view(t.row@),
        cell: spans_view(t.cell@),
        in_head: t.in_head,
    }
}

pub open spec fn pair_view(p: Option<(String, String)>) -> Option<(Seq<char>, Seq<char>)> {
    match p {
        Some((a, b)) => Some((a@, b@)),
        None => None,
    }
}

impl View for ParseCx {
    type V = CxM;

    closed spec fn view(&self) -> CxM {
        CxM {
            root: blocks_view(self.root@),
            stack: stack_view(self.stack@),
            spans: spans_view(self.spans@),
            strong: self.strong,
            emphasis: self.emphasis,
            strike: self.strike,
            link: pair_view(self.link),
            heading: self.heading,
            code: pair_view(self.code),
            table: match self.table {
                Some(t) => Some(table_view(t)),
                None => None,
            },
        }
    }
}

/// The state before any event.
pub open spec fn m_init() -> CxM {
    CxM {
        root: Seq::empty(),
        stack: Seq::empty(),
        spans: Seq::empty(),
        strong: 0,
        emphasis: 0,
        strike: 0,
        link: None,
        heading: None,
        code: None,
        table: None,
    }
}

/// A finished block goes into the innermost open container (a list's last
/// item, or a new item when the list has none), or to the top level.
pub open spec fn m_push_block(cx: CxM, b: BlockM) -> CxM {
    if cx.stack.len() == 0 {
        CxM { root: cx.root.push(b), ..cx }
    } else {
        let top = match cx.stack.last() {
            ContainerM::Quote(bs) => ContainerM::Quote(bs.push(b)),
            ContainerM::Item(bs) => ContainerM::Item(bs.push(b)),
            ContainerM::List { start, items } => ContainerM::List {
                start,
                items: if items.len() > 0 {
                    items.drop_last().push(items.last().push(b))
                } else {
                    items.push(seq![b])
                },
            },
        };
        CxM { stack: cx.stack.drop_last().push(top), ..cx }
    }
}

/// The pending runs, if any, become a paragraph.
pub open spec fn m_flush(cx: CxM) -> CxM {
    if cx.spans.len() > 0 {
        m_push_block(CxM { spans: Seq::empty(), ..cx }, BlockM::Paragraph(cx.spans))
    } else {
        cx
    }
}

/// A run goes to the open table cell, or to the pending paragraph.
pub open spec fn m_push_span(cx: CxM, sp: SpanM) -> CxM {
    match cx.table {
        Some(t) => CxM { table: Some(TableM { cell: t.cell.push(sp), ..t }), ..cx },
        None => CxM { spans: cx.spans.push(sp), ..cx },
    }
}

/// Text goes into an open code block, else into an open link's text, else
/// becomes a run styled by the open emphasis, strong and strikethrough tags.
pub open spec fn m_text(cx: CxM, s: Seq<char>) -> CxM {
    match cx.code {
        Some((l, buf)) => CxM { code: Some((l, buf + s)), ..cx },
        None => match cx.link {
            Some((u, t)) => CxM { link: Some((u, t + s)), ..cx },
            None => m_push_span(
                cx,
                SpanM::Text { text: s, strong: cx.strong > 0, emphasis: cx.emphasis > 0, strike: cx.strike > 0 },
            ),
        },
    }
}

/// `s` without its trailing newlines.
pub open spec fn trim_newlines(s: Seq<char>) -> Seq<char>
    decreases s.len(),
{
    if s.len() > 0 && s.last() == '\n' {
        trim_newlines(s.drop_last())
    } else {
        s
    }
}

/// `cx` with its innermost container closed.
pub open spec fn m_pop(cx: CxM) -> CxM {
    CxM { stack: cx.stack.drop_last(), ..cx }
}

/// The effect of one event.
pub open spec fn spec_step(cx: CxM, ev: MdEvent) -> CxM {
    match ev {
        MdEvent::StartHeading(level) => CxM { heading: Some(level), ..m_flush(cx) },
        MdEvent::EndHeading => {
            let level = match cx.heading {
                Some(l) => l,
                None => 1u8,
            };
            m_push_block(
                CxM { heading: None, spans: Seq::empty(), ..cx },
                BlockM::Heading { level, spans: cx.spans },
            )
        },
        MdEvent::StartParagraph => cx,
        MdEvent::EndParagraph => m_flush(cx),
        MdEvent::StartQuote => {
            let f = m_flush(cx);
            CxM { stack: f.stack.push(ContainerM::Quote(Seq::empty())), ..f }
        },
        MdEvent::EndQuote => {
            let f = m_flush(cx);
            if f.stack.len() == 0 {
                f
            } else {
                match f.stack.last() {
                    ContainerM::Quote(bs) => m_push_block(m_pop(f), BlockM::Quote(bs)),
                    _ => m_pop(f),
                }
            }
        },
        MdEvent::StartList(start) => {
            let f = m_flush(cx);
            CxM { stack: f.stack.push(ContainerM::List { start, items: Seq::empty() }), ..f }
        },
        MdEvent::EndList => {
            if cx.stack.len() == 0 {
                cx
            } else {
                match cx.stack.last() {
                    ContainerM::List { start, items } => m_push_block(
                        m_pop(cx),
                        BlockM::List { start, items },
                    ),
                    _ => m_pop(cx),
                }
            }
        },
        MdEvent::StartItem => {
            let f = m_flush(cx);
            CxM { stack: f.stack.push(ContainerM::Item(Seq::empty())), ..f }
        },
        MdEvent::EndItem => {
            let f = m_flush(cx);
            if f.stack.len() == 0 {
                f
            } else {
                let p = m_pop(f);
                match f.stack.last() {
                    ContainerM::Item(bs) => {
                        if p.stack.len() > 0 {
                            match p.stack.last() {
                                ContainerM::List { start, items } => CxM {
                                    stack: p.stack.drop_last().push(
                                        ContainerM::List { start, items: items.push(bs) },
                                    ),
                                    ..p
                                },
                                _ => p,
                            }
                        } else {
                            p
                        }
                    },
                    _ => p,
                }
            }
        },
        MdEvent::StartCode(lang) => CxM {
            code: Some(
                (
                    match lang {
                        Some(l) => l@,
                        None => Seq::empty(),
                    },
                    Seq::empty(),
                ),
            ),
            ..m_flush(cx)
        },
        MdEvent::EndCode => match cx.code {
            Some((l, c)) => m_push_block(
                CxM { code: None, ..cx },
                BlockM::CodeBlock { lang: l, code: trim_newlines(c) },
            ),
            None => cx,
        },
        MdEvent::StartEmphasis => CxM { emphasis: (cx.emphasis + 1) as u64, ..cx },
        MdEvent::EndEmphasis => CxM {
            emphasis: if cx.emphasis > 0 { (cx.emphasis - 1) as u64 } else { 0 },
            ..cx
        },
        MdEvent::StartStrong => CxM { strong: (cx.strong + 1) as u64, ..cx },
        MdEvent::EndStrong => CxM {
            strong: if cx.strong > 0 { (cx.strong - 1) as u64 } else { 0 },
            ..cx
        },
        MdEvent::StartStrike => CxM { strike: (cx.strike + 1) as u64, ..cx },
        MdEvent::EndStrike => CxM {
            strike: if cx.strike > 0 { (cx.strike - 1) as u64 } else { 0 },
            ..cx
        },
        MdEvent::StartLink(url) => CxM { link: Some((url@, Seq::empty())), ..cx },
        MdEvent::EndLink => match cx.link {
            Some((u, t)) => m_push_span(CxM { link: None, ..cx }, SpanM::Link { text: t, url: u }),
            None => cx,
        },
        MdEvent::StartTable => CxM {
            table: Some(
                TableM {
                    header: Seq::empty(),
                    rows: Seq::empty(),
                    row: Seq::empty(),
                    cell: Seq::empty(),
                    in_head: false,
                },
            ),
            ..m_flush(cx)
        },
        MdEvent::EndTable => match cx.table {
            Some(t) => m_push_block(
                CxM { table: None, ..cx },
                BlockM::Table { header: t.header, rows: t.rows },
            ),
            None => cx,
        },
        MdEvent::StartTableHead => match cx.table {
            Some(t) => CxM { table: Some(TableM { in_head: true, ..t }), ..cx },
            None => cx,
        },
        MdEvent::EndTableHead => match cx.table {
            Some(t) => CxM { table: Some(TableM { in_head: false, ..t }), ..cx },
            None => cx,
        },
        MdEvent::StartTableRow => match cx.table {
            Some(t) => CxM { table: Some(TableM { row: Seq::empty(), ..t }), ..cx },
            None => cx,
        },
        MdEvent::EndTableRow => match cx.table {
            Some(t) => CxM {
                table: Some(TableM { rows: t.rows.push(t.row), row: Seq::empty(), ..t }),
                ..cx
            },
            None => cx,
        },
        MdEvent::StartTableCell => match cx.table {
            Some(t) => CxM { table: Some(TableM { cell: Seq::empty(), ..t }), ..cx },
            None => cx,
        },
        MdEvent::EndTableCell => match cx.table {
            Some(t) => CxM {
                table: Some(
                    if t.in_head {
                        TableM { header: t.header.push(t.cell), cell: Seq::empty(), ..t }
                    } else {
                        TableM { row: t.row.push(t.cell), cell: Seq::empty(), ..t }
                    },
                ),
                ..cx
            },
            None => cx,
        },
        MdEvent::Rule => m_push_block(m_flush(cx), BlockM::Rule),
        MdEvent::Text(s) => m_text(cx, s@),
        MdEvent::Code(s) => match cx.link {
            Some((u, t)) => CxM { link: Some((u, t + s@)), ..cx },
            None => m_push_span(cx, SpanM::Code(s@)),
        },
        MdEvent::SoftBreak => m_text(cx, seq![' ']),
        MdEvent::HardBreak => m_text(cx, seq!['\n']),
        MdEvent::Html(_) => cx,
        MdEvent::Other => cx,
    }
}

/// Pushing a finished block never changes how many containers are open.
pub proof fn lemma_push_block_stack(cx: CxM, b: BlockM)
    ensures
        m_push_block(cx, b).stack.len() == cx.stack.len(),
{
}

/// Closing every container still open at the end, innermost first; an
/// item left open outside a list becomes a one-item list.
pub open spec fn m_unwind(cx: CxM) -> CxM
    decreases cx.stack.len(),
{
    if cx.stack.len() == 0 {
        cx
    } else {
        let b = match cx.stack.last() {
            ContainerM::Quote(bs) => BlockM::Quote(bs),
            ContainerM::Item(bs) => BlockM::List { start: None, items: seq![bs] },
            ContainerM::List { start, items } => BlockM::List { start, items },
        };
        proof {
            lemma_push_block_stack(m_pop(cx), b);
        }
        m_unwind(m_push_block(m_pop(cx), b))
    }
}

/// The state after the events `evs`, from `cx`.
pub open spec fn spec_fold(cx: CxM, evs: Seq<MdEvent>) -> CxM
    decreases evs.len(),
{
    if evs.len() == 0 {
        cx
    } else {
        spec_step(spec_fold(cx, evs.drop_last()), evs.last())
    }
}

/// The blocks the events `evs` describe.
pub open spec fn spec_parse_events(evs: Seq<MdEvent>) -> Seq<BlockM> {
    m_unwind(m_flush(spec_fold(m_init(), evs))).root
}

proof fn lemma_stack_push(s: Seq<Container>, c: Container)
    ensures
        stack_view(s.push(c)) == stack_view(s).push(container_view(c)),
{
    assert(stack_view(s.push(c)) =~= stack_view(s).push(container_view(c)));
}

proof fn lemma_stack_pop(s: Seq<Container>)
    requires
        s.len() > 0,
    ensures
        stack_view(s.drop_last()) == stack_view(s).drop_last(),
        stack_view(s).last() == container_view(s.last()),
        stack_view(s).len() == s.len(),
{
    assert(stack_view(s.drop_last()) =~= stack_view(s).drop_last());
}

/// `s` without its trailing newlines (as `trim_end_matches('\n')`).
fn trim_trailing_newlines(s: &str) -> (out: String)
    ensures
        out@ == trim_newlines(s@),
{
    let chars = str_chars(s);
    let mut n = chars.len();
    assert(chars@.subrange(0, n as int) == chars@);
    while n > 0 && chars[n - 1] == '\n'
        invariant
            n <= chars.len(),
            trim_newlines(s@) == trim_newlines(chars@.subrange(0, n as int)),
            chars@ == s@,
        decreases n,
    {
        assert(chars@.subrange(0, n as int).drop_last() == chars@.subrange(0, n - 1));
        n -= 1;
    }
    assert(chars@.subrange(0, chars.len() as int) == chars@);
    let kept = crate::strs::chars_range(&chars, 0, n);
    crate::strs::string_of(&kept)
}

impl ParseCx {
    /// The state before any event.
    pub fn new() -> (cx: ParseCx)
        ensures
            cx@ == m_init(),
    {
        let cx = ParseCx {
            root: Vec::new(),
            stack: Vec::new(),
            spans: Vec::new(),
            strong: 0,
            emphasis: 0,
            strike: 0,
            link: None,
            heading: None,
            code: None,
            table: None,
        };
        proof {
            assert(blocks_view(cx.root@) == Seq::<BlockM>::empty());
            assert(stack_view(cx.stack@) =~= Seq::<ContainerM>::empty());
            assert(spans_view(cx.spans@) =~= Seq::<SpanM>::empty());
            assert(cx@ =~= m_init());
        }
        cx
    }

    /// Put a finished block into the innermost open container (see
    /// [`m_push_block`]).
    pub fn push_block(&mut self, block: MdBlock)
        ensures
            final(self)@ == m_push_block(old(self)@, block_view(block)),
    {
        let ghost old_cx = self@;
        let ghost bv = block_view(block);
        if self.stack.len() == 0 {
            proof {
                lemma_blocks_push(self.root@, block);
            }
            self.root.push(block);
            assert(self@ =~= m_push_block(old_cx, bv));
            return;
        }
        let ghost old_stack = self.stack@;
        proof {
            lemma_stack_pop(old_stack);
        }
        let top = self.stack.pop().unwrap();
        assert(self.stack@ == old_stack.drop_last());
        let new_top = match top {
            Container::Quote(mut blocks) => {
                proof {
                    lemma_blocks_push(blocks@, block);
                }
                blocks.push(block);
                Container::Quote(blocks)
            },
            Container::Item(mut blocks) => {
                proof {
                    lemma_blocks_push(blocks@, block);
                }
                blocks.push(block);
                Container::Item(blocks)
            },
            Container::List { start, mut items } => {
                let ghost old_items = items@;
                if items.len() > 0 {
                    proof {
                        lemma_items_pop(old_items);
                    }
                    let mut item = items.pop().unwrap();
                    proof {
                        lemma_blocks_push(item@, block);
                    }
                    item.push(block);
                    proof {
                        lemma_items_push(items@, item);
                        lemma_items_len(items@);
                    }
                    items.push(item);
                    assert(items_view(items@) =~= items_view(old_items).drop_last().push(
                        items_view(old_items).last().push(bv),
                    ));
                } else {
                    let mut item: Vec<MdBlock> = Vec::new();
                    proof {
                        lemma_blocks_push(item@, block);
                        assert(blocks_view(item@) == Seq::<BlockM>::empty());
                    }
                    item.push(block);
                    proof {
                        lemma_items_push(items@, item);
                        lemma_items_len(items@);
                        assert(blocks_view(item@) =~= seq![bv]);
                    }
                    items.push(item);
                }
                Container::List { start, items }
            },
        };
        proof {
            lemma_stack_push(self.stack@, new_top);
        }
        self.stack.push(new_top);
        assert(self@ =~= m_push_block(old_cx, bv));
    }

    /// The pending runs, if any, become a paragraph.
    pub fn flush_paragraph(&mut self)
        ensures
            final(self)@ == m_flush(old(self)@),
    {
        if self.spans.len() > 0 {
            let ghost old_cx = self@;
            let mut spans: Vec<MdSpan> = Vec::new();
            std::mem::swap(&mut spans, &mut self.spans);
            proof {
                assert(spans_view(self.spans@) =~= Seq::<SpanM>::empty());
                assert(self@ =~= CxM { spans: Seq::empty(), ..old_cx });
            }
            self.push_block(MdBlock::Paragraph(spans));
        }
    }

    /// A run goes to the open table cell, or to the pending paragraph.
    pub fn push_span(&mut self, span: MdSpan)
        ensures
            final(self)@ == m_push_span(old(self)@, span_view(span)),
    {
        let ghost old_cx = self@;
        match self.table.take() {
            Some(mut table) => {
                proof {
                    lemma_spans_push(table.cell@, span);
                }
                table.cell.push(span);
                self.table = Some(table);
            },
            None => {
                proof {
                    lemma_spans_push(self.spans@, span);
                }
                self.spans.push(span);
            },
        }
        assert(self@ =~= m_push_span(old_cx, span_view(span)));
    }

    /// Text goes into an open code block, else into an open link's text, else
    /// becomes a styled run (see [`m_text`]).
    pub fn text(&mut self, s: &str)
        ensures
            final(self)@ == m_text(old(self)@, s@),
    {
        let ghost old_cx = self@;
        match self.code.take() {
            Some((lang, mut buf)) => {
                buf.append(s);
                self.code = Some((lang, buf));
                assert(self@ =~= m_text(old_cx, s@));
                return;
            },
            None => {},
        }
        match self.link.take() {
            Some((url, mut text)) => {
                text.append(s);
                self.link = Some((url, text));
                assert(self@ =~= m_text(old_cx, s@));
                return;
            },
            None => {},
        }
        let span = MdSpan::Text {
            text: s.to_owned(),
            strong: self.strong > 0,
            emphasis: self.emphasis > 0,
            strike: self.strike > 0,
        };
        self.push_span(span);
    }
}

impl ParseCx {
    /// Apply one event (see [`spec_step`]).
    pub fn step(&mut self, ev: &MdEvent)
        requires
            old(self)@.strong < u64::MAX,
            old(self)@.emphasis < u64::MAX,
            old(self)@.strike < u64::MAX,
        ensures
            final(self)@ == spec_step(old(self)@, *ev),
    {
        let ghost old_cx = self@;
        match ev {
            MdEvent::StartHeading(level) => {
                self.flush_paragraph();
                self.heading = Some(*level);
                assert(self@ =~= spec_step(old_cx, *ev));
            },
            MdEvent::EndHeading => {
                let level = match self.heading.take() {
                    Some(l) => l,
                    None => 1,
                };
                let mut spans: Vec<MdSpan> = Vec::new();
                std::mem::swap(&mut spans, &mut self.spans);
                proof {
                    assert(spans_view(self.spans@) =~= Seq::<SpanM>::empty());
                    assert(self@ =~= CxM { heading: None, spans: Seq::empty(), ..old_cx });
                }
                self.push_block(MdBlock::Heading { level, spans });
            },
            MdEvent::StartParagraph => {},
            MdEvent::EndParagraph => self.flush_paragraph(),
            MdEvent::StartQuote => {
                self.flush_paragraph();
                let ghost f = self@;
                let fresh: Vec<MdBlock> = Vec::new();
                assert(blocks_view(fresh@) == Seq::<BlockM>::empty());
                let c = Container::Quote(fresh);
                proof {
                    lemma_stack_push(self.stack@, c);
                }
                self.stack.push(c);
                assert(self@ =~= CxM { stack: f.stack.push(ContainerM::Quote(Seq::empty())), ..f });
            },
            MdEvent::EndQuote => {
                self.flush_paragraph();
                self.close_quote();
            },
            MdEvent::StartList(start) => {
                self.flush_paragraph();
                let ghost f = self@;
                let fresh: Vec<Vec<MdBlock>> = Vec::new();
                assert(items_view(fresh@) == Seq::<Seq<BlockM>>::empty());
                let c = Container::List { start: *start, items: fresh };
                proof {
                    lemma_stack_push(self.stack@, c);
                }
                self.stack.push(c);
                assert(self@ =~= CxM {
                    stack: f.stack.push(ContainerM::List { start: *start, items: Seq::empty() }),
                    ..f
                });
            },
            MdEvent::EndList => self.close_list(),
            MdEvent::StartItem => {
                self.flush_paragraph();
                let ghost f = self@;
                let fresh: Vec<MdBlock> = Vec::new();
                assert(blocks_view(fresh@) == Seq::<BlockM>::empty());
                let c = Container::Item(fresh);
                proof {
                    lemma_stack_push(self.stack@, c);
                }
                self.stack.push(c);
                assert(self@ =~= CxM { stack: f.stack.push(ContainerM::Item(Seq::empty())), ..f });
            },
            MdEvent::EndItem => {
                self.flush_paragraph();
                self.close_item();
            },
            MdEvent::StartCode(lang) => {
                self.flush_paragraph();
                let lang = match lang {
                    Some(l) => l.clone(),
                    None => String::new(),
                };
                self.code = Some((lang, String::new()));
                assert(self@ =~= spec_step(old_cx, *ev));
            },
            MdEvent::EndCode => {
                match self.code.take() {
                    Some((lang, code)) => {
                        let code = trim_trailing_newlines(code.as_str());
                        assert(self@ =~= CxM { code: None, ..old_cx });
                        self.push_block(MdBlock::CodeBlock { lang, code });
                    },
                    None => {},
                }
            },
            MdEvent::StartEmphasis => {
                self.emphasis = self.emphasis + 1;
                assert(self@ =~= spec_step(old_cx, *ev));
            },
            MdEvent::EndEmphasis => {
                self.emphasis = if self.emphasis > 0 { self.emphasis - 1 } else { 0 };
                assert(self@ =~= spec_step(old_cx, *ev));
            },
            MdEvent::StartStrong => {
                self.strong = self.strong + 1;
                assert(self@ =~= spec_step(old_cx, *ev));
            },
            MdEvent::EndStrong => {
                self.strong = if self.strong > 0 { self.strong - 1 } else { 0 };
                assert(self@ =~= spec_step(old_cx, *ev));
            },
            MdEvent::StartStrike => {
                self.strike = self.strike + 1;
                assert(self@ =~= spec_step(old_cx, *ev));
            },
            MdEvent::EndStrike => {
                self.strike = if self.strike > 0 { self.strike - 1 } else { 0 };
                assert(self@ =~= spec_step(old_cx, *ev));
            },
            MdEvent::StartLink(url) => {
                self.link = Some((url.clone(), String::new()));
                assert(self@ =~= spec_step(old_cx, *ev));
            },
            MdEvent::EndLink => {
                match self.link.take() {
                    Some((url, text)) => {
                        assert(self@ =~= CxM { link: None, ..old_cx });
                        self.push_span(MdSpan::Link { text, url });
                    },
                    None => {},
                }
            },
            MdEvent::StartTable => {
                self.flush_paragraph();
                self.table = Some(
                    TableCx {
                        header: Vec::new(),
                        rows: Vec::new(),
                        row: Vec::new(),
                        cell: Vec::new(),
                        in_head: false,
                    },
                );
                proof {
                    let t = self.table.unwrap();
                    assert(cells_view(t.header@) =~= Seq::<Seq<SpanM>>::empty());
                    assert(cells_view(t.row@) =~= Seq::<Seq<SpanM>>::empty());
                    assert(table_rows_view(t.rows@) =~= Seq::<Seq<Seq<SpanM>>>::empty());
                    assert(spans_view(t.cell@) =~= Seq::<SpanM>::empty());
                }
                assert(self@ =~= spec_step(old_cx, *ev));
            },
            MdEvent::EndTable => {
                match self.table.take() {
                    Some(table) => {
                        assert(self@ =~= CxM { table: None, ..old_cx });
                        self.push_block(MdBlock::Table { header: table.header, rows: table.rows });
                    },
                    None => {},
                }
            },
            MdEvent::StartTableHead => {
                match self.table.take() {
                    Some(mut table) => {
                        table.in_head = true;
                        self.table = Some(table);
                    },
                    None => {},
                }
                assert(self@ =~= spec_step(old_cx, *ev));
            },
            MdEvent::EndTableHead => {
                match self.table.take() {
                    Some(mut table) => {
                        table.in_head = false;
                        self.table = Some(table);
                    },
                    None => {},
                }
                assert(self@ =~= spec_step(old_cx, *ev));
            },
            MdEvent::StartTableRow => {
                match self.table.take() {
                    Some(mut table) => {
                        table.row = Vec::new();
                        assert(cells_view(table.row@) =~= Seq::<Seq<SpanM>>::empty());
                        self.table = Some(table);
                    },
                    None => {},
                }
                assert(self@ =~= spec_step(old_cx, *ev));
            },
            MdEvent::EndTableRow => {
                match self.table.take() {
                    Some(mut table) => {
                        let mut row: Vec<Vec<MdSpan>> = Vec::new();
                        std::mem::swap(&mut row, &mut table.row);
                        proof {
                            lemma_rows_push(table.rows@, row);
                        }
                        table.rows.push(row);
                        assert(cells_view(table.row@) =~= Seq::<Seq<SpanM>>::empty());
                        self.table = Some(table);
                    },
                    None => {},
                }
                assert(self@ =~= spec_step(old_cx, *ev));
            },
            MdEvent::StartTableCell => {
                match self.table.take() {
                    Some(mut table) => {
                        table.cell = Vec::new();
                        assert(spans_view(table.cell@) =~= Seq::<SpanM>::empty());
                        self.table = Some(table);
                    },
                    None => {},
                }
                assert(self@ =~= spec_step(old_cx, *ev));
            },
            MdEvent::EndTableCell => {
                match self.table.take() {
                    Some(mut table) => {
                        let mut cell: Vec<MdSpan> = Vec::new();
                        std::mem::swap(&mut cell, &mut table.cell);
                        if table.in_head {
                            proof {
                                lemma_cells_push(table.header@, cell);
                            }
                            table.header.push(cell);
                        } else {
                            proof {
                                lemma_cells_push(table.row@, cell);
                            }
                            table.row.push(cell);
                        }
                        assert(spans_view(table.cell@) =~= Seq::<SpanM>::empty());
                        self.table = Some(table);
                    },
                    None => {},
                }
                assert(self@ =~= spec_step(old_cx, *ev));
            },
            MdEvent::Rule => {
                self.flush_paragraph();
                self.push_block(MdBlock::Rule);
            },
            MdEvent::Text(s) => self.text(s.as_str()),
            MdEvent::Code(s) => {
                match self.link.take() {
                    Some((url, mut text)) => {
                        text.append(s.as_str());
                        self.link = Some((url, text));
                        assert(self@ =~= spec_step(old_cx, *ev));
                    },
                    None => {
                        self.push_span(MdSpan::Code(s.clone()));
                    },
                }
            },
            MdEvent::SoftBreak => {
                proof {
                    reveal_strlit(" ");
                }
                self.text(" ");
                assert(" "@ == seq![' ']);
            },
            MdEvent::HardBreak => {
                proof {
                    reveal_strlit("\n");
                }
                self.text("\n");
                assert("\n"@ == seq!['\n']);
            },
            MdEvent::Html(_) => {},
            MdEvent::Other => {},
        }
    }

    /// End of a quote: a quote on top of the stack is closed into a block;
    /// any other container there is dropped.
    fn close_quote(&mut self)
        ensures
            final(self)@ == (if old(self)@.stack.len() == 0 {
                old(self)@
            } else {
                match old(self)@.stack.last() {
                    ContainerM::Quote(bs) => m_push_block(m_pop(old(self)@), BlockM::Quote(bs)),
                    _ => m_pop(old(self)@),
                }
            }),
    {
        let ghost old_cx = self@;
        if self.stack.len() == 0 {
            return;
        }
        proof {
            lemma_stack_pop(self.stack@);
        }
        let top = self.stack.pop().unwrap();
        assert(self@ =~= m_pop(old_cx));
        match top {
            Container::Quote(blocks) => self.push_block(MdBlock::Quote(blocks)),
            _ => {},
        }
    }

    /// End of a list: a list on top of the stack is closed into a block; any
    /// other container there is dropped.
    fn close_list(&mut self)
        ensures
            final(self)@ == (if old(self)@.stack.len() == 0 {
                old(self)@
            } else {
                match old(self)@.stack.last() {
                    ContainerM::List { start, items } => m_push_block(
                        m_pop(old(self)@),
                        BlockM::List { start, items },
                    ),
                    _ => m_pop(old(self)@),
                }
            }),
    {
        let ghost old_cx = self@;
        if self.stack.len() == 0 {
            return;
        }
        proof {
            lemma_stack_pop(self.stack@);
        }
        let top = self.stack.pop().unwrap();
        assert(self@ =~= m_pop(old_cx));
        match top {
            Container::List { start, items } => self.push_block(MdBlock::List { start, items }),
            _ => {},
        }
    }

    /// End of an item: an item on top of the stack joins the list under it
    /// (and is dropped when no list is there).
    fn close_item(&mut self)
        ensures
            final(self)@ == (if old(self)@.stack.len() == 0 {
                old(self)@
            } else {
                let p = m_pop(old(self)@);
                match old(self)@.stack.last() {
                    ContainerM::Item(bs) => {
                        if p.stack.len() > 0 {
                            match p.stack.last() {
                                ContainerM::List { start, items } => CxM {
                                    stack: p.stack.drop_last().push(
                                        ContainerM::List { start, items: items.push(bs) },
                                    ),
                                    ..p
                                },
                                _ => p,
                            }
                        } else {
                            p
                        }
                    },
                    _ => p,
                }
            }),
    {
        let ghost old_cx = self@;
        if self.stack.len() == 0 {
            return;
        }
        proof {
            lemma_stack_pop(self.stack@);
        }
        let top = self.stack.pop().unwrap();
        assert(self@ =~= m_pop(old_cx));
        let ghost p = self@;
        match top {
            Container::Item(blocks) => {
                if self.stack.len() > 0 {
                    let ghost p_stack = self.stack@;
                    proof {
                        lemma_stack_pop(self.stack@);
                    }
                    let under = self.stack.pop().unwrap();
                    match under {
                        Container::List { start, mut items } => {
                            proof {
                                lemma_items_push(items@, blocks);
                            }
                            items.push(blocks);
                            let c = Container::List { start, items };
                            proof {
                                lemma_stack_push(self.stack@, c);
                            }
                            self.stack.push(c);
                            assert(self@ =~= CxM {
                                stack: p.stack.drop_last().push(
                                    ContainerM::List {
                                        start,
                                        items: items_view(items@.drop_last()).push(blocks_view(blocks@)),
                                    },
                                ),
                                ..p
                            });
                        },
                        other => {
                            self.stack.push(other);
                            assert(self.stack@ =~= p_stack);
                            assert(self@ =~= p);
                        },
                    }
                }
            },
            _ => {},
        }
    }
}

impl ParseCx {
    /// End of input: the pending paragraph is flushed and every container
    /// still open is closed (see [`m_unwind`]); the top-level blocks remain.
    pub fn finish(self) -> (blocks: Vec<MdBlock>)
        ensures
            blocks_view(blocks@) == m_unwind(m_flush(self@)).root,
    {
        let mut cx = self;
        let ghost target = m_unwind(m_flush(cx@));
        cx.flush_paragraph();
        while cx.stack.len() > 0
            invariant
                m_unwind(cx@) == target,
                cx@.stack.len() == cx.stack.len(),
            decreases cx.stack.len(),
        {
            let ghost before = cx@;
            proof {
                lemma_stack_pop(cx.stack@);
            }
            let top = cx.stack.pop().unwrap();
            assert(cx@ =~= m_pop(before));
            let block = match top {
                Container::Quote(blocks) => MdBlock::Quote(blocks),
                Container::Item(blocks) => {
                    let mut items: Vec<Vec<MdBlock>> = Vec::new();
                    proof {
                        lemma_items_push(items@, blocks);
                        assert(items_view(items@) == Seq::<Seq<BlockM>>::empty());
                    }
                    items.push(blocks);
                    assert(items_view(items@) =~= seq![blocks_view(blocks@)]);
                    MdBlock::List { start: None, items }
                },
                Container::List { start, items } => MdBlock::List { start, items },
            };
            proof {
                lemma_push_block_stack(cx@, block_view(block));
            }
            cx.push_block(block);
            proof {
                lemma_stack_pop(cx.stack@.push(top));
            }
        }
        assert(cx@.stack.len() == 0);
        cx.root
    }
}

proof fn lemma_step_counters(cx: CxM, ev: MdEvent)
    ensures
        spec_step(cx, ev).strong <= cx.strong + 1,
        spec_step(cx, ev).emphasis <= cx.emphasis + 1,
        spec_step(cx, ev).strike <= cx.strike + 1,
{
}

/// The blocks `events` describe (see [`spec_parse_events`]).
pub fn parse_events(events: &Vec<MdEvent>) -> (blocks: Vec<MdBlock>)
    ensures
        blocks_view(blocks@) == spec_parse_events(events@),
{
    let mut cx = ParseCx::new();
    let mut i: usize = 0;
    while i < events.len()
        invariant
            i <= events.len(),
            cx@ == spec_fold(m_init(), events@.take(i as int)),
            cx@.strong <= i,
            cx@.emphasis <= i,
            cx@.strike <= i,
        decreases events.len() - i,
    {
        proof {
            assert(events@.take(i + 1).drop_last() == events@.take(i as int));
            lemma_step_counters(cx@, events@[i as int]);
        }
        cx.step(&events[i]);
        i += 1;
    }
    assert(events@.take(events.len() as int) == events@);
    cx.finish()
}

/// Parse markdown `source` into blocks: pulldown-cmark's events for it,
/// folded (see [`parse_events`]).
pub fn parse(source: &str) -> (blocks: Vec<MdBlock>)
    ensures
        blocks_view(blocks@) == spec_parse_events(cmark_events(source@)),
{
    let events = cmark_parse(source);
    parse_events(&events)
}

/// Markdown block widget: `Markdown::new(source)`.
#[derive(Clone, Copy, Debug)]
pub struct Markdown<'a> {
    source: &'a str,
}

impl<'a> Markdown<'a> {
    pub fn new(source: &'a str) -> (m: Markdown<'a>)
        ensures
            m.spec_source() == source,
    {
        Markdown { source }
    }

    pub closed spec fn spec_source(&self) -> &'a str {
        self.source
    }

    /// The blocks this widget shows.
    pub fn blocks(&self) -> (blocks: Vec<MdBlock>)
        ensures
            blocks_view(blocks@) == spec_parse_events(cmark_events(self.spec_source()@)),
    {
        parse(self.source)
    }
}

/* ---------------- laws ---------------- */

/// Whether the block model has no use for `e`: raw HTML and the events
/// it does not model.
pub open spec fn is_unused(e: MdEvent) -> bool {
    e is Html || e is Other
}

/// `evs` without raw HTML and the other events the block model has no use
/// for.
pub open spec fn drop_others(evs: Seq<MdEvent>) -> Seq<MdEvent>
    decreases evs.len(),
{
    if evs.len() == 0 {
        evs
    } else if is_unused(evs.last()) {
        drop_others(evs.drop_last())
    } else {
        drop_others(evs.drop_last()).push(evs.last())
    }
}

proof fn lemma_fold_drop_others(cx: CxM, evs: Seq<MdEvent>)
    ensures
        spec_fold(cx, evs) == spec_fold(cx, drop_others(evs)),
    decreases evs.len(),
{
    if evs.len() > 0 {
        lemma_fold_drop_others(cx, evs.drop_last());
        if !is_unused(evs.last()) {
            let d = drop_others(evs.drop_last()).push(evs.last());
            assert(d.drop_last() =~= drop_others(evs.drop_last()));
        }
    }
}

/// Raw HTML is never rendered: raw HTML and the other events the block
/// model has no use for (images, footnotes, ...) change nothing, so the
/// blocks are those of the other events alone.
pub proof fn lemma_raw_html_dropped(evs: Seq<MdEvent>)
    ensures
        spec_parse_events(evs) == spec_parse_events(drop_others(evs)),
        forall|cx: CxM, h: String| #[trigger] spec_step(cx, MdEvent::Html(h)) == cx,
        forall|cx: CxM| #[trigger] spec_step(cx, MdEvent::Other) == cx,
{
    lemma_fold_drop_others(m_init(), evs);
}

/// Style tags nest: closing a strong, emphasis or strikethrough tag undoes
/// its opening exactly, so a text run is styled only inside its tags; a
/// closing tag with none open changes nothing.
pub proof fn lemma_style_tags_nest(cx: CxM)
    ensures
        cx.strong < u64::MAX ==> spec_step(spec_step(cx, MdEvent::StartStrong), MdEvent::EndStrong) == cx,
        cx.emphasis < u64::MAX ==> spec_step(spec_step(cx, MdEvent::StartEmphasis), MdEvent::EndEmphasis)
            == cx,
        cx.strike < u64::MAX ==> spec_step(spec_step(cx, MdEvent::StartStrike), MdEvent::EndStrike) == cx,
        cx.strong == 0 ==> spec_step(cx, MdEvent::EndStrong) == cx,
        cx.emphasis == 0 ==> spec_step(cx, MdEvent::EndEmphasis) == cx,
        cx.strike == 0 ==> spec_step(cx, MdEvent::EndStrike) == cx,
        cx.strong < u64::MAX ==> spec_step(cx, MdEvent::StartStrong).strong > 0,
        cx.emphasis < u64::MAX ==> spec_step(cx, MdEvent::StartEmphasis).emphasis > 0,
        cx.strike < u64::MAX ==> spec_step(cx, MdEvent::StartStrike).strike > 0,
{
}

} // verus!
