//! The structure of a Markdown body: its headings and its inline tags.
//!
//! Markdown itself is read by `pulldown-cmark`; this module works on the
//! events that it reports.

use vstd::prelude::*;
use crate::refs::{scan_tags, tags_of};
use crate::text::{
    append_chars, byte_length, char_width, chars_eq, from_chars, lemma_utf8_len_subrange, texts,
    to_chars, trim, trim_slice, utf8_len, views,
};

verus! {

// ---------------------------------------------------------------------------
// Events
// ---------------------------------------------------------------------------

/// What the Markdown reader reports, as far as this library looks at it.
#[derive(Debug)]
pub enum MarkdownEvent {
    /// A heading starts. `offset` is the byte offset of its first character.
    HeadingStart { level: u32, offset: usize },
    /// The heading that started last ends.
    HeadingEnd,
    /// Text, inside or outside any element.
    Text(String),
    /// A code block starts.
    CodeBlockStart,
    /// A code block ends.
    CodeBlockEnd,
    /// Anything else, inline code among it.
    Other,
}

/// An event, as a mathematical object.
pub enum EventModel {
    HeadingStart { level: u32, offset: usize },
    HeadingEnd,
    Text(Seq<char>),
    CodeBlockStart,
    CodeBlockEnd,
    Other,
}

impl View for MarkdownEvent {
    type V = EventModel;

    open spec fn view(&self) -> EventModel {
        match self {
            MarkdownEvent::HeadingStart { level, offset } => EventModel::HeadingStart {
                level: *level,
                offset: *offset,
            },
            MarkdownEvent::HeadingEnd => EventModel::HeadingEnd,
            MarkdownEvent::Text(t) => EventModel::Text(t@),
            MarkdownEvent::CodeBlockStart => EventModel::CodeBlockStart,
            MarkdownEvent::CodeBlockEnd => EventModel::CodeBlockEnd,
            MarkdownEvent::Other => EventModel::Other,
        }
    }
}

/// The models of a sequence of events.
pub open spec fn event_views(v: Seq<MarkdownEvent>) -> Seq<EventModel> {
    v.map_values(|e: MarkdownEvent| e@)
}

/// The events that `pulldown-cmark` reports for a text, with its default
/// options, each with the offset at which its source starts.
pub uninterp spec fn markdown_events_of(content: Seq<char>) -> Seq<EventModel>;

/// Reads a Markdown text.
///
/// Trusted: runs `pulldown_cmark::Parser::new(content).into_offset_iter()`
/// and hands each event on as a [`MarkdownEvent`]: the start of a heading with
/// its level (1 to 6) and the start of its source range, the end of a
/// heading, a text, the start and the end of a code block; any other event
/// as `Other`. The contract only names the result.
#[verifier::external_body]
pub(crate) fn markdown_events(content: &str) -> (r: Vec<MarkdownEvent>)
    ensures
        event_views(r@) == markdown_events_of(content@),
{
    pulldown_cmark::Parser::new(content).into_offset_iter().map(
        |(event, range)| match event {
            pulldown_cmark::Event::Start(pulldown_cmark::Tag::Heading { level, .. }) => {
                MarkdownEvent::HeadingStart { level: level as u32, offset: range.start }
            },
            pulldown_cmark::Event::End(pulldown_cmark::TagEnd::Heading(_)) => MarkdownEvent::HeadingEnd,
            pulldown_cmark::Event::Text(text) => MarkdownEvent::Text(text.to_string()),
            pulldown_cmark::Event::Start(pulldown_cmark::Tag::CodeBlock(_)) =>
                MarkdownEvent::CodeBlockStart,
            pulldown_cmark::Event::End(pulldown_cmark::TagEnd::CodeBlock) => MarkdownEvent::CodeBlockEnd,
            _ => MarkdownEvent::Other,
        },
    ).collect()
}

// ---------------------------------------------------------------------------
// Lines of offsets
// ---------------------------------------------------------------------------

/// The number of line feeds of `s` that lie before the byte offset
/// `offset`.
pub open spec fn newlines_before(s: Seq<char>, offset: int) -> nat
    decreases s.len(),
{
    if s.len() == 0 {
        0
    } else {
        newlines_before(s.drop_last(), offset) + if s.last() == '\n' && utf8_len(s.drop_last())
            < offset {
            1nat
        } else {
            0nat
        }
    }
}

/// Line feeds at or after the offset do not count.
proof fn lemma_newlines_before_prefix(s: Seq<char>, k: int, offset: int)
    requires
        0 <= k <= s.len(),
        utf8_len(s.subrange(0, k)) >= offset,
    ensures
        newlines_before(s, offset) == newlines_before(s.subrange(0, k), offset),
    decreases s.len() - k,
{
    if k < s.len() {
        let t = s.drop_last();
        lemma_utf8_len_subrange(t, 0, k);
        assert(t.subrange(0, k) =~= s.subrange(0, k));
        lemma_newlines_before_prefix(t, k, offset);
    } else {
        assert(s.subrange(0, k) =~= s);
    }
}

/// The number of line feeds before a byte offset.
fn count_newlines_before(s: &[char], offset: usize) -> (r: usize)
    requires
        utf8_len(s@) <= usize::MAX,
    ensures
        r == newlines_before(s@, offset as int),
        r <= s@.len(),
{
    let n = s.len();
    let mut count: usize = 0;
    let mut bytes: usize = 0;
    let mut k: usize = 0;
    while k < n && bytes < offset
        invariant
            k <= n,
            n == s@.len(),
            utf8_len(s@) <= usize::MAX,
            bytes == utf8_len(s@.subrange(0, k as int)),
            count == newlines_before(s@.subrange(0, k as int), offset as int),
            count <= k,
        decreases n - k,
    {
        proof {
            assert(s@.subrange(0, k + 1).drop_last() =~= s@.subrange(0, k as int));
            lemma_utf8_len_subrange(s@, 0, k + 1);
        }
        if s[k] == '\n' {
            count += 1;
        }
        bytes = bytes + char_width(s[k]);
        k += 1;
    }
    proof {
        if k < n {
            lemma_newlines_before_prefix(s@, k as int, offset as int);
        } else {
            assert(s@.subrange(0, n as int) =~= s@);
        }
    }
    count
}

// ---------------------------------------------------------------------------
// Headings
// ---------------------------------------------------------------------------

/// A heading.
#[derive(Debug, Clone)]
pub struct Heading {
    /// The level, 1 to 6.
    pub level: u32,
    /// The text, trimmed.
    pub text: String,
    /// The line on which the heading starts.
    pub line: usize,
}

/// A heading, as a mathematical object.
pub struct HeadingModel {
    pub level: u32,
    pub text: Seq<char>,
    pub line: int,
}

impl View for Heading {
    type V = HeadingModel;

    open spec fn view(&self) -> HeadingModel {
        HeadingModel { level: self.level, text: self.text@, line: self.line as int }
    }
}

/// The models of a sequence of headings.
pub open spec fn heading_views(v: Seq<Heading>) -> Seq<HeadingModel> {
    v.map_values(|h: Heading| h@)
}

/// The state of the walk that collects headings.
pub struct HeadingState {
    /// The headings that have ended.
    pub headings: Seq<HeadingModel>,
    /// Level and line of the open heading.
    pub open: Option<(u32, int)>,
    /// The text of the open heading so far.
    pub text: Seq<char>,
}

/// The state after one more event. The text of a heading is the text events
/// between its start and its end; a heading whose trimmed text is empty is
/// dropped.
pub open spec fn heading_step(
    st: HeadingState,
    e: EventModel,
    content: Seq<char>,
    start_line: int,
) -> HeadingState {
    match e {
        EventModel::HeadingStart { level, offset } => HeadingState {
            open: Some((level, start_line + newlines_before(content, offset as int))),
            text: Seq::empty(),
            ..st
        },
        EventModel::Text(t) => if st.open is Some {
            HeadingState { text: st.text + t, ..st }
        } else {
            st
        },
        EventModel::HeadingEnd => match st.open {
            Some((level, line)) => HeadingState {
                headings: if trim(st.text).len() > 0 {
                    st.headings.push(HeadingModel { level, text: trim(st.text), line })
                } else {
                    st.headings
                },
                open: None,
                text: Seq::empty(),
            },
            None => HeadingState { text: Seq::empty(), ..st },
        },
        _ => st,
    }
}

/// The state after the first `k` events.
pub open spec fn heading_state(
    events: Seq<EventModel>,
    content: Seq<char>,
    start_line: int,
    k: int,
) -> HeadingState
    decreases k,
{
    if k <= 0 || k > events.len() {
        HeadingState { headings: Seq::empty(), open: None, text: Seq::empty() }
    } else {
        heading_step(
            heading_state(events, content, start_line, k - 1),
            events[k - 1],
            content,
            start_line,
        )
    }
}

/// The headings that a sequence of events holds. The line of a heading is
/// `start_line` plus the number of line feeds before its offset.
pub open spec fn headings_of(events: Seq<EventModel>, content: Seq<char>, start_line: int) -> Seq<
    HeadingModel,
> {
    heading_state(events, content, start_line, events.len() as int).headings
}

/// Collects the headings from the events of a text.
pub fn headings_from_events(events: &Vec<MarkdownEvent>, content: &str, start_line: usize) -> (r:
    Vec<Heading>)
    requires
        start_line + content@.len() <= usize::MAX,
    ensures
        heading_views(r@) == headings_of(event_views(events@), content@, start_line as int),
{
    let bytes = byte_length(content);
    let chars = to_chars(content);
    let ghost evs = event_views(events@);
    let mut r: Vec<Heading> = Vec::new();
    let mut open: Option<(u32, usize)> = None;
    let mut text: Vec<char> = Vec::new();
    let mut k: usize = 0;
    assert(heading_views(r@) =~= Seq::<HeadingModel>::empty());
    while k < events.len()
        invariant
            k <= events.len(),
            evs == event_views(events@),
            chars@ == content@,
            utf8_len(content@) <= usize::MAX,
            start_line + content@.len() <= usize::MAX,
            heading_state(evs, content@, start_line as int, k as int) == (HeadingState {
                headings: heading_views(r@),
                open: match open {
                    Some((level, line)) => Some((level, line as int)),
                    None => None,
                },
                text: text@,
            }),
        decreases events.len() - k,
    {
        assert(evs[k as int] == events@[k as int]@);
        match &events[k] {
            MarkdownEvent::HeadingStart { level, offset } => {
                let count = count_newlines_before(chars.as_slice(), *offset);
                open = Some((*level, start_line + count));
                text = Vec::new();
            },
            MarkdownEvent::Text(t) => {
                if open.is_some() {
                    let more = to_chars(t.as_str());
                    append_chars(&mut text, more.as_slice());
                }
            },
            MarkdownEvent::HeadingEnd => {
                match open {
                    Some((level, line)) => {
                        let trimmed = trim_slice(text.as_slice());
                        if trimmed.len() > 0 {
                            let ghost before = r@;
                            let h = Heading { level, text: from_chars(trimmed), line };
                            r.push(h);
                            proof {
                                assert(heading_views(r@) =~= heading_views(before).push(h@));
                            }
                        }
                    },
                    None => {},
                }
                open = None;
                text = Vec::new();
            },
            _ => {},
        }
        k += 1;
    }
    r
}

/// Extracts the headings of a Markdown text, whose first line has the
/// number `start_line`. Headings in code blocks are text, not headings.
pub fn extract_headings(content: &str, start_line: usize) -> (r: Vec<Heading>)
    requires
        start_line + content@.len() <= usize::MAX,
    ensures
        heading_views(r@) == headings_of(
            markdown_events_of(content@),
            content@,
            start_line as int,
        ),
{
    let events = markdown_events(content);
    headings_from_events(&events, content, start_line)
}

// ---------------------------------------------------------------------------
// Inline tags
// ---------------------------------------------------------------------------

/// `base` with those of the first `k` of `items` added that it does not hold
/// yet, in their order.
pub open spec fn add_unique(base: Seq<Seq<char>>, items: Seq<Seq<char>>, k: int) -> Seq<Seq<char>>
    decreases k,
{
    if k <= 0 || k > items.len() {
        base
    } else {
        let before = add_unique(base, items, k - 1);
        if before.contains(items[k - 1]) {
            before
        } else {
            before.push(items[k - 1])
        }
    }
}

/// `base` with all of `items` added that it does not hold yet.
pub open spec fn with_unique(base: Seq<Seq<char>>, items: Seq<Seq<char>>) -> Seq<Seq<char>> {
    add_unique(base, items, items.len() as int)
}

/// Whether `tags` holds the tag `name`.
pub fn holds_tag(tags: &Vec<String>, name: &[char]) -> (r: bool)
    ensures
        r == texts(tags@).contains(name@),
{
    let mut i: usize = 0;
    while i < tags.len()
        invariant
            i <= tags.len(),
            forall|k: int| 0 <= k < i ==> texts(tags@)[k] != name@,
        decreases tags.len() - i,
    {
        let t = to_chars(tags[i].as_str());
        if chars_eq(t.as_slice(), name) {
            assert(texts(tags@)[i as int] == name@);
            return true;
        }
        i += 1;
    }
    false
}

/// Adds to `tags` those of `items` that it does not hold yet.
pub fn add_tags(tags: &mut Vec<String>, items: &Vec<Vec<char>>)
    ensures
        texts(final(tags)@) == with_unique(texts(old(tags)@), views(items@)),
{
    let ghost base = texts(tags@);
    let ghost its = views(items@);
    let mut k: usize = 0;
    while k < items.len()
        invariant
            k <= items.len(),
            its == views(items@),
            texts(tags@) == add_unique(base, its, k as int),
        decreases items.len() - k,
    {
        assert(its[k as int] == items@[k as int]@);
        if !holds_tag(tags, items[k].as_slice()) {
            let ghost before = tags@;
            let name = from_chars(items[k].as_slice());
            tags.push(name);
            proof {
                assert(texts(tags@) =~= texts(before).push(name@));
            }
        }
        k += 1;
    }
}

/// The state of the walk that collects inline tags.
pub struct TagState {
    /// The tags found so far, each once.
    pub tags: Seq<Seq<char>>,
    /// Whether the walk is inside a code block.
    pub in_code: bool,
}

/// The state after one more event: the tags of a text outside code blocks
/// are added, each once.
pub open spec fn tag_step(st: TagState, e: EventModel) -> TagState {
    match e {
        EventModel::CodeBlockStart => TagState { in_code: true, ..st },
        EventModel::CodeBlockEnd => TagState { in_code: false, ..st },
        EventModel::Text(t) => if st.in_code {
            st
        } else {
            TagState { tags: with_unique(st.tags, tags_of(t)), ..st }
        },
        _ => st,
    }
}

/// The state after the first `k` events.
pub open spec fn tag_state(events: Seq<EventModel>, k: int) -> TagState
    decreases k,
{
    if k <= 0 || k > events.len() {
        TagState { tags: Seq::empty(), in_code: false }
    } else {
        tag_step(tag_state(events, k - 1), events[k - 1])
    }
}

/// The inline tags that a sequence of events holds: the tags of its texts
/// outside code, in the order of their first occurrence, each once.
pub open spec fn inline_tags_of(events: Seq<EventModel>) -> Seq<Seq<char>> {
    tag_state(events, events.len() as int).tags
}

/// Collects the inline tags from the events of a text.
pub fn tags_from_events(events: &Vec<MarkdownEvent>) -> (r: Vec<String>)
    ensures
        texts(r@) == inline_tags_of(event_views(events@)),
{
    let ghost evs = event_views(events@);
    let mut r: Vec<String> = Vec::new();
    let mut in_code = false;
    let mut k: usize = 0;
    assert(texts(r@) =~= Seq::<Seq<char>>::empty());
    while k < events.len()
        invariant
            k <= events.len(),
            evs == event_views(events@),
            tag_state(evs, k as int) == (TagState { tags: texts(r@), in_code }),
        decreases events.len() - k,
    {
        assert(evs[k as int] == events@[k as int]@);
        match &events[k] {
            MarkdownEvent::CodeBlockStart => {
                in_code = true;
            },
            MarkdownEvent::CodeBlockEnd => {
                in_code = false;
            },
            MarkdownEvent::Text(t) => {
                if !in_code {
                    let chars = to_chars(t.as_str());
                    let found = scan_tags(chars.as_slice());
                    add_tags(&mut r, &found);
                }
            },
            _ => {},
        }
        k += 1;
    }
    r
}

/// Extracts the inline `#tags` of a Markdown text: those in its text, not
/// those in code blocks or inline code.
pub fn extract_inline_tags(content: &str) -> (r: Vec<String>)
    ensures
        texts(r@) == inline_tags_of(markdown_events_of(content@)),
{
    let events = markdown_events(content);
    tags_from_events(&events)
}

/// No heading lies before the first line.
pub proof fn lemma_heading_lines(events: Seq<EventModel>, content: Seq<char>, start_line: int, k: int)
    ensures
        forall|i: int|
            0 <= i < heading_state(events, content, start_line, k).headings.len() ==> (
            #[trigger] heading_state(events, content, start_line, k).headings[i]).line >= start_line,
        heading_state(events, content, start_line, k).open matches Some((level, line)) ==> line
            >= start_line,
    decreases k,
{
    if 0 < k <= events.len() {
        lemma_heading_lines(events, content, start_line, k - 1);
    }
}

} // verus!
